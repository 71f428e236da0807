//! Removing a worktree.

use crate::config::{Config, ConfigModel};
use crate::error::{Error, ErrorModel};
use crate::git;
use crate::git::{check_run, Facts, Known, Query, Reply, ReplyModel, Stop, StopModel, Topic};
use crate::hooks;
use crate::hooks::{run_hooks, PRE_REMOVE};
use crate::path;
use crate::path::is_same_path;
use crate::repo;
use crate::repo::{
    branch_exists, branch_tips, default_branch, home_checkout, resolve_worktree, Repo, RepoModel,
};
use crate::text::{copy_texts, empty_list, grow, same, Text};
use vstd::prelude::*;

verus! {

/// What is to be done to remove a worktree. All commands run in the main worktree,
/// since the one to be removed may be the current one.
pub struct Removal<S = String, L = Vec<String>> {
    /// Where the worktree lies.
    pub path: S,
    /// The program was started in it.
    pub leaving: bool,
    /// The arguments of git that remove it.
    pub args: L,
    /// The arguments of git that then delete its branch, if that was asked for.
    pub delete: Option<L>,
}

/// The value of a removal.
pub type RemovalModel = Removal<Text, Seq<Text>>;

impl DeepView for Removal<String, Vec<String>> {
    type V = RemovalModel;

    open spec fn deep_view(&self) -> RemovalModel {
        Removal {
            path: self.path@,
            leaving: self.leaving,
            args: self.args.deep_view(),
            delete: self.delete.deep_view(),
        }
    }
}

/// Whether the working tree `root` is the worktree at `p`.
pub open spec fn stands_in(known: Known, root: Option<Text>, p: Text) -> Result<bool, StopModel> {
    match root {
        None => Ok(false),
        Some(dir) => match git::resolved(known, git::query(Topic::Canonical, ""@, dir, ""@)) {
            Err(stop) => Err(stop),
            Ok(None) => Ok(false),
            Ok(Some(here)) => match git::resolved(
                known,
                git::query(Topic::Canonical, ""@, p, ""@),
            ) {
                Err(stop) => Err(stop),
                Ok(None) => Ok(false),
                Ok(Some(there)) => Ok(path::same_path(here, there)),
            },
        },
    }
}

/// The arguments that remove the worktree at `p`.
pub open spec fn remove_args(p: Text, force: bool) -> Seq<Text> {
    if force {
        seq!["worktree"@, "remove"@, "--force"@, p]
    } else {
        seq!["worktree"@, "remove"@, p]
    }
}

/// The arguments that delete `branch`: `force` deletes one that is not merged, too.
pub open spec fn delete_args(branch: Text, force: bool) -> Seq<Text> {
    seq![
        "branch"@,
        if force {
            "-D"@
        } else {
            "-d"@
        },
        branch,
    ]
}

/// What is to be done to remove the worktree that `branch` means.
pub open spec fn removal(
    known: Known,
    repo: RepoModel,
    cfg: ConfigModel,
    branch: Text,
    force: bool,
    delete_branch: bool,
) -> Result<RemovalModel, StopModel> {
    match repo::worktree_named(known, repo, cfg, branch) {
        Err(stop) => Err(stop),
        Ok(p) => match stands_in(known, repo.root, p) {
            Err(stop) => Err(stop),
            Ok(leaving) => Ok(
                Removal {
                    path: p,
                    leaving,
                    args: remove_args(p, force),
                    delete: if delete_branch {
                        Some(delete_args(branch, force))
                    } else {
                        None
                    },
                },
            ),
        },
    }
}

fn check_stands_in(facts: &Facts, root: &Option<String>, p: &str) -> (r: Result<bool, Stop>)
    ensures
        git::agrees(r, stands_in(facts@, root.deep_view(), p@)),
{
    let dir = match root {
        Some(dir) => dir.as_str(),
        None => {
            return Ok(false);
        },
    };
    let here = match facts.resolve(Query::new(Topic::Canonical, "", dir, ""))? {
        Some(here) => here,
        None => {
            return Ok(false);
        },
    };
    match facts.resolve(Query::new(Topic::Canonical, "", p, ""))? {
        Some(there) => Ok(is_same_path(here.as_str(), there.as_str())),
        None => Ok(false),
    }
}

fn make_delete_args(branch: &str, force: bool) -> (r: Vec<String>)
    ensures
        r.deep_view() == delete_args(branch@, force),
{
    let mut args: Vec<String> = empty_list();
    grow(&mut args, "branch".to_owned());
    if force {
        grow(&mut args, "-D".to_owned());
    } else {
        grow(&mut args, "-d".to_owned());
    }
    grow(&mut args, branch.to_owned());
    assert(args.deep_view() =~= delete_args(branch@, force));
    args
}

/// Finds out what is to be done to remove the worktree that `branch` means.
pub fn rm(
    facts: &Facts,
    repo: &Repo,
    cfg: &Config,
    branch: &str,
    force: bool,
    delete_branch: bool,
) -> (r: Result<Removal, Stop>)
    ensures
        git::agrees(
            r,
            removal(
                facts@,
                repo.deep_view(),
                cfg.deep_view(),
                branch@,
                force,
                delete_branch,
            ),
        ),
{
    let path = resolve_worktree(facts, repo, cfg, branch)?;
    let leaving = check_stands_in(facts, &repo.root, path.as_str())?;
    let mut args: Vec<String> = empty_list();
    grow(&mut args, "worktree".to_owned());
    grow(&mut args, "remove".to_owned());
    if force {
        grow(&mut args, "--force".to_owned());
    }
    grow(&mut args, path.clone());
    assert(args.deep_view() =~= remove_args(path@, force));
    let delete: Option<Vec<String>> = if delete_branch {
        Some(make_delete_args(branch, force))
    } else {
        None
    };
    Ok(Removal { path, leaving, args, delete })
}

/// Whether `branch` has no commit that the trunk lacks.
pub open spec fn nothing_beyond(known: Known, dir: Text, trunk: Text, branch: Text) -> Result<
    bool,
    StopModel,
> {
    match git::optional(known, git::query(Topic::Beyond, dir, trunk, branch)) {
        Err(stop) => Err(stop),
        Ok(out) => Ok(out == Some("0"@)),
    }
}

/// Whether `branch`, whose worktree is gone, is left over: it is a local branch
/// other than the trunk, and without a commit that the trunk lacks. `known` is what
/// has been learned since the worktree went.
pub open spec fn left_over(known: Known, repo: RepoModel, cfg: ConfigModel, branch: Text) -> Result<
    bool,
    StopModel,
> {
    match repo::is_local(known, repo.main, branch) {
        Err(stop) => Err(stop),
        Ok(false) => Ok(false),
        Ok(true) => match repo::local_tips(known, repo.main) {
            Err(stop) => Err(stop),
            Ok(tips) => match repo::trunk(known, repo.main, cfg, tips) {
                Err(stop) => Err(stop),
                Ok(None) => Ok(false),
                Ok(Some(trunk)) => if trunk == branch {
                    Ok(false)
                } else {
                    nothing_beyond(known, repo.main, trunk, branch)
                },
            },
        },
    }
}

/// The arguments that delete `branch` if it is left over.
pub open spec fn clearance(known: Known, repo: RepoModel, cfg: ConfigModel, branch: Text) -> Result<
    Option<Seq<Text>>,
    StopModel,
> {
    match left_over(known, repo, cfg, branch) {
        Err(stop) => Err(stop),
        Ok(empty) => Ok(
            if empty {
                Some(delete_args(branch, true))
            } else {
                None
            },
        ),
    }
}

fn is_left_over(facts: &Facts, repo: &Repo, cfg: &Config, branch: &str) -> (r: Result<bool, Stop>)
    ensures
        git::agrees(r, left_over(facts@, repo.deep_view(), cfg.deep_view(), branch@)),
{
    let dir = repo.main.as_str();
    if !branch_exists(facts, dir, branch)? {
        return Ok(false);
    }
    let tips = branch_tips(facts, dir)?;
    let trunk = match default_branch(facts, dir, cfg, &tips)? {
        Some(trunk) => trunk,
        None => {
            return Ok(false);
        },
    };
    if same(trunk.as_str(), branch) {
        return Ok(false);
    }
    match facts.try_capture(Query::new(Topic::Beyond, dir, trunk.as_str(), branch))? {
        Some(out) => Ok(same(out.as_str(), "0")),
        None => Ok(false),
    }
}

/// Once the worktree of `branch` is gone: the arguments of git that delete the
/// branch if it is left over. The facts are to be learned afresh.
pub fn clear_branch(facts: &Facts, repo: &Repo, cfg: &Config, branch: &str) -> (r: Result<
    Option<Vec<String>>,
    Stop,
>)
    ensures
        git::agrees(r, clearance(facts@, repo.deep_view(), cfg.deep_view(), branch@)),
{
    if is_left_over(facts, repo, cfg, branch)? {
        Ok(Some(make_delete_args(branch, true)))
    } else {
        Ok(None)
    }
}

// ---------------------------------------------------------------------------
// Step by step
// ---------------------------------------------------------------------------

/// How far a removal has come.
#[derive(Clone, Copy, PartialEq, Eq, Structural, Debug)]
pub enum Stage {
    /// Nothing has been done.
    Planned,
    /// The hooks have run.
    Announced,
    /// The worktree is gone.
    Removed,
    /// The branch has been dealt with.
    Settled,
}

/// What is to be done next. Once it is done, ask again at the stage `next`, with facts
/// that are learned afresh.
pub enum RmStep<S = String, L = Vec<String>> {
    /// Run these commands in the worktree; the first that fails ends the removal.
    Hooks { commands: L, next: Stage },
    /// Run git with these arguments in the main worktree. If that is not `vital`, its
    /// failure is passed over.
    Git { args: L, vital: bool, next: Stage },
    /// Say that the worktree is gone, and go to `home` if there is one.
    Finish { home: Option<S> },
}

/// The value of a step.
pub type RmStepModel = RmStep<Text, Seq<Text>>;

impl DeepView for RmStep<String, Vec<String>> {
    type V = RmStepModel;

    open spec fn deep_view(&self) -> RmStepModel {
        match self {
            RmStep::Hooks { commands, next } => RmStep::Hooks {
                commands: commands.deep_view(),
                next: *next,
            },
            RmStep::Git { args, vital, next } => RmStep::Git {
                args: args.deep_view(),
                vital: *vital,
                next: *next,
            },
            RmStep::Finish { home } => RmStep::Finish { home: home.deep_view() },
        }
    }
}

/// The last step: who stood in the worktree is sent home.
pub open spec fn farewell(known: Known, repo: RepoModel, cfg: ConfigModel, leaving: bool) -> Result<
    RmStepModel,
    StopModel,
> {
    if !leaving {
        Ok(RmStep::Finish { home: None })
    } else {
        match repo::home_dir(known, repo, cfg) {
            Err(stop) => Err(stop),
            Ok(dir) => Ok(RmStep::Finish { home: Some(dir) }),
        }
    }
}

/// The next step of the removal `plan` of the worktree that `branch` means: the hooks,
/// the worktree, the branch, the end. The branch is deleted if that was asked for, and
/// else if it is left over.
pub open spec fn removal_step(
    known: Known,
    repo: RepoModel,
    cfg: ConfigModel,
    branch: Text,
    plan: RemovalModel,
    stage: Stage,
) -> Result<RmStepModel, StopModel> {
    match stage {
        Stage::Planned => Ok(
            RmStep::Hooks {
                commands: hooks::runs(cfg, PRE_REMOVE@, repo, branch, plan.path),
                next: Stage::Announced,
            },
        ),
        Stage::Announced => Ok(
            RmStep::Git { args: plan.args, vital: true, next: Stage::Removed },
        ),
        Stage::Removed => match plan.delete {
            Some(args) => Ok(RmStep::Git { args, vital: true, next: Stage::Settled }),
            None => match clearance(known, repo, cfg, branch) {
                Err(stop) => Err(stop),
                Ok(Some(args)) => Ok(RmStep::Git { args, vital: false, next: Stage::Settled }),
                Ok(None) => farewell(known, repo, cfg, plan.leaving),
            },
        },
        Stage::Settled => farewell(known, repo, cfg, plan.leaving),
    }
}

fn finish(facts: &Facts, repo: &Repo, cfg: &Config, leaving: bool) -> (r: Result<RmStep, Stop>)
    ensures
        git::agrees(r, farewell(facts@, repo.deep_view(), cfg.deep_view(), leaving)),
{
    if !leaving {
        return Ok(RmStep::Finish { home: None });
    }
    let home = home_checkout(facts, repo, cfg)?;
    Ok(RmStep::Finish { home: Some(home) })
}

/// Finds out the next step of the removal `plan` of the worktree that `branch` means.
pub fn rm_step(
    facts: &Facts,
    repo: &Repo,
    cfg: &Config,
    branch: &str,
    plan: &Removal,
    stage: Stage,
) -> (r: Result<RmStep, Stop>)
    ensures
        git::agrees(
            r,
            removal_step(
                facts@,
                repo.deep_view(),
                cfg.deep_view(),
                branch@,
                plan.deep_view(),
                stage,
            ),
        ),
{
    match stage {
        Stage::Planned => {
            let commands = run_hooks(cfg, PRE_REMOVE, repo, branch, plan.path.as_str());
            Ok(RmStep::Hooks { commands, next: Stage::Announced })
        },
        Stage::Announced => Ok(
            RmStep::Git { args: copy_texts(&plan.args), vital: true, next: Stage::Removed },
        ),
        Stage::Removed => match &plan.delete {
            Some(args) => Ok(
                RmStep::Git { args: copy_texts(args), vital: true, next: Stage::Settled },
            ),
            None => match clear_branch(facts, repo, cfg, branch)? {
                Some(args) => Ok(RmStep::Git { args, vital: false, next: Stage::Settled }),
                None => finish(facts, repo, cfg, plan.leaving),
            },
        },
        Stage::Settled => finish(facts, repo, cfg, plan.leaving),
    }
}

/// What became of a step's git command, run with `args`.
pub open spec fn step_outcome(args: Seq<Text>, vital: bool, reply: ReplyModel) -> Result<
    (),
    ErrorModel,
> {
    if vital {
        git::outcome(args, reply)
    } else {
        Ok(())
    }
}

/// Tells what became of a step's git command, run with `args`.
pub fn check_step(args: Vec<String>, vital: bool, reply: Reply) -> (r: Result<(), Error>)
    ensures
        git::same_outcome(r, step_outcome(args.deep_view(), vital, reply.deep_view())),
{
    if vital {
        check_run(args, reply)
    } else {
        Ok(())
    }
}

} // verus!
