//! Creating a worktree for a branch.

use crate::config::{Config, ConfigModel};
use crate::error::{Error, ErrorModel};
use crate::git;
use crate::git::{check_run, Facts, Known, Query, Reply, ReplyModel, Stop, StopModel, Topic};
use crate::hooks;
use crate::hooks::{run_hooks, POST_CREATE};
use crate::porcelain;
use crate::porcelain::parse_worktree;
use crate::repo;
use crate::repo::{branch_exists, choose_remote, worktree_path_for, Repo, RepoModel};
use crate::report;
use crate::report::created;
use crate::text::{copy_texts, empty_list, grow, Text};
use vstd::prelude::*;

verus! {

/// What is asked for.
pub struct Request<S = String> {
    pub branch: S,
    /// Make a new branch.
    pub new_branch: bool,
    /// Make a new branch that starts here.
    pub base: Option<S>,
    /// The remote to track the branch on.
    pub remote: Option<S>,
    /// Fetch before looking at the remotes.
    pub fetch: bool,
}

/// The value of a request.
pub type RequestModel = Request<Text>;

impl DeepView for Request<String> {
    type V = RequestModel;

    open spec fn deep_view(&self) -> RequestModel {
        Request {
            branch: self.branch@,
            new_branch: self.new_branch,
            base: self.base.deep_view(),
            remote: self.remote.deep_view(),
            fetch: self.fetch,
        }
    }
}

/// How a worktree is created.
pub struct Creation<S = String, L = Vec<String>> {
    /// The arguments of git that create it.
    pub args: L,
    /// Where it will lie.
    pub path: S,
    /// What its branch will track.
    pub tracking: Option<S>,
}

/// The value of a creation.
pub type CreationModel = Creation<Text, Seq<Text>>;

impl DeepView for Creation<String, Vec<String>> {
    type V = CreationModel;

    open spec fn deep_view(&self) -> CreationModel {
        Creation {
            args: self.args.deep_view(),
            path: self.path@,
            tracking: self.tracking.deep_view(),
        }
    }
}

/// What is to be done next.
pub enum AddStep<S = String, L = Vec<String>> {
    /// Run git with these arguments, and ask again. A failure is only worth a
    /// warning.
    Fetch { args: L },
    /// Create the worktree, and do what follows (see [`add_next`]).
    Create(Creation<S, L>),
}

/// The value of a step.
pub type AddStepModel = AddStep<Text, Seq<Text>>;

impl DeepView for AddStep<String, Vec<String>> {
    type V = AddStepModel;

    open spec fn deep_view(&self) -> AddStepModel {
        match self {
            AddStep::Fetch { args } => AddStep::Fetch { args: args.deep_view() },
            AddStep::Create(plan) => AddStep::Create(plan.deep_view()),
        }
    }
}

/// True if the request is for a new branch, whatever the remotes have.
pub open spec fn forces_new(req: RequestModel) -> bool {
    req.new_branch || req.base is Some
}

/// The arguments that make the new branch `branch` at `path`, from `base` or from
/// HEAD.
pub open spec fn new_branch_tail(branch: Text, path: Text, base: Option<Text>) -> Seq<Text> {
    seq!["-b"@, branch, path] + match base {
        Some(start) => seq![start],
        None => Seq::empty(),
    }
}

/// Appends the arguments that make the new branch `branch` at `path`.
pub fn new_branch_args(args: &mut Vec<String>, branch: &str, path: &str, base: Option<&str>)
    ensures
        final(args).deep_view() == old(args).deep_view() + new_branch_tail(
            branch@,
            path@,
            base.deep_view(),
        ),
{
    let ghost before = args.deep_view();
    grow(args, "-b".to_owned());
    grow(args, branch.to_owned());
    grow(args, path.to_owned());
    if let Some(start) = base {
        grow(args, start.to_owned());
    }
    assert(args.deep_view() =~= before + new_branch_tail(branch@, path@, base.deep_view()));
}

/// Why the request cannot be met, given whether the branch exists locally.
pub open spec fn objection(
    known: Known,
    dir: Text,
    req: RequestModel,
    local: bool,
) -> Result<(), StopModel> {
    if req.remote is Some && forces_new(req) {
        Err(Stop::Fail(Error::RemoteWithNewBranch))
    } else if req.remote is Some && local {
        Err(Stop::Fail(Error::RemoteWithLocalBranch { branch: req.branch }))
    } else if local && forces_new(req) {
        Err(Stop::Fail(Error::BranchExists { branch: req.branch }))
    } else if local {
        match git::required(known, git::query(Topic::Worktrees, dir, ""@, ""@)) {
            Err(stop) => Err(stop),
            Ok(out) => match porcelain::checkout_of(porcelain::worktrees(out), req.branch) {
                Some(path) => Err(
                    Stop::Fail(Error::AlreadyCheckedOut { branch: req.branch, path }),
                ),
                None => Ok(()),
            },
        }
    } else {
        Ok(())
    }
}

/// The start of a new branch: the one asked for, else the configured one.
pub open spec fn start_of(req: RequestModel, cfg: ConfigModel) -> Option<Text> {
    match req.base {
        Some(base) => Some(base),
        None => cfg.base,
    }
}

/// The step that creates the worktree with these further arguments.
pub open spec fn creation(path: Text, tail: Seq<Text>, tracking: Option<Text>) -> AddStepModel {
    AddStep::Create(Creation { args: seq!["worktree"@, "add"@] + tail, path, tracking })
}

/// The step for a branch that some remote may have: a local branch tracks the
/// remote's, or else is new.
pub open spec fn from_remote(
    req: RequestModel,
    cfg: ConfigModel,
    path: Text,
    remote: Option<Text>,
) -> AddStepModel {
    match remote {
        Some(name) => {
            let full = name + "/"@ + req.branch;
            creation(path, seq!["--track"@, "-b"@, req.branch, path, full], Some(full))
        },
        None => creation(path, new_branch_tail(req.branch, path, start_of(req, cfg)), None),
    }
}

/// The arguments that fetch from `remote`, or from all.
pub open spec fn fetch_args(remote: Option<Text>) -> Seq<Text> {
    seq![
        "fetch"@,
        "--quiet"@,
        match remote {
            Some(name) => name,
            None => "--all"@,
        },
    ]
}

/// The step for a request that nothing speaks against.
pub open spec fn resolution(
    known: Known,
    dir: Text,
    cfg: ConfigModel,
    req: RequestModel,
    fetched: bool,
    path: Text,
    local: bool,
) -> Result<AddStepModel, StopModel> {
    if forces_new(req) {
        Ok(creation(path, new_branch_tail(req.branch, path, start_of(req, cfg)), None))
    } else if local {
        Ok(creation(path, seq![path, req.branch], None))
    } else if (req.fetch || cfg.fetch == Some(true)) && !fetched {
        Ok(AddStep::Fetch { args: fetch_args(req.remote) })
    } else {
        match repo::remote_for(known, dir, req.branch, req.remote) {
            Err(stop) => Err(stop),
            Ok(remote) => Ok(from_remote(req, cfg, path, remote)),
        }
    }
}

/// The next step towards a worktree as `req` asks for. `fetched` says that a step
/// has been to fetch.
pub open spec fn added(
    known: Known,
    repo: RepoModel,
    cfg: ConfigModel,
    req: RequestModel,
    fetched: bool,
) -> Result<AddStepModel, StopModel> {
    let dir = repo::work_dir(repo);
    let path = repo::worktree_path(repo, cfg, req.branch);
    match git::succeeds(known, git::query(Topic::Exists, ""@, path, ""@)) {
        Err(stop) => Err(stop),
        Ok(true) => Err(Stop::Fail(Error::PathExists { path })),
        Ok(false) => match repo::is_local(known, dir, req.branch) {
            Err(stop) => Err(stop),
            Ok(local) => match objection(known, dir, req, local) {
                Err(stop) => Err(stop),
                Ok(_) => resolution(known, dir, cfg, req, fetched, path, local),
            },
        },
    }
}

fn check_request(facts: &Facts, dir: &str, req: &Request, local: bool) -> (r: Result<(), Stop>)
    ensures
        match (r, objection(facts@, dir@, req.deep_view(), local)) {
            (Ok(_), Ok(_)) => true,
            (Err(a), Err(b)) => a.deep_view() == b,
            _ => false,
        },
{
    let force_new = req.new_branch || req.base.is_some();
    if req.remote.is_some() {
        if force_new {
            return Err(Stop::Fail(Error::RemoteWithNewBranch));
        }
        if local {
            return Err(
                Stop::Fail(Error::RemoteWithLocalBranch { branch: req.branch.clone() }),
            );
        }
    }
    if local {
        if force_new {
            return Err(Stop::Fail(Error::BranchExists { branch: req.branch.clone() }));
        }
        let out = facts.require(Query::new(Topic::Worktrees, dir, "", ""))?;
        if let Some(path) = parse_worktree(out.as_str(), req.branch.as_str()) {
            return Err(
                Stop::Fail(Error::AlreadyCheckedOut { branch: req.branch.clone(), path }),
            );
        }
    }
    Ok(())
}

fn as_text(t: &Option<String>) -> (r: Option<&str>)
    ensures
        r.deep_view() == t.deep_view(),
{
    match t {
        Some(s) => Some(s.as_str()),
        None => None,
    }
}

fn worktree_add() -> (r: Vec<String>)
    ensures
        r.deep_view() == seq!["worktree"@, "add"@],
{
    let mut args: Vec<String> = empty_list();
    grow(&mut args, "worktree".to_owned());
    grow(&mut args, "add".to_owned());
    args
}

fn create_new(cfg: &Config, req: &Request, path: String) -> (r: AddStep)
    ensures
        r.deep_view() == creation(
            path@,
            new_branch_tail(
                req.branch@,
                path@,
                start_of(req.deep_view(), cfg.deep_view()),
            ),
            None,
        ),
{
    let mut args = worktree_add();
    let start: Option<&str> = match &req.base {
        Some(base) => Some(base.as_str()),
        None => as_text(&cfg.base),
    };
    new_branch_args(&mut args, req.branch.as_str(), path.as_str(), start);
    AddStep::Create(Creation { args, path, tracking: None })
}

/// Finds out the next step towards a worktree as `req` asks for.
pub fn add(facts: &Facts, repo: &Repo, cfg: &Config, req: &Request, fetched: bool) -> (r: Result<
    AddStep,
    Stop,
>)
    ensures
        git::agrees(
            r,
            added(facts@, repo.deep_view(), cfg.deep_view(), req.deep_view(), fetched),
        ),
{
    let dir = repo.cwd();
    let branch = req.branch.as_str();
    let path = worktree_path_for(repo, cfg, branch);
    if facts.holds(Query::new(Topic::Exists, "", path.as_str(), ""))? {
        return Err(Stop::Fail(Error::PathExists { path }));
    }
    let local = branch_exists(facts, dir, branch)?;
    check_request(facts, dir, req, local)?;
    if req.new_branch || req.base.is_some() {
        return Ok(create_new(cfg, req, path));
    }
    let mut args = worktree_add();
    if local {
        grow(&mut args, path.clone());
        grow(&mut args, branch.to_owned());
        assert(args.deep_view() =~= seq!["worktree"@, "add"@] + seq![path@, branch@]);
        return Ok(AddStep::Create(Creation { args, path, tracking: None }));
    }
    let wanted = match cfg.fetch {
        Some(flag) => flag,
        None => false,
    };
    if (req.fetch || wanted) && !fetched {
        let mut args: Vec<String> = empty_list();
        grow(&mut args, "fetch".to_owned());
        grow(&mut args, "--quiet".to_owned());
        match &req.remote {
            Some(name) => grow(&mut args, name.clone()),
            None => grow(&mut args, "--all".to_owned()),
        }
        assert(args.deep_view() =~= fetch_args(req.remote.deep_view()));
        return Ok(AddStep::Fetch { args });
    }
    match choose_remote(facts, dir, branch, as_text(&req.remote))? {
        Some(remote) => {
            let full = remote.concat("/").concat(branch);
            grow(&mut args, "--track".to_owned());
            grow(&mut args, "-b".to_owned());
            grow(&mut args, branch.to_owned());
            grow(&mut args, path.clone());
            grow(&mut args, full.clone());
            assert(args.deep_view() =~= seq!["worktree"@, "add"@] + seq![
                "--track"@,
                "-b"@,
                branch@,
                path@,
                full@,
            ]);
            Ok(AddStep::Create(Creation { args, path, tracking: Some(full) }))
        },
        None => Ok(create_new(cfg, req, path)),
    }
}

/// The warning after a fetch, if any: that it failed. A failure ends nothing.
pub open spec fn fetch_note(args: Seq<Text>, reply: ReplyModel) -> Option<Text> {
    match git::outcome(args, reply) {
        Ok(_) => None,
        Err(_) => Some("warning: fetch failed; resolving with existing refs"@),
    }
}

/// Warns if a fetch failed; the decision goes on with the branches that are known.
pub fn after_fetch(args: Vec<String>, reply: Reply) -> (r: Option<String>)
    ensures
        r.deep_view() == fetch_note(args.deep_view(), reply.deep_view()),
{
    match check_run(args, reply) {
        Ok(_) => None,
        Err(_) => Some("warning: fetch failed; resolving with existing refs".to_owned()),
    }
}

// ---------------------------------------------------------------------------
// Step by step
// ---------------------------------------------------------------------------

/// How far the creation of a worktree has come.
#[derive(Clone, Copy, PartialEq, Eq, Structural, Debug)]
pub enum AddStage {
    /// Nothing has been done.
    Resolved,
    /// The worktree is there.
    Created,
    /// The files to transfer are in it.
    Transferred,
    /// The hooks have run.
    Hooked,
}

/// What is to be done. Once it is done, ask again at the stage `next`, and tell how it
/// went.
pub enum AddWork<S = String, L = Vec<String>> {
    /// Run git with these arguments.
    Git { args: L, next: AddStage },
    /// Transfer the files that the list of the source names (see
    /// [`transfer`](crate::transfer)) to `worktree`; the first failure ends it.
    Transfer { worktree: S, next: AddStage },
    /// Run these commands in the worktree; the first that fails ends it.
    Hooks { commands: L, next: AddStage },
    /// Say `note`, and print `stdout`: the path of the worktree on a line.
    Finish { note: S, stdout: S },
}

/// The value of a piece of work.
pub type AddWorkModel = AddWork<Text, Seq<Text>>;

impl DeepView for AddWork<String, Vec<String>> {
    type V = AddWorkModel;

    open spec fn deep_view(&self) -> AddWorkModel {
        match self {
            AddWork::Git { args, next } => AddWork::Git { args: args.deep_view(), next: *next },
            AddWork::Transfer { worktree, next } => AddWork::Transfer {
                worktree: worktree@,
                next: *next,
            },
            AddWork::Hooks { commands, next } => AddWork::Hooks {
                commands: commands.deep_view(),
                next: *next,
            },
            AddWork::Finish { note, stdout } => AddWork::Finish { note: note@, stdout: stdout@ },
        }
    }
}

/// What is to be done at `stage`: create the worktree, then transfer files to it, then
/// run the hooks, then print its path.
pub open spec fn work_at(
    cfg: ConfigModel,
    repo: RepoModel,
    branch: Text,
    plan: CreationModel,
    color: bool,
    stage: AddStage,
) -> AddWorkModel {
    match stage {
        AddStage::Resolved => AddWork::Git { args: plan.args, next: AddStage::Created },
        AddStage::Created => AddWork::Transfer {
            worktree: plan.path,
            next: AddStage::Transferred,
        },
        AddStage::Transferred => AddWork::Hooks {
            commands: hooks::runs(cfg, POST_CREATE@, repo, branch, plan.path),
            next: AddStage::Hooked,
        },
        AddStage::Hooked => AddWork::Finish {
            note: report::created_text(color, branch, plan.tracking),
            stdout: plan.path + "\n"@,
        },
    }
}

/// What is to be done at `stage`, given how the work before went: a failure ends all.
pub open spec fn next_work(
    cfg: ConfigModel,
    repo: RepoModel,
    branch: Text,
    plan: CreationModel,
    color: bool,
    stage: AddStage,
    last: Result<(), ErrorModel>,
) -> Result<AddWorkModel, ErrorModel> {
    match last {
        Err(e) => Err(e),
        Ok(_) => Ok(work_at(cfg, repo, branch, plan, color, stage)),
    }
}

/// The value of an outcome.
pub open spec fn outcome_value(last: Result<(), Error>) -> Result<(), ErrorModel> {
    match last {
        Ok(_) => Ok(()),
        Err(e) => Err(e.deep_view()),
    }
}

/// Finds out what is to be done at `stage` of the creation `plan` of a worktree for
/// `branch`. `last` tells how the work before went; there is none at the first stage.
pub fn add_next(
    cfg: &Config,
    repo: &Repo,
    branch: &str,
    plan: &Creation,
    color: bool,
    stage: AddStage,
    last: Result<(), Error>,
) -> (r: Result<AddWork, Error>)
    ensures
        match (
            r,
            next_work(
                cfg.deep_view(),
                repo.deep_view(),
                branch@,
                plan.deep_view(),
                color,
                stage,
                outcome_value(last),
            ),
        ) {
            (Ok(a), Ok(b)) => a.deep_view() == b,
            (Err(a), Err(b)) => a.deep_view() == b,
            _ => false,
        },
{
    if let Err(e) = last {
        return Err(e);
    }
    match stage {
        AddStage::Resolved => Ok(
            AddWork::Git { args: copy_texts(&plan.args), next: AddStage::Created },
        ),
        AddStage::Created => Ok(
            AddWork::Transfer { worktree: plan.path.clone(), next: AddStage::Transferred },
        ),
        AddStage::Transferred => {
            let commands = run_hooks(cfg, POST_CREATE, repo, branch, plan.path.as_str());
            Ok(AddWork::Hooks { commands, next: AddStage::Hooked })
        },
        AddStage::Hooked => {
            let note = created(color, branch, as_text(&plan.tracking));
            Ok(AddWork::Finish { note, stdout: plan.path.clone().concat("\n") })
        },
    }
}

} // verus!
