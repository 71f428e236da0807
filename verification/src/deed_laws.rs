//! What holds of what the commands do: of creating and removing worktrees, of transferring
//! files, and of how each piece of work turns out.

use crate::config::{ConfigModel, Mode};
use crate::create;
use crate::create::{
    AddStage, AddStep, AddStepModel, AddWork, AddWorkModel, Creation, CreationModel, RequestModel,
};
use crate::error;
use crate::error::{Error, ErrorModel};
use crate::git;
use crate::git::{Known, ReplyModel, Stop, StopModel, Topic};
use crate::hooks;
use crate::nav::Move;
use crate::path;
use crate::porcelain;
use crate::porcelain::TipModel;
use crate::remove;
use crate::remove::{RemovalModel, RmStep, RmStepModel, Stage};
use crate::repo;
use crate::repo::RepoModel;
use crate::report;
use crate::shell;
use crate::style;
use crate::style::Paint;
use crate::text;
use crate::text::Text;
use crate::transfer;
use crate::transfer::{Job, JobModel};
use vstd::prelude::*;

verus! {

// ---------------------------------------------------------------------------
// Creating
// ---------------------------------------------------------------------------

/// True if `r` is the creation of a worktree at `path` with these arguments.
pub open spec fn creates(
    r: Result<AddStepModel, StopModel>,
    args: Seq<Text>,
    path: Text,
    tracking: Option<Text>,
) -> bool {
    r == Ok::<AddStepModel, StopModel>(AddStep::Create(Creation { args, path, tracking }))
}

/// What comes before all else: a path that exists is an error, and so are a remote for a
/// new branch or a local one, a new branch that exists, and a branch that is checked out
/// elsewhere.
pub proof fn law_refused_requests(
    known: Known,
    repo: RepoModel,
    cfg: ConfigModel,
    req: RequestModel,
    fetched: bool,
    path: Text,
    dir: Text,
)
    requires
        path == repo::worktree_path(repo, cfg, req.branch),
        dir == repo::work_dir(repo),
    ensures
        ({
            let r = create::added(known, repo, cfg, req, fetched);
            let new = req.new_branch || req.base is Some;
            let taken = git::succeeds(known, git::query(Topic::Exists, ""@, path, ""@));
            let local = git::succeeds(
                known,
                git::query(Topic::LocalBranch, dir, req.branch, ""@),
            );
            &&& taken == Ok::<bool, StopModel>(true) ==> r == Err::<AddStepModel, StopModel>(
                Stop::Fail(Error::PathExists { path }),
            )
            &&& taken == Ok::<bool, StopModel>(false) && local is Ok && req.remote is Some && new
                ==> r == Err::<AddStepModel, StopModel>(Stop::Fail(Error::RemoteWithNewBranch))
            &&& taken == Ok::<bool, StopModel>(false) && local == Ok::<bool, StopModel>(true)
                && req.remote is Some && !new ==> r == Err::<AddStepModel, StopModel>(
                Stop::Fail(Error::RemoteWithLocalBranch { branch: req.branch }),
            )
            &&& taken == Ok::<bool, StopModel>(false) && local == Ok::<bool, StopModel>(true)
                && req.remote is None && new ==> r == Err::<AddStepModel, StopModel>(
                Stop::Fail(Error::BranchExists { branch: req.branch }),
            )
            &&& taken == Ok::<bool, StopModel>(false) && local == Ok::<bool, StopModel>(true)
                && req.remote is None && !new ==> (git::required(
                known,
                git::query(Topic::Worktrees, dir, ""@, ""@),
            ) matches Ok(out) ==> match porcelain::checkout_of(
                porcelain::worktrees(out),
                req.branch,
            ) {
                Some(p) => r == Err::<AddStepModel, StopModel>(
                    Stop::Fail(Error::AlreadyCheckedOut { branch: req.branch, path: p }),
                ),
                None => creates(r, seq!["worktree"@, "add"@, path, req.branch], path, None),
            })
        }),
{
    assert(seq!["worktree"@, "add"@] + seq![path, req.branch] =~= seq![
        "worktree"@,
        "add"@,
        path,
        req.branch,
    ]);
}

/// A branch that is not local: if it is asked for as a new one, it is made at the start
/// asked for, else at the configured one, else at HEAD. If not, remotes are looked at, after
/// a fetch if one is wanted: a remote that has it is tracked, and without one the branch is
/// new.
pub proof fn law_absent_branches(
    known: Known,
    repo: RepoModel,
    cfg: ConfigModel,
    req: RequestModel,
    fetched: bool,
    path: Text,
    dir: Text,
)
    requires
        path == repo::worktree_path(repo, cfg, req.branch),
        dir == repo::work_dir(repo),
        git::succeeds(known, git::query(Topic::Exists, ""@, path, ""@)) == Ok::<bool, StopModel>(
            false,
        ),
        git::succeeds(known, git::query(Topic::LocalBranch, dir, req.branch, ""@)) == Ok::<
            bool,
            StopModel,
        >(false),
        req.remote is Some ==> !req.new_branch && req.base is None,
    ensures
        ({
            let r = create::added(known, repo, cfg, req, fetched);
            let new = req.new_branch || req.base is Some;
            let wants = req.fetch || cfg.fetch == Some(true);
            let plain = seq!["worktree"@, "add"@, "-b"@, req.branch, path];
            let found = repo::remote_for(known, dir, req.branch, req.remote);
            let fresh = match (req.base, cfg.base) {
                (Some(start), _) => creates(r, plain.push(start), path, None),
                (None, Some(start)) => creates(r, plain.push(start), path, None),
                (None, None) => creates(r, plain, path, None),
            };
            &&& new ==> fresh
            &&& !new && wants && !fetched ==> r == Ok::<AddStepModel, StopModel>(
                AddStep::Fetch {
                    args: seq![
                        "fetch"@,
                        "--quiet"@,
                        match req.remote {
                            Some(name) => name,
                            None => "--all"@,
                        },
                    ],
                },
            )
            &&& !new && (fetched || !wants) ==> match found {
                Ok(Some(remote)) => creates(
                    r,
                    seq![
                        "worktree"@,
                        "add"@,
                        "--track"@,
                        "-b"@,
                        req.branch,
                        path,
                        remote + "/"@ + req.branch,
                    ],
                    path,
                    Some(remote + "/"@ + req.branch),
                ),
                Ok(None) => fresh,
                Err(stop) => r == Err::<AddStepModel, StopModel>(stop),
            }
        }),
{
    let plain = seq!["worktree"@, "add"@, "-b"@, req.branch, path];
    let start = create::start_of(req, cfg);
    let tail = create::new_branch_tail(req.branch, path, start);
    assert(start is None ==> seq!["worktree"@, "add"@] + tail =~= plain);
    assert(start matches Some(s) ==> seq!["worktree"@, "add"@] + tail =~= plain.push(s));
    if let Ok(Some(remote)) = repo::remote_for(known, dir, req.branch, req.remote) {
        let full = remote + "/"@ + req.branch;
        assert(seq!["worktree"@, "add"@] + seq!["--track"@, "-b"@, req.branch, path, full] =~= seq![
            "worktree"@,
            "add"@,
            "--track"@,
            "-b"@,
            req.branch,
            path,
            full,
        ]);
    }
}

/// What is said of a finished addition names the branch and what it tracks, and what is
/// printed is the path on a line. A failure ends an addition at any stage.
pub proof fn law_end_of_an_addition(
    cfg: ConfigModel,
    repo: RepoModel,
    branch: Text,
    plan: CreationModel,
    color: bool,
)
    ensures
        create::next_work(cfg, repo, branch, plan, color, AddStage::Hooked, Ok(())) == Ok::<
            AddWorkModel,
            ErrorModel,
        >(
            AddWork::Finish {
                note: report::created_text(color, branch, plan.tracking),
                stdout: plan.path + "\n"@,
            },
        ),
        forall|stage: AddStage, e: ErrorModel| #[trigger]
            create::next_work(cfg, repo, branch, plan, color, stage, Err(e)) == Err::<
                AddWorkModel,
                ErrorModel,
            >(e),
{
}

// ---------------------------------------------------------------------------
// Removing
// ---------------------------------------------------------------------------

/// A removal is of the worktree that the name means, by force only if that was asked for.
/// The branch is deleted too only if that was asked for, and then by its own name.
pub proof fn law_planned_removals(
    known: Known,
    repo: RepoModel,
    cfg: ConfigModel,
    branch: Text,
    force: bool,
    delete_branch: bool,
    p: Text,
)
    requires
        repo::worktree_named(known, repo, cfg, branch) == Ok::<Text, StopModel>(p),
    ensures
        remove::removal(known, repo, cfg, branch, force, delete_branch) matches Ok(plan) ==> {
            &&& plan.path == p
            &&& plan.args == (if force {
                seq!["worktree"@, "remove"@, "--force"@, p]
            } else {
                seq!["worktree"@, "remove"@, p]
            })
            &&& plan.delete == (if delete_branch {
                Some(
                    seq![
                        "branch"@,
                        if force {
                            "-D"@
                        } else {
                            "-d"@
                        },
                        branch,
                    ],
                )
            } else {
                None
            })
        },
        repo.root is None ==> (remove::removal(
            known,
            repo,
            cfg,
            branch,
            force,
            delete_branch,
        ) matches Ok(plan) && !plan.leaving),
        repo.root matches Some(dir) ==> (git::resolved(
            known,
            git::query(Topic::Canonical, ""@, dir, ""@),
        ) matches Ok(here) ==> (git::resolved(
            known,
            git::query(Topic::Canonical, ""@, p, ""@),
        ) matches Ok(there) ==> (remove::removal(
            known,
            repo,
            cfg,
            branch,
            force,
            delete_branch,
        ) matches Ok(plan) && plan.leaving == (here is Some && there is Some && path::same_path(
            here->Some_0,
            there->Some_0,
        ))))),
{
}

/// A name that means no worktree removes nothing, and the error is passed on.
pub proof fn law_nothing_to_remove(
    known: Known,
    repo: RepoModel,
    cfg: ConfigModel,
    branch: Text,
    force: bool,
    delete_branch: bool,
    stop: StopModel,
)
    requires
        repo::worktree_named(known, repo, cfg, branch) == Err::<Text, StopModel>(stop),
    ensures
        remove::removal(known, repo, cfg, branch, force, delete_branch) == Err::<
            RemovalModel,
            StopModel,
        >(stop),
{
}

/// A branch that is left over after its worktree went is cleared away, exactly if it is
/// local, is not the trunk, and git counts no commit that the trunk lacks.
pub proof fn law_left_over_branches_are_cleared(
    known: Known,
    repo: RepoModel,
    cfg: ConfigModel,
    branch: Text,
    local: bool,
    tips: Seq<TipModel>,
    trunk: Option<Text>,
)
    requires
        git::succeeds(known, git::query(Topic::LocalBranch, repo.main, branch, ""@)) == Ok::<
            bool,
            StopModel,
        >(local),
        repo::local_tips(known, repo.main) == Ok::<Seq<TipModel>, StopModel>(tips),
        repo::trunk(known, repo.main, cfg, tips) == Ok::<Option<Text>, StopModel>(trunk),
        trunk matches Some(name) ==> git::optional(
            known,
            git::query(Topic::Beyond, repo.main, name, branch),
        ) is Ok,
    ensures
        remove::clearance(known, repo, cfg, branch) == Ok::<Option<Seq<Text>>, StopModel>(
            if local && trunk is Some && trunk->Some_0 != branch && git::optional(
                known,
                git::query(Topic::Beyond, repo.main, trunk->Some_0, branch),
            ) == Ok::<Option<Text>, StopModel>(Some("0"@)) {
                Some(seq!["branch"@, "-D"@, branch])
            } else {
                None
            },
        ),
{
}

/// Each step of a removal, exactly: first the worktree goes, then the branch if that was
/// asked for, or else if it is left over; at the end, who stood in the worktree is sent
/// home, and nobody else is.
pub proof fn law_steps_of_a_removal(
    known: Known,
    repo: RepoModel,
    cfg: ConfigModel,
    branch: Text,
    plan: RemovalModel,
)
    ensures
        remove::removal_step(known, repo, cfg, branch, plan, Stage::Announced) == Ok::<
            RmStepModel,
            StopModel,
        >(RmStep::Git { args: plan.args, vital: true, next: Stage::Removed }),
        plan.delete matches Some(args) ==> remove::removal_step(
            known,
            repo,
            cfg,
            branch,
            plan,
            Stage::Removed,
        ) == Ok::<RmStepModel, StopModel>(
            RmStep::Git { args, vital: true, next: Stage::Settled },
        ),
        plan.delete is None ==> match remove::clearance(known, repo, cfg, branch) {
            Ok(Some(args)) => remove::removal_step(
                known,
                repo,
                cfg,
                branch,
                plan,
                Stage::Removed,
            ) == Ok::<RmStepModel, StopModel>(
                RmStep::Git { args, vital: false, next: Stage::Settled },
            ),
            Ok(None) => remove::removal_step(known, repo, cfg, branch, plan, Stage::Removed)
                == remove::removal_step(known, repo, cfg, branch, plan, Stage::Settled),
            Err(stop) => remove::removal_step(known, repo, cfg, branch, plan, Stage::Removed)
                == Err::<RmStepModel, StopModel>(stop),
        },
        !plan.leaving ==> remove::removal_step(known, repo, cfg, branch, plan, Stage::Settled)
            == Ok::<RmStepModel, StopModel>(RmStep::Finish { home: None }),
        plan.leaving ==> (repo::home_dir(known, repo, cfg) matches Ok(home)
            ==> remove::removal_step(known, repo, cfg, branch, plan, Stage::Settled) == Ok::<
            RmStepModel,
            StopModel,
        >(RmStep::Finish { home: Some(home) })),
{
}

// ---------------------------------------------------------------------------
// Transferring
// ---------------------------------------------------------------------------

/// Entries are transferred in order, each by itself: one that git ignores, to the same
/// place in the new worktree and in the mode of its rule; any other not at all.
pub proof fn law_jobs(
    known: Known,
    source: Text,
    worktree: Text,
    mode: Mode,
    a: Seq<Text>,
    b: Seq<Text>,
    entry: Text,
    rel: Text,
)
    requires
        transfer::jobs_of(known, source, worktree, mode, a) is Ok,
        transfer::jobs_of(known, source, worktree, mode, b) is Ok,
        rel == (match path::below(entry, source) {
            Some(r) => r,
            None => entry,
        }),
    ensures
        transfer::jobs_of(known, source, worktree, mode, Seq::empty()) == Ok::<
            Seq<JobModel>,
            StopModel,
        >(Seq::empty()),
        transfer::jobs_of(known, source, worktree, mode, a + b) == Ok::<Seq<JobModel>, StopModel>(
            transfer::jobs_of(known, source, worktree, mode, a)->Ok_0 + transfer::jobs_of(
                known,
                source,
                worktree,
                mode,
                b,
            )->Ok_0,
        ),
        git::succeeds(known, git::query(Topic::Ignored, source, rel, ""@)) matches Ok(ignored)
            ==> transfer::jobs_of(known, source, worktree, mode, seq![entry]) == Ok::<
            Seq<JobModel>,
            StopModel,
        >(
            if ignored {
                seq![
                    (Job {
                        src: entry,
                        rel,
                        dest: path::joined_path(worktree, rel),
                        dir: path::parent_path(path::joined_path(worktree, rel)),
                        mode,
                    }),
                ]
            } else {
                Seq::empty()
            },
        ),
    decreases a.len(),
{
    let none = Seq::<JobModel>::empty();
    assert(seq![entry].drop_first() =~= Seq::empty());
    assert(transfer::jobs_of(known, source, worktree, mode, Seq::empty()) == Ok::<
        Seq<JobModel>,
        StopModel,
    >(none));
    let own = seq![transfer::job_of(source, worktree, mode, entry)];
    assert(own + none =~= own);
    let tail = transfer::jobs_of(known, source, worktree, mode, b)->Ok_0;
    if a.len() == 0 {
        assert(a + b =~= b);
        assert(none + tail =~= tail);
    } else {
        let rest = a.drop_first();
        law_jobs(known, source, worktree, mode, rest, b, entry, rel);
        assert((a + b)[0] == a[0]);
        assert((a + b).drop_first() =~= rest + b);
        let mid = transfer::jobs_of(known, source, worktree, mode, rest)->Ok_0;
        let first = seq![transfer::job_of(source, worktree, mode, a[0])];
        assert(first + (mid + tail) =~= first + mid + tail);
    }
}

// ---------------------------------------------------------------------------
// Outcomes
// ---------------------------------------------------------------------------

/// Work goes well exactly if what was run for it started and succeeded. What went wrong is
/// said of the very command, hook or file, with the cause that the system gave.
pub proof fn law_outcomes(
    args: Seq<Text>,
    event: Text,
    command: Text,
    job: JobModel,
    reply: ReplyModel,
)
    ensures
        reply.started && reply.success ==> {
            &&& git::outcome(args, reply) is Ok
            &&& hooks::hook_outcome(event, command, reply) is Ok
            &&& remove::step_outcome(args, true, reply) is Ok
            &&& create::fetch_note(args, reply) is None
        },
        !reply.started ==> {
            &&& git::outcome(args, reply) == Err::<(), ErrorModel>(
                Error::GitNotRun { cause: reply.note },
            )
            &&& hooks::hook_outcome(event, command, reply) == Err::<(), ErrorModel>(
                Error::HookNotRun { command, cause: reply.note },
            )
        },
        reply.started && !reply.success ==> {
            &&& git::outcome(args, reply) == Err::<(), ErrorModel>(Error::GitFailed { args })
            &&& hooks::hook_outcome(event, command, reply) == Err::<(), ErrorModel>(
                Error::HookFailed { event, command },
            )
        },
        !(reply.started && reply.success) ==> create::fetch_note(args, reply) == Some(
            "warning: fetch failed; resolving with existing refs"@,
        ),
        remove::step_outcome(args, true, reply) == git::outcome(args, reply),
        remove::step_outcome(args, false, reply) is Ok,
        reply.success ==> transfer::job_outcome(job, reply) is Ok && transfer::list_text(reply)
            == Ok::<Text, ErrorModel>(reply.text),
        !reply.success ==> transfer::job_outcome(job, reply) == Err::<(), ErrorModel>(
            Error::TransferFailed { rel: job.rel, cause: reply.note },
        ) && transfer::list_text(reply) == Err::<Text, ErrorModel>(
            Error::ListUnreadable { cause: reply.note },
        ),
{
}

// ---------------------------------------------------------------------------
// What is said
// ---------------------------------------------------------------------------

/// The shell function is the same for bash and zsh, another for fish; there is none for
/// any other shell, and the error names it.
pub proof fn law_shells(name: Text)
    ensures
        name == "bash"@ || name == "zsh"@ ==> shell::init_of(name) == Ok::<Text, ErrorModel>(
            shell::BASH_ZSH_WRAPPER@,
        ),
        name == "fish"@ ==> shell::init_of(name) == Ok::<Text, ErrorModel>(shell::FISH_WRAPPER@),
        name != "bash"@ && name != "zsh"@ && name != "fish"@ ==> shell::init_of(name) == Err::<
            Text,
            ErrorModel,
        >(Error::UnsupportedShell { shell: name }),
{
    reveal_strlit("bash");
    reveal_strlit("zsh");
    reveal_strlit("fish");
    assert("bash"@[0] == 'b' && "zsh"@[0] == 'z' && "fish"@[0] == 'f');
}

/// What is said of a worktree that is created or removed, and of a move, names the branch
/// or the path; color changes nothing but the check mark.
pub proof fn law_reports(color: bool, branch: Text, tracking: Text, path: Text)
    ensures
        ({
            let tick = if color {
                "\x1b[32m"@ + "✓"@ + "\x1b[39m"@
            } else {
                "✓"@
            };
            &&& report::created_text(color, branch, None) == tick + " "@ + ("created worktree for "@
                + branch)
            &&& report::created_text(color, branch, Some(tracking)) == tick + " "@ + (
            "created worktree for "@ + branch) + "\n  tracking "@ + tracking
            &&& report::removed_text(color, path) == tick + " "@ + ("removed worktree: "@ + path)
            &&& report::moved_text(color, Move::Enter { branch, path }) == tick + " "@ + (branch
                + ": switched to its worktree"@)
            &&& report::moved_text(color, Move::Checkout { branch }) == tick + " "@ + (branch
                + ": checked out in place"@)
            &&& report::moved_text(color, Move::Stay { reason: branch }) == branch
        }),
        hooks::announcement(branch, path) == "["@ + branch + "] "@ + path,
        report::skipped_text(branch, path) == "warning: skipping invalid .worktreeinclude pattern '"@
            + branch + "': "@ + path,
{
}

/// Without color, text is shown as it is; with color, it stands whole between the two escape
/// sequences of its paint.
pub proof fn law_paint(p: Paint, s: Text)
    ensures
        style::shown(false, p, s) == s,
        style::shown(true, Paint::Green, s) == "\x1b[32m"@ + s + "\x1b[39m"@,
        style::shown(true, Paint::BoldGreen, s) == "\x1b[32;1m"@ + s + "\x1b[0m"@,
        style::shown(true, Paint::Yellow, s) == "\x1b[33m"@ + s + "\x1b[39m"@,
        style::shown(true, Paint::Cyan, s) == "\x1b[36m"@ + s + "\x1b[39m"@,
        style::shown(true, Paint::Dim, s) == "\x1b[2m"@ + s + "\x1b[0m"@,
{
}

/// The message of a failure names all that it is about: every branch, every remote, every
/// argument, the whole path, the exact number.
pub proof fn law_messages(a: Text, b: Text, list: Seq<Text>)
    ensures
        error::error_text(Error::GitFailed { args: list }) == "git "@ + text::joined(list, " "@)
            + " failed"@,
        error::error_text(Error::NoWorktree { name: a }) == "no worktree found for '"@ + a + "'"@,
        error::error_text(Error::RemoteLacksBranch { remote: a, branch: b }) == "remote '"@ + a
            + "' has no branch '"@ + b + "'"@,
        error::error_text(Error::AmbiguousRemote { branch: a, remotes: list }) == "branch '"@ + a
            + "' exists on multiple remotes: "@ + text::joined(list, ", "@)
            + ". use --remote <name>"@,
        error::error_text(Error::PathExists { path: a }) == "worktree path already exists: "@ + a,
        error::error_text(Error::RemoteWithLocalBranch { branch: a }) == "branch '"@ + a
            + "' already exists locally; --remote only applies when creating a new branch from a remote"@,
        error::error_text(Error::BranchExists { branch: a }) == "branch '"@ + a
            + "' already exists\n       omit -b/--base to check it out, or choose a new name"@,
        error::error_text(Error::AlreadyCheckedOut { branch: a, path: b }) == "branch '"@ + a
            + "' is already checked out at "@ + b + "\n       try: tonic cd "@ + a,
        error::error_text(Error::TrackedChanges { branch: a })
            == "worktree has uncommitted changes to tracked files — commit or stash before checking out '"@
            + a + "' in place"@,
        error::error_text(Error::UnsupportedShell { shell: a }) == "unsupported shell '"@ + a
            + "' (expected bash, zsh, or fish)"@,
        error::error_text(Error::HookFailed { event: a, command: b }) == "hook failed ("@ + a
            + "): "@ + b,
        error::error_text(Error::HookNotRun { command: a, cause: b }) == "running hook: "@ + a,
        error::error_text(Error::TransferFailed { rel: a, cause: b }) == "transferring "@ + a,
{
}

/// So do those about a stack.
pub proof fn law_messages_about_stacks(a: Text, list: Seq<Text>, n: nat)
    ensures
        error::error_text(Error::Forks { branch: a, children: list }) == "'"@ + a
            + "' forks into "@ + text::joined(list, ", "@)
            + " — pick one with `tonic cd <branch>` or `tonic add <branch>`"@,
        error::error_text(Error::Crowded { branch: a, count: n }) == "'"@ + a + "' has "@
            + text::decimal(n)
            + "+ branches stacked on it — pick one with `tonic cd`/`tonic add`"@,
        error::error_text(Error::ClimbForks { branch: a, children: list }) == "stack forks at '"@
            + a + "' into "@ + text::joined(list, ", "@)
            + " — navigate with `tonic cd`/`tonic add`"@,
        error::error_text(Error::ClimbCrowded { branch: a, count: n }) == "'"@ + a + "' has "@
            + text::decimal(n)
            + "+ branches stacked on it — navigate with `tonic cd`/`tonic add`"@,
{
}

/// A failure of the system is told with its cause, and other failures have none besides
/// their message; a directory that is no repository passes on what git said.
pub proof fn law_causes(a: Text, b: Text, list: Seq<Text>)
    ensures
        error::error_causes(Error::GitNotRun { cause: a }) == seq![a],
        error::error_causes(Error::NotARepository { causes: list }) == list,
        error::error_causes(Error::HookNotRun { command: a, cause: b }) == seq![b],
        error::error_causes(Error::TransferFailed { rel: a, cause: b }) == seq![b],
        error::error_causes(Error::GitFailed { args: list }).len() == 0,
        error::error_causes(Error::HookFailed { event: a, command: b }).len() == 0,
        error::error_text(Error::NotUtf8 { cause: a }) == a,
        error::error_text(Error::NoCurrentDir { cause: a }) == a,
        error::error_text(Error::ListUnreadable { cause: a }) == a,
{
}

/// The messages that are about nothing in particular.
pub proof fn law_plain_messages(cause: Text, causes: Seq<Text>)
    ensures
        error::error_text(Error::GitNotRun { cause }) == "running git"@,
        error::error_text(Error::NotARepository { causes }) == "not a git repository"@,
        error::error_text(Error::RemoteWithNewBranch)
            == "--remote can't be combined with -b/--base, which create a new branch rather than track a remote"@,
        error::error_text(Error::DetachedHead)
            == "HEAD is detached — stack navigation needs a branch checked out"@,
        error::error_text(Error::OutsideWorktree)
            == "stack navigation must run from inside a worktree"@,
        error::error_text(Error::NoTrunk)
            == "no trunk branch found — stack lineage needs main/master or a configured default_branch"@,
{
}

} // verus!
