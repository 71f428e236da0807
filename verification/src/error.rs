//! What can go wrong, and how it is said.

use crate::text;
use crate::text::{copy_texts, decimal_of, empty_list, grow, join, Text};
use vstd::prelude::*;

verus! {

/// A failure. `S` holds texts, `L` lists of texts, and `N` counts.
pub enum Error<S = String, L = Vec<String>, N = usize> {
    /// git could not be started; `cause` is what the system said.
    GitNotRun { cause: S },
    /// A git command with these arguments failed.
    GitFailed { args: L },
    /// What git printed is not UTF-8; `cause` tells where.
    NotUtf8 { cause: S },
    /// There is no repository where the program was started; `causes` tell how git
    /// failed to find one.
    NotARepository { causes: L },
    /// The current directory cannot be found out.
    NoCurrentDir { cause: S },
    /// `rm` or `cd` found no worktree of this name.
    NoWorktree { name: S },
    /// `add --remote` named a remote without the branch.
    RemoteLacksBranch { remote: S, branch: S },
    /// Several remotes have the branch, and `origin` is not among them.
    AmbiguousRemote { branch: S, remotes: L },
    /// The path of the new worktree is taken.
    PathExists { path: S },
    /// `--remote` together with `-b` or `--base`.
    RemoteWithNewBranch,
    /// `--remote` for a branch that exists locally.
    RemoteWithLocalBranch { branch: S },
    /// `-b` or `--base` for a branch that exists.
    BranchExists { branch: S },
    /// The branch is checked out in the worktree at `path`.
    AlreadyCheckedOut { branch: S, path: S },
    /// HEAD is detached: there is no branch to navigate from.
    DetachedHead,
    /// Navigation outside of any worktree.
    OutsideWorktree,
    /// The repository has no branch that can be its trunk.
    NoTrunk,
    /// `up` at a branch with several children.
    Forks { branch: S, children: L },
    /// `up` at a branch with too many descendants to tell its children.
    Crowded { branch: S, count: N },
    /// `top` met a branch with several children.
    ClimbForks { branch: S, children: L },
    /// `top` met a branch with too many descendants to tell its children.
    ClimbCrowded { branch: S, count: N },
    /// `top` came back to a branch that it had left: git's answers contradict
    /// each other.
    ClimbLoops { branch: S },
    /// A checkout in place would carry changes to tracked files along.
    TrackedChanges { branch: S },
    /// There is no shell function for this shell.
    UnsupportedShell { shell: S },
    /// A hook ended without success.
    HookFailed { event: S, command: S },
    /// The command of a hook could not be started; `cause` is what the system said.
    HookNotRun { command: S, cause: S },
    /// The list of files to transfer cannot be read; `cause` is what the system said.
    ListUnreadable { cause: S },
    /// A file could not be transferred; `cause` is what the system said.
    TransferFailed { rel: S, cause: S },
}

/// The value of an error.
pub type ErrorModel = Error<Text, Seq<Text>, nat>;

impl DeepView for Error<String, Vec<String>, usize> {
    type V = ErrorModel;

    open spec fn deep_view(&self) -> ErrorModel {
        match self {
            Error::GitNotRun { cause } => Error::GitNotRun { cause: cause@ },
            Error::GitFailed { args } => Error::GitFailed { args: args.deep_view() },
            Error::NotUtf8 { cause } => Error::NotUtf8 { cause: cause@ },
            Error::NotARepository { causes } => Error::NotARepository {
                causes: causes.deep_view(),
            },
            Error::NoCurrentDir { cause } => Error::NoCurrentDir { cause: cause@ },
            Error::NoWorktree { name } => Error::NoWorktree { name: name@ },
            Error::RemoteLacksBranch { remote, branch } => Error::RemoteLacksBranch {
                remote: remote@,
                branch: branch@,
            },
            Error::AmbiguousRemote { branch, remotes } => Error::AmbiguousRemote {
                branch: branch@,
                remotes: remotes.deep_view(),
            },
            Error::PathExists { path } => Error::PathExists { path: path@ },
            Error::RemoteWithNewBranch => Error::RemoteWithNewBranch,
            Error::RemoteWithLocalBranch { branch } => Error::RemoteWithLocalBranch {
                branch: branch@,
            },
            Error::BranchExists { branch } => Error::BranchExists { branch: branch@ },
            Error::AlreadyCheckedOut { branch, path } => Error::AlreadyCheckedOut {
                branch: branch@,
                path: path@,
            },
            Error::DetachedHead => Error::DetachedHead,
            Error::OutsideWorktree => Error::OutsideWorktree,
            Error::NoTrunk => Error::NoTrunk,
            Error::Forks { branch, children } => Error::Forks {
                branch: branch@,
                children: children.deep_view(),
            },
            Error::Crowded { branch, count } => Error::Crowded {
                branch: branch@,
                count: *count as nat,
            },
            Error::ClimbForks { branch, children } => Error::ClimbForks {
                branch: branch@,
                children: children.deep_view(),
            },
            Error::ClimbCrowded { branch, count } => Error::ClimbCrowded {
                branch: branch@,
                count: *count as nat,
            },
            Error::ClimbLoops { branch } => Error::ClimbLoops { branch: branch@ },
            Error::TrackedChanges { branch } => Error::TrackedChanges { branch: branch@ },
            Error::UnsupportedShell { shell } => Error::UnsupportedShell { shell: shell@ },
            Error::HookFailed { event, command } => Error::HookFailed {
                event: event@,
                command: command@,
            },
            Error::HookNotRun { command, cause } => Error::HookNotRun {
                command: command@,
                cause: cause@,
            },
            Error::ListUnreadable { cause } => Error::ListUnreadable { cause: cause@ },
            Error::TransferFailed { rel, cause } => Error::TransferFailed {
                rel: rel@,
                cause: cause@,
            },
        }
    }
}

/// The sentence that tells the user of `e`.
pub open spec fn error_text(e: ErrorModel) -> Text {
    match e {
        Error::GitNotRun { cause } => "running git"@,
        Error::GitFailed { args } => "git "@ + text::joined(args, " "@) + " failed"@,
        Error::NotUtf8 { cause } => cause,
        Error::NotARepository { causes } => "not a git repository"@,
        Error::NoCurrentDir { cause } => cause,
        Error::NoWorktree { name } => "no worktree found for '"@ + name + "'"@,
        Error::RemoteLacksBranch { remote, branch } => "remote '"@ + remote + "' has no branch '"@
            + branch + "'"@,
        Error::AmbiguousRemote { branch, remotes } => "branch '"@ + branch
            + "' exists on multiple remotes: "@ + text::joined(remotes, ", "@)
            + ". use --remote <name>"@,
        Error::PathExists { path } => "worktree path already exists: "@ + path,
        Error::RemoteWithNewBranch =>
            "--remote can't be combined with -b/--base, which create a new branch rather than track a remote"@,
        Error::RemoteWithLocalBranch { branch } => "branch '"@ + branch
            + "' already exists locally; --remote only applies when creating a new branch from a remote"@,
        Error::BranchExists { branch } => "branch '"@ + branch
            + "' already exists\n       omit -b/--base to check it out, or choose a new name"@,
        Error::AlreadyCheckedOut { branch, path } => "branch '"@ + branch
            + "' is already checked out at "@ + path + "\n       try: tonic cd "@ + branch,
        Error::DetachedHead =>
            "HEAD is detached — stack navigation needs a branch checked out"@,
        Error::OutsideWorktree => "stack navigation must run from inside a worktree"@,
        Error::NoTrunk =>
            "no trunk branch found — stack lineage needs main/master or a configured default_branch"@,
        Error::Forks { branch, children } => "'"@ + branch + "' forks into "@ + text::joined(
            children,
            ", "@,
        ) + " — pick one with `tonic cd <branch>` or `tonic add <branch>`"@,
        Error::Crowded { branch, count } => "'"@ + branch + "' has "@ + text::decimal(count)
            + "+ branches stacked on it — pick one with `tonic cd`/`tonic add`"@,
        Error::ClimbForks { branch, children } => "stack forks at '"@ + branch + "' into "@
            + text::joined(children, ", "@) + " — navigate with `tonic cd`/`tonic add`"@,
        Error::ClimbCrowded { branch, count } => "'"@ + branch + "' has "@ + text::decimal(count)
            + "+ branches stacked on it — navigate with `tonic cd`/`tonic add`"@,
        Error::ClimbLoops { branch } => "the stack above '"@ + branch + "' leads back to it"@,
        Error::TrackedChanges { branch } =>
            "worktree has uncommitted changes to tracked files — commit or stash before checking out '"@
            + branch + "' in place"@,
        Error::UnsupportedShell { shell } => "unsupported shell '"@ + shell
            + "' (expected bash, zsh, or fish)"@,
        Error::HookFailed { event, command } => "hook failed ("@ + event + "): "@ + command,
        Error::HookNotRun { command, cause } => "running hook: "@ + command,
        Error::ListUnreadable { cause } => cause,
        Error::TransferFailed { rel, cause } => "transferring "@ + rel,
    }
}

/// What led to `e`, the immediate cause first.
pub open spec fn error_causes(e: ErrorModel) -> Seq<Text> {
    match e {
        Error::GitNotRun { cause } => seq![cause],
        Error::NotARepository { causes } => causes,
        Error::HookNotRun { command, cause } => seq![cause],
        Error::TransferFailed { rel, cause } => seq![cause],
        _ => Seq::empty(),
    }
}

fn only(cause: &String) -> (r: Vec<String>)
    ensures
        r.deep_view() == seq![cause@],
{
    let mut list: Vec<String> = empty_list();
    grow(&mut list, cause.clone());
    list
}

impl Error<String, Vec<String>, usize> {
    /// What led to this error, the immediate cause first.
    pub fn causes(&self) -> (r: Vec<String>)
        ensures
            r.deep_view() == error_causes(self.deep_view()),
    {
        match self {
            Error::GitNotRun { cause } => only(cause),
            Error::NotARepository { causes } => copy_texts(causes),
            Error::HookNotRun { command, cause } => only(cause),
            Error::TransferFailed { rel, cause } => only(cause),
            _ => empty_list(),
        }
    }

    /// The sentence that tells the user of this error.
    pub fn message(&self) -> (r: String)
        ensures
            r@ == error_text(self.deep_view()),
    {
        match self {
            Error::GitNotRun { cause } => "running git".to_owned(),
            Error::GitFailed { args } => "git ".to_owned().concat(join(args, " ").as_str()).concat(
                " failed",
            ),
            Error::NotUtf8 { cause } => cause.clone(),
            Error::NotARepository { causes } => "not a git repository".to_owned(),
            Error::NoCurrentDir { cause } => cause.clone(),
            Error::NoWorktree { name } => "no worktree found for '".to_owned().concat(
                name.as_str(),
            ).concat("'"),
            Error::RemoteLacksBranch { remote, branch } => "remote '".to_owned().concat(
                remote.as_str(),
            ).concat("' has no branch '").concat(branch.as_str()).concat("'"),
            Error::AmbiguousRemote { branch, remotes } => "branch '".to_owned().concat(
                branch.as_str(),
            ).concat("' exists on multiple remotes: ").concat(join(remotes, ", ").as_str()).concat(
                ". use --remote <name>",
            ),
            Error::PathExists { path } => "worktree path already exists: ".to_owned().concat(
                path.as_str(),
            ),
            Error::RemoteWithNewBranch =>
                "--remote can't be combined with -b/--base, which create a new branch rather than track a remote".to_owned(),
            Error::RemoteWithLocalBranch { branch } => "branch '".to_owned().concat(
                branch.as_str(),
            ).concat(
                "' already exists locally; --remote only applies when creating a new branch from a remote",
            ),
            Error::BranchExists { branch } => "branch '".to_owned().concat(branch.as_str()).concat(
                "' already exists\n       omit -b/--base to check it out, or choose a new name",
            ),
            Error::AlreadyCheckedOut { branch, path } => "branch '".to_owned().concat(
                branch.as_str(),
            ).concat("' is already checked out at ").concat(path.as_str()).concat(
                "\n       try: tonic cd ",
            ).concat(branch.as_str()),
            Error::DetachedHead =>
                "HEAD is detached — stack navigation needs a branch checked out".to_owned(),
            Error::OutsideWorktree => "stack navigation must run from inside a worktree".to_owned(),
            Error::NoTrunk =>
                "no trunk branch found — stack lineage needs main/master or a configured default_branch".to_owned(),
            Error::Forks { branch, children } => "'".to_owned().concat(branch.as_str()).concat(
                "' forks into ",
            ).concat(join(children, ", ").as_str()).concat(
                " — pick one with `tonic cd <branch>` or `tonic add <branch>`",
            ),
            Error::Crowded { branch, count } => "'".to_owned().concat(branch.as_str()).concat(
                "' has ",
            ).concat(decimal_of(*count).as_str()).concat(
                "+ branches stacked on it — pick one with `tonic cd`/`tonic add`",
            ),
            Error::ClimbForks { branch, children } => "stack forks at '".to_owned().concat(
                branch.as_str(),
            ).concat("' into ").concat(join(children, ", ").as_str()).concat(
                " — navigate with `tonic cd`/`tonic add`",
            ),
            Error::ClimbCrowded { branch, count } => "'".to_owned().concat(branch.as_str()).concat(
                "' has ",
            ).concat(decimal_of(*count).as_str()).concat(
                "+ branches stacked on it — navigate with `tonic cd`/`tonic add`",
            ),
            Error::ClimbLoops { branch } => "the stack above '".to_owned().concat(
                branch.as_str(),
            ).concat("' leads back to it"),
            Error::TrackedChanges { branch } =>
                "worktree has uncommitted changes to tracked files — commit or stash before checking out '".to_owned().concat(
                branch.as_str(),
            ).concat("' in place"),
            Error::UnsupportedShell { shell } => "unsupported shell '".to_owned().concat(
                shell.as_str(),
            ).concat("' (expected bash, zsh, or fish)"),
            Error::HookFailed { event, command } => "hook failed (".to_owned().concat(
                event.as_str(),
            ).concat("): ").concat(command.as_str()),
            Error::HookNotRun { command, cause } => "running hook: ".to_owned().concat(
                command.as_str(),
            ),
            Error::ListUnreadable { cause } => cause.clone(),
            Error::TransferFailed { rel, cause } => "transferring ".to_owned().concat(rel.as_str()),
        }
    }
}

} // verus!
