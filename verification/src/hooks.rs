//! Hooks: commands that run when a worktree has been created or is to be removed.

use crate::config;
use crate::config::{Config, ConfigModel};
use crate::error::{Error, ErrorModel};
use crate::git;
use crate::git::{Reply, ReplyModel};
use crate::repo::{Repo, RepoModel};
use crate::template;
use crate::text::Text;
use vstd::prelude::*;

verus! {

/// The event of a worktree that has been created.
pub const POST_CREATE: &'static str = "post_create";

/// The event of a worktree that is to be removed.
pub const PRE_REMOVE: &'static str = "pre_remove";

/// The variables of a hook's command.
pub open spec fn hook_vars(repo: RepoModel, branch: Text, worktree: Text) -> Seq<(Text, Text)> {
    seq![("repo"@, repo.name), ("branch"@, branch), ("worktree_path"@, worktree)]
}

/// The commands of the hooks for `event`, in order.
pub open spec fn runs(
    cfg: ConfigModel,
    event: Text,
    repo: RepoModel,
    branch: Text,
    worktree: Text,
) -> Seq<Text> {
    config::commands(config::listed(cfg.hooks), event, hook_vars(repo, branch, worktree))
}

/// The commands of the hooks for `event`, in order. Each is to run in the worktree,
/// and the first that fails ends the run.
pub fn run_hooks(cfg: &Config, event: &str, repo: &Repo, branch: &str, worktree: &str) -> (r: Vec<
    String,
>)
    ensures
        r.deep_view() == runs(cfg.deep_view(), event@, repo.deep_view(), branch@, worktree@),
{
    let vars = [
        ("repo", repo.name.as_str()),
        ("branch", branch),
        ("worktree_path", worktree),
    ];
    assert(template::bindings(vars@) =~= hook_vars(repo.deep_view(), branch@, worktree@));
    cfg.hook_commands(event, &vars)
}

/// What announces the command of a hook.
pub open spec fn announcement(event: Text, command: Text) -> Text {
    "["@ + event + "] "@ + command
}

/// Announces the command of a hook.
pub fn announce(event: &str, command: &str) -> (r: String)
    ensures
        r@ == announcement(event@, command@),
{
    "[".to_owned().concat(event).concat("] ").concat(command)
}

/// What became of the command of a hook.
pub open spec fn hook_outcome(event: Text, command: Text, reply: ReplyModel) -> Result<
    (),
    ErrorModel,
> {
    if !reply.started {
        Err(Error::HookNotRun { command, cause: reply.note })
    } else if !reply.success {
        Err(Error::HookFailed { event, command })
    } else {
        Ok(())
    }
}

/// Tells what became of the command of a hook.
pub fn check_hook(event: &str, command: &str, reply: Reply) -> (r: Result<(), Error>)
    ensures
        git::same_outcome(r, hook_outcome(event@, command@, reply.deep_view())),
{
    if !reply.started {
        Err(Error::HookNotRun { command: command.to_owned(), cause: reply.note })
    } else if !reply.success {
        Err(Error::HookFailed { event: event.to_owned(), command: command.to_owned() })
    } else {
        Ok(())
    }
}

} // verus!
