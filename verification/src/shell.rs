//! Going to a worktree, and the shell function that makes the shell go there.

use crate::config::Config;
use crate::error::{Error, ErrorModel};
use crate::git;
use crate::git::{Facts, Stop};
use crate::repo;
use crate::repo::{resolve_worktree, Repo};
use crate::text::{same, Text};
use vstd::prelude::*;

verus! {

/// The function for bash and zsh. Commands that print a path are captured, and the
/// shell goes there; all others pass through.
pub const BASH_ZSH_WRAPPER: &'static str =
    r#"tonic() {
    case "$1" in
        add|cd|rm|remove|up|down|top|bottom)
            # --help prints to stdout at exit 0; don't capture it as a path.
            case " $* " in
                *" -h "*|*" --help "*) command tonic "$@"; return ;;
            esac
            local __tonic_dir
            __tonic_dir="$(command tonic "$@")" || return
            [ -n "$__tonic_dir" ] && cd "$__tonic_dir"
            ;;
        *)
            command tonic "$@"
            ;;
    esac
}
"#;

/// The function for fish.
pub const FISH_WRAPPER: &'static str =
    r#"function tonic
    switch $argv[1]
        case add cd rm remove up down top bottom
            # --help prints to stdout at exit 0; don't capture it as a path.
            if contains -- -h $argv; or contains -- --help $argv
                command tonic $argv
                return
            end
            set -l __tonic_dir (command tonic $argv); or return
            test -n "$__tonic_dir"; and cd $__tonic_dir
        case '*'
            command tonic $argv
    end
end
"#;

/// The function for `shell`, if it is one of bash, zsh and fish.
pub open spec fn wrapper_of(shell: Text) -> Option<Text> {
    if shell == "bash"@ || shell == "zsh"@ {
        Some(BASH_ZSH_WRAPPER@)
    } else if shell == "fish"@ {
        Some(FISH_WRAPPER@)
    } else {
        None
    }
}

/// The function for `shell`.
pub fn shell_wrapper(shell: &str) -> (r: Option<&'static str>)
    ensures
        r.deep_view() == wrapper_of(shell@),
{
    if same(shell, "bash") || same(shell, "zsh") {
        Some(BASH_ZSH_WRAPPER)
    } else if same(shell, "fish") {
        Some(FISH_WRAPPER)
    } else {
        None
    }
}

/// The function for `shell`, or the error that there is none.
pub open spec fn init_of(shell: Text) -> Result<Text, ErrorModel> {
    match wrapper_of(shell) {
        Some(script) => Ok(script),
        None => Err(Error::UnsupportedShell { shell }),
    }
}

/// The function for `shell`, to be printed.
pub fn shell_init(shell: &str) -> (r: Result<&'static str, Error>)
    ensures
        match (r, init_of(shell@)) {
            (Ok(a), Ok(b)) => a@ == b,
            (Err(a), Err(b)) => a.deep_view() == b,
            _ => false,
        },
{
    match shell_wrapper(shell) {
        Some(script) => Ok(script),
        None => Err(Error::UnsupportedShell { shell: shell.to_owned() }),
    }
}

/// The path of the worktree that `branch` means, to be printed.
pub fn cd(facts: &Facts, repo: &Repo, cfg: &Config, branch: &str) -> (r: Result<String, Stop>)
    ensures
        git::agrees(
            r,
            repo::worktree_named(facts@, repo.deep_view(), cfg.deep_view(), branch@),
        ),
{
    resolve_worktree(facts, repo, cfg, branch)
}

} // verus!
