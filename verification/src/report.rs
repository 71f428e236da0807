//! What the commands say when they are done.

use crate::nav::{Move, MoveModel};
use crate::style;
use crate::style::{paint, Paint};
use crate::text::Text;
use vstd::prelude::*;

verus! {

/// `note` behind a check mark.
pub open spec fn ticked(color: bool, note: Text) -> Text {
    style::shown(color, Paint::Green, "✓"@) + " "@ + note
}

fn tick(color: bool, note: &str) -> (r: String)
    ensures
        r@ == ticked(color, note@),
{
    paint(color, Paint::Green, "✓").concat(" ").concat(note)
}

/// What is said of a new worktree.
pub open spec fn created_text(color: bool, branch: Text, tracking: Option<Text>) -> Text {
    let first = ticked(color, "created worktree for "@ + branch);
    match tracking {
        Some(full) => first + "\n  tracking "@ + full,
        None => first,
    }
}

/// What to say of a new worktree.
pub fn created(color: bool, branch: &str, tracking: Option<&str>) -> (r: String)
    ensures
        r@ == created_text(color, branch@, tracking.deep_view()),
{
    let first = tick(color, "created worktree for ".to_owned().concat(branch).as_str());
    match tracking {
        Some(full) => first.concat("\n  tracking ").concat(full),
        None => first,
    }
}

/// What is said of a worktree that is gone.
pub open spec fn removed_text(color: bool, path: Text) -> Text {
    ticked(color, "removed worktree: "@ + path)
}

/// What to say of a worktree that is gone.
pub fn removed(color: bool, path: &str) -> (r: String)
    ensures
        r@ == removed_text(color, path@),
{
    tick(color, "removed worktree: ".to_owned().concat(path).as_str())
}

/// What is said of a move.
pub open spec fn moved_text(color: bool, step: MoveModel) -> Text {
    match step {
        Move::Stay { reason } => reason,
        Move::Enter { branch, path } => ticked(color, branch + ": switched to its worktree"@),
        Move::Checkout { branch } => ticked(color, branch + ": checked out in place"@),
    }
}

/// What to say of a move.
pub fn moved(color: bool, step: &Move) -> (r: String)
    ensures
        r@ == moved_text(color, step.deep_view()),
{
    match step {
        Move::Stay { reason } => reason.clone(),
        Move::Enter { branch, path } => {
            let note = branch.clone().concat(": switched to its worktree");
            tick(color, note.as_str())
        },
        Move::Checkout { branch } => {
            let note = branch.clone().concat(": checked out in place");
            tick(color, note.as_str())
        },
    }
}

/// The warning that a pattern of the list of files to transfer cannot be used.
pub open spec fn skipped_text(pattern: Text, reason: Text) -> Text {
    "warning: skipping invalid .worktreeinclude pattern '"@ + pattern + "': "@ + reason
}

/// Warns that a pattern of the list of files to transfer cannot be used.
pub fn skipped(pattern: &str, reason: &str) -> (r: String)
    ensures
        r@ == skipped_text(pattern@, reason@),
{
    "warning: skipping invalid .worktreeinclude pattern '".to_owned().concat(pattern).concat(
        "': ",
    ).concat(reason)
}

} // verus!
