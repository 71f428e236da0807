//! That asking works: a function asks only what is not known yet, and what it
//! returns stays the same however much more is learned.
//!
//! So a caller who answers each question and calls again never answers the same
//! question twice, and the result does not depend on what else has been answered.

use crate::config::{ConfigModel, Mode};
use crate::create;
use crate::create::RequestModel;
use crate::git;
use crate::git::{Known, Stop, StopModel};
use crate::list;
use crate::nav;
use crate::nav::Nav;
use crate::porcelain;
use crate::porcelain::{TipModel, WorktreeModel};
use crate::remove;
use crate::remove::{RemovalModel, Stage};
use crate::repo;
use crate::repo::RepoModel;
use crate::stack;
use crate::stack::{Children, StackModel};
use crate::text;
use crate::text::Text;
use crate::transfer;
use vstd::prelude::*;

verus! {

/// True if the result `now`, told from `known`, is either a question that `known`
/// does not answer, or the same as the result `later`, told from more.
pub open spec fn steady<T>(
    known: Known,
    now: Result<T, StopModel>,
    later: Result<T, StopModel>,
) -> bool {
    match now {
        Err(Stop::Ask(q)) => !known.contains_key(q),
        _ => later == now,
    }
}

// ---------------------------------------------------------------------------
// Parts
// ---------------------------------------------------------------------------

proof fn lemma_related(known: Known, more: Known, dir: Text, a: Text, b: Text)
    requires
        known.submap_of(more),
    ensures
        steady(known, stack::related(known, dir, a, b), stack::related(more, dir, a, b)),
{
}

proof fn lemma_lineage(known: Known, more: Known, st: StackModel, branch: Text)
    requires
        known.submap_of(more),
    ensures
        steady(known, stack::lineage_of(known, st, branch), stack::lineage_of(more, st, branch)),
{
    lemma_related(known, more, st.dir, st.trunk, branch);
}

proof fn lemma_stacked_on(known: Known, more: Known, st: StackModel, parent: Text, list: Seq<Text>)
    requires
        known.submap_of(more),
    ensures
        steady(
            known,
            stack::stacked_on(known, st, parent, list),
            stack::stacked_on(more, st, parent, list),
        ),
    decreases list.len(),
{
    if list.len() > 0 {
        lemma_lineage(known, more, st, list[0]);
        lemma_stacked_on(known, more, st, parent, list.drop_first());
    }
}

proof fn lemma_children(known: Known, more: Known, st: StackModel, parent: Text)
    requires
        known.submap_of(more),
    ensures
        steady(known, stack::children_of(known, st, parent), stack::children_of(more, st, parent)),
{
    if let Ok(list) = stack::descendants(known, st, parent) {
        lemma_stacked_on(known, more, st, parent, list);
    }
}

proof fn lemma_summit(known: Known, more: Known, st: StackModel, path: Seq<Text>, current: Text)
    requires
        known.submap_of(more),
        known.dom().finite(),
        more.dom().finite(),
    ensures
        steady(
            known,
            nav::summit(known, st, path, current),
            nav::summit(more, st, path, current),
        ),
    decreases nav::unused(known, path).len(),
{
    lemma_children(known, more, st, current);
    if !path.contains(current) {
        if let Ok(Children::Immediate(kids)) = stack::children_of(known, st, current) {
            nav::lemma_unused(known, st, path, current);
            lemma_summit(known, more, st, path.push(current), kids[0]);
        }
    }
}

proof fn lemma_step(known: Known, more: Known, st: StackModel, current: Text, nav: Nav)
    requires
        known.submap_of(more),
        known.dom().finite(),
        more.dom().finite(),
    ensures
        steady(known, nav::step(known, st, current, nav), nav::step(more, st, current, nav)),
{
    lemma_lineage(known, more, st, current);
    lemma_children(known, more, st, current);
    lemma_summit(known, more, st, Seq::empty(), current);
}

proof fn lemma_trunk(known: Known, more: Known, dir: Text, cfg: ConfigModel, tips: Seq<TipModel>)
    requires
        known.submap_of(more),
    ensures
        steady(known, repo::trunk(known, dir, cfg, tips), repo::trunk(more, dir, cfg, tips)),
{
}

proof fn lemma_worktree_at(known: Known, more: Known, list: Seq<WorktreeModel>, expected: Text)
    requires
        known.submap_of(more),
    ensures
        steady(
            known,
            repo::worktree_at(known, list, expected),
            repo::worktree_at(more, list, expected),
        ),
    decreases list.len(),
{
    if list.len() > 0 {
        lemma_worktree_at(known, more, list.drop_first(), expected);
    }
}

proof fn lemma_having(known: Known, more: Known, dir: Text, branch: Text, remotes: Seq<Text>)
    requires
        known.submap_of(more),
    ensures
        steady(
            known,
            repo::having(known, dir, branch, remotes),
            repo::having(more, dir, branch, remotes),
        ),
    decreases remotes.len(),
{
    if remotes.len() > 0 {
        lemma_having(known, more, dir, branch, remotes.drop_first());
    }
}

proof fn lemma_remote_for(
    known: Known,
    more: Known,
    dir: Text,
    branch: Text,
    explicit: Option<Text>,
)
    requires
        known.submap_of(more),
    ensures
        steady(
            known,
            repo::remote_for(known, dir, branch, explicit),
            repo::remote_for(more, dir, branch, explicit),
        ),
{
    if let Ok(Some(out)) = git::optional(
        known,
        git::query(git::Topic::Remotes, dir, ""@, ""@),
    ) {
        lemma_having(known, more, dir, branch, text::lines_of(out));
    }
}

proof fn lemma_status(known: Known, more: Known, dir: Text)
    requires
        known.submap_of(more),
    ensures
        steady(known, repo::status_in(known, dir), repo::status_in(more, dir)),
        steady(known, repo::divergence(known, dir), repo::divergence(more, dir)),
{
}

proof fn lemma_all_kin(known: Known, more: Known, st: StackModel, labels: Seq<Text>)
    requires
        known.submap_of(more),
    ensures
        steady(known, list::all_kin(known, st, labels), list::all_kin(more, st, labels)),
    decreases labels.len(),
{
    if labels.len() > 0 {
        lemma_lineage(known, more, st, labels[0]);
        lemma_children(known, more, st, labels[0]);
        lemma_all_kin(known, more, st, labels.drop_first());
    }
}

proof fn lemma_row(
    known: Known,
    more: Known,
    here: Option<Text>,
    kin: Seq<list::KinModel>,
    w: WorktreeModel,
)
    requires
        known.submap_of(more),
    ensures
        steady(known, list::row(known, here, kin, w), list::row(more, here, kin, w)),
{
    lemma_status(known, more, w.path);
}

proof fn lemma_rows(
    known: Known,
    more: Known,
    here: Option<Text>,
    kin: Seq<list::KinModel>,
    trees: Seq<WorktreeModel>,
)
    requires
        known.submap_of(more),
    ensures
        steady(known, list::rows(known, here, kin, trees), list::rows(more, here, kin, trees)),
    decreases trees.len(),
{
    if trees.len() > 0 {
        lemma_row(known, more, here, kin, trees[0]);
        lemma_rows(known, more, here, kin, trees.drop_first());
    }
}

// ---------------------------------------------------------------------------
// The commands
// ---------------------------------------------------------------------------

/// Finding the repository is steady.
pub proof fn law_discovery_is_steady(known: Known, more: Known)
    requires
        known.submap_of(more),
    ensures
        steady(known, repo::discovered(known), repo::discovered(more)),
{
}

/// Finding a worktree by its name is steady.
pub proof fn law_cd_is_steady(
    known: Known,
    more: Known,
    repo: RepoModel,
    cfg: ConfigModel,
    name: Text,
)
    requires
        known.submap_of(more),
    ensures
        steady(
            known,
            repo::worktree_named(known, repo, cfg, name),
            repo::worktree_named(more, repo, cfg, name),
        ),
{
    if let Ok(out) = git::required(
        known,
        git::query(git::Topic::Worktrees, repo::work_dir(repo), ""@, ""@),
    ) {
        if let Ok(expected) = repo::canonical(known, repo::worktree_path(repo, cfg, name)) {
            lemma_worktree_at(known, more, porcelain::worktrees(out), expected);
        }
    }
}

/// Creating a worktree is steady.
pub proof fn law_add_is_steady(
    known: Known,
    more: Known,
    repo: RepoModel,
    cfg: ConfigModel,
    req: RequestModel,
    fetched: bool,
)
    requires
        known.submap_of(more),
    ensures
        steady(
            known,
            create::added(known, repo, cfg, req, fetched),
            create::added(more, repo, cfg, req, fetched),
        ),
{
    lemma_remote_for(known, more, repo::work_dir(repo), req.branch, req.remote);
}

/// Removing a worktree is steady.
pub proof fn law_rm_is_steady(
    known: Known,
    more: Known,
    repo: RepoModel,
    cfg: ConfigModel,
    branch: Text,
    force: bool,
    delete_branch: bool,
)
    requires
        known.submap_of(more),
    ensures
        steady(
            known,
            remove::removal(known, repo, cfg, branch, force, delete_branch),
            remove::removal(more, repo, cfg, branch, force, delete_branch),
        ),
{
    law_cd_is_steady(known, more, repo, cfg, branch);
}

/// What follows a removal is steady: clearing the branch away, and finding a place
/// to go.
pub proof fn law_aftermath_is_steady(
    known: Known,
    more: Known,
    repo: RepoModel,
    cfg: ConfigModel,
    branch: Text,
)
    requires
        known.submap_of(more),
    ensures
        steady(
            known,
            remove::clearance(known, repo, cfg, branch),
            remove::clearance(more, repo, cfg, branch),
        ),
        steady(known, repo::home_dir(known, repo, cfg), repo::home_dir(more, repo, cfg)),
{
    if let Ok(tips) = repo::local_tips(known, repo.main) {
        lemma_trunk(known, more, repo.main, cfg, tips);
    }
}

/// Each step of a removal is steady.
pub proof fn law_rm_steps_are_steady(
    known: Known,
    more: Known,
    repo: RepoModel,
    cfg: ConfigModel,
    branch: Text,
    plan: RemovalModel,
    stage: Stage,
)
    requires
        known.submap_of(more),
    ensures
        steady(
            known,
            remove::removal_step(known, repo, cfg, branch, plan, stage),
            remove::removal_step(more, repo, cfg, branch, plan, stage),
        ),
{
    law_aftermath_is_steady(known, more, repo, cfg, branch);
}

/// Moving along a stack is steady.
pub proof fn law_navigation_is_steady(
    known: Known,
    more: Known,
    repo: RepoModel,
    cfg: ConfigModel,
    nav: Nav,
)
    requires
        known.submap_of(more),
        known.dom().finite(),
        more.dom().finite(),
    ensures
        steady(
            known,
            nav::navigated(known, repo, cfg, nav),
            nav::navigated(more, repo, cfg, nav),
        ),
{
    if let Some(dir) = repo.root {
        lemma_status(known, more, dir);
        if let Ok(current) = nav::head_branch(known, dir) {
            if let Ok(tips) = repo::local_tips(known, dir) {
                lemma_trunk(known, more, dir, cfg, tips);
                if let Ok(Some(trunk)) = repo::trunk(known, dir, cfg, tips) {
                    if let Ok(out) = git::required(
                        known,
                        git::query(git::Topic::Worktrees, dir, ""@, ""@),
                    ) {
                        let st = nav::stack_at(dir, tips, trunk, porcelain::worktrees(out));
                        lemma_step(known, more, st, current, nav);
                    }
                }
            }
        }
    }
}

/// Listing the worktrees is steady.
pub proof fn law_list_is_steady(known: Known, more: Known, repo: RepoModel, cfg: ConfigModel)
    requires
        known.submap_of(more),
    ensures
        steady(known, list::views_of(known, repo, cfg), list::views_of(more, repo, cfg)),
{
    let dir = repo::work_dir(repo);
    if let Ok(out) = git::required(known, git::query(git::Topic::Worktrees, dir, ""@, ""@)) {
        let trees = porcelain::worktrees(out);
        if let Ok(here) = list::here_of(known, repo.root) {
            if let Ok(tips) = repo::local_tips(known, dir) {
                lemma_trunk(known, more, dir, cfg, tips);
                if let Ok(trunk) = repo::trunk(known, dir, cfg, tips) {
                    if let Some(name) = trunk {
                        let labels = porcelain::labels(trees);
                        let st = stack::Stack { dir, tips, trunk: name, checked_out: labels };
                        lemma_all_kin(known, more, st, labels);
                    }
                    if let Ok(kin) = list::kin_in(known, dir, tips, trunk, trees) {
                        lemma_rows(known, more, here, kin, trees);
                    }
                }
            }
        }
    }
}

/// Finding the source of what is to be transferred is steady.
pub proof fn law_source_is_steady(known: Known, more: Known, repo: RepoModel, cfg: ConfigModel)
    requires
        known.submap_of(more),
    ensures
        steady(known, repo::source_dir(known, repo, cfg), repo::source_dir(more, repo, cfg)),
        steady(
            known,
            transfer::listing_source(known, repo, cfg),
            transfer::listing_source(more, repo, cfg),
        ),
{
}

/// Telling what is to be transferred is steady.
pub proof fn law_transfer_is_steady(
    known: Known,
    more: Known,
    source: Text,
    worktree: Text,
    mode: Mode,
    entries: Seq<Text>,
)
    requires
        known.submap_of(more),
    ensures
        steady(
            known,
            transfer::jobs_of(known, source, worktree, mode, entries),
            transfer::jobs_of(more, source, worktree, mode, entries),
        ),
    decreases entries.len(),
{
    if entries.len() > 0 {
        law_transfer_is_steady(known, more, source, worktree, mode, entries.drop_first());
    }
}

} // verus!
