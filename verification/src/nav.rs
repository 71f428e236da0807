//! Moving along a stack: `up` and `top` towards the tip, `down` and `bottom`
//! towards the trunk.
//!
//! A step ends in the worktree of the branch it leads to, if that has one; else
//! the branch is checked out in place. Nothing is rebased.

use crate::config::{Config, ConfigModel};
use crate::error::Error;
use crate::git;
use crate::git::{Facts, Known, Query, QueryModel, Stop, StopModel, Topic};
use crate::porcelain;
use crate::porcelain::{find_checkout, parse_worktrees, worktree_labels, Worktree, WorktreeModel};
use crate::repo;
use crate::repo::{branch_tips, default_branch, is_dirty, Repo, RepoModel};
use crate::stack;
use crate::stack::{direct_children, lineage, Children, Memo, Stack, StackModel};
use crate::text::{empty_list, grow, has_text, same, Text};
use vstd::prelude::*;

verus! {

/// Which way to go.
#[derive(Clone, Copy, PartialEq, Eq, Structural, Debug)]
pub enum Nav {
    Up,
    Down,
    Top,
    Bottom,
}

/// Where a step leads: to a branch, or nowhere, with the reason.
pub enum NavStep<S = String> {
    Go(S),
    Stay(S),
}

/// The value of a step.
pub type NavStepModel = NavStep<Text>;

impl DeepView for NavStep<String> {
    type V = NavStepModel;

    open spec fn deep_view(&self) -> NavStepModel {
        match self {
            NavStep::Go(branch) => NavStep::Go(branch@),
            NavStep::Stay(reason) => NavStep::Stay(reason@),
        }
    }
}

/// What is to be done to get there.
pub enum Move<S = String> {
    /// Nothing; say why.
    Stay { reason: S },
    /// Go to the worktree of the branch.
    Enter { branch: S, path: S },
    /// Check the branch out in the current worktree.
    Checkout { branch: S },
}

/// The value of a move.
pub type MoveModel = Move<Text>;

impl DeepView for Move<String> {
    type V = MoveModel;

    open spec fn deep_view(&self) -> MoveModel {
        match self {
            Move::Stay { reason } => Move::Stay { reason: reason@ },
            Move::Enter { branch, path } => Move::Enter { branch: branch@, path: path@ },
            Move::Checkout { branch } => Move::Checkout { branch: branch@ },
        }
    }
}

// ---------------------------------------------------------------------------
// Steps
// ---------------------------------------------------------------------------

/// One step towards the trunk: to the branch right below `current`.
pub open spec fn down_step(known: Known, st: StackModel, current: Text) -> Result<
    NavStepModel,
    StopModel,
> {
    match stack::lineage_of(known, st, current) {
        Err(stop) => Err(stop),
        Ok(chain) => match stack::below_last(chain) {
            Some(parent) => Ok(NavStep::Go(parent)),
            None => Ok(NavStep::Stay("already at the bottom of the stack (on the trunk)"@)),
        },
    }
}

/// To the base of the stack: the branch right above the trunk.
pub open spec fn bottom_step(known: Known, st: StackModel, current: Text) -> Result<
    NavStepModel,
    StopModel,
> {
    match stack::lineage_of(known, st, current) {
        Err(stop) => Err(stop),
        Ok(chain) => if chain.len() < 2 {
            Ok(NavStep::Stay("already at the bottom of the stack (on the trunk)"@))
        } else if chain[1] == current {
            Ok(NavStep::Stay("already at the bottom of the stack"@))
        } else {
            Ok(NavStep::Go(chain[1]))
        },
    }
}

/// One step towards the tip: to the only branch stacked on `current`.
pub open spec fn up_step(known: Known, st: StackModel, current: Text) -> Result<
    NavStepModel,
    StopModel,
> {
    match stack::children_of(known, st, current) {
        Err(stop) => Err(stop),
        Ok(Children::Leaf) => Ok(NavStep::Stay("already at the top of the stack"@)),
        Ok(Children::Immediate(kids)) => if kids.len() == 1 {
            Ok(NavStep::Go(kids[0]))
        } else {
            Err(Stop::Fail(Error::Forks { branch: current, children: kids }))
        },
        Ok(Children::Many(count)) => Err(
            Stop::Fail(Error::Crowded { branch: current, count }),
        ),
    }
}

/// The known answers that climbing from branches other than those of `path` may
/// use.
pub open spec fn unused(known: Known, path: Seq<Text>) -> Set<QueryModel> {
    known.dom().difference(
        Set::new(|q: QueryModel| q.topic == Topic::Containing && path.contains(q.subject)),
    )
}

/// The branch that a climb from `current` ends at, by way of only children. `path`
/// holds the branches left behind; only finitely much may be known.
pub open spec fn summit(known: Known, st: StackModel, path: Seq<Text>, current: Text) -> Result<
    Text,
    StopModel,
>
    decreases unused(known, path).len(),
    when known.dom().finite()
{
    if path.contains(current) {
        Err(Stop::Fail(Error::ClimbLoops { branch: current }))
    } else {
        match stack::children_of(known, st, current) {
            Err(stop) => Err(stop),
            Ok(Children::Leaf) => Ok(current),
            Ok(Children::Immediate(kids)) => if kids.len() == 1 {
                proof {
                    lemma_unused(known, st, path, current);
                }
                summit(known, st, path.push(current), kids[0])
            } else {
                Err(Stop::Fail(Error::ClimbForks { branch: current, children: kids }))
            },
            Ok(Children::Many(count)) => Err(
                Stop::Fail(Error::ClimbCrowded { branch: current, count }),
            ),
        }
    }
}

/// Leaving a branch whose children are known uses up an answer.
pub proof fn lemma_unused(known: Known, st: StackModel, path: Seq<Text>, current: Text)
    requires
        known.dom().finite(),
        !path.contains(current),
        stack::children_of(known, st, current) is Ok,
    ensures
        unused(known, path.push(current)).len() < unused(known, path).len(),
{
    let q = git::query(Topic::Containing, st.dir, current, ""@);
    let (a, b) = (unused(known, path), unused(known, path.push(current)));
    assert(a.contains(q));
    assert(path.push(current)[path.len() as int] == current);
    assert(!b.contains(q));
    assert forall|x: QueryModel| b.contains(x) implies a.remove(q).contains(x) by {
        if path.contains(x.subject) {
            let k = choose|k: int| 0 <= k < path.len() && path[k] == x.subject;
            assert(path.push(current)[k] == x.subject);
        }
    }
    vstd::set_lib::lemma_len_subset(b, a.remove(q));
}

/// To the tip of the stack.
pub open spec fn top_step(known: Known, st: StackModel, current: Text) -> Result<
    NavStepModel,
    StopModel,
> {
    match summit(known, st, Seq::empty(), current) {
        Err(stop) => Err(stop),
        Ok(tip) => if tip == current {
            Ok(NavStep::Stay("already at the top of the stack"@))
        } else {
            Ok(NavStep::Go(tip))
        },
    }
}

/// Where `nav` leads from `current`.
pub open spec fn step(known: Known, st: StackModel, current: Text, nav: Nav) -> Result<
    NavStepModel,
    StopModel,
> {
    match nav {
        Nav::Up => up_step(known, st, current),
        Nav::Down => down_step(known, st, current),
        Nav::Top => top_step(known, st, current),
        Nav::Bottom => bottom_step(known, st, current),
    }
}

/// One step towards the trunk.
pub fn parent_of(facts: &Facts, st: &Stack, current: &str) -> (r: Result<NavStep, Stop>)
    ensures
        git::agrees(r, down_step(facts@, st.deep_view(), current@)),
{
    let chain = lineage(facts, st, current)?;
    assert(chain.deep_view().len() == chain.len());
    if chain.len() >= 2 {
        Ok(NavStep::Go(chain[chain.len() - 2].clone()))
    } else {
        Ok(NavStep::Stay("already at the bottom of the stack (on the trunk)".to_owned()))
    }
}

/// To the base of the stack.
pub fn base_of(facts: &Facts, st: &Stack, current: &str) -> (r: Result<NavStep, Stop>)
    ensures
        git::agrees(r, bottom_step(facts@, st.deep_view(), current@)),
{
    let chain = lineage(facts, st, current)?;
    assert(chain.deep_view().len() == chain.len());
    if chain.len() < 2 {
        Ok(NavStep::Stay("already at the bottom of the stack (on the trunk)".to_owned()))
    } else if same(chain[1].as_str(), current) {
        Ok(NavStep::Stay("already at the bottom of the stack".to_owned()))
    } else {
        Ok(NavStep::Go(chain[1].clone()))
    }
}

/// One step towards the tip.
pub fn child_of(facts: &Facts, st: &Stack, current: &str) -> (r: Result<NavStep, Stop>)
    ensures
        git::agrees(r, up_step(facts@, st.deep_view(), current@)),
{
    let mut memo = Memo::new();
    match direct_children(facts, st, current, &mut memo)? {
        Children::Leaf => Ok(NavStep::Stay("already at the top of the stack".to_owned())),
        Children::Immediate(kids) => {
            assert(kids.deep_view().len() == kids.len());
            if kids.len() == 1 {
                Ok(NavStep::Go(kids[0].clone()))
            } else {
                Err(Stop::Fail(Error::Forks { branch: current.to_owned(), children: kids }))
            }
        },
        Children::Many(count) => Err(
            Stop::Fail(Error::Crowded { branch: current.to_owned(), count }),
        ),
    }
}

/// To the tip of the stack.
pub fn tip_of(facts: &Facts, st: &Stack, current: &str) -> (r: Result<NavStep, Stop>)
    ensures
        git::agrees(r, top_step(facts@, st.deep_view(), current@)),
{
    let ghost known = facts@;
    let ghost model = st.deep_view();
    let mut memo = Memo::new();
    let mut path: Vec<String> = empty_list();
    let mut cur = current.to_owned();
    proof {
        git::lemma_finite(facts);
    }
    loop
        invariant
            known == facts@,
            model == st.deep_view(),
            known.dom().finite(),
            memo.coherent(known, model),
            summit(known, model, path.deep_view(), cur@) == summit(
                known,
                model,
                Seq::empty(),
                current@,
            ),
        decreases unused(known, path.deep_view()).len(),
    {
        if has_text(&path, cur.as_str()) {
            return Err(Stop::Fail(Error::ClimbLoops { branch: cur }));
        }
        match direct_children(facts, st, cur.as_str(), &mut memo)? {
            Children::Leaf => {
                return if same(cur.as_str(), current) {
                    Ok(NavStep::Stay("already at the top of the stack".to_owned()))
                } else {
                    Ok(NavStep::Go(cur))
                };
            },
            Children::Immediate(kids) => {
                assert(kids.deep_view().len() == kids.len());
                if kids.len() == 1 {
                    proof {
                        lemma_unused(known, model, path.deep_view(), cur@);
                    }
                    grow(&mut path, cur);
                    cur = kids[0].clone();
                } else {
                    return Err(Stop::Fail(Error::ClimbForks { branch: cur, children: kids }));
                }
            },
            Children::Many(count) => {
                return Err(Stop::Fail(Error::ClimbCrowded { branch: cur, count }));
            },
        }
    }
}

// ---------------------------------------------------------------------------
// Getting there
// ---------------------------------------------------------------------------

/// The branch checked out in `dir`.
pub open spec fn head_branch(known: Known, dir: Text) -> Result<Text, StopModel> {
    match git::optional(known, git::query(Topic::Head, dir, ""@, ""@)) {
        Err(stop) => Err(stop),
        Ok(None) => Err(Stop::Fail(Error::DetachedHead)),
        Ok(Some(head)) => if head.len() == 0 {
            Err(Stop::Fail(Error::DetachedHead))
        } else {
            Ok(head)
        },
    }
}

/// The branch checked out in `dir`.
pub fn current_branch(facts: &Facts, dir: &str) -> (r: Result<String, Stop>)
    ensures
        git::agrees(r, head_branch(facts@, dir@)),
{
    match facts.try_capture(Query::new(Topic::Head, dir, "", ""))? {
        Some(head) => if head.as_str().is_empty() {
            Err(Stop::Fail(Error::DetachedHead))
        } else {
            Ok(head)
        },
        None => Err(Stop::Fail(Error::DetachedHead)),
    }
}

/// How to get to `branch` from the worktree at `dir`: into its own worktree; else
/// by a checkout in place, which changes to tracked files forbid.
pub open spec fn arrival(
    known: Known,
    dir: Text,
    worktrees: Seq<WorktreeModel>,
    branch: Text,
) -> Result<MoveModel, StopModel> {
    match porcelain::checkout_of(worktrees, branch) {
        Some(path) => Ok(Move::Enter { branch, path }),
        None => match repo::dirty_in(known, dir) {
            Err(stop) => Err(stop),
            Ok(dirty) => if dirty {
                Err(Stop::Fail(Error::TrackedChanges { branch }))
            } else {
                Ok(Move::Checkout { branch })
            },
        },
    }
}

/// How to get to `branch` from the worktree at `dir`.
pub fn goto(facts: &Facts, dir: &str, worktrees: &Vec<Worktree>, branch: &str) -> (r: Result<
    Move,
    Stop,
>)
    ensures
        git::agrees(r, arrival(facts@, dir@, worktrees.deep_view(), branch@)),
{
    if let Some(path) = find_checkout(worktrees, branch) {
        return Ok(Move::Enter { branch: branch.to_owned(), path });
    }
    if is_dirty(facts, dir)? {
        return Err(Stop::Fail(Error::TrackedChanges { branch: branch.to_owned() }));
    }
    Ok(Move::Checkout { branch: branch.to_owned() })
}

/// The arguments of git that check `branch` out in place.
pub fn checkout_args(branch: &str) -> (r: Vec<String>)
    ensures
        r.deep_view() == seq!["checkout"@, branch@],
{
    let mut args: Vec<String> = empty_list();
    grow(&mut args, "checkout".to_owned());
    grow(&mut args, branch.to_owned());
    args
}

/// The stack in whose terms the worktree at `dir` is navigated.
pub open spec fn stack_at(
    dir: Text,
    tips: Seq<porcelain::TipModel>,
    trunk: Text,
    worktrees: Seq<WorktreeModel>,
) -> StackModel {
    Stack { dir, tips, trunk, checked_out: porcelain::labels(worktrees) }
}

/// What `nav` takes in the worktree at `dir`, on the branch `current`.
pub open spec fn move_from(
    known: Known,
    dir: Text,
    cfg: ConfigModel,
    current: Text,
    nav: Nav,
) -> Result<
    MoveModel,
    StopModel,
> {
    match repo::local_tips(known, dir) {
        Err(stop) => Err(stop),
        Ok(tips) => match repo::trunk(known, dir, cfg, tips) {
            Err(stop) => Err(stop),
            Ok(None) => Err(Stop::Fail(Error::NoTrunk)),
            Ok(Some(trunk)) => match git::required(
                known,
                git::query(Topic::Worktrees, dir, ""@, ""@),
            ) {
                Err(stop) => Err(stop),
                Ok(out) => {
                    let list = porcelain::worktrees(out);
                    match step(known, stack_at(dir, tips, trunk, list), current, nav) {
                        Err(stop) => Err(stop),
                        Ok(NavStep::Stay(reason)) => Ok(Move::Stay { reason }),
                        Ok(NavStep::Go(branch)) => arrival(known, dir, list, branch),
                    }
                },
            },
        },
    }
}

/// What `nav` takes in the worktree in which the program was started.
pub open spec fn navigated(known: Known, repo: RepoModel, cfg: ConfigModel, nav: Nav) -> Result<
    MoveModel,
    StopModel,
> {
    match repo.root {
        None => Err(Stop::Fail(Error::OutsideWorktree)),
        Some(dir) => match head_branch(known, dir) {
            Err(stop) => Err(stop),
            Ok(current) => move_from(known, dir, cfg, current, nav),
        },
    }
}

/// Finds out what `nav` takes in the worktree in which the program was started.
pub fn navigate(facts: &Facts, repo: &Repo, cfg: &Config, nav: Nav) -> (r: Result<Move, Stop>)
    ensures
        git::agrees(r, navigated(facts@, repo.deep_view(), cfg.deep_view(), nav)),
{
    let dir = match &repo.root {
        Some(dir) => dir.as_str(),
        None => {
            return Err(Stop::Fail(Error::OutsideWorktree));
        },
    };
    let current = current_branch(facts, dir)?;
    let tips = branch_tips(facts, dir)?;
    let trunk = match default_branch(facts, dir, cfg, &tips)? {
        Some(trunk) => trunk,
        None => {
            return Err(Stop::Fail(Error::NoTrunk));
        },
    };
    let out = facts.require(Query::new(Topic::Worktrees, dir, "", ""))?;
    let worktrees = parse_worktrees(out.as_str());
    let checked_out = worktree_labels(&worktrees);
    let st = Stack { dir: dir.to_owned(), tips, trunk, checked_out };
    let step = match nav {
        Nav::Up => child_of(facts, &st, current.as_str())?,
        Nav::Down => parent_of(facts, &st, current.as_str())?,
        Nav::Top => tip_of(facts, &st, current.as_str())?,
        Nav::Bottom => base_of(facts, &st, current.as_str())?,
    };
    match step {
        NavStep::Stay(reason) => Ok(Move::Stay { reason }),
        NavStep::Go(branch) => goto(facts, dir, &worktrees, branch.as_str()),
    }
}

/// One branch up: to the only child of the current branch.
pub fn up(facts: &Facts, repo: &Repo, cfg: &Config) -> (r: Result<Move, Stop>)
    ensures
        git::agrees(r, navigated(facts@, repo.deep_view(), cfg.deep_view(), Nav::Up)),
{
    navigate(facts, repo, cfg, Nav::Up)
}

/// One branch down: to the branch on which the current one is stacked.
pub fn down(facts: &Facts, repo: &Repo, cfg: &Config) -> (r: Result<Move, Stop>)
    ensures
        git::agrees(r, navigated(facts@, repo.deep_view(), cfg.deep_view(), Nav::Down)),
{
    navigate(facts, repo, cfg, Nav::Down)
}

/// To the tip of the stack.
pub fn top(facts: &Facts, repo: &Repo, cfg: &Config) -> (r: Result<Move, Stop>)
    ensures
        git::agrees(r, navigated(facts@, repo.deep_view(), cfg.deep_view(), Nav::Top)),
{
    navigate(facts, repo, cfg, Nav::Top)
}

/// To the base of the stack.
pub fn bottom(facts: &Facts, repo: &Repo, cfg: &Config) -> (r: Result<Move, Stop>)
    ensures
        git::agrees(r, navigated(facts@, repo.deep_view(), cfg.deep_view(), Nav::Bottom)),
{
    navigate(facts, repo, cfg, Nav::Bottom)
}

} // verus!
