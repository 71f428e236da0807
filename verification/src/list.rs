//! Listing the worktrees: what is known of each, and how it is shown.

use crate::config::{Config, ConfigModel};
use crate::display;
use crate::display::{render_human, render_porcelain, Layout, LayoutModel};
use crate::git;
use crate::git::{Facts, Known, Query, Stop, StopModel, Topic};
use crate::path;
use crate::path::is_same_path;
use crate::porcelain;
use crate::porcelain::{
    parse_worktrees, worktree_labels, AheadBehind, Status, StatusModel, Worktree, WorktreeModel,
};
use crate::repo;
use crate::repo::{
    ahead_behind, branch_tips, default_branch, worktree_base, worktree_status, Repo, RepoModel,
};
use crate::stack;
use crate::stack::{
    direct_children, lineage_cached, Children, ChildrenModel, Memo, Stack, StackModel,
};
use crate::text::{copy_texts, empty_list, grow, same, Text};
use vstd::prelude::*;

verus! {

/// How a list is to be shown.
#[derive(Clone, Copy, PartialEq, Eq, Structural, Debug)]
pub enum ListFormat {
    /// A row per worktree, short and in color.
    Human,
    /// Lines of a key and a value, nothing left out.
    Porcelain,
    /// The rows themselves, to be written as JSON.
    Json,
}

/// All that a list tells of one worktree. `N` holds counts.
pub struct WorktreeView<S = String, L = Vec<String>, N = usize> {
    /// The branch checked out; none in the bare repository itself, nor if HEAD is
    /// detached.
    pub branch: Option<S>,
    pub path: S,
    pub bare: bool,
    /// The program was started in this worktree.
    pub current: bool,
    pub detached: bool,
    /// The lineage of the branch, the trunk first; empty if it is not rooted on
    /// the trunk.
    pub lineage: L,
    /// The branches stacked directly on it; empty if there are too many to tell.
    pub children: L,
    /// How many descendants there are, if they are too many.
    pub children_overflow: Option<N>,
    pub status: Status<N>,
    /// Commits that the upstream lacks.
    pub ahead: Option<N>,
    /// Commits that only the upstream has.
    pub behind: Option<N>,
    /// The branch, or `bare` or `detached`.
    pub label: S,
}

/// The value of a row.
pub type ViewModel = WorktreeView<Text, Seq<Text>, nat>;

/// The value of a count.
pub open spec fn count(n: Option<usize>) -> Option<nat> {
    match n {
        Some(k) => Some(k as nat),
        None => None,
    }
}

impl DeepView for WorktreeView<String, Vec<String>, usize> {
    type V = ViewModel;

    open spec fn deep_view(&self) -> ViewModel {
        WorktreeView {
            branch: self.branch.deep_view(),
            path: self.path@,
            bare: self.bare,
            current: self.current,
            detached: self.detached,
            lineage: self.lineage.deep_view(),
            children: self.children.deep_view(),
            children_overflow: count(self.children_overflow),
            status: self.status.deep_view(),
            ahead: count(self.ahead),
            behind: count(self.behind),
            label: self.label@,
        }
    }
}

// ---------------------------------------------------------------------------
// Collecting
// ---------------------------------------------------------------------------

/// What the commit graph tells of a branch: its lineage and its children.
pub struct Kin<S = String, L = Vec<String>, C = Children> {
    pub label: S,
    pub chain: L,
    pub kids: C,
}

/// The value of a branch's kin.
pub type KinModel = Kin<Text, Seq<Text>, ChildrenModel>;

impl DeepView for Kin<String, Vec<String>, Children> {
    type V = KinModel;

    open spec fn deep_view(&self) -> KinModel {
        Kin {
            label: self.label@,
            chain: self.chain.deep_view(),
            kids: self.kids.deep_view(),
        }
    }
}

/// The kin of the branch `label`. The trunk is given no children: every branch is
/// stacked on it.
pub open spec fn kin_of(known: Known, st: StackModel, label: Text) -> Result<KinModel, StopModel> {
    match stack::lineage_of(known, st, label) {
        Err(stop) => Err(stop),
        Ok(chain) => if label == st.trunk {
            Ok(Kin { label, chain, kids: Children::Leaf })
        } else {
            match stack::children_of(known, st, label) {
                Err(stop) => Err(stop),
                Ok(kids) => Ok(Kin { label, chain, kids }),
            }
        },
    }
}

/// The kin of each of `labels`.
pub open spec fn all_kin(known: Known, st: StackModel, labels: Seq<Text>) -> Result<
    Seq<KinModel>,
    StopModel,
>
    decreases labels.len(),
{
    if labels.len() == 0 {
        Ok(Seq::empty())
    } else {
        match kin_of(known, st, labels[0]) {
            Err(stop) => Err(stop),
            Ok(kin) => repo::after(seq![kin], all_kin(known, st, labels.drop_first())),
        }
    }
}

/// The first of `kin` that is about `label`.
pub open spec fn kin_about(kin: Seq<KinModel>, label: Text) -> Option<KinModel>
    decreases kin.len(),
{
    if kin.len() == 0 {
        None
    } else if kin[0].label == label {
        Some(kin[0])
    } else {
        kin_about(kin.drop_first(), label)
    }
}

/// Whether the worktree `w` is the one whose canonical path is `here`.
pub open spec fn is_here(known: Known, here: Option<Text>, w: WorktreeModel) -> Result<
    bool,
    StopModel,
> {
    match here {
        None => Ok(false),
        Some(place) => if w.bare {
            Ok(false)
        } else {
            match git::resolved(known, git::query(Topic::Canonical, ""@, w.path, ""@)) {
                Err(stop) => Err(stop),
                Ok(None) => Ok(false),
                Ok(Some(true_path)) => Ok(path::same_path(true_path, place)),
            }
        },
    }
}

/// The lineage that a row shows: one of a branch rooted on the trunk.
pub open spec fn shown_chain(kin: Option<KinModel>) -> Seq<Text> {
    match kin {
        Some(k) => if k.chain.len() >= 2 {
            k.chain
        } else {
            Seq::empty()
        },
        None => Seq::empty(),
    }
}

/// The children that a row names.
pub open spec fn shown_kids(kin: Option<KinModel>) -> Seq<Text> {
    match kin {
        Some(k) => match k.kids {
            Children::Immediate(names) => names,
            _ => Seq::empty(),
        },
        None => Seq::empty(),
    }
}

/// The number of descendants that a row gives in place of children.
pub open spec fn shown_overflow(kin: Option<KinModel>) -> Option<nat> {
    match kin {
        Some(k) => match k.kids {
            Children::Many(n) => Some(n),
            _ => None,
        },
        None => None,
    }
}

/// The row of the worktree `w` with its state found.
pub open spec fn row_with(
    w: WorktreeModel,
    kin: Option<KinModel>,
    current: bool,
    apart: Option<(nat, nat)>,
    status: StatusModel,
) -> ViewModel {
    WorktreeView {
        branch: if !w.bare && !w.detached {
            Some(w.label)
        } else {
            None
        },
        path: w.path,
        bare: w.bare,
        current,
        detached: w.detached,
        lineage: shown_chain(kin),
        children: shown_kids(kin),
        children_overflow: shown_overflow(kin),
        status,
        ahead: match apart {
            Some((behind, ahead)) => Some(ahead),
            None => None,
        },
        behind: match apart {
            Some((behind, ahead)) => Some(behind),
            None => None,
        },
        label: w.label,
    }
}

/// The kin of the branch checked out in `w`, if one is.
pub open spec fn own_kin(kin: Seq<KinModel>, w: WorktreeModel) -> Option<KinModel> {
    if porcelain::on_branch(w) {
        kin_about(kin, w.label)
    } else {
        None
    }
}

/// The row of the worktree `w`. The bare repository itself has no state.
pub open spec fn row(
    known: Known,
    here: Option<Text>,
    kin: Seq<KinModel>,
    w: WorktreeModel,
) -> Result<ViewModel, StopModel> {
    let about = own_kin(kin, w);
    match is_here(known, here, w) {
        Err(stop) => Err(stop),
        Ok(current) => if w.bare {
            Ok(row_with(w, about, current, None, porcelain::status_of(Seq::empty())))
        } else {
            match repo::divergence(known, w.path) {
                Err(stop) => Err(stop),
                Ok(apart) => match repo::status_in(known, w.path) {
                    Err(stop) => Err(stop),
                    Ok(status) => Ok(row_with(w, about, current, apart, status)),
                },
            }
        },
    }
}

/// The rows of `list`.
pub open spec fn rows(
    known: Known,
    here: Option<Text>,
    kin: Seq<KinModel>,
    list: Seq<WorktreeModel>,
) -> Result<Seq<ViewModel>, StopModel>
    decreases list.len(),
{
    if list.len() == 0 {
        Ok(Seq::empty())
    } else {
        match row(known, here, kin, list[0]) {
            Err(stop) => Err(stop),
            Ok(view) => repo::after(seq![view], rows(known, here, kin, list.drop_first())),
        }
    }
}

/// The canonical path of the working tree in which the program was started.
pub open spec fn here_of(known: Known, root: Option<Text>) -> Result<Option<Text>, StopModel> {
    match root {
        None => Ok(None),
        Some(dir) => git::resolved(known, git::query(Topic::Canonical, ""@, dir, ""@)),
    }
}

/// The kin of all branches of `list` that have a worktree; none without a trunk.
pub open spec fn kin_in(
    known: Known,
    dir: Text,
    tips: Seq<porcelain::TipModel>,
    trunk: Option<Text>,
    list: Seq<WorktreeModel>,
) -> Result<Seq<KinModel>, StopModel> {
    match trunk {
        None => Ok(Seq::empty()),
        Some(name) => {
            let labels = porcelain::labels(list);
            all_kin(known, Stack { dir, tips, trunk: name, checked_out: labels }, labels)
        },
    }
}

/// The rows of all worktrees of the repository.
pub open spec fn views_of(known: Known, repo: RepoModel, cfg: ConfigModel) -> Result<
    Seq<ViewModel>,
    StopModel,
> {
    let dir = repo::work_dir(repo);
    match git::required(known, git::query(Topic::Worktrees, dir, ""@, ""@)) {
        Err(stop) => Err(stop),
        Ok(out) => {
            let list = porcelain::worktrees(out);
            match here_of(known, repo.root) {
                Err(stop) => Err(stop),
                Ok(here) => match repo::local_tips(known, dir) {
                    Err(stop) => Err(stop),
                    Ok(tips) => match repo::trunk(known, dir, cfg, tips) {
                        Err(stop) => Err(stop),
                        Ok(trunk) => match kin_in(known, dir, tips, trunk, list) {
                            Err(stop) => Err(stop),
                            Ok(kin) => rows(known, here, kin, list),
                        },
                    },
                },
            }
        },
    }
}

fn find_kin(facts: &Facts, st: &Stack) -> (r: Result<Vec<Kin>, Stop>)
    ensures
        git::agrees(r, all_kin(facts@, st.deep_view(), st.deep_view().checked_out)),
{
    let ghost known = facts@;
    let ghost model = st.deep_view();
    let ghost all = model.checked_out;
    let ghost goal = all_kin(known, model, all);
    let mut memo = Memo::new();
    let mut out: Vec<Kin> = empty_list();
    let mut i: usize = 0;
    assert(all.skip(0) =~= all);
    assert(goal matches Ok(s) ==> out.deep_view() + s =~= s);
    while i < st.checked_out.len()
        invariant
            i <= st.checked_out.len(),
            known == facts@,
            model == st.deep_view(),
            all == st.checked_out.deep_view(),
            all == model.checked_out,
            goal == all_kin(known, model, all),
            memo.coherent(known, model),
            repo::after(out.deep_view(), all_kin(known, model, all.skip(i as int))) == goal,
        decreases st.checked_out.len() - i,
    {
        let label = st.checked_out[i].clone();
        let ghost rest = all.skip(i as int);
        let ghost before = out.deep_view();
        let ghost tail = all_kin(known, model, all.skip(i + 1));
        assert(rest[0] == label@);
        assert(rest.drop_first() =~= all.skip(i + 1));
        let chain = lineage_cached(facts, st, label.as_str(), &mut memo)?;
        let kids = if same(label.as_str(), st.trunk.as_str()) {
            Children::Leaf
        } else {
            direct_children(facts, st, label.as_str(), &mut memo)?
        };
        let kin = Kin { label, chain, kids };
        assert(kin_of(known, model, rest[0]) == Ok::<KinModel, StopModel>(kin.deep_view()));
        assert(tail matches Ok(s) ==> before.push(kin.deep_view()) + s =~= before + (
        seq![kin.deep_view()] + s));
        grow(&mut out, kin);
        i += 1;
    }
    assert(out.deep_view() + Seq::<KinModel>::empty() =~= out.deep_view());
    Ok(out)
}

fn find_kin_about<'a>(kin: &'a Vec<Kin>, label: &str) -> (r: Option<&'a Kin>)
    ensures
        r.deep_view() == kin_about(kin.deep_view(), label@),
{
    let ghost all = kin.deep_view();
    let mut i: usize = 0;
    assert(all.skip(0) =~= all);
    while i < kin.len()
        invariant
            i <= kin.len(),
            all == kin.deep_view(),
            kin_about(all.skip(i as int), label@) == kin_about(all, label@),
        decreases kin.len() - i,
    {
        let ghost rest = all.skip(i as int);
        assert(rest[0] == kin@[i as int].deep_view());
        assert(rest.drop_first() =~= all.skip(i + 1));
        if same(kin[i].label.as_str(), label) {
            return Some(&kin[i]);
        }
        i += 1;
    }
    None
}

fn check_here(facts: &Facts, here: &Option<String>, w: &Worktree) -> (r: Result<bool, Stop>)
    ensures
        git::agrees(r, is_here(facts@, here.deep_view(), w.deep_view())),
{
    match here {
        None => Ok(false),
        Some(place) => {
            if w.bare {
                return Ok(false);
            }
            match facts.resolve(Query::new(Topic::Canonical, "", w.path.as_str(), ""))? {
                Some(true_path) => Ok(is_same_path(true_path.as_str(), place.as_str())),
                None => Ok(false),
            }
        },
    }
}

fn make_row(facts: &Facts, here: &Option<String>, kin: &Vec<Kin>, w: &Worktree) -> (r: Result<
    WorktreeView,
    Stop,
>)
    ensures
        git::agrees(r, row(facts@, here.deep_view(), kin.deep_view(), w.deep_view())),
{
    let current = check_here(facts, here, w)?;
    let about: Option<&Kin> = if !w.bare && !w.detached {
        find_kin_about(kin, w.label.as_str())
    } else {
        None
    };
    let mut chain: Vec<String> = empty_list();
    let mut kids: Vec<String> = empty_list();
    let mut overflow: Option<usize> = None;
    if let Some(k) = about {
        assert(k.chain.deep_view().len() == k.chain.len());
        if k.chain.len() >= 2 {
            chain = copy_texts(&k.chain);
        }
        match &k.kids {
            Children::Leaf => {},
            Children::Immediate(names) => {
                kids = copy_texts(names);
            },
            Children::Many(n) => {
                overflow = Some(*n);
            },
        }
    }
    let mut status: Status = Status { files: 0, staged: 0, unstaged: 0, untracked: 0 };
    let mut apart: Option<AheadBehind> = None;
    if !w.bare {
        apart = ahead_behind(facts, w.path.as_str())?;
        status = worktree_status(facts, w.path.as_str())?;
    }
    let branch: Option<String> = if !w.bare && !w.detached {
        Some(w.label.clone())
    } else {
        None
    };
    let (ahead, behind): (Option<usize>, Option<usize>) = match apart {
        Some(ab) => (Some(ab.ahead), Some(ab.behind)),
        None => (None, None),
    };
    Ok(
        WorktreeView {
            branch,
            path: w.path.clone(),
            bare: w.bare,
            current,
            detached: w.detached,
            lineage: chain,
            children: kids,
            children_overflow: overflow,
            status,
            ahead,
            behind,
            label: w.label.clone(),
        },
    )
}

fn make_rows(facts: &Facts, here: &Option<String>, kin: &Vec<Kin>, list: &Vec<Worktree>) -> (r:
    Result<Vec<WorktreeView>, Stop>)
    ensures
        git::agrees(r, rows(facts@, here.deep_view(), kin.deep_view(), list.deep_view())),
{
    let ghost known = facts@;
    let ghost place = here.deep_view();
    let ghost about = kin.deep_view();
    let ghost all = list.deep_view();
    let ghost goal = rows(known, place, about, all);
    let mut out: Vec<WorktreeView> = empty_list();
    let mut i: usize = 0;
    assert(all.skip(0) =~= all);
    assert(goal matches Ok(s) ==> out.deep_view() + s =~= s);
    while i < list.len()
        invariant
            i <= list.len(),
            known == facts@,
            place == here.deep_view(),
            about == kin.deep_view(),
            all == list.deep_view(),
            goal == rows(known, place, about, all),
            repo::after(out.deep_view(), rows(known, place, about, all.skip(i as int))) == goal,
        decreases list.len() - i,
    {
        let ghost rest = all.skip(i as int);
        let ghost before = out.deep_view();
        let ghost tail = rows(known, place, about, all.skip(i + 1));
        assert(rest[0] == list@[i as int].deep_view());
        assert(rest.drop_first() =~= all.skip(i + 1));
        let view = make_row(facts, here, kin, &list[i])?;
        assert(tail matches Ok(s) ==> before.push(view.deep_view()) + s =~= before + (
        seq![view.deep_view()] + s));
        grow(&mut out, view);
        i += 1;
    }
    assert(out.deep_view() + Seq::<ViewModel>::empty() =~= out.deep_view());
    Ok(out)
}

/// Finds out all that a list tells of the repository's worktrees.
pub fn collect_views(facts: &Facts, repo: &Repo, cfg: &Config) -> (r: Result<
    Vec<WorktreeView>,
    Stop,
>)
    ensures
        git::agrees(r, views_of(facts@, repo.deep_view(), cfg.deep_view())),
{
    let dir = repo.cwd();
    let out = facts.require(Query::new(Topic::Worktrees, dir, "", ""))?;
    let list = parse_worktrees(out.as_str());
    let here: Option<String> = match &repo.root {
        Some(root) => facts.resolve(Query::new(Topic::Canonical, "", root.as_str(), ""))?,
        None => None,
    };
    let tips = branch_tips(facts, dir)?;
    let trunk = default_branch(facts, dir, cfg, &tips)?;
    let kin: Vec<Kin> = match trunk {
        Some(name) => {
            let checked_out = worktree_labels(&list);
            find_kin(facts, &Stack { dir: dir.to_owned(), tips, trunk: name, checked_out })?
        },
        None => empty_list(),
    };
    make_rows(facts, &here, &kin, &list)
}

// ---------------------------------------------------------------------------
// The command
// ---------------------------------------------------------------------------

/// A list, as far as this crate takes it.
pub enum Listing<S = String, R = Vec<WorktreeView>> {
    /// To be printed as it is.
    Printed(S),
    /// To be written as JSON.
    Rows(R),
}

/// The value of a list.
pub type ListingModel = Listing<Text, Seq<ViewModel>>;

impl DeepView for Listing<String, Vec<WorktreeView>> {
    type V = ListingModel;

    open spec fn deep_view(&self) -> ListingModel {
        match self {
            Listing::Printed(s) => Listing::Printed(s@),
            Listing::Rows(views) => Listing::Rows(views.deep_view()),
        }
    }
}

/// `views` in the given format.
pub open spec fn in_format(
    views: Seq<ViewModel>,
    format: ListFormat,
    look: LayoutModel,
) -> ListingModel {
    match format {
        ListFormat::Human => Listing::Printed(display::human(views, look)),
        ListFormat::Porcelain => Listing::Printed(display::machine(views)),
        ListFormat::Json => Listing::Rows(views),
    }
}

/// The list of the repository's worktrees. `home` is the user's home directory, and
/// `color` says that the terminal has color.
pub open spec fn listing_of(
    known: Known,
    repo: RepoModel,
    cfg: ConfigModel,
    format: ListFormat,
    verbose: bool,
    home: Option<Text>,
    color: bool,
) -> Result<ListingModel, StopModel> {
    match views_of(known, repo, cfg) {
        Err(stop) => Err(stop),
        Ok(views) => Ok(
            in_format(
                views,
                format,
                Layout { verbose, color, base: repo::base_dir(repo.bare, repo.main), home },
            ),
        ),
    }
}

/// Lists the repository's worktrees.
pub fn list(
    facts: &Facts,
    repo: &Repo,
    cfg: &Config,
    format: ListFormat,
    verbose: bool,
    home: Option<String>,
    color: bool,
) -> (r: Result<Listing, Stop>)
    ensures
        git::agrees(
            r,
            listing_of(
                facts@,
                repo.deep_view(),
                cfg.deep_view(),
                format,
                verbose,
                home.deep_view(),
                color,
            ),
        ),
{
    let views = collect_views(facts, repo, cfg)?;
    let base = worktree_base(repo.bare, repo.main.as_str());
    let look = Layout { verbose, color, base, home };
    match format {
        ListFormat::Human => Ok(Listing::Printed(render_human(&views, &look))),
        ListFormat::Porcelain => Ok(Listing::Printed(render_porcelain(&views))),
        ListFormat::Json => Ok(Listing::Rows(views)),
    }
}

} // verus!
