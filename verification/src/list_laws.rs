//! What holds of lists: of what a row tells of its worktree, and of how it is shown.

use crate::config::ConfigModel;
use crate::display;
use crate::display::{Layout, LayoutModel};
use crate::git;
use crate::git::{Known, StopModel, Topic};
use crate::laws;
use crate::list;
use crate::list::{ListFormat, Listing, ListingModel, ViewModel};
use crate::path;
use crate::path_laws;
use crate::porcelain;
use crate::porcelain::{Status, StatusModel, TipModel, WorktreeModel};
use crate::reading_laws;
use crate::repo;
use crate::repo::RepoModel;
use crate::stack;
use crate::stack::{Children, StackModel};
use crate::style;
use crate::style::Paint;
use crate::text;
use crate::text::Text;
use vstd::prelude::*;

verus! {

// ---------------------------------------------------------------------------
// Rows
// ---------------------------------------------------------------------------

/// A row tells of the changes in its own worktree, and how far that is from its upstream:
/// the first of git's two counts is how far behind, the second how far ahead. The bare
/// repository itself has no changes and no upstream. The current worktree is the one whose
/// path is that of the working tree in which the program was started.
pub proof fn law_rows_tell_the_state(
    known: Known,
    repo: RepoModel,
    cfg: ConfigModel,
    out: Text,
    views: Seq<ViewModel>,
    i: int,
)
    requires
        git::required(
            known,
            git::query(Topic::Worktrees, repo::work_dir(repo), ""@, ""@),
        ) == Ok::<Text, StopModel>(out),
        list::views_of(known, repo, cfg) == Ok::<Seq<ViewModel>, StopModel>(views),
        0 <= i < views.len(),
    ensures
        views.len() == porcelain::worktrees(out).len(),
        ({
            let (v, w) = (views[i], porcelain::worktrees(out)[i]);
            &&& !w.bare ==> repo::status_in(known, w.path) == Ok::<StatusModel, StopModel>(v.status)
            &&& !w.bare ==> (repo::divergence(known, w.path) matches Ok(apart) && match apart {
                Some((behind, ahead)) => v.behind == Some(behind) && v.ahead == Some(ahead),
                None => v.behind is None && v.ahead is None,
            })
            &&& w.bare ==> v.behind is None && v.ahead is None && v.status == (Status {
                files: 0nat,
                staged: 0nat,
                unstaged: 0nat,
                untracked: 0nat,
            })
            &&& v.current <==> !w.bare && repo.root is Some && (git::resolved(
                known,
                git::query(Topic::Canonical, ""@, repo.root->Some_0, ""@),
            ) matches Ok(Some(here)) && (git::resolved(
                known,
                git::query(Topic::Canonical, ""@, w.path, ""@),
            ) matches Ok(Some(there)) && path::same_path(there, here)))
        }),
{
    let dir = repo::work_dir(repo);
    let trees = porcelain::worktrees(out);
    let here = list::here_of(known, repo.root)->Ok_0;
    let tips = repo::local_tips(known, dir)->Ok_0;
    let trunk = repo::trunk(known, dir, cfg, tips)->Ok_0;
    let kin = list::kin_in(known, dir, tips, trunk, trees)->Ok_0;
    laws::lemma_rows(known, here, kin, trees, views);
    assert(list::row(known, here, kin, trees[i]) == Ok::<ViewModel, StopModel>(views[i]));
}

/// A row shows the whole lineage of its branch, unless the branch stands alone, and all its
/// children, or how many descendants it has if these are too many. The trunk's children
/// are not shown, and without a trunk there are no stacks.
pub proof fn law_rows_show_the_stack(
    known: Known,
    repo: RepoModel,
    cfg: ConfigModel,
    out: Text,
    tips: Seq<TipModel>,
    trunk: Option<Text>,
    views: Seq<ViewModel>,
    i: int,
)
    requires
        git::required(
            known,
            git::query(Topic::Worktrees, repo::work_dir(repo), ""@, ""@),
        ) == Ok::<Text, StopModel>(out),
        repo::local_tips(known, repo::work_dir(repo)) == Ok::<Seq<TipModel>, StopModel>(tips),
        repo::trunk(known, repo::work_dir(repo), cfg, tips) == Ok::<Option<Text>, StopModel>(trunk),
        list::views_of(known, repo, cfg) == Ok::<Seq<ViewModel>, StopModel>(views),
        0 <= i < views.len(),
    ensures
        trunk is None ==> views[i].lineage.len() == 0 && views[i].children.len() == 0
            && views[i].children_overflow is None,
        trunk is Some && !views[i].bare && !views[i].detached ==> {
            let v = views[i];
            let st = stack::Stack {
                dir: repo::work_dir(repo),
                tips,
                trunk: trunk->Some_0,
                checked_out: porcelain::labels(porcelain::worktrees(out)),
            };
            &&& stack::lineage_of(known, st, v.label) matches Ok(chain) && v.lineage == (
            if chain.len() >= 2 {
                chain
            } else {
                Seq::empty()
            })
            &&& v.label != st.trunk ==> (stack::children_of(known, st, v.label) matches Ok(kids)
                && match kids {
                Children::Leaf => v.children.len() == 0 && v.children_overflow is None,
                Children::Immediate(names) => v.children == names && v.children_overflow is None,
                Children::Many(n) => v.children.len() == 0 && v.children_overflow == Some(n),
            })
        },
{
    let dir = repo::work_dir(repo);
    let trees = porcelain::worktrees(out);
    let here = list::here_of(known, repo.root)->Ok_0;
    let kin = list::kin_in(known, dir, tips, trunk, trees)->Ok_0;
    laws::lemma_rows(known, here, kin, trees, views);
    assert(list::row(known, here, kin, trees[i]) == Ok::<ViewModel, StopModel>(views[i]));
    if let Some(name) = trunk {
        let labels = porcelain::labels(trees);
        let st = stack::Stack { dir, tips, trunk: name, checked_out: labels };
        assert(list::all_kin(known, st, labels) == Ok::<Seq<list::KinModel>, StopModel>(kin));
        if porcelain::on_branch(trees[i]) {
            laws::lemma_labels(trees, i);
            laws::lemma_kin_about(known, st, labels, kin, trees[i].label);
        }
    } else {
        assert(kin.len() == 0);
        assert(list::kin_about(kin, trees[i].label) is None);
    }
}

proof fn lemma_all_kin_told(known: Known, st: StackModel, labels: Seq<Text>)
    requires
        forall|i: int|
            0 <= i < labels.len() ==> stack::lineage_of(known, st, #[trigger] labels[i]) is Ok
                && stack::children_of(known, st, labels[i]) is Ok,
    ensures
        list::all_kin(known, st, labels) is Ok,
    decreases labels.len(),
{
    if labels.len() > 0 {
        let rest = labels.drop_first();
        assert(stack::lineage_of(known, st, labels[0]) is Ok);
        assert forall|i: int| 0 <= i < rest.len() implies stack::lineage_of(
            known,
            st,
            #[trigger] rest[i],
        ) is Ok && stack::children_of(known, st, rest[i]) is Ok by {
            assert(rest[i] == labels[i + 1]);
        }
        lemma_all_kin_told(known, st, rest);
    }
}

proof fn lemma_rows_told(
    known: Known,
    here: Option<Text>,
    kin: Seq<list::KinModel>,
    trees: Seq<WorktreeModel>,
)
    requires
        forall|i: int|
            0 <= i < trees.len() && !(#[trigger] trees[i]).bare ==> git::resolved(
                known,
                git::query(Topic::Canonical, ""@, trees[i].path, ""@),
            ) is Ok && repo::divergence(known, trees[i].path) is Ok && repo::status_in(
                known,
                trees[i].path,
            ) is Ok,
    ensures
        list::rows(known, here, kin, trees) is Ok,
    decreases trees.len(),
{
    if trees.len() > 0 {
        let rest = trees.drop_first();
        assert(trees[0].bare || repo::divergence(known, trees[0].path) is Ok);
        assert forall|i: int| 0 <= i < rest.len() && !(#[trigger] rest[i]).bare implies git::resolved(
            known,
            git::query(Topic::Canonical, ""@, rest[i].path, ""@),
        ) is Ok && repo::divergence(known, rest[i].path) is Ok && repo::status_in(
            known,
            rest[i].path,
        ) is Ok by {
            assert(rest[i] == trees[i + 1]);
        }
        lemma_rows_told(known, here, kin, rest);
    }
}

/// Worktrees can be listed wherever all that is asked of them is answered.
pub proof fn law_lists_succeed(
    known: Known,
    repo: RepoModel,
    cfg: ConfigModel,
    out: Text,
    tips: Seq<TipModel>,
    trunk: Option<Text>,
)
    requires
        git::required(
            known,
            git::query(Topic::Worktrees, repo::work_dir(repo), ""@, ""@),
        ) == Ok::<Text, StopModel>(out),
        repo.root matches Some(dir) ==> git::resolved(
            known,
            git::query(Topic::Canonical, ""@, dir, ""@),
        ) is Ok,
        repo::local_tips(known, repo::work_dir(repo)) == Ok::<Seq<TipModel>, StopModel>(tips),
        repo::trunk(known, repo::work_dir(repo), cfg, tips) == Ok::<Option<Text>, StopModel>(trunk),
        forall|i: int|
            0 <= i < porcelain::worktrees(out).len() && !(#[trigger] porcelain::worktrees(
                out,
            )[i]).bare ==> git::resolved(
                known,
                git::query(Topic::Canonical, ""@, porcelain::worktrees(out)[i].path, ""@),
            ) is Ok && repo::divergence(known, porcelain::worktrees(out)[i].path) is Ok
                && repo::status_in(known, porcelain::worktrees(out)[i].path) is Ok,
        trunk matches Some(name) ==> {
            let labels = porcelain::labels(porcelain::worktrees(out));
            let st = stack::Stack {
                dir: repo::work_dir(repo),
                tips,
                trunk: name,
                checked_out: labels,
            };
            forall|i: int|
                0 <= i < labels.len() ==> stack::lineage_of(known, st, #[trigger] labels[i]) is Ok
                    && stack::children_of(known, st, labels[i]) is Ok
        },
    ensures
        list::views_of(known, repo, cfg) is Ok,
{
    let dir = repo::work_dir(repo);
    let trees = porcelain::worktrees(out);
    let here = list::here_of(known, repo.root)->Ok_0;
    if let Some(name) = trunk {
        let labels = porcelain::labels(trees);
        let st = stack::Stack { dir, tips, trunk: name, checked_out: labels };
        lemma_all_kin_told(known, st, labels);
    }
    let kin = list::kin_in(known, dir, tips, trunk, trees)->Ok_0;
    lemma_rows_told(known, here, kin, trees);
}

/// The format decides how the rows are shown, and not which.
pub proof fn law_formats(
    known: Known,
    repo: RepoModel,
    cfg: ConfigModel,
    verbose: bool,
    home: Option<Text>,
    color: bool,
    views: Seq<ViewModel>,
)
    requires
        list::views_of(known, repo, cfg) == Ok::<Seq<ViewModel>, StopModel>(views),
    ensures
        list::listing_of(known, repo, cfg, ListFormat::Json, verbose, home, color) == Ok::<
            ListingModel,
            StopModel,
        >(Listing::Rows(views)),
        list::listing_of(known, repo, cfg, ListFormat::Porcelain, verbose, home, color) == Ok::<
            ListingModel,
            StopModel,
        >(Listing::Printed(display::machine(views))),
        list::listing_of(known, repo, cfg, ListFormat::Human, verbose, home, color) == Ok::<
            ListingModel,
            StopModel,
        >(
            Listing::Printed(
                display::human(
                    views,
                    (Layout {
                        verbose,
                        color,
                        base: repo::base_dir(repo.bare, repo.main),
                        home,
                    }),
                ),
            ),
        ),
{
}

// ---------------------------------------------------------------------------
// For people
// ---------------------------------------------------------------------------

/// Rows are shown one on a line, in order, with all labels padded to the length of the
/// longest.
pub proof fn law_rows_on_lines(views: Seq<ViewModel>, v: ViewModel, width: nat, look: LayoutModel)
    ensures
        display::human_rows(Seq::empty(), width, look) == Seq::<char>::empty(),
        display::human_rows(views.push(v), width, look) == display::human_rows(views, width, look)
            + display::human_row(v, width, look) + seq!['\n'],
        (forall|i: int| 0 <= i < views.len() ==> (#[trigger] views[i]).label.len() <= width) && (
        views.len() == 0 ==> width == 0) && (views.len() > 0 ==> exists|i: int|
            0 <= i < views.len() && (#[trigger] views[i]).label.len() == width) ==> display::human(
            views,
            look,
        ) == display::human_rows(views, width, look),
{
    reveal_strlit("\n");
    assert("\n"@ =~= seq!['\n']);
    assert(views.push(v).drop_last() =~= views);
    lemma_label_width(views);
}

proof fn lemma_label_width(views: Seq<ViewModel>)
    ensures
        forall|i: int|
            0 <= i < views.len() ==> (#[trigger] views[i]).label.len() <= display::label_width(
                views,
            ),
        views.len() == 0 ==> display::label_width(views) == 0,
        views.len() > 0 ==> exists|i: int|
            0 <= i < views.len() && (#[trigger] views[i]).label.len() == display::label_width(
                views,
            ),
    decreases views.len(),
{
    if views.len() > 0 {
        let rest = views.drop_last();
        let n = views.len() - 1;
        lemma_label_width(rest);
        assert(forall|i: int| 0 <= i < rest.len() ==> rest[i] == views[i]);
        let (own, most) = (views[n].label.len(), display::label_width(rest));
        if own > most {
            assert(views[n].label.len() == display::label_width(views));
        } else if rest.len() > 0 {
            let k = choose|k: int|
                0 <= k < rest.len() && (#[trigger] rest[k]).label.len() == most;
            assert(views[k].label.len() == display::label_width(views));
        } else {
            assert(views[n].label.len() == display::label_width(views));
        }
    }
}

/// A row without color: the mark of the current worktree, the label, the short path; then
/// the stack of a branch that is in one; then its changes and the distance from its
/// upstream, as far as there are any. The bare repository itself is only named.
pub proof fn law_plain_rows(v: ViewModel, width: nat, look: LayoutModel)
    requires
        !look.color,
    ensures
        ({
            let row = display::human_row(v, width, look);
            let named = text::padded(v.label, width) + "  "@ + display::shortened(
                v.path,
                look.base,
                look.home,
            );
            let stack = if v.lineage.len() >= 3 || v.children.len() > 0 || v.children_overflow
                is Some {
                "  "@ + display::stack_text(v, look.verbose)
            } else {
                Seq::empty()
            };
            let (dirty, apart) = (
                display::dirty_text(v.status, look.verbose),
                display::upstream_text(v.ahead, v.behind),
            );
            let state = if dirty.len() > 0 && apart.len() > 0 {
                "  "@ + dirty + " "@ + apart
            } else if dirty.len() > 0 {
                "  "@ + dirty
            } else if apart.len() > 0 {
                "  "@ + apart
            } else {
                Seq::empty()
            };
            &&& v.bare ==> row == "  "@ + named
            &&& !v.bare && v.current ==> row == "▸"@ + " "@ + named + stack + state
            &&& !v.bare && !v.current ==> row == " "@ + " "@ + named + stack + state
        }),
{
    let place = display::shortened(v.path, look.base, look.home);
    let label = text::padded(v.label, width);
    let stack = if v.lineage.len() >= 3 || v.children.len() > 0 || v.children_overflow is Some {
        "  "@ + display::stack_text(v, look.verbose)
    } else {
        Seq::empty()
    };
    lemma_state(v, look.verbose);
    let state = display::trailing(display::state_segments(v, look.verbose, false));
    lemma_named("▸"@ + " "@, label, "  "@, place, stack, state);
    lemma_named(" "@ + " "@, label, "  "@, place, stack, state);
    lemma_named("  "@, label, "  "@, place, stack, state);
}

proof fn lemma_named(mark: Text, label: Text, gap: Text, place: Text, stack: Text, state: Text)
    ensures
        mark + label + gap + place == mark + (label + gap + place),
        mark + label + gap + place + stack + state == mark + (label + gap + place) + stack + state,
{
    assert(mark + label + gap + place =~= mark + (label + gap + place));
}

proof fn lemma_state(v: ViewModel, verbose: bool)
    ensures
        ({
            let (dirty, apart) = (
                display::dirty_text(v.status, verbose),
                display::upstream_text(v.ahead, v.behind),
            );
            display::trailing(display::state_segments(v, verbose, false)) == (if dirty.len() > 0
                && apart.len() > 0 {
                "  "@ + dirty + " "@ + apart
            } else if dirty.len() > 0 {
                "  "@ + dirty
            } else if apart.len() > 0 {
                "  "@ + apart
            } else {
                Seq::empty()
            })
        }),
{
    let (dirty, apart) = (
        display::dirty_text(v.status, verbose),
        display::upstream_text(v.ahead, v.behind),
    );
    let parts = display::state_segments(v, verbose, false);
    if dirty.len() > 0 && apart.len() > 0 {
        assert(parts =~= seq![dirty].push(apart));
        reading_laws::law_joining(seq![dirty], apart, " "@);
        reading_laws::law_joining(seq![dirty], dirty, " "@);
        assert("  "@ + (dirty + " "@ + apart) =~= "  "@ + dirty + " "@ + apart);
    } else if dirty.len() > 0 {
        assert(parts =~= seq![dirty]);
    } else if apart.len() > 0 {
        assert(parts =~= seq![apart]);
    } else {
        assert(parts =~= Seq::<Text>::empty());
    }
}

/// Color does not change what a row tells, but sets it off: the mark and the label of the
/// current worktree in green, the path and the stack dimmed, the changes in yellow, and the
/// distance from the upstream in cyan.
pub proof fn law_colored_rows(v: ViewModel, width: nat, look: LayoutModel)
    requires
        look.color,
    ensures
        ({
            let row = display::human_row(v, width, look);
            let label = text::padded(v.label, width);
            let place = style::shown(
                true,
                Paint::Dim,
                display::shortened(v.path, look.base, look.home),
            );
            let stack = if v.lineage.len() >= 3 || v.children.len() > 0 || v.children_overflow
                is Some {
                "  "@ + style::shown(true, Paint::Dim, display::stack_text(v, look.verbose))
            } else {
                Seq::empty()
            };
            let (dirty, apart) = (
                display::dirty_text(v.status, look.verbose),
                display::upstream_text(v.ahead, v.behind),
            );
            let state = display::trailing(
                (if dirty.len() > 0 {
                    seq![style::shown(true, Paint::Yellow, dirty)]
                } else {
                    Seq::empty()
                }) + (if apart.len() > 0 {
                    seq![style::shown(true, Paint::Cyan, apart)]
                } else {
                    Seq::empty()
                }),
            );
            &&& v.bare ==> row == "  "@ + style::shown(true, Paint::Dim, label) + "  "@ + place
            &&& !v.bare && v.current ==> row == style::shown(true, Paint::Green, "▸"@) + " "@
                + style::shown(true, Paint::BoldGreen, label) + "  "@ + place + stack + state
            &&& !v.bare && !v.current ==> row == " "@ + " "@ + label + "  "@ + place + stack + state
        }),
{
}

/// What trails a row stands behind two spaces, with one between each two parts.
pub proof fn law_trailing_parts(parts: Seq<Text>)
    ensures
        parts.len() == 0 ==> display::trailing(parts).len() == 0,
        parts.len() > 0 ==> display::trailing(parts) == "  "@ + text::joined(parts, " "@),
{
}

/// A path is shown as what lies below the directory of the worktrees; that directory itself
/// by its own name; others as what lies below the home directory, after `~/`, or whole.
pub proof fn law_short_paths(p: Text, base: Text, home: Option<Text>, e: Text, m: Text, n: Text)
    requires
        path_laws::is_name(m),
        path_laws::is_name(n),
        n != ".."@,
    ensures
        base.len() > 0 ==> display::shortened(base + seq!['/'] + m, base, home) == m,
        base.len() > 0 ==> display::shortened(base + seq!['/'] + m + seq!['/'] + n, base, home) == m
            + seq!['/'] + n,
        display::shortened(e + seq!['/'] + n, e + seq!['/'] + n, home) == n,
        path::below(p, base) matches Some(rel) ==> (rel.len() > 0 ==> display::shortened(
            p,
            base,
            home,
        ) == rel),
        path::below(p, base) is None && home is None ==> display::shortened(p, base, home) == p,
        path::below(p, base) is None ==> (home matches Some(dir) ==> match path::below(p, dir) {
            Some(rel) => display::shortened(p, base, home) == "~/"@ + rel,
            None => display::shortened(p, base, home) == p,
        }),
{
    path_laws::law_names_below(base, m, n);
    path_laws::law_last_component(e, n);
    path_laws::law_names_below(e + seq!['/'] + n, m, n);
}

/// How many files have changes: in short, their number behind a `!`; at length, those that
/// are staged, changed and untracked, as far as there are any. Nothing without changes.
pub proof fn law_shown_changes(st: StatusModel)
    ensures
        st.files > 0 ==> display::dirty_text(st, false) == "!"@ + text::decimal(st.files),
        st.files == 0 ==> display::dirty_text(st, false).len() == 0,
        display::dirty_text(st, true) == text::joined(
            (if st.staged > 0 {
                seq!["+"@ + text::decimal(st.staged)]
            } else {
                Seq::empty()
            }) + (if st.unstaged > 0 {
                seq!["*"@ + text::decimal(st.unstaged)]
            } else {
                Seq::empty()
            }) + (if st.untracked > 0 {
                seq!["?"@ + text::decimal(st.untracked)]
            } else {
                Seq::empty()
            }),
            " "@,
        ),
{
}

/// How far a branch is ahead and behind, as far as it is either.
pub proof fn law_shown_distance(ahead: Option<nat>, behind: Option<nat>)
    ensures
        display::upstream_text(ahead, behind) == text::joined(
            (if ahead is Some && ahead->Some_0 > 0 {
                seq!["↑"@ + text::decimal(ahead->Some_0)]
            } else {
                Seq::empty()
            }) + (if behind is Some && behind->Some_0 > 0 {
                seq!["↓"@ + text::decimal(behind->Some_0)]
            } else {
                Seq::empty()
            }),
            " "@,
        ),
{
}

/// The stack of a row: its lineage from the trunk on, with arrows between, and `*` for the
/// branch itself in the short form; then its only child, or how many children it has, or how
/// many descendants if these are too many.
pub proof fn law_shown_stack(v: ViewModel, verbose: bool, lower: Seq<Text>, own: Text)
    requires
        v.lineage == lower.push(own),
    ensures
        ({
            let chain = if verbose {
                text::joined(lower.push(own), " → "@)
            } else {
                text::joined(lower.push("*"@), " → "@)
            };
            let shown = display::stack_text(v, verbose);
            &&& v.children_overflow matches Some(n) ==> shown == chain + (" → ["@ + text::decimal(n)
                + "+]"@)
            &&& v.children_overflow is None && v.children.len() == 0 ==> shown == chain
            &&& v.children_overflow is None && v.children.len() == 1 ==> shown == chain + (" → "@
                + v.children[0])
            &&& v.children_overflow is None && v.children.len() > 1 ==> shown == chain + (" → ["@
                + text::decimal(v.children.len()) + "]"@)
        }),
{
    assert(lower.push(own).drop_last() =~= lower);
    let chain = text::joined(display::marked(v.lineage, verbose), " → "@);
    assert(chain + Seq::<char>::empty() =~= chain);
}

// ---------------------------------------------------------------------------
// For programs
// ---------------------------------------------------------------------------

/// The line `key` and `value`, if there is one.
pub open spec fn one_line(key: Text, value: Option<Text>) -> Seq<Text> {
    match value {
        Some(s) => seq![key + s],
        None => Seq::empty(),
    }
}

/// The count in decimal notation.
pub open spec fn written(n: Option<nat>) -> Option<Text> {
    match n {
        Some(k) => Some(text::decimal(k)),
        None => None,
    }
}

/// `names` with spaces between, if there are any.
pub open spec fn spaced(names: Seq<Text>) -> Option<Text> {
    if names.len() > 0 {
        Some(text::joined(names, " "@))
    } else {
        None
    }
}

/// The record of a worktree: its path, its branch, its flags, its lineage and children, its
/// changes and its distance from the upstream, each on a line of its own behind its own key,
/// and only what there is.
pub proof fn law_records(v: ViewModel)
    ensures
        display::record(v) == seq!["worktree "@ + v.path] + one_line("branch "@, v.branch) + (
        if v.bare {
            seq!["bare"@]
        } else {
            Seq::empty()
        }) + (if v.detached {
            seq!["detached"@]
        } else {
            Seq::empty()
        }) + (if v.current {
            seq!["current"@]
        } else {
            Seq::empty()
        }) + one_line("lineage "@, spaced(v.lineage)) + one_line("children "@, spaced(v.children))
            + one_line("children-overflow "@, written(v.children_overflow)) + seq![
            "status files="@ + text::decimal(v.status.files) + " staged="@ + text::decimal(
                v.status.staged,
            ) + " unstaged="@ + text::decimal(v.status.unstaged) + " untracked="@ + text::decimal(
                v.status.untracked,
            ),
        ] + one_line("ahead "@, written(v.ahead)) + one_line("behind "@, written(v.behind)),
{
    let whole = seq!["worktree "@ + v.path] + one_line("branch "@, v.branch) + (if v.bare {
        seq!["bare"@]
    } else {
        Seq::empty()
    }) + (if v.detached {
        seq!["detached"@]
    } else {
        Seq::empty()
    }) + (if v.current {
        seq!["current"@]
    } else {
        Seq::empty()
    });
    assert(display::identity_lines(v) =~= whole);
    let middle = one_line("lineage "@, spaced(v.lineage)) + one_line(
        "children "@,
        spaced(v.children),
    ) + one_line("children-overflow "@, written(v.children_overflow));
    assert(display::stack_lines(v) =~= middle);
    let end = seq![display::status_line(v.status)] + one_line("ahead "@, written(v.ahead))
        + one_line("behind "@, written(v.behind));
    assert(display::state_lines(v) =~= end);
    assert(whole + middle + end =~= display::record(v));
    lemma_regroup(
        whole,
        one_line("lineage "@, spaced(v.lineage)),
        one_line("children "@, spaced(v.children)),
        one_line("children-overflow "@, written(v.children_overflow)),
        seq![display::status_line(v.status)],
        one_line("ahead "@, written(v.ahead)),
        one_line("behind "@, written(v.behind)),
    );
}

proof fn lemma_regroup(
    a: Seq<Text>,
    b: Seq<Text>,
    c: Seq<Text>,
    d: Seq<Text>,
    e: Seq<Text>,
    f: Seq<Text>,
    g: Seq<Text>,
)
    ensures
        a + (b + c + d) + (e + f + g) == a + b + c + d + e + f + g,
{
    assert(a + (b + c + d) =~= a + b + c + d);
    let h = a + b + c + d;
    assert(h + (e + f + g) =~= h + e + f + g);
}

/// Records stand in the order of the rows, each line ended, with an empty line between each
/// two records.
pub proof fn law_records_on_lines(views: Seq<ViewModel>, v: ViewModel, lines: Seq<Text>, line: Text)
    ensures
        display::machine(Seq::empty()) == Seq::<char>::empty(),
        display::machine(seq![v]) == display::on_lines(display::record(v)),
        views.len() > 0 ==> display::machine(views.push(v)) == display::machine(views) + seq!['\n']
            + display::on_lines(display::record(v)),
        display::on_lines(lines.push(line)) == display::on_lines(lines) + line + seq!['\n'],
        display::on_lines(Seq::empty()) == Seq::<char>::empty(),
{
    reveal_strlit("\n");
    assert("\n"@ =~= seq!['\n']);
    assert(lines.push(line).drop_last() =~= lines);
    if views.len() > 0 {
        assert(views.push(v).drop_last() =~= views);
        let (head, gap, tail) = (
            display::records(views),
            seq![Seq::<char>::empty()],
            display::record(v),
        );
        lemma_on_lines(head + gap, tail);
        lemma_on_lines(head, gap);
        assert(gap.drop_last() =~= Seq::empty());
        assert(display::on_lines(Seq::empty()) == Seq::<char>::empty());
        assert(display::on_lines(gap) =~= seq!['\n']);
    }
}

proof fn lemma_on_lines(a: Seq<Text>, b: Seq<Text>)
    ensures
        display::on_lines(a + b) == display::on_lines(a) + display::on_lines(b),
    decreases b.len(),
{
    if b.len() == 0 {
        assert(a + b =~= a);
        assert(display::on_lines(a) + Seq::<char>::empty() =~= display::on_lines(a));
    } else {
        lemma_on_lines(a, b.drop_last());
        assert((a + b).drop_last() =~= a + b.drop_last());
        assert((a + b).last() == b.last());
        let (x, y) = (display::on_lines(a), display::on_lines(b.drop_last()));
        assert(x + y + b.last() + "\n"@ =~= x + (y + b.last() + "\n"@));
    }
}

} // verus!
