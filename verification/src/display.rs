//! Showing a list of worktrees: for people, and for programs.

use crate::list::{ViewModel, WorktreeView};
use crate::path;
use crate::path::{file_name, strip_prefix};
use crate::porcelain::{Status, StatusModel};
use crate::style;
use crate::style::{paint, Paint};
use crate::text;
use crate::text::{copy_texts, decimal_of, empty_list, grow, join, pad_right, Text};
use vstd::prelude::*;

verus! {

// ---------------------------------------------------------------------------
// Parts of a row
// ---------------------------------------------------------------------------

/// `p` in a short form: what follows `base`, or the own name of `base` itself; else
/// what follows the home directory, after `~/`; else the whole.
pub open spec fn shortened(p: Text, base: Text, home: Option<Text>) -> Text {
    match path::below(p, base) {
        Some(rel) => if rel.len() > 0 {
            rel
        } else {
            match path::base_name(p) {
                Some(name) => name,
                None => p,
            }
        },
        None => match home {
            Some(dir) => match path::below(p, dir) {
                Some(rel) => "~/"@ + rel,
                None => p,
            },
            None => p,
        },
    }
}

/// Shortens `p` for a row.
pub fn short_path(p: &str, base: &str, home: Option<&str>) -> (r: String)
    ensures
        r@ == shortened(p@, base@, home.deep_view()),
{
    if let Some(rel) = strip_prefix(p, base) {
        if rel.as_str().is_empty() {
            return match file_name(p) {
                Some(name) => name,
                None => p.to_owned(),
            };
        }
        return rel;
    }
    if let Some(dir) = home {
        if let Some(rel) = strip_prefix(p, dir) {
            return "~/".to_owned().concat(rel.as_str());
        }
    }
    p.to_owned()
}

/// The mark `sign` with the count `n`, unless the count is zero.
pub open spec fn counted(sign: Text, n: nat) -> Seq<Text> {
    if n > 0 {
        seq![sign + text::decimal(n)]
    } else {
        Seq::empty()
    }
}

fn push_counted(parts: &mut Vec<String>, sign: &str, n: usize)
    ensures
        final(parts).deep_view() == old(parts).deep_view() + counted(sign@, n as nat),
{
    let ghost before = parts.deep_view();
    if n > 0 {
        grow(parts, sign.to_owned().concat(decimal_of(n).as_str()));
        assert(parts.deep_view() =~= before + counted(sign@, n as nat));
    } else {
        assert(parts.deep_view() =~= before + counted(sign@, n as nat));
    }
}

/// The changes of a worktree, in short: the number of changed files; or, at length,
/// the staged, unstaged and untracked ones. Nothing for a clean worktree.
pub open spec fn dirty_text(st: StatusModel, verbose: bool) -> Text {
    if verbose {
        text::joined(
            counted("+"@, st.staged) + counted("*"@, st.unstaged) + counted("?"@, st.untracked),
            " "@,
        )
    } else if st.files > 0 {
        "!"@ + text::decimal(st.files)
    } else {
        Seq::empty()
    }
}

/// The changes of a worktree as a row shows them.
pub fn format_dirty(st: &Status, verbose: bool) -> (r: String)
    ensures
        r@ == dirty_text(st.deep_view(), verbose),
{
    if verbose {
        let mut parts: Vec<String> = empty_list();
        push_counted(&mut parts, "+", st.staged);
        push_counted(&mut parts, "*", st.unstaged);
        push_counted(&mut parts, "?", st.untracked);
        assert(parts.deep_view() =~= counted("+"@, st.staged as nat) + counted(
            "*"@,
            st.unstaged as nat,
        ) + counted("?"@, st.untracked as nat));
        join(&parts, " ")
    } else if st.files > 0 {
        "!".to_owned().concat(decimal_of(st.files).as_str())
    } else {
        String::new()
    }
}

/// The count in `n`; zero without one.
pub open spec fn amount(n: Option<nat>) -> nat {
    match n {
        Some(k) => k,
        None => 0,
    }
}

/// How far a branch and its upstream are apart; nothing if they are not.
pub open spec fn upstream_text(ahead: Option<nat>, behind: Option<nat>) -> Text {
    text::joined(counted("↑"@, amount(ahead)) + counted("↓"@, amount(behind)), " "@)
}

/// How far a branch and its upstream are apart, as a row shows it.
pub fn format_upstream(ahead: Option<usize>, behind: Option<usize>) -> (r: String)
    ensures
        r@ == upstream_text(crate::list::count(ahead), crate::list::count(behind)),
{
    let mut parts: Vec<String> = empty_list();
    if let Some(n) = ahead {
        push_counted(&mut parts, "↑", n);
    }
    if let Some(n) = behind {
        push_counted(&mut parts, "↓", n);
    }
    let ghost a = amount(crate::list::count(ahead));
    let ghost b = amount(crate::list::count(behind));
    assert(parts.deep_view() =~= counted("↑"@, a) + counted("↓"@, b));
    join(&parts, " ")
}

/// The lineage of a row: its own branch is shown as `*`, unless `verbose`.
pub open spec fn marked(lineage: Seq<Text>, verbose: bool) -> Seq<Text> {
    if verbose || lineage.len() == 0 {
        lineage
    } else {
        lineage.drop_last().push("*"@)
    }
}

/// What follows the lineage: the only child, or the number of children, or the
/// number of descendants with a `+`.
pub open spec fn offspring(v: ViewModel) -> Text {
    match v.children_overflow {
        Some(n) => " → ["@ + text::decimal(n) + "+]"@,
        None => if v.children.len() == 0 {
            Seq::empty()
        } else if v.children.len() == 1 {
            " → "@ + v.children[0]
        } else {
            " → ["@ + text::decimal(v.children.len()) + "]"@
        },
    }
}

/// True if the branch of a row is in a stack: there is a branch between the trunk
/// and it, or one stacked on it.
pub open spec fn in_stack(v: ViewModel) -> bool {
    v.lineage.len() >= 3 || v.children.len() > 0 || v.children_overflow is Some
}

/// The stack of a row, without color.
pub open spec fn stack_text(v: ViewModel, verbose: bool) -> Text {
    text::joined(marked(v.lineage, verbose), " → "@) + offspring(v)
}

fn format_stack(v: &WorktreeView, verbose: bool) -> (r: String)
    ensures
        r@ == stack_text(v.deep_view(), verbose),
{
    let mut parts = copy_texts(&v.lineage);
    let ghost lineage = v.lineage.deep_view();
    assert(lineage.len() == v.lineage.len());
    if !verbose && v.lineage.len() > 0 {
        let last: usize = parts.len() - 1;
        parts.set(last, "*".to_owned());
        assert(parts.deep_view() =~= marked(lineage, verbose));
    }
    assert(v.children.deep_view().len() == v.children.len());
    let tail = match v.children_overflow {
        Some(n) => " → [".to_owned().concat(decimal_of(n).as_str()).concat("+]"),
        None => if v.children.len() == 0 {
            String::new()
        } else if v.children.len() == 1 {
            " → ".to_owned().concat(v.children[0].as_str())
        } else {
            " → [".to_owned().concat(decimal_of(v.children.len()).as_str()).concat("]")
        },
    };
    join(&parts, " → ").concat(tail.as_str())
}

/// `s` painted, as a list: empty if `s` is.
pub open spec fn segment(color: bool, p: Paint, s: Text) -> Seq<Text> {
    if s.len() > 0 {
        seq![style::shown(color, p, s)]
    } else {
        Seq::empty()
    }
}

fn push_segment(parts: &mut Vec<String>, color: bool, p: Paint, s: &str)
    ensures
        final(parts).deep_view() == old(parts).deep_view() + segment(color, p, s@),
{
    let ghost before = parts.deep_view();
    if !s.is_empty() {
        grow(parts, paint(color, p, s));
        assert(parts.deep_view() =~= before + segment(color, p, s@));
    } else {
        assert(parts.deep_view() =~= before + segment(color, p, s@));
    }
}

/// The state of a row: changes in yellow, the distance from the upstream in cyan.
pub open spec fn state_segments(v: ViewModel, verbose: bool, color: bool) -> Seq<Text> {
    segment(color, Paint::Yellow, dirty_text(v.status, verbose)) + segment(
        color,
        Paint::Cyan,
        upstream_text(v.ahead, v.behind),
    )
}

/// `parts` joined by spaces, two spaces in front; nothing if there are none.
pub open spec fn trailing(parts: Seq<Text>) -> Text {
    if parts.len() == 0 {
        Seq::empty()
    } else {
        "  "@ + text::joined(parts, " "@)
    }
}

// ---------------------------------------------------------------------------
// Rows for people
// ---------------------------------------------------------------------------

/// The length of the longest label.
pub open spec fn label_width(views: Seq<ViewModel>) -> nat
    decreases views.len(),
{
    if views.len() == 0 {
        0
    } else {
        let rest = label_width(views.drop_last());
        let own = views.last().label.len();
        if own > rest {
            own
        } else {
            rest
        }
    }
}

/// What the rows of a list have in common.
pub struct Layout<S = String> {
    /// All, rather than the short form.
    pub verbose: bool,
    /// The terminal has color.
    pub color: bool,
    /// The directory in which the worktrees lie.
    pub base: S,
    /// The user's home directory.
    pub home: Option<S>,
}

/// The value of a layout.
pub type LayoutModel = Layout<Text>;

impl DeepView for Layout<String> {
    type V = LayoutModel;

    open spec fn deep_view(&self) -> LayoutModel {
        Layout {
            verbose: self.verbose,
            color: self.color,
            base: self.base@,
            home: self.home.deep_view(),
        }
    }
}

/// The row of `v`: the mark of the current worktree, the label, the path, the stack
/// and the state. The bare repository itself is only named.
pub open spec fn human_row(v: ViewModel, width: nat, look: LayoutModel) -> Text {
    let label = text::padded(v.label, width);
    let place = style::shown(
        look.color,
        Paint::Dim,
        shortened(v.path, look.base, look.home),
    );
    if v.bare {
        "  "@ + style::shown(look.color, Paint::Dim, label) + "  "@ + place
    } else {
        (if v.current {
            style::shown(look.color, Paint::Green, "▸"@)
        } else {
            " "@
        }) + " "@ + (if v.current {
            style::shown(look.color, Paint::BoldGreen, label)
        } else {
            label
        }) + "  "@ + place + (if in_stack(v) {
            "  "@ + style::shown(look.color, Paint::Dim, stack_text(v, look.verbose))
        } else {
            Seq::empty()
        }) + trailing(state_segments(v, look.verbose, look.color))
    }
}

/// The rows of `views`, each on a line.
pub open spec fn human_rows(views: Seq<ViewModel>, width: nat, look: LayoutModel) -> Text
    decreases views.len(),
{
    if views.len() == 0 {
        Seq::empty()
    } else {
        human_rows(views.drop_last(), width, look) + human_row(views.last(), width, look) + "\n"@
    }
}

/// The list of `views` for people.
pub open spec fn human(views: Seq<ViewModel>, look: LayoutModel) -> Text {
    human_rows(views, label_width(views), look)
}

fn widest_label(views: &Vec<WorktreeView>) -> (r: usize)
    ensures
        r as nat == label_width(views.deep_view()),
{
    let ghost all = views.deep_view();
    let mut width: usize = 0;
    let mut i: usize = 0;
    assert(all.take(0).len() == 0);
    while i < views.len()
        invariant
            i <= views.len(),
            all == views.deep_view(),
            width as nat == label_width(all.take(i as int)),
        decreases views.len() - i,
    {
        let own: usize = views[i].label.as_str().unicode_len();
        assert(all.take(i + 1).drop_last() =~= all.take(i as int));
        assert(all.take(i + 1).last() == views@[i as int].deep_view());
        if own > width {
            width = own;
        }
        i += 1;
    }
    assert(all.take(i as int) =~= all);
    width
}

fn format_row(v: &WorktreeView, width: usize, look: &Layout) -> (r: String)
    ensures
        r@ == human_row(v.deep_view(), width as nat, look.deep_view()),
{
    let label = pad_right(v.label.as_str(), width);
    let home: Option<&str> = match &look.home {
        Some(dir) => Some(dir.as_str()),
        None => None,
    };
    let place = paint(
        look.color,
        Paint::Dim,
        short_path(v.path.as_str(), look.base.as_str(), home).as_str(),
    );
    if v.bare {
        return "  ".to_owned().concat(paint(look.color, Paint::Dim, label.as_str()).as_str()).concat(
            "  ",
        ).concat(place.as_str());
    }
    let marker = if v.current {
        paint(look.color, Paint::Green, "▸")
    } else {
        " ".to_owned()
    };
    let label = if v.current {
        paint(look.color, Paint::BoldGreen, label.as_str())
    } else {
        label
    };
    assert(v.lineage.deep_view().len() == v.lineage.len());
    assert(v.children.deep_view().len() == v.children.len());
    let stack = if v.lineage.len() >= 3 || v.children.len() > 0 || v.children_overflow.is_some() {
        let s = format_stack(v, look.verbose);
        "  ".to_owned().concat(paint(look.color, Paint::Dim, s.as_str()).as_str())
    } else {
        String::new()
    };
    let mut parts: Vec<String> = empty_list();
    let dirty = format_dirty(&v.status, look.verbose);
    push_segment(&mut parts, look.color, Paint::Yellow, dirty.as_str());
    let upstream = format_upstream(v.ahead, v.behind);
    push_segment(&mut parts, look.color, Paint::Cyan, upstream.as_str());
    assert(parts.deep_view() =~= state_segments(v.deep_view(), look.verbose, look.color));
    assert(parts.deep_view().len() == parts.len());
    let state = if parts.len() == 0 {
        String::new()
    } else {
        "  ".to_owned().concat(join(&parts, " ").as_str())
    };
    marker.concat(" ").concat(label.as_str()).concat("  ").concat(place.as_str()).concat(
        stack.as_str(),
    ).concat(state.as_str())
}

/// The list of `views` for people, a row on a line.
pub fn render_human(views: &Vec<WorktreeView>, look: &Layout) -> (r: String)
    ensures
        r@ == human(views.deep_view(), look.deep_view()),
{
    let ghost all = views.deep_view();
    let width = widest_label(views);
    let mut out = String::new();
    let mut i: usize = 0;
    assert(all.take(0).len() == 0);
    while i < views.len()
        invariant
            i <= views.len(),
            all == views.deep_view(),
            out@ == human_rows(all.take(i as int), width as nat, look.deep_view()),
        decreases views.len() - i,
    {
        let row = format_row(&views[i], width, look);
        assert(all.take(i + 1).drop_last() =~= all.take(i as int));
        assert(all.take(i + 1).last() == views@[i as int].deep_view());
        out = out.concat(row.as_str()).concat("\n");
        i += 1;
    }
    assert(all.take(i as int) =~= all);
    out
}

// ---------------------------------------------------------------------------
// Records for programs
// ---------------------------------------------------------------------------

/// The line `key` if `flag` is set.
pub open spec fn flag_line(key: Text, flag: bool) -> Seq<Text> {
    if flag {
        seq![key]
    } else {
        Seq::empty()
    }
}

/// A line of `key` and the names, unless there are none.
pub open spec fn names_line(key: Text, names: Seq<Text>) -> Seq<Text> {
    if names.len() == 0 {
        Seq::empty()
    } else {
        seq![key + text::joined(names, " "@)]
    }
}

/// A line of `key` and the value, if there is one.
pub open spec fn value_line(key: Text, value: Option<Text>) -> Seq<Text> {
    match value {
        Some(s) => seq![key + s],
        None => Seq::empty(),
    }
}

/// The digits of a count.
pub open spec fn digits(n: Option<nat>) -> Option<Text> {
    match n {
        Some(k) => Some(text::decimal(k)),
        None => None,
    }
}

/// The line with all counts of `st`.
pub open spec fn status_line(st: StatusModel) -> Text {
    "status files="@ + text::decimal(st.files) + " staged="@ + text::decimal(st.staged)
        + " unstaged="@ + text::decimal(st.unstaged) + " untracked="@ + text::decimal(st.untracked)
}

/// The lines that say which worktree a record is about.
pub open spec fn identity_lines(v: ViewModel) -> Seq<Text> {
    seq!["worktree "@ + v.path] + value_line("branch "@, v.branch) + flag_line("bare"@, v.bare)
        + flag_line("detached"@, v.detached) + flag_line("current"@, v.current)
}

/// The lines that place the branch in its stack.
pub open spec fn stack_lines(v: ViewModel) -> Seq<Text> {
    names_line("lineage "@, v.lineage) + names_line("children "@, v.children) + value_line(
        "children-overflow "@,
        digits(v.children_overflow),
    )
}

/// The lines on the state of the worktree.
pub open spec fn state_lines(v: ViewModel) -> Seq<Text> {
    seq![status_line(v.status)] + value_line("ahead "@, digits(v.ahead)) + value_line(
        "behind "@,
        digits(v.behind),
    )
}

/// The lines of the record of `v`.
pub open spec fn record(v: ViewModel) -> Seq<Text> {
    identity_lines(v) + stack_lines(v) + state_lines(v)
}

/// The records of `views`, with an empty line between each two.
pub open spec fn records(views: Seq<ViewModel>) -> Seq<Text>
    decreases views.len(),
{
    if views.len() == 0 {
        Seq::empty()
    } else if views.len() == 1 {
        record(views[0])
    } else {
        records(views.drop_last()) + seq![Seq::empty()] + record(views.last())
    }
}

/// `list`, each on a line.
pub open spec fn on_lines(list: Seq<Text>) -> Text
    decreases list.len(),
{
    if list.len() == 0 {
        Seq::empty()
    } else {
        on_lines(list.drop_last()) + list.last() + "\n"@
    }
}

/// The list of `views` for programs.
pub open spec fn machine(views: Seq<ViewModel>) -> Text {
    on_lines(records(views))
}

fn push_flag(out: &mut Vec<String>, key: &str, flag: bool)
    ensures
        final(out).deep_view() == old(out).deep_view() + flag_line(key@, flag),
{
    let ghost before = out.deep_view();
    if flag {
        grow(out, key.to_owned());
    }
    assert(out.deep_view() =~= before + flag_line(key@, flag));
}

fn push_names(out: &mut Vec<String>, key: &str, names: &Vec<String>)
    ensures
        final(out).deep_view() == old(out).deep_view() + names_line(key@, names.deep_view()),
{
    let ghost before = out.deep_view();
    assert(names.deep_view().len() == names.len());
    if names.len() > 0 {
        grow(out, key.to_owned().concat(join(names, " ").as_str()));
    }
    assert(out.deep_view() =~= before + names_line(key@, names.deep_view()));
}

fn push_count(out: &mut Vec<String>, key: &str, n: Option<usize>)
    ensures
        final(out).deep_view() == old(out).deep_view() + value_line(
            key@,
            digits(crate::list::count(n)),
        ),
{
    let ghost before = out.deep_view();
    if let Some(k) = n {
        grow(out, key.to_owned().concat(decimal_of(k).as_str()));
    }
    assert(out.deep_view() =~= before + value_line(key@, digits(crate::list::count(n))));
}

fn push_identity(out: &mut Vec<String>, v: &WorktreeView)
    ensures
        final(out).deep_view() == old(out).deep_view() + identity_lines(v.deep_view()),
{
    let ghost before = out.deep_view();
    grow(out, "worktree ".to_owned().concat(v.path.as_str()));
    if let Some(branch) = &v.branch {
        grow(out, "branch ".to_owned().concat(branch.as_str()));
    }
    push_flag(out, "bare", v.bare);
    push_flag(out, "detached", v.detached);
    push_flag(out, "current", v.current);
    assert(out.deep_view() =~= before + identity_lines(v.deep_view()));
}

fn push_stack(out: &mut Vec<String>, v: &WorktreeView)
    ensures
        final(out).deep_view() == old(out).deep_view() + stack_lines(v.deep_view()),
{
    let ghost before = out.deep_view();
    push_names(out, "lineage ", &v.lineage);
    push_names(out, "children ", &v.children);
    push_count(out, "children-overflow ", v.children_overflow);
    assert(out.deep_view() =~= before + stack_lines(v.deep_view()));
}

fn push_state(out: &mut Vec<String>, v: &WorktreeView)
    ensures
        final(out).deep_view() == old(out).deep_view() + state_lines(v.deep_view()),
{
    let ghost before = out.deep_view();
    grow(
        out,
        "status files=".to_owned().concat(decimal_of(v.status.files).as_str()).concat(
            " staged=",
        ).concat(decimal_of(v.status.staged).as_str()).concat(" unstaged=").concat(
            decimal_of(v.status.unstaged).as_str(),
        ).concat(" untracked=").concat(decimal_of(v.status.untracked).as_str()),
    );
    push_count(out, "ahead ", v.ahead);
    push_count(out, "behind ", v.behind);
    assert(out.deep_view() =~= before + state_lines(v.deep_view()));
}

fn push_record(out: &mut Vec<String>, v: &WorktreeView)
    ensures
        final(out).deep_view() == old(out).deep_view() + record(v.deep_view()),
{
    let ghost before = out.deep_view();
    push_identity(out, v);
    push_stack(out, v);
    push_state(out, v);
    assert(out.deep_view() =~= before + record(v.deep_view()));
}

fn write_lines(list: &Vec<String>) -> (r: String)
    ensures
        r@ == on_lines(list.deep_view()),
{
    let ghost all = list.deep_view();
    let mut out = String::new();
    let mut i: usize = 0;
    assert(all.take(0).len() == 0);
    while i < list.len()
        invariant
            i <= list.len(),
            all == list.deep_view(),
            out@ == on_lines(all.take(i as int)),
        decreases list.len() - i,
    {
        assert(all.take(i + 1).drop_last() =~= all.take(i as int));
        assert(all.take(i + 1).last() == list@[i as int]@);
        out = out.concat(list[i].as_str()).concat("\n");
        i += 1;
    }
    assert(all.take(i as int) =~= all);
    out
}

/// The list of `views` for programs: a record for each, of lines with a key and a
/// value.
pub fn render_porcelain(views: &Vec<WorktreeView>) -> (r: String)
    ensures
        r@ == machine(views.deep_view()),
{
    let ghost all = views.deep_view();
    let mut out: Vec<String> = empty_list();
    let mut i: usize = 0;
    assert(all.take(0).len() == 0);
    while i < views.len()
        invariant
            i <= views.len(),
            all == views.deep_view(),
            out.deep_view() == records(all.take(i as int)),
        decreases views.len() - i,
    {
        let ghost now = all.take(i as int);
        let ghost next = all.take(i + 1);
        assert(next.drop_last() =~= now);
        assert(next.last() == views@[i as int].deep_view());
        if i > 0 {
            grow(&mut out, String::new());
        }
        push_record(&mut out, &views[i]);
        assert(out.deep_view() =~= records(next));
        i += 1;
    }
    assert(all.take(i as int) =~= all);
    write_lines(&out)
}

} // verus!
