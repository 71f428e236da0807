//! That the list for programs leaves nothing out: it can be read back.

use crate::display;
use crate::list::{ViewModel, WorktreeView};
use crate::porcelain::StatusModel;
use crate::text;
use crate::text::Text;
use vstd::prelude::*;

verus! {

// ---------------------------------------------------------------------------
// Numbers
// ---------------------------------------------------------------------------

proof fn lemma_decimal(n: nat)
    ensures
        text::decimal(n).len() > 0,
        text::all_digits(text::decimal(n)),
        text::digits_value(text::decimal(n)) == n,
    decreases n,
{
    reveal_with_fuel(text::digits_value, 2);
    let s = text::decimal(n);
    if n < 10 {
        assert(s.drop_last() =~= Seq::<char>::empty());
        assert(text::is_digit(s[0]));
    } else {
        lemma_decimal(n / 10);
        assert(s.drop_last() =~= text::decimal(n / 10));
        assert forall|i: int| 0 <= i < s.len() implies text::is_digit(#[trigger] s[i]) by {
            if i < s.len() - 1 {
                assert(s[i] == text::decimal(n / 10)[i]);
            }
        }
    }
}

/// A number that is written out is read back as the same number.
pub proof fn law_numbers_read_back(n: nat)
    requires
        n <= usize::MAX,
    ensures
        text::number(text::decimal(n)) == Some(n),
{
    lemma_decimal(n);
    assert(text::is_digit(text::decimal(n)[0]));
}

proof fn lemma_decimal_injective(m: nat, n: nat)
    requires
        text::decimal(m) == text::decimal(n),
    ensures
        m == n,
{
    lemma_decimal(m);
    lemma_decimal(n);
}

proof fn lemma_decimal_has_no_space(n: nat)
    ensures
        !text::decimal(n).contains(' '),
{
    lemma_decimal(n);
    let s = text::decimal(n);
    if s.contains(' ') {
        let k = choose|k: int| 0 <= k < s.len() && s[k] == ' ';
        assert(text::is_digit(s[k]));
    }
}

// ---------------------------------------------------------------------------
// Fields
// ---------------------------------------------------------------------------

/// What follows the last separator is determined by the whole.
proof fn lemma_last_field<T>(a: Seq<T>, x: Seq<T>, b: Seq<T>, y: Seq<T>, sep: T)
    requires
        a + x == b + y,
        !x.contains(sep),
        !y.contains(sep),
        a.len() > 0 ==> a.last() == sep,
        b.len() > 0 ==> b.last() == sep,
    ensures
        a == b,
        x == y,
{
    let (s, t) = (a + x, b + y);
    if a.len() < b.len() {
        let k = b.len() - 1;
        assert(t[k] == sep);
        assert(s[k] == x[k - a.len()]);
    }
    if b.len() < a.len() {
        let k = a.len() - 1;
        assert(s[k] == sep);
        assert(t[k] == y[k - b.len()]);
    }
    assert(a =~= s.take(a.len() as int));
    assert(b =~= t.take(b.len() as int));
    assert(x =~= s.skip(a.len() as int));
    assert(y =~= t.skip(b.len() as int));
}

/// What stands before and after the first `mark` is determined by the whole.
proof fn lemma_split(x: Text, a: Text, y: Text, b: Text, mark: Text)
    requires
        x + mark + a == y + mark + b,
        mark.len() > 0,
        !x.contains(mark[0]),
        !y.contains(mark[0]),
    ensures
        x == y,
        a == b,
{
    let (s, t) = (x + mark + a, y + mark + b);
    if x.len() < y.len() {
        assert(s[x.len() as int] == mark[0]);
        assert(t[x.len() as int] == y[x.len() as int]);
    }
    if y.len() < x.len() {
        assert(t[y.len() as int] == mark[0]);
        assert(s[y.len() as int] == x[y.len() as int]);
    }
    assert(x =~= s.take(x.len() as int));
    assert(y =~= t.take(y.len() as int));
    assert(a =~= s.skip((x.len() + mark.len()) as int));
    assert(b =~= t.skip((y.len() + mark.len()) as int));
}

/// What follows a key is determined by the whole.
proof fn lemma_after_key(key: Text, x: Text, y: Text)
    requires
        key + x == key + y,
    ensures
        x == y,
{
    assert(x =~= (key + x).skip(key.len() as int));
    assert(y =~= (key + y).skip(key.len() as int));
}

/// True if none of `list` holds `c`.
pub open spec fn free_of(list: Seq<Text>, c: char) -> bool {
    forall|i: int| 0 <= i < list.len() ==> !(#[trigger] list[i]).contains(c)
}

/// What a list reads as before its last element, with the separator.
spec fn all_but_last(list: Seq<Text>) -> Text {
    if list.len() <= 1 {
        Seq::empty()
    } else {
        text::joined(list.drop_last(), " "@) + " "@
    }
}

/// Names without spaces can be told apart again when they are joined by spaces.
proof fn lemma_joined_injective(a: Seq<Text>, b: Seq<Text>)
    requires
        a.len() > 0,
        b.len() > 0,
        free_of(a, ' '),
        free_of(b, ' '),
        text::joined(a, " "@) == text::joined(b, " "@),
    ensures
        a == b,
    decreases a.len(),
{
    reveal_strlit(" ");
    let (x, y) = (a.last(), b.last());
    let (p, q) = (all_but_last(a), all_but_last(b));
    assert(a[a.len() - 1] == x && b[b.len() - 1] == y);
    assert(text::joined(a, " "@) =~= p + x);
    assert(text::joined(b, " "@) =~= q + y);
    lemma_last_field(p, x, q, y, ' ');
    if a.len() > 1 {
        assert(p.len() > 0);
        assert(b.len() > 1);
        let (c, d) = (a.drop_last(), b.drop_last());
        assert(text::joined(c, " "@) =~= p.drop_last());
        assert(text::joined(d, " "@) =~= q.drop_last());
        assert(forall|i: int| 0 <= i < c.len() ==> c[i] == a[i]);
        assert(forall|i: int| 0 <= i < d.len() ==> d[i] == b[i]);
        lemma_joined_injective(c, d);
        assert(a =~= c.push(x));
        assert(b =~= d.push(y));
    } else {
        assert(b.len() == 1) by {
            if b.len() > 1 {
                assert(q.len() > 0);
            }
        }
        assert(a =~= seq![x]);
        assert(b =~= seq![y]);
    }
}

/// Lines without line breaks can be told apart again when they are written out.
proof fn lemma_lines_injective(a: Seq<Text>, b: Seq<Text>)
    requires
        free_of(a, '\n'),
        free_of(b, '\n'),
        display::on_lines(a) == display::on_lines(b),
    ensures
        a == b,
    decreases a.len(),
{
    reveal_strlit("\n");
    if a.len() == 0 || b.len() == 0 {
        assert(a =~= b) by {
            if a.len() > 0 {
                assert(display::on_lines(a).len() > 0);
            }
            if b.len() > 0 {
                assert(display::on_lines(b).len() > 0);
            }
        }
    } else {
        let (c, d) = (a.drop_last(), b.drop_last());
        let (x, y) = (a.last(), b.last());
        let (p, q) = (display::on_lines(c), display::on_lines(d));
        assert(a[a.len() - 1] == x && b[b.len() - 1] == y);
        assert(forall|i: int| 0 <= i < c.len() ==> c[i] == a[i]);
        assert(forall|i: int| 0 <= i < d.len() ==> d[i] == b[i]);
        assert(display::on_lines(a).drop_last() =~= p + x);
        assert(display::on_lines(b).drop_last() =~= q + y);
        lemma_last_field(p, x, q, y, '\n');
        lemma_lines_injective(c, d);
        assert(a =~= c.push(x));
        assert(b =~= d.push(y));
    }
}

// ---------------------------------------------------------------------------
// Lines of a record
// ---------------------------------------------------------------------------

/// What a line of a record is about.
enum Key {
    Worktree,
    Branch,
    Bare,
    Detached,
    Current,
    Lineage,
    Children,
    Overflow,
    Status,
    Ahead,
    Behind,
    Other,
}

/// What the line `l` of a record is about.
spec fn kind(l: Text) -> Key {
    if l.len() < 2 {
        Key::Other
    } else if l[0] == 'w' {
        Key::Worktree
    } else if l[0] == 'b' && l[1] == 'r' {
        Key::Branch
    } else if l[0] == 'b' && l[1] == 'a' {
        Key::Bare
    } else if l[0] == 'd' {
        Key::Detached
    } else if l[0] == 'c' && l[1] == 'u' {
        Key::Current
    } else if l[0] == 'l' {
        Key::Lineage
    } else if l[0] == 'c' && (l.len() <= 8 || l[8] != '-') {
        Key::Children
    } else if l[0] == 'c' {
        Key::Overflow
    } else if l[0] == 's' {
        Key::Status
    } else if l[0] == 'a' {
        Key::Ahead
    } else {
        Key::Behind
    }
}

/// The first line of the given kind.
spec fn pick(list: Seq<Text>, k: Key) -> Option<Text>
    decreases list.len(),
{
    if list.len() == 0 {
        None
    } else if kind(list[0]) == k {
        Some(list[0])
    } else {
        pick(list.drop_first(), k)
    }
}

/// `first` if there is one, else `second`.
spec fn either(first: Option<Text>, second: Option<Text>) -> Option<Text> {
    if first is Some {
        first
    } else {
        second
    }
}

proof fn lemma_pick_sum(a: Seq<Text>, b: Seq<Text>, k: Key)
    ensures
        pick(a + b, k) == either(pick(a, k), pick(b, k)),
    decreases a.len(),
{
    if a.len() == 0 {
        assert(a + b =~= b);
    } else {
        lemma_pick_sum(a.drop_first(), b, k);
        assert((a + b).drop_first() =~= a.drop_first() + b);
    }
}

proof fn lemma_pick_one(l: Text, k: Key)
    ensures
        pick(seq![l], k) == (if kind(l) == k {
            Some(l)
        } else {
            None
        }),
{
    reveal_with_fuel(pick, 2);
    assert(seq![l].drop_first() =~= Seq::<Text>::empty());
}

proof fn lemma_kinds(s: Text)
    ensures
        kind("worktree "@ + s) == Key::Worktree,
        kind("branch "@ + s) == Key::Branch,
        kind("bare"@) == Key::Bare,
        kind("detached"@) == Key::Detached,
        kind("current"@) == Key::Current,
        kind("lineage "@ + s) == Key::Lineage,
        kind("children "@ + s) == Key::Children,
        kind("children-overflow "@ + s) == Key::Overflow,
        kind("ahead "@ + s) == Key::Ahead,
        kind("behind "@ + s) == Key::Behind,
{
    reveal_strlit("worktree ");
    reveal_strlit("branch ");
    reveal_strlit("bare");
    reveal_strlit("detached");
    reveal_strlit("current");
    reveal_strlit("lineage ");
    reveal_strlit("children ");
    reveal_strlit("children-overflow ");
    reveal_strlit("ahead ");
    reveal_strlit("behind ");
}

proof fn lemma_status_kind(st: StatusModel)
    ensures
        kind(display::status_line(st)) == Key::Status,
{
    reveal_strlit("status files=");
    let l = display::status_line(st);
    assert(l[0] == 's');
}

/// The line `key` with the value, if there is one.
spec fn keyed(key: Text, value: Option<Text>) -> Option<Text> {
    match value {
        Some(s) => Some(key + s),
        None => None,
    }
}

/// The names, joined, if there are any.
spec fn names_value(names: Seq<Text>) -> Option<Text> {
    if names.len() == 0 {
        None
    } else {
        Some(text::joined(names, " "@))
    }
}

/// The line `key` if the flag is set.
spec fn flagged(key: Text, flag: bool) -> Option<Text> {
    if flag {
        Some(key)
    } else {
        None
    }
}

/// A line by itself, of the kind `own`.
spec fn alone(line: Option<Text>, own: Key, k: Key) -> Option<Text> {
    if own == k {
        line
    } else {
        None
    }
}

proof fn lemma_pick_value(key: Text, value: Option<Text>, own: Key, k: Key)
    requires
        forall|s: Text| #[trigger] kind(key + s) == own,
    ensures
        pick(display::value_line(key, value), k) == alone(keyed(key, value), own, k),
{
    if let Some(s) = value {
        lemma_pick_one(key + s, k);
    }
}

proof fn lemma_pick_flag(key: Text, flag: bool, own: Key, k: Key)
    requires
        kind(key) == own,
    ensures
        pick(display::flag_line(key, flag), k) == alone(flagged(key, flag), own, k),
{
    if flag {
        lemma_pick_one(key, k);
    }
}

proof fn lemma_pick_identity(v: ViewModel, k: Key)
    ensures
        pick(display::identity_lines(v), k) == match k {
            Key::Worktree => Some("worktree "@ + v.path),
            Key::Branch => keyed("branch "@, v.branch),
            Key::Bare => flagged("bare"@, v.bare),
            Key::Detached => flagged("detached"@, v.detached),
            Key::Current => flagged("current"@, v.current),
            _ => None,
        },
{
    let a = seq!["worktree "@ + v.path];
    let b = display::value_line("branch "@, v.branch);
    let c = display::flag_line("bare"@, v.bare);
    let d = display::flag_line("detached"@, v.detached);
    let e = display::flag_line("current"@, v.current);
    lemma_kinds(v.path);
    lemma_pick_one("worktree "@ + v.path, k);
    assert forall|s: Text| #[trigger] kind("branch "@ + s) == Key::Branch by {
        lemma_kinds(s);
    }
    lemma_pick_value("branch "@, v.branch, Key::Branch, k);
    lemma_pick_flag("bare"@, v.bare, Key::Bare, k);
    lemma_pick_flag("detached"@, v.detached, Key::Detached, k);
    lemma_pick_flag("current"@, v.current, Key::Current, k);
    lemma_pick_sum(a + b + c + d, e, k);
    lemma_pick_sum(a + b + c, d, k);
    lemma_pick_sum(a + b, c, k);
    lemma_pick_sum(a, b, k);
}

proof fn lemma_pick_stack(v: ViewModel, k: Key)
    ensures
        pick(display::stack_lines(v), k) == match k {
            Key::Lineage => keyed("lineage "@, names_value(v.lineage)),
            Key::Children => keyed("children "@, names_value(v.children)),
            Key::Overflow => keyed("children-overflow "@, display::digits(v.children_overflow)),
            _ => None,
        },
{
    let a = display::names_line("lineage "@, v.lineage);
    let b = display::names_line("children "@, v.children);
    let c = display::value_line("children-overflow "@, display::digits(v.children_overflow));
    assert forall|s: Text|
        #![auto]
        kind("lineage "@ + s) == Key::Lineage && kind("children "@ + s) == Key::Children && kind(
            "children-overflow "@ + s,
        ) == Key::Overflow by {
        lemma_kinds(s);
    }
    assert(a == display::value_line("lineage "@, names_value(v.lineage)));
    assert(b == display::value_line("children "@, names_value(v.children)));
    lemma_pick_value("lineage "@, names_value(v.lineage), Key::Lineage, k);
    lemma_pick_value("children "@, names_value(v.children), Key::Children, k);
    lemma_pick_value("children-overflow "@, display::digits(v.children_overflow), Key::Overflow, k);
    lemma_pick_sum(a + b, c, k);
    lemma_pick_sum(a, b, k);
}

proof fn lemma_pick_state(v: ViewModel, k: Key)
    ensures
        pick(display::state_lines(v), k) == match k {
            Key::Status => Some(display::status_line(v.status)),
            Key::Ahead => keyed("ahead "@, display::digits(v.ahead)),
            Key::Behind => keyed("behind "@, display::digits(v.behind)),
            _ => None,
        },
{
    let a = seq![display::status_line(v.status)];
    let b = display::value_line("ahead "@, display::digits(v.ahead));
    let c = display::value_line("behind "@, display::digits(v.behind));
    assert forall|s: Text|
        #![auto]
        kind("ahead "@ + s) == Key::Ahead && kind("behind "@ + s) == Key::Behind by {
        lemma_kinds(s);
    }
    lemma_status_kind(v.status);
    lemma_pick_one(display::status_line(v.status), k);
    lemma_pick_value("ahead "@, display::digits(v.ahead), Key::Ahead, k);
    lemma_pick_value("behind "@, display::digits(v.behind), Key::Behind, k);
    lemma_pick_sum(a + b, c, k);
    lemma_pick_sum(a, b, k);
}

/// The line of a record for each key.
proof fn lemma_pick_record(v: ViewModel, k: Key)
    ensures
        pick(display::record(v), k) == match k {
            Key::Worktree => Some("worktree "@ + v.path),
            Key::Branch => keyed("branch "@, v.branch),
            Key::Bare => flagged("bare"@, v.bare),
            Key::Detached => flagged("detached"@, v.detached),
            Key::Current => flagged("current"@, v.current),
            Key::Lineage => keyed("lineage "@, names_value(v.lineage)),
            Key::Children => keyed("children "@, names_value(v.children)),
            Key::Overflow => keyed("children-overflow "@, display::digits(v.children_overflow)),
            Key::Status => Some(display::status_line(v.status)),
            Key::Ahead => keyed("ahead "@, display::digits(v.ahead)),
            Key::Behind => keyed("behind "@, display::digits(v.behind)),
            _ => None,
        },
{
    let (a, b, c) = (
        display::identity_lines(v),
        display::stack_lines(v),
        display::state_lines(v),
    );
    lemma_pick_identity(v, k);
    lemma_pick_stack(v, k);
    lemma_pick_state(v, k);
    lemma_pick_sum(a + b, c, k);
    lemma_pick_sum(a, b, k);
}

// ---------------------------------------------------------------------------
// Records
// ---------------------------------------------------------------------------

proof fn lemma_keyed_injective(key: Text, a: Option<Text>, b: Option<Text>)
    requires
        keyed(key, a) == keyed(key, b),
    ensures
        a == b,
{
    if let (Some(x), Some(y)) = (a, b) {
        lemma_after_key(key, x, y);
    }
}

proof fn lemma_digits_injective(a: Option<nat>, b: Option<nat>)
    requires
        display::digits(a) == display::digits(b),
    ensures
        a == b,
{
    if let (Some(x), Some(y)) = (a, b) {
        lemma_decimal_injective(x, y);
    }
}

proof fn lemma_names_injective(a: Seq<Text>, b: Seq<Text>)
    requires
        names_value(a) == names_value(b),
        free_of(a, ' '),
        free_of(b, ' '),
    ensures
        a == b,
{
    if a.len() > 0 {
        lemma_joined_injective(a, b);
    } else {
        assert(a =~= b);
    }
}

/// The counts of a status line, grouped from the end.
proof fn lemma_regroup(key: Text, a: Text, m: Text, b: Text, n: Text, c: Text, o: Text, d: Text)
    ensures
        key + a + m + b + n + c + o + d == key + (a + m + (b + n + (c + o + d))),
{
    let x = c + o + d;
    let y = b + n + x;
    assert(key + a + m + b + n + c + o + d =~= key + a + m + b + n + x);
    assert(key + a + m + b + n + x =~= key + a + m + y);
    assert(key + a + m + y =~= key + (a + m + y));
}

proof fn lemma_counts_injective(m: nat, a: Text, n: nat, b: Text, mark: Text)
    requires
        text::decimal(m) + mark + a == text::decimal(n) + mark + b,
        mark.len() > 0,
        mark[0] == ' ',
    ensures
        m == n,
        a == b,
{
    lemma_decimal_has_no_space(m);
    lemma_decimal_has_no_space(n);
    lemma_split(text::decimal(m), a, text::decimal(n), b, mark);
    lemma_decimal_injective(m, n);
}

proof fn lemma_status_injective(a: StatusModel, b: StatusModel)
    requires
        display::status_line(a) == display::status_line(b),
    ensures
        a == b,
{
    let key = "status files="@;
    let (m1, m2, m3) = (" staged="@, " unstaged="@, " untracked="@);
    let (a1, a2, a3, a4) = (
        text::decimal(a.files),
        text::decimal(a.staged),
        text::decimal(a.unstaged),
        text::decimal(a.untracked),
    );
    let (b1, b2, b3, b4) = (
        text::decimal(b.files),
        text::decimal(b.staged),
        text::decimal(b.unstaged),
        text::decimal(b.untracked),
    );
    assert(m1.len() > 0 && m1[0] == ' ') by {
        reveal_strlit(" staged=");
    }
    assert(m2.len() > 0 && m2[0] == ' ') by {
        reveal_strlit(" unstaged=");
    }
    assert(m3.len() > 0 && m3[0] == ' ') by {
        reveal_strlit(" untracked=");
    }
    lemma_regroup(key, a1, m1, a2, m2, a3, m3, a4);
    lemma_regroup(key, b1, m1, b2, m2, b3, m3, b4);
    let (x3, y3) = (a3 + m3 + a4, b3 + m3 + b4);
    let (x2, y2) = (a2 + m2 + x3, b2 + m2 + y3);
    lemma_after_key(key, a1 + m1 + x2, b1 + m1 + y2);
    lemma_counts_injective(a.files, x2, b.files, y2, m1);
    lemma_counts_injective(a.staged, x3, b.staged, y3, m2);
    lemma_counts_injective(a.unstaged, a4, b.unstaged, b4, m3);
    lemma_decimal_injective(a.untracked, b.untracked);
}

/// True if the texts of a row can stand in a record: no line break in any, and no
/// space in the name of a branch, as git has it.
pub open spec fn fits(v: ViewModel) -> bool {
    &&& !v.path.contains('\n')
    &&& v.branch matches Some(b) ==> !b.contains('\n')
    &&& free_of(v.lineage, '\n') && free_of(v.lineage, ' ')
    &&& free_of(v.children, '\n') && free_of(v.children, ' ')
}

/// `v` without its label, which only the list for people shows.
pub open spec fn unlabelled(v: ViewModel) -> ViewModel {
    WorktreeView { label: Seq::empty(), ..v }
}

proof fn lemma_record_injective(v: ViewModel, w: ViewModel)
    requires
        fits(v),
        fits(w),
        display::record(v) == display::record(w),
    ensures
        unlabelled(v) == unlabelled(w),
{
    lemma_pick_record(v, Key::Worktree);
    lemma_pick_record(w, Key::Worktree);
    lemma_after_key("worktree "@, v.path, w.path);
    lemma_pick_record(v, Key::Branch);
    lemma_pick_record(w, Key::Branch);
    lemma_keyed_injective("branch "@, v.branch, w.branch);
    lemma_pick_record(v, Key::Bare);
    lemma_pick_record(w, Key::Bare);
    lemma_pick_record(v, Key::Detached);
    lemma_pick_record(w, Key::Detached);
    lemma_pick_record(v, Key::Current);
    lemma_pick_record(w, Key::Current);
    lemma_pick_record(v, Key::Lineage);
    lemma_pick_record(w, Key::Lineage);
    lemma_keyed_injective("lineage "@, names_value(v.lineage), names_value(w.lineage));
    lemma_names_injective(v.lineage, w.lineage);
    lemma_pick_record(v, Key::Children);
    lemma_pick_record(w, Key::Children);
    lemma_keyed_injective("children "@, names_value(v.children), names_value(w.children));
    lemma_names_injective(v.children, w.children);
    lemma_pick_record(v, Key::Overflow);
    lemma_pick_record(w, Key::Overflow);
    lemma_keyed_injective(
        "children-overflow "@,
        display::digits(v.children_overflow),
        display::digits(w.children_overflow),
    );
    lemma_digits_injective(v.children_overflow, w.children_overflow);
    lemma_pick_record(v, Key::Status);
    lemma_pick_record(w, Key::Status);
    lemma_status_injective(v.status, w.status);
    lemma_pick_record(v, Key::Ahead);
    lemma_pick_record(w, Key::Ahead);
    lemma_keyed_injective("ahead "@, display::digits(v.ahead), display::digits(w.ahead));
    lemma_digits_injective(v.ahead, w.ahead);
    lemma_pick_record(v, Key::Behind);
    lemma_pick_record(w, Key::Behind);
    lemma_keyed_injective("behind "@, display::digits(v.behind), display::digits(w.behind));
    lemma_digits_injective(v.behind, w.behind);
}

/// The lines of a record hold neither line breaks nor empty lines.
proof fn lemma_record_lines(v: ViewModel)
    requires
        fits(v),
    ensures
        display::record(v).len() > 0,
        free_of(display::record(v), '\n'),
        !display::record(v).contains(Seq::<char>::empty()),
{
    let r = display::record(v);
    lemma_identity_lines(v);
    lemma_stack_lines(v);
    lemma_state_lines(v);
    let (a, b, c) = (
        display::identity_lines(v),
        display::stack_lines(v),
        display::state_lines(v),
    );
    assert forall|i: int| 0 <= i < r.len() implies sound(#[trigger] r[i]) by {
        if i < a.len() {
            assert(r[i] == a[i]);
        } else if i < a.len() + b.len() {
            assert(r[i] == b[i - a.len()]);
        } else {
            assert(r[i] == c[i - a.len() - b.len()]);
        }
    }
    if r.contains(Seq::<char>::empty()) {
        let k = choose|k: int| 0 <= k < r.len() && r[k] == Seq::<char>::empty();
        assert(sound(r[k]));
    }
    assert forall|i: int| 0 <= i < r.len() implies !(#[trigger] r[i]).contains('\n') by {
        assert(sound(r[i]));
    }
}

/// True if `l` is a line by itself that is not empty.
spec fn sound(l: Text) -> bool {
    l.len() > 0 && !l.contains('\n')
}

/// True if all of `list` are.
spec fn all_sound(list: Seq<Text>) -> bool {
    forall|i: int| 0 <= i < list.len() ==> sound(#[trigger] list[i])
}

proof fn lemma_sum_free(a: Text, b: Text, c: char)
    ensures
        (a + b).contains(c) <==> a.contains(c) || b.contains(c),
{
    let s = a + b;
    if s.contains(c) {
        let k = choose|k: int| 0 <= k < s.len() && s[k] == c;
        if k < a.len() {
            assert(a[k] == c);
        } else {
            assert(b[k - a.len()] == c);
        }
    }
    if a.contains(c) {
        let k = choose|k: int| 0 <= k < a.len() && a[k] == c;
        assert(s[k] == c);
    }
    if b.contains(c) {
        let k = choose|k: int| 0 <= k < b.len() && b[k] == c;
        assert(s[a.len() + k] == c);
    }
}

proof fn lemma_joined_free(list: Seq<Text>)
    requires
        free_of(list, '\n'),
    ensures
        !text::joined(list, " "@).contains('\n'),
    decreases list.len(),
{
    reveal_strlit(" ");
    if list.len() == 1 {
        assert(!list[0].contains('\n'));
    } else if list.len() > 1 {
        let rest = list.drop_last();
        assert(forall|i: int| 0 <= i < rest.len() ==> rest[i] == list[i]);
        lemma_joined_free(rest);
        assert(!list[list.len() - 1].contains('\n'));
        assert(!" "@.contains('\n'));
        lemma_sum_free(text::joined(rest, " "@), " "@, '\n');
        lemma_sum_free(text::joined(rest, " "@) + " "@, list.last(), '\n');
    }
}

proof fn lemma_decimal_free(n: nat)
    ensures
        !text::decimal(n).contains('\n'),
{
    lemma_decimal(n);
    let s = text::decimal(n);
    if s.contains('\n') {
        let k = choose|k: int| 0 <= k < s.len() && s[k] == '\n';
        assert(text::is_digit(s[k]));
    }
}

proof fn lemma_value_line(key: Text, value: Option<Text>)
    requires
        sound(key),
        value matches Some(s) ==> !s.contains('\n'),
    ensures
        all_sound(display::value_line(key, value)),
{
    if let Some(s) = value {
        lemma_sum_free(key, s, '\n');
    }
}

proof fn lemma_all_sound_sum(a: Seq<Text>, b: Seq<Text>)
    requires
        all_sound(a),
        all_sound(b),
    ensures
        all_sound(a + b),
{
    let s = a + b;
    assert forall|i: int| 0 <= i < s.len() implies sound(#[trigger] s[i]) by {
        if i < a.len() {
            assert(s[i] == a[i]);
        } else {
            assert(s[i] == b[i - a.len()]);
        }
    }
}

proof fn lemma_identity_lines(v: ViewModel)
    requires
        fits(v),
    ensures
        display::identity_lines(v).len() > 0,
        all_sound(display::identity_lines(v)),
{
    let a = seq!["worktree "@ + v.path];
    let b = display::value_line("branch "@, v.branch);
    let c = display::flag_line("bare"@, v.bare);
    let d = display::flag_line("detached"@, v.detached);
    let e = display::flag_line("current"@, v.current);
    assert(sound("worktree "@) && sound("branch "@) && sound("bare"@) && sound("detached"@)
        && sound("current"@)) by {
        reveal_strlit("worktree ");
        reveal_strlit("branch ");
        reveal_strlit("bare");
        reveal_strlit("detached");
        reveal_strlit("current");
    }
    lemma_sum_free("worktree "@, v.path, '\n');
    lemma_value_line("branch "@, v.branch);
    assert(all_sound(a) && all_sound(c) && all_sound(d) && all_sound(e));
    lemma_all_sound_sum(a, b);
    lemma_all_sound_sum(a + b, c);
    lemma_all_sound_sum(a + b + c, d);
    lemma_all_sound_sum(a + b + c + d, e);
}

proof fn lemma_stack_lines(v: ViewModel)
    requires
        fits(v),
    ensures
        all_sound(display::stack_lines(v)),
{
    let a = display::names_line("lineage "@, v.lineage);
    let b = display::names_line("children "@, v.children);
    let c = display::value_line("children-overflow "@, display::digits(v.children_overflow));
    assert(sound("lineage "@) && sound("children "@) && sound("children-overflow "@)) by {
        reveal_strlit("lineage ");
        reveal_strlit("children ");
        reveal_strlit("children-overflow ");
    }
    lemma_joined_free(v.lineage);
    lemma_joined_free(v.children);
    lemma_sum_free("lineage "@, text::joined(v.lineage, " "@), '\n');
    lemma_sum_free("children "@, text::joined(v.children, " "@), '\n');
    if let Some(n) = v.children_overflow {
        lemma_decimal_free(n);
    }
    lemma_value_line("children-overflow "@, display::digits(v.children_overflow));
    assert(all_sound(a) && all_sound(b));
    lemma_all_sound_sum(a, b);
    lemma_all_sound_sum(a + b, c);
}

proof fn lemma_state_lines(v: ViewModel)
    ensures
        all_sound(display::state_lines(v)),
{
    let a = seq![display::status_line(v.status)];
    let b = display::value_line("ahead "@, display::digits(v.ahead));
    let c = display::value_line("behind "@, display::digits(v.behind));
    assert(sound("ahead "@) && sound("behind "@)) by {
        reveal_strlit("ahead ");
        reveal_strlit("behind ");
    }
    lemma_status_line(v.status);
    if let Some(n) = v.ahead {
        lemma_decimal_free(n);
    }
    if let Some(n) = v.behind {
        lemma_decimal_free(n);
    }
    lemma_value_line("ahead "@, display::digits(v.ahead));
    lemma_value_line("behind "@, display::digits(v.behind));
    assert(all_sound(a));
    lemma_all_sound_sum(a, b);
    lemma_all_sound_sum(a + b, c);
}

proof fn lemma_status_line(st: StatusModel)
    ensures
        sound(display::status_line(st)),
{
    let key = "status files="@;
    let (m1, m2, m3) = (" staged="@, " unstaged="@, " untracked="@);
    assert(sound(key) && sound(m1) && sound(m2) && sound(m3)) by {
        reveal_strlit("status files=");
        reveal_strlit(" staged=");
        reveal_strlit(" unstaged=");
        reveal_strlit(" untracked=");
    }
    let (d1, d2, d3, d4) = (
        text::decimal(st.files),
        text::decimal(st.staged),
        text::decimal(st.unstaged),
        text::decimal(st.untracked),
    );
    lemma_decimal_free(st.files);
    lemma_decimal_free(st.staged);
    lemma_decimal_free(st.unstaged);
    lemma_decimal_free(st.untracked);
    lemma_sum_free(key, d1, '\n');
    lemma_sum_free(key + d1, m1, '\n');
    lemma_sum_free(key + d1 + m1, d2, '\n');
    lemma_sum_free(key + d1 + m1 + d2, m2, '\n');
    lemma_sum_free(key + d1 + m1 + d2 + m2, d3, '\n');
    lemma_sum_free(key + d1 + m1 + d2 + m2 + d3, m3, '\n');
    lemma_sum_free(key + d1 + m1 + d2 + m2 + d3 + m3, d4, '\n');
}

/// True if all rows fit.
pub open spec fn all_fit(views: Seq<ViewModel>) -> bool {
    forall|i: int| 0 <= i < views.len() ==> fits(#[trigger] views[i])
}

/// What is written before the last record, with the empty line.
spec fn earlier_records(views: Seq<ViewModel>) -> Seq<Text> {
    if views.len() <= 1 {
        Seq::empty()
    } else {
        display::records(views.drop_last()) + seq![Seq::empty()]
    }
}

proof fn lemma_records_free(views: Seq<ViewModel>)
    requires
        all_fit(views),
    ensures
        free_of(display::records(views), '\n'),
        views.len() > 0 ==> display::records(views).len() > 0,
    decreases views.len(),
{
    if views.len() > 0 {
        let rest = views.drop_last();
        let last = views.last();
        assert(fits(views[views.len() - 1]));
        lemma_record_lines(last);
        assert(forall|i: int| 0 <= i < rest.len() ==> rest[i] == views[i]);
        lemma_records_free(rest);
        let (p, r) = (earlier_records(views), display::record(last));
        let all = display::records(views);
        assert(all =~= p + r);
        assert forall|i: int| 0 <= i < all.len() implies !(#[trigger] all[i]).contains('\n') by {
            if i < p.len() {
                if i < p.len() - 1 {
                    assert(all[i] == display::records(rest)[i]);
                }
            } else {
                assert(all[i] == r[i - p.len()]);
            }
        }
    }
}

proof fn lemma_records_injective(a: Seq<ViewModel>, b: Seq<ViewModel>)
    requires
        all_fit(a),
        all_fit(b),
        display::records(a) == display::records(b),
    ensures
        a.len() == b.len(),
        forall|i: int| 0 <= i < a.len() ==> unlabelled(#[trigger] a[i]) == unlabelled(b[i]),
    decreases a.len(),
{
    lemma_records_free(a);
    lemma_records_free(b);
    if a.len() > 0 && b.len() > 0 {
        let (v, w) = (a.last(), b.last());
        let (c, d) = (a.drop_last(), b.drop_last());
        let (p, q) = (earlier_records(a), earlier_records(b));
        assert(fits(a[a.len() - 1]) && fits(b[b.len() - 1]));
        lemma_record_lines(v);
        lemma_record_lines(w);
        assert(display::records(a) =~= p + display::record(v));
        assert(display::records(b) =~= q + display::record(w));
        lemma_last_field(p, display::record(v), q, display::record(w), Seq::empty());
        lemma_record_injective(v, w);
        if a.len() > 1 {
            assert(p.len() > 0);
            assert(display::records(c) =~= p.drop_last());
            assert(display::records(d) =~= q.drop_last());
            assert(forall|i: int| 0 <= i < c.len() ==> c[i] == a[i]);
            assert(forall|i: int| 0 <= i < d.len() ==> d[i] == b[i]);
            lemma_records_injective(c, d);
            assert forall|i: int| 0 <= i < a.len() implies unlabelled(#[trigger] a[i])
                == unlabelled(b[i]) by {
                if i < c.len() {
                    assert(unlabelled(c[i]) == unlabelled(d[i]));
                }
            }
        } else {
            assert(q.len() == 0);
            assert(b.len() == 1);
        }
    }
}

/// The list for programs is lossless: two lists that read the same tell the same of
/// the same worktrees in the same order.
pub proof fn law_machine_list_is_lossless(a: Seq<ViewModel>, b: Seq<ViewModel>)
    requires
        all_fit(a),
        all_fit(b),
        display::machine(a) == display::machine(b),
    ensures
        a.len() == b.len(),
        forall|i: int| 0 <= i < a.len() ==> unlabelled(#[trigger] a[i]) == unlabelled(b[i]),
{
    lemma_records_free(a);
    lemma_records_free(b);
    lemma_lines_injective(display::records(a), display::records(b));
    lemma_records_injective(a, b);
}

} // verus!
