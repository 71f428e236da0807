//! What holds of reading: of text, and of what git prints.

use crate::git;
use crate::git::{Known, StopModel, Topic};
use crate::porcelain;
use crate::porcelain::{StatusModel, Tip, TipModel, WorktreeModel};
use crate::repo;
use crate::text;
use crate::text::Text;
use vstd::prelude::*;

verus! {

// ---------------------------------------------------------------------------
// Text
// ---------------------------------------------------------------------------

/// Lines are what stands between line ends: a line in front of other text is read as
/// it is, and the rest by itself, whether the line ends with `\n` or `\r\n`. Text without
/// a line end is one line.
pub proof fn law_lines(line: Text, rest: Text)
    requires
        !line.contains('\n'),
    ensures
        line.len() == 0 || line.last() != '\r' ==> text::lines_of(line + seq!['\n'] + rest)
            == seq![line] + text::lines_of(rest),
        text::lines_of(line + seq!['\r', '\n'] + rest) == seq![line] + text::lines_of(rest),
        line.len() > 0 ==> text::lines_of(line) == seq![line],
        text::lines_of(Seq::empty()) == Seq::<Text>::empty(),
{
    let n = line.len() as int;
    assert forall|j: int| 0 <= j < n implies line[j] != '\n' by {
        if line[j] == '\n' {
            assert(line.contains('\n'));
        }
    }
    let a = line + seq!['\n'] + rest;
    text::lemma_find_is(a, '\n', n);
    assert(a.take(n) =~= line);
    assert(a.skip(n + 1) =~= rest);
    let b = line + seq!['\r', '\n'] + rest;
    text::lemma_find_is(b, '\n', n + 1);
    assert(b.take(n + 1) =~= line.push('\r'));
    assert(line.push('\r').drop_last() =~= line);
    assert(b.skip(n + 2) =~= rest);
    text::lemma_find_is(line, '\n', n);
}

/// What follows a prefix, and nothing without the prefix.
pub proof fn law_stripping(s: Text, p: Text, rest: Text)
    ensures
        text::stripped(s, p) == Some(rest) <==> s == p + rest,
{
    if s == p + rest {
        assert(p.is_prefix_of(s)) by {
            assert(s.subrange(0, p.len() as int) =~= p);
        }
        assert(s.skip(p.len() as int) =~= rest);
    }
    if text::stripped(s, p) == Some(rest) {
        assert(s =~= p + rest);
    }
}

/// A text is split where the character first stands, and not at all without it.
pub proof fn law_splitting(s: Text, c: char, a: Text, b: Text)
    ensures
        text::split_at_first(s, c) == Some((a, b)) <==> s == a + seq![c] + b && !a.contains(c),
        text::split_at_first(s, c) is None <==> !s.contains(c),
{
    text::lemma_find(s, c);
    let i = text::find(s, c) as int;
    if i < s.len() {
        assert(s[i] == c);
        assert(s =~= s.take(i) + seq![c] + s.skip(i + 1));
        if s.take(i).contains(c) {
            let k = choose|k: int| 0 <= k < s.take(i).len() && s.take(i)[k] == c;
            assert(s[k] == c);
        }
    } else if s.contains(c) {
        let k = choose|k: int| 0 <= k < s.len() && s[k] == c;
        assert(s[k] != c);
    }
    if s == a + seq![c] + b && !a.contains(c) {
        let n = a.len() as int;
        assert forall|j: int| 0 <= j < n implies s[j] != c by {
            if a[j] == c {
                assert(a.contains(c));
            }
        }
        assert(s[n] == c);
        text::lemma_find_is(s, c, n);
        assert(s.take(n) =~= a);
        assert(s.skip(n + 1) =~= b);
    }
}

proof fn lemma_trimmed_front(s: Text)
    ensures
        ({
            let t = text::trimmed_front(s);
            let n = s.len() - t.len();
            &&& 0 <= n <= s.len()
            &&& t == s.skip(n)
            &&& forall|j: int| 0 <= j < n ==> text::blank(#[trigger] s[j])
            &&& t.len() > 0 ==> !text::blank(t[0])
        }),
    decreases s.len(),
{
    if s.len() > 0 && text::blank(s[0]) {
        let rest = s.drop_first();
        lemma_trimmed_front(rest);
        let t = text::trimmed_front(s);
        let n = s.len() - t.len();
        assert(rest.skip(n - 1) =~= s.skip(n));
        assert forall|j: int| 0 <= j < n implies text::blank(#[trigger] s[j]) by {
            if j > 0 {
                assert(rest[j - 1] == s[j]);
            }
        }
    } else {
        assert(s.skip(0) =~= s);
    }
}

proof fn lemma_trimmed_back(s: Text)
    ensures
        ({
            let t = text::trimmed_back(s);
            &&& t.len() <= s.len()
            &&& t == s.take(t.len() as int)
            &&& forall|j: int| t.len() <= j < s.len() ==> text::blank(#[trigger] s[j])
            &&& t.len() > 0 ==> !text::blank(t.last())
        }),
    decreases s.len(),
{
    if s.len() > 0 && text::blank(s.last()) {
        let rest = s.drop_last();
        lemma_trimmed_back(rest);
        let t = text::trimmed_back(s);
        assert(rest.take(t.len() as int) =~= s.take(t.len() as int));
        assert forall|j: int| t.len() <= j < s.len() implies text::blank(#[trigger] s[j]) by {
            if j < rest.len() {
                assert(rest[j] == s[j]);
            }
        }
    } else {
        assert(s.take(s.len() as int) =~= s);
    }
}

/// Trimming takes the white space off both ends, and nothing else: what is left begins
/// and ends with other characters.
pub proof fn law_trimming(front: Text, s: Text, back: Text)
    requires
        forall|j: int| 0 <= j < front.len() ==> text::blank(#[trigger] front[j]),
        forall|j: int| 0 <= j < back.len() ==> text::blank(#[trigger] back[j]),
        s.len() > 0 ==> !text::blank(s[0]) && !text::blank(s.last()),
    ensures
        text::trimmed(front + s + back) == s,
{
    let whole = front + s + back;
    lemma_trimmed_front(whole);
    let t = text::trimmed_front(whole);
    let n = whole.len() - t.len();
    lemma_trimmed_back(t);
    let u = text::trimmed_back(t);
    if s.len() > 0 {
        let f = front.len() as int;
        assert(whole[f] == s[0]);
        if n < f {
            assert(t[0] == whole[n]);
            assert(whole[n] == front[n]);
        }
        assert(n == f);
        assert(t =~= s + back);
        let m = s.len() as int;
        assert(t[m - 1] == s.last());
        if u.len() > m {
            assert(u.last() == t[u.len() - 1]);
            assert(t[u.len() - 1] == back[u.len() - 1 - m]);
        }
        assert(u =~= s);
    } else {
        if t.len() > 0 {
            assert(t[0] == whole[n]);
            if n < front.len() {
                assert(whole[n] == front[n]);
            } else {
                assert(whole[n] == back[n - front.len()]);
            }
        }
        assert(u =~= s);
    }
}

/// What separates words: the space, tabs and line ends are white space, and no visible
/// character of ASCII is. Beyond ASCII it is the next line, the spaces that do not break,
/// those of all widths, and the separators of lines and paragraphs.
pub proof fn law_white_space(c: char)
    ensures
        c == ' ' || c == '\t' || c == '\n' || c == '\r' ==> text::blank(c),
        '!' <= c <= '~' ==> !text::blank(c),
        text::blank(c) <==> '\t' <= c <= '\r' || c == ' ' || c == '\u{85}' || c == '\u{a0}' || c
            == '\u{1680}' || '\u{2000}' <= c <= '\u{200a}' || c == '\u{2028}' || c == '\u{2029}'
            || c == '\u{202f}' || c == '\u{205f}' || c == '\u{3000}',
{
}

proof fn lemma_word_len_is(s: Text, n: int)
    requires
        0 <= n <= s.len(),
        forall|j: int| 0 <= j < n ==> !text::blank(#[trigger] s[j]),
        n < s.len() ==> text::blank(s[n]),
    ensures
        text::word_len(s) == n,
    decreases n,
{
    if n > 0 {
        let rest = s.drop_first();
        assert(!text::blank(s[0]));
        assert forall|j: int| 0 <= j < n - 1 implies !text::blank(#[trigger] rest[j]) by {
            assert(rest[j] == s[j + 1]);
        }
        if n < s.len() {
            assert(rest[n - 1] == s[n]);
        }
        lemma_word_len_is(rest, n - 1);
    }
}

/// Words are what stands between white space: a word in front of white space is read as
/// it is, and the rest by itself. White space in front does not matter.
pub proof fn law_words(word: Text, gap: char, rest: Text)
    requires
        word.len() > 0,
        forall|j: int| 0 <= j < word.len() ==> !text::blank(#[trigger] word[j]),
        text::blank(gap),
    ensures
        text::words(word + seq![gap] + rest) == seq![word] + text::words(rest),
        text::words(word) == seq![word],
        text::words(seq![gap] + rest) == text::words(rest),
        text::words(Seq::empty()) == Seq::<Text>::empty(),
{
    let n = word.len() as int;
    let s = word + seq![gap] + rest;
    assert(!text::blank(word[0]));
    assert(s[0] == word[0]);
    assert forall|j: int| 0 <= j < n implies !text::blank(#[trigger] s[j]) by {
        assert(s[j] == word[j]);
    }
    assert(s[n] == gap);
    lemma_word_len_is(s, n);
    assert(s.take(n) =~= word);
    let after = seq![gap] + rest;
    assert(s.skip(n) =~= after);
    assert(after[0] == gap);
    assert(after.drop_first() =~= rest);
    assert(text::words(after) == text::words(rest));
    lemma_word_len_is(word, n);
    assert(word.take(n) =~= word);
    assert(word.skip(n) =~= Seq::empty());
    assert(text::words(Seq::empty()) =~= Seq::<Text>::empty());
    assert(seq![word] + Seq::<Text>::empty() =~= seq![word]);
}

/// A number is written with its last digit last.
pub proof fn law_digits(n: nat, d: nat)
    requires
        d < 10,
    ensures
        text::decimal(d) == seq![(0x30 + d) as char],
        n > 0 ==> text::decimal(n * 10 + d) == text::decimal(n).push((0x30 + d) as char),
{
    if n > 0 {
        let m = n * 10 + d;
        assert(m / 10 == n && m % 10 == d);
    }
}

/// Only digits, with at most a `+` in front, are a number.
pub proof fn law_only_digits_are_numbers(s: Text)
    requires
        text::number(s) is Some,
    ensures
        s.len() > 0,
        forall|i: int| 0 < i < s.len() ==> '0' <= #[trigger] s[i] <= '9',
        s[0] == '+' || '0' <= s[0] <= '9',
        s[0] == '+' ==> s.len() > 1,
{
    if s[0] == '+' {
        let body = s.drop_first();
        assert forall|i: int| 0 < i < s.len() implies '0' <= #[trigger] s[i] <= '9' by {
            assert(text::is_digit(body[i - 1]));
        }
    } else {
        assert(text::is_digit(s[0]));
        assert forall|i: int| 0 < i < s.len() implies '0' <= #[trigger] s[i] <= '9' by {
            assert(text::is_digit(s[i]));
        }
    }
}

proof fn lemma_leading_zero(s: Text)
    requires
        text::all_digits(s),
    ensures
        text::all_digits(seq!['0'] + s),
        text::digits_value(seq!['0'] + s) == text::digits_value(s),
    decreases s.len(),
{
    let t = seq!['0'] + s;
    assert forall|i: int| 0 <= i < t.len() implies text::is_digit(#[trigger] t[i]) by {
        if i > 0 {
            assert(t[i] == s[i - 1]);
        }
    }
    if s.len() > 0 {
        let u = s.drop_last();
        assert forall|i: int| 0 <= i < u.len() implies text::is_digit(#[trigger] u[i]) by {
            assert(u[i] == s[i]);
        }
        lemma_leading_zero(u);
        assert(t.drop_last() =~= seq!['0'] + u);
        assert(t.last() == s.last());
    } else {
        assert(t.drop_last() =~= Seq::empty());
        reveal_with_fuel(text::digits_value, 2);
    }
}

/// Zeros, or one `+`, in front of digits do not change the number.
pub proof fn law_ways_to_write_a_number(s: Text)
    requires
        s.len() > 0,
        forall|i: int| 0 <= i < s.len() ==> '0' <= #[trigger] s[i] <= '9',
    ensures
        text::number(seq!['0'] + s) == text::number(s),
        text::number(seq!['+'] + s) == text::number(s),
        text::number(s) matches Some(n) ==> n <= usize::MAX,
{
    assert forall|i: int| 0 <= i < s.len() implies text::is_digit(#[trigger] s[i]) by {}
    lemma_leading_zero(s);
    let t = seq!['0'] + s;
    let u = seq!['+'] + s;
    assert(t[0] == '0' && u[0] == '+');
    assert('0' <= s[0] <= '9');
    assert(u.drop_first() =~= s);
}

/// Dictionary order is decided by the first difference; a text comes before what it
/// begins.
pub proof fn law_dictionary_order(p: Text, x: char, y: char, a: Text, b: Text)
    ensures
        x != y ==> text::text_le(p + seq![x] + a, p + seq![y] + b) == ((x as int) < (y as int)),
        text::text_le(p, p + a),
        a.len() > 0 ==> !text::text_le(p + a, p),
    decreases p.len(),
{
    let (s, t) = (p + seq![x] + a, p + seq![y] + b);
    if p.len() > 0 {
        let q = p.drop_first();
        law_dictionary_order(q, x, y, a, b);
        assert(s.drop_first() =~= q + seq![x] + a);
        assert(t.drop_first() =~= q + seq![y] + b);
        assert((p + a).drop_first() =~= q + a);
        assert(s[0] == p[0] && t[0] == p[0] && (p + a)[0] == p[0]);
    } else {
        assert(s[0] == x && t[0] == y);
        assert(p + a =~= a);
    }
}

/// Joined texts stand in order, with the separator between each two.
pub proof fn law_joining(parts: Seq<Text>, last: Text, sep: Text)
    ensures
        text::joined(Seq::empty(), sep) == Seq::<char>::empty(),
        text::joined(seq![last], sep) == last,
        parts.len() > 0 ==> text::joined(parts.push(last), sep) == text::joined(parts, sep) + sep
            + last,
{
    assert(parts.push(last).drop_last() =~= parts);
}

/// Padding only appends spaces, up to the width.
pub proof fn law_padding(s: Text, width: nat)
    ensures
        ({
            let r = text::padded(s, width);
            &&& r.len() == (if s.len() < width { width } else { s.len() })
            &&& r.take(s.len() as int) == s
            &&& forall|i: int| s.len() <= i < r.len() ==> #[trigger] r[i] == ' '
        }),
{
    let r = text::padded(s, width);
    assert(r.take(s.len() as int) =~= s);
}

/// Each trailing suffix goes, and nothing else.
pub proof fn law_suffixes(s: Text, suffix: Text)
    requires
        suffix.len() > 0,
    ensures
        text::without_suffixes(s + suffix, suffix) == text::without_suffixes(s, suffix),
        (forall|head: Text| s != #[trigger] (head + suffix)) ==> text::without_suffixes(s, suffix)
            == s,
{
    let t = s + suffix;
    assert(suffix.is_suffix_of(t)) by {
        assert(t.subrange(t.len() - suffix.len(), t.len() as int) =~= suffix);
    }
    assert(t.take(t.len() - suffix.len()) =~= s);
    if suffix.is_suffix_of(s) {
        let head = s.take(s.len() - suffix.len());
        assert(s =~= head + suffix);
    }
}

// ---------------------------------------------------------------------------
// The list of worktrees
// ---------------------------------------------------------------------------

/// True if `line` begins the entry of a worktree.
pub open spec fn is_head(line: Text) -> bool {
    "worktree "@.is_prefix_of(line)
}

/// How many of `lines` begin an entry.
pub open spec fn heads(lines: Seq<Text>) -> nat
    decreases lines.len(),
{
    if lines.len() == 0 {
        0
    } else {
        heads(lines.drop_first()) + (if is_head(lines[0]) {
            1nat
        } else {
            0
        })
    }
}

/// True if `lines` are none, or begin with an entry.
pub open spec fn well_begun(lines: Seq<Text>) -> bool {
    lines.len() > 0 ==> is_head(lines[0])
}

/// True if `line` says what is checked out.
pub open spec fn says_what(line: Text) -> bool {
    "branch refs/heads/"@.is_prefix_of(line) || line == "bare"@ || line == "detached"@
}

proof fn lemma_attrs(open: Option<Text>, acc: Seq<Text>, attrs: Seq<Text>, rest: Seq<Text>)
    requires
        forall|j: int| 0 <= j < attrs.len() ==> !is_head(#[trigger] attrs[j]),
    ensures
        porcelain::entries(open, acc, attrs + rest) == porcelain::entries(open, acc + attrs, rest),
    decreases attrs.len(),
{
    if attrs.len() > 0 {
        let tail = attrs.drop_first();
        let all = attrs + rest;
        assert(!is_head(attrs[0]));
        assert(all[0] == attrs[0]);
        assert(all.drop_first() =~= tail + rest);
        assert forall|j: int| 0 <= j < tail.len() implies !is_head(#[trigger] tail[j]) by {
            assert(tail[j] == attrs[j + 1]);
        }
        lemma_attrs(open, acc.push(attrs[0]), tail, rest);
        assert(acc.push(attrs[0]) + tail =~= acc + attrs);
    } else {
        assert(attrs + rest =~= rest);
        assert(acc + attrs =~= acc);
    }
}

proof fn lemma_entry_ends(path: Text, acc: Seq<Text>, rest: Seq<Text>)
    requires
        well_begun(rest),
    ensures
        porcelain::entries(Some(path), acc, rest) == seq![porcelain::entry(path, acc)]
            + porcelain::entries(None, Seq::empty(), rest),
{
    assert(porcelain::entries(Some(path), acc, rest) =~= seq![porcelain::entry(path, acc)]
        + porcelain::entries(None, Seq::empty(), rest));
}

proof fn lemma_entries_split(path: Text, acc: Seq<Text>, pre: Seq<Text>, rest: Seq<Text>)
    requires
        well_begun(rest),
    ensures
        porcelain::entries(Some(path), acc, pre + rest) == porcelain::entries(Some(path), acc, pre)
            + porcelain::entries(None, Seq::empty(), rest),
    decreases pre.len(),
{
    let all = pre + rest;
    if pre.len() == 0 {
        assert(all =~= rest);
        lemma_entry_ends(path, acc, rest);
    } else {
        let tail = pre.drop_first();
        assert(all[0] == pre[0]);
        assert(all.drop_first() =~= tail + rest);
        match text::stripped(pre[0], "worktree "@) {
            Some(next) => {
                lemma_entries_split(next, Seq::empty(), tail, rest);
                assert(porcelain::entries(Some(path), acc, all) =~= porcelain::entries(
                    Some(path),
                    acc,
                    pre,
                ) + porcelain::entries(None, Seq::empty(), rest));
            },
            None => {
                lemma_entries_split(path, acc.push(pre[0]), tail, rest);
            },
        }
    }
}

proof fn lemma_entries_apart(pre: Seq<Text>, rest: Seq<Text>)
    requires
        well_begun(pre),
        well_begun(rest),
    ensures
        porcelain::entries(None, Seq::empty(), pre + rest) == porcelain::entries(
            None,
            Seq::empty(),
            pre,
        ) + porcelain::entries(None, Seq::empty(), rest),
{
    let all = pre + rest;
    if pre.len() == 0 {
        assert(all =~= rest);
        assert(Seq::<WorktreeModel>::empty() + porcelain::entries(None, Seq::empty(), rest)
            =~= porcelain::entries(None, Seq::empty(), rest));
    } else {
        let tail = pre.drop_first();
        assert(all[0] == pre[0]);
        assert(all.drop_first() =~= tail + rest);
        let next = text::stripped(pre[0], "worktree "@)->Some_0;
        lemma_entries_split(next, Seq::empty(), tail, rest);
    }
}

proof fn lemma_entries_len(open: Option<Text>, acc: Seq<Text>, lines: Seq<Text>)
    ensures
        porcelain::entries(open, acc, lines).len() == heads(lines) + (if open is Some {
            1nat
        } else {
            0
        }),
    decreases lines.len(),
{
    if lines.len() > 0 {
        let rest = lines.drop_first();
        match text::stripped(lines[0], "worktree "@) {
            Some(next) => match open {
                Some(path) => lemma_entries_len(Some(next), Seq::empty(), rest),
                None => lemma_entries_len(Some(next), acc, rest),
            },
            None => lemma_entries_len(open, acc.push(lines[0]), rest),
        }
    }
}

proof fn lemma_label(attrs: Seq<Text>, j: int)
    requires
        0 <= j < attrs.len(),
        says_what(attrs[j]),
        forall|k: int| j < k < attrs.len() ==> !says_what(#[trigger] attrs[k]),
    ensures
        porcelain::label_of(attrs) == porcelain::label_of(seq![attrs[j]]),
    decreases attrs.len(),
{
    let one = seq![attrs[j]];
    assert(one.last() == attrs[j]);
    if j < attrs.len() - 1 {
        let head = attrs.drop_last();
        assert(!says_what(attrs[attrs.len() - 1]));
        assert forall|k: int| j < k < head.len() implies !says_what(#[trigger] head[k]) by {
            assert(head[k] == attrs[k]);
        }
        lemma_label(head, j);
    }
}

proof fn lemma_no_label(attrs: Seq<Text>)
    requires
        forall|k: int| 0 <= k < attrs.len() ==> !says_what(#[trigger] attrs[k]),
    ensures
        porcelain::label_of(attrs) == "detached"@,
    decreases attrs.len(),
{
    if attrs.len() > 0 {
        let head = attrs.drop_last();
        assert(!says_what(attrs[attrs.len() - 1]));
        assert forall|k: int| 0 <= k < head.len() implies !says_what(#[trigger] head[k]) by {
            assert(head[k] == attrs[k]);
        }
        lemma_no_label(head);
    }
}

proof fn lemma_label_words()
    ensures
        !"branch refs/heads/"@.is_prefix_of("bare"@),
        !"branch refs/heads/"@.is_prefix_of("detached"@),
{
    reveal_strlit("bare");
    reveal_strlit("detached");
    reveal_strlit("branch refs/heads/");
}

/// Each line `worktree <path>` of git's list makes one worktree, in order. The lines up to
/// the next such line are about it, and about no other: a line `bare` or `detached` says
/// that it is so; and the last line that says what is checked out makes its label: the
/// whole name of the branch, however many `/` it has.
pub proof fn law_listed_worktrees(
    out: Text,
    pre: Seq<Text>,
    path: Text,
    attrs: Seq<Text>,
    rest: Seq<Text>,
)
    requires
        text::lines_of(out) == pre + seq!["worktree "@ + path] + attrs + rest,
        well_begun(pre),
        forall|j: int| 0 <= j < attrs.len() ==> !is_head(#[trigger] attrs[j]),
        well_begun(rest),
    ensures
        porcelain::worktrees(out).len() == heads(pre) + 1 + heads(rest),
        ({
            let w = porcelain::worktrees(out)[heads(pre) as int];
            &&& w.path == path
            &&& w.bare == attrs.contains("bare"@)
            &&& w.detached == attrs.contains("detached"@)
            &&& forall|j: int, name: Text|
                0 <= j < attrs.len() && #[trigger] attrs[j] == #[trigger] ("branch refs/heads/"@
                    + name) && (forall|k: int|
                    j < k < attrs.len() ==> !says_what(#[trigger] attrs[k])) ==> w.label == name
            &&& forall|j: int|
                0 <= j < attrs.len() && (attrs[j] == "bare"@ || attrs[j] == "detached"@) && (
                forall|k: int| j < k < attrs.len() ==> !says_what(#[trigger] attrs[k]))
                    ==> w.label == #[trigger] attrs[j]
            &&& (forall|k: int| 0 <= k < attrs.len() ==> !says_what(#[trigger] attrs[k]))
                ==> w.label == "detached"@
        }),
{
    let none = Seq::<Text>::empty();
    let head = "worktree "@ + path;
    let tail = seq![head] + attrs + rest;
    law_stripping(head, "worktree "@, path);
    assert(is_head(head));
    assert(text::lines_of(out) =~= pre + tail);
    assert(tail[0] == head);
    lemma_entries_apart(pre, tail);
    assert(tail.drop_first() =~= attrs + rest);
    lemma_attrs(Some(path), none, attrs, rest);
    assert(none + attrs =~= attrs);
    lemma_entry_ends(path, attrs, rest);
    lemma_entries_len(None, none, pre);
    lemma_entries_len(None, none, rest);
    let own = porcelain::entries(None, none, tail);
    assert(own == seq![porcelain::entry(path, attrs)] + porcelain::entries(None, none, rest));
    assert(own[0] == porcelain::entry(path, attrs));
    let w = porcelain::worktrees(out)[heads(pre) as int];
    assert(w == porcelain::entry(path, attrs));
    lemma_label_words();
    assert forall|j: int, name: Text|
        0 <= j < attrs.len() && #[trigger] attrs[j] == #[trigger] ("branch refs/heads/"@ + name)
            && (forall|k: int| j < k < attrs.len() ==> !says_what(#[trigger] attrs[k])) implies w.label
        == name by {
        law_stripping(attrs[j], "branch refs/heads/"@, name);
        lemma_label(attrs, j);
        assert(seq![attrs[j]].last() == attrs[j]);
    }
    assert forall|j: int|
        0 <= j < attrs.len() && (attrs[j] == "bare"@ || attrs[j] == "detached"@) && (forall|k: int|
            j < k < attrs.len() ==> !says_what(#[trigger] attrs[k])) implies w.label
        == #[trigger] attrs[j] by {
        lemma_label(attrs, j);
        assert(seq![attrs[j]].last() == attrs[j]);
    }
    if forall|k: int| 0 <= k < attrs.len() ==> !says_what(#[trigger] attrs[k]) {
        lemma_no_label(attrs);
    }
}

/// Where a branch is checked out: in the first worktree whose label it is, of those that
/// are neither the bare repository itself nor detached; nowhere if there is none.
pub proof fn law_checkouts(list: Seq<WorktreeModel>, branch: Text)
    ensures
        forall|i: int|
            0 <= i < list.len() && (#[trigger] list[i]).label == branch && !list[i].bare
                && !list[i].detached && (forall|j: int|
                0 <= j < i ==> (#[trigger] list[j]).label != branch || list[j].bare
                    || list[j].detached) ==> porcelain::checkout_of(list, branch) == Some(
                list[i].path,
            ),
        (forall|i: int|
            0 <= i < list.len() ==> (#[trigger] list[i]).label != branch || list[i].bare
                || list[i].detached) <==> porcelain::checkout_of(list, branch) is None,
    decreases list.len(),
{
    porcelain::lemma_checkout_of(list, branch);
    if list.len() > 0 {
        let rest = list.drop_first();
        law_checkouts(rest, branch);
        assert forall|i: int|
            0 <= i < list.len() && (#[trigger] list[i]).label == branch && !list[i].bare
                && !list[i].detached && (forall|j: int|
                0 <= j < i ==> (#[trigger] list[j]).label != branch || list[j].bare
                    || list[j].detached) implies porcelain::checkout_of(list, branch) == Some(
            list[i].path,
        ) by {
            if i > 0 {
                assert(list[0].label != branch || list[0].bare || list[0].detached);
                assert(rest[i - 1] == list[i]);
                assert forall|j: int| 0 <= j < i - 1 implies (#[trigger] rest[j]).label != branch
                    || rest[j].bare || rest[j].detached by {
                    assert(rest[j] == list[j + 1]);
                }
            }
        }
    }
}

/// The branches that have a worktree: the labels of those that are neither the bare
/// repository itself nor detached, in order.
pub proof fn law_labels(a: Seq<WorktreeModel>, b: Seq<WorktreeModel>, w: WorktreeModel)
    ensures
        porcelain::labels(Seq::empty()) == Seq::<Text>::empty(),
        porcelain::labels(seq![w]) == (if w.bare || w.detached {
            Seq::empty()
        } else {
            seq![w.label]
        }),
        porcelain::labels(a + b) == porcelain::labels(a) + porcelain::labels(b),
    decreases a.len(),
{
    let one = seq![w];
    assert(one.drop_first() =~= Seq::empty());
    assert(porcelain::labels(Seq::empty()) =~= Seq::<Text>::empty());
    assert(seq![w.label] + Seq::<Text>::empty() =~= seq![w.label]);
    if a.len() == 0 {
        assert(a + b =~= b);
        assert(porcelain::labels(a + b) =~= porcelain::labels(a) + porcelain::labels(b));
    } else {
        law_labels(a.drop_first(), b, w);
        assert((a + b)[0] == a[0]);
        assert((a + b).drop_first() =~= a.drop_first() + b);
        assert(porcelain::labels(a + b) =~= porcelain::labels(a) + porcelain::labels(b));
    }
}

// ---------------------------------------------------------------------------
// The local branches
// ---------------------------------------------------------------------------

/// Each line of a commit, a space and a name is a branch; other lines are none. The
/// branches keep the order of the lines.
pub proof fn law_tips(a: Seq<Text>, b: Seq<Text>, sha: Text, name: Text, line: Text)
    requires
        !sha.contains(' '),
        !line.contains(' '),
    ensures
        porcelain::tips_of(Seq::empty()) == Seq::<TipModel>::empty(),
        porcelain::tips_of(seq![sha + seq![' '] + name]) == seq![(Tip { sha, name })],
        porcelain::tips_of(seq![line]) == Seq::<TipModel>::empty(),
        porcelain::tips_of(a + b) == porcelain::tips_of(a) + porcelain::tips_of(b),
    decreases a.len(),
{
    let full = sha + seq![' '] + name;
    law_splitting(full, ' ', sha, name);
    law_splitting(line, ' ', sha, name);
    assert(seq![full].drop_first() =~= Seq::empty());
    assert(seq![line].drop_first() =~= Seq::empty());
    assert(porcelain::tips_of(Seq::empty()) =~= Seq::<TipModel>::empty());
    assert(porcelain::tips_of(seq![full]) =~= seq![(Tip { sha, name })]);
    if a.len() == 0 {
        assert(a + b =~= b);
        assert(porcelain::tips_of(a + b) =~= porcelain::tips_of(a) + porcelain::tips_of(b));
    } else {
        law_tips(a.drop_first(), b, sha, name, line);
        assert((a + b)[0] == a[0]);
        assert((a + b).drop_first() =~= a.drop_first() + b);
        assert(porcelain::tips_of(a + b) =~= porcelain::tips_of(a) + porcelain::tips_of(b));
    }
}

/// The local branches are those that git prints.
pub proof fn law_local_tips(known: Known, dir: Text, out: Text)
    requires
        git::optional(known, git::query(Topic::Tips, dir, ""@, ""@)) == Ok::<
            Option<Text>,
            StopModel,
        >(Some(out)),
    ensures
        repo::local_tips(known, dir) == Ok::<Seq<TipModel>, StopModel>(
            porcelain::tips_of(text::lines_of(out)),
        ),
{
}

/// The branches at a commit are those whose tip it is, in the order of the tips.
pub proof fn law_branches_at(a: Seq<TipModel>, b: Seq<TipModel>, tip: TipModel, sha: Text)
    ensures
        porcelain::branches_at(Seq::empty(), sha) == Seq::<Text>::empty(),
        porcelain::branches_at(seq![tip], sha) == (if tip.sha == sha {
            seq![tip.name]
        } else {
            Seq::empty()
        }),
        porcelain::branches_at(a + b, sha) == porcelain::branches_at(a, sha)
            + porcelain::branches_at(b, sha),
    decreases a.len(),
{
    assert(seq![tip].drop_first() =~= Seq::empty());
    assert(porcelain::branches_at(Seq::empty(), sha) =~= Seq::<Text>::empty());
    assert(seq![tip.name] + Seq::<Text>::empty() =~= seq![tip.name]);
    if a.len() == 0 {
        assert(a + b =~= b);
        assert(porcelain::branches_at(a + b, sha) =~= porcelain::branches_at(a, sha)
            + porcelain::branches_at(b, sha));
    } else {
        law_branches_at(a.drop_first(), b, tip, sha);
        assert((a + b)[0] == a[0]);
        assert((a + b).drop_first() =~= a.drop_first() + b);
        assert(porcelain::branches_at(a + b, sha) =~= porcelain::branches_at(a, sha)
            + porcelain::branches_at(b, sha));
    }
}

/// The commit of a branch is that of the first tip with its name; a name without a tip
/// has none.
pub proof fn law_tip_commit(tips: Seq<TipModel>, name: Text)
    ensures
        forall|i: int|
            0 <= i < tips.len() && (#[trigger] tips[i]).name == name && (forall|j: int|
                0 <= j < i ==> (#[trigger] tips[j]).name != name) ==> porcelain::tip_commit(
                tips,
                name,
            ) == Some(tips[i].sha),
        (forall|i: int| 0 <= i < tips.len() ==> (#[trigger] tips[i]).name != name)
            ==> porcelain::tip_commit(tips, name) is None,
        porcelain::is_branch(tips, name) <==> porcelain::tip_commit(tips, name) is Some,
    decreases tips.len(),
{
    if tips.len() > 0 {
        let rest = tips.drop_first();
        law_tip_commit(rest, name);
        assert forall|i: int|
            0 <= i < tips.len() && (#[trigger] tips[i]).name == name && (forall|j: int|
                0 <= j < i ==> (#[trigger] tips[j]).name != name) implies porcelain::tip_commit(
            tips,
            name,
        ) == Some(tips[i].sha) by {
            if i > 0 {
                assert(tips[0].name != name);
                assert(rest[i - 1] == tips[i]);
                assert forall|j: int| 0 <= j < i - 1 implies (#[trigger] rest[j]).name != name by {
                    assert(rest[j] == tips[j + 1]);
                }
            }
        }
        if porcelain::is_branch(rest, name) {
            let k = choose|k: int| 0 <= k < rest.len() && (#[trigger] rest[k]).name == name;
            assert(tips[k + 1].name == name);
        }
        if porcelain::is_branch(tips, name) {
            let k = choose|k: int| 0 <= k < tips.len() && (#[trigger] tips[k]).name == name;
            if k > 0 {
                assert(rest[k - 1].name == name);
            }
        }
        if forall|i: int| 0 <= i < tips.len() ==> (#[trigger] tips[i]).name != name {
            assert(tips[0].name != name);
            assert forall|j: int| 0 <= j < rest.len() implies (#[trigger] rest[j]).name != name by {
                assert(rest[j] == tips[j + 1]);
            }
        }
    }
}

// ---------------------------------------------------------------------------
// The state of a worktree
// ---------------------------------------------------------------------------

/// Each line of git's status is one changed file: an untracked one if it begins with
/// `??`; else it is staged if its first character is no space, and unstaged if its second
/// is none.
pub proof fn law_status(list: Seq<Text>, line: Text)
    ensures
        ({
            let (st, next) = (porcelain::status_of(list), porcelain::status_of(list.push(line)));
            let x = if line.len() > 0 { line[0] } else { ' ' };
            let y = if line.len() > 1 { line[1] } else { ' ' };
            let new = x == '?' && y == '?';
            &&& next.files == st.files + 1
            &&& next.untracked == st.untracked + (if new { 1int } else { 0 })
            &&& next.staged == st.staged + (if !new && x != ' ' { 1int } else { 0 })
            &&& next.unstaged == st.unstaged + (if !new && y != ' ' { 1int } else { 0 })
        }),
        porcelain::status_of(Seq::empty()) == (porcelain::Status {
            files: 0nat,
            staged: 0nat,
            unstaged: 0nat,
            untracked: 0nat,
        }),
{
    let all = list.push(line);
    assert(all.drop_last() =~= list);
    assert(all.last() == line);
}

/// The state of a worktree is what git prints in it, whether or not git succeeds.
pub proof fn law_status_in(known: Known, dir: Text, reply: git::ReplyModel)
    requires
        known.contains_key(
            (git::Query { topic: Topic::Status, dir, subject: ""@, other: ""@ }),
        ),
        reply == known[(git::Query { topic: Topic::Status, dir, subject: ""@, other: ""@ })],
        reply.started,
    ensures
        repo::status_in(known, dir) == Ok::<StatusModel, StopModel>(
            porcelain::status_of(text::lines_of(reply.text)),
        ),
        repo::dirty_in(known, dir) == Ok::<bool, StopModel>(
            porcelain::status_of(text::lines_of(reply.text)).staged > 0 || porcelain::status_of(
                text::lines_of(reply.text),
            ).unstaged > 0,
        ),
{
}

proof fn lemma_no_blank_digits(n: nat)
    ensures
        text::decimal(n).len() > 0,
        forall|j: int| 0 <= j < text::decimal(n).len() ==> !text::blank(#[trigger] text::decimal(n)[j]),
    decreases n,
{
    if n >= 10 {
        lemma_no_blank_digits(n / 10);
        let (s, t) = (text::decimal(n), text::decimal(n / 10));
        assert forall|j: int| 0 <= j < s.len() implies !text::blank(#[trigger] s[j]) by {
            if j < t.len() {
                assert(s[j] == t[j]);
            }
        }
    }
}

/// Of two counts the first is how far behind, the second how far ahead, as git prints
/// them: with any white space between.
pub proof fn law_counts(behind: nat, gap: char, ahead: nat)
    requires
        behind <= usize::MAX,
        ahead <= usize::MAX,
        text::blank(gap),
    ensures
        porcelain::counts(text::decimal(behind) + seq![gap] + text::decimal(ahead)) == Some(
            (behind, ahead),
        ),
        porcelain::counts(text::decimal(behind)) is None,
        porcelain::counts(Seq::empty()) is None,
{
    let (b, a) = (text::decimal(behind), text::decimal(ahead));
    lemma_no_blank_digits(behind);
    lemma_no_blank_digits(ahead);
    law_words(b, gap, a);
    law_words(a, gap, b);
    let w = text::words(b + seq![gap] + a);
    assert(w =~= seq![b, a]);
    crate::lossless::law_numbers_read_back(behind);
    crate::lossless::law_numbers_read_back(ahead);
}

/// Two counts are read only from text that begins with two numbers.
pub proof fn law_counts_are_numbers(out: Text, behind: nat, ahead: nat)
    ensures
        porcelain::counts(out) == Some((behind, ahead)) <==> text::words(out).len() >= 2
            && text::number(text::words(out)[0]) == Some(behind) && text::number(
            text::words(out)[1],
        ) == Some(ahead),
{
}

} // verus!
