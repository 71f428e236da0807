//! Paths as texts: components separated by `/`, a leading `/` for the root.
//!
//! A component is what stands between separators. Empty ones do not count, nor
//! does `.`, except at the very beginning of a path.

use crate::text;
use crate::text::{chars_of, find_from, same, text_of, Text};
use vstd::prelude::*;

verus! {

/// True if `p` begins at the root.
pub open spec fn rooted(p: Text) -> bool {
    p.len() > 0 && p[0] == '/'
}

/// Where the segment of `p` that begins at `i` ends.
pub open spec fn segment_end(p: Text, i: int) -> int {
    i + text::find(p.skip(i), '/')
}

/// True if the segment from `i` to `e` is a component.
pub open spec fn counts(p: Text, i: int, e: int) -> bool {
    i < e && (i == 0 || e != i + 1 || p[i] != '.')
}

/// The beginnings and ends of the components of `p` from position `i` on.
pub open spec fn spans_from(p: Text, i: int) -> Seq<(int, int)>
    decreases p.len() + 1 - i,
{
    if i < 0 || i >= p.len() {
        Seq::empty()
    } else {
        let e = segment_end(p, i);
        proof {
            text::lemma_find(p.skip(i), '/');
        }
        let rest = spans_from(p, e + 1);
        if counts(p, i, e) {
            seq![(i, e)] + rest
        } else {
            rest
        }
    }
}

/// The beginnings and ends of the components of `p`.
pub open spec fn spans(p: Text) -> Seq<(int, int)> {
    spans_from(p, 0)
}

/// The components of `p`.
pub open spec fn components(p: Text) -> Seq<Text> {
    spans(p).map_values(|s: (int, int)| p.subrange(s.0, s.1))
}

/// True if `a` and `b` are the same path, however it is written.
pub open spec fn same_path(a: Text, b: Text) -> bool {
    rooted(a) == rooted(b) && components(a) == components(b)
}

/// The path `p`, taken relative to `base` unless it begins at the root.
pub open spec fn joined_path(base: Text, p: Text) -> Text {
    if rooted(p) {
        p
    } else if base.len() == 0 || base.last() == '/' {
        base + p
    } else {
        base + "/"@ + p
    }
}

/// The last component of `p`, if it is a name.
pub open spec fn base_name(p: Text) -> Option<Text> {
    let c = components(p);
    if c.len() > 0 && c.last() != "."@ && c.last() != ".."@ {
        Some(c.last())
    } else {
        None
    }
}

/// `p` without its last component, if it has one.
pub open spec fn parent_path(p: Text) -> Option<Text> {
    let s = spans(p);
    if s.len() == 0 {
        None
    } else if s.len() == 1 {
        Some(
            if rooted(p) {
                p.take(1)
            } else {
                Seq::empty()
            },
        )
    } else {
        Some(p.take(s[s.len() - 2].1))
    }
}

/// What of `p` lies below `base`, if `p` is `base` or lies below it.
pub open spec fn below(p: Text, base: Text) -> Option<Text> {
    let s = spans(p);
    let n = spans(base).len() as int;
    if rooted(p) == rooted(base) {
        if components(base).is_prefix_of(components(p)) {
            Some(
                if n == s.len() {
                    Seq::empty()
                } else {
                    p.subrange(s[n].0, s.last().1)
                },
            )
        } else {
            None
        }
    } else if rooted(p) && n == 0 {
        Some(
            if s.len() == 0 {
                p.take(1)
            } else {
                p.take(s.last().1)
            },
        )
    } else {
        None
    }
}

/// Spans lie one after another inside of `p`.
pub proof fn lemma_spans(p: Text, i: int)
    requires
        0 <= i,
    ensures
        forall|k: int|
            0 <= k < spans_from(p, i).len() ==> {
                let s = #[trigger] spans_from(p, i)[k];
                i <= s.0 < s.1 <= p.len()
            },
        forall|k: int, l: int|
            0 <= k < l < spans_from(p, i).len() ==> (#[trigger] spans_from(p, i)[k]).1
                < (#[trigger] spans_from(p, i)[l]).0,
    decreases p.len() + 1 - i,
{
    if i < p.len() {
        let e = segment_end(p, i);
        text::lemma_find(p.skip(i), '/');
        lemma_spans(p, e + 1);
        let all = spans_from(p, i);
        let rest = spans_from(p, e + 1);
        if counts(p, i, e) {
            assert forall|k: int| 0 <= k < all.len() implies ({
                let s = #[trigger] all[k];
                i <= s.0 < s.1 <= p.len()
            }) by {
                if k > 0 {
                    assert(all[k] == rest[k - 1]);
                }
            }
            assert forall|k: int, l: int| 0 <= k < l < all.len() implies (#[trigger] all[k]).1 < (
            #[trigger] all[l]).0 by {
                assert(all[l] == rest[l - 1]);
                if k > 0 {
                    assert(all[k] == rest[k - 1]);
                }
            }
        }
    }
}

/// Spans of machine integers, as spans.
spec fn widened(s: Seq<(usize, usize)>) -> Seq<(int, int)> {
    s.map_values(|x: (usize, usize)| (x.0 as int, x.1 as int))
}

fn span_list(cs: &Vec<char>) -> (r: Vec<(usize, usize)>)
    ensures
        widened(r@) == spans(cs@),
        forall|k: int| 0 <= k < r.len() ==> (#[trigger] r@[k]).0 < r@[k].1 <= cs.len(),
        forall|k: int, l: int| 0 <= k < l < r.len() ==> (#[trigger] r@[k]).1 < (#[trigger] r@[l]).0,
{
    let ghost p = cs@;
    let mut out: Vec<(usize, usize)> = Vec::new();
    let mut i: usize = 0;
    assert(widened(out@) + spans(p) =~= spans(p));
    while i < cs.len()
        invariant
            p == cs@,
            widened(out@) + spans_from(p, i as int) == spans(p),
        decreases cs.len() - i,
    {
        let e = find_from(cs, '/', i);
        let ghost before = widened(out@);
        let ghost rest = spans_from(p, e + 1);
        if i < e && (i == 0 || e - i != 1 || cs[i] != '.') {
            out.push((i, e));
            proof {
                assert(widened(out@) =~= before.push((i as int, e as int)));
                assert(before.push((i as int, e as int)) + rest =~= before + (seq![
                    (i as int, e as int),
                ] + rest));
            }
        }
        if e == cs.len() {
            assert(widened(out@) + rest =~= widened(out@));
            i = e;
        } else {
            i = e + 1;
        }
    }
    proof {
        assert(widened(out@) + Seq::<(int, int)>::empty() =~= widened(out@));
        lemma_spans(p, 0);
        assert forall|k: int| 0 <= k < out.len() implies (#[trigger] out@[k]).0 < out@[k].1
            <= cs.len() by {
            assert(spans(p)[k] == widened(out@)[k]);
        }
        assert forall|k: int, l: int| 0 <= k < l < out.len() implies (#[trigger] out@[k]).1 < (
        #[trigger] out@[l]).0 by {
            assert(spans(p)[k] == widened(out@)[k]);
            assert(spans(p)[l] == widened(out@)[l]);
        }
    }
    out
}

/// True if `p` begins at the root.
pub fn is_absolute(p: &str) -> (r: bool)
    ensures
        r == rooted(p@),
{
    let cs = chars_of(p);
    cs.len() > 0 && cs[0] == '/'
}

/// The path `p`, taken relative to `base` unless it begins at the root.
pub fn join(base: &str, p: &str) -> (r: String)
    ensures
        r@ == joined_path(base@, p@),
{
    if is_absolute(p) {
        return p.to_owned();
    }
    let cs = chars_of(base);
    if cs.len() == 0 || cs[cs.len() - 1] == '/' {
        base.to_owned().concat(p)
    } else {
        base.to_owned().concat("/").concat(p)
    }
}

/// The components of `p`.
pub fn component_list(p: &str) -> (r: Vec<String>)
    ensures
        r.deep_view() == components(p@),
{
    let cs = chars_of(p);
    let list = span_list(&cs);
    let mut out: Vec<String> = Vec::new();
    let mut i: usize = 0;
    while i < list.len()
        invariant
            i <= list.len(),
            out.len() == i,
            forall|k: int| 0 <= k < list.len() ==> (#[trigger] list@[k]).0 < list@[k].1 <= cs.len(),
            forall|k: int|
                0 <= k < i ==> (#[trigger] out@[k])@ == cs@.subrange(
                    list@[k].0 as int,
                    list@[k].1 as int,
                ),
        decreases list.len() - i,
    {
        let (from, to) = list[i];
        out.push(text_of(&cs, from, to));
        i += 1;
    }
    proof {
        assert(spans(p@).len() == widened(list@).len());
        assert forall|k: int| 0 <= k < out.len() implies out.deep_view()[k] == components(p@)[k] by {
            assert(spans(p@)[k] == widened(list@)[k]);
            assert(out@[k]@ == cs@.subrange(list@[k].0 as int, list@[k].1 as int));
        }
        assert(out.deep_view() =~= components(p@));
    }
    out
}

fn same_texts(a: &Vec<String>, b: &Vec<String>) -> (r: bool)
    ensures
        r == (a.deep_view() == b.deep_view()),
{
    if a.len() != b.len() {
        assert(a.deep_view().len() != b.deep_view().len());
        return false;
    }
    let r = begins(a, b);
    assert(r ==> a.deep_view() =~= b.deep_view());
    r
}

/// True if `b` is the beginning of `a`.
fn begins(a: &Vec<String>, b: &Vec<String>) -> (r: bool)
    ensures
        r == b.deep_view().is_prefix_of(a.deep_view()),
{
    if b.len() > a.len() {
        return false;
    }
    let mut i: usize = 0;
    while i < b.len()
        invariant
            i <= b.len() <= a.len(),
            forall|k: int| 0 <= k < i ==> a.deep_view()[k] == b.deep_view()[k],
        decreases b.len() - i,
    {
        if !same(a[i].as_str(), b[i].as_str()) {
            assert(a.deep_view().subrange(0, b.len() as int)[i as int] == a@[i as int]@);
            assert(b.deep_view()[i as int] == b@[i as int]@);
            return false;
        }
        i += 1;
    }
    assert(b.deep_view() =~= a.deep_view().subrange(0, b.len() as int));
    true
}

/// True if `a` and `b` are the same path.
pub fn is_same_path(a: &str, b: &str) -> (r: bool)
    ensures
        r == same_path(a@, b@),
{
    is_absolute(a) == is_absolute(b) && same_texts(&component_list(a), &component_list(b))
}

/// The last component of `p`, if it is a name.
pub fn file_name(p: &str) -> (r: Option<String>)
    ensures
        r.deep_view() == base_name(p@),
{
    let mut list = component_list(p);
    let ghost all = list.deep_view();
    match list.pop() {
        Some(last) => {
            assert(all.last() == last@);
            if same(last.as_str(), ".") || same(last.as_str(), "..") {
                None
            } else {
                Some(last)
            }
        },
        None => None,
    }
}

/// `p` without its last component, if it has one.
pub fn parent(p: &str) -> (r: Option<String>)
    ensures
        r.deep_view() == parent_path(p@),
{
    let cs = chars_of(p);
    let list = span_list(&cs);
    assert(spans(p@).len() == widened(list@).len());
    if list.len() == 0 {
        None
    } else if list.len() == 1 {
        if is_absolute(p) {
            Some(text_of(&cs, 0, 1))
        } else {
            Some(String::new())
        }
    } else {
        let (from, to) = list[list.len() - 2];
        assert(spans(p@)[list.len() - 2] == widened(list@)[list.len() - 2]);
        Some(text_of(&cs, 0, to))
    }
}

/// What of `p` lies below `base`, if `p` is `base` or lies below it.
pub fn strip_prefix(p: &str, base: &str) -> (r: Option<String>)
    ensures
        r.deep_view() == below(p@, base@),
{
    let cs = chars_of(p);
    let list = span_list(&cs);
    let top = component_list(base);
    let n: usize = top.len();
    assert(spans(p@).len() == widened(list@).len());
    assert(components(base@).len() == n);
    if is_absolute(p) == is_absolute(base) {
        if !begins(&component_list(p), &top) {
            return None;
        }
        if n == list.len() {
            return Some(String::new());
        }
        let (from, a) = list[n];
        let (b, to) = list[list.len() - 1];
        proof {
            assert(spans(p@)[n as int] == widened(list@)[n as int]);
            assert(spans(p@).last() == widened(list@)[list.len() - 1]);
            if n + 1 < list.len() {
                assert(list@[n as int].1 < list@[list.len() - 1].0);
            }
        }
        Some(text_of(&cs, from, to))
    } else if is_absolute(p) && n == 0 {
        if list.len() == 0 {
            Some(text_of(&cs, 0, 1))
        } else {
            let (b, to) = list[list.len() - 1];
            assert(spans(p@).last() == widened(list@)[list.len() - 1]);
            Some(text_of(&cs, 0, to))
        }
    } else {
        None
    }
}

} // verus!
