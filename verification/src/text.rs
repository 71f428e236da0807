//! Text as sequences of characters: the operations on strings that the rest of
//! the crate is built from, each with its mathematical meaning.

use vstd::prelude::*;

verus! {

/// The value of a string: its characters in order.
pub type Text = Seq<char>;

/// `std::string::String::push`: appends one character to the end of the string.
pub assume_specification[ String::push ](s: &mut String, c: char)
    ensures
        final(s)@ == old(s)@.push(c),
;

// ---------------------------------------------------------------------------
// Characters and copies
// ---------------------------------------------------------------------------

/// The characters of `s`.
pub fn chars_of(s: &str) -> (r: Vec<char>)
    ensures
        r@ == s@,
{
    let mut out: Vec<char> = Vec::new();
    for c in it: s.chars()
        invariant
            out@ == it.seq().take(it.index() as int),
            it.seq() == s@,
    {
        out.push(c);
    }
    out
}

/// The characters of `cs` from position `from` up to `to`, as a string.
pub fn text_of(cs: &Vec<char>, from: usize, to: usize) -> (r: String)
    requires
        from <= to <= cs.len(),
    ensures
        r@ == cs@.subrange(from as int, to as int),
{
    let mut out = String::new();
    let mut i: usize = from;
    while i < to
        invariant
            from <= i <= to <= cs.len(),
            out@ == cs@.subrange(from as int, i as int),
        decreases to - i,
    {
        out.push(cs[i]);
        i += 1;
    }
    out
}

/// The code point of `c`.
fn code(c: char) -> (r: u32)
    ensures
        r as int == c as int,
{
    c as u32
}

/// True if `a` and `b` are the same text.
pub fn same(a: &str, b: &str) -> (r: bool)
    ensures
        r == (a@ == b@),
{
    a.to_owned() == b.to_owned()
}

/// True if `t` is one of `list`.
pub fn has_text(list: &Vec<String>, t: &str) -> (r: bool)
    ensures
        r == list.deep_view().contains(t@),
{
    let mut i: usize = 0;
    while i < list.len()
        invariant
            i <= list.len(),
            forall|j: int| 0 <= j < i ==> list.deep_view()[j] != t@,
        decreases list.len() - i,
    {
        if same(list[i].as_str(), t) {
            assert(list.deep_view()[i as int] == t@);
            return true;
        }
        i += 1;
    }
    false
}

/// A copy of `list`.
pub fn copy_texts(list: &Vec<String>) -> (r: Vec<String>)
    ensures
        r.deep_view() == list.deep_view(),
{
    let r = list.clone();
    assert(r.deep_view() =~= list.deep_view());
    r
}

/// Adds `x` at the end of `list`.
pub fn grow<T: DeepView>(list: &mut Vec<T>, x: T)
    ensures
        final(list).deep_view() == old(list).deep_view().push(x.deep_view()),
{
    list.push(x);
    assert(list.deep_view() =~= old(list).deep_view().push(x.deep_view()));
}

/// The empty list.
pub fn empty_list<T: DeepView>() -> (r: Vec<T>)
    ensures
        r.deep_view() == Seq::<T::V>::empty(),
{
    let r: Vec<T> = Vec::new();
    assert(r.deep_view() =~= Seq::<T::V>::empty());
    r
}

/// What a list holds is its first element or in its rest.
pub proof fn lemma_first_and_rest(list: Seq<Text>, x: Text)
    requires
        list.len() > 0,
    ensures
        list.contains(x) <==> list[0] == x || list.drop_first().contains(x),
{
    let rest = list.drop_first();
    if list.contains(x) {
        let k = choose|k: int| 0 <= k < list.len() && list[k] == x;
        if k > 0 {
            assert(rest[k - 1] == x);
        }
    }
    if rest.contains(x) {
        let k = choose|k: int| 0 <= k < rest.len() && rest[k] == x;
        assert(list[k + 1] == x);
    }
}

// ---------------------------------------------------------------------------
// Prefixes, suffixes and searching
// ---------------------------------------------------------------------------

/// The position of the first `c` in `s`, or the length of `s` if it has none.
pub open spec fn find(s: Text, c: char) -> nat
    decreases s.len(),
{
    if s.len() == 0 || s[0] == c {
        0
    } else {
        1 + find(s.drop_first(), c)
    }
}

/// What `find` finds.
pub proof fn lemma_find(s: Text, c: char)
    ensures
        find(s, c) <= s.len(),
        find(s, c) < s.len() ==> s[find(s, c) as int] == c,
        forall|j: int| 0 <= j < find(s, c) ==> s[j] != c,
    decreases s.len(),
{
    if s.len() == 0 || s[0] == c {
    } else {
        lemma_find(s.drop_first(), c);
        assert forall|j: int| 0 <= j < find(s, c) implies s[j] != c by {
            if j > 0 {
                assert(s.drop_first()[j - 1] == s[j]);
            }
        }
    }
}

/// `find` is the only position with a `c` and none before it.
pub proof fn lemma_find_is(s: Text, c: char, i: int)
    requires
        0 <= i <= s.len(),
        i < s.len() ==> s[i] == c,
        forall|j: int| 0 <= j < i ==> s[j] != c,
    ensures
        find(s, c) == i,
{
    lemma_find(s, c);
}

/// The position of the first `c` in `cs` from `from` on, or the length of `cs`.
pub fn find_from(cs: &Vec<char>, c: char, from: usize) -> (r: usize)
    requires
        from <= cs.len(),
    ensures
        from <= r <= cs.len(),
        r == from + find(cs@.skip(from as int), c),
{
    let mut i: usize = from;
    while i < cs.len() && cs[i] != c
        invariant
            from <= i <= cs.len(),
            forall|j: int| from <= j < i ==> cs@[j] != c,
        decreases cs.len() - i,
    {
        i += 1;
    }
    proof {
        lemma_find_is(cs@.skip(from as int), c, i - from);
    }
    i
}

/// What is left of `s` once `p` is taken off its front, if it begins with `p`.
pub open spec fn stripped(s: Text, p: Text) -> Option<Text> {
    if p.is_prefix_of(s) {
        Some(s.skip(p.len() as int))
    } else {
        None
    }
}

/// True if `cs` reads `p` from position `at` on.
pub fn reads_at(cs: &Vec<char>, at: usize, p: &Vec<char>) -> (r: bool)
    requires
        at <= cs.len(),
    ensures
        r == p@.is_prefix_of(cs@.skip(at as int)),
{
    if p.len() > cs.len() - at {
        return false;
    }
    let mut i: usize = 0;
    while i < p.len()
        invariant
            i <= p.len() <= cs.len() - at,
            at <= cs.len(),
            forall|j: int| 0 <= j < i ==> p@[j] == cs@[at + j],
        decreases p.len() - i,
    {
        if p[i] != cs[at + i] {
            assert(cs@.skip(at as int).subrange(0, p@.len() as int)[i as int] == cs@[at + i]);
            return false;
        }
        i += 1;
    }
    assert(p@ =~= cs@.skip(at as int).subrange(0, p@.len() as int));
    true
}

/// `s` without the prefix `p`, or `None` if it does not begin with `p`.
pub fn strip_prefix(s: &str, p: &str) -> (r: Option<String>)
    ensures
        r.deep_view() == stripped(s@, p@),
{
    let cs = chars_of(s);
    let ps = chars_of(p);
    assert(cs@.skip(0) =~= cs@);
    if reads_at(&cs, 0, &ps) {
        Some(text_of(&cs, ps.len(), cs.len()))
    } else {
        None
    }
}

/// True if `s` begins with `p`.
pub fn starts_with(s: &str, p: &str) -> (r: bool)
    ensures
        r == p@.is_prefix_of(s@),
{
    let cs = chars_of(s);
    let ps = chars_of(p);
    assert(cs@.skip(0) =~= cs@);
    reads_at(&cs, 0, &ps)
}

/// The two sides of the first `c` in `s`, if it has one.
pub open spec fn split_at_first(s: Text, c: char) -> Option<(Text, Text)> {
    let i = find(s, c) as int;
    if i < s.len() {
        Some((s.take(i), s.skip(i + 1)))
    } else {
        None
    }
}

/// Splits `s` at its first `c`.
pub fn split_once(s: &str, c: char) -> (r: Option<(String, String)>)
    ensures
        r.deep_view() == split_at_first(s@, c),
{
    let cs = chars_of(s);
    assert(cs@.skip(0) =~= cs@);
    let i = find_from(&cs, c, 0);
    if i < cs.len() {
        Some((text_of(&cs, 0, i), text_of(&cs, i + 1, cs.len())))
    } else {
        None
    }
}

/// `s` without any number of `suffix` at its end.
pub open spec fn without_suffixes(s: Text, suffix: Text) -> Text
    decreases s.len(),
{
    if suffix.len() > 0 && suffix.is_suffix_of(s) {
        without_suffixes(s.take(s.len() - suffix.len()), suffix)
    } else {
        s
    }
}

/// Takes every trailing `suffix` off `s`.
pub fn trim_end_matches(s: &str, suffix: &str) -> (r: String)
    ensures
        r@ == without_suffixes(s@, suffix@),
{
    let cs = chars_of(s);
    let ps = chars_of(suffix);
    let mut end: usize = cs.len();
    assert(cs@.take(end as int) =~= cs@);
    while ps.len() > 0 && ps.len() <= end
        invariant_except_break
            end <= cs.len(),
            without_suffixes(cs@.take(end as int), ps@) == without_suffixes(cs@, ps@),
        ensures
            end <= cs.len(),
            without_suffixes(cs@, ps@) == cs@.take(end as int),
        decreases end,
    {
        let at = end - ps.len();
        let mut k: usize = 0;
        while k < ps.len() && cs[at + k] == ps[k]
            invariant
                k <= ps.len(),
                at + ps.len() == end <= cs.len(),
                forall|j: int| 0 <= j < k ==> cs@[at + j] == ps@[j],
            decreases ps.len() - k,
        {
            k += 1;
        }
        let ghost head = cs@.take(end as int);
        if k < ps.len() {
            assert(head.subrange(head.len() - ps@.len(), head.len() as int)[k as int] == cs@[at
                + k]);
            break;
        }
        assert(ps@ =~= head.subrange(head.len() - ps@.len(), head.len() as int));
        assert(head.take(at as int) =~= cs@.take(at as int));
        end = at;
    }
    text_of(&cs, 0, end)
}

// ---------------------------------------------------------------------------
// White space
// ---------------------------------------------------------------------------

/// The characters with Unicode's `White_Space` property.
pub open spec fn blank(c: char) -> bool {
    let n = c as int;
    ||| 0x9 <= n <= 0xd
    ||| n == 0x20
    ||| n == 0x85
    ||| n == 0xa0
    ||| n == 0x1680
    ||| 0x2000 <= n <= 0x200a
    ||| n == 0x2028
    ||| n == 0x2029
    ||| n == 0x202f
    ||| n == 0x205f
    ||| n == 0x3000
}

/// True if `c` is white space.
pub fn is_blank(c: char) -> (r: bool)
    ensures
        r == blank(c),
{
    let n = c as u32;
    (0x9 <= n && n <= 0xd) || n == 0x20 || n == 0x85 || n == 0xa0 || n == 0x1680 || (0x2000 <= n
        && n <= 0x200a) || n == 0x2028 || n == 0x2029 || n == 0x202f || n == 0x205f || n == 0x3000
}

/// `s` without leading white space.
pub open spec fn trimmed_front(s: Text) -> Text
    decreases s.len(),
{
    if s.len() > 0 && blank(s[0]) {
        trimmed_front(s.drop_first())
    } else {
        s
    }
}

/// `s` without trailing white space.
pub open spec fn trimmed_back(s: Text) -> Text
    decreases s.len(),
{
    if s.len() > 0 && blank(s.last()) {
        trimmed_back(s.drop_last())
    } else {
        s
    }
}

/// `s` without white space at either end.
pub open spec fn trimmed(s: Text) -> Text {
    trimmed_back(trimmed_front(s))
}

/// Takes the white space off both ends of `s`.
pub fn trim(s: &str) -> (r: String)
    ensures
        r@ == trimmed(s@),
{
    let cs = chars_of(s);
    let mut i: usize = 0;
    assert(cs@.skip(0) =~= cs@);
    while i < cs.len() && is_blank(cs[i])
        invariant
            i <= cs.len(),
            trimmed_front(cs@.skip(i as int)) == trimmed_front(cs@),
        decreases cs.len() - i,
    {
        assert(cs@.skip(i as int).drop_first() =~= cs@.skip(i + 1));
        i += 1;
    }
    let ghost front = cs@.skip(i as int);
    assert(trimmed_front(cs@) == front);
    let mut end: usize = cs.len();
    assert(cs@.subrange(i as int, end as int) =~= front);
    while i < end && is_blank(cs[end - 1])
        invariant
            i <= end <= cs.len(),
            trimmed_back(cs@.subrange(i as int, end as int)) == trimmed_back(front),
        decreases end,
    {
        let ghost now = cs@.subrange(i as int, end as int);
        assert(now.drop_last() =~= cs@.subrange(i as int, end - 1));
        assert(now.last() == cs@[end - 1]);
        end -= 1;
    }
    proof {
        let now = cs@.subrange(i as int, end as int);
        if i < end {
            assert(now.last() == cs@[end - 1]);
        }
        assert(trimmed_back(now) == now);
    }
    text_of(&cs, i, end)
}

/// The length of the run of `s` that begins it and holds no white space.
pub open spec fn word_len(s: Text) -> nat
    decreases s.len(),
{
    if s.len() == 0 || blank(s[0]) {
        0
    } else {
        1 + word_len(s.drop_first())
    }
}

/// The words of `s`: its maximal runs without white space.
pub open spec fn words(s: Text) -> Seq<Text>
    decreases s.len(),
{
    if s.len() == 0 {
        Seq::empty()
    } else if blank(s[0]) {
        words(s.drop_first())
    } else {
        proof {
            lemma_word_len(s);
        }
        seq![s.take(word_len(s) as int)] + words(s.skip(word_len(s) as int))
    }
}

/// What `word_len` measures.
pub proof fn lemma_word_len(s: Text)
    ensures
        word_len(s) <= s.len(),
        word_len(s) < s.len() ==> blank(s[word_len(s) as int]),
        forall|j: int| 0 <= j < word_len(s) ==> !blank(s[j]),
        s.len() > 0 && !blank(s[0]) ==> word_len(s) > 0,
    decreases s.len(),
{
    if s.len() == 0 || blank(s[0]) {
    } else {
        lemma_word_len(s.drop_first());
        assert forall|j: int| 0 <= j < word_len(s) implies !blank(s[j]) by {
            if j > 0 {
                assert(s.drop_first()[j - 1] == s[j]);
            }
        }
    }
}

/// Splits `s` into its words.
pub fn split_whitespace(s: &str) -> (r: Vec<String>)
    ensures
        r.deep_view() == words(s@),
{
    let cs = chars_of(s);
    let mut out: Vec<String> = Vec::new();
    let mut i: usize = 0;
    assert(cs@.skip(0) =~= cs@);
    assert(out.deep_view() + words(cs@) =~= words(cs@));
    while i < cs.len()
        invariant
            i <= cs.len(),
            out.deep_view() + words(cs@.skip(i as int)) == words(cs@),
        decreases cs.len() - i,
    {
        let ghost rest = cs@.skip(i as int);
        if is_blank(cs[i]) {
            assert(rest.drop_first() =~= cs@.skip(i + 1));
            i += 1;
        } else {
            let mut j: usize = i;
            while j < cs.len() && !is_blank(cs[j])
                invariant
                    i <= j <= cs.len(),
                    forall|k: int| i <= k < j ==> !blank(cs@[k]),
                decreases cs.len() - j,
            {
                j += 1;
            }
            proof {
                lemma_word_len(rest);
                if word_len(rest) < j - i {
                    assert(rest[word_len(rest) as int] == cs@[i + word_len(rest)]);
                }
                if word_len(rest) > j - i {
                    assert(rest[j - i] == cs@[j as int]);
                }
                assert(word_len(rest) == j - i);
                assert(rest.take(j - i) =~= cs@.subrange(i as int, j as int));
                assert(rest.skip(j - i) =~= cs@.skip(j as int));
            }
            let ghost before = out.deep_view();
            let word = text_of(&cs, i, j);
            out.push(word);
            proof {
                assert(out.deep_view() =~= before.push(word@));
                assert(before.push(word@) + words(cs@.skip(j as int)) =~= before + (seq![word@]
                    + words(cs@.skip(j as int))));
            }
            i = j;
        }
    }
    assert(words(cs@.skip(i as int)) =~= Seq::empty());
    assert(out.deep_view() + Seq::<Text>::empty() =~= out.deep_view());
    out
}

// ---------------------------------------------------------------------------
// Lines
// ---------------------------------------------------------------------------

/// `s` without one carriage return at its end.
pub open spec fn without_cr(s: Text) -> Text {
    if s.len() > 0 && s.last() == '\r' {
        s.drop_last()
    } else {
        s
    }
}

/// The lines of `s`, each without its line ending (`\n` or `\r\n`). The last line
/// need not have an ending.
pub open spec fn lines_of(s: Text) -> Seq<Text>
    decreases s.len(),
{
    let end = find(s, '\n') as int;
    if s.len() == 0 {
        Seq::empty()
    } else if end >= s.len() {
        seq![s]
    } else {
        seq![without_cr(s.take(end))] + lines_of(s.skip(end + 1))
    }
}

/// Splits `s` into its lines.
pub fn lines(s: &str) -> (r: Vec<String>)
    ensures
        r.deep_view() == lines_of(s@),
{
    let cs = chars_of(s);
    let mut out: Vec<String> = Vec::new();
    let mut i: usize = 0;
    assert(cs@.skip(0) =~= cs@);
    assert(out.deep_view() + lines_of(cs@) =~= lines_of(cs@));
    while i < cs.len()
        invariant
            i <= cs.len(),
            out.deep_view() + lines_of(cs@.skip(i as int)) == lines_of(cs@),
        decreases cs.len() - i,
    {
        let ghost rest = cs@.skip(i as int);
        let ghost before = out.deep_view();
        let end = find_from(&cs, '\n', i);
        let mut stop: usize = end;
        if end < cs.len() && i < end && cs[end - 1] == '\r' {
            stop = end - 1;
        }
        let line = text_of(&cs, i, stop);
        proof {
            let k = end - i;
            assert(rest.take(k) =~= cs@.subrange(i as int, end as int));
            if end < cs.len() {
                if i < end {
                    assert(rest.take(k).last() == cs@[end - 1]);
                }
                assert(line@ =~= without_cr(rest.take(k)));
                assert(rest.skip(k + 1) =~= cs@.skip(end + 1));
            } else {
                assert(line@ =~= rest);
                assert(lines_of(rest) =~= seq![line@] + lines_of(cs@.skip(end as int)));
            }
        }
        out.push(line);
        i = if end < cs.len() {
            end + 1
        } else {
            end
        };
        proof {
            assert(out.deep_view() =~= before.push(line@));
            assert(before.push(line@) + lines_of(cs@.skip(i as int)) =~= before + (seq![line@]
                + lines_of(cs@.skip(i as int))));
        }
    }
    assert(out.deep_view() + Seq::<Text>::empty() =~= out.deep_view());
    out
}

// ---------------------------------------------------------------------------
// Replacing and joining
// ---------------------------------------------------------------------------

/// True if `t` stands somewhere in `s`.
pub open spec fn occurs(t: Text, s: Text) -> bool {
    exists|k: int| 0 <= k <= s.len() - t.len() && #[trigger] s.subrange(k, k + t.len()) == t
}

/// `s` with every `from` in it, read from the left, replaced by `to`.
pub open spec fn replaced(s: Text, from: Text, to: Text) -> Text
    decreases s.len(),
{
    if s.len() == 0 || from.len() == 0 {
        s
    } else if from.is_prefix_of(s) {
        to + replaced(s.skip(from.len() as int), from, to)
    } else {
        seq![s[0]] + replaced(s.drop_first(), from, to)
    }
}

/// Replaces every `from` in `s` by `to`.
pub fn replace(s: &str, from: &str, to: &str) -> (r: String)
    requires
        from@.len() > 0,
    ensures
        r@ == replaced(s@, from@, to@),
{
    let cs = chars_of(s);
    let ps = chars_of(from);
    let mut out = String::new();
    let mut i: usize = 0;
    assert(cs@.skip(0) =~= cs@);
    assert(out@ + replaced(cs@, ps@, to@) =~= replaced(cs@, ps@, to@));
    while i < cs.len()
        invariant
            i <= cs.len(),
            ps.len() > 0,
            out@ + replaced(cs@.skip(i as int), ps@, to@) == replaced(cs@, ps@, to@),
        decreases cs.len() - i,
    {
        let ghost rest = cs@.skip(i as int);
        let ghost before = out@;
        if reads_at(&cs, i, &ps) {
            out.append(to);
            i += ps.len();
            proof {
                assert(rest.skip(ps@.len() as int) =~= cs@.skip(i as int));
                let tail = replaced(cs@.skip(i as int), ps@, to@);
                assert((before + to@) + tail =~= before + (to@ + tail));
            }
        } else {
            out.push(cs[i]);
            proof {
                assert(rest.drop_first() =~= cs@.skip(i + 1));
                let tail = replaced(cs@.skip(i + 1), ps@, to@);
                assert(before.push(rest[0]) + tail =~= before + (seq![rest[0]] + tail));
            }
            i += 1;
        }
    }
    assert(out@ + cs@.skip(i as int) =~= out@);
    out
}

/// Replaces the character `from` in `s` by `to`.
pub fn replace_char(s: &str, from: char, to: char) -> (r: String)
    ensures
        r@ == s@.map_values(|c: char| if c == from { to } else { c }),
{
    let cs = chars_of(s);
    let mut out = String::new();
    let mut i: usize = 0;
    while i < cs.len()
        invariant
            i <= cs.len(),
            out@ =~= cs@.take(i as int).map_values(|c: char| if c == from { to } else { c }),
        decreases cs.len() - i,
    {
        out.push(if cs[i] == from { to } else { cs[i] });
        i += 1;
    }
    assert(cs@.take(i as int) =~= cs@);
    out
}

/// The texts of `parts`, one after another, with `sep` between each two.
pub open spec fn joined(parts: Seq<Text>, sep: Text) -> Text
    decreases parts.len(),
{
    if parts.len() == 0 {
        Seq::empty()
    } else if parts.len() == 1 {
        parts[0]
    } else {
        joined(parts.drop_last(), sep) + sep + parts.last()
    }
}

/// Joins `parts` with `sep`.
pub fn join(parts: &Vec<String>, sep: &str) -> (r: String)
    ensures
        r@ == joined(parts.deep_view(), sep@),
{
    let mut out = String::new();
    let mut i: usize = 0;
    assert(parts.deep_view().take(0) =~= Seq::<Text>::empty());
    while i < parts.len()
        invariant
            i <= parts.len(),
            out@ == joined(parts.deep_view().take(i as int), sep@),
        decreases parts.len() - i,
    {
        let ghost next = parts.deep_view().take(i + 1);
        assert(next.drop_last() =~= parts.deep_view().take(i as int));
        if i > 0 {
            out.append(sep);
        }
        let ghost before = out@;
        out.append(parts[i].as_str());
        assert(i == 0 ==> before + parts@[0]@ =~= parts@[0]@);
        i += 1;
    }
    assert(parts.deep_view().take(i as int) =~= parts.deep_view());
    out
}

/// `n` spaces.
pub open spec fn spaces(n: nat) -> Text {
    Seq::new(n, |i: int| ' ')
}

/// `s` followed by as many spaces as bring it to `width` characters.
pub open spec fn padded(s: Text, width: nat) -> Text {
    s + spaces(if s.len() < width { (width - s.len()) as nat } else { 0 })
}

/// Pads `s` on the right to `width` characters.
pub fn pad_right(s: &str, width: usize) -> (r: String)
    ensures
        r@ == padded(s@, width as nat),
{
    let mut n: usize = s.unicode_len();
    let mut out = s.to_owned();
    assert(s@ + spaces(0) =~= s@);
    while n < width
        invariant
            n >= s@.len(),
            s@.len() <= width ==> n <= width,
            s@.len() >= width ==> n == s@.len(),
            out@ =~= s@ + spaces((n - s@.len()) as nat),
        decreases width - n,
    {
        out.push(' ');
        n += 1;
    }
    out
}

// ---------------------------------------------------------------------------
// Numbers
// ---------------------------------------------------------------------------

/// The decimal digit of value `d`.
pub open spec fn digit(d: nat) -> char {
    (d + 0x30) as char
}

/// The decimal notation of `n`, without leading zeros.
pub open spec fn decimal(n: nat) -> Text
    decreases n,
{
    if n < 10 {
        seq![digit(n)]
    } else {
        decimal(n / 10).push(digit(n % 10))
    }
}

fn push_decimal(out: &mut String, n: usize)
    ensures
        final(out)@ == old(out)@ + decimal(n as nat),
    decreases n,
{
    if n >= 10 {
        push_decimal(out, n / 10);
    }
    let ghost before = out@;
    let d = (n % 10) as u8;
    out.push((d + 0x30) as char);
    assert(out@ =~= old(out)@ + decimal(n as nat));
}

/// Writes `n` in decimal.
pub fn decimal_of(n: usize) -> (r: String)
    ensures
        r@ == decimal(n as nat),
{
    let mut out = String::new();
    push_decimal(&mut out, n);
    assert(Seq::<char>::empty() + decimal(n as nat) =~= decimal(n as nat));
    out
}

/// True if `c` is a decimal digit.
pub open spec fn is_digit(c: char) -> bool {
    0x30 <= c as int <= 0x39
}

/// True if `s` holds decimal digits only.
pub open spec fn all_digits(s: Text) -> bool {
    forall|i: int| 0 <= i < s.len() ==> is_digit(#[trigger] s[i])
}

/// The value of the digits `s`.
pub open spec fn digits_value(s: Text) -> nat
    decreases s.len(),
{
    if s.len() == 0 {
        0
    } else {
        digits_value(s.drop_last()) * 10 + (s.last() as nat - 0x30) as nat
    }
}

/// The number that `s` denotes: decimal digits, with at most one `+` before them,
/// whose value a `usize` can hold.
pub open spec fn number(s: Text) -> Option<nat> {
    let body = if s.len() > 0 && s[0] == '+' {
        s.drop_first()
    } else {
        s
    };
    if body.len() > 0 && all_digits(body) && digits_value(body) <= usize::MAX {
        Some(digits_value(body))
    } else {
        None
    }
}

proof fn lemma_digits_grow(s: Text, k: int)
    requires
        0 <= k <= s.len(),
        all_digits(s),
    ensures
        digits_value(s.take(k)) <= digits_value(s),
    decreases s.len() - k,
{
    if k == s.len() {
        assert(s.take(k) =~= s);
    } else {
        lemma_digits_grow(s, k + 1);
        assert(s.take(k + 1).drop_last() =~= s.take(k));
    }
}

/// Reads a `usize` from `s`.
pub fn parse_usize(s: &str) -> (r: Option<usize>)
    ensures
        r is Some <==> number(s@) is Some,
        r matches Some(n) ==> number(s@) == Some(n as nat),
{
    let cs = chars_of(s);
    let start: usize = if cs.len() > 0 && cs[0] == '+' {
        1
    } else {
        0
    };
    let ghost body = cs@.skip(start as int);
    assert(start == 0 ==> body =~= cs@);
    assert(start == 1 ==> body =~= cs@.drop_first());
    if start == cs.len() {
        return None;
    }
    let mut n: usize = 0;
    let mut i: usize = start;
    assert(body.take(0) =~= Seq::<char>::empty());
    while i < cs.len()
        invariant
            start <= i <= cs.len(),
            body == cs@.skip(start as int),
            start < cs.len(),
            number(s@) is Some ==> all_digits(body) && digits_value(body) <= usize::MAX,
            forall|j: int| 0 <= j < i - start ==> is_digit(#[trigger] body[j]),
            n == digits_value(body.take(i - start)),
        decreases cs.len() - i,
    {
        let c = code(cs[i]);
        assert(body[i - start] == cs@[i as int]);
        if c < 0x30 || c > 0x39 {
            assert(!is_digit(body[i - start]));
            return None;
        }
        let d = (c - 0x30) as usize;
        let ghost now = body.take(i - start);
        let ghost next = body.take(i + 1 - start);
        assert(next.drop_last() =~= now);
        assert(next.last() == cs@[i as int]);
        proof {
            if all_digits(body) {
                lemma_digits_grow(body, i + 1 - start);
            }
        }
        if n > (usize::MAX - d) / 10 {
            assert(n * 10 + d > usize::MAX) by (nonlinear_arith)
                requires
                    n > (usize::MAX - d) / 10,
                    d <= 9,
            ;
            return None;
        }
        assert(n * 10 + d <= usize::MAX) by (nonlinear_arith)
            requires
                n <= (usize::MAX - d) / 10,
                d <= 9,
        ;
        n = n * 10 + d;
        i += 1;
    }
    assert(body.take(i - start) =~= body);
    Some(n)
}

// ---------------------------------------------------------------------------
// Order
// ---------------------------------------------------------------------------

/// Dictionary order of texts, by the code points of their characters.
pub open spec fn text_le(a: Text, b: Text) -> bool
    decreases a.len(),
{
    if a.len() == 0 {
        true
    } else if b.len() == 0 {
        false
    } else if a[0] == b[0] {
        text_le(a.drop_first(), b.drop_first())
    } else {
        (a[0] as int) < (b[0] as int)
    }
}

/// True if `a` comes before `b`, or is `b`, in dictionary order.
pub fn not_after(a: &str, b: &str) -> (r: bool)
    ensures
        r == text_le(a@, b@),
{
    let x = chars_of(a);
    let y = chars_of(b);
    let mut i: usize = 0;
    assert(x@.skip(0) =~= x@ && y@.skip(0) =~= y@);
    while i < x.len() && i < y.len()
        invariant
            x@ == a@,
            y@ == b@,
            i <= x.len(),
            i <= y.len(),
            text_le(x@.skip(i as int), y@.skip(i as int)) == text_le(x@, y@),
        decreases x.len() - i,
    {
        if x[i] != y[i] {
            return code(x[i]) < code(y[i]);
        }
        assert(x@.skip(i as int).drop_first() =~= x@.skip(i + 1));
        assert(y@.skip(i as int).drop_first() =~= y@.skip(i + 1));
        i += 1;
    }
    i == x.len()
}

/// Dictionary order is reflexive.
pub proof fn lemma_text_le_reflexive(a: Text)
    ensures
        text_le(a, a),
    decreases a.len(),
{
    if a.len() > 0 {
        lemma_text_le_reflexive(a.drop_first());
    }
}

/// Dictionary order is antisymmetric.
pub proof fn lemma_text_le_antisymmetric(a: Text, b: Text)
    requires
        text_le(a, b),
        text_le(b, a),
    ensures
        a == b,
    decreases a.len(),
{
    if a.len() > 0 && b.len() > 0 {
        lemma_text_le_antisymmetric(a.drop_first(), b.drop_first());
        assert(a =~= seq![a[0]] + a.drop_first());
        assert(b =~= seq![b[0]] + b.drop_first());
    } else {
        assert(a =~= b);
    }
}

/// Dictionary order is transitive.
pub proof fn lemma_text_le_transitive(a: Text, b: Text, c: Text)
    requires
        text_le(a, b),
        text_le(b, c),
    ensures
        text_le(a, c),
    decreases a.len(),
{
    if a.len() > 0 && b.len() > 0 && c.len() > 0 && a[0] == b[0] && b[0] == c[0] {
        lemma_text_le_transitive(a.drop_first(), b.drop_first(), c.drop_first());
    }
}

/// Of two texts, one is not after the other in dictionary order.
pub proof fn lemma_text_le_total(a: Text, b: Text)
    ensures
        text_le(a, b) || text_le(b, a),
    decreases a.len(),
{
    if a.len() > 0 && b.len() > 0 && a[0] == b[0] {
        lemma_text_le_total(a.drop_first(), b.drop_first());
    }
}

} // verus!
