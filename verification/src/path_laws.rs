//! What holds of paths: joining undoes stripping, and worktrees lie side by side.

use crate::config::ConfigModel;
use crate::laws;
use crate::path;
use crate::repo;
use crate::repo::RepoModel;
use crate::template;
use crate::text;
use crate::text::Text;
use crate::transfer;
use vstd::prelude::*;

verus! {

// ---------------------------------------------------------------------------
// Spans
// ---------------------------------------------------------------------------

proof fn lemma_segment(p: Text, i: int)
    requires
        0 <= i <= p.len(),
    ensures
        ({
            let e = path::segment_end(p, i);
            &&& i <= e <= p.len()
            &&& e < p.len() ==> p[e] == '/'
            &&& forall|j: int| i <= j < e ==> p[j] != '/'
        }),
{
    let s = p.skip(i);
    text::lemma_find(s, '/');
    let e = path::segment_end(p, i);
    assert forall|j: int| i <= j < e implies p[j] != '/' by {
        assert(s[j - i] == p[j]);
    }
}

proof fn lemma_segment_is(p: Text, i: int, e: int)
    requires
        0 <= i <= e <= p.len(),
        e < p.len() ==> p[e] == '/',
        forall|j: int| i <= j < e ==> p[j] != '/',
    ensures
        path::segment_end(p, i) == e,
{
    let s = p.skip(i);
    assert forall|j: int| 0 <= j < e - i implies s[j] != '/' by {
        assert(s[j] == p[i + j]);
    }
    text::lemma_find_is(s, '/', e - i);
}

/// `list`, moved by `k`.
spec fn moved(list: Seq<(int, int)>, k: int) -> Seq<(int, int)> {
    list.map_values(|x: (int, int)| (x.0 + k, x.1 + k))
}

/// True if the segment of `p` that begins at `i` is `.`.
spec fn dot_at(p: Text, i: int) -> bool {
    path::segment_end(p, i) == i + 1 && p[i] == '.'
}

/// The same text has the same spans, wherever it stands; only `.` counts just at the
/// very beginning.
proof fn lemma_same_tail(p: Text, i: int, q: Text, k: int)
    requires
        0 <= i <= p.len(),
        0 <= i + k,
        q.len() == p.len() + k,
        forall|j: int| i <= j < p.len() ==> q[j + k] == p[j],
        (i == 0 <==> i + k == 0) || !dot_at(p, i),
    ensures
        path::spans_from(q, i + k) == moved(path::spans_from(p, i), k),
    decreases p.len() - i,
{
    let (s, t) = (path::spans_from(p, i), path::spans_from(q, i + k));
    if i < p.len() {
        let e = path::segment_end(p, i);
        lemma_segment(p, i);
        assert forall|j: int| i + k <= j < e + k implies q[j] != '/' by {
            assert(q[(j - k) + k] == p[j - k]);
        }
        if e < p.len() {
            assert(q[e + k] == p[e]);
        }
        lemma_segment_is(q, i + k, e + k);
        assert(q[i + k] == p[i]);
        assert(path::counts(p, i, e) == path::counts(q, i + k, e + k));
        if e + 1 <= p.len() {
            lemma_same_tail(p, e + 1, q, k);
        }
        let (u, v) = (path::spans_from(p, e + 1), path::spans_from(q, e + 1 + k));
        assert(v =~= moved(u, k));
        if path::counts(p, i, e) {
            assert(s == seq![(i, e)] + u);
            assert(t == seq![(i + k, e + k)] + v);
            assert(t =~= moved(s, k));
        }
    } else {
        assert(t =~= moved(s, k));
    }
}

/// From a span on, the spans are that one and those after it.
proof fn lemma_from_span(p: Text, i: int, n: int)
    requires
        0 <= i,
        0 <= n < path::spans_from(p, i).len(),
    ensures
        ({
            let s = path::spans_from(p, i);
            &&& path::spans_from(p, s[n].0) == s.skip(n)
            &&& path::spans_from(p, s[n].1 + 1) == s.skip(n + 1)
            &&& s[n].1 < p.len() ==> p[s[n].1] == '/'
            &&& path::segment_end(p, s[n].0) == s[n].1
            &&& path::counts(p, s[n].0, s[n].1)
        }),
    decreases p.len() + 1 - i,
{
    let s = path::spans_from(p, i);
    let e = path::segment_end(p, i);
    lemma_segment(p, i);
    let rest = path::spans_from(p, e + 1);
    if path::counts(p, i, e) {
        assert(s == seq![(i, e)] + rest);
        assert(s.skip(1) =~= rest);
        assert(s.skip(0) =~= s);
        if n > 0 {
            lemma_from_span(p, e + 1, n - 1);
            assert(s[n] == rest[n - 1]);
            assert(s.skip(n) =~= rest.skip(n - 1));
            assert(s.skip(n + 1) =~= rest.skip(n));
        }
    } else {
        lemma_from_span(p, e + 1, n);
    }
}

/// What follows a segment without further spans can be cut off.
proof fn lemma_cut(p: Text, i: int, z: int)
    requires
        0 <= i <= z <= p.len(),
        z < p.len() ==> p[z] == '/',
        path::spans_from(p, z + 1).len() == 0,
    ensures
        path::spans_from(p.take(z), i) == path::spans_from(p, i),
    decreases z - i,
{
    let q = p.take(z);
    if i < z {
        let e = path::segment_end(p, i);
        lemma_segment(p, i);
        assert(e <= z) by {
            if e > z {
                assert(p[z] != '/');
            }
        }
        assert(forall|j: int| i <= j < e ==> q[j] == p[j]);
        lemma_segment_is(q, i, e);
        if e < z {
            lemma_cut(p, e + 1, z);
        } else {
            assert(path::spans_from(p, e + 1) =~= path::spans_from(q, e + 1));
        }
    } else if z < p.len() {
        lemma_segment_is(p, z, z);
        assert(path::spans_from(p, z) =~= path::spans_from(q, z));
    }
}

/// A path that begins like `b` and then goes on behind a separator has the spans of
/// `b`, followed by those of the rest.
proof fn lemma_begins(b: Text, q: Text, off: int, i: int)
    requires
        0 <= i <= b.len() <= q.len(),
        forall|j: int| 0 <= j < b.len() ==> q[j] == b[j],
        (off == b.len() + 1 && b.len() < q.len() && q[b.len() as int] == '/') || (off == b.len()
            && b.len() > 0 && b.last() == '/'),
    ensures
        path::spans_from(q, i) == path::spans_from(b, i) + path::spans_from(q, off),
    decreases b.len() - i,
{
    let tail = path::spans_from(q, off);
    if i == b.len() {
        if off == b.len() + 1 {
            lemma_segment_is(q, i, i);
        }
        assert(path::spans_from(q, i) == tail);
        assert(path::spans_from(b, i) + tail =~= tail);
    } else {
        let e = path::segment_end(b, i);
        lemma_segment(b, i);
        assert(forall|j: int| i <= j < e ==> q[j] == b[j]);
        assert(e == b.len() ==> off == b.len() + 1) by {
            if e == b.len() && off == b.len() {
                assert(b[b.len() - 1] == '/');
            }
        }
        lemma_segment_is(q, i, e);
        let (u, v) = (path::spans_from(b, e + 1), path::spans_from(q, e + 1));
        if e < b.len() {
            lemma_begins(b, q, off, e + 1);
        } else {
            assert(v =~= u + tail);
        }
        assert(path::counts(b, i, e) == path::counts(q, i, e));
        if path::counts(b, i, e) {
            assert(seq![(i, e)] + (u + tail) =~= (seq![(i, e)] + u) + tail);
        }
    }
}

// ---------------------------------------------------------------------------
// Components
// ---------------------------------------------------------------------------

/// The components of a path joined to a rooted one follow the other's.
proof fn lemma_joined_components(base: Text, r: Text)
    requires
        path::rooted(base),
        !path::rooted(r),
        !dot_at(r, 0),
    ensures
        path::components(path::joined_path(base, r)) == path::components(base) + path::components(
            r,
        ),
        path::rooted(path::joined_path(base, r)),
{
    reveal_strlit("/");
    let q = path::joined_path(base, r);
    let off = q.len() - r.len();
    lemma_begins(base, q, off, 0);
    assert forall|j: int| 0 <= j < r.len() implies q[j + off] == r[j] by {}
    lemma_same_tail(r, 0, q, off);
    let (s, t, all) = (path::spans(base), path::spans(r), path::spans(q));
    assert(all == s + moved(t, off));
    path::lemma_spans(base, 0);
    path::lemma_spans(r, 0);
    let (a, b, c) = (path::components(base), path::components(r), path::components(q));
    assert forall|k: int| 0 <= k < c.len() implies c[k] == (a + b)[k] by {
        if k < s.len() {
            assert(all[k] == s[k]);
            assert(q.subrange(s[k].0, s[k].1) =~= base.subrange(s[k].0, s[k].1));
        } else {
            let x = t[k - s.len()];
            assert(all[k] == (x.0 + off, x.1 + off));
            assert(q.subrange(x.0 + off, x.1 + off) =~= r.subrange(x.0, x.1));
        }
    }
    assert(c =~= a + b);
}

/// What is stripped off a rooted path holds the remaining components, begins and
/// ends with one, and does not begin at the root.
proof fn lemma_stripped_components(p: Text, base: Text, rel: Text)
    requires
        path::rooted(p),
        path::rooted(base),
        path::below(p, base) == Some(rel),
    ensures
        path::components(p) == path::components(base) + path::components(rel),
        !path::rooted(rel),
        !dot_at(rel, 0),
        rel.len() > 0 ==> path::spans(rel).len() > 0 && path::spans(rel)[0].0 == 0 && path::spans(
            rel,
        ).last().1 == rel.len(),
{
    let s = path::spans(p);
    let n = path::spans(base).len() as int;
    path::lemma_spans(p, 0);
    let (whole, head) = (path::components(p), path::components(base));
    assert(head =~= whole.take(n));
    if n == s.len() {
        assert(path::components(rel) =~= Seq::<Text>::empty());
        assert(whole =~= head + path::components(rel));
    } else {
        let (from, to) = (s[n].0, s.last().1);
        lemma_from_span(p, 0, n);
        lemma_from_span(p, 0, s.len() - 1);
        assert(s.skip(s.len() as int).len() == 0);
        assert(from < to) by {
            if n < s.len() - 1 {
                assert(s[n].1 < s[s.len() - 1].0);
            }
        }
        lemma_segment(p, 0);
        assert(from > 0) by {
            lemma_segment_is(p, 0, 0);
            path::lemma_spans(p, 1);
            assert(s == path::spans_from(p, 1));
        }
        lemma_cut(p, from, to);
        let q = p.take(to);
        assert(rel =~= q.skip(from));
        assert forall|j: int| from <= j < q.len() implies rel[j - from] == q[j] by {}
        lemma_segment(p, from);
        assert(path::segment_end(q, from) == s[n].1) by {
            assert(s[n].1 <= to);
            lemma_segment_is(q, from, s[n].1);
        }
        assert(!dot_at(q, from));
        lemma_same_tail_back(q, from, rel);
        let t = path::spans(rel);
        assert(t =~= moved(s.skip(n), -from));
        let part = path::components(rel);
        assert forall|k: int| 0 <= k < part.len() implies part[k] == whole[n + k] by {
            let x = s[n + k];
            assert(t[k] == (x.0 - from, x.1 - from));
            if n + k < s.len() - 1 {
                assert(s[n + k].1 < s[s.len() - 1].0);
            }
            if k > 0 {
                assert(s[n].1 < s[n + k].0);
            }
            assert(rel.subrange(x.0 - from, x.1 - from) =~= p.subrange(x.0, x.1));
        }
        assert(whole =~= head + part);
        assert(t[0] == (0int, s[n].1 - from));
        assert(rel[0] == p[from]);
        assert(p[from] != '/');
        assert(dot_at(rel, 0) ==> dot_at(q, from)) by {
            if dot_at(rel, 0) {
                lemma_segment(rel, 0);
                assert(path::segment_end(rel, 0) == 1);
                assert(rel.len() > 1 ==> rel[1] == '/');
                lemma_segment_is(q, from, from + 1);
            }
        }
    }
}

/// The end of `q` from `from` on, taken as a path of its own, has the same spans.
proof fn lemma_same_tail_back(q: Text, from: int, rel: Text)
    requires
        0 < from <= q.len(),
        rel == q.skip(from),
        !dot_at(q, from),
    ensures
        path::spans(rel) == moved(path::spans_from(q, from), -from),
{
    assert forall|j: int| from <= j < q.len() implies rel[j + (-from)] == q[j] by {}
    lemma_same_tail(q, from, rel, -from);
}

/// Joining undoes stripping: what of a path lies below a directory, joined to that
/// directory, is the same path.
pub proof fn law_joining_undoes_stripping(p: Text, base: Text, rel: Text)
    requires
        path::rooted(p),
        path::rooted(base),
        path::below(p, base) == Some(rel),
    ensures
        path::same_path(path::joined_path(base, rel), p),
{
    lemma_stripped_components(p, base, rel);
    lemma_joined_components(base, rel);
}

/// A transferred file lies in the new worktree where it lies in its source: its path
/// below the one is its path below the other.
pub proof fn law_transferred_files_keep_their_place(
    source: Text,
    worktree: Text,
    mode: crate::config::Mode,
    entry: Text,
)
    requires
        path::rooted(source),
        path::rooted(worktree),
        path::rooted(entry),
        path::below(entry, source) is Some,
    ensures
        ({
            let job = transfer::job_of(source, worktree, mode, entry);
            &&& path::below(entry, source) == Some(job.rel)
            &&& path::below(job.dest, worktree) == Some(job.rel)
        }),
{
    reveal_strlit("/");
    let job = transfer::job_of(source, worktree, mode, entry);
    let (rel, dest) = (job.rel, job.dest);
    lemma_stripped_components(entry, source, rel);
    lemma_joined_components(worktree, rel);
    let (a, b) = (path::components(worktree), path::components(rel));
    assert((a + b).take(a.len() as int) =~= a);
    let off = dest.len() - rel.len();
    lemma_begins(worktree, dest, off, 0);
    assert forall|j: int| 0 <= j < rel.len() implies dest[j + off] == rel[j] by {}
    lemma_same_tail(rel, 0, dest, off);
    let (s, n) = (path::spans(dest), path::spans(worktree).len() as int);
    assert(s == path::spans(worktree) + moved(path::spans(rel), off));
    assert(path::components(worktree).is_prefix_of(path::components(dest)));
    if rel.len() == 0 {
        assert(path::spans(rel).len() == 0);
        assert(path::below(dest, worktree) == Some(Seq::<char>::empty()));
        assert(rel =~= Seq::<char>::empty());
    } else {
        let t = path::spans(rel);
        assert(s[n] == (t[0].0 + off, t[0].1 + off));
        assert(s.last() == (t.last().0 + off, t.last().1 + off));
        assert(dest.subrange(off, off + rel.len()) =~= rel);
    }
}

// ---------------------------------------------------------------------------
// Siblings
// ---------------------------------------------------------------------------

/// A component is a text without `/`.
proof fn lemma_component(p: Text, k: int)
    requires
        0 <= k < path::components(p).len(),
    ensures
        path::components(p)[k].len() > 0,
        !path::components(p)[k].contains('/'),
{
    let (s, c) = (path::spans(p)[k], path::components(p)[k]);
    path::lemma_spans(p, 0);
    lemma_from_span(p, 0, k);
    lemma_segment(p, s.0);
    if c.contains('/') {
        let j = choose|j: int| 0 <= j < c.len() && c[j] == '/';
        assert(c[j] == p[s.0 + j]);
    }
}

/// A name without `/`, other than `.`, is one component.
proof fn lemma_one_component(w: Text)
    requires
        w.len() > 0,
        !w.contains('/'),
        w != "."@,
    ensures
        path::components(w) == seq![w],
        !path::rooted(w),
        !dot_at(w, 0),
{
    assert forall|j: int| 0 <= j < w.len() implies w[j] != '/' by {
        if w[j] == '/' {
            assert(w.contains('/'));
        }
    }
    lemma_segment_is(w, 0, w.len() as int);
    assert(!dot_at(w, 0)) by {
        reveal_strlit(".");
        if dot_at(w, 0) {
            assert(w =~= "."@);
        }
    }
    assert(path::spans_from(w, w.len() + 1int) =~= Seq::<(int, int)>::empty());
    assert(path::spans(w) =~= seq![(0int, w.len() as int)]);
    assert(w.subrange(0, w.len() as int) =~= w);
    assert(path::components(w) =~= seq![w]);
}

/// The directory around a rooted path has all its components but the last.
proof fn lemma_parent_components(p: Text)
    requires
        path::rooted(p),
        path::components(p).len() > 0,
    ensures
        path::parent_path(p) matches Some(dir) && path::rooted(dir) && path::components(dir)
            == path::components(p).drop_last(),
{
    let s = path::spans(p);
    path::lemma_spans(p, 0);
    let whole = path::components(p);
    if s.len() == 1 {
        let root = p.take(1);
        lemma_segment_is(root, 0, 0);
        assert(path::spans_from(root, 1) =~= Seq::<(int, int)>::empty());
        assert(path::components(root) =~= whole.drop_last());
    } else {
        let z = s[s.len() - 2].1;
        let dir = p.take(z);
        let x = s[s.len() - 1];
        lemma_up_to_span(p, 0, s.len() - 2);
        assert(path::spans(dir) =~= s.drop_last());
        let part = path::components(dir);
        assert forall|k: int| 0 <= k < part.len() implies part[k] == whole[k] by {
            if k < s.len() - 2 {
                assert(s[k].1 < s[s.len() - 2].0);
            }
            assert(dir.subrange(s[k].0, s[k].1) =~= p.subrange(s[k].0, s[k].1));
        }
        assert(part =~= whole.drop_last());
    }
}

/// Up to the end of a span, the spans are that one and those before it.
proof fn lemma_up_to_span(p: Text, i: int, n: int)
    requires
        0 <= i,
        0 <= n < path::spans_from(p, i).len(),
    ensures
        path::spans_from(p.take(path::spans_from(p, i)[n].1), i) == path::spans_from(p, i).take(
            n + 1,
        ),
    decreases p.len() + 1 - i,
{
    let s = path::spans_from(p, i);
    let z = s[n].1;
    let q = p.take(z);
    let e = path::segment_end(p, i);
    lemma_segment(p, i);
    path::lemma_spans(p, i);
    path::lemma_spans(p, e + 1);
    let rest = path::spans_from(p, e + 1);
    let own = path::counts(p, i, e);
    if own && n == 0 {
        assert(s[0] == (i, e));
        lemma_segment_is(q, i, e);
        assert(path::spans_from(q, e + 1) =~= Seq::<(int, int)>::empty());
        assert(path::spans_from(q, i) =~= s.take(1));
    } else {
        let m = if own {
            n - 1
        } else {
            n
        };
        assert(s[n] == rest[m]);
        assert(e < z);
        lemma_segment_is(q, i, e);
        lemma_up_to_span(p, e + 1, m);
        assert(path::counts(q, i, e) == own);
        assert(path::spans_from(q, i) =~= s.take(n + 1));
    }
}

/// Without a configured template, each worktree of a repository that is not bare is a
/// sibling of the main one: it lies in the same directory, and is called after the
/// repository and the branch.
pub proof fn law_default_worktrees_are_siblings(repo: RepoModel, cfg: ConfigModel, branch: Text)
    requires
        !repo.bare,
        cfg.worktree_path is None,
        path::rooted(repo.main),
        path::components(repo.main).len() > 0,
        repo.name == repo::repo_name(repo.main, false),
        !text::occurs(template::placeholder("branch"@), repo.name),
    ensures
        ({
            let c = path::components(repo::worktree_path(repo, cfg, branch));
            &&& c.len() == path::components(repo.main).len()
            &&& c.drop_last() == path::components(repo.main).drop_last()
            &&& c.last() == repo.name + "-"@ + repo::flat(branch)
        }),
{
    let w = repo.name + "-"@ + repo::flat(branch);
    laws::law_default_place_beside_main(repo, cfg, branch);
    laws::law_flat_name_has_no_slash(branch);
    lemma_parent_components(repo.main);
    assert(repo.name.len() > 0 && !repo.name.contains('/')) by {
        reveal_strlit("repo");
        lemma_component(repo.main, path::components(repo.main).len() - 1);
    }
    let base = repo::base_dir(false, repo.main);
    reveal_strlit("-");
    assert(!w.contains('/')) by {
        if w.contains('/') {
            let k = choose|k: int| 0 <= k < w.len() && w[k] == '/';
            if k < repo.name.len() {
                assert(repo.name[k] == '/');
            } else if k > repo.name.len() {
                assert(repo::flat(branch)[k - repo.name.len() - 1] == '/');
            }
        }
    }
    assert(w != "."@) by {
        reveal_strlit(".");
    }
    lemma_one_component(w);
    lemma_joined_components(base, w);
    let c = path::components(repo::worktree_path(repo, cfg, branch));
    assert(c =~= path::components(base).push(w));
    assert(c.drop_last() =~= path::components(base));
}

/// Without a configured template, each worktree of a bare repository lies right in the
/// repository's directory, and is called after the branch.
pub proof fn law_default_worktrees_lie_in_the_bare_repository(
    repo: RepoModel,
    cfg: ConfigModel,
    branch: Text,
)
    requires
        repo.bare,
        cfg.worktree_path is None,
        path::rooted(repo.main),
        branch.len() > 0,
        branch != "."@,
    ensures
        path::components(repo::worktree_path(repo, cfg, branch)) == path::components(
            repo.main,
        ).push(repo::flat(branch)),
{
    let w = repo::flat(branch);
    laws::law_default_place_in_bare(repo, cfg, branch);
    laws::law_flat_name_has_no_slash(branch);
    assert(w != "."@) by {
        reveal_strlit(".");
        if w == "."@ {
            assert(w[0] == (if branch[0] == '/' { '-' } else { branch[0] }));
            assert(branch =~= "."@);
        }
    }
    lemma_one_component(w);
    lemma_joined_components(repo.main, w);
    assert(path::components(repo.main) + seq![w] =~= path::components(repo.main).push(w));
}

// ---------------------------------------------------------------------------
// Names and directories
// ---------------------------------------------------------------------------

/// True if `name` names one directory or file: it is not empty, is not `.`, and has no `/`.
pub open spec fn is_name(name: Text) -> bool {
    name.len() > 0 && name != "."@ && !name.contains('/')
}

proof fn lemma_last_span(e: Text, n: Text)
    requires
        is_name(n),
    ensures
        path::spans(e + seq!['/'] + n) == path::spans(e).push(
            (e.len() + 1int, e.len() + 1int + n.len()),
        ),
        path::components(e + seq!['/'] + n) == path::components(e).push(n),
{
    reveal_strlit(".");
    let p = e + seq!['/'] + n;
    let off: int = e.len() + 1int;
    lemma_begins(e, p, off, 0);
    assert forall|j: int| off <= j < p.len() implies p[j] != '/' by {
        assert(p[j] == n[j - off]);
        assert(n.contains(n[j - off]));
    }
    lemma_segment_is(p, off, p.len() as int);
    if n.len() == 1 {
        assert(p[off] == n[0]);
        if n[0] == '.' {
            assert(n =~= "."@);
        }
    }
    let own = (off, p.len() as int);
    assert(path::spans_from(p, p.len() + 1int) =~= Seq::<(int, int)>::empty());
    assert(path::spans_from(p, off) =~= seq![own]);
    assert(path::spans(p) =~= path::spans(e).push(own));
    path::lemma_spans(e, 0);
    let (whole, part) = (path::components(p), path::components(e).push(n));
    assert forall|k: int| 0 <= k < whole.len() implies whole[k] == part[k] by {
        let x = path::spans(p)[k];
        if k < path::spans(e).len() {
            assert(x == path::spans(e)[k]);
            assert(p.subrange(x.0, x.1) =~= e.subrange(x.0, x.1));
        } else {
            assert(p.subrange(x.0, x.1) =~= n);
        }
    }
    assert(whole =~= part);
}

/// The last component of a path is what stands behind its last `/`, and the others are
/// those before it. It is the path's own name, unless it is `..`; a path without components
/// has no name.
pub proof fn law_last_component(e: Text, n: Text)
    requires
        is_name(n),
    ensures
        path::components(e + seq!['/'] + n) == path::components(e).push(n),
        path::components(n) == seq![n],
        n != ".."@ ==> path::base_name(e + seq!['/'] + n) == Some(n),
        n != ".."@ ==> path::base_name(n) == Some(n),
        n == ".."@ ==> path::base_name(e + seq!['/'] + n) is None && path::base_name(n) is None,
        path::components(Seq::empty()) == Seq::<Text>::empty(),
        forall|p: Text| path::components(p).len() == 0 ==> #[trigger] path::base_name(p) is None,
{
    lemma_last_span(e, n);
    lemma_one_component(n);
    assert(path::components(Seq::empty()) =~= Seq::<Text>::empty());
}

/// A `/` at the end does not make another path.
pub proof fn law_trailing_slash(p: Text)
    requires
        p.len() > 0,
    ensures
        path::components(p + seq!['/']) == path::components(p),
        path::same_path(p + seq!['/'], p),
{
    let q = p + seq!['/'];
    lemma_begins(p, q, q.len() as int, 0);
    assert(path::spans_from(q, q.len() as int) =~= Seq::<(int, int)>::empty());
    assert(path::spans(q) =~= path::spans(p));
    path::lemma_spans(p, 0);
    let (a, b) = (path::components(q), path::components(p));
    assert forall|k: int| 0 <= k < a.len() implies a[k] == b[k] by {
        let x = path::spans(p)[k];
        assert(q.subrange(x.0, x.1) =~= p.subrange(x.0, x.1));
    }
    assert(a =~= b);
}

/// Two paths are the same exactly if both or none begin at the root, and their components
/// are the same.
pub proof fn law_same_path(a: Text, b: Text)
    ensures
        path::same_path(a, b) <==> (a.len() > 0 && a[0] == '/') == (b.len() > 0 && b[0] == '/')
            && path::components(a) == path::components(b),
{
}

/// The directory around a path is what stands before its last `/`.
pub proof fn law_parent(e: Text, m: Text, n: Text)
    requires
        is_name(m),
        is_name(n),
    ensures
        path::parent_path(e + seq!['/'] + m + seq!['/'] + n) == Some(e + seq!['/'] + m),
        path::parent_path(m + seq!['/'] + n) == Some(m),
        path::parent_path(seq!['/'] + n) == Some(seq!['/']),
        path::parent_path(n) == Some(Seq::<char>::empty()),
{
    let d = e + seq!['/'] + m;
    let p = d + seq!['/'] + n;
    lemma_last_span(e, m);
    lemma_last_span(d, n);
    assert(p.take(d.len() as int) =~= d);
    let none = Seq::<char>::empty();
    let q = m + seq!['/'] + n;
    lemma_one_component(m);
    lemma_last_span(m, n);
    assert(path::spans(m).len() == path::components(m).len());
    assert(path::spans(m).len() == 1);
    path::lemma_spans(m, 0);
    let x = path::spans(m)[0];
    assert(path::components(m)[0] == m.subrange(x.0, x.1));
    assert(x.1 == m.len());
    assert(q.take(m.len() as int) =~= m);
    lemma_last_span(none, n);
    assert(none + seq!['/'] + n =~= seq!['/'] + n);
    assert(path::spans(none) =~= Seq::<(int, int)>::empty());
    assert((seq!['/'] + n).take(1) =~= seq!['/']);
    lemma_one_component(n);
    assert(path::spans(n).len() == path::components(n).len());
    assert(n.contains(n[0]));
}

/// A path is taken below a directory, with one `/` between, unless it begins at the root:
/// then it stays as it is.
pub proof fn law_joined_paths(base: Text, p: Text)
    ensures
        p.len() > 0 && p[0] == '/' ==> path::joined_path(base, p) == p,
        (p.len() == 0 || p[0] != '/') && base.len() > 0 && base.last() != '/'
            ==> path::joined_path(base, p) == base + seq!['/'] + p,
        (p.len() == 0 || p[0] != '/') && base.len() > 0 && base.last() == '/'
            ==> path::joined_path(base, p) == base + p,
        (p.len() == 0 || p[0] != '/') && base.len() == 0 ==> path::joined_path(base, p) == p,
{
    reveal_strlit("/");
    assert("/"@ =~= seq!['/']);
    assert(Seq::<char>::empty() + p =~= p);
    assert(base.len() == 0 ==> base + p =~= p);
}

/// A path lies below a directory exactly if the components of the directory are its first
/// ones; what lies below has the others.
pub proof fn law_what_lies_below(p: Text, base: Text)
    requires
        p.len() > 0 && p[0] == '/',
        base.len() > 0 && base[0] == '/',
    ensures
        path::below(p, base) is Some <==> path::components(base).is_prefix_of(path::components(p)),
        path::below(p, base) matches Some(rel) ==> path::components(p) == path::components(base)
            + path::components(rel),
{
    if let Some(rel) = path::below(p, base) {
        lemma_stripped_components(p, base, rel);
    }
}

/// What lies right below a directory is its own name, and what lies two below is the two
/// names with a `/` between.
pub proof fn law_names_below(base: Text, m: Text, n: Text)
    requires
        is_name(m),
        is_name(n),
    ensures
        path::below(base + seq!['/'] + m, base) == (if base.len() == 0 {
            Some(seq!['/'] + m)
        } else {
            Some(m)
        }),
        base.len() > 0 ==> path::below(base + seq!['/'] + m + seq!['/'] + n, base) == Some(
            m + seq!['/'] + n,
        ),
        base.len() > 0 ==> path::below(base, base) == Some(Seq::<char>::empty()),
{
    let p = base + seq!['/'] + m;
    let q = p + seq!['/'] + n;
    lemma_last_span(base, m);
    lemma_last_span(p, n);
    let c = path::components(base);
    assert(c.is_prefix_of(c.push(m))) by {
        assert(c.push(m).subrange(0, c.len() as int) =~= c);
    }
    assert(c.is_prefix_of(c.push(m).push(n))) by {
        assert(c.push(m).push(n).subrange(0, c.len() as int) =~= c);
    }
    let k = path::spans(base).len() as int;
    assert(path::spans(p)[k] == (base.len() + 1int, base.len() + 1int + m.len()));
    if base.len() > 0 {
        assert(p[0] == base[0] && q[0] == base[0]);
        assert(p.subrange(base.len() + 1int, p.len() as int) =~= m);
        assert(path::spans(q)[k] == path::spans(p)[k]);
        assert(q.subrange(base.len() + 1int, q.len() as int) =~= m + seq!['/'] + n);
    } else {
        assert(path::spans(base) =~= Seq::<(int, int)>::empty());
        assert(p.take(p.len() as int) =~= p);
        assert(p =~= seq!['/'] + m);
    }
}

/// A segment `.` is no component, but for the very first.
pub proof fn law_dots(e: Text)
    ensures
        path::components(e + seq!['/', '.']) == path::components(e),
        path::components(seq!['.']) == seq![seq!['.']],
{
    let p = e + seq!['/', '.'];
    let off: int = e.len() + 1int;
    lemma_begins(e, p, off, 0);
    lemma_segment_is(p, off, p.len() as int);
    assert(path::spans_from(p, p.len() + 1int) =~= Seq::<(int, int)>::empty());
    assert(path::spans_from(p, off) =~= Seq::<(int, int)>::empty());
    assert(path::spans(p) =~= path::spans(e));
    path::lemma_spans(e, 0);
    let (a, b) = (path::components(p), path::components(e));
    assert forall|k: int| 0 <= k < a.len() implies a[k] == b[k] by {
        let x = path::spans(e)[k];
        assert(p.subrange(x.0, x.1) =~= e.subrange(x.0, x.1));
    }
    assert(a =~= b);
    let d = seq!['.'];
    lemma_segment_is(d, 0, 1);
    assert(path::spans_from(d, 2) =~= Seq::<(int, int)>::empty());
    assert(path::spans(d) =~= seq![(0int, 1int)]);
    assert(d.subrange(0, 1) =~= d);
    assert(path::components(d) =~= seq![d]);
}

/// The directory around a path has all its components but the last, however the path is
/// written; the root has no directory around it.
pub proof fn law_parent_components(p: Text)
    requires
        p.len() > 0 && p[0] == '/',
    ensures
        path::components(p).len() > 0 ==> (path::parent_path(p) matches Some(dir) && dir.len() > 0
            && dir[0] == '/' && path::components(dir) == path::components(p).drop_last()),
        path::components(p).len() == 0 ==> path::parent_path(p) is None,
{
    if path::components(p).len() > 0 {
        lemma_parent_components(p);
    }
}

} // verus!
