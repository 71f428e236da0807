//! What holds of stacks: of lineages, of children, and of the ways along a stack.

use crate::config::ConfigModel;
use crate::error::Error;
use crate::git;
use crate::git::{Known, Stop, StopModel, Topic};
use crate::nav;
use crate::nav::{Move, Nav, NavStep};
use crate::porcelain;
use crate::porcelain::{TipModel, WorktreeModel};
use crate::repo;
use crate::repo::RepoModel;
use crate::stack;
use crate::stack::{Children, StackModel};
use crate::text;
use crate::text::Text;
use vstd::prelude::*;

verus! {

// ---------------------------------------------------------------------------
// Lineage
// ---------------------------------------------------------------------------

/// True if `name` is a branch at a commit that is not the trunk's tip.
pub open spec fn off_trunk(st: StackModel, name: Text) -> bool {
    exists|sha: Text|
        (#[trigger] porcelain::branches_at(st.tips, sha)).contains(name)
            && !porcelain::branches_at(st.tips, sha).contains(st.trunk)
}

proof fn lemma_first_among(names: Seq<Text>, preferred: Seq<Text>)
    ensures
        stack::first_among(names, preferred) matches Some(n) ==> names.contains(n)
            && preferred.contains(n),
        stack::first_among(names, preferred) is None ==> forall|i: int|
            0 <= i < names.len() ==> !preferred.contains(#[trigger] names[i]),
    decreases names.len(),
{
    if names.len() > 0 {
        let rest = names.drop_first();
        lemma_first_among(rest, preferred);
        assert(forall|i: int| 0 <= i < rest.len() ==> rest[i] == names[i + 1]);
        if preferred.contains(names[0]) {
            assert(names.contains(names[0]));
        } else {
            match stack::first_among(rest, preferred) {
                Some(n) => {
                    let k = choose|k: int| 0 <= k < rest.len() && rest[k] == n;
                    assert(names[k + 1] == n);
                },
                None => {
                    assert forall|i: int| 0 <= i < names.len() implies !preferred.contains(
                        #[trigger] names[i],
                    ) by {
                        if i > 0 {
                            assert(names[i] == rest[i - 1]);
                        }
                    }
                },
            }
        }
    }
}

proof fn lemma_level(st: StackModel, sha: Text)
    ensures
        stack::level(st, sha) matches Some(n) ==> n != st.trunk && porcelain::branches_at(
            st.tips,
            sha,
        ).contains(n) && off_trunk(st, n),
{
    let names = porcelain::branches_at(st.tips, sha);
    lemma_first_among(names, st.checked_out);
    if let Some(n) = stack::level(st, sha) {
        if n == names[0] {
            assert(names.contains(names[0]));
        }
        assert(names.contains(n));
    }
}

/// A commit is represented by a branch with a worktree, if one of those at it has one.
pub proof fn law_worktrees_are_preferred(st: StackModel, sha: Text, name: Text)
    requires
        stack::level(st, sha) is Some,
        porcelain::branches_at(st.tips, sha).contains(name),
        st.checked_out.contains(name),
    ensures
        st.checked_out.contains(stack::level(st, sha)->Some_0),
{
    let names = porcelain::branches_at(st.tips, sha);
    lemma_first_among(names, st.checked_out);
    let k = choose|k: int| 0 <= k < names.len() && names[k] == name;
    assert(st.checked_out.contains(names[k]));
}

/// True if `name` represents one of the commits `revs`.
pub open spec fn stands_for(st: StackModel, revs: Seq<Text>, name: Text) -> bool {
    exists|k: int|
        0 <= k < revs.len() && stack::level(st, stack::unmarked(#[trigger] revs[k])) == Some(name)
}

proof fn lemma_descend(st: StackModel, chain: Seq<Text>, revs: Seq<Text>)
    requires
        chain.no_duplicates(),
        !chain.contains(st.trunk),
    ensures
        ({
            let out = stack::descend(st, chain, revs);
            &&& out.len() >= chain.len()
            &&& out.take(chain.len() as int) == chain
            &&& out.no_duplicates()
            &&& !out.contains(st.trunk)
            &&& forall|i: int| chain.len() <= i < out.len() ==> off_trunk(st, #[trigger] out[i])
            &&& forall|i: int|
                chain.len() <= i < out.len() ==> stands_for(st, revs, #[trigger] out[i])
            &&& forall|n: Text| #[trigger] stands_for(st, revs, n) ==> out.contains(n)
        }),
    decreases revs.len(),
{
    if revs.len() == 0 {
        assert(chain.take(chain.len() as int) =~= chain);
    } else {
        let sha = stack::unmarked(revs[0]);
        lemma_level(st, sha);
        let next = match stack::level(st, sha) {
            Some(name) => if chain.contains(name) {
                chain
            } else {
                chain.push(name)
            },
            None => chain,
        };
        assert(!next.contains(st.trunk)) by {
            if next.contains(st.trunk) {
                let k = choose|k: int| 0 <= k < next.len() && next[k] == st.trunk;
                if k < chain.len() {
                    assert(chain[k] == st.trunk);
                }
            }
        }
        assert(next.no_duplicates()) by {
            assert forall|i: int, j: int|
                0 <= i < next.len() && 0 <= j < next.len() && i != j implies next[i]
                != next[j] by {
                if next.len() > chain.len() {
                    if i < chain.len() {
                        assert(chain.contains(chain[i]));
                    }
                    if j < chain.len() {
                        assert(chain.contains(chain[j]));
                    }
                }
            }
        }
        lemma_descend(st, next, revs.drop_first());
        let out = stack::descend(st, chain, revs);
        assert(out == stack::descend(st, next, revs.drop_first()));
        assert(forall|i: int| 0 <= i < next.len() ==> out[i] == out.take(next.len() as int)[i]);
        assert(out.take(chain.len() as int) =~= chain);
        assert forall|i: int| chain.len() <= i < out.len() implies off_trunk(
            st,
            #[trigger] out[i],
        ) by {
            if i < next.len() {
                assert(out[i] == next[i]);
            }
        }
        let rest = revs.drop_first();
        assert forall|i: int| chain.len() <= i < out.len() implies stands_for(
            st,
            revs,
            #[trigger] out[i],
        ) by {
            if i < next.len() {
                assert(out[i] == next[i]);
                assert(stack::level(st, stack::unmarked(revs[0])) == Some(out[i]));
            } else {
                assert(stands_for(st, rest, out[i]));
                let k = choose|k: int|
                    0 <= k < rest.len() && stack::level(
                        st,
                        stack::unmarked(#[trigger] rest[k]),
                    ) == Some(out[i]);
                assert(revs[k + 1] == rest[k]);
            }
        }
        assert forall|n: Text| #[trigger] stands_for(st, revs, n) implies out.contains(n) by {
            let k = choose|k: int|
                0 <= k < revs.len() && stack::level(st, stack::unmarked(#[trigger] revs[k]))
                    == Some(n);
            if k == 0 {
                assert(next.contains(n)) by {
                    if !chain.contains(n) {
                        assert(next[chain.len() as int] == n);
                    }
                }
                let j = choose|j: int| 0 <= j < next.len() && next[j] == n;
                assert(out[j] == next[j]);
            } else {
                assert(rest[k - 1] == revs[k]);
                assert(stands_for(st, rest, n));
            }
        }
    }
}

proof fn lemma_chain_of(st: StackModel, branch: Text, revs: Seq<Text>)
    requires
        branch != st.trunk,
    ensures
        ({
            let chain = stack::chain_of(st, branch, revs);
            &&& chain.len() > 1
            &&& chain.last() == branch
            &&& chain[0] == st.trunk
            &&& chain.no_duplicates()
            &&& forall|i: int| 0 < i < chain.len() - 1 ==> off_trunk(st, #[trigger] chain[i])
            &&& forall|i: int|
                0 < i < chain.len() - 1 ==> stands_for(st, revs.skip(1), #[trigger] chain[i])
            &&& forall|n: Text| #[trigger]
                stands_for(st, revs.skip(1), n) && revs.len() > 0 ==> chain.contains(n)
        }),
{
    let older = if revs.len() == 0 {
        revs
    } else {
        revs.drop_first()
    };
    let first = seq![branch];
    let down = stack::descend(st, first, older);
    lemma_descend(st, first, older);
    assert(down[0] == down.take(1)[0]);
    let chain = stack::chain_of(st, branch, revs);
    assert forall|i: int, j: int|
        0 <= i < chain.len() && 0 <= j < chain.len() && i != j implies chain[i] != chain[j] by {
        if i == 0 {
            assert(down.contains(chain[j]));
        } else if j == 0 {
            assert(down.contains(chain[i]));
        }
    }
    assert forall|i: int| 0 < i < chain.len() - 1 implies off_trunk(st, #[trigger] chain[i]) by {
        assert(chain[i] == down[down.len() - i]);
    }
    if revs.len() > 0 {
        assert(older =~= revs.skip(1));
    } else {
        assert(down == first);
    }
    assert forall|i: int| 0 < i < chain.len() - 1 implies stands_for(
        st,
        revs.skip(1),
        #[trigger] chain[i],
    ) by {
        assert(chain[i] == down[down.len() - i]);
    }
    assert forall|n: Text| #[trigger]
        stands_for(st, revs.skip(1), n) && revs.len() > 0 implies chain.contains(n) by {
        let j = choose|j: int| 0 <= j < down.len() && down[j] == n;
        assert(chain[down.len() - j] == n);
    }
}

/// A lineage ends with the branch itself and names no branch twice. It begins with
/// the trunk, unless the branch is the trunk or has no history in common with it:
/// then it stands alone. All branches between have their tips elsewhere than at the
/// trunk's own tip.
pub proof fn law_lineage_shape(known: Known, st: StackModel, branch: Text, chain: Seq<Text>)
    requires
        stack::lineage_of(known, st, branch) == Ok::<Seq<Text>, StopModel>(chain),
    ensures
        chain.len() > 0,
        chain.last() == branch,
        chain.no_duplicates(),
        chain.len() == 1 <==> (branch == st.trunk || stack::related(
            known,
            st.dir,
            st.trunk,
            branch,
        ) == Ok::<bool, StopModel>(false)),
        chain.len() > 1 ==> chain[0] == st.trunk,
        forall|i: int| 0 < i < chain.len() - 1 ==> off_trunk(st, #[trigger] chain[i]),
{
    if branch != st.trunk && stack::related(known, st.dir, st.trunk, branch) == Ok::<
        bool,
        StopModel,
    >(true) {
        let revs = match git::optional(
            known,
            git::query(Topic::StackRevs, st.dir, st.trunk, branch),
        ) {
            Ok(Some(out)) => text::lines_of(out),
            _ => Seq::empty(),
        };
        lemma_chain_of(st, branch, revs);
    }
}

/// A lineage names the branches that represent the commits from below the branch's
/// own tip down to where it left the trunk: all of these, and no others in between.
/// So a branch without a commit of its own is not stacked on those at the same commit.
pub proof fn law_lineage_follows_the_commits(
    known: Known,
    st: StackModel,
    branch: Text,
    revs: Seq<Text>,
    chain: Seq<Text>,
)
    requires
        branch != st.trunk,
        stack::related(known, st.dir, st.trunk, branch) == Ok::<bool, StopModel>(true),
        git::optional(
            known,
            git::query(Topic::StackRevs, st.dir, st.trunk, branch),
        ) matches Ok(Some(out)) && revs == text::lines_of(out),
        revs.len() > 0,
        stack::lineage_of(known, st, branch) == Ok::<Seq<Text>, StopModel>(chain),
    ensures
        forall|i: int|
            0 < i < chain.len() - 1 ==> stands_for(st, revs.skip(1), #[trigger] chain[i]),
        forall|n: Text| #[trigger] stands_for(st, revs.skip(1), n) ==> chain.contains(n),
{
    lemma_chain_of(st, branch, revs);
}

/// True if the commit `revs[k]` is the first of `revs`, from `from` on, that `name`
/// represents.
pub open spec fn first_at(st: StackModel, revs: Seq<Text>, from: int, k: int, name: Text) -> bool {
    &&& from <= k < revs.len()
    &&& stack::level(st, stack::unmarked(revs[k])) == Some(name)
    &&& forall|j: int|
        from <= j < k ==> stack::level(st, stack::unmarked(#[trigger] revs[j])) != Some(name)
}

proof fn lemma_descend_order(
    st: StackModel,
    chain: Seq<Text>,
    revs: Seq<Text>,
    p: int,
    q: int,
    k: int,
    l: int,
)
    requires
        chain.no_duplicates(),
        !chain.contains(st.trunk),
        chain.len() <= p < stack::descend(st, chain, revs).len(),
        chain.len() <= q < stack::descend(st, chain, revs).len(),
        first_at(st, revs, 0, k, stack::descend(st, chain, revs)[p]),
        first_at(st, revs, 0, l, stack::descend(st, chain, revs)[q]),
        k < l,
    ensures
        p < q,
    decreases revs.len(),
{
    let out = stack::descend(st, chain, revs);
    let rest = revs.drop_first();
    let own = stack::level(st, stack::unmarked(revs[0]));
    let next = match own {
        Some(name) => if chain.contains(name) {
            chain
        } else {
            chain.push(name)
        },
        None => chain,
    };
    lemma_descend(st, chain, revs);
    lemma_level(st, stack::unmarked(revs[0]));
    assert(next.no_duplicates() && !next.contains(st.trunk)) by {
        if next.len() > chain.len() {
            assert forall|i: int, j: int|
                0 <= i < next.len() && 0 <= j < next.len() && i != j implies next[i]
                != next[j] by {
                if i < chain.len() {
                    assert(chain.contains(chain[i]));
                }
                if j < chain.len() {
                    assert(chain.contains(chain[j]));
                }
            }
            if next.contains(st.trunk) {
                let m = choose|m: int| 0 <= m < next.len() && next[m] == st.trunk;
                if m < chain.len() {
                    assert(chain[m] == st.trunk);
                }
            }
        }
    }
    assert(out == stack::descend(st, next, rest));
    lemma_descend(st, next, rest);
    assert(forall|i: int| 0 <= i < next.len() ==> out[i] == out.take(next.len() as int)[i]);
    assert(p != q);
    if p < next.len() {
    } else if q < next.len() {
        assert(out[q] == next[q]);
        assert(own == Some(out[q]));
    } else {
        if k == 0 {
            assert(own == Some(out[p]));
            assert(next.contains(out[p])) by {
                if !chain.contains(out[p]) {
                    assert(next[chain.len() as int] == out[p]);
                }
            }
            let m = choose|m: int| 0 <= m < next.len() && next[m] == out[p];
            assert(out[m] == out[p]);
        }
        assert(forall|j: int| 0 <= j < rest.len() ==> rest[j] == revs[j + 1]);
        assert(first_at(st, rest, 0, k - 1, out[p])) by {
            assert forall|j: int| 0 <= j < k - 1 implies stack::level(
                st,
                stack::unmarked(#[trigger] rest[j]),
            ) != Some(out[p]) by {
                assert(rest[j] == revs[j + 1]);
            }
        }
        assert(first_at(st, rest, 0, l - 1, out[q])) by {
            assert forall|j: int| 0 <= j < l - 1 implies stack::level(
                st,
                stack::unmarked(#[trigger] rest[j]),
            ) != Some(out[q]) by {
                assert(rest[j] == revs[j + 1]);
            }
        }
        lemma_descend_order(st, next, rest, p, q, k - 1, l - 1);
    }
}

/// A lineage is in the order of the commits, the oldest first: of two branches between
/// the trunk and the branch, the one that represents the newer commit stands nearer to
/// the branch. `revs` runs from the branch's tip down, so that a later place is an older
/// commit; a branch counts where it comes first.
pub proof fn law_lineage_order(
    known: Known,
    st: StackModel,
    branch: Text,
    revs: Seq<Text>,
    chain: Seq<Text>,
    i: int,
    j: int,
    k: int,
    l: int,
)
    requires
        branch != st.trunk,
        stack::related(known, st.dir, st.trunk, branch) == Ok::<bool, StopModel>(true),
        git::optional(
            known,
            git::query(Topic::StackRevs, st.dir, st.trunk, branch),
        ) matches Ok(Some(out)) && revs == text::lines_of(out),
        stack::lineage_of(known, st, branch) == Ok::<Seq<Text>, StopModel>(chain),
        0 < i < chain.len() - 1,
        0 < j < chain.len() - 1,
        first_at(st, revs, 1, k, chain[i]),
        first_at(st, revs, 1, l, chain[j]),
    ensures
        k < l <==> j < i,
        k == l <==> i == j,
{
    if k < l {
        lemma_chain_order(st, branch, revs, i, j, k, l);
    } else if l < k {
        lemma_chain_order(st, branch, revs, j, i, l, k);
    } else {
        lemma_chain_of(st, branch, revs);
    }
}

proof fn lemma_chain_order(
    st: StackModel,
    branch: Text,
    revs: Seq<Text>,
    i: int,
    j: int,
    k: int,
    l: int,
)
    requires
        branch != st.trunk,
        0 < i < stack::chain_of(st, branch, revs).len() - 1,
        0 < j < stack::chain_of(st, branch, revs).len() - 1,
        first_at(st, revs, 1, k, stack::chain_of(st, branch, revs)[i]),
        first_at(st, revs, 1, l, stack::chain_of(st, branch, revs)[j]),
        k < l,
    ensures
        j < i,
{
    let chain = stack::chain_of(st, branch, revs);
    let older = revs.drop_first();
    let down = stack::descend(st, seq![branch], older);
    assert(chain[i] == down[down.len() - i] && chain[j] == down[down.len() - j]);
    assert(forall|m: int| 0 <= m < older.len() ==> older[m] == revs[m + 1]);
    assert(first_at(st, older, 0, k - 1, chain[i])) by {
        assert forall|m: int| 0 <= m < k - 1 implies stack::level(
            st,
            stack::unmarked(#[trigger] older[m]),
        ) != Some(chain[i]) by {
            assert(older[m] == revs[m + 1]);
        }
    }
    assert(first_at(st, older, 0, l - 1, chain[j])) by {
        assert forall|m: int| 0 <= m < l - 1 implies stack::level(
            st,
            stack::unmarked(#[trigger] older[m]),
        ) != Some(chain[j]) by {
            assert(older[m] == revs[m + 1]);
        }
    }
    lemma_descend_order(
        st,
        seq![branch],
        older,
        down.len() - i,
        down.len() - j,
        k - 1,
        l - 1,
    );
}

proof fn lemma_first_at(st: StackModel, revs: Seq<Text>, from: int, k: int, name: Text) -> (m: int)
    requires
        0 <= from <= k < revs.len(),
        stack::level(st, stack::unmarked(revs[k])) == Some(name),
    ensures
        m <= k,
        first_at(st, revs, from, m, name),
    decreases k,
{
    if exists|j: int|
        from <= j < k && stack::level(st, stack::unmarked(#[trigger] revs[j])) == Some(name) {
        let j = choose|j: int|
            from <= j < k && stack::level(st, stack::unmarked(#[trigger] revs[j])) == Some(name);
        lemma_first_at(st, revs, from, j, name)
    } else {
        k
    }
}

/// `down` leads to the branch that represents the newest commit below the branch's own
/// tip, of those that another branch represents, and `bottom` to the one that represents
/// the oldest.
pub proof fn law_down_is_the_next_commit(
    known: Known,
    st: StackModel,
    branch: Text,
    revs: Seq<Text>,
    k: int,
    other: Text,
)
    requires
        branch != st.trunk,
        stack::related(known, st.dir, st.trunk, branch) == Ok::<bool, StopModel>(true),
        git::optional(
            known,
            git::query(Topic::StackRevs, st.dir, st.trunk, branch),
        ) matches Ok(Some(out)) && revs == text::lines_of(out),
        1 <= k < revs.len(),
        stack::level(st, stack::unmarked(revs[k])) == Some(other),
        other != branch,
    ensures
        (forall|m: int|
            1 <= m < k ==> {
                let own = stack::level(st, stack::unmarked(#[trigger] revs[m]));
                own is None || own == Some(branch)
            }) ==> nav::down_step(known, st, branch) == go(other),
        first_at(st, revs, 1, k, other) && (forall|m: int|
            k < m < revs.len() ==> {
                let own = stack::level(st, stack::unmarked(#[trigger] revs[m]));
                own is None || own == Some(branch) || exists|e: int|
                    1 <= e <= k && stack::level(st, stack::unmarked(#[trigger] revs[e])) == own
            }) ==> nav::bottom_step(known, st, branch) == go(other),
{
    let chain = stack::chain_of(st, branch, revs);
    lemma_chain_of(st, branch, revs);
    assert(revs.skip(1)[k - 1] == revs[k]);
    assert(stands_for(st, revs.skip(1), other));
    let at = choose|at: int| 0 <= at < chain.len() && chain[at] == other;
    lemma_level(st, stack::unmarked(revs[k]));
    assert(0 < at < chain.len() - 1);
    let last = chain.len() - 2;
    if forall|m: int|
        1 <= m < k ==> {
            let own = stack::level(st, stack::unmarked(#[trigger] revs[m]));
            own is None || own == Some(branch)
        } {
        assert(first_at(st, revs, 1, k, other));
        if at != last {
            let name = chain[last];
            assert(stands_for(st, revs.skip(1), name));
            let e = choose|e: int|
                0 <= e < revs.skip(1).len() && stack::level(
                    st,
                    stack::unmarked(#[trigger] revs.skip(1)[e]),
                ) == Some(name);
            assert(revs.skip(1)[e] == revs[e + 1]);
            let l = lemma_first_at(st, revs, 1, e + 1, name);
            assert(chain[last] != chain[chain.len() - 1]);
            assert(chain[last] != chain[at]);
            assert(k < l);
            lemma_chain_order(st, branch, revs, at, last, k, l);
        }
    }
    if first_at(st, revs, 1, k, other) && (forall|m: int|
        k < m < revs.len() ==> {
            let own = stack::level(st, stack::unmarked(#[trigger] revs[m]));
            own is None || own == Some(branch) || exists|e: int|
                1 <= e <= k && stack::level(st, stack::unmarked(#[trigger] revs[e])) == own
        }) {
        if at != 1 {
            let name = chain[1];
            assert(stands_for(st, revs.skip(1), name));
            let e = choose|e: int|
                0 <= e < revs.skip(1).len() && stack::level(
                    st,
                    stack::unmarked(#[trigger] revs.skip(1)[e]),
                ) == Some(name);
            assert(revs.skip(1)[e] == revs[e + 1]);
            assert(chain[1] != chain[chain.len() - 1]);
            assert(chain[1] != chain[at]);
            let early = if e + 1 <= k {
                e + 1
            } else {
                choose|c: int|
                    1 <= c <= k && stack::level(st, stack::unmarked(#[trigger] revs[c])) == Some(
                        name,
                    )
            };
            let l = lemma_first_at(st, revs, 1, early, name);
            assert(l < k);
            lemma_chain_order(st, branch, revs, 1, at, l, k);
        }
        assert(chain[1] != chain[chain.len() - 1]);
    }
}

/// A branch sits right on the trunk if no other branch represents a commit below its tip:
/// its lineage is the trunk and itself, and `down` leads to the trunk.
pub proof fn law_lineage_of_a_base(known: Known, st: StackModel, branch: Text)
    requires
        branch != st.trunk,
        stack::related(known, st.dir, st.trunk, branch) == Ok::<bool, StopModel>(true),
        match git::optional(known, git::query(Topic::StackRevs, st.dir, st.trunk, branch)) {
            Ok(Some(out)) => forall|m: int|
                1 <= m < text::lines_of(out).len() ==> {
                    let own = stack::level(st, stack::unmarked(#[trigger] text::lines_of(out)[m]));
                    own is None || own == Some(branch)
                },
            Ok(None) => true,
            Err(stop) => false,
        },
    ensures
        stack::lineage_of(known, st, branch) == Ok::<Seq<Text>, StopModel>(seq![st.trunk, branch]),
        nav::down_step(known, st, branch) == go(st.trunk),
{
    let revs = match git::optional(
        known,
        git::query(Topic::StackRevs, st.dir, st.trunk, branch),
    ) {
        Ok(Some(out)) => text::lines_of(out),
        _ => Seq::empty(),
    };
    let chain = stack::chain_of(st, branch, revs);
    lemma_chain_of(st, branch, revs);
    if chain.len() > 2 {
        let rest = revs.skip(1);
        assert(stands_for(st, rest, chain[1]));
        let k = choose|k: int|
            0 <= k < rest.len() && stack::level(st, stack::unmarked(#[trigger] rest[k])) == Some(
                chain[1],
            );
        assert(rest[k] == revs[k + 1]);
        assert(chain[1] != chain[chain.len() - 1]);
    }
    assert(chain =~= seq![st.trunk, branch]);
}

/// The lineage of the trunk, and of a branch that has no history in common with it, is
/// the branch alone.
pub proof fn law_lineage_alone(known: Known, st: StackModel, branch: Text)
    requires
        branch == st.trunk || stack::related(known, st.dir, st.trunk, branch) == Ok::<
            bool,
            StopModel,
        >(false),
    ensures
        stack::lineage_of(known, st, branch) == Ok::<Seq<Text>, StopModel>(seq![branch]),
{
}

/// Two branches have history in common exactly if git finds a common ancestor.
pub proof fn law_related(known: Known, dir: Text, a: Text, b: Text, reply: git::ReplyModel)
    requires
        known.contains_key(
            (git::Query { topic: Topic::MergeBase, dir, subject: a, other: b }),
        ),
        reply == known[(git::Query { topic: Topic::MergeBase, dir, subject: a, other: b })],
    ensures
        stack::related(known, dir, a, b) == Ok::<bool, StopModel>(
            reply.started && reply.success && reply.utf8 && text::trimmed(reply.text).len() > 0,
        ),
{
}

/// The mark of a boundary commit is no part of the commit.
pub proof fn law_boundary_marks(sha: Text)
    requires
        sha.len() > 0 ==> sha[0] != '-',
    ensures
        stack::unmarked(seq!['-'] + sha) == sha,
        stack::unmarked(sha) == sha,
{
    reveal_strlit("-");
    let line = seq!['-'] + sha;
    assert("-"@ =~= seq!['-']);
    assert("-"@.is_prefix_of(line)) by {
        assert(line.subrange(0, 1) =~= "-"@);
    }
    assert(line.skip(1) =~= sha);
    if "-"@.is_prefix_of(sha) {
        assert(sha[0] == "-"@[0]);
    }
}

/// The branch that represents a commit: none if no branch is there, or the trunk is;
/// else the first there that has a worktree; and if none there has one, the first there.
pub proof fn law_who_represents_a_commit(st: StackModel, sha: Text, names: Seq<Text>)
    requires
        names == porcelain::branches_at(st.tips, sha),
    ensures
        stack::level(st, sha) is None <==> names.len() == 0 || names.contains(st.trunk),
        !names.contains(st.trunk) ==> forall|i: int|
            0 <= i < names.len() && st.checked_out.contains(#[trigger] names[i]) && (forall|j: int|
                0 <= j < i ==> !st.checked_out.contains(#[trigger] names[j])) ==> stack::level(
                st,
                sha,
            ) == Some(names[i]),
        names.len() > 0 && !names.contains(st.trunk) && (forall|j: int|
            0 <= j < names.len() ==> !st.checked_out.contains(#[trigger] names[j]))
            ==> stack::level(st, sha) == Some(names[0]),
{
    lemma_first_among(names, st.checked_out);
    assert forall|i: int|
        0 <= i < names.len() && st.checked_out.contains(#[trigger] names[i]) && (forall|j: int|
            0 <= j < i ==> !st.checked_out.contains(#[trigger] names[j])) implies stack::first_among(
        names,
        st.checked_out,
    ) == Some(names[i]) by {
        lemma_first_among_is(names, st.checked_out, i);
    }
    if let Some(n) = stack::first_among(names, st.checked_out) {
        let k = choose|k: int| 0 <= k < names.len() && names[k] == n;
        assert(st.checked_out.contains(names[k]));
    }
}

proof fn lemma_first_among_is(names: Seq<Text>, preferred: Seq<Text>, i: int)
    requires
        0 <= i < names.len(),
        preferred.contains(names[i]),
        forall|j: int| 0 <= j < i ==> !preferred.contains(#[trigger] names[j]),
    ensures
        stack::first_among(names, preferred) == Some(names[i]),
    decreases names.len(),
{
    if i > 0 {
        let rest = names.drop_first();
        assert(!preferred.contains(names[0]));
        assert forall|j: int| 0 <= j < i - 1 implies !preferred.contains(#[trigger] rest[j]) by {
            assert(rest[j] == names[j + 1]);
        }
        lemma_first_among_is(rest, preferred, i - 1);
    }
}

// ---------------------------------------------------------------------------
// Children
// ---------------------------------------------------------------------------

/// True if `x` has `parent` right below it.
pub open spec fn is_child(known: Known, st: StackModel, parent: Text, x: Text) -> bool {
    match stack::lineage_of(known, st, x) {
        Ok(chain) => stack::below_last(chain) == Some(parent),
        Err(stop) => false,
    }
}

proof fn lemma_without(list: Seq<Text>, a: Text, b: Text, x: Text)
    ensures
        stack::without(list, a, b).contains(x) <==> list.contains(x) && x != a && x != b,
    decreases list.len(),
{
    if list.len() > 0 {
        let rest = list.drop_first();
        let out = stack::without(rest, a, b);
        lemma_without(rest, a, b, x);
        text::lemma_first_and_rest(list, x);
        if list[0] != a && list[0] != b {
            let full = seq![list[0]] + out;
            assert(full.drop_first() =~= out);
            text::lemma_first_and_rest(full, x);
        }
    }
}

proof fn lemma_stacked_on(
    known: Known,
    st: StackModel,
    parent: Text,
    list: Seq<Text>,
    kids: Seq<Text>,
    x: Text,
)
    requires
        stack::stacked_on(known, st, parent, list) == Ok::<Seq<Text>, StopModel>(kids),
    ensures
        kids.contains(x) <==> list.contains(x) && is_child(known, st, parent, x),
    decreases list.len(),
{
    if list.len() > 0 {
        let rest = list.drop_first();
        let tail = stack::stacked_on(known, st, parent, rest)->Ok_0;
        lemma_stacked_on(known, st, parent, rest, tail, x);
        text::lemma_first_and_rest(list, x);
        if is_child(known, st, parent, list[0]) {
            assert(kids == seq![list[0]] + tail);
            assert(kids.drop_first() =~= tail);
            text::lemma_first_and_rest(kids, x);
        }
    }
}

/// True if the branches `a` and `b` are at the same commit.
pub open spec fn twins(tips: Seq<TipModel>, a: Text, b: Text) -> bool {
    porcelain::tip_commit(tips, a) is Some && porcelain::tip_commit(tips, a)
        == porcelain::tip_commit(tips, b)
}

proof fn lemma_one_per_commit(tips: Seq<TipModel>, list: Seq<Text>, seen: Seq<Text>)
    ensures
        ({
            let out = stack::one_per_commit(tips, list, seen);
            &&& forall|i: int| 0 <= i < out.len() ==> list.contains(#[trigger] out[i])
            &&& forall|i: int|
                0 <= i < out.len() ==> match porcelain::tip_commit(tips, #[trigger] out[i]) {
                    Some(sha) => !seen.contains(sha),
                    None => true,
                }
            &&& forall|i: int, j: int|
                0 <= i < j < out.len() ==> !twins(tips, #[trigger] out[i], #[trigger] out[j])
        }),
    decreases list.len(),
{
    if list.len() > 0 {
        let rest = list.drop_first();
        let out = stack::one_per_commit(tips, list, seen);
        assert(forall|x: Text| rest.contains(x) ==> list.contains(x)) by {
            assert forall|x: Text| rest.contains(x) implies list.contains(x) by {
                text::lemma_first_and_rest(list, x);
            }
        }
        assert(list.contains(list[0]));
        match porcelain::tip_commit(tips, list[0]) {
            None => {
                let tail = stack::one_per_commit(tips, rest, seen);
                lemma_one_per_commit(tips, rest, seen);
                assert(forall|i: int| 1 <= i < out.len() ==> out[i] == tail[i - 1]);
            },
            Some(sha) => {
                if seen.contains(sha) {
                    lemma_one_per_commit(tips, rest, seen);
                } else {
                    let more = seen.push(sha);
                    let tail = stack::one_per_commit(tips, rest, more);
                    lemma_one_per_commit(tips, rest, more);
                    assert(more[seen.len() as int] == sha);
                    assert(forall|x: Text| seen.contains(x) ==> more.contains(x)) by {
                        assert forall|x: Text| seen.contains(x) implies more.contains(x) by {
                            let k = choose|k: int| 0 <= k < seen.len() && seen[k] == x;
                            assert(more[k] == x);
                        }
                    }
                    assert(forall|i: int| 1 <= i < out.len() ==> out[i] == tail[i - 1]);
                }
            },
        }
    }
}

proof fn lemma_one_per_commit_sorted(
    tips: Seq<TipModel>,
    list: Seq<Text>,
    seen: Seq<Text>,
    leq: spec_fn(Text, Text) -> bool,
)
    requires
        vstd::relations::sorted_by(list, leq),
    ensures
        vstd::relations::sorted_by(stack::one_per_commit(tips, list, seen), leq),
    decreases list.len(),
{
    if list.len() > 0 {
        let rest = list.drop_first();
        assert(forall|i: int| 0 <= i < rest.len() ==> rest[i] == list[i + 1]);
        assert(vstd::relations::sorted_by(rest, leq));
        let out = stack::one_per_commit(tips, list, seen);
        let later = match porcelain::tip_commit(tips, list[0]) {
            Some(sha) => if seen.contains(sha) {
                seen
            } else {
                seen.push(sha)
            },
            None => seen,
        };
        let tail = stack::one_per_commit(tips, rest, later);
        lemma_one_per_commit_sorted(tips, rest, later, leq);
        lemma_one_per_commit(tips, rest, later);
        if out != tail {
            assert(out == seq![list[0]] + tail);
            assert forall|i: int, j: int| 0 <= i < j < out.len() implies #[trigger] leq(
                out[i],
                out[j],
            ) by {
                assert(out[j] == tail[j - 1]);
                if i == 0 {
                    assert(rest.contains(tail[j - 1]));
                    let k = choose|k: int| 0 <= k < rest.len() && rest[k] == tail[j - 1];
                    assert(leq(list[0], list[k + 1]));
                } else {
                    assert(leq(tail[i - 1], tail[j - 1]));
                }
            }
        }
    }
}

/// Of the branches of `list`, each is kept, or one before it at the same commit is.
proof fn lemma_one_per_commit_keeps(
    tips: Seq<TipModel>,
    list: Seq<Text>,
    seen: Seq<Text>,
    k: int,
)
    requires
        0 <= k < list.len(),
    ensures
        ({
            let out = stack::one_per_commit(tips, list, seen);
            ||| out.contains(list[k])
            ||| porcelain::tip_commit(tips, list[k]) matches Some(sha) && seen.contains(sha)
            ||| exists|j: int|
                0 <= j < k && out.contains(#[trigger] list[j]) && twins(tips, list[j], list[k])
        }),
    decreases list.len(),
{
    let rest = list.drop_first();
    let out = stack::one_per_commit(tips, list, seen);
    let first = porcelain::tip_commit(tips, list[0]);
    let taken = first matches Some(sha) && seen.contains(sha);
    let later = if taken || first is None {
        seen
    } else {
        seen.push(first->Some_0)
    };
    let tail = stack::one_per_commit(tips, rest, later);
    if !taken {
        assert(out == seq![list[0]] + tail);
        assert(out[0] == list[0]);
        assert(forall|i: int| 0 <= i < tail.len() ==> tail[i] == #[trigger] out[i + 1]);
    }
    assert(forall|x: Text| tail.contains(x) ==> out.contains(x)) by {
        assert forall|x: Text| tail.contains(x) implies out.contains(x) by {
            let i = choose|i: int| 0 <= i < tail.len() && tail[i] == x;
            if !taken {
                assert(out[i + 1] == x);
            }
        }
    }
    if k > 0 {
        lemma_one_per_commit_keeps(tips, rest, later, k - 1);
        assert(rest[k - 1] == list[k]);
        if !out.contains(list[k]) {
            if exists|j: int|
                0 <= j < k - 1 && tail.contains(#[trigger] rest[j]) && twins(
                    tips,
                    rest[j],
                    rest[k - 1],
                ) {
                let j = choose|j: int|
                    0 <= j < k - 1 && tail.contains(#[trigger] rest[j]) && twins(
                        tips,
                        rest[j],
                        rest[k - 1],
                    );
                assert(list[j + 1] == rest[j]);
            } else {
                let sha = porcelain::tip_commit(tips, list[k])->Some_0;
                assert(later.contains(sha));
                if !seen.contains(sha) {
                    let i = choose|i: int| 0 <= i < later.len() && later[i] == sha;
                    if i < seen.len() {
                        assert(seen[i] == sha);
                    }
                    assert(out.contains(list[0]) && twins(tips, list[0], list[k]));
                }
            }
        }
    }
}

/// The children that a branch has: each has it right below itself, and is neither
/// the branch nor the trunk. No two of them are at the same commit. Those with a
/// worktree come first, and each group is in dictionary order.
pub proof fn law_children(known: Known, st: StackModel, parent: Text, kids: Seq<Text>)
    requires
        stack::children_of(known, st, parent) == Ok::<stack::ChildrenModel, StopModel>(
            Children::Immediate(kids),
        ),
    ensures
        kids.len() > 0,
        forall|i: int|
            0 <= i < kids.len() ==> is_child(known, st, parent, #[trigger] kids[i]) && kids[i]
                != parent && kids[i] != st.trunk,
        forall|i: int, j: int|
            0 <= i < j < kids.len() ==> !twins(st.tips, #[trigger] kids[i], #[trigger] kids[j]),
        forall|i: int, j: int|
            0 <= i < j < kids.len() ==> stack::ahead_of(
                st.checked_out,
                #[trigger] kids[i],
                #[trigger] kids[j],
            ),
{
    let leq = stack::child_order(st.checked_out);
    let list = stack::descendants(known, st, parent)->Ok_0;
    let found = stack::stacked_on(known, st, parent, list)->Ok_0;
    let sorted = found.sort_by(leq);
    stack::lemma_child_order(st.checked_out);
    found.lemma_sort_by_ensures(leq);
    lemma_one_per_commit(st.tips, sorted, Seq::empty());
    lemma_one_per_commit_sorted(st.tips, sorted, Seq::empty(), leq);
    assert forall|i: int| 0 <= i < kids.len() implies is_child(
        known,
        st,
        parent,
        #[trigger] kids[i],
    ) && kids[i] != parent && kids[i] != st.trunk by {
        let x = kids[i];
        assert(sorted.contains(x));
        lemma_same_contents(found, sorted, x);
        lemma_stacked_on(known, st, parent, list, found, x);
        lemma_descendants(known, st, parent, list, x);
    }
    assert forall|i: int, j: int| 0 <= i < j < kids.len() implies stack::ahead_of(
        st.checked_out,
        #[trigger] kids[i],
        #[trigger] kids[j],
    ) by {
        assert(leq(kids[i], kids[j]));
    }
}

proof fn lemma_same_contents(a: Seq<Text>, b: Seq<Text>, x: Text)
    requires
        a.to_multiset() == b.to_multiset(),
    ensures
        a.contains(x) == b.contains(x),
{
    broadcast use vstd::seq_lib::group_to_multiset_ensures;

    assert(a.contains(x) <==> a.to_multiset().count(x) > 0);
    assert(b.contains(x) <==> b.to_multiset().count(x) > 0);
}

proof fn lemma_descendants(known: Known, st: StackModel, parent: Text, list: Seq<Text>, x: Text)
    requires
        stack::descendants(known, st, parent) == Ok::<Seq<Text>, StopModel>(list),
        list.contains(x),
    ensures
        x != parent,
        x != st.trunk,
{
    if let Ok(Some(out)) = git::optional(
        known,
        git::query(Topic::Containing, st.dir, parent, ""@),
    ) {
        lemma_without(text::lines_of(out), parent, st.trunk, x);
    }
}

/// Descendants are counted, and not looked at one by one, exactly if there are more than
/// the cap: then all of them are counted, and no lineage is looked up.
pub proof fn law_crowds_are_only_counted(
    known: Known,
    st: StackModel,
    parent: Text,
    list: Seq<Text>,
    memo: Map<Text, Seq<Text>>,
)
    requires
        stack::descendants(known, st, parent) == Ok::<Seq<Text>, StopModel>(list),
    ensures
        stack::CHILDREN_FILTER_CAP == 100,
        (stack::children_of(known, st, parent) matches Ok(Children::Many(_))) <==> list.len()
            > stack::CHILDREN_FILTER_CAP,
        stack::children_of(known, st, parent) matches Ok(Children::Many(n)) ==> n == list.len()
            && stack::recalled_children(known, st, memo, parent) == memo,
{
}

proof fn lemma_recalled(
    known: Known,
    st: StackModel,
    memo: Map<Text, Seq<Text>>,
    list: Seq<Text>,
    x: Text,
)
    ensures
        ({
            let after = stack::recalled(known, st, memo, list);
            &&& memo.contains_key(x) ==> after.contains_key(x)
            &&& after.contains_key(x) ==> (memo.contains_key(x) && after[x] == memo[x]) || (
            list.contains(x) && stack::lineage_of(known, st, x) == Ok::<Seq<Text>, StopModel>(
                after[x],
            ))
        }),
    decreases list.len(),
{
    if list.len() > 0 {
        if let Ok(chain) = stack::lineage_of(known, st, list[0]) {
            lemma_recalled(known, st, memo.insert(list[0], chain), list.drop_first(), x);
            text::lemma_first_and_rest(list, x);
        }
    }
}

/// Telling the children of a branch, nothing that was remembered is forgotten, and only
/// lineages of its descendants are remembered besides.
pub proof fn law_only_descendants_are_remembered(
    known: Known,
    st: StackModel,
    parent: Text,
    memo: Map<Text, Seq<Text>>,
    x: Text,
)
    ensures
        ({
            let after = stack::recalled_children(known, st, memo, parent);
            &&& memo.contains_key(x) ==> after.contains_key(x)
            &&& after.contains_key(x) && !memo.contains_key(x) ==> (stack::descendants(
                known,
                st,
                parent,
            ) matches Ok(list) && list.contains(x) && stack::lineage_of(known, st, x) == Ok::<
                Seq<Text>,
                StopModel,
            >(after[x]))
        }),
{
    if let Ok(list) = stack::descendants(known, st, parent) {
        lemma_recalled(known, st, memo, list, x);
    }
}

/// No child is lost: a descendant that has the branch right below itself is listed,
/// or another one at the same commit is listed in its place, which goes before it.
pub proof fn law_no_child_is_lost(
    known: Known,
    st: StackModel,
    parent: Text,
    list: Seq<Text>,
    x: Text,
)
    requires
        stack::descendants(known, st, parent) == Ok::<Seq<Text>, StopModel>(list),
        list.len() <= stack::CHILDREN_FILTER_CAP,
        stack::children_of(known, st, parent) is Ok,
        list.contains(x),
        is_child(known, st, parent, x),
    ensures
        stack::children_of(known, st, parent) matches Ok(Children::Immediate(kids)) && (
        kids.contains(x) || exists|twin: Text| #[trigger]
            kids.contains(twin) && twins(st.tips, twin, x) && stack::ahead_of(
                st.checked_out,
                twin,
                x,
            )),
{
    let leq = stack::child_order(st.checked_out);
    let found = stack::stacked_on(known, st, parent, list)->Ok_0;
    let sorted = found.sort_by(leq);
    let shown = stack::presented(st, found);
    stack::lemma_child_order(st.checked_out);
    found.lemma_sort_by_ensures(leq);
    lemma_stacked_on(known, st, parent, list, found, x);
    lemma_same_contents(found, sorted, x);
    let k = choose|k: int| 0 <= k < sorted.len() && sorted[k] == x;
    lemma_one_per_commit_keeps(st.tips, sorted, Seq::empty(), k);
    if !shown.contains(x) {
        let j = choose|j: int|
            0 <= j < k && shown.contains(#[trigger] sorted[j]) && twins(
                st.tips,
                sorted[j],
                sorted[k],
            );
        assert(leq(sorted[j], sorted[k]));
        assert(shown.contains(sorted[j]));
    }
}

/// All texts but `a` and `b`.
pub open spec fn other_than(a: Text, b: Text) -> spec_fn(Text) -> bool {
    |x: Text| x != a && x != b
}

proof fn lemma_without_filter(list: Seq<Text>, a: Text, b: Text)
    ensures
        stack::without(list, a, b) == list.filter(other_than(a, b)),
    decreases list.len(),
{
    reveal(Seq::filter);
    let keep = other_than(a, b);
    if list.len() > 0 {
        let rest = list.drop_first();
        let one = seq![list[0]];
        lemma_without_filter(rest, a, b);
        assert(list =~= one + rest);
        Seq::filter_distributes_over_add(one, rest, keep);
        assert(one.drop_last() =~= Seq::empty());
        assert(one.last() == list[0]);
        let none = Seq::<Text>::empty();
        assert(none.filter(keep) =~= none);
        assert(one.filter(keep) =~= if keep(list[0]) {
            one
        } else {
            none
        });
        assert(none + rest.filter(keep) =~= rest.filter(keep));
    } else {
        assert(list.filter(keep) =~= Seq::<Text>::empty());
    }
}

/// The descendants of a branch are the branches that git finds to contain its tip, all of
/// them, but for the branch itself and the trunk.
pub proof fn law_descendants(known: Known, st: StackModel, parent: Text, out: Option<Text>)
    requires
        git::optional(known, git::query(Topic::Containing, st.dir, parent, ""@)) == Ok::<
            Option<Text>,
            StopModel,
        >(out),
    ensures
        out is None ==> stack::descendants(known, st, parent) == Ok::<Seq<Text>, StopModel>(
            Seq::empty(),
        ),
        out matches Some(s) ==> stack::descendants(known, st, parent) == Ok::<
            Seq<Text>,
            StopModel,
        >(text::lines_of(s).filter(other_than(parent, st.trunk))),
{
    if let Some(s) = out {
        lemma_without_filter(text::lines_of(s), parent, st.trunk);
    }
}

/// The order of children: one with a worktree comes before one without, and else the
/// dictionary decides.
pub proof fn law_order_of_children(checked_out: Seq<Text>, a: Text, b: Text)
    ensures
        checked_out.contains(a) && !checked_out.contains(b) ==> stack::ahead_of(checked_out, a, b)
            && !stack::ahead_of(checked_out, b, a),
        checked_out.contains(a) == checked_out.contains(b) ==> stack::ahead_of(checked_out, a, b)
            == text::text_le(a, b),
{
}

/// What a branch is stacked on is the one before it in its lineage, and only a branch of a
/// lineage of two or more is stacked on another.
pub proof fn law_children_have_their_parent_below(
    known: Known,
    st: StackModel,
    parent: Text,
    x: Text,
    chain: Seq<Text>,
)
    requires
        stack::lineage_of(known, st, x) == Ok::<Seq<Text>, StopModel>(chain),
    ensures
        is_child(known, st, parent, x) <==> chain.len() >= 2 && chain[chain.len() - 2] == parent,
{
}

/// A branch without descendants is a leaf, and so is one that none of them is stacked on.
pub proof fn law_leaves(known: Known, st: StackModel, parent: Text, list: Seq<Text>)
    requires
        stack::descendants(known, st, parent) == Ok::<Seq<Text>, StopModel>(list),
        list.len() <= stack::CHILDREN_FILTER_CAP,
        forall|i: int| 0 <= i < list.len() ==> stack::lineage_of(known, st, #[trigger] list[i]) is Ok,
        forall|i: int| 0 <= i < list.len() ==> !is_child(known, st, parent, #[trigger] list[i]),
    ensures
        stack::children_of(known, st, parent) == Ok::<stack::ChildrenModel, StopModel>(
            Children::Leaf,
        ),
{
    lemma_no_kids(known, st, parent, list);
    let leq = stack::child_order(st.checked_out);
    let none = Seq::<Text>::empty();
    stack::lemma_child_order(st.checked_out);
    none.lemma_sort_by_ensures(leq);
    let sorted = none.sort_by(leq);
    assert(sorted.len() == 0) by {
        broadcast use vstd::seq_lib::group_to_multiset_ensures;

        assert(sorted.to_multiset().len() == none.to_multiset().len());
    }
    assert(stack::presented(st, none) =~= none);
}

/// The children of a branch can be told if its descendants can, and the lineage of each of
/// these, unless they are too many to look at.
pub proof fn law_children_are_told(known: Known, st: StackModel, parent: Text, list: Seq<Text>)
    requires
        stack::descendants(known, st, parent) == Ok::<Seq<Text>, StopModel>(list),
        list.len() <= stack::CHILDREN_FILTER_CAP ==> forall|i: int|
            0 <= i < list.len() ==> stack::lineage_of(known, st, #[trigger] list[i]) is Ok,
    ensures
        stack::children_of(known, st, parent) is Ok,
{
    if list.len() <= stack::CHILDREN_FILTER_CAP {
        lemma_stacked_on_is_told(known, st, parent, list);
    }
}

proof fn lemma_stacked_on_is_told(known: Known, st: StackModel, parent: Text, list: Seq<Text>)
    requires
        forall|i: int| 0 <= i < list.len() ==> stack::lineage_of(known, st, #[trigger] list[i]) is Ok,
    ensures
        stack::stacked_on(known, st, parent, list) is Ok,
    decreases list.len(),
{
    if list.len() > 0 {
        let rest = list.drop_first();
        assert(stack::lineage_of(known, st, list[0]) is Ok);
        assert forall|i: int| 0 <= i < rest.len() implies stack::lineage_of(
            known,
            st,
            #[trigger] rest[i],
        ) is Ok by {
            assert(rest[i] == list[i + 1]);
        }
        lemma_stacked_on_is_told(known, st, parent, rest);
    }
}

proof fn lemma_no_kids(known: Known, st: StackModel, parent: Text, list: Seq<Text>)
    requires
        forall|i: int| 0 <= i < list.len() ==> stack::lineage_of(known, st, #[trigger] list[i]) is Ok,
        forall|i: int| 0 <= i < list.len() ==> !is_child(known, st, parent, #[trigger] list[i]),
    ensures
        stack::stacked_on(known, st, parent, list) == Ok::<Seq<Text>, StopModel>(Seq::empty()),
    decreases list.len(),
{
    if list.len() > 0 {
        let rest = list.drop_first();
        assert(forall|i: int| 0 <= i < rest.len() ==> rest[i] == list[i + 1]);
        assert(stack::lineage_of(known, st, list[0]) is Ok);
        assert(!is_child(known, st, parent, list[0]));
        lemma_no_kids(known, st, parent, rest);
    }
}

// ---------------------------------------------------------------------------
// Ways along a stack
// ---------------------------------------------------------------------------

/// The step to `branch`.
pub open spec fn go(branch: Text) -> Result<nav::NavStepModel, StopModel> {
    Ok(NavStep::Go(branch))
}

/// `down` undoes `up`.
pub proof fn law_up_then_down(known: Known, st: StackModel, current: Text, child: Text)
    requires
        nav::up_step(known, st, current) == go(child),
    ensures
        nav::down_step(known, st, child) == go(current),
        child != current,
        child != st.trunk,
{
    if let Ok(Children::Immediate(kids)) = stack::children_of(known, st, current) {
        law_children(known, st, current, kids);
        assert(is_child(known, st, current, kids[0]));
    }
}

/// True if each branch of `route` is one step up from the one before it.
pub open spec fn climbs(known: Known, st: StackModel, route: Seq<Text>) -> bool {
    forall|i: int|
        0 <= i < route.len() - 1 ==> nav::up_step(known, st, #[trigger] route[i]) == go(
            route[i + 1],
        )
}

proof fn lemma_summit(
    known: Known,
    st: StackModel,
    left: Seq<Text>,
    current: Text,
    tip: Text,
) -> (route:
    Seq<Text>)
    requires
        known.dom().finite(),
        nav::summit(known, st, left, current) == Ok::<Text, StopModel>(tip),
    ensures
        route.len() > 0,
        route[0] == current,
        route.last() == tip,
        climbs(known, st, route),
        stack::children_of(known, st, tip) == Ok::<stack::ChildrenModel, StopModel>(Children::Leaf),
        forall|i: int| 0 <= i < route.len() ==> !left.contains(#[trigger] route[i]),
    decreases nav::unused(known, left).len(),
{
    match stack::children_of(known, st, current) {
        Ok(Children::Immediate(kids)) => {
            nav::lemma_unused(known, st, left, current);
            let more = left.push(current);
            let rest = lemma_summit(known, st, more, kids[0], tip);
            let route = seq![current] + rest;
            assert forall|i: int| 0 <= i < route.len() - 1 implies nav::up_step(
                known,
                st,
                #[trigger] route[i],
            ) == go(route[i + 1]) by {
                if i > 0 {
                    assert(route[i] == rest[i - 1] && route[i + 1] == rest[i]);
                }
            }
            assert forall|i: int| 0 <= i < route.len() implies !left.contains(
                #[trigger] route[i],
            ) by {
                if i > 0 {
                    assert(!more.contains(rest[i - 1]));
                    if left.contains(rest[i - 1]) {
                        let k = choose|k: int| 0 <= k < left.len() && left[k] == rest[i - 1];
                        assert(more[k] == rest[i - 1]);
                    }
                }
            }
            route
        },
        _ => seq![current],
    }
}

/// `top` leads where `up`, done again and again, leads: to a branch from which `up`
/// goes no further. `down` leads back along the same way.
pub proof fn law_top_is_up_repeated(known: Known, st: StackModel, current: Text, tip: Text)
    requires
        known.dom().finite(),
        nav::top_step(known, st, current) == go(tip),
    ensures
        nav::up_step(known, st, tip) is Ok,
        nav::up_step(known, st, tip)->Ok_0 is Stay,
        exists|route: Seq<Text>| #[trigger]
            climbs(known, st, route) && route.len() > 1 && route[0] == current && route.last()
                == tip && forall|i: int|
                0 < i < route.len() ==> nav::down_step(known, st, #[trigger] route[i]) == go(
                    route[i - 1],
                ),
{
    let route = lemma_summit(known, st, Seq::empty(), current, tip);
    assert forall|i: int| 0 < i < route.len() implies nav::down_step(
        known,
        st,
        #[trigger] route[i],
    ) == go(route[i - 1]) by {
        assert(nav::up_step(known, st, route[i - 1]) == go(route[(i - 1) + 1]));
        law_up_then_down(known, st, route[i - 1], route[i]);
    }
    assert(climbs(known, st, route));
}

/// `top` stays exactly where `up` stays, and says the same.
pub proof fn law_top_stays_where_up_stays(known: Known, st: StackModel, current: Text)
    requires
        known.dom().finite(),
    ensures
        (nav::top_step(known, st, current) matches Ok(NavStep::Stay(_))) <==> (nav::up_step(
            known,
            st,
            current,
        ) matches Ok(NavStep::Stay(_))),
        nav::up_step(known, st, current) matches Ok(NavStep::Stay(m)) ==> nav::top_step(
            known,
            st,
            current,
        ) == Ok::<nav::NavStepModel, StopModel>(NavStep::Stay(m)),
{
    if let Ok(tip) = nav::summit(known, st, Seq::empty(), current) {
        let route = lemma_summit(known, st, Seq::empty(), current, tip);
        if tip == current {
            match stack::children_of(known, st, current) {
                Ok(Children::Immediate(kids)) => {
                    nav::lemma_unused(known, st, Seq::empty(), current);
                    let left = Seq::empty().push(current);
                    let rest = lemma_summit(known, st, left, kids[0], tip);
                    assert(left[0] == current);
                    assert(!left.contains(rest[rest.len() - 1]));
                },
                _ => {},
            }
        }
    }
}

/// `bottom` leads to the branch of the lineage that sits right on the trunk. It
/// stays on that branch, on the trunk, and on a branch without a trunk below it.
pub proof fn law_bottom_sits_on_the_trunk(
    known: Known,
    st: StackModel,
    current: Text,
    chain: Seq<Text>,
)
    requires
        stack::lineage_of(known, st, current) == Ok::<Seq<Text>, StopModel>(chain),
    ensures
        chain.len() <= 2 <==> (nav::bottom_step(known, st, current) matches Ok(NavStep::Stay(_))),
        chain.len() > 2 ==> chain[0] == st.trunk && nav::bottom_step(known, st, current) == go(
            chain[1],
        ) && chain[1] != current && off_trunk(st, chain[1]),
{
    law_lineage_shape(known, st, current, chain);
    if chain.len() > 2 {
        assert(chain[1] != chain[chain.len() - 1]);
    }
}

/// `down` stays on the trunk and on a branch that has no history in common with it,
/// and nowhere else; from a branch that sits right on the trunk it leads to the
/// trunk.
pub proof fn law_down_ends_on_the_trunk(
    known: Known,
    st: StackModel,
    current: Text,
    chain: Seq<Text>,
)
    requires
        stack::lineage_of(known, st, current) == Ok::<Seq<Text>, StopModel>(chain),
    ensures
        (nav::down_step(known, st, current) matches Ok(NavStep::Stay(_))) <==> current == st.trunk
            || stack::related(known, st.dir, st.trunk, current) == Ok::<bool, StopModel>(false),
        chain.len() == 2 ==> nav::down_step(known, st, current) == go(st.trunk),
{
    law_lineage_shape(known, st, current, chain);
}

/// One step along a stack: `down` leads to the branch before the current one in its
/// lineage, `bottom` to the one right above the trunk, `up` to the only child. They stay
/// where there is none, and `up` fails, naming them, if there are several.
pub proof fn law_steps(known: Known, st: StackModel, current: Text)
    ensures
        stack::lineage_of(known, st, current) matches Ok(chain) ==> {
            &&& chain.len() >= 2 ==> nav::step(known, st, current, Nav::Down) == go(
                chain[chain.len() - 2],
            )
            &&& chain.len() < 2 ==> nav::step(known, st, current, Nav::Down) == Ok::<
                nav::NavStepModel,
                StopModel,
            >(NavStep::Stay("already at the bottom of the stack (on the trunk)"@))
            &&& chain.len() < 2 ==> nav::step(known, st, current, Nav::Bottom) == Ok::<
                nav::NavStepModel,
                StopModel,
            >(NavStep::Stay("already at the bottom of the stack (on the trunk)"@))
            &&& chain.len() >= 2 && chain[1] == current ==> nav::step(
                known,
                st,
                current,
                Nav::Bottom,
            ) == Ok::<nav::NavStepModel, StopModel>(
                NavStep::Stay("already at the bottom of the stack"@),
            )
            &&& chain.len() >= 2 && chain[1] != current ==> nav::step(
                known,
                st,
                current,
                Nav::Bottom,
            ) == go(chain[1])
        },
        stack::children_of(known, st, current) matches Ok(kids) ==> {
            let up = nav::step(known, st, current, Nav::Up);
            match kids {
                Children::Leaf => up == Ok::<nav::NavStepModel, StopModel>(
                    NavStep::Stay("already at the top of the stack"@),
                ),
                Children::Immediate(list) => {
                    &&& list.len() == 1 ==> up == go(list[0])
                    &&& list.len() != 1 ==> up == Err::<nav::NavStepModel, StopModel>(
                        Stop::Fail(Error::Forks { branch: current, children: list }),
                    )
                },
                Children::Many(n) => up == Err::<nav::NavStepModel, StopModel>(
                    Stop::Fail(Error::Crowded { branch: current, count: n }),
                ),
            }
        },
        nav::step(known, st, current, Nav::Top) == nav::top_step(known, st, current),
{
}

/// `top` goes as far as `up`, done again and again, leads: it ends at the first branch
/// without children. It fails where there are several, or too many descendants, and says
/// where that is.
pub proof fn law_top_goes_as_far_as_up_leads(
    known: Known,
    st: StackModel,
    current: Text,
    route: Seq<Text>,
)
    requires
        known.dom().finite(),
        route.len() > 0,
        route[0] == current,
        climbs(known, st, route),
        route.no_duplicates(),
    ensures
        match stack::children_of(known, st, route.last()) {
            Ok(Children::Leaf) => route.len() > 1 ==> nav::top_step(known, st, current) == go(
                route.last(),
            ),
            Ok(Children::Immediate(kids)) => kids.len() != 1 ==> nav::top_step(known, st, current)
                == Err::<nav::NavStepModel, StopModel>(
                Stop::Fail(Error::ClimbForks { branch: route.last(), children: kids }),
            ),
            Ok(Children::Many(count)) => nav::top_step(known, st, current) == Err::<
                nav::NavStepModel,
                StopModel,
            >(Stop::Fail(Error::ClimbCrowded { branch: route.last(), count })),
            Err(stop) => nav::top_step(known, st, current) == Err::<nav::NavStepModel, StopModel>(
                stop,
            ),
        },
{
    lemma_climb(known, st, Seq::empty(), route);
    lemma_top(known, st, current);
    assert(route.len() > 1 ==> route[0] != route[route.len() - 1]);
}

proof fn lemma_top(known: Known, st: StackModel, current: Text)
    ensures
        match nav::summit(known, st, Seq::empty(), current) {
            Ok(tip) => tip != current ==> nav::top_step(known, st, current) == go(tip),
            Err(stop) => nav::top_step(known, st, current) == Err::<nav::NavStepModel, StopModel>(
                stop,
            ),
        },
{
}

proof fn lemma_climb(known: Known, st: StackModel, left: Seq<Text>, route: Seq<Text>)
    requires
        known.dom().finite(),
        route.len() > 0,
        climbs(known, st, route),
        route.no_duplicates(),
        forall|i: int| 0 <= i < route.len() ==> !left.contains(#[trigger] route[i]),
    ensures
        ({
            let end = nav::summit(known, st, left, route[0]);
            match stack::children_of(known, st, route.last()) {
                Ok(Children::Leaf) => end == Ok::<Text, StopModel>(route.last()),
                Ok(Children::Immediate(kids)) => kids.len() != 1 ==> end == Err::<Text, StopModel>(
                    Stop::Fail(Error::ClimbForks { branch: route.last(), children: kids }),
                ),
                Ok(Children::Many(count)) => end == Err::<Text, StopModel>(
                    Stop::Fail(Error::ClimbCrowded { branch: route.last(), count }),
                ),
                Err(stop) => end == Err::<Text, StopModel>(stop),
            }
        }),
    decreases route.len(),
{
    let current = route[0];
    assert(!left.contains(route[0]));
    if route.len() > 1 {
        let rest = route.drop_first();
        let more = left.push(current);
        assert(nav::up_step(known, st, route[0]) == go(route[0int + 1]));
        nav::lemma_unused(known, st, left, current);
        assert(forall|i: int| 0 <= i < rest.len() ==> rest[i] == route[i + 1]);
        assert forall|i: int| 0 <= i < rest.len() - 1 implies nav::up_step(
            known,
            st,
            #[trigger] rest[i],
        ) == go(rest[i + 1]) by {
            assert(rest[i] == route[i + 1]);
            assert(nav::up_step(known, st, route[i + 1]) == go(route[(i + 1) + 1]));
        }
        assert forall|i: int| 0 <= i < rest.len() implies !more.contains(#[trigger] rest[i]) by {
            if more.contains(rest[i]) {
                let k = choose|k: int| 0 <= k < more.len() && more[k] == rest[i];
                assert(rest[i] == route[i + 1]);
                if k < left.len() {
                    assert(left[k] == route[i + 1]);
                    assert(left.contains(route[i + 1]));
                }
            }
        }
        assert(rest.no_duplicates());
        lemma_climb(known, st, more, rest);
        assert(rest.last() == route.last());
    }
}

// ---------------------------------------------------------------------------
// Moves
// ---------------------------------------------------------------------------

/// A step leads into the worktree of its branch if there is one; such a step never
/// looks at the changes in the current worktree. A checkout in place happens only for
/// a branch without a worktree, and only if no tracked file of the current worktree
/// has changes; otherwise it is refused.
pub proof fn law_moves_touch_no_changes(
    known: Known,
    dir: Text,
    list: Seq<WorktreeModel>,
    branch: Text,
)
    ensures
        match nav::arrival(known, dir, list, branch) {
            Ok(Move::Enter { branch: b, path }) => b == branch && exists|i: int|
                0 <= i < list.len() && (#[trigger] list[i]).path == path && list[i].label == branch
                    && !list[i].bare && !list[i].detached,
            Ok(Move::Checkout { branch: b }) => b == branch && repo::dirty_in(known, dir) == Ok::<
                bool,
                StopModel,
            >(false) && forall|i: int|
                0 <= i < list.len() ==> list[i].bare || list[i].detached || (
                #[trigger] list[i]).label != branch,
            Ok(Move::Stay { .. }) => false,
            Err(Stop::Fail(Error::TrackedChanges { branch: b })) => b == branch && repo::dirty_in(
                known,
                dir,
            ) == Ok::<bool, StopModel>(true),
            Err(_) => repo::dirty_in(known, dir) is Err,
        },
{
    porcelain::lemma_checkout_of(list, branch);
}

proof fn lemma_no_tally(list: Seq<Text>, pred: spec_fn(Text) -> bool)
    requires
        forall|i: int| 0 <= i < list.len() ==> !pred(#[trigger] list[i]),
    ensures
        porcelain::tally(list, pred) == 0,
    decreases list.len(),
{
    if list.len() > 0 {
        lemma_no_tally(list.drop_last(), pred);
        assert(!pred(list[list.len() - 1]));
    }
}

/// Files that git does not track do not stand in the way of a checkout in place.
pub proof fn law_untracked_files_are_no_changes(list: Seq<Text>)
    requires
        forall|i: int| 0 <= i < list.len() ==> porcelain::untracked_line(#[trigger] list[i]),
    ensures
        !repo::tracked_changes(porcelain::status_of(list)),
{
    lemma_no_tally(list, |l: Text| porcelain::staged_line(l));
    lemma_no_tally(list, |l: Text| porcelain::unstaged_line(l));
}

/// A changed file counts once among the files, and is not both untracked and staged,
/// nor both untracked and unstaged.
pub proof fn law_status_counts(list: Seq<Text>)
    ensures
        ({
            let st = porcelain::status_of(list);
            &&& st.files == list.len()
            &&& st.staged + st.untracked <= st.files
            &&& st.unstaged + st.untracked <= st.files
        }),
    decreases list.len(),
{
    if list.len() > 0 {
        law_status_counts(list.drop_last());
    }
}

/// Whatever way one goes: no move without a branch checked out, and none without a
/// trunk.
pub proof fn law_navigation_needs_a_branch_and_a_trunk(
    known: Known,
    repo: RepoModel,
    cfg: ConfigModel,
    nav: Nav,
)
    requires
        nav::navigated(known, repo, cfg, nav) is Ok,
    ensures
        repo.root is Some,
        nav::head_branch(known, repo.root->Some_0) matches Ok(current) && current.len() > 0,
        repo::local_tips(known, repo.root->Some_0) matches Ok(tips) && (repo::trunk(
            known,
            repo.root->Some_0,
            cfg,
            tips,
        ) matches Ok(Some(_))),
{
}

/// Whatever way one goes, it is from the branch that is checked out in the current working
/// tree, along the stack of that repository. A branch with a worktree is entered there; one
/// without is checked out in place if nothing stands in the way.
pub proof fn law_where_moves_lead(
    known: Known,
    repo: RepoModel,
    cfg: ConfigModel,
    nav: Nav,
    dir: Text,
    current: Text,
    st: StackModel,
    out: Text,
)
    requires
        repo.root == Some(dir),
        git::optional(known, git::query(Topic::Head, dir, ""@, ""@)) == Ok::<
            Option<Text>,
            StopModel,
        >(Some(current)),
        current.len() > 0,
        st.dir == dir,
        repo::local_tips(known, dir) == Ok::<Seq<TipModel>, StopModel>(st.tips),
        repo::trunk(known, dir, cfg, st.tips) == Ok::<Option<Text>, StopModel>(Some(st.trunk)),
        git::required(known, git::query(Topic::Worktrees, dir, ""@, ""@)) == Ok::<
            Text,
            StopModel,
        >(out),
        st.checked_out == porcelain::labels(porcelain::worktrees(out)),
    ensures
        match nav::step(known, st, current, nav) {
            Ok(NavStep::Go(branch)) => match porcelain::checkout_of(
                porcelain::worktrees(out),
                branch,
            ) {
                Some(path) => nav::navigated(known, repo, cfg, nav) == Ok::<
                    nav::MoveModel,
                    StopModel,
                >(Move::Enter { branch, path }),
                None => match repo::dirty_in(known, dir) {
                    Ok(true) => nav::navigated(known, repo, cfg, nav) == Err::<
                        nav::MoveModel,
                        StopModel,
                    >(Stop::Fail(Error::TrackedChanges { branch })),
                    Ok(false) => nav::navigated(known, repo, cfg, nav) == Ok::<
                        nav::MoveModel,
                        StopModel,
                    >(Move::Checkout { branch }),
                    Err(stop) => nav::navigated(known, repo, cfg, nav) == Err::<
                        nav::MoveModel,
                        StopModel,
                    >(stop),
                },
            },
            Ok(NavStep::Stay(reason)) => nav::navigated(known, repo, cfg, nav) == Ok::<
                nav::MoveModel,
                StopModel,
            >(Move::Stay { reason }),
            Err(stop) => nav::navigated(known, repo, cfg, nav) == Err::<nav::MoveModel, StopModel>(
                stop,
            ),
        },
{
    assert(nav::stack_at(dir, st.tips, st.trunk, porcelain::worktrees(out)) == st);
}

/// Without a working tree, on a detached HEAD, or without a trunk there is no way to go,
/// and each is said.
pub proof fn law_no_way_to_go(known: Known, repo: RepoModel, cfg: ConfigModel, nav: Nav)
    ensures
        repo.root is None ==> nav::navigated(known, repo, cfg, nav) == Err::<
            nav::MoveModel,
            StopModel,
        >(Stop::Fail(Error::OutsideWorktree)),
        repo.root matches Some(dir) ==> (git::optional(
            known,
            git::query(Topic::Head, dir, ""@, ""@),
        ) matches Ok(head) ==> {
            &&& head is None || head->Some_0.len() == 0 ==> nav::navigated(known, repo, cfg, nav)
                == Err::<nav::MoveModel, StopModel>(Stop::Fail(Error::DetachedHead))
            &&& head is Some && head->Some_0.len() > 0 && (repo::local_tips(
                known,
                dir,
            ) matches Ok(tips) && repo::trunk(known, dir, cfg, tips) == Ok::<
                Option<Text>,
                StopModel,
            >(None)) ==> nav::navigated(known, repo, cfg, nav) == Err::<nav::MoveModel, StopModel>(
                Stop::Fail(Error::NoTrunk),
            )
        }),
{
}

} // verus!
