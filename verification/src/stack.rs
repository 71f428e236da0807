//! Stacks of branches, inferred from the commit graph.
//!
//! A branch's lineage runs from the trunk to the branch through the branches whose
//! tips lie between them. Its children are the branches whose lineage has it right
//! below them.

use crate::git;
use crate::git::{Facts, Known, Query, Stop, StopModel, Topic};
use crate::porcelain;
use crate::porcelain::{commit_of, names_at, Tip, TipModel};
use crate::repo;
use crate::text;
use crate::text::{copy_texts, empty_list, grow, has_text, lines, not_after, same, strip_prefix, Text};
use vstd::prelude::*;

verus! {

/// What lineages are told from: where to ask, the local branches, the trunk, and
/// the branches that have a worktree.
pub struct Stack<S = String, T = Vec<Tip>, L = Vec<String>> {
    pub dir: S,
    pub tips: T,
    pub trunk: S,
    pub checked_out: L,
}

/// The value of a stack.
pub type StackModel = Stack<Text, Seq<TipModel>, Seq<Text>>;

impl DeepView for Stack<String, Vec<Tip>, Vec<String>> {
    type V = StackModel;

    open spec fn deep_view(&self) -> StackModel {
        Stack {
            dir: self.dir@,
            tips: self.tips.deep_view(),
            trunk: self.trunk@,
            checked_out: self.checked_out.deep_view(),
        }
    }
}

// ---------------------------------------------------------------------------
// Lineage
// ---------------------------------------------------------------------------

/// Whether `a` and `b` have a common ancestor.
pub open spec fn related(known: Known, dir: Text, a: Text, b: Text) -> Result<bool, StopModel> {
    match git::optional(known, git::query(Topic::MergeBase, dir, a, b)) {
        Err(stop) => Err(stop),
        Ok(None) => Ok(false),
        Ok(Some(base)) => Ok(base.len() > 0),
    }
}

/// Whether `a` and `b` have a common ancestor.
pub fn share_history(facts: &Facts, dir: &str, a: &str, b: &str) -> (r: Result<bool, Stop>)
    ensures
        git::agrees(r, related(facts@, dir@, a@, b@)),
{
    match facts.try_capture(Query::new(Topic::MergeBase, dir, a, b))? {
        Some(base) => Ok(!base.as_str().is_empty()),
        None => Ok(false),
    }
}

/// The first of `names` that is among `preferred`.
pub open spec fn first_among(names: Seq<Text>, preferred: Seq<Text>) -> Option<Text>
    decreases names.len(),
{
    if names.len() == 0 {
        None
    } else if preferred.contains(names[0]) {
        Some(names[0])
    } else {
        first_among(names.drop_first(), preferred)
    }
}

/// The branch that stands for the commit `sha` in a lineage: of those with their
/// tip there, the first that has a worktree, else the first. None stands for a
/// commit without branches, nor for the trunk's own tip.
pub open spec fn level(st: StackModel, sha: Text) -> Option<Text> {
    let names = porcelain::branches_at(st.tips, sha);
    if names.len() == 0 || names.contains(st.trunk) {
        None
    } else {
        match first_among(names, st.checked_out) {
            Some(name) => Some(name),
            None => Some(names[0]),
        }
    }
}

/// `line` without the mark of a boundary commit.
pub open spec fn unmarked(line: Text) -> Text {
    match text::stripped(line, "-"@) {
        Some(sha) => sha,
        None => line,
    }
}

/// `chain` continued by the branches that stand for the commits `revs`, each once.
pub open spec fn descend(st: StackModel, chain: Seq<Text>, revs: Seq<Text>) -> Seq<Text>
    decreases revs.len(),
{
    if revs.len() == 0 {
        chain
    } else {
        let next = match level(st, unmarked(revs[0])) {
            Some(name) => if chain.contains(name) {
                chain
            } else {
                chain.push(name)
            },
            None => chain,
        };
        descend(st, next, revs.drop_first())
    }
}

/// The lineage of `branch`, given the commits from its tip down to where it left
/// the trunk: the trunk first, `branch` last. Its own tip does not count.
pub open spec fn chain_of(st: StackModel, branch: Text, revs: Seq<Text>) -> Seq<Text> {
    let older = if revs.len() == 0 {
        revs
    } else {
        revs.drop_first()
    };
    descend(st, seq![branch], older).push(st.trunk).reverse()
}

/// The lineage of `branch`: the trunk first, `branch` last. A branch that is the
/// trunk, or has nothing in common with it, stands alone.
pub open spec fn lineage_of(known: Known, st: StackModel, branch: Text) -> Result<
    Seq<Text>,
    StopModel,
> {
    if branch == st.trunk {
        Ok(seq![branch])
    } else {
        match related(known, st.dir, st.trunk, branch) {
            Err(stop) => Err(stop),
            Ok(false) => Ok(seq![branch]),
            Ok(true) => match git::optional(
                known,
                git::query(Topic::StackRevs, st.dir, st.trunk, branch),
            ) {
                Err(stop) => Err(stop),
                Ok(None) => Ok(chain_of(st, branch, Seq::empty())),
                Ok(Some(out)) => Ok(chain_of(st, branch, text::lines_of(out))),
            },
        }
    }
}

fn find_first_among(names: &Vec<String>, preferred: &Vec<String>) -> (r: Option<String>)
    ensures
        r.deep_view() == first_among(names.deep_view(), preferred.deep_view()),
{
    let ghost all = names.deep_view();
    let mut i: usize = 0;
    assert(all.skip(0) =~= all);
    while i < names.len()
        invariant
            i <= names.len(),
            all == names.deep_view(),
            first_among(all.skip(i as int), preferred.deep_view()) == first_among(
                all,
                preferred.deep_view(),
            ),
        decreases names.len() - i,
    {
        let ghost rest = all.skip(i as int);
        assert(rest[0] == names@[i as int]@);
        assert(rest.drop_first() =~= all.skip(i + 1));
        if has_text(preferred, names[i].as_str()) {
            return Some(names[i].clone());
        }
        i += 1;
    }
    None
}

fn level_at(st: &Stack, sha: &str) -> (r: Option<String>)
    ensures
        r.deep_view() == level(st.deep_view(), sha@),
{
    let names = names_at(&st.tips, sha);
    assert(names.deep_view().len() == names.len());
    if names.len() == 0 || has_text(&names, st.trunk.as_str()) {
        return None;
    }
    match find_first_among(&names, &st.checked_out) {
        Some(name) => Some(name),
        None => Some(names[0].clone()),
    }
}

fn reversed(list: Vec<String>) -> (r: Vec<String>)
    ensures
        r.deep_view() == list.deep_view().reverse(),
{
    let mut out: Vec<String> = Vec::new();
    let mut i: usize = list.len();
    while i > 0
        invariant
            i <= list.len(),
            out.len() == list.len() - i,
            forall|k: int| 0 <= k < out.len() ==> (#[trigger] out@[k])@ == list@[list.len() - 1 - k]@,
        decreases i,
    {
        i -= 1;
        out.push(list[i].clone());
    }
    assert(out.deep_view() =~= list.deep_view().reverse());
    out
}

fn build_chain(st: &Stack, branch: &str, revs: &Vec<String>) -> (r: Vec<String>)
    ensures
        r.deep_view() == chain_of(st.deep_view(), branch@, revs.deep_view()),
{
    let ghost model = st.deep_view();
    let ghost all = revs.deep_view();
    let ghost older = if all.len() == 0 {
        all
    } else {
        all.drop_first()
    };
    let mut chain: Vec<String> = empty_list();
    grow(&mut chain, branch.to_owned());
    let mut i: usize = 1;
    assert(all.len() > 0 ==> all.skip(1) =~= older);
    while i < revs.len()
        invariant
            1 <= i,
            all.len() > 0 ==> i <= all.len(),
            all == revs.deep_view(),
            model == st.deep_view(),
            all.len() > 0 ==> descend(model, chain.deep_view(), all.skip(i as int)) == descend(
                model,
                seq![branch@],
                older,
            ),
            all.len() == 0 ==> chain.deep_view() == seq![branch@],
        decreases revs.len() - i,
    {
        let line = revs[i].as_str();
        let ghost rest = all.skip(i as int);
        assert(rest[0] == line@);
        assert(rest.drop_first() =~= all.skip(i + 1));
        let sha = match strip_prefix(line, "-") {
            Some(sha) => sha,
            None => line.to_owned(),
        };
        if let Some(name) = level_at(st, sha.as_str()) {
            if !has_text(&chain, name.as_str()) {
                grow(&mut chain, name);
            }
        }
        i += 1;
    }
    grow(&mut chain, st.trunk.clone());
    reversed(chain)
}

/// The lineage of `branch`: the trunk first, `branch` last.
pub fn lineage(facts: &Facts, st: &Stack, branch: &str) -> (r: Result<Vec<String>, Stop>)
    ensures
        git::agrees(r, lineage_of(facts@, st.deep_view(), branch@)),
{
    if same(branch, st.trunk.as_str()) || !share_history(
        facts,
        st.dir.as_str(),
        st.trunk.as_str(),
        branch,
    )? {
        let mut alone: Vec<String> = empty_list();
        grow(&mut alone, branch.to_owned());
        return Ok(alone);
    }
    let revs = match facts.try_capture(
        Query::new(Topic::StackRevs, st.dir.as_str(), st.trunk.as_str(), branch),
    )? {
        Some(out) => lines(out.as_str()),
        None => empty_list(),
    };
    Ok(build_chain(st, branch, &revs))
}

/// The lineages that a series of entries remembers: the last entry on a branch counts.
pub open spec fn remembered(entries: Seq<(Text, Seq<Text>)>) -> Map<Text, Seq<Text>>
    decreases entries.len(),
{
    if entries.len() == 0 {
        Map::empty()
    } else {
        remembered(entries.drop_last()).insert(entries.last().0, entries.last().1)
    }
}

/// Lineages that have been told already.
pub struct Memo {
    entries: Vec<(String, Vec<String>)>,
}

impl View for Memo {
    /// The lineage of each branch that has been told.
    type V = Map<Text, Seq<Text>>;

    closed spec fn view(&self) -> Map<Text, Seq<Text>> {
        remembered(self.entries.deep_view())
    }
}

impl Memo {
    /// True if every lineage in the memo is the one that `known` gives.
    pub open spec fn coherent(&self, known: Known, st: StackModel) -> bool {
        forall|branch: Text| #[trigger]
            self@.contains_key(branch) ==> lineage_of(known, st, branch) == Ok::<
                Seq<Text>,
                StopModel,
            >(self@[branch])
    }

    /// Nothing has been told.
    pub fn new() -> (r: Memo)
        ensures
            r@ == Map::<Text, Seq<Text>>::empty(),
            forall|known: Known, st: StackModel| r.coherent(known, st),
    {
        let r = Memo { entries: Vec::new() };
        assert(r.entries.deep_view() =~= Seq::empty());
        r
    }

    /// The lineage of `branch`, if it has been told.
    fn get(&self, branch: &str) -> (r: Option<&Vec<String>>)
        ensures
            r.deep_view() == (if self@.contains_key(branch@) {
                Some(self@[branch@])
            } else {
                None
            }),
    {
        let ghost all = self.entries.deep_view();
        let mut i: usize = self.entries.len();
        assert(all.take(i as int) =~= all);
        while i > 0
            invariant
                i <= self.entries.len(),
                all == self.entries.deep_view(),
                self@ == remembered(all),
                remembered(all.take(i as int)).contains_key(branch@) == self@.contains_key(branch@),
                self@.contains_key(branch@) ==> remembered(all.take(i as int))[branch@]
                    == self@[branch@],
            decreases i,
        {
            let ghost head = all.take(i as int);
            assert(head.drop_last() =~= all.take(i - 1));
            assert(head.last() == all[i - 1]);
            if same(self.entries[i - 1].0.as_str(), branch) {
                return Some(&self.entries[i - 1].1);
            }
            i -= 1;
        }
        None
    }
}

/// The lineage of `branch`, told once and remembered in `memo`.
pub fn lineage_cached(facts: &Facts, st: &Stack, branch: &str, memo: &mut Memo) -> (r: Result<
    Vec<String>,
    Stop,
>)
    requires
        old(memo).coherent(facts@, st.deep_view()),
    ensures
        git::agrees(r, lineage_of(facts@, st.deep_view(), branch@)),
        final(memo).coherent(facts@, st.deep_view()),
        final(memo)@ == (match lineage_of(facts@, st.deep_view(), branch@) {
            Ok(chain) => old(memo)@.insert(branch@, chain),
            Err(stop) => old(memo)@,
        }),
{
    if let Some(chain) = memo.get(branch) {
        assert(memo@.insert(branch@, chain.deep_view()) =~= memo@);
        return Ok(copy_texts(chain));
    }
    let chain = lineage(facts, st, branch)?;
    let ghost before = memo.entries.deep_view();
    memo.entries.push((branch.to_owned(), copy_texts(&chain)));
    proof {
        let after = memo.entries.deep_view();
        assert(after =~= before.push((branch@, chain.deep_view())));
        assert(after.drop_last() =~= before);
    }
    Ok(chain)
}

// ---------------------------------------------------------------------------
// Children
// ---------------------------------------------------------------------------

/// The branches stacked directly on a branch. `N` holds a count.
pub enum Children<L = Vec<String>, N = usize> {
    /// There are none.
    Leaf,
    /// These, those with a worktree first, and each group in dictionary order.
    Immediate(L),
    /// There are this many descendants: too many to tell the children.
    Many(N),
}

/// The value of a branch's children.
pub type ChildrenModel = Children<Seq<Text>, nat>;

impl DeepView for Children<Vec<String>, usize> {
    type V = ChildrenModel;

    open spec fn deep_view(&self) -> ChildrenModel {
        match self {
            Children::Leaf => Children::Leaf,
            Children::Immediate(list) => Children::Immediate(list.deep_view()),
            Children::Many(n) => Children::Many(*n as nat),
        }
    }
}

/// Up to how many descendants are looked at one by one.
pub const CHILDREN_FILTER_CAP: usize = 100;

/// `list` without `a` and `b`.
pub open spec fn without(list: Seq<Text>, a: Text, b: Text) -> Seq<Text>
    decreases list.len(),
{
    if list.len() == 0 {
        Seq::empty()
    } else if list[0] == a || list[0] == b {
        without(list.drop_first(), a, b)
    } else {
        seq![list[0]] + without(list.drop_first(), a, b)
    }
}

/// The branches whose history contains the tip of `parent`, but for itself and the
/// trunk.
pub open spec fn descendants(known: Known, st: StackModel, parent: Text) -> Result<
    Seq<Text>,
    StopModel,
> {
    match git::optional(known, git::query(Topic::Containing, st.dir, parent, ""@)) {
        Err(stop) => Err(stop),
        Ok(None) => Ok(Seq::empty()),
        Ok(Some(out)) => Ok(without(text::lines_of(out), parent, st.trunk)),
    }
}

/// The branch right below the last of `chain`.
pub open spec fn below_last(chain: Seq<Text>) -> Option<Text> {
    if chain.len() >= 2 {
        Some(chain[chain.len() - 2])
    } else {
        None
    }
}

/// Those of `list` that have `parent` right below them.
pub open spec fn stacked_on(known: Known, st: StackModel, parent: Text, list: Seq<Text>) -> Result<
    Seq<Text>,
    StopModel,
>
    decreases list.len(),
{
    if list.len() == 0 {
        Ok(Seq::empty())
    } else {
        match lineage_of(known, st, list[0]) {
            Err(stop) => Err(stop),
            Ok(chain) => if below_last(chain) == Some(parent) {
                repo::after(seq![list[0]], stacked_on(known, st, parent, list.drop_first()))
            } else {
                stacked_on(known, st, parent, list.drop_first())
            },
        }
    }
}

/// True if `a` goes before `b` in a list of children, or is `b`: branches with a
/// worktree first, then in dictionary order.
pub open spec fn ahead_of(checked_out: Seq<Text>, a: Text, b: Text) -> bool {
    if checked_out.contains(a) == checked_out.contains(b) {
        text::text_le(a, b)
    } else {
        checked_out.contains(a)
    }
}

/// The order of children.
pub open spec fn child_order(checked_out: Seq<Text>) -> spec_fn(Text, Text) -> bool {
    |a: Text, b: Text| ahead_of(checked_out, a, b)
}

/// The first of `list` at each commit, and those without one. The commits `seen`
/// are taken already.
pub open spec fn one_per_commit(tips: Seq<TipModel>, list: Seq<Text>, seen: Seq<Text>) -> Seq<Text>
    decreases list.len(),
{
    if list.len() == 0 {
        Seq::empty()
    } else {
        match porcelain::tip_commit(tips, list[0]) {
            None => seq![list[0]] + one_per_commit(tips, list.drop_first(), seen),
            Some(sha) => if seen.contains(sha) {
                one_per_commit(tips, list.drop_first(), seen)
            } else {
                seq![list[0]] + one_per_commit(tips, list.drop_first(), seen.push(sha))
            },
        }
    }
}

/// The children to show, of those that have the parent right below them.
pub open spec fn presented(st: StackModel, kids: Seq<Text>) -> Seq<Text> {
    one_per_commit(st.tips, kids.sort_by(child_order(st.checked_out)), Seq::empty())
}

/// The branches stacked directly on `parent`.
pub open spec fn children_of(known: Known, st: StackModel, parent: Text) -> Result<
    ChildrenModel,
    StopModel,
> {
    match descendants(known, st, parent) {
        Err(stop) => Err(stop),
        Ok(list) => if list.len() == 0 {
            Ok(Children::Leaf)
        } else if list.len() > CHILDREN_FILTER_CAP {
            Ok(Children::Many(list.len()))
        } else {
            match stacked_on(known, st, parent, list) {
                Err(stop) => Err(stop),
                Ok(kids) => {
                    let shown = presented(st, kids);
                    if shown.len() == 0 {
                        Ok(Children::Leaf)
                    } else {
                        Ok(Children::Immediate(shown))
                    }
                },
            }
        },
    }
}

/// What a memo that holds `memo` holds once the lineages of `list` have been looked
/// up, one after another, until one cannot be told.
pub open spec fn recalled(
    known: Known,
    st: StackModel,
    memo: Map<Text, Seq<Text>>,
    list: Seq<Text>,
) -> Map<Text, Seq<Text>>
    decreases list.len(),
{
    if list.len() == 0 {
        memo
    } else {
        match lineage_of(known, st, list[0]) {
            Err(stop) => memo,
            Ok(chain) => recalled(known, st, memo.insert(list[0], chain), list.drop_first()),
        }
    }
}

/// What a memo holds once the children of `parent` have been told: the lineages of
/// the descendants are looked up, unless there are too many of them.
pub open spec fn recalled_children(
    known: Known,
    st: StackModel,
    memo: Map<Text, Seq<Text>>,
    parent: Text,
) -> Map<Text, Seq<Text>> {
    match descendants(known, st, parent) {
        Err(stop) => memo,
        Ok(list) => if list.len() > CHILDREN_FILTER_CAP {
            memo
        } else {
            recalled(known, st, memo, list)
        },
    }
}

/// The order of children is total.
pub proof fn lemma_child_order(checked_out: Seq<Text>)
    ensures
        vstd::relations::total_ordering(child_order(checked_out)),
{
    let leq = child_order(checked_out);
    assert forall|a: Text| #[trigger] leq(a, a) by {
        text::lemma_text_le_reflexive(a);
    }
    assert forall|a: Text, b: Text| #[trigger] leq(a, b) && #[trigger] leq(b, a) implies a == b by {
        text::lemma_text_le_antisymmetric(a, b);
    }
    assert forall|a: Text, b: Text, c: Text| #[trigger]
        leq(a, b) && #[trigger] leq(b, c) implies leq(a, c) by {
        if checked_out.contains(a) == checked_out.contains(b) && checked_out.contains(b)
            == checked_out.contains(c) {
            text::lemma_text_le_transitive(a, b, c);
        }
    }
    assert forall|a: Text, b: Text| #[trigger] leq(a, b) || #[trigger] leq(b, a) by {
        text::lemma_text_le_total(a, b);
    }
}

fn goes_before(checked_out: &Vec<String>, a: &str, b: &str) -> (r: bool)
    ensures
        r == ahead_of(checked_out.deep_view(), a@, b@),
{
    let (x, y) = (has_text(checked_out, a), has_text(checked_out, b));
    if x == y {
        not_after(a, b)
    } else {
        x
    }
}

proof fn lemma_insert_sorted(s: Seq<Text>, p: int, x: Text, leq: spec_fn(Text, Text) -> bool)
    requires
        0 <= p <= s.len(),
        vstd::relations::sorted_by(s, leq),
        vstd::relations::total_ordering(leq),
        forall|k: int| 0 <= k < p ==> leq(#[trigger] s[k], x),
        p < s.len() ==> !leq(s[p], x),
    ensures
        vstd::relations::sorted_by(s.insert(p, x), leq),
{
    let t = s.insert(p, x);
    assert forall|i: int, j: int| 0 <= i < j < t.len() implies #[trigger] leq(t[i], t[j]) by {
        if i < p && j < p {
            assert(t[i] == s[i] && t[j] == s[j]);
        } else if i < p && j == p {
            assert(t[i] == s[i] && t[j] == x);
        } else if i < p {
            assert(t[i] == s[i] && t[j] == s[j - 1]);
        } else if i == p {
            assert(t[i] == x && t[j] == s[j - 1]);
            assert(leq(s[p], x) || leq(x, s[p]));
            if j - 1 > p {
                assert(leq(s[p], s[j - 1]));
                assert(leq(x, s[p]) && leq(s[p], s[j - 1]) ==> leq(x, s[j - 1]));
            }
        } else {
            assert(t[i] == s[i - 1] && t[j] == s[j - 1]);
        }
    }
}

fn sort_children(checked_out: &Vec<String>, kids: Vec<String>) -> (r: Vec<String>)
    ensures
        r.deep_view() == kids.deep_view().sort_by(child_order(checked_out.deep_view())),
{
    let ghost leq = child_order(checked_out.deep_view());
    let ghost all = kids.deep_view();
    let mut out: Vec<String> = empty_list();
    let mut i: usize = 0;
    proof {
        lemma_child_order(checked_out.deep_view());
        assert(all.take(0) =~= Seq::<Text>::empty());
    }
    while i < kids.len()
        invariant
            i <= kids.len(),
            all == kids.deep_view(),
            leq == child_order(checked_out.deep_view()),
            vstd::relations::total_ordering(leq),
            vstd::relations::sorted_by(out.deep_view(), leq),
            out.deep_view().to_multiset() == all.take(i as int).to_multiset(),
        decreases kids.len() - i,
    {
        let x = kids[i].clone();
        let mut p: usize = 0;
        while p < out.len() && goes_before(checked_out, out[p].as_str(), x.as_str())
            invariant
                p <= out.len(),
                leq == child_order(checked_out.deep_view()),
                forall|k: int| 0 <= k < p ==> leq(#[trigger] out.deep_view()[k], x@),
            decreases out.len() - p,
        {
            assert(out.deep_view()[p as int] == out@[p as int]@);
            p += 1;
        }
        let ghost before = out.deep_view();
        proof {
            if p < out.len() {
                assert(before[p as int] == out@[p as int]@);
            }
            lemma_insert_sorted(before, p as int, x@, leq);
            vstd::seq_lib::to_multiset_insert(before, p as int, x@);
            assert(all.take(i + 1) =~= all.take(i as int).push(all[i as int]));
            vstd::seq_lib::to_multiset_build(all.take(i as int), all[i as int]);
        }
        out.insert(p, x);
        assert(out.deep_view() =~= before.insert(p as int, x@));
        i += 1;
    }
    proof {
        assert(all.take(i as int) =~= all);
        all.lemma_sort_by_ensures(leq);
        vstd::seq_lib::lemma_sorted_unique(out.deep_view(), all.sort_by(leq), leq);
    }
    out
}

fn dedup_commits(tips: &Vec<Tip>, list: Vec<String>) -> (r: Vec<String>)
    ensures
        r.deep_view() == one_per_commit(tips.deep_view(), list.deep_view(), Seq::empty()),
{
    let ghost model = tips.deep_view();
    let ghost all = list.deep_view();
    let ghost goal = one_per_commit(model, all, Seq::empty());
    let mut seen: Vec<String> = empty_list();
    let mut out: Vec<String> = empty_list();
    let mut i: usize = 0;
    assert(all.skip(0) =~= all);
    assert(out.deep_view() + goal =~= goal);
    while i < list.len()
        invariant
            i <= list.len(),
            all == list.deep_view(),
            model == tips.deep_view(),
            out.deep_view() + one_per_commit(model, all.skip(i as int), seen.deep_view()) == goal,
        decreases list.len() - i,
    {
        let name = list[i].clone();
        let ghost rest = all.skip(i as int);
        let ghost before = out.deep_view();
        assert(rest[0] == name@);
        assert(rest.drop_first() =~= all.skip(i + 1));
        match commit_of(tips, name.as_str()) {
            None => {
                let ghost tail = one_per_commit(model, all.skip(i + 1), seen.deep_view());
                assert(before.push(name@) + tail =~= before + (seq![name@] + tail));
                grow(&mut out, name);
            },
            Some(sha) => {
                if !has_text(&seen, sha.as_str()) {
                    grow(&mut seen, sha);
                    let ghost tail = one_per_commit(model, all.skip(i + 1), seen.deep_view());
                    assert(before.push(name@) + tail =~= before + (seq![name@] + tail));
                    grow(&mut out, name);
                }
            },
        }
        i += 1;
    }
    assert(out.deep_view() + Seq::<Text>::empty() =~= out.deep_view());
    out
}

fn drop_two(list: &Vec<String>, a: &str, b: &str) -> (r: Vec<String>)
    ensures
        r.deep_view() == without(list.deep_view(), a@, b@),
{
    let ghost all = list.deep_view();
    let mut out: Vec<String> = empty_list();
    let mut i: usize = 0;
    assert(all.skip(0) =~= all);
    assert(out.deep_view() + without(all, a@, b@) =~= without(all, a@, b@));
    while i < list.len()
        invariant
            i <= list.len(),
            all == list.deep_view(),
            out.deep_view() + without(all.skip(i as int), a@, b@) == without(all, a@, b@),
        decreases list.len() - i,
    {
        let ghost rest = all.skip(i as int);
        let ghost before = out.deep_view();
        assert(rest[0] == list@[i as int]@);
        assert(rest.drop_first() =~= all.skip(i + 1));
        if !same(list[i].as_str(), a) && !same(list[i].as_str(), b) {
            let name = list[i].clone();
            let ghost tail = without(all.skip(i + 1), a@, b@);
            assert(before.push(name@) + tail =~= before + (seq![name@] + tail));
            grow(&mut out, name);
        }
        i += 1;
    }
    assert(out.deep_view() + Seq::<Text>::empty() =~= out.deep_view());
    out
}

fn filter_stacked(
    facts: &Facts,
    st: &Stack,
    parent: &str,
    list: &Vec<String>,
    memo: &mut Memo,
) -> (r: Result<
    Vec<String>,
    Stop,
>)
    requires
        old(memo).coherent(facts@, st.deep_view()),
    ensures
        git::agrees(r, stacked_on(facts@, st.deep_view(), parent@, list.deep_view())),
        final(memo).coherent(facts@, st.deep_view()),
        final(memo)@ == recalled(facts@, st.deep_view(), old(memo)@, list.deep_view()),
{
    let ghost known = facts@;
    let ghost model = st.deep_view();
    let ghost all = list.deep_view();
    let ghost goal = stacked_on(known, model, parent@, all);
    let ghost end = recalled(known, model, memo@, all);
    let mut out: Vec<String> = empty_list();
    let mut i: usize = 0;
    assert(all.skip(0) =~= all);
    assert(goal matches Ok(s) ==> out.deep_view() + s =~= s);
    while i < list.len()
        invariant
            i <= list.len(),
            all == list.deep_view(),
            model == st.deep_view(),
            known == facts@,
            goal == stacked_on(known, model, parent@, all),
            end == recalled(known, model, old(memo)@, all),
            memo.coherent(known, model),
            recalled(known, model, memo@, all.skip(i as int)) == end,
            repo::after(out.deep_view(), stacked_on(known, model, parent@, all.skip(i as int)))
                == goal,
        decreases list.len() - i,
    {
        let name = list[i].as_str();
        let ghost rest = all.skip(i as int);
        let ghost before = out.deep_view();
        let ghost tail = stacked_on(known, model, parent@, all.skip(i + 1));
        assert(rest[0] == name@);
        assert(rest.drop_first() =~= all.skip(i + 1));
        let chain = lineage_cached(facts, st, name, memo)?;
        assert(chain.deep_view().len() == chain.len());
        if chain.len() >= 2 && same(chain[chain.len() - 2].as_str(), parent) {
            assert(below_last(chain.deep_view()) == Some(parent@));
            assert(tail matches Ok(s) ==> before.push(name@) + s =~= before + (seq![name@] + s));
            grow(&mut out, list[i].clone());
        } else {
            assert(below_last(chain.deep_view()) != Some(parent@));
        }
        i += 1;
    }
    assert(out.deep_view() + Seq::<Text>::empty() =~= out.deep_view());
    Ok(out)
}

/// The branches stacked directly on `parent`.
pub fn direct_children(facts: &Facts, st: &Stack, parent: &str, memo: &mut Memo) -> (r: Result<
    Children,
    Stop,
>)
    requires
        old(memo).coherent(facts@, st.deep_view()),
    ensures
        git::agrees(r, children_of(facts@, st.deep_view(), parent@)),
        final(memo).coherent(facts@, st.deep_view()),
        final(memo)@ == recalled_children(facts@, st.deep_view(), old(memo)@, parent@),
{
    let list: Vec<String> = match facts.try_capture(
        Query::new(Topic::Containing, st.dir.as_str(), parent, ""),
    )? {
        Some(out) => drop_two(&lines(out.as_str()), parent, st.trunk.as_str()),
        None => empty_list(),
    };
    assert(list.deep_view().len() == list.len());
    if list.len() == 0 {
        return Ok(Children::Leaf);
    }
    if list.len() > CHILDREN_FILTER_CAP {
        return Ok(Children::Many(list.len()));
    }
    let kids = filter_stacked(facts, st, parent, &list, memo)?;
    let shown = dedup_commits(&st.tips, sort_children(&st.checked_out, kids));
    assert(shown.deep_view().len() == shown.len());
    if shown.len() == 0 {
        Ok(Children::Leaf)
    } else {
        Ok(Children::Immediate(shown))
    }
}

} // verus!
