//! Reading what git prints.

use crate::text;
use crate::text::{
    chars_of, empty_list, grow, lines, parse_usize, same, split_once, split_whitespace, strip_prefix,
    Text,
};
use vstd::prelude::*;

verus! {

// ---------------------------------------------------------------------------
// git worktree list --porcelain
// ---------------------------------------------------------------------------

/// An entry of the list of worktrees.
pub struct Worktree<S = String> {
    pub path: S,
    /// The branch checked out, or `bare` or `detached`. A branch may have one of
    /// these names: the flags tell, not the label.
    pub label: S,
    /// The entry is the bare repository itself, which has no checkout.
    pub bare: bool,
    /// HEAD is detached.
    pub detached: bool,
}

/// The value of a worktree.
pub type WorktreeModel = Worktree<Text>;

impl DeepView for Worktree<String> {
    type V = WorktreeModel;

    open spec fn deep_view(&self) -> WorktreeModel {
        Worktree {
            path: self.path@,
            label: self.label@,
            bare: self.bare,
            detached: self.detached,
        }
    }
}

/// The label that the lines of an entry give it: the last one that names a branch,
/// or says `bare` or `detached`, counts.
pub open spec fn label_of(attrs: Seq<Text>) -> Text
    decreases attrs.len(),
{
    if attrs.len() == 0 {
        "detached"@
    } else {
        let line = attrs.last();
        match text::stripped(line, "branch refs/heads/"@) {
            Some(branch) => branch,
            None => if line == "bare"@ || line == "detached"@ {
                line
            } else {
                label_of(attrs.drop_last())
            },
        }
    }
}

/// The entry at `path` with these lines.
pub open spec fn entry(path: Text, attrs: Seq<Text>) -> WorktreeModel {
    Worktree {
        path,
        label: label_of(attrs),
        bare: attrs.contains("bare"@),
        detached: attrs.contains("detached"@),
    }
}

/// The entries that `rest` completes and begins. A line `worktree <path>` begins
/// an entry; `open` is the path of the entry begun before `rest`, and `attrs` are
/// the lines read since.
pub open spec fn entries(
    open: Option<Text>,
    attrs: Seq<Text>,
    rest: Seq<Text>,
) -> Seq<WorktreeModel>
    decreases rest.len(),
{
    if rest.len() == 0 {
        match open {
            Some(path) => seq![entry(path, attrs)],
            None => Seq::empty(),
        }
    } else {
        match text::stripped(rest[0], "worktree "@) {
            Some(next) => match open {
                Some(path) => seq![entry(path, attrs)] + entries(
                    Some(next),
                    Seq::empty(),
                    rest.drop_first(),
                ),
                None => entries(Some(next), attrs, rest.drop_first()),
            },
            None => entries(open, attrs.push(rest[0]), rest.drop_first()),
        }
    }
}

/// The worktrees that `porcelain` lists.
pub open spec fn worktrees(porcelain: Text) -> Seq<WorktreeModel> {
    entries(None, Seq::empty(), text::lines_of(porcelain))
}

/// Reads the output of `git worktree list --porcelain`.
pub fn parse_worktrees(porcelain: &str) -> (r: Vec<Worktree>)
    ensures
        r.deep_view() == worktrees(porcelain@),
{
    let list = lines(porcelain);
    let ghost all = list.deep_view();
    let mut out: Vec<Worktree> = empty_list();
    let mut open: Option<String> = None;
    let mut label = "detached".to_owned();
    let mut bare: bool = false;
    let mut detached: bool = false;
    let ghost mut attrs: Seq<Text> = Seq::empty();
    let mut i: usize = 0;
    assert(all.skip(0) =~= all);
    assert(out.deep_view() + worktrees(porcelain@) =~= worktrees(porcelain@));
    while i < list.len()
        invariant
            i <= list.len(),
            all == list.deep_view(),
            label@ == label_of(attrs),
            bare == attrs.contains("bare"@),
            detached == attrs.contains("detached"@),
            out.deep_view() + entries(open.deep_view(), attrs, all.skip(i as int)) == worktrees(
                porcelain@,
            ),
        decreases list.len() - i,
    {
        let line = list[i].as_str();
        let ghost rest = all.skip(i as int);
        let ghost before = out.deep_view();
        assert(rest[0] == line@);
        assert(rest.drop_first() =~= all.skip(i + 1));
        if let Some(next) = strip_prefix(line, "worktree ") {
            if let Some(path) = open {
                let done = Worktree { path, label, bare, detached };
                let ghost tail = entries(Some(next@), Seq::empty(), all.skip(i + 1));
                assert(done.deep_view() == entry(path@, attrs));
                assert(before.push(done.deep_view()) + tail =~= before + (seq![done.deep_view()]
                    + tail));
                grow(&mut out, done);
                label = "detached".to_owned();
                bare = false;
                detached = false;
                proof {
                    attrs = Seq::empty();
                }
            }
            open = Some(next);
        } else {
            let ghost was = attrs;
            proof {
                attrs = attrs.push(line@);
                assert(attrs.drop_last() =~= was);
                lemma_push_contains(was, line@, "bare"@);
                lemma_push_contains(was, line@, "detached"@);
                reveal_strlit("bare");
                reveal_strlit("detached");
                reveal_strlit("branch refs/heads/");
            }
            if let Some(branch) = strip_prefix(line, "branch refs/heads/") {
                label = branch;
            } else if same(line, "bare") {
                bare = true;
                label = "bare".to_owned();
            } else if same(line, "detached") {
                detached = true;
                label = "detached".to_owned();
            }
        }
        i += 1;
    }
    if let Some(path) = open {
        grow(&mut out, Worktree { path, label, bare, detached });
    }
    assert(out.deep_view() =~= worktrees(porcelain@));
    out
}

proof fn lemma_push_contains(s: Seq<Text>, x: Text, t: Text)
    ensures
        s.push(x).contains(t) == (s.contains(t) || x == t),
{
    if s.contains(t) {
        let k = choose|k: int| 0 <= k < s.len() && s[k] == t;
        assert(s.push(x)[k] == t);
    }
    if x == t {
        assert(s.push(x)[s.len() as int] == t);
    }
    if s.push(x).contains(t) && x != t {
        let k = choose|k: int| 0 <= k < s.push(x).len() && s.push(x)[k] == t;
        assert(s[k] == t);
    }
}

/// True if a branch is checked out in `w`: it is neither the bare repository itself
/// nor a worktree with a detached HEAD. Only then is the label a branch.
pub open spec fn on_branch(w: WorktreeModel) -> bool {
    !w.bare && !w.detached
}

/// The path of the first worktree of `list` with `branch` checked out; never that
/// of the bare repository itself, nor that of one with a detached HEAD.
pub open spec fn checkout_of(list: Seq<WorktreeModel>, branch: Text) -> Option<Text>
    decreases list.len(),
{
    if list.len() == 0 {
        None
    } else if on_branch(list[0]) && list[0].label == branch {
        Some(list[0].path)
    } else {
        checkout_of(list.drop_first(), branch)
    }
}

/// What `checkout_of` finds.
pub proof fn lemma_checkout_of(list: Seq<WorktreeModel>, branch: Text)
    ensures
        checkout_of(list, branch) matches Some(p) ==> exists|i: int|
            0 <= i < list.len() && (#[trigger] list[i]).path == p && list[i].label == branch
                && !list[i].bare && !list[i].detached,
        checkout_of(list, branch) is None ==> forall|i: int|
            0 <= i < list.len() ==> list[i].bare || list[i].detached || (
            #[trigger] list[i]).label != branch,
    decreases list.len(),
{
    if list.len() > 0 {
        let rest = list.drop_first();
        lemma_checkout_of(rest, branch);
        assert(forall|i: int| 0 <= i < rest.len() ==> rest[i] == list[i + 1]);
        if on_branch(list[0]) && list[0].label == branch {
        } else {
            match checkout_of(rest, branch) {
                Some(p) => {
                    let k = choose|k: int|
                        0 <= k < rest.len() && (#[trigger] rest[k]).path == p && rest[k].label
                            == branch && !rest[k].bare && !rest[k].detached;
                    assert(list[k + 1].path == p);
                },
                None => {
                    assert forall|i: int| 0 <= i < list.len() implies list[i].bare
                        || list[i].detached || (#[trigger] list[i]).label != branch by {
                        if i > 0 {
                            assert(list[i] == rest[i - 1]);
                        }
                    }
                },
            }
        }
    }
}

/// The path of the worktree of `list` with `branch` checked out.
pub fn find_checkout(list: &Vec<Worktree>, branch: &str) -> (r: Option<String>)
    ensures
        r.deep_view() == checkout_of(list.deep_view(), branch@),
{
    let ghost all = list.deep_view();
    let mut i: usize = 0;
    assert(all.skip(0) =~= all);
    while i < list.len()
        invariant
            i <= list.len(),
            all == list.deep_view(),
            checkout_of(all.skip(i as int), branch@) == checkout_of(all, branch@),
        decreases list.len() - i,
    {
        let ghost rest = all.skip(i as int);
        assert(rest[0] == list@[i as int].deep_view());
        if !list[i].bare && !list[i].detached && same(list[i].label.as_str(), branch) {
            return Some(list[i].path.clone());
        }
        assert(rest.drop_first() =~= all.skip(i + 1));
        i += 1;
    }
    None
}

/// The path of the worktree with `branch` checked out, if any.
pub fn parse_worktree(porcelain: &str, branch: &str) -> (r: Option<String>)
    ensures
        r.deep_view() == checkout_of(worktrees(porcelain@), branch@),
{
    find_checkout(&parse_worktrees(porcelain), branch)
}

/// The branches that are checked out in the worktrees of `list`.
pub open spec fn labels(list: Seq<WorktreeModel>) -> Seq<Text>
    decreases list.len(),
{
    if list.len() == 0 {
        Seq::empty()
    } else if on_branch(list[0]) {
        seq![list[0].label] + labels(list.drop_first())
    } else {
        labels(list.drop_first())
    }
}

/// The branches that are checked out in the worktrees of `list`.
pub fn worktree_labels(list: &Vec<Worktree>) -> (r: Vec<String>)
    ensures
        r.deep_view() == labels(list.deep_view()),
{
    let ghost all = list.deep_view();
    let mut out: Vec<String> = empty_list();
    let mut i: usize = 0;
    assert(all.skip(0) =~= all);
    assert(out.deep_view() + labels(all) =~= labels(all));
    while i < list.len()
        invariant
            i <= list.len(),
            all == list.deep_view(),
            out.deep_view() + labels(all.skip(i as int)) == labels(all),
        decreases list.len() - i,
    {
        let ghost rest = all.skip(i as int);
        let ghost before = out.deep_view();
        assert(rest[0] == list@[i as int].deep_view());
        assert(rest.drop_first() =~= all.skip(i + 1));
        if !list[i].bare && !list[i].detached {
            let label = list[i].label.clone();
            let ghost tail = labels(all.skip(i + 1));
            assert(before.push(label@) + tail =~= before + (seq![label@] + tail));
            grow(&mut out, label);
        }
        i += 1;
    }
    assert(out.deep_view() + Seq::<Text>::empty() =~= out.deep_view());
    out
}

// ---------------------------------------------------------------------------
// git for-each-ref
// ---------------------------------------------------------------------------

/// A local branch and the commit at its tip.
pub struct Tip<S = String> {
    pub sha: S,
    pub name: S,
}

/// The value of a tip.
pub type TipModel = Tip<Text>;

impl DeepView for Tip<String> {
    type V = TipModel;

    open spec fn deep_view(&self) -> TipModel {
        Tip { sha: self.sha@, name: self.name@ }
    }
}

/// The tips that `list` names, one on a line: the commit, a space, the branch.
pub open spec fn tips_of(list: Seq<Text>) -> Seq<TipModel>
    decreases list.len(),
{
    if list.len() == 0 {
        Seq::empty()
    } else {
        match text::split_at_first(list[0], ' ') {
            Some((sha, name)) => seq![Tip { sha, name }] + tips_of(list.drop_first()),
            None => tips_of(list.drop_first()),
        }
    }
}

/// Reads the tips of the local branches.
pub fn parse_tips(out: &str) -> (r: Vec<Tip>)
    ensures
        r.deep_view() == tips_of(text::lines_of(out@)),
{
    let list = lines(out);
    let ghost all = list.deep_view();
    let mut tips: Vec<Tip> = empty_list();
    let mut i: usize = 0;
    assert(all.skip(0) =~= all);
    assert(tips.deep_view() + tips_of(all) =~= tips_of(all));
    while i < list.len()
        invariant
            i <= list.len(),
            all == list.deep_view(),
            tips.deep_view() + tips_of(all.skip(i as int)) == tips_of(all),
        decreases list.len() - i,
    {
        let ghost rest = all.skip(i as int);
        let ghost before = tips.deep_view();
        assert(rest[0] == list@[i as int]@);
        assert(rest.drop_first() =~= all.skip(i + 1));
        if let Some((sha, name)) = split_once(list[i].as_str(), ' ') {
            let tip = Tip { sha, name };
            let ghost tail = tips_of(all.skip(i + 1));
            assert(before.push(tip.deep_view()) + tail =~= before + (seq![tip.deep_view()] + tail));
            grow(&mut tips, tip);
        }
        i += 1;
    }
    assert(tips.deep_view() + Seq::<TipModel>::empty() =~= tips.deep_view());
    tips
}

/// True if `name` is a local branch.
pub open spec fn is_branch(tips: Seq<TipModel>, name: Text) -> bool {
    exists|i: int| 0 <= i < tips.len() && (#[trigger] tips[i]).name == name
}

/// True if `name` is a local branch.
pub fn has_branch(tips: &Vec<Tip>, name: &str) -> (r: bool)
    ensures
        r == is_branch(tips.deep_view(), name@),
{
    let mut i: usize = 0;
    while i < tips.len()
        invariant
            i <= tips.len(),
            forall|k: int| 0 <= k < i ==> (#[trigger] tips.deep_view()[k]).name != name@,
        decreases tips.len() - i,
    {
        if same(tips[i].name.as_str(), name) {
            assert(tips.deep_view()[i as int].name == name@);
            return true;
        }
        i += 1;
    }
    false
}

/// The branches whose tip is the commit `sha`.
pub open spec fn branches_at(tips: Seq<TipModel>, sha: Text) -> Seq<Text>
    decreases tips.len(),
{
    if tips.len() == 0 {
        Seq::empty()
    } else if tips[0].sha == sha {
        seq![tips[0].name] + branches_at(tips.drop_first(), sha)
    } else {
        branches_at(tips.drop_first(), sha)
    }
}

/// The branches whose tip is the commit `sha`.
pub fn names_at(tips: &Vec<Tip>, sha: &str) -> (r: Vec<String>)
    ensures
        r.deep_view() == branches_at(tips.deep_view(), sha@),
{
    let ghost all = tips.deep_view();
    let mut out: Vec<String> = empty_list();
    let mut i: usize = 0;
    assert(all.skip(0) =~= all);
    assert(out.deep_view() + branches_at(all, sha@) =~= branches_at(all, sha@));
    while i < tips.len()
        invariant
            i <= tips.len(),
            all == tips.deep_view(),
            out.deep_view() + branches_at(all.skip(i as int), sha@) == branches_at(all, sha@),
        decreases tips.len() - i,
    {
        let ghost rest = all.skip(i as int);
        let ghost before = out.deep_view();
        assert(rest[0] == tips@[i as int].deep_view());
        assert(rest.drop_first() =~= all.skip(i + 1));
        if same(tips[i].sha.as_str(), sha) {
            let name = tips[i].name.clone();
            let ghost tail = branches_at(all.skip(i + 1), sha@);
            assert(before.push(name@) + tail =~= before + (seq![name@] + tail));
            grow(&mut out, name);
        }
        i += 1;
    }
    assert(out.deep_view() + Seq::<Text>::empty() =~= out.deep_view());
    out
}

/// The commit at the tip of the branch `name`.
pub open spec fn tip_commit(tips: Seq<TipModel>, name: Text) -> Option<Text>
    decreases tips.len(),
{
    if tips.len() == 0 {
        None
    } else if tips[0].name == name {
        Some(tips[0].sha)
    } else {
        tip_commit(tips.drop_first(), name)
    }
}

/// The commit at the tip of the branch `name`.
pub fn commit_of(tips: &Vec<Tip>, name: &str) -> (r: Option<String>)
    ensures
        r.deep_view() == tip_commit(tips.deep_view(), name@),
{
    let ghost all = tips.deep_view();
    let mut i: usize = 0;
    assert(all.skip(0) =~= all);
    while i < tips.len()
        invariant
            i <= tips.len(),
            all == tips.deep_view(),
            tip_commit(all.skip(i as int), name@) == tip_commit(all, name@),
        decreases tips.len() - i,
    {
        let ghost rest = all.skip(i as int);
        assert(rest[0] == tips@[i as int].deep_view());
        if same(tips[i].name.as_str(), name) {
            return Some(tips[i].sha.clone());
        }
        assert(rest.drop_first() =~= all.skip(i + 1));
        i += 1;
    }
    None
}

// ---------------------------------------------------------------------------
// git status --porcelain
// ---------------------------------------------------------------------------

/// How many files of a worktree have changes.
pub struct Status<N = usize> {
    /// Changed files; one with changes of both kinds counts once.
    pub files: N,
    /// Files with changes in the index.
    pub staged: N,
    /// Files with changes in the working tree.
    pub unstaged: N,
    /// Files that git does not track.
    pub untracked: N,
}

/// The value of a status.
pub type StatusModel = Status<nat>;

impl DeepView for Status<usize> {
    type V = StatusModel;

    open spec fn deep_view(&self) -> StatusModel {
        Status {
            files: self.files as nat,
            staged: self.staged as nat,
            unstaged: self.unstaged as nat,
            untracked: self.untracked as nat,
        }
    }
}

/// The character of `line` at `i`, a space if it has none.
pub open spec fn column(line: Text, i: int) -> char {
    if i < line.len() {
        line[i]
    } else {
        ' '
    }
}

/// True if `line` tells of an untracked file.
pub open spec fn untracked_line(line: Text) -> bool {
    column(line, 0) == '?' && column(line, 1) == '?'
}

/// True if `line` tells of a change in the index.
pub open spec fn staged_line(line: Text) -> bool {
    !untracked_line(line) && column(line, 0) != ' '
}

/// True if `line` tells of a change in the working tree.
pub open spec fn unstaged_line(line: Text) -> bool {
    !untracked_line(line) && column(line, 1) != ' '
}

/// How many of `list` are as `pred` says.
pub open spec fn tally(list: Seq<Text>, pred: spec_fn(Text) -> bool) -> nat
    decreases list.len(),
{
    if list.len() == 0 {
        0
    } else {
        tally(list.drop_last(), pred) + (if pred(list.last()) {
            1nat
        } else {
            0
        })
    }
}

/// The status that these lines tell of.
pub open spec fn status_of(list: Seq<Text>) -> StatusModel {
    Status {
        files: list.len(),
        staged: tally(list, |l: Text| staged_line(l)),
        unstaged: tally(list, |l: Text| unstaged_line(l)),
        untracked: tally(list, |l: Text| untracked_line(l)),
    }
}

/// No more are counted than there are.
pub proof fn lemma_tally(list: Seq<Text>, pred: spec_fn(Text) -> bool)
    ensures
        tally(list, pred) <= list.len(),
    decreases list.len(),
{
    if list.len() > 0 {
        lemma_tally(list.drop_last(), pred);
    }
}

/// Reads the output of `git status --porcelain`.
pub fn parse_status(out: &str) -> (r: Status)
    ensures
        r.deep_view() == status_of(text::lines_of(out@)),
{
    let list = lines(out);
    let ghost all = list.deep_view();
    let mut st: Status = Status { files: 0, staged: 0, unstaged: 0, untracked: 0 };
    let mut i: usize = 0;
    assert(all.take(0).len() == 0);
    while i < list.len()
        invariant
            i <= list.len(),
            all == list.deep_view(),
            st.deep_view() == status_of(all.take(i as int)),
        decreases list.len() - i,
    {
        let cs = chars_of(list[i].as_str());
        let x: char = if cs.len() > 0 {
            cs[0]
        } else {
            ' '
        };
        let y: char = if cs.len() > 1 {
            cs[1]
        } else {
            ' '
        };
        proof {
            let now = all.take(i as int);
            let next = all.take(i + 1);
            assert(next.drop_last() =~= now);
            assert(next.last() == list@[i as int]@);
            lemma_tally(now, |l: Text| staged_line(l));
            lemma_tally(now, |l: Text| unstaged_line(l));
            lemma_tally(now, |l: Text| untracked_line(l));
        }
        st.files = st.files.saturating_add(1);
        if x == '?' && y == '?' {
            st.untracked = st.untracked.saturating_add(1);
        } else {
            if x != ' ' {
                st.staged = st.staged.saturating_add(1);
            }
            if y != ' ' {
                st.unstaged = st.unstaged.saturating_add(1);
            }
        }
        i += 1;
    }
    assert(all.take(i as int) =~= all);
    st
}

// ---------------------------------------------------------------------------
// git rev-list --left-right --count
// ---------------------------------------------------------------------------

/// How far HEAD and its upstream are apart, in commits.
pub struct AheadBehind {
    pub ahead: usize,
    pub behind: usize,
}

impl DeepView for AheadBehind {
    /// Behind, then ahead.
    type V = (nat, nat);

    open spec fn deep_view(&self) -> (nat, nat) {
        (self.behind as nat, self.ahead as nat)
    }
}

/// The two counts that `out` begins with: behind, then ahead.
pub open spec fn counts(out: Text) -> Option<(nat, nat)> {
    let w = text::words(out);
    if w.len() < 2 {
        None
    } else {
        match (text::number(w[0]), text::number(w[1])) {
            (Some(behind), Some(ahead)) => Some((behind, ahead)),
            _ => None,
        }
    }
}

/// Reads the two counts.
pub fn parse_counts(out: &str) -> (r: Option<AheadBehind>)
    ensures
        r.deep_view() == counts(out@),
{
    let w = split_whitespace(out);
    assert(text::words(out@).len() == w.len());
    if w.len() < 2 {
        return None;
    }
    assert(text::words(out@)[0] == w@[0]@);
    assert(text::words(out@)[1] == w@[1]@);
    match (parse_usize(w[0].as_str()), parse_usize(w[1].as_str())) {
        (Some(behind), Some(ahead)) => Some(AheadBehind { ahead, behind }),
        _ => None,
    }
}

} // verus!
