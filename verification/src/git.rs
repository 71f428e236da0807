//! Questions to git and to the file system, and the answers known so far.
//!
//! The crate itself runs nothing. A function that needs an answer looks it up in
//! [`Facts`]; where the answer is not known yet, the function stops and hands the
//! question back ([`Stop::Ask`]). The caller answers it, adds the answer with
//! [`Facts::learn`], and calls the function again.

use crate::error::{Error, ErrorModel};
use crate::text;
use crate::text::{empty_list, grow, same, trim, Text};
use vstd::prelude::*;

verus! {

/// What a [`Query`] is about. In the comments, `dir`, `subject` and `other` are
/// the fields of the query.
#[derive(Clone, Copy, PartialEq, Eq, Structural, Debug)]
pub enum Topic {
    /// `git rev-parse --is-bare-repository`, where the program was started.
    BareHere,
    /// `git rev-parse --show-toplevel`, where the program was started.
    TopLevel,
    /// `git rev-parse --git-common-dir` in `dir`.
    CommonDir,
    /// `git config --file <subject> --get core.bare`.
    CoreBare,
    /// `git worktree list --porcelain` in `dir`.
    Worktrees,
    /// `git show-ref --verify --quiet refs/heads/<subject>` in `dir`.
    LocalBranch,
    /// `git show-ref --verify --quiet refs/remotes/<subject>/<other>` in `dir`.
    RemoteBranch,
    /// `git remote` in `dir`.
    Remotes,
    /// `git for-each-ref` over the local branches in `dir`: object name and branch.
    Tips,
    /// `git symbolic-ref --quiet refs/remotes/origin/HEAD` in `dir`.
    RemoteHead,
    /// `git config init.defaultBranch` in `dir`.
    InitialBranch,
    /// `git merge-base <subject> <other>` in `dir`.
    MergeBase,
    /// `git rev-list --first-parent --boundary <subject>..<other>` in `dir`.
    StackRevs,
    /// `git branch --contains <subject>` in `dir`, names only.
    Containing,
    /// `git status --porcelain` in `dir`.
    Status,
    /// `git rev-list --left-right --count @{u}...HEAD` in `dir`.
    Divergence,
    /// `git symbolic-ref --quiet --short HEAD` in `dir`.
    Head,
    /// `git check-ignore --quiet <subject>` in `dir`.
    Ignored,
    /// `git rev-list --count <subject>..<other>` in `dir`.
    Beyond,
    /// The canonical form of the path `subject`.
    Canonical,
    /// Whether the path `subject` exists.
    Exists,
    /// The directory in which the program was started.
    CurrentDir,
}

/// A question: its topic and what it is asked of. Fields that the topic does not
/// use are empty.
pub struct Query<S = String> {
    pub topic: Topic,
    pub dir: S,
    pub subject: S,
    pub other: S,
}

/// The value of a query.
pub type QueryModel = Query<Text>;

impl DeepView for Query<String> {
    type V = QueryModel;

    open spec fn deep_view(&self) -> QueryModel {
        Query {
            topic: self.topic,
            dir: self.dir@,
            subject: self.subject@,
            other: self.other@,
        }
    }
}

/// The query with these fields.
pub open spec fn query(topic: Topic, dir: Text, subject: Text, other: Text) -> QueryModel {
    Query { topic, dir, subject, other }
}

/// The arguments of the git command that answers `q`; none for a question to the
/// file system.
pub open spec fn git_args(q: QueryModel) -> Seq<Text> {
    match q.topic {
        Topic::BareHere => seq!["rev-parse"@, "--is-bare-repository"@],
        Topic::TopLevel => seq!["rev-parse"@, "--show-toplevel"@],
        Topic::CommonDir => seq!["rev-parse"@, "--git-common-dir"@],
        Topic::CoreBare => seq!["config"@, "--file"@, q.subject, "--get"@, "core.bare"@],
        Topic::Worktrees => seq!["worktree"@, "list"@, "--porcelain"@],
        Topic::LocalBranch => seq![
            "show-ref"@,
            "--verify"@,
            "--quiet"@,
            "refs/heads/"@ + q.subject,
        ],
        Topic::RemoteBranch => seq![
            "show-ref"@,
            "--verify"@,
            "--quiet"@,
            "refs/remotes/"@ + q.subject + "/"@ + q.other,
        ],
        Topic::Remotes => seq!["remote"@],
        Topic::Tips => seq![
            "for-each-ref"@,
            "--format=%(objectname) %(refname:short)"@,
            "refs/heads/"@,
        ],
        Topic::RemoteHead => seq!["symbolic-ref"@, "--quiet"@, "refs/remotes/origin/HEAD"@],
        Topic::InitialBranch => seq!["config"@, "init.defaultBranch"@],
        Topic::MergeBase => seq!["merge-base"@, q.subject, q.other],
        Topic::StackRevs => seq![
            "rev-list"@,
            "--first-parent"@,
            "--boundary"@,
            q.subject + ".."@ + q.other,
        ],
        Topic::Containing => seq![
            "branch"@,
            "--contains"@,
            q.subject,
            "--format=%(refname:short)"@,
        ],
        Topic::Status => seq!["status"@, "--porcelain"@],
        Topic::Divergence => seq!["rev-list"@, "--left-right"@, "--count"@, "@{u}...HEAD"@],
        Topic::Head => seq!["symbolic-ref"@, "--quiet"@, "--short"@, "HEAD"@],
        Topic::Ignored => seq!["check-ignore"@, "--quiet"@, q.subject],
        Topic::Beyond => seq!["rev-list"@, "--count"@, q.subject + ".."@ + q.other],
        Topic::Canonical | Topic::Exists | Topic::CurrentDir => Seq::empty(),
    }
}

fn list1(a: &str) -> (r: Vec<String>)
    ensures
        r.deep_view() == seq![a@],
{
    let mut v: Vec<String> = empty_list();
    grow(&mut v, a.to_owned());
    v
}

fn list2(a: &str, b: &str) -> (r: Vec<String>)
    ensures
        r.deep_view() == seq![a@, b@],
{
    let mut v = list1(a);
    grow(&mut v, b.to_owned());
    v
}

fn list3(a: &str, b: &str, c: &str) -> (r: Vec<String>)
    ensures
        r.deep_view() == seq![a@, b@, c@],
{
    let mut v = list2(a, b);
    grow(&mut v, c.to_owned());
    v
}

fn list4(a: &str, b: &str, c: &str, d: &str) -> (r: Vec<String>)
    ensures
        r.deep_view() == seq![a@, b@, c@, d@],
{
    let mut v = list3(a, b, c);
    grow(&mut v, d.to_owned());
    v
}

fn range(from: &str, to: &str) -> (r: String)
    ensures
        r@ == from@ + ".."@ + to@,
{
    from.to_owned().concat("..").concat(to)
}

impl Query<String> {
    /// The query with these fields.
    pub fn new(topic: Topic, dir: &str, subject: &str, other: &str) -> (r: Query)
        ensures
            r.deep_view() == query(topic, dir@, subject@, other@),
    {
        Query {
            topic,
            dir: dir.to_owned(),
            subject: subject.to_owned(),
            other: other.to_owned(),
        }
    }

    /// The arguments of the git command that answers this query.
    pub fn args(&self) -> (r: Vec<String>)
        ensures
            r.deep_view() == git_args(self.deep_view()),
    {
        let subject = self.subject.as_str();
        let other = self.other.as_str();
        match self.topic {
            Topic::BareHere => list2("rev-parse", "--is-bare-repository"),
            Topic::TopLevel => list2("rev-parse", "--show-toplevel"),
            Topic::CommonDir => list2("rev-parse", "--git-common-dir"),
            Topic::CoreBare => {
                let mut v = list4("config", "--file", subject, "--get");
                grow(&mut v, "core.bare".to_owned());
                v
            },
            Topic::Worktrees => list3("worktree", "list", "--porcelain"),
            Topic::LocalBranch => {
                let full = "refs/heads/".to_owned().concat(subject);
                list4("show-ref", "--verify", "--quiet", full.as_str())
            },
            Topic::RemoteBranch => {
                let full = "refs/remotes/".to_owned().concat(subject).concat("/").concat(other);
                list4("show-ref", "--verify", "--quiet", full.as_str())
            },
            Topic::Remotes => list1("remote"),
            Topic::Tips => list3(
                "for-each-ref",
                "--format=%(objectname) %(refname:short)",
                "refs/heads/",
            ),
            Topic::RemoteHead => list3("symbolic-ref", "--quiet", "refs/remotes/origin/HEAD"),
            Topic::InitialBranch => list2("config", "init.defaultBranch"),
            Topic::MergeBase => list3("merge-base", subject, other),
            Topic::StackRevs => {
                let revs = range(subject, other);
                list4("rev-list", "--first-parent", "--boundary", revs.as_str())
            },
            Topic::Containing => list4("branch", "--contains", subject, "--format=%(refname:short)"),
            Topic::Status => list2("status", "--porcelain"),
            Topic::Divergence => list4("rev-list", "--left-right", "--count", "@{u}...HEAD"),
            Topic::Head => list4("symbolic-ref", "--quiet", "--short", "HEAD"),
            Topic::Ignored => list3("check-ignore", "--quiet", subject),
            Topic::Beyond => {
                let revs = range(subject, other);
                list3("rev-list", "--count", revs.as_str())
            },
            Topic::Canonical | Topic::Exists | Topic::CurrentDir => empty_list(),
        }
    }

    fn is(&self, other: &Query) -> (r: bool)
        ensures
            r == (self.deep_view() == other.deep_view()),
    {
        self.topic == other.topic && same(self.dir.as_str(), other.dir.as_str()) && same(
            self.subject.as_str(),
            other.subject.as_str(),
        ) && same(self.other.as_str(), other.other.as_str())
    }
}

/// The answer to a query: how a command ended and what it printed, or what the
/// file system said.
pub struct Reply<S = String> {
    /// The command could be started. Always true of the file system.
    pub started: bool,
    /// The command exited with success; the path could be resolved, or exists.
    pub success: bool,
    /// What was printed is UTF-8.
    pub utf8: bool,
    /// What was printed, with a replacement character for what is not UTF-8; or
    /// the path asked for.
    pub text: S,
    /// What the system said of a failure: why the command could not be started, why
    /// what it printed is not UTF-8, or why there is no such path.
    pub note: S,
}

/// The value of a reply.
pub type ReplyModel = Reply<Text>;

impl DeepView for Reply<String> {
    type V = ReplyModel;

    open spec fn deep_view(&self) -> ReplyModel {
        Reply {
            started: self.started,
            success: self.success,
            utf8: self.utf8,
            text: self.text@,
            note: self.note@,
        }
    }
}

/// Why a function has no result yet: it needs an answer, or it failed.
pub enum Stop<Q = Query, E = Error> {
    Ask(Q),
    Fail(E),
}

/// The value of a stop.
pub type StopModel = Stop<QueryModel, ErrorModel>;

impl DeepView for Stop<Query, Error> {
    type V = StopModel;

    open spec fn deep_view(&self) -> StopModel {
        match self {
            Stop::Ask(q) => Stop::Ask(q.deep_view()),
            Stop::Fail(e) => Stop::Fail(e.deep_view()),
        }
    }
}

/// True if `r` has the value `m`.
pub open spec fn agrees<T: DeepView>(r: Result<T, Stop>, m: Result<T::V, StopModel>) -> bool {
    match (r, m) {
        (Ok(a), Ok(b)) => a.deep_view() == b,
        (Err(a), Err(b)) => a.deep_view() == b,
        _ => false,
    }
}

/// The answers known so far.
pub type Known = Map<QueryModel, ReplyModel>;

/// The table that a series of answers makes: the last answer to a query counts.
pub open spec fn table(entries: Seq<(QueryModel, ReplyModel)>) -> Known
    decreases entries.len(),
{
    if entries.len() == 0 {
        Map::empty()
    } else {
        table(entries.drop_last()).insert(entries.last().0, entries.last().1)
    }
}

/// The answers that have been learned.
pub struct Facts {
    entries: Vec<(Query, Reply)>,
}

impl View for Facts {
    type V = Known;

    closed spec fn view(&self) -> Known {
        table(self.entries.deep_view())
    }
}

/// The answer to `q`, or the demand for it.
pub open spec fn answer(known: Known, q: QueryModel) -> Result<ReplyModel, StopModel> {
    if known.contains_key(q) {
        Ok(known[q])
    } else {
        Err(Stop::Ask(q))
    }
}

/// What a command printed, trimmed, if it succeeded.
pub open spec fn output(q: QueryModel, reply: ReplyModel) -> Result<Text, ErrorModel> {
    if !reply.started {
        Err(Error::GitNotRun { cause: reply.note })
    } else if !reply.success {
        Err(Error::GitFailed { args: git_args(q) })
    } else if !reply.utf8 {
        Err(Error::NotUtf8 { cause: reply.note })
    } else {
        Ok(text::trimmed(reply.text))
    }
}

/// The output of the command that answers `q`.
pub open spec fn captured(known: Known, q: QueryModel) -> Result<
    Result<Text, ErrorModel>,
    StopModel,
> {
    match answer(known, q) {
        Ok(reply) => Ok(output(q, reply)),
        Err(stop) => Err(stop),
    }
}

/// The output of the command that answers `q`, where its failure is a failure of
/// the whole.
pub open spec fn required(known: Known, q: QueryModel) -> Result<Text, StopModel> {
    match captured(known, q) {
        Ok(Ok(text)) => Ok(text),
        Ok(Err(e)) => Err(Stop::Fail(e)),
        Err(stop) => Err(stop),
    }
}

/// The output of the command that answers `q`, or nothing if it failed.
pub open spec fn optional(known: Known, q: QueryModel) -> Result<Option<Text>, StopModel> {
    match captured(known, q) {
        Ok(Ok(text)) => Ok(Some(text)),
        Ok(Err(e)) => Ok(None),
        Err(stop) => Err(stop),
    }
}

/// Whether the command that answers `q` succeeded, or the path exists.
pub open spec fn succeeds(known: Known, q: QueryModel) -> Result<bool, StopModel> {
    match answer(known, q) {
        Ok(reply) => Ok(reply.started && reply.success),
        Err(stop) => Err(stop),
    }
}

/// The path with which the file system answered `q`, if it could.
pub open spec fn resolved(known: Known, q: QueryModel) -> Result<Option<Text>, StopModel> {
    match answer(known, q) {
        Ok(reply) => Ok(
            if reply.success {
                Some(reply.text)
            } else {
                None
            },
        ),
        Err(stop) => Err(stop),
    }
}

proof fn lemma_table_finite(entries: Seq<(QueryModel, ReplyModel)>)
    ensures
        table(entries).dom().finite(),
    decreases entries.len(),
{
    if entries.len() > 0 {
        lemma_table_finite(entries.drop_last());
    }
}

/// Only finitely much is known.
pub proof fn lemma_finite(facts: &Facts)
    ensures
        facts@.dom().finite(),
{
    lemma_table_finite(facts.entries.deep_view());
}

impl Facts {
    /// Nothing is known yet.
    pub fn new() -> (r: Facts)
        ensures
            r@ == Map::<QueryModel, ReplyModel>::empty(),
    {
        let r = Facts { entries: Vec::new() };
        assert(r.entries.deep_view() =~= Seq::empty());
        r
    }

    /// Takes note of the answer to `q`; it replaces an earlier one.
    pub fn learn(&mut self, q: Query, reply: Reply)
        ensures
            final(self)@ == old(self)@.insert(q.deep_view(), reply.deep_view()),
    {
        let ghost before = self.entries.deep_view();
        self.entries.push((q, reply));
        proof {
            let after = self.entries.deep_view();
            assert(after =~= before.push((q.deep_view(), reply.deep_view())));
            assert(after.drop_last() =~= before);
        }
    }

    fn position(&self, q: &Query) -> (r: Option<usize>)
        ensures
            r is None <==> !self@.contains_key(q.deep_view()),
            r matches Some(i) ==> i < self.entries.len() && self@[q.deep_view()]
                == self.entries@[i as int].1.deep_view(),
    {
        let ghost all = self.entries.deep_view();
        let ghost key = q.deep_view();
        let mut i: usize = self.entries.len();
        assert(all.take(i as int) =~= all);
        while i > 0
            invariant
                i <= self.entries.len(),
                all == self.entries.deep_view(),
                key == q.deep_view(),
                self@ == table(all),
                table(all.take(i as int)).contains_key(key) == table(all).contains_key(key),
                table(all).contains_key(key) ==> table(all.take(i as int))[key] == table(all)[key],
            decreases i,
        {
            let ghost head = all.take(i as int);
            assert(head.drop_last() =~= all.take(i - 1));
            assert(head.last() == all[i - 1]);
            if self.entries[i - 1].0.is(q) {
                return Some(i - 1);
            }
            i -= 1;
        }
        None
    }

    /// Looks `q` up.
    pub fn ask(&self, q: Query) -> (r: Result<&Reply, Stop>)
        ensures
            agrees(r, answer(self@, q.deep_view())),
    {
        match self.position(&q) {
            Some(i) => Ok(&self.entries[i].1),
            None => Err(Stop::Ask(q)),
        }
    }

    /// The output of the command that answers `q`.
    pub fn capture(&self, q: Query) -> (r: Result<Result<String, Error>, Stop>)
        ensures
            match (r, captured(self@, q.deep_view())) {
                (Ok(Ok(a)), Ok(Ok(b))) => a@ == b,
                (Ok(Err(a)), Ok(Err(b))) => a.deep_view() == b,
                (Err(a), Err(b)) => a.deep_view() == b,
                _ => false,
            },
    {
        match self.position(&q) {
            Some(i) => {
                let reply = &self.entries[i].1;
                if !reply.started {
                    Ok(Err(Error::GitNotRun { cause: reply.note.clone() }))
                } else if !reply.success {
                    Ok(Err(Error::GitFailed { args: q.args() }))
                } else if !reply.utf8 {
                    Ok(Err(Error::NotUtf8 { cause: reply.note.clone() }))
                } else {
                    Ok(Ok(trim(reply.text.as_str())))
                }
            },
            None => Err(Stop::Ask(q)),
        }
    }

    /// The output of the command that answers `q`; its failure is an error.
    pub fn require(&self, q: Query) -> (r: Result<String, Stop>)
        ensures
            agrees(r, required(self@, q.deep_view())),
    {
        match self.capture(q)? {
            Ok(text) => Ok(text),
            Err(e) => Err(Stop::Fail(e)),
        }
    }

    /// The output of the command that answers `q`, if it succeeded.
    pub fn try_capture(&self, q: Query) -> (r: Result<Option<String>, Stop>)
        ensures
            agrees(r, optional(self@, q.deep_view())),
    {
        match self.capture(q)? {
            Ok(text) => Ok(Some(text)),
            Err(e) => Ok(None),
        }
    }

    /// Whether the command that answers `q` succeeded, or the path exists.
    pub fn holds(&self, q: Query) -> (r: Result<bool, Stop>)
        ensures
            agrees(r, succeeds(self@, q.deep_view())),
    {
        let reply = self.ask(q)?;
        Ok(reply.started && reply.success)
    }

    /// The path with which the file system answers `q`, if it could.
    pub fn resolve(&self, q: Query) -> (r: Result<Option<String>, Stop>)
        ensures
            agrees(r, resolved(self@, q.deep_view())),
    {
        let reply = self.ask(q)?;
        if reply.success {
            Ok(Some(reply.text.clone()))
        } else {
            Ok(None)
        }
    }
}

/// What became of a git command that was run for its effect.
pub open spec fn outcome(args: Seq<Text>, reply: ReplyModel) -> Result<(), ErrorModel> {
    if !reply.started {
        Err(Error::GitNotRun { cause: reply.note })
    } else if !reply.success {
        Err(Error::GitFailed { args })
    } else {
        Ok(())
    }
}

/// True if `r` has the value `m`.
pub open spec fn same_outcome(r: Result<(), Error>, m: Result<(), ErrorModel>) -> bool {
    match (r, m) {
        (Ok(_), Ok(_)) => true,
        (Err(a), Err(b)) => a.deep_view() == b,
        _ => false,
    }
}

/// Tells what became of a git command that was run for its effect.
pub fn check_run(args: Vec<String>, reply: Reply) -> (r: Result<(), Error>)
    ensures
        same_outcome(r, outcome(args.deep_view(), reply.deep_view())),
{
    if !reply.started {
        Err(Error::GitNotRun { cause: reply.note })
    } else if !reply.success {
        Err(Error::GitFailed { args })
    } else {
        Ok(())
    }
}

} // verus!
