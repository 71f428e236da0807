//! Which ignored files a new worktree gets, and where they go.

use crate::config;
use crate::config::{Config, ConfigModel, Mode};
use crate::error::{Error, ErrorModel};
use crate::git;
use crate::git::{Facts, Known, Query, Reply, ReplyModel, Stop, StopModel, Topic};
use crate::path;
use crate::path::{join, parent, strip_prefix};
use crate::repo;
use crate::repo::{resolve_source, Repo, RepoModel};
use crate::text;
use crate::text::{empty_list, grow, lines, starts_with, trim, Text};
use vstd::prelude::*;

verus! {

/// The name of the file that lists what is to be transferred.
pub const LIST_FILE: &'static str = ".worktreeinclude";

/// The file that lists what is to be transferred from the working tree `source`.
pub fn list_file(source: &str) -> (r: String)
    ensures
        r@ == path::joined_path(source@, LIST_FILE@),
{
    join(source, LIST_FILE)
}

/// The working tree whose list says what is transferred, if there is one and it has a
/// list; otherwise nothing is transferred.
pub open spec fn listing_source(known: Known, repo: RepoModel, cfg: ConfigModel) -> Result<
    Option<Text>,
    StopModel,
> {
    match repo::source_dir(known, repo, cfg) {
        Err(stop) => Err(stop),
        Ok(None) => Ok(None),
        Ok(Some(source)) => match git::succeeds(
            known,
            git::query(Topic::Exists, ""@, path::joined_path(source, LIST_FILE@), ""@),
        ) {
            Err(stop) => Err(stop),
            Ok(true) => Ok(Some(source)),
            Ok(false) => Ok(None),
        },
    }
}

/// Finds the working tree whose list says what is transferred.
pub fn listed_source(facts: &Facts, repo: &Repo, cfg: &Config) -> (r: Result<
    Option<String>,
    Stop,
>)
    ensures
        git::agrees(r, listing_source(facts@, repo.deep_view(), cfg.deep_view())),
{
    match resolve_source(facts, repo, cfg)? {
        None => Ok(None),
        Some(source) => {
            let list = list_file(source.as_str());
            if facts.holds(Query::new(Topic::Exists, "", list.as_str(), ""))? {
                Ok(Some(source))
            } else {
                Ok(None)
            }
        },
    }
}

/// What the list of files to transfer says, given how reading it went.
pub open spec fn list_text(reply: ReplyModel) -> Result<Text, ErrorModel> {
    if reply.success {
        Ok(reply.text)
    } else {
        Err(Error::ListUnreadable { cause: reply.note })
    }
}

/// Tells what the list of files to transfer says, given how reading it went.
pub fn read_list(reply: Reply) -> (r: Result<String, Error>)
    ensures
        match (r, list_text(reply.deep_view())) {
            (Ok(a), Ok(b)) => a@ == b,
            (Err(a), Err(b)) => a.deep_view() == b,
            _ => false,
        },
{
    if reply.success {
        Ok(reply.text)
    } else {
        Err(Error::ListUnreadable { cause: reply.note })
    }
}

/// A line of the list: the pattern, the glob that it means, and how what it matches
/// is transferred.
pub struct Rule<S = String> {
    pub pattern: S,
    pub glob: S,
    pub mode: Mode,
}

/// The value of a rule.
pub type RuleModel = Rule<Text>;

impl DeepView for Rule<String> {
    type V = RuleModel;

    open spec fn deep_view(&self) -> RuleModel {
        Rule { pattern: self.pattern@, glob: self.glob@, mode: self.mode }
    }
}

/// True if `line`, trimmed, is a pattern: not empty, and no comment.
pub open spec fn is_pattern(line: Text) -> bool {
    line.len() > 0 && line[0] != '#'
}

/// The rule of `pattern`, for files of the working tree `source`.
pub open spec fn rule_of(source: Text, cfg: ConfigModel, pattern: Text) -> RuleModel {
    Rule {
        pattern,
        glob: path::joined_path(source, pattern),
        mode: config::mode_of(config::listed(cfg.includes), pattern),
    }
}

/// The rules of these lines.
pub open spec fn rules_of(source: Text, cfg: ConfigModel, list: Seq<Text>) -> Seq<RuleModel>
    decreases list.len(),
{
    if list.len() == 0 {
        Seq::empty()
    } else {
        let rest = rules_of(source, cfg, list.drop_first());
        if is_pattern(text::trimmed(list[0])) {
            seq![rule_of(source, cfg, text::trimmed(list[0]))] + rest
        } else {
            rest
        }
    }
}

/// Reads the list of what is to be transferred from the working tree `source`.
pub fn rules(source: &str, cfg: &Config, list: &str) -> (r: Vec<Rule>)
    ensures
        r.deep_view() == rules_of(source@, cfg.deep_view(), text::lines_of(list@)),
{
    let entries = lines(list);
    let ghost model = cfg.deep_view();
    let ghost all = entries.deep_view();
    let mut out: Vec<Rule> = empty_list();
    let mut i: usize = 0;
    assert(all.skip(0) =~= all);
    assert(out.deep_view() + rules_of(source@, model, all) =~= rules_of(source@, model, all));
    while i < entries.len()
        invariant
            i <= entries.len(),
            model == cfg.deep_view(),
            all == entries.deep_view(),
            out.deep_view() + rules_of(source@, model, all.skip(i as int)) == rules_of(
                source@,
                model,
                all,
            ),
        decreases entries.len() - i,
    {
        let ghost rest = all.skip(i as int);
        let ghost before = out.deep_view();
        let ghost tail = rules_of(source@, model, all.skip(i + 1));
        assert(rest[0] == entries@[i as int]@);
        assert(rest.drop_first() =~= all.skip(i + 1));
        let pattern = trim(entries[i].as_str());
        proof {
            reveal_strlit("#");
            if pattern@.len() > 0 {
                let head = pattern@.subrange(0, 1);
                assert(head[0] == pattern@[0]);
                assert(head[0] == '#' ==> head =~= "#"@);
            }
        }
        if !pattern.as_str().is_empty() && !starts_with(pattern.as_str(), "#") {
            let glob = join(source, pattern.as_str());
            let mode = cfg.mode_for(pattern.as_str());
            let rule = Rule { pattern, glob, mode };
            assert(before.push(rule.deep_view()) + tail =~= before + (seq![rule.deep_view()]
                + tail));
            grow(&mut out, rule);
        }
        i += 1;
    }
    assert(out.deep_view() + Seq::<RuleModel>::empty() =~= out.deep_view());
    out
}

/// A file to be transferred.
pub struct Job<S = String> {
    /// Where it lies.
    pub src: S,
    /// Its path in the working tree.
    pub rel: S,
    /// Where it goes.
    pub dest: S,
    /// The directory that has to be there before.
    pub dir: Option<S>,
    pub mode: Mode,
}

/// The value of a job.
pub type JobModel = Job<Text>;

impl DeepView for Job<String> {
    type V = JobModel;

    open spec fn deep_view(&self) -> JobModel {
        Job {
            src: self.src@,
            rel: self.rel@,
            dest: self.dest@,
            dir: self.dir.deep_view(),
            mode: self.mode,
        }
    }
}

/// The path of `entry` in the working tree `source`.
pub open spec fn rel_of(source: Text, entry: Text) -> Text {
    match path::below(entry, source) {
        Some(rel) => rel,
        None => entry,
    }
}

/// The job that brings `entry` from the working tree `source` to `worktree`.
pub open spec fn job_of(source: Text, worktree: Text, mode: Mode, entry: Text) -> JobModel {
    let rel = rel_of(source, entry);
    let dest = path::joined_path(worktree, rel);
    Job { src: entry, rel, dest, dir: path::parent_path(dest), mode }
}

/// Whether git ignores `rel` in `dir`.
pub open spec fn ignored(known: Known, dir: Text, rel: Text) -> Result<bool, StopModel> {
    git::succeeds(known, git::query(Topic::Ignored, dir, rel, ""@))
}

/// The jobs that bring `entries` from the working tree `source` to `worktree`. Only
/// what git ignores is transferred.
pub open spec fn jobs_of(
    known: Known,
    source: Text,
    worktree: Text,
    mode: Mode,
    entries: Seq<Text>,
) -> Result<Seq<JobModel>, StopModel>
    decreases entries.len(),
{
    if entries.len() == 0 {
        Ok(Seq::empty())
    } else {
        let rest = jobs_of(known, source, worktree, mode, entries.drop_first());
        match ignored(known, source, rel_of(source, entries[0])) {
            Err(stop) => Err(stop),
            Ok(false) => rest,
            Ok(true) => repo::after(seq![job_of(source, worktree, mode, entries[0])], rest),
        }
    }
}

/// Whether git ignores `rel` in `dir`.
pub fn is_ignored(facts: &Facts, dir: &str, rel: &str) -> (r: Result<bool, Stop>)
    ensures
        git::agrees(r, ignored(facts@, dir@, rel@)),
{
    facts.holds(Query::new(Topic::Ignored, dir, rel, ""))
}

/// Finds out the jobs that bring `entries`, which the glob of a rule with this mode
/// matches, from the working tree `source` to `worktree`.
pub fn jobs(facts: &Facts, source: &str, worktree: &str, mode: Mode, entries: &Vec<String>) -> (r:
    Result<Vec<Job>, Stop>)
    ensures
        git::agrees(r, jobs_of(facts@, source@, worktree@, mode, entries.deep_view())),
{
    let ghost known = facts@;
    let ghost all = entries.deep_view();
    let ghost goal = jobs_of(known, source@, worktree@, mode, all);
    let mut out: Vec<Job> = empty_list();
    let mut i: usize = 0;
    assert(all.skip(0) =~= all);
    assert(goal matches Ok(s) ==> out.deep_view() + s =~= s);
    while i < entries.len()
        invariant
            i <= entries.len(),
            known == facts@,
            all == entries.deep_view(),
            goal == jobs_of(known, source@, worktree@, mode, all),
            repo::after(
                out.deep_view(),
                jobs_of(known, source@, worktree@, mode, all.skip(i as int)),
            ) == goal,
        decreases entries.len() - i,
    {
        let entry = entries[i].as_str();
        let ghost rest = all.skip(i as int);
        let ghost before = out.deep_view();
        let ghost tail = jobs_of(known, source@, worktree@, mode, all.skip(i + 1));
        assert(rest[0] == entry@);
        assert(rest.drop_first() =~= all.skip(i + 1));
        let rel = match strip_prefix(entry, source) {
            Some(rel) => rel,
            None => entry.to_owned(),
        };
        if is_ignored(facts, source, rel.as_str())? {
            let dest = join(worktree, rel.as_str());
            let dir = parent(dest.as_str());
            let job = Job { src: entry.to_owned(), rel, dest, dir, mode };
            assert(tail matches Ok(s) ==> before.push(job.deep_view()) + s =~= before + (
            seq![job.deep_view()] + s));
            grow(&mut out, job);
        }
        i += 1;
    }
    assert(out.deep_view() + Seq::<JobModel>::empty() =~= out.deep_view());
    Ok(out)
}

/// What became of `job`.
pub open spec fn job_outcome(job: JobModel, reply: ReplyModel) -> Result<(), ErrorModel> {
    if reply.success {
        Ok(())
    } else {
        Err(Error::TransferFailed { rel: job.rel, cause: reply.note })
    }
}

/// Tells what became of `job`.
pub fn check_job(job: &Job, reply: Reply) -> (r: Result<(), Error>)
    ensures
        git::same_outcome(r, job_outcome(job.deep_view(), reply.deep_view())),
{
    if reply.success {
        Ok(())
    } else {
        Err(Error::TransferFailed { rel: job.rel.clone(), cause: reply.note })
    }
}

} // verus!
