//! What holds of the repository: of what git is asked, of discovery, of names that mean
//! worktrees, of the trunk and of the remotes.

use crate::config::ConfigModel;
use crate::error;
use crate::error::{Error, ErrorModel};
use crate::git;
use crate::git::{Known, Query, QueryModel, ReplyModel, Stop, StopModel, Topic};
use crate::path;
use crate::path_laws;
use crate::porcelain;
use crate::porcelain::{TipModel, WorktreeModel};
use crate::reading_laws;
use crate::repo;
use crate::repo::RepoModel;
use crate::text;
use crate::text::Text;
use crate::transfer;
use vstd::prelude::*;

verus! {

// ---------------------------------------------------------------------------
// Questions and answers
// ---------------------------------------------------------------------------

/// A question that has no answer yet is handed back, and nothing else is.
pub proof fn law_unanswered_questions(known: Known, q: QueryModel)
    requires
        !known.contains_key(q),
    ensures
        git::answer(known, q) == Err::<ReplyModel, StopModel>(Stop::Ask(q)),
        git::captured(known, q) == Err::<Result<Text, ErrorModel>, StopModel>(Stop::Ask(q)),
        git::required(known, q) == Err::<Text, StopModel>(Stop::Ask(q)),
        git::optional(known, q) == Err::<Option<Text>, StopModel>(Stop::Ask(q)),
        git::succeeds(known, q) == Err::<bool, StopModel>(Stop::Ask(q)),
        git::resolved(known, q) == Err::<Option<Text>, StopModel>(Stop::Ask(q)),
{
}

/// What an answer is good for: a command that ran, succeeded and printed text gives that
/// text, trimmed. Any other gives an error where its output is needed, and nothing where
/// it is not. Whether it succeeded does not depend on what it printed, and a path is taken
/// as it is.
pub proof fn law_answers(known: Known, q: QueryModel, reply: ReplyModel)
    requires
        known.contains_key(q),
        known[q] == reply,
    ensures
        git::answer(known, q) == Ok::<ReplyModel, StopModel>(reply),
        reply.started && reply.success && reply.utf8 ==> git::required(known, q) == Ok::<
            Text,
            StopModel,
        >(text::trimmed(reply.text)) && git::optional(known, q) == Ok::<Option<Text>, StopModel>(
            Some(text::trimmed(reply.text)),
        ),
        !(reply.started && reply.success && reply.utf8) ==> git::optional(known, q) == Ok::<
            Option<Text>,
            StopModel,
        >(None) && git::required(known, q) == Err::<Text, StopModel>(
            Stop::Fail(
                if !reply.started {
                    Error::GitNotRun { cause: reply.note }
                } else if !reply.success {
                    Error::GitFailed { args: git::git_args(q) }
                } else {
                    Error::NotUtf8 { cause: reply.note }
                },
            ),
        ),
        git::succeeds(known, q) == Ok::<bool, StopModel>(reply.started && reply.success),
        git::resolved(known, q) == Ok::<Option<Text>, StopModel>(
            if reply.success {
                Some(reply.text)
            } else {
                None
            },
        ),
{
}

/// The newest answer to a question counts; answers to others stay.
pub proof fn law_newest_answer_counts(
    entries: Seq<(QueryModel, ReplyModel)>,
    q: QueryModel,
    reply: ReplyModel,
    other: QueryModel,
)
    ensures
        ({
            let (before, after) = (git::table(entries), git::table(entries.push((q, reply))));
            &&& after.contains_key(q) && after[q] == reply
            &&& other != q ==> after.contains_key(other) == before.contains_key(other)
            &&& other != q && before.contains_key(other) ==> after[other] == before[other]
        }),
{
    assert(entries.push((q, reply)).drop_last() =~= entries);
}

/// What git is asked of two branches, or of a branch on a remote, names both, in this
/// order; what it is asked of one names it whole.
pub proof fn law_questions_name_their_subject(dir: Text, a: Text, b: Text)
    ensures
        git::git_args((Query { topic: Topic::LocalBranch, dir, subject: a, other: b })) == seq![
            "show-ref"@,
            "--verify"@,
            "--quiet"@,
            "refs/heads/"@ + a,
        ],
        git::git_args((Query { topic: Topic::RemoteBranch, dir, subject: a, other: b })) == seq![
            "show-ref"@,
            "--verify"@,
            "--quiet"@,
            "refs/remotes/"@ + a + "/"@ + b,
        ],
        git::git_args((Query { topic: Topic::MergeBase, dir, subject: a, other: b })) == seq![
            "merge-base"@,
            a,
            b,
        ],
        git::git_args((Query { topic: Topic::StackRevs, dir, subject: a, other: b })) == seq![
            "rev-list"@,
            "--first-parent"@,
            "--boundary"@,
            a + ".."@ + b,
        ],
        git::git_args((Query { topic: Topic::Beyond, dir, subject: a, other: b })) == seq![
            "rev-list"@,
            "--count"@,
            a + ".."@ + b,
        ],
        git::git_args((Query { topic: Topic::Containing, dir, subject: a, other: b })) == seq![
            "branch"@,
            "--contains"@,
            a,
            "--format=%(refname:short)"@,
        ],
        git::git_args((Query { topic: Topic::Ignored, dir, subject: a, other: b })) == seq![
            "check-ignore"@,
            "--quiet"@,
            a,
        ],
        git::git_args((Query { topic: Topic::CoreBare, dir, subject: a, other: b })) == seq![
            "config"@,
            "--file"@,
            a,
            "--get"@,
            "core.bare"@,
        ],
{
}

/// What git is asked of the whole repository does not depend on anything else.
pub proof fn law_questions_about_the_whole(q: QueryModel)
    ensures
        q.topic == Topic::Worktrees ==> git::git_args(q) == seq![
            "worktree"@,
            "list"@,
            "--porcelain"@,
        ],
        q.topic == Topic::Remotes ==> git::git_args(q) == seq!["remote"@],
        q.topic == Topic::Status ==> git::git_args(q) == seq!["status"@, "--porcelain"@],
        q.topic == Topic::Divergence ==> git::git_args(q) == seq![
            "rev-list"@,
            "--left-right"@,
            "--count"@,
            "@{u}...HEAD"@,
        ],
        q.topic == Topic::Head ==> git::git_args(q) == seq![
            "symbolic-ref"@,
            "--quiet"@,
            "--short"@,
            "HEAD"@,
        ],
        q.topic == Topic::Tips ==> git::git_args(q) == seq![
            "for-each-ref"@,
            "--format=%(objectname) %(refname:short)"@,
            "refs/heads/"@,
        ],
        q.topic == Topic::RemoteHead ==> git::git_args(q) == seq![
            "symbolic-ref"@,
            "--quiet"@,
            "refs/remotes/origin/HEAD"@,
        ],
        q.topic == Topic::InitialBranch ==> git::git_args(q) == seq![
            "config"@,
            "init.defaultBranch"@,
        ],
        q.topic == Topic::BareHere ==> git::git_args(q) == seq![
            "rev-parse"@,
            "--is-bare-repository"@,
        ],
        q.topic == Topic::TopLevel ==> git::git_args(q) == seq![
            "rev-parse"@,
            "--show-toplevel"@,
        ],
        q.topic == Topic::CommonDir ==> git::git_args(q) == seq![
            "rev-parse"@,
            "--git-common-dir"@,
        ],
{
}

/// A path is replaced by its canonical form if it has one, and only then.
pub proof fn law_canonical_paths(known: Known, p: Text, reply: ReplyModel)
    requires
        known.contains_key((Query { topic: Topic::Canonical, dir: ""@, subject: p, other: ""@ })),
        reply == known[(Query { topic: Topic::Canonical, dir: ""@, subject: p, other: ""@ })],
    ensures
        repo::canonical(known, p) == Ok::<Text, StopModel>(
            if reply.success {
                reply.text
            } else {
                p
            },
        ),
{
}

// ---------------------------------------------------------------------------
// Discovery
// ---------------------------------------------------------------------------

/// The repository that is found: its working tree is the one that git names, and there is
/// none in a bare repository's own directory. Its main worktree is the first that git
/// lists there. It is bare exactly if its configuration says so.
pub proof fn law_discovery(known: Known, repo: RepoModel, here: Text, out: Text)
    requires
        repo::discovered(known) == Ok::<RepoModel, StopModel>(repo),
        repo::starting_dir(known, repo.root) == Ok::<Text, StopModel>(here),
        git::required(known, git::query(Topic::Worktrees, here, ""@, ""@)) == Ok::<
            Text,
            StopModel,
        >(out),
    ensures
        git::required(known, git::query(Topic::BareHere, ""@, ""@, ""@)) matches Ok(flag) && (
        repo.root is None <==> flag == "true"@ || (git::required(
            known,
            git::query(Topic::TopLevel, ""@, ""@, ""@),
        ) matches Ok(top) && top.len() == 0)),
        repo.root matches Some(dir) ==> here == dir && git::required(
            known,
            git::query(Topic::TopLevel, ""@, ""@, ""@),
        ) == Ok::<Text, StopModel>(dir),
        repo.root is None ==> git::resolved(
            known,
            git::query(Topic::CurrentDir, ""@, ""@, ""@),
        ) == Ok::<Option<Text>, StopModel>(Some(here)),
        git::required(known, git::query(Topic::CommonDir, here, ""@, ""@)) matches Ok(common)
            && repo::canonical(known, path::joined_path(here, common)) == Ok::<Text, StopModel>(
            repo.git_dir,
        ),
        repo.bare <==> (git::answer(
            known,
            git::query(
                Topic::CoreBare,
                ""@,
                path::joined_path(repo.git_dir, "config"@),
                ""@,
            ),
        ) matches Ok(reply) && reply.started && reply.success && text::trimmed(reply.text)
            == "true"@),
        porcelain::worktrees(out).len() > 0 ==> repo.main == porcelain::worktrees(out)[0].path,
        porcelain::worktrees(out).len() == 0 ==> repo.main == repo.git_dir,
        repo.name == repo::repo_name(repo.main, repo.bare),
{
}

/// A repository is called after the directory of its main worktree; a bare one without
/// `.git` at the end. One whose directory has no name is called `repo`.
pub proof fn law_repository_name(e: Text, n: Text)
    requires
        path_laws::is_name(n),
        n != ".."@,
    ensures
        repo::repo_name(e + seq!['/'] + n, false) == n,
        ({
            let short = text::without_suffixes(n, ".git"@);
            repo::repo_name(e + seq!['/'] + n, true) == (if short.len() > 0 {
                short
            } else {
                "repo"@
            })
        }),
        (forall|head: Text| n != #[trigger] (head + ".git"@)) ==> repo::repo_name(
            e + seq!['/'] + n,
            true,
        ) == n,
        forall|main: Text, bare: bool|
            path::base_name(main) is None ==> #[trigger] repo::repo_name(main, bare) == "repo"@,
{
    path_laws::law_last_component(e, n);
    reveal_strlit(".git");
    reading_laws::law_suffixes(n, ".git"@);
}

/// A repository is found wherever git answers all that is asked of it.
pub proof fn law_discovery_succeeds(known: Known, flag: Text, root: Option<Text>, here: Text)
    requires
        git::required(known, git::query(Topic::BareHere, ""@, ""@, ""@)) == Ok::<Text, StopModel>(
            flag,
        ),
        flag == "true"@ ==> root is None,
        flag != "true"@ ==> (git::required(
            known,
            git::query(Topic::TopLevel, ""@, ""@, ""@),
        ) matches Ok(top) && root == (if top.len() == 0 {
            None
        } else {
            Some(top)
        })),
        root matches Some(dir) ==> here == dir,
        root is None ==> git::resolved(known, git::query(Topic::CurrentDir, ""@, ""@, ""@)) == Ok::<
            Option<Text>,
            StopModel,
        >(Some(here)),
        git::required(known, git::query(Topic::CommonDir, here, ""@, ""@)) matches Ok(common) && (
        repo::canonical(known, path::joined_path(here, common)) matches Ok(git_dir)
            && repo::is_bare_repo(known, git_dir) is Ok),
        git::required(known, git::query(Topic::Worktrees, here, ""@, ""@)) is Ok,
    ensures
        repo::discovered(known) matches Ok(repo) && repo.root == root,
{
}

/// Without a working tree the program starts in the current directory, and fails without
/// that, with what the system said.
pub proof fn law_start_without_a_working_tree(known: Known, reply: ReplyModel)
    requires
        known.contains_key(
            (Query { topic: Topic::CurrentDir, dir: ""@, subject: ""@, other: ""@ }),
        ),
        reply == known[(Query { topic: Topic::CurrentDir, dir: ""@, subject: ""@, other: ""@ })],
    ensures
        repo::starting_dir(known, None) == (if reply.success {
            Ok::<Text, StopModel>(reply.text)
        } else {
            Err::<Text, StopModel>(Stop::Fail(Error::NoCurrentDir { cause: reply.note }))
        }),
{
}

/// A directory in which git finds no repository is an error that passes on what git said.
pub proof fn law_no_repository(known: Known, e: ErrorModel)
    requires
        git::captured(known, git::query(Topic::BareHere, ""@, ""@, ""@)) == Ok::<
            Result<Text, ErrorModel>,
            StopModel,
        >(Err(e)),
    ensures
        repo::discovered(known) == Err::<RepoModel, StopModel>(
            Stop::Fail(
                Error::NotARepository {
                    causes: seq![error::error_text(e)] + error::error_causes(e),
                },
            ),
        ),
{
}

/// Worktrees are placed relative to the bare repository itself, or to the directory around
/// the main worktree.
pub proof fn law_base_of_places(e: Text, m: Text, n: Text, main: Text)
    requires
        path_laws::is_name(m),
        path_laws::is_name(n),
    ensures
        repo::base_dir(true, main) == main,
        repo::base_dir(false, e + seq!['/'] + m + seq!['/'] + n) == e + seq!['/'] + m,
        repo::base_dir(false, seq!['/'] + n) == seq!['/'],
{
    path_laws::law_parent(e, m, n);
}

/// Git runs in the working tree, or without one in the git directory.
pub proof fn law_where_git_runs(repo: RepoModel)
    ensures
        repo.root matches Some(dir) ==> repo::work_dir(repo) == dir,
        repo.root is None ==> repo::work_dir(repo) == repo.git_dir,
{
}

// ---------------------------------------------------------------------------
// Names that mean worktrees
// ---------------------------------------------------------------------------

proof fn lemma_worktree_at_is(known: Known, list: Seq<WorktreeModel>, expected: Text, i: int)
    requires
        0 <= i < list.len(),
        forall|j: int|
            0 <= j <= i && !(#[trigger] list[j]).bare ==> repo::canonical(known, list[j].path)
                is Ok,
        !list[i].bare,
        repo::canonical(known, list[i].path) matches Ok(c) && path::same_path(c, expected),
        forall|j: int|
            0 <= j < i && !(#[trigger] list[j]).bare ==> (repo::canonical(
                known,
                list[j].path,
            ) matches Ok(c) && !path::same_path(c, expected)),
    ensures
        repo::worktree_at(known, list, expected) == Ok::<Option<Text>, StopModel>(
            Some(list[i].path),
        ),
    decreases list.len(),
{
    if i > 0 {
        let rest = list.drop_first();
        assert(forall|j: int| 0 <= j < rest.len() ==> rest[j] == list[j + 1]);
        assert(list[0].bare || repo::canonical(known, list[0].path) is Ok);
        lemma_worktree_at_is(known, rest, expected, i - 1);
    }
}

proof fn lemma_worktree_at_none(known: Known, list: Seq<WorktreeModel>, expected: Text)
    requires
        forall|j: int|
            0 <= j < list.len() && !(#[trigger] list[j]).bare ==> (repo::canonical(
                known,
                list[j].path,
            ) matches Ok(c) && !path::same_path(c, expected)),
    ensures
        repo::worktree_at(known, list, expected) == Ok::<Option<Text>, StopModel>(None),
    decreases list.len(),
{
    if list.len() > 0 {
        let rest = list.drop_first();
        assert(forall|j: int| 0 <= j < rest.len() ==> rest[j] == list[j + 1]);
        assert(list[0].bare || repo::canonical(known, list[0].path) is Ok);
        lemma_worktree_at_none(known, rest, expected);
    }
}

proof fn lemma_worktree_called(list: Seq<WorktreeModel>, name: Text)
    ensures
        forall|i: int|
            0 <= i < list.len() && !(#[trigger] list[i]).bare && path::base_name(list[i].path)
                == Some(name) && (forall|j: int|
                0 <= j < i ==> (#[trigger] list[j]).bare || path::base_name(list[j].path) != Some(
                    name,
                )) ==> repo::worktree_called(list, name) == Some(list[i].path),
        (forall|j: int|
            0 <= j < list.len() ==> (#[trigger] list[j]).bare || path::base_name(list[j].path)
                != Some(name)) ==> repo::worktree_called(list, name) is None,
    decreases list.len(),
{
    if list.len() > 0 {
        let rest = list.drop_first();
        lemma_worktree_called(rest, name);
        assert(forall|j: int| 0 <= j < rest.len() ==> rest[j] == list[j + 1]);
        assert forall|i: int|
            0 <= i < list.len() && !(#[trigger] list[i]).bare && path::base_name(list[i].path)
                == Some(name) && (forall|j: int|
                0 <= j < i ==> (#[trigger] list[j]).bare || path::base_name(list[j].path) != Some(
                    name,
                )) implies repo::worktree_called(list, name) == Some(list[i].path) by {
            if i > 0 {
                assert(list[0].bare || path::base_name(list[0].path) != Some(name));
                assert(rest[i - 1] == list[i]);
                assert forall|j: int| 0 <= j < i - 1 implies (#[trigger] rest[j]).bare
                    || path::base_name(rest[j].path) != Some(name) by {
                    assert(rest[j] == list[j + 1]);
                }
            }
        }
        if forall|j: int|
            0 <= j < list.len() ==> (#[trigger] list[j]).bare || path::base_name(list[j].path)
                != Some(name) {
            assert(list[0].bare || path::base_name(list[0].path) != Some(name));
            assert forall|j: int| 0 <= j < rest.len() implies (#[trigger] rest[j]).bare
                || path::base_name(rest[j].path) != Some(name) by {
                assert(rest[j] == list[j + 1]);
            }
        }
    }
}

/// What a name means, first of all: the worktree in which the branch of that name is
/// checked out, wherever it lies.
pub proof fn law_names_mean_checkouts_first(
    known: Known,
    repo: RepoModel,
    cfg: ConfigModel,
    name: Text,
    out: Text,
    i: int,
)
    requires
        git::required(
            known,
            git::query(Topic::Worktrees, repo::work_dir(repo), ""@, ""@),
        ) == Ok::<Text, StopModel>(out),
        0 <= i < porcelain::worktrees(out).len(),
        porcelain::worktrees(out)[i].label == name,
        !porcelain::worktrees(out)[i].bare,
        !porcelain::worktrees(out)[i].detached,
        forall|j: int|
            0 <= j < i ==> (#[trigger] porcelain::worktrees(out)[j]).label != name
                || porcelain::worktrees(out)[j].bare || porcelain::worktrees(out)[j].detached,
    ensures
        repo::worktree_named(known, repo, cfg, name) == Ok::<Text, StopModel>(
            porcelain::worktrees(out)[i].path,
        ),
{
    reading_laws::law_checkouts(porcelain::worktrees(out), name);
}

/// What a name means that is checked out nowhere: the first worktree at the place that
/// the configuration gives to the name; if none is there, the first in a directory of
/// that name; else nothing, and that is an error. The bare repository itself is never
/// meant.
pub proof fn law_names_mean_places_then_directories(
    known: Known,
    repo: RepoModel,
    cfg: ConfigModel,
    name: Text,
    out: Text,
    expected: Text,
)
    requires
        git::required(
            known,
            git::query(Topic::Worktrees, repo::work_dir(repo), ""@, ""@),
        ) == Ok::<Text, StopModel>(out),
        forall|j: int|
            0 <= j < porcelain::worktrees(out).len() ==> (#[trigger] porcelain::worktrees(
                out,
            )[j]).label != name || porcelain::worktrees(out)[j].bare || porcelain::worktrees(
                out,
            )[j].detached,
        repo::canonical(known, repo::worktree_path(repo, cfg, name)) == Ok::<Text, StopModel>(
            expected,
        ),
        forall|j: int|
            0 <= j < porcelain::worktrees(out).len() && !(#[trigger] porcelain::worktrees(
                out,
            )[j]).bare ==> repo::canonical(known, porcelain::worktrees(out)[j].path) is Ok,
    ensures
        ({
            let list = porcelain::worktrees(out);
            let there = |w: WorktreeModel|
                !w.bare && path::same_path(repo::canonical(known, w.path)->Ok_0, expected);
            let called = |w: WorktreeModel| !w.bare && path::base_name(w.path) == Some(name);
            let found = repo::worktree_named(known, repo, cfg, name);
            &&& forall|i: int|
                0 <= i < list.len() && there(#[trigger] list[i]) && (forall|j: int|
                    0 <= j < i ==> !there(#[trigger] list[j])) ==> found == Ok::<Text, StopModel>(
                    list[i].path,
                )
            &&& (forall|j: int| 0 <= j < list.len() ==> !there(#[trigger] list[j])) ==> {
                &&& forall|i: int|
                    0 <= i < list.len() && called(#[trigger] list[i]) && (forall|j: int|
                        0 <= j < i ==> !called(#[trigger] list[j])) ==> found == Ok::<
                        Text,
                        StopModel,
                    >(list[i].path)
                &&& (forall|j: int| 0 <= j < list.len() ==> !called(#[trigger] list[j]))
                    ==> found == Err::<Text, StopModel>(Stop::Fail(Error::NoWorktree { name }))
            }
        }),
{
    let list = porcelain::worktrees(out);
    let there = |w: WorktreeModel|
        !w.bare && path::same_path(repo::canonical(known, w.path)->Ok_0, expected);
    let called = |w: WorktreeModel| !w.bare && path::base_name(w.path) == Some(name);
    let found = repo::worktree_named(known, repo, cfg, name);
    reading_laws::law_checkouts(list, name);
    assert(porcelain::checkout_of(list, name) is None);
    assert forall|i: int|
        0 <= i < list.len() && there(#[trigger] list[i]) && (forall|j: int|
            0 <= j < i ==> !there(#[trigger] list[j])) implies found == Ok::<Text, StopModel>(
        list[i].path,
    ) by {
        assert forall|j: int| 0 <= j < i && !(#[trigger] list[j]).bare implies (repo::canonical(
            known,
            list[j].path,
        ) matches Ok(c) && !path::same_path(c, expected)) by {
            assert(!there(list[j]));
        }
        lemma_worktree_at_is(known, list, expected, i);
    }
    if forall|j: int| 0 <= j < list.len() ==> !there(#[trigger] list[j]) {
        assert forall|j: int|
            0 <= j < list.len() && !(#[trigger] list[j]).bare implies (repo::canonical(
            known,
            list[j].path,
        ) matches Ok(c) && !path::same_path(c, expected)) by {
            assert(!there(list[j]));
        }
        lemma_worktree_at_none(known, list, expected);
        lemma_worktree_called(list, name);
        assert forall|i: int|
            0 <= i < list.len() && called(#[trigger] list[i]) && (forall|j: int|
                0 <= j < i ==> !called(#[trigger] list[j])) implies found == Ok::<Text, StopModel>(
            list[i].path,
        ) by {
            assert forall|j: int| 0 <= j < i implies (#[trigger] list[j]).bare || path::base_name(
                list[j].path,
            ) != Some(name) by {
                assert(!called(list[j]));
            }
        }
        if forall|j: int| 0 <= j < list.len() ==> !called(#[trigger] list[j]) {
            assert forall|j: int| 0 <= j < list.len() implies (#[trigger] list[j]).bare
                || path::base_name(list[j].path) != Some(name) by {
                assert(!called(list[j]));
            }
        }
    }
}

// ---------------------------------------------------------------------------
// The trunk
// ---------------------------------------------------------------------------

/// The names under which the trunk's worktree is looked for: the configured one first,
/// then `main`, then `master`; none twice, and no others.
pub proof fn law_trunk_names(configured: Option<Text>)
    ensures
        ({
            let names = repo::trunk_names(configured);
            &&& names.no_duplicates()
            &&& configured matches Some(name) ==> names[0] == name
            &&& configured is None ==> names == seq!["main"@, "master"@]
            &&& configured == Some("main"@) ==> names == seq!["main"@, "master"@]
            &&& configured == Some("master"@) ==> names == seq!["master"@, "main"@]
            &&& configured matches Some(name) ==> (name != "main"@ && name != "master"@ ==> names
                == seq![name, "main"@, "master"@])
        }),
{
    reveal_strlit("main");
    reveal_strlit("master");
    assert("main"@.len() == 4 && "master"@.len() == 6);
    let first = match configured {
        Some(name) => seq![name],
        None => Seq::empty(),
    };
    let second = repo::with_name(first, "main"@);
    if let Some(name) = configured {
        assert(first[0] == name);
        if name == "main"@ {
            assert(second =~= seq!["main"@]);
            assert(!second.contains("master"@));
        } else {
            assert(second =~= seq![name, "main"@]);
            if name == "master"@ {
                assert(second[0] == "master"@);
            }
        }
    } else {
        assert(second =~= seq!["main"@]);
    }
    assert(repo::trunk_names(configured).no_duplicates());
}

proof fn lemma_first_checkout(list: Seq<WorktreeModel>, names: Seq<Text>)
    ensures
        forall|i: int|
            0 <= i < names.len() && porcelain::checkout_of(list, #[trigger] names[i]) is Some && (
            forall|j: int|
                0 <= j < i ==> porcelain::checkout_of(list, #[trigger] names[j]) is None)
                ==> repo::first_checkout(list, names) == porcelain::checkout_of(list, names[i]),
        (forall|j: int|
            0 <= j < names.len() ==> porcelain::checkout_of(list, #[trigger] names[j]) is None)
            ==> repo::first_checkout(list, names) is None,
    decreases names.len(),
{
    if names.len() > 0 {
        let rest = names.drop_first();
        lemma_first_checkout(list, rest);
        assert(forall|j: int| 0 <= j < rest.len() ==> rest[j] == names[j + 1]);
        assert forall|i: int|
            0 <= i < names.len() && porcelain::checkout_of(list, #[trigger] names[i]) is Some && (
            forall|j: int|
                0 <= j < i ==> porcelain::checkout_of(list, #[trigger] names[j])
                    is None) implies repo::first_checkout(list, names) == porcelain::checkout_of(
            list,
            names[i],
        ) by {
            if i > 0 {
                assert(porcelain::checkout_of(list, names[0]) is None);
                assert(rest[i - 1] == names[i]);
                assert forall|j: int| 0 <= j < i - 1 implies porcelain::checkout_of(
                    list,
                    #[trigger] rest[j],
                ) is None by {
                    assert(rest[j] == names[j + 1]);
                }
            }
        }
        if forall|j: int|
            0 <= j < names.len() ==> porcelain::checkout_of(list, #[trigger] names[j]) is None {
            assert(porcelain::checkout_of(list, names[0]) is None);
            assert forall|j: int| 0 <= j < rest.len() implies porcelain::checkout_of(
                list,
                #[trigger] rest[j],
            ) is None by {
                assert(rest[j] == names[j + 1]);
            }
        }
    }
}

/// Files are transferred from the current working tree, always. In a bare repository's own
/// directory they come from the worktree of the first trunk name that has one; without
/// one, nothing is transferred.
pub proof fn law_source_of_files(
    known: Known,
    repo: RepoModel,
    cfg: ConfigModel,
    out: Text,
    names: Seq<Text>,
    i: int,
)
    requires
        names == repo::trunk_names(cfg.default_branch),
        repo.root is None ==> git::required(
            known,
            git::query(Topic::Worktrees, repo.git_dir, ""@, ""@),
        ) == Ok::<Text, StopModel>(out),
    ensures
        repo.root is Some ==> repo::source_dir(known, repo, cfg) == Ok::<Option<Text>, StopModel>(
            repo.root,
        ),
        repo.root is None && 0 <= i < names.len() && porcelain::checkout_of(
            porcelain::worktrees(out),
            names[i],
        ) is Some && (forall|j: int|
            0 <= j < i ==> porcelain::checkout_of(
                porcelain::worktrees(out),
                #[trigger] names[j],
            ) is None) ==> repo::source_dir(known, repo, cfg) == Ok::<Option<Text>, StopModel>(
            porcelain::checkout_of(porcelain::worktrees(out), names[i]),
        ),
        repo.root is None && (forall|j: int|
            0 <= j < names.len() ==> porcelain::checkout_of(
                porcelain::worktrees(out),
                #[trigger] names[j],
            ) is None) ==> repo::source_dir(known, repo, cfg) == Ok::<Option<Text>, StopModel>(
            None,
        ),
{
    lemma_first_checkout(porcelain::worktrees(out), names);
}

/// Without a source, or a list in it, nothing is transferred; with one, from there.
pub proof fn law_listing_source(known: Known, repo: RepoModel, cfg: ConfigModel, source: Text)
    ensures
        repo::source_dir(known, repo, cfg) == Ok::<Option<Text>, StopModel>(None)
            ==> transfer::listing_source(known, repo, cfg) == Ok::<Option<Text>, StopModel>(None),
        repo::source_dir(known, repo, cfg) == Ok::<Option<Text>, StopModel>(Some(source)) ==> (
        git::succeeds(
            known,
            git::query(
                Topic::Exists,
                ""@,
                path::joined_path(source, ".worktreeinclude"@),
                ""@,
            ),
        ) matches Ok(there) ==> transfer::listing_source(known, repo, cfg) == Ok::<
            Option<Text>,
            StopModel,
        >(
            if there {
                Some(source)
            } else {
                None
            },
        )),
{
}

/// Who is sent home from a bare repository's worktree goes to that of the first trunk name
/// that has one, else to the first worktree that is left, else to the repository itself.
pub proof fn law_home_in_bare(
    known: Known,
    repo: RepoModel,
    cfg: ConfigModel,
    out: Text,
    names: Seq<Text>,
    i: int,
)
    requires
        repo.bare,
        names == repo::trunk_names(cfg.default_branch),
        git::optional(known, git::query(Topic::Worktrees, repo.main, ""@, ""@)) == Ok::<
            Option<Text>,
            StopModel,
        >(Some(out)),
    ensures
        ({
            let list = porcelain::worktrees(out);
            let home = repo::home_dir(known, repo, cfg);
            let no_trunk = forall|j: int|
                0 <= j < names.len() ==> porcelain::checkout_of(list, #[trigger] names[j]) is None;
            &&& 0 <= i < names.len() && porcelain::checkout_of(list, names[i]) is Some && (forall|
                j: int,
            |
                0 <= j < i ==> porcelain::checkout_of(list, #[trigger] names[j]) is None)
                ==> home == Ok::<Text, StopModel>(porcelain::checkout_of(list, names[i])->Some_0)
            &&& no_trunk && 0 <= i < list.len() && !list[i].bare && (forall|j: int|
                0 <= j < i ==> (#[trigger] list[j]).bare) ==> home == Ok::<Text, StopModel>(
                list[i].path,
            )
            &&& no_trunk && (forall|j: int| 0 <= j < list.len() ==> (#[trigger] list[j]).bare)
                ==> home == Ok::<Text, StopModel>(repo.main)
        }),
{
    let list = porcelain::worktrees(out);
    lemma_first_checkout(list, names);
    lemma_any_checkout_is(list, i);
}

/// Who is sent home from any other worktree goes to the main one; and so does, in a bare
/// repository, who cannot be told of the worktrees that are left.
pub proof fn law_home_is_the_main_worktree(known: Known, repo: RepoModel, cfg: ConfigModel)
    requires
        repo.bare ==> git::optional(known, git::query(Topic::Worktrees, repo.main, ""@, ""@))
            == Ok::<Option<Text>, StopModel>(None),
    ensures
        repo::home_dir(known, repo, cfg) == Ok::<Text, StopModel>(repo.main),
{
}

proof fn lemma_any_checkout_is(list: Seq<WorktreeModel>, i: int)
    ensures
        0 <= i < list.len() && !list[i].bare && (forall|j: int|
            0 <= j < i ==> (#[trigger] list[j]).bare) ==> repo::any_checkout(list) == Some(
            list[i].path,
        ),
        (forall|j: int| 0 <= j < list.len() ==> (#[trigger] list[j]).bare) ==> repo::any_checkout(
            list,
        ) is None,
    decreases list.len(),
{
    if list.len() > 0 {
        let rest = list.drop_first();
        lemma_any_checkout_is(rest, i - 1);
        assert(forall|j: int| 0 <= j < rest.len() ==> rest[j] == list[j + 1]);
        if 0 < i < list.len() && (forall|j: int| 0 <= j < i ==> (#[trigger] list[j]).bare) {
            assert(list[0].bare);
            assert(rest[i - 1] == list[i]);
            assert forall|j: int| 0 <= j < i - 1 implies (#[trigger] rest[j]).bare by {
                assert(rest[j] == list[j + 1]);
            }
        }
        if forall|j: int| 0 <= j < list.len() ==> (#[trigger] list[j]).bare {
            assert(list[0].bare);
            assert forall|j: int| 0 <= j < rest.len() implies (#[trigger] rest[j]).bare by {
                assert(rest[j] == list[j + 1]);
            }
        }
    }
}

/// The default branch of `origin` is what stands behind `refs/remotes/origin/`, whole.
pub proof fn law_default_of_origin(known: Known, dir: Text, full: Text, name: Text)
    requires
        git::optional(known, git::query(Topic::RemoteHead, dir, ""@, ""@)) == Ok::<
            Option<Text>,
            StopModel,
        >(Some(full)),
    ensures
        repo::origin_default(known, dir) == Ok::<Option<Text>, StopModel>(Some(name)) <==> full
            == "refs/remotes/origin/"@ + name,
        repo::origin_default(known, dir) is Ok,
{
    reading_laws::law_stripping(full, "refs/remotes/origin/"@, name);
}

/// If neither a configured nor a default branch nor `main` nor `master` exists, the trunk
/// is the name that git gives to first branches, if there is such a branch; else there is
/// none.
pub proof fn law_last_resort_trunk(
    known: Known,
    dir: Text,
    cfg: ConfigModel,
    tips: Seq<TipModel>,
    head: Option<Text>,
    first: Option<Text>,
)
    requires
        cfg.default_branch matches Some(name) ==> !porcelain::is_branch(tips, name),
        repo::origin_default(known, dir) == Ok::<Option<Text>, StopModel>(head),
        head matches Some(name) ==> !porcelain::is_branch(tips, name),
        !porcelain::is_branch(tips, "main"@),
        !porcelain::is_branch(tips, "master"@),
        git::optional(known, git::query(Topic::InitialBranch, dir, ""@, ""@)) == Ok::<
            Option<Text>,
            StopModel,
        >(first),
    ensures
        repo::trunk(known, dir, cfg, tips) == Ok::<Option<Text>, StopModel>(
            match first {
                Some(name) => if name.len() > 0 && porcelain::is_branch(tips, name) {
                    Some(name)
                } else {
                    None
                },
                None => None,
            },
        ),
{
}

/// A branch is local exactly if there is a tip of its name.
pub proof fn law_local_branch_names(tips: Seq<TipModel>, name: Text)
    ensures
        porcelain::is_branch(tips, name) <==> exists|i: int|
            0 <= i < tips.len() && (#[trigger] tips[i]).name == name,
{
}

// ---------------------------------------------------------------------------
// Remotes
// ---------------------------------------------------------------------------

/// The remotes that have a branch are those of git's list for which git finds it, in the
/// order of the list.
pub proof fn law_remotes_that_have_a_branch(
    known: Known,
    dir: Text,
    branch: Text,
    a: Seq<Text>,
    b: Seq<Text>,
    remote: Text,
)
    requires
        repo::having(known, dir, branch, a) is Ok,
        repo::having(known, dir, branch, b) is Ok,
    ensures
        repo::having(known, dir, branch, a + b) == Ok::<Seq<Text>, StopModel>(
            repo::having(known, dir, branch, a)->Ok_0 + repo::having(known, dir, branch, b)->Ok_0,
        ),
        git::succeeds(known, git::query(Topic::RemoteBranch, dir, remote, branch)) matches Ok(has)
            ==> repo::having(known, dir, branch, seq![remote]) == Ok::<Seq<Text>, StopModel>(
            if has {
                seq![remote]
            } else {
                Seq::empty()
            },
        ),
        repo::having(known, dir, branch, Seq::empty()) == Ok::<Seq<Text>, StopModel>(Seq::empty()),
    decreases a.len(),
{
    let one = seq![remote];
    assert(one.drop_first() =~= Seq::empty());
    assert(repo::having(known, dir, branch, Seq::empty()) == Ok::<Seq<Text>, StopModel>(
        Seq::empty(),
    ));
    assert(one + Seq::<Text>::empty() =~= one);
    let tail = repo::having(known, dir, branch, b)->Ok_0;
    if a.len() == 0 {
        assert(a + b =~= b);
        assert(Seq::<Text>::empty() + tail =~= tail);
    } else {
        let rest = a.drop_first();
        law_remotes_that_have_a_branch(known, dir, branch, rest, b, remote);
        assert((a + b)[0] == a[0]);
        assert((a + b).drop_first() =~= rest + b);
        let mid = repo::having(known, dir, branch, rest)->Ok_0;
        assert(seq![a[0]] + (mid + tail) =~= seq![a[0]] + mid + tail);
    }
}

/// Which remote a branch is tracked on, given those that have it: the one asked for if it
/// is among them, and an error if it is not. If none is asked for: `origin` if it is among
/// them; else the only one; none if there are none; and an error, naming all of them, if
/// there are several.
pub proof fn law_choice_of_remote(
    known: Known,
    dir: Text,
    branch: Text,
    out: Text,
    have: Seq<Text>,
    remote: Text,
)
    requires
        git::optional(known, git::query(Topic::Remotes, dir, ""@, ""@)) == Ok::<
            Option<Text>,
            StopModel,
        >(Some(out)),
        repo::having(known, dir, branch, text::lines_of(out)) == Ok::<Seq<Text>, StopModel>(have),
    ensures
        have.contains(remote) ==> repo::remote_for(known, dir, branch, Some(remote)) == Ok::<
            Option<Text>,
            StopModel,
        >(Some(remote)),
        !have.contains(remote) ==> repo::remote_for(known, dir, branch, Some(remote)) == Err::<
            Option<Text>,
            StopModel,
        >(Stop::Fail(Error::RemoteLacksBranch { remote, branch })),
        have.contains("origin"@) ==> repo::remote_for(known, dir, branch, None) == Ok::<
            Option<Text>,
            StopModel,
        >(Some("origin"@)),
        have == seq![remote] ==> repo::remote_for(known, dir, branch, None) == Ok::<
            Option<Text>,
            StopModel,
        >(Some(remote)),
        have.len() == 0 ==> repo::remote_for(known, dir, branch, None) == Ok::<
            Option<Text>,
            StopModel,
        >(None),
        have.len() > 1 && !have.contains("origin"@) ==> repo::remote_for(known, dir, branch, None)
            == Err::<Option<Text>, StopModel>(
            Stop::Fail(Error::AmbiguousRemote { branch, remotes: have }),
        ),
{
    if have == seq![remote] {
        assert(have[0] == remote);
    }
}

/// If git cannot tell the remotes, there are none.
pub proof fn law_no_remotes(known: Known, dir: Text, branch: Text, remote: Text)
    requires
        git::optional(known, git::query(Topic::Remotes, dir, ""@, ""@)) == Ok::<
            Option<Text>,
            StopModel,
        >(None),
    ensures
        repo::remote_for(known, dir, branch, None) == Ok::<Option<Text>, StopModel>(None),
        repo::remote_for(known, dir, branch, Some(remote)) == Err::<Option<Text>, StopModel>(
            Stop::Fail(Error::RemoteLacksBranch { remote, branch }),
        ),
{
}

/// How far HEAD and its upstream are apart is what git counts; without an upstream there
/// is no distance.
pub proof fn law_distance_from_upstream(known: Known, dir: Text, out: Option<Text>)
    requires
        git::optional(known, git::query(Topic::Divergence, dir, ""@, ""@)) == Ok::<
            Option<Text>,
            StopModel,
        >(out),
    ensures
        repo::divergence(known, dir) == Ok::<Option<(nat, nat)>, StopModel>(
            match out {
                Some(s) => porcelain::counts(s),
                None => None,
            },
        ),
{
}

} // verus!
