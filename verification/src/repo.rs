//! The repository: where it lies, what its worktrees are called, which branch is
//! its trunk.

use crate::config::{Config, ConfigModel};
use crate::error;
use crate::error::Error;
use crate::git;
use crate::git::{Facts, Known, Query, Stop, StopModel, Topic};
use crate::path;
use crate::path::{file_name, is_same_path, join, parent};
use crate::porcelain;
use crate::porcelain::{
    find_checkout, has_branch, parse_counts, parse_status, parse_tips, parse_worktrees, AheadBehind,
    Status, StatusModel, Tip, TipModel, Worktree, WorktreeModel,
};
use crate::template;
use crate::template::render;
use crate::text;
use crate::text::{
    empty_list, grow, has_text, lines, replace_char, same, strip_prefix, trim,
    trim_end_matches, Text,
};
use vstd::prelude::*;

verus! {

/// A repository, as seen from where the program was started.
pub struct Repo<S = String> {
    /// The working tree in which the program was started; none in a bare
    /// repository's own directory. Identity does not depend on it.
    pub root: Option<S>,
    /// The git directory that all worktrees share.
    pub git_dir: S,
    /// The main worktree, or the bare repository's directory. Names and places
    /// derive from this, so they are the same in every worktree.
    pub main: S,
    pub name: S,
    pub bare: bool,
}

/// The value of a repository.
pub type RepoModel = Repo<Text>;

impl DeepView for Repo<String> {
    type V = RepoModel;

    open spec fn deep_view(&self) -> RepoModel {
        Repo {
            root: self.root.deep_view(),
            git_dir: self.git_dir@,
            main: self.main@,
            name: self.name@,
            bare: self.bare,
        }
    }
}

/// What has been found already, followed by the rest if the rest can be had.
pub open spec fn after<T>(done: Seq<T>, rest: Result<Seq<T>, StopModel>) -> Result<
    Seq<T>,
    StopModel,
> {
    match rest {
        Ok(tail) => Ok(done + tail),
        Err(stop) => Err(stop),
    }
}

// ---------------------------------------------------------------------------
// Discovery
// ---------------------------------------------------------------------------

/// The working tree in which the program was started. `bare` says that there is
/// none.
pub open spec fn root_here(known: Known, bare: bool) -> Result<Option<Text>, StopModel> {
    if bare {
        Ok(None)
    } else {
        match git::required(known, git::query(Topic::TopLevel, ""@, ""@, ""@)) {
            Ok(top) => Ok(
                if top.len() == 0 {
                    None
                } else {
                    Some(top)
                },
            ),
            Err(stop) => Err(stop),
        }
    }
}

/// The directory to start from: the working tree, else the current directory.
pub open spec fn starting_dir(known: Known, root: Option<Text>) -> Result<Text, StopModel> {
    match root {
        Some(dir) => Ok(dir),
        None => match git::answer(known, git::query(Topic::CurrentDir, ""@, ""@, ""@)) {
            Ok(reply) => if reply.success {
                Ok(reply.text)
            } else {
                Err(Stop::Fail(Error::NoCurrentDir { cause: reply.note }))
            },
            Err(stop) => Err(stop),
        },
    }
}

/// The canonical form of `p`; `p` itself if it has none.
pub open spec fn canonical(known: Known, p: Text) -> Result<Text, StopModel> {
    match git::resolved(known, git::query(Topic::Canonical, ""@, p, ""@)) {
        Ok(Some(true_path)) => Ok(true_path),
        Ok(None) => Ok(p),
        Err(stop) => Err(stop),
    }
}

/// Whether the repository whose git directory is `git_dir` is configured as bare.
pub open spec fn is_bare_repo(known: Known, git_dir: Text) -> Result<bool, StopModel> {
    let config = path::joined_path(git_dir, "config"@);
    match git::answer(known, git::query(Topic::CoreBare, ""@, config, ""@)) {
        Ok(reply) => Ok(reply.started && reply.success && text::trimmed(reply.text) == "true"@),
        Err(stop) => Err(stop),
    }
}

/// The name of the repository whose main worktree is `main`: the directory's own,
/// for a bare repository without its `.git`.
pub open spec fn repo_name(main: Text, bare: bool) -> Text {
    match path::base_name(main) {
        Some(name) => {
            let short = if bare {
                text::without_suffixes(name, ".git"@)
            } else {
                name
            };
            if short.len() > 0 {
                short
            } else {
                "repo"@
            }
        },
        None => "repo"@,
    }
}

/// The path of the first worktree of `list`, or `git_dir` if there is none.
pub open spec fn main_of(list: Seq<WorktreeModel>, git_dir: Text) -> Text {
    if list.len() > 0 {
        list[0].path
    } else {
        git_dir
    }
}

/// The repository with its git directory and starting directory found.
pub open spec fn repo_at(known: Known, root: Option<Text>, here: Text, git_dir: Text) -> Result<
    RepoModel,
    StopModel,
> {
    match is_bare_repo(known, git_dir) {
        Err(stop) => Err(stop),
        Ok(bare) => match git::required(known, git::query(Topic::Worktrees, here, ""@, ""@)) {
            Err(stop) => Err(stop),
            Ok(list) => {
                let main = main_of(porcelain::worktrees(list), git_dir);
                Ok(Repo { root, git_dir, main, name: repo_name(main, bare), bare })
            },
        },
    }
}

/// The canonical form of the git directory that all worktrees share, as git in `here`
/// gives it.
pub open spec fn shared_dir(known: Known, here: Text) -> Result<Text, StopModel> {
    match git::required(known, git::query(Topic::CommonDir, here, ""@, ""@)) {
        Err(stop) => Err(stop),
        Ok(common) => canonical(known, path::joined_path(here, common)),
    }
}

/// The repository in which the program was started.
pub open spec fn discovered(known: Known) -> Result<RepoModel, StopModel> {
    match git::captured(known, git::query(Topic::BareHere, ""@, ""@, ""@)) {
        Err(stop) => Err(stop),
        Ok(Err(e)) => Err(
            Stop::Fail(
                Error::NotARepository {
                    causes: seq![error::error_text(e)] + error::error_causes(e),
                },
            ),
        ),
        Ok(Ok(flag)) => match root_here(known, flag == "true"@) {
            Err(stop) => Err(stop),
            Ok(root) => match starting_dir(known, root) {
                Err(stop) => Err(stop),
                Ok(here) => match shared_dir(known, here) {
                    Err(stop) => Err(stop),
                    Ok(git_dir) => repo_at(known, root, here, git_dir),
                },
            },
        },
    }
}

/// The canonical form of `p`; `p` itself if it has none.
pub fn canonicalize(facts: &Facts, p: &str) -> (r: Result<String, Stop>)
    ensures
        git::agrees(r, canonical(facts@, p@)),
{
    match facts.resolve(Query::new(Topic::Canonical, "", p, ""))? {
        Some(true_path) => Ok(true_path),
        None => Ok(p.to_owned()),
    }
}

/// Whether the repository whose git directory is `git_dir` is configured as bare.
pub fn is_bare(facts: &Facts, git_dir: &str) -> (r: Result<bool, Stop>)
    ensures
        git::agrees(r, is_bare_repo(facts@, git_dir@)),
{
    let config = join(git_dir, "config");
    let reply = facts.ask(Query::new(Topic::CoreBare, "", config.as_str(), ""))?;
    Ok(reply.started && reply.success && same(trim(reply.text.as_str()).as_str(), "true"))
}

fn name_of(main: &str, bare: bool) -> (r: String)
    ensures
        r@ == repo_name(main@, bare),
{
    match file_name(main) {
        Some(name) => {
            let short = if bare {
                trim_end_matches(name.as_str(), ".git")
            } else {
                name
            };
            if !short.as_str().is_empty() {
                short
            } else {
                "repo".to_owned()
            }
        },
        None => "repo".to_owned(),
    }
}

impl Repo<String> {
    /// Finds the repository in which the program was started.
    pub fn discover(facts: &Facts) -> (r: Result<Repo, Stop>)
        ensures
            git::agrees(r, discovered(facts@)),
    {
        let flag = match facts.capture(Query::new(Topic::BareHere, "", "", ""))? {
            Ok(flag) => flag,
            Err(e) => {
                let mut causes = e.causes();
                let ghost below = causes.deep_view();
                causes.insert(0, e.message());
                assert(causes.deep_view() =~= seq![error::error_text(e.deep_view())] + below);
                return Err(Stop::Fail(Error::NotARepository { causes }));
            },
        };
        let root: Option<String> = if same(flag.as_str(), "true") {
            None
        } else {
            let top = facts.require(Query::new(Topic::TopLevel, "", "", ""))?;
            if top.as_str().is_empty() {
                None
            } else {
                Some(top)
            }
        };
        let here = match &root {
            Some(dir) => dir.clone(),
            None => {
                let reply = facts.ask(Query::new(Topic::CurrentDir, "", "", ""))?;
                if !reply.success {
                    return Err(Stop::Fail(Error::NoCurrentDir { cause: reply.note.clone() }));
                }
                reply.text.clone()
            },
        };
        let common = facts.require(Query::new(Topic::CommonDir, here.as_str(), "", ""))?;
        let git_dir = canonicalize(facts, join(here.as_str(), common.as_str()).as_str())?;
        let bare = is_bare(facts, git_dir.as_str())?;
        let list = facts.require(Query::new(Topic::Worktrees, here.as_str(), "", ""))?;
        let worktrees = parse_worktrees(list.as_str());
        assert(worktrees.deep_view().len() == worktrees.len());
        let main = if worktrees.len() > 0 {
            assert(worktrees.deep_view()[0] == worktrees@[0].deep_view());
            worktrees[0].path.clone()
        } else {
            git_dir.clone()
        };
        let name = name_of(main.as_str(), bare);
        Ok(Repo { root, git_dir, main, name, bare })
    }

    /// The directory in which to run git.
    pub fn cwd(&self) -> (r: &str)
        ensures
            r@ == work_dir(self.deep_view()),
    {
        match &self.root {
            Some(dir) => dir.as_str(),
            None => self.git_dir.as_str(),
        }
    }
}

/// The directory in which to run git: the working tree, else the git directory.
pub open spec fn work_dir(repo: RepoModel) -> Text {
    match repo.root {
        Some(dir) => dir,
        None => repo.git_dir,
    }
}

// ---------------------------------------------------------------------------
// Where worktrees lie
// ---------------------------------------------------------------------------

/// The directory against which worktree paths are resolved: the one around the
/// main working tree, or the bare repository itself.
pub open spec fn base_dir(bare: bool, main: Text) -> Text {
    if bare {
        main
    } else {
        match path::parent_path(main) {
            Some(dir) => dir,
            None => main,
        }
    }
}

/// The directory against which worktree paths are resolved.
pub fn worktree_base(bare: bool, main: &str) -> (r: String)
    ensures
        r@ == base_dir(bare, main@),
{
    if bare {
        main.to_owned()
    } else {
        match parent(main) {
            Some(dir) => dir,
            None => main.to_owned(),
        }
    }
}

/// `branch` with each `/` turned into `-`, so that it names one directory.
pub open spec fn flat(branch: Text) -> Text {
    branch.map_values(|c: char| if c == '/' { '-' } else { c })
}

/// The path template of new worktrees.
pub open spec fn path_template(bare: bool, cfg: ConfigModel) -> Text {
    match cfg.worktree_path {
        Some(template) => template,
        None => if bare {
            "{branch}"@
        } else {
            "{repo}-{branch}"@
        },
    }
}

/// The path at which the worktree of `branch` is created, and looked for.
pub open spec fn worktree_path(repo: RepoModel, cfg: ConfigModel, branch: Text) -> Text {
    path::joined_path(
        base_dir(repo.bare, repo.main),
        template::rendered(
            path_template(repo.bare, cfg),
            seq![("repo"@, repo.name), ("branch"@, flat(branch))],
        ),
    )
}

/// The path at which the worktree of `branch` is created, and looked for.
pub fn worktree_path_for(repo: &Repo, cfg: &Config, branch: &str) -> (r: String)
    ensures
        r@ == worktree_path(repo.deep_view(), cfg.deep_view(), branch@),
{
    let template = match &cfg.worktree_path {
        Some(template) => template.as_str(),
        None => if repo.bare {
            "{branch}"
        } else {
            "{repo}-{branch}"
        },
    };
    let dashed = replace_char(branch, '/', '-');
    let vars = [("repo", repo.name.as_str()), ("branch", dashed.as_str())];
    let rendered = render(template, &vars);
    assert(template::bindings(vars@) =~= seq![
        ("repo"@, repo.name@),
        ("branch"@, flat(branch@)),
    ]);
    join(worktree_base(repo.bare, repo.main.as_str()).as_str(), rendered.as_str())
}

/// The path of the first worktree of `list` whose canonical form is `expected`.
pub open spec fn worktree_at(known: Known, list: Seq<WorktreeModel>, expected: Text) -> Result<
    Option<Text>,
    StopModel,
>
    decreases list.len(),
{
    if list.len() == 0 {
        Ok(None)
    } else if list[0].bare {
        worktree_at(known, list.drop_first(), expected)
    } else {
        match canonical(known, list[0].path) {
            Err(stop) => Err(stop),
            Ok(true_path) => if path::same_path(true_path, expected) {
                Ok(Some(list[0].path))
            } else {
                worktree_at(known, list.drop_first(), expected)
            },
        }
    }
}

/// The path of the first worktree of `list` in a directory called `name`.
pub open spec fn worktree_called(list: Seq<WorktreeModel>, name: Text) -> Option<Text>
    decreases list.len(),
{
    if list.len() == 0 {
        None
    } else if !list[0].bare && path::base_name(list[0].path) == Some(name) {
        Some(list[0].path)
    } else {
        worktree_called(list.drop_first(), name)
    }
}

/// The worktree that `name` means: the one with that branch checked out, else the
/// one at the path that a worktree of that name gets, else the one in a directory
/// of that name.
pub open spec fn worktree_named(
    known: Known,
    repo: RepoModel,
    cfg: ConfigModel,
    name: Text,
) -> Result<Text, StopModel> {
    match git::required(known, git::query(Topic::Worktrees, work_dir(repo), ""@, ""@)) {
        Err(stop) => Err(stop),
        Ok(out) => {
            let list = porcelain::worktrees(out);
            match porcelain::checkout_of(list, name) {
                Some(found) => Ok(found),
                None => match canonical(known, worktree_path(repo, cfg, name)) {
                    Err(stop) => Err(stop),
                    Ok(expected) => match worktree_at(known, list, expected) {
                        Err(stop) => Err(stop),
                        Ok(Some(found)) => Ok(found),
                        Ok(None) => match worktree_called(list, name) {
                            Some(found) => Ok(found),
                            None => Err(Stop::Fail(Error::NoWorktree { name })),
                        },
                    },
                },
            }
        },
    }
}

fn find_at(facts: &Facts, list: &Vec<Worktree>, expected: &str) -> (r: Result<Option<String>, Stop>)
    ensures
        git::agrees(r, worktree_at(facts@, list.deep_view(), expected@)),
{
    let ghost all = list.deep_view();
    let mut i: usize = 0;
    assert(all.skip(0) =~= all);
    while i < list.len()
        invariant
            i <= list.len(),
            all == list.deep_view(),
            worktree_at(facts@, all.skip(i as int), expected@) == worktree_at(
                facts@,
                all,
                expected@,
            ),
        decreases list.len() - i,
    {
        let ghost rest = all.skip(i as int);
        assert(rest[0] == list@[i as int].deep_view());
        assert(rest.drop_first() =~= all.skip(i + 1));
        if !list[i].bare {
            let true_path = canonicalize(facts, list[i].path.as_str())?;
            if is_same_path(true_path.as_str(), expected) {
                return Ok(Some(list[i].path.clone()));
            }
        }
        i += 1;
    }
    Ok(None)
}

fn find_called(list: &Vec<Worktree>, name: &str) -> (r: Option<String>)
    ensures
        r.deep_view() == worktree_called(list.deep_view(), name@),
{
    let ghost all = list.deep_view();
    let mut i: usize = 0;
    assert(all.skip(0) =~= all);
    while i < list.len()
        invariant
            i <= list.len(),
            all == list.deep_view(),
            worktree_called(all.skip(i as int), name@) == worktree_called(all, name@),
        decreases list.len() - i,
    {
        let ghost rest = all.skip(i as int);
        assert(rest[0] == list@[i as int].deep_view());
        assert(rest.drop_first() =~= all.skip(i + 1));
        if !list[i].bare {
            if let Some(base) = file_name(list[i].path.as_str()) {
                if same(base.as_str(), name) {
                    return Some(list[i].path.clone());
                }
            }
        }
        i += 1;
    }
    None
}

/// The worktree that `name` means.
pub fn resolve_worktree(facts: &Facts, repo: &Repo, cfg: &Config, name: &str) -> (r: Result<
    String,
    Stop,
>)
    ensures
        git::agrees(r, worktree_named(facts@, repo.deep_view(), cfg.deep_view(), name@)),
{
    let out = facts.require(Query::new(Topic::Worktrees, repo.cwd(), "", ""))?;
    let list = parse_worktrees(out.as_str());
    if let Some(found) = find_checkout(&list, name) {
        return Ok(found);
    }
    let expected = canonicalize(facts, worktree_path_for(repo, cfg, name).as_str())?;
    if let Some(found) = find_at(facts, &list, expected.as_str())? {
        return Ok(found);
    }
    match find_called(&list, name) {
        Some(found) => Ok(found),
        None => Err(Stop::Fail(Error::NoWorktree { name: name.to_owned() })),
    }
}

// ---------------------------------------------------------------------------
// The trunk
// ---------------------------------------------------------------------------

/// `names` followed by `name`, unless it holds `name` already.
pub open spec fn with_name(names: Seq<Text>, name: Text) -> Seq<Text> {
    if names.contains(name) {
        names
    } else {
        names.push(name)
    }
}

/// The names a trunk may have, the preferred one first: the configured one, then
/// `main`, then `master`.
pub open spec fn trunk_names(configured: Option<Text>) -> Seq<Text> {
    let first = match configured {
        Some(name) => seq![name],
        None => Seq::empty(),
    };
    with_name(with_name(first, "main"@), "master"@)
}

/// The names a trunk may have, the preferred one first.
pub fn trunk_candidates(cfg: &Config) -> (r: Vec<String>)
    ensures
        r.deep_view() == trunk_names(cfg.deep_view().default_branch),
{
    let mut names: Vec<String> = empty_list();
    if let Some(d) = &cfg.default_branch {
        grow(&mut names, d.clone());
    }
    let ghost first = match cfg.deep_view().default_branch {
        Some(name) => seq![name],
        None => Seq::empty(),
    };
    assert(names.deep_view() =~= first);
    if !has_text(&names, "main") {
        grow(&mut names, "main".to_owned());
    }
    if !has_text(&names, "master") {
        grow(&mut names, "master".to_owned());
    }
    names
}

/// The checkout of the first of `names` that has one.
pub open spec fn first_checkout(list: Seq<WorktreeModel>, names: Seq<Text>) -> Option<Text>
    decreases names.len(),
{
    if names.len() == 0 {
        None
    } else {
        match porcelain::checkout_of(list, names[0]) {
            Some(found) => Some(found),
            None => first_checkout(list, names.drop_first()),
        }
    }
}

fn find_first_checkout(list: &Vec<Worktree>, names: &Vec<String>) -> (r: Option<String>)
    ensures
        r.deep_view() == first_checkout(list.deep_view(), names.deep_view()),
{
    let ghost all = names.deep_view();
    let mut i: usize = 0;
    assert(all.skip(0) =~= all);
    while i < names.len()
        invariant
            i <= names.len(),
            all == names.deep_view(),
            first_checkout(list.deep_view(), all.skip(i as int)) == first_checkout(
                list.deep_view(),
                all,
            ),
        decreases names.len() - i,
    {
        let ghost rest = all.skip(i as int);
        assert(rest[0] == names@[i as int]@);
        assert(rest.drop_first() =~= all.skip(i + 1));
        if let Some(found) = find_checkout(list, names[i].as_str()) {
            return Some(found);
        }
        i += 1;
    }
    None
}

/// The directory from which the files named in `.worktreeinclude` are taken: the
/// current working tree; in a bare repository's own directory, the worktree of the
/// trunk, if there is one.
pub open spec fn source_dir(known: Known, repo: RepoModel, cfg: ConfigModel) -> Result<
    Option<Text>,
    StopModel,
> {
    match repo.root {
        Some(dir) => Ok(Some(dir)),
        None => match git::required(
            known,
            git::query(Topic::Worktrees, work_dir(repo), ""@, ""@),
        ) {
            Err(stop) => Err(stop),
            Ok(out) => Ok(
                first_checkout(porcelain::worktrees(out), trunk_names(cfg.default_branch)),
            ),
        },
    }
}

/// The directory from which the files named in `.worktreeinclude` are taken.
pub fn resolve_source(facts: &Facts, repo: &Repo, cfg: &Config) -> (r: Result<
    Option<String>,
    Stop,
>)
    ensures
        git::agrees(r, source_dir(facts@, repo.deep_view(), cfg.deep_view())),
{
    if let Some(dir) = &repo.root {
        return Ok(Some(dir.clone()));
    }
    let out = facts.require(Query::new(Topic::Worktrees, repo.cwd(), "", ""))?;
    Ok(find_first_checkout(&parse_worktrees(out.as_str()), &trunk_candidates(cfg)))
}

/// The path of the first worktree of `list` that has a checkout.
pub open spec fn any_checkout(list: Seq<WorktreeModel>) -> Option<Text>
    decreases list.len(),
{
    if list.len() == 0 {
        None
    } else if !list[0].bare {
        Some(list[0].path)
    } else {
        any_checkout(list.drop_first())
    }
}

fn find_any_checkout(list: &Vec<Worktree>) -> (r: Option<String>)
    ensures
        r.deep_view() == any_checkout(list.deep_view()),
{
    let ghost all = list.deep_view();
    let mut i: usize = 0;
    assert(all.skip(0) =~= all);
    while i < list.len()
        invariant
            i <= list.len(),
            all == list.deep_view(),
            any_checkout(all.skip(i as int)) == any_checkout(all),
        decreases list.len() - i,
    {
        let ghost rest = all.skip(i as int);
        assert(rest[0] == list@[i as int].deep_view());
        assert(rest.drop_first() =~= all.skip(i + 1));
        if !list[i].bare {
            return Some(list[i].path.clone());
        }
        i += 1;
    }
    None
}

/// Where to go once the current worktree is gone: the main working tree; in a bare
/// repository the trunk's worktree, else any that is left, else the repository's
/// own directory.
pub open spec fn home_dir(known: Known, repo: RepoModel, cfg: ConfigModel) -> Result<
    Text,
    StopModel,
> {
    if !repo.bare {
        Ok(repo.main)
    } else {
        match git::optional(known, git::query(Topic::Worktrees, repo.main, ""@, ""@)) {
            Err(stop) => Err(stop),
            Ok(None) => Ok(repo.main),
            Ok(Some(out)) => {
                let list = porcelain::worktrees(out);
                match first_checkout(list, trunk_names(cfg.default_branch)) {
                    Some(found) => Ok(found),
                    None => match any_checkout(list) {
                        Some(found) => Ok(found),
                        None => Ok(repo.main),
                    },
                }
            },
        }
    }
}

/// Where to go once the current worktree is gone.
pub fn home_checkout(facts: &Facts, repo: &Repo, cfg: &Config) -> (r: Result<String, Stop>)
    ensures
        git::agrees(r, home_dir(facts@, repo.deep_view(), cfg.deep_view())),
{
    if !repo.bare {
        return Ok(repo.main.clone());
    }
    if let Some(out) = facts.try_capture(
        Query::new(Topic::Worktrees, repo.main.as_str(), "", ""),
    )? {
        let list = parse_worktrees(out.as_str());
        if let Some(found) = find_first_checkout(&list, &trunk_candidates(cfg)) {
            return Ok(found);
        }
        if let Some(found) = find_any_checkout(&list) {
            return Ok(found);
        }
    }
    Ok(repo.main.clone())
}

/// The tips of the local branches; none if git cannot tell.
pub open spec fn local_tips(known: Known, dir: Text) -> Result<Seq<TipModel>, StopModel> {
    match git::optional(known, git::query(Topic::Tips, dir, ""@, ""@)) {
        Err(stop) => Err(stop),
        Ok(None) => Ok(Seq::empty()),
        Ok(Some(out)) => Ok(porcelain::tips_of(text::lines_of(out))),
    }
}

/// The tips of the local branches.
pub fn branch_tips(facts: &Facts, dir: &str) -> (r: Result<Vec<Tip>, Stop>)
    ensures
        git::agrees(r, local_tips(facts@, dir@)),
{
    match facts.try_capture(Query::new(Topic::Tips, dir, "", ""))? {
        Some(out) => Ok(parse_tips(out.as_str())),
        None => Ok(empty_list()),
    }
}

/// The branch that `origin` has as its default, if that is recorded.
pub open spec fn origin_default(known: Known, dir: Text) -> Result<Option<Text>, StopModel> {
    match git::optional(known, git::query(Topic::RemoteHead, dir, ""@, ""@)) {
        Err(stop) => Err(stop),
        Ok(None) => Ok(None),
        Ok(Some(full)) => Ok(text::stripped(full, "refs/remotes/origin/"@)),
    }
}

/// The branch that `origin` has as its default, if that is recorded.
pub fn remote_head_branch(facts: &Facts, dir: &str) -> (r: Result<Option<String>, Stop>)
    ensures
        git::agrees(r, origin_default(facts@, dir@)),
{
    match facts.try_capture(Query::new(Topic::RemoteHead, dir, "", ""))? {
        Some(full) => Ok(strip_prefix(full.as_str(), "refs/remotes/origin/")),
        None => Ok(None),
    }
}

/// `name`, if it is given and is a local branch.
pub open spec fn existing(tips: Seq<TipModel>, name: Option<Text>) -> Option<Text> {
    match name {
        Some(n) => if porcelain::is_branch(tips, n) {
            Some(n)
        } else {
            None
        },
        None => None,
    }
}

/// The trunk among the names that need no configuration of the repository: `main`,
/// then `master`, then the name that git gives to first branches.
pub open spec fn usual_trunk(known: Known, dir: Text, tips: Seq<TipModel>) -> Result<
    Option<Text>,
    StopModel,
> {
    if porcelain::is_branch(tips, "main"@) {
        Ok(Some("main"@))
    } else if porcelain::is_branch(tips, "master"@) {
        Ok(Some("master"@))
    } else {
        match git::optional(known, git::query(Topic::InitialBranch, dir, ""@, ""@)) {
            Err(stop) => Err(stop),
            Ok(None) => Ok(None),
            Ok(Some(name)) => Ok(
                if name.len() > 0 {
                    existing(tips, Some(name))
                } else {
                    None
                },
            ),
        }
    }
}

/// The repository's trunk. Only a local branch can be it: the configured one, else
/// the default of `origin`, else the usual one.
pub open spec fn trunk(known: Known, dir: Text, cfg: ConfigModel, tips: Seq<TipModel>) -> Result<
    Option<Text>,
    StopModel,
> {
    match existing(tips, cfg.default_branch) {
        Some(name) => Ok(Some(name)),
        None => match origin_default(known, dir) {
            Err(stop) => Err(stop),
            Ok(head) => match existing(tips, head) {
                Some(name) => Ok(Some(name)),
                None => usual_trunk(known, dir, tips),
            },
        },
    }
}

/// The repository's trunk.
pub fn default_branch(facts: &Facts, dir: &str, cfg: &Config, tips: &Vec<Tip>) -> (r: Result<
    Option<String>,
    Stop,
>)
    ensures
        git::agrees(r, trunk(facts@, dir@, cfg.deep_view(), tips.deep_view())),
{
    if let Some(d) = &cfg.default_branch {
        if has_branch(tips, d.as_str()) {
            return Ok(Some(d.clone()));
        }
    }
    if let Some(d) = remote_head_branch(facts, dir)? {
        if has_branch(tips, d.as_str()) {
            return Ok(Some(d));
        }
    }
    if has_branch(tips, "main") {
        return Ok(Some("main".to_owned()));
    }
    if has_branch(tips, "master") {
        return Ok(Some("master".to_owned()));
    }
    if let Some(d) = facts.try_capture(Query::new(Topic::InitialBranch, dir, "", ""))? {
        if !d.as_str().is_empty() && has_branch(tips, d.as_str()) {
            return Ok(Some(d));
        }
    }
    Ok(None)
}

// ---------------------------------------------------------------------------
// Branches and remotes
// ---------------------------------------------------------------------------

/// Whether `branch` is a local branch.
pub open spec fn is_local(known: Known, dir: Text, branch: Text) -> Result<bool, StopModel> {
    git::succeeds(known, git::query(Topic::LocalBranch, dir, branch, ""@))
}

/// Whether `branch` is a local branch.
pub fn branch_exists(facts: &Facts, dir: &str, branch: &str) -> (r: Result<bool, Stop>)
    ensures
        git::agrees(r, is_local(facts@, dir@, branch@)),
{
    facts.holds(Query::new(Topic::LocalBranch, dir, branch, ""))
}

/// Those of `remotes` that have `branch`.
pub open spec fn having(known: Known, dir: Text, branch: Text, remotes: Seq<Text>) -> Result<
    Seq<Text>,
    StopModel,
>
    decreases remotes.len(),
{
    if remotes.len() == 0 {
        Ok(Seq::empty())
    } else {
        match git::succeeds(known, git::query(Topic::RemoteBranch, dir, remotes[0], branch)) {
            Err(stop) => Err(stop),
            Ok(has) => if has {
                after(seq![remotes[0]], having(known, dir, branch, remotes.drop_first()))
            } else {
                having(known, dir, branch, remotes.drop_first())
            },
        }
    }
}

/// The remotes that have `branch`, as far as has been fetched.
pub open spec fn remotes_having(known: Known, dir: Text, branch: Text) -> Result<
    Seq<Text>,
    StopModel,
> {
    match git::optional(known, git::query(Topic::Remotes, dir, ""@, ""@)) {
        Err(stop) => Err(stop),
        Ok(None) => Ok(Seq::empty()),
        Ok(Some(out)) => having(known, dir, branch, text::lines_of(out)),
    }
}

/// The remotes that have `branch`, as far as has been fetched.
pub fn remotes_with_branch(facts: &Facts, dir: &str, branch: &str) -> (r: Result<
    Vec<String>,
    Stop,
>)
    ensures
        git::agrees(r, remotes_having(facts@, dir@, branch@)),
{
    let mut out: Vec<String> = empty_list();
    if let Some(text) = facts.try_capture(Query::new(Topic::Remotes, dir, "", ""))? {
        let list = lines(text.as_str());
        let ghost all = list.deep_view();
        let ghost goal = having(facts@, dir@, branch@, all);
        let mut i: usize = 0;
        assert(all.skip(0) =~= all);
        assert(goal matches Ok(s) ==> out.deep_view() + s =~= s);
        while i < list.len()
            invariant
                i <= list.len(),
                all == list.deep_view(),
                goal == remotes_having(facts@, dir@, branch@),
                after(out.deep_view(), having(facts@, dir@, branch@, all.skip(i as int))) == goal,
            decreases list.len() - i,
        {
            let remote = list[i].as_str();
            let ghost rest = all.skip(i as int);
            let ghost before = out.deep_view();
            let ghost tail = having(facts@, dir@, branch@, all.skip(i + 1));
            assert(rest[0] == remote@);
            assert(rest.drop_first() =~= all.skip(i + 1));
            if facts.holds(Query::new(Topic::RemoteBranch, dir, remote, branch))? {
                assert(tail matches Ok(s) ==> before.push(remote@) + s =~= before + (seq![remote@]
                    + s));
                grow(&mut out, list[i].clone());
            }
            i += 1;
        }
        assert(out.deep_view() + Seq::<Text>::empty() =~= out.deep_view());
    }
    Ok(out)
}

/// Which of the remotes `have` a branch is to be tracked on: the one asked for,
/// else `origin`, else the only one.
pub open spec fn remote_choice(have: Seq<Text>, branch: Text, explicit: Option<Text>) -> Result<
    Option<Text>,
    StopModel,
> {
    match explicit {
        Some(remote) => if have.contains(remote) {
            Ok(Some(remote))
        } else {
            Err(Stop::Fail(Error::RemoteLacksBranch { remote, branch }))
        },
        None => if have.contains("origin"@) {
            Ok(Some("origin"@))
        } else if have.len() == 0 {
            Ok(None)
        } else if have.len() == 1 {
            Ok(Some(have[0]))
        } else {
            Err(Stop::Fail(Error::AmbiguousRemote { branch, remotes: have }))
        },
    }
}

/// The remote on which `branch` is to be tracked, if any has it.
pub open spec fn remote_for(
    known: Known,
    dir: Text,
    branch: Text,
    explicit: Option<Text>,
) -> Result<Option<Text>, StopModel> {
    match remotes_having(known, dir, branch) {
        Err(stop) => Err(stop),
        Ok(have) => remote_choice(have, branch, explicit),
    }
}

/// The remote on which `branch` is to be tracked, if any has it.
pub fn choose_remote(facts: &Facts, dir: &str, branch: &str, explicit: Option<&str>) -> (r: Result<
    Option<String>,
    Stop,
>)
    ensures
        git::agrees(r, remote_for(facts@, dir@, branch@, explicit.deep_view())),
{
    let have = remotes_with_branch(facts, dir, branch)?;
    if let Some(remote) = explicit {
        if has_text(&have, remote) {
            return Ok(Some(remote.to_owned()));
        }
        return Err(
            Stop::Fail(
                Error::RemoteLacksBranch { remote: remote.to_owned(), branch: branch.to_owned() },
            ),
        );
    }
    if has_text(&have, "origin") {
        return Ok(Some("origin".to_owned()));
    }
    assert(have.deep_view().len() == have.len());
    if have.len() == 0 {
        Ok(None)
    } else if have.len() == 1 {
        Ok(Some(have[0].clone()))
    } else {
        Err(Stop::Fail(Error::AmbiguousRemote { branch: branch.to_owned(), remotes: have }))
    }
}

// ---------------------------------------------------------------------------
// The state of a worktree
// ---------------------------------------------------------------------------

/// The changes in the worktree at `dir`; none if git cannot be started.
pub open spec fn status_in(known: Known, dir: Text) -> Result<StatusModel, StopModel> {
    match git::answer(known, git::query(Topic::Status, dir, ""@, ""@)) {
        Err(stop) => Err(stop),
        Ok(reply) => Ok(
            porcelain::status_of(
                if reply.started {
                    text::lines_of(reply.text)
                } else {
                    Seq::empty()
                },
            ),
        ),
    }
}

/// The changes in the worktree at `dir`.
pub fn worktree_status(facts: &Facts, dir: &str) -> (r: Result<Status, Stop>)
    ensures
        git::agrees(r, status_in(facts@, dir@)),
{
    let reply = facts.ask(Query::new(Topic::Status, dir, "", ""))?;
    if reply.started {
        Ok(parse_status(reply.text.as_str()))
    } else {
        let clean: Status = Status { files: 0, staged: 0, unstaged: 0, untracked: 0 };
        Ok(clean)
    }
}

/// True if files that git tracks have changes.
pub open spec fn tracked_changes(st: StatusModel) -> bool {
    st.staged > 0 || st.unstaged > 0
}

/// Whether the worktree at `dir` has changes to files that git tracks.
pub open spec fn dirty_in(known: Known, dir: Text) -> Result<bool, StopModel> {
    match status_in(known, dir) {
        Err(stop) => Err(stop),
        Ok(st) => Ok(tracked_changes(st)),
    }
}

/// Whether the worktree at `dir` has changes to files that git tracks.
pub fn is_dirty(facts: &Facts, dir: &str) -> (r: Result<bool, Stop>)
    ensures
        git::agrees(r, dirty_in(facts@, dir@)),
{
    let st = worktree_status(facts, dir)?;
    Ok(st.staged > 0 || st.unstaged > 0)
}

/// How far HEAD in `dir` is behind and ahead of its upstream, if it has one.
pub open spec fn divergence(known: Known, dir: Text) -> Result<Option<(nat, nat)>, StopModel> {
    match git::optional(known, git::query(Topic::Divergence, dir, ""@, ""@)) {
        Err(stop) => Err(stop),
        Ok(None) => Ok(None),
        Ok(Some(out)) => Ok(porcelain::counts(out)),
    }
}

/// How far HEAD in `dir` and its upstream are apart, if it has one.
pub fn ahead_behind(facts: &Facts, dir: &str) -> (r: Result<Option<AheadBehind>, Stop>)
    ensures
        git::agrees(r, divergence(facts@, dir@)),
{
    match facts.try_capture(Query::new(Topic::Divergence, dir, "", ""))? {
        Some(out) => Ok(parse_counts(out.as_str())),
        None => Ok(None),
    }
}

} // verus!
