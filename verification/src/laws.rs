//! What holds of the library as a whole: each law relates several functions, and is
//! stated over the values that their contracts speak of.

use crate::config;
use crate::config::{ConfigModel, Include, Mode};
use crate::create;
use crate::create::{
    AddStage, AddStep, AddStepModel, AddWork, AddWorkModel, CreationModel, RequestModel,
};
use crate::error::{Error, ErrorModel};
use crate::git;
use crate::git::{Known, Stop, StopModel, Topic};
use crate::hooks;
use crate::hooks::POST_CREATE;
use crate::list;
use crate::nav;
use crate::nav::NavStep;
use crate::path;
use crate::porcelain;
use crate::porcelain::{TipModel, WorktreeModel};
use crate::remove;
use crate::remove::{RemovalModel, RmStep, Stage};
use crate::repo;
use crate::repo::RepoModel;
use crate::stack;
use crate::stack::{Children, StackModel};
use crate::stack_laws;
use crate::template;
use crate::text;
use crate::text::Text;
use crate::transfer;
use vstd::prelude::*;

verus! {

// ---------------------------------------------------------------------------
// Configuration
// ---------------------------------------------------------------------------

/// It does not matter in which order neighbouring layers are merged.
pub proof fn law_merge_associative(a: ConfigModel, b: ConfigModel, c: ConfigModel)
    ensures
        config::overlaid(config::overlaid(a, b), c) == config::overlaid(a, config::overlaid(b, c)),
{
}

/// A layer that sets nothing changes nothing.
pub proof fn law_unset_is_neutral(c: ConfigModel)
    ensures
        config::overlaid(config::unset(), c) == c,
        config::overlaid(c, config::unset()) == c,
{
}

/// The last layer that sets a key decides it, and replaces what lower layers set:
/// lists are not joined.
pub proof fn law_last_layer_wins(layers: Seq<ConfigModel>, i: int)
    requires
        0 <= i < layers.len(),
    ensures
        ({
            let cfg = config::layered(layers);
            let top = layers[i];
            &&& top.worktree_path is Some && (forall|j: int|
                i < j < layers.len() ==> (#[trigger] layers[j]).worktree_path is None)
                ==> cfg.worktree_path == top.worktree_path
            &&& top.base is Some && (forall|j: int|
                i < j < layers.len() ==> (#[trigger] layers[j]).base is None) ==> cfg.base
                == top.base
            &&& top.fetch is Some && (forall|j: int|
                i < j < layers.len() ==> (#[trigger] layers[j]).fetch is None) ==> cfg.fetch
                == top.fetch
            &&& top.default_branch is Some && (forall|j: int|
                i < j < layers.len() ==> (#[trigger] layers[j]).default_branch is None)
                ==> cfg.default_branch == top.default_branch
            &&& top.includes is Some && (forall|j: int|
                i < j < layers.len() ==> (#[trigger] layers[j]).includes is None) ==> cfg.includes
                == top.includes
            &&& top.hooks is Some && (forall|j: int|
                i < j < layers.len() ==> (#[trigger] layers[j]).hooks is None) ==> cfg.hooks
                == top.hooks
        }),
    decreases layers.len(),
{
    let lower = layers.drop_last();
    if i < lower.len() {
        law_last_layer_wins(lower, i);
        assert(layers[layers.len() - 1] == layers.last());
        assert(forall|j: int| 0 <= j < lower.len() ==> lower[j] == layers[j]);
    }
}

/// A pattern that the configuration does not list is copied.
pub proof fn law_unlisted_pattern_is_copied(includes: Seq<Include<Text>>, pattern: Text)
    requires
        forall|i: int| 0 <= i < includes.len() ==> (#[trigger] includes[i]).pattern != pattern,
    ensures
        config::mode_of(includes, pattern) == Mode::Copy,
    decreases includes.len(),
{
    if includes.len() > 0 {
        let rest = includes.drop_first();
        assert(forall|i: int| 0 <= i < rest.len() ==> rest[i] == includes[i + 1]);
        law_unlisted_pattern_is_copied(rest, pattern);
    }
}

// ---------------------------------------------------------------------------
// Names and places
// ---------------------------------------------------------------------------

/// A template without placeholders is left as it is.
pub proof fn law_plain_template(template: Text, vars: Seq<(Text, Text)>)
    requires
        forall|i: int|
            0 <= i < vars.len() ==> !text::occurs(
                template::placeholder((#[trigger] vars[i]).0),
                template,
            ),
    ensures
        template::rendered(template, vars) == template,
    decreases vars.len(),
{
    if vars.len() > 0 {
        let rest = vars.drop_first();
        assert(forall|i: int| 0 <= i < rest.len() ==> rest[i] == vars[i + 1]);
        law_absent_text_is_not_replaced(template, template::placeholder(vars[0].0), vars[0].1);
        law_plain_template(template, rest);
    }
}

/// Text that does not occur is not replaced.
pub proof fn law_absent_text_is_not_replaced(s: Text, from: Text, to: Text)
    requires
        !text::occurs(from, s),
    ensures
        text::replaced(s, from, to) == s,
    decreases s.len(),
{
    if s.len() > 0 && from.len() > 0 {
        let rest = s.drop_first();
        if from.is_prefix_of(s) {
            assert(s.subrange(0, 0int + from.len()) == from);
        }
        assert(!text::occurs(from, rest)) by {
            if text::occurs(from, rest) {
                let k = choose|k: int|
                    0 <= k <= rest.len() - from.len() && #[trigger] rest.subrange(
                        k,
                        k + from.len(),
                    ) == from;
                assert(s.subrange(k + 1, (k + 1) + from.len()) =~= rest.subrange(
                    k,
                    k + from.len(),
                ));
            }
        }
        law_absent_text_is_not_replaced(rest, from, to);
        assert(seq![s[0]] + rest =~= s);
    }
}

/// Text before the first `from` stays, `from` is replaced, and what follows it is treated
/// by itself.
pub proof fn law_first_occurrence_is_replaced(head: Text, tail: Text, from: Text, to: Text)
    requires
        from.len() > 0,
        forall|k: int|
            0 <= k < head.len() ==> #[trigger] (head + from + tail).subrange(k, k + from.len())
                != from,
    ensures
        text::replaced(head + from + tail, from, to) == head + to + text::replaced(tail, from, to),
    decreases head.len(),
{
    let s = head + from + tail;
    if head.len() == 0 {
        assert(s.subrange(0, from.len() as int) =~= from);
        assert(s.skip(from.len() as int) =~= tail);
        assert(head + to =~= to);
    } else {
        let rest = head.drop_first();
        let t = rest + from + tail;
        assert(s.subrange(0, 0int + from.len()) != from);
        assert(s.drop_first() =~= t);
        assert forall|k: int| 0 <= k < rest.len() implies #[trigger] t.subrange(k, k + from.len())
            != from by {
            assert(s.subrange(k + 1, (k + 1) + from.len()) =~= t.subrange(k, k + from.len()));
        }
        law_first_occurrence_is_replaced(rest, tail, from, to);
        assert(seq![head[0]] + (rest + to + text::replaced(tail, from, to)) =~= head + to
            + text::replaced(tail, from, to));
    }
}

/// The placeholder of the branch holds none of the repository.
proof fn lemma_branch_hole(name: Text)
    ensures
        ({
            let hole = template::placeholder("branch"@);
            text::replaced(hole, template::placeholder("repo"@), name) == hole
        }),
{
    reveal_strlit("{");
    reveal_strlit("}");
    reveal_strlit("repo");
    reveal_strlit("branch");
    let (r, b) = (template::placeholder("repo"@), template::placeholder("branch"@));
    assert(!text::occurs(r, b)) by {
        if text::occurs(r, b) {
            let k = choose|k: int|
                0 <= k <= b.len() - r.len() && #[trigger] b.subrange(k, k + r.len()) == r;
            assert(b.subrange(k, k + r.len())[0] == b[k]);
            assert(b.subrange(k, k + r.len())[1] == b[k + 1]);
            assert(r[0] == '{' && r[1] == 'r');
            assert(b[1] == 'b' && b[2] == 'r');
        }
    }
    law_absent_text_is_not_replaced(b, r, name);
}

/// A branch's directory is one directory: the name used for it has no `/`. Each is turned
/// into a `-`, and all else stays.
pub proof fn law_flat_name_has_no_slash(branch: Text)
    ensures
        !repo::flat(branch).contains('/'),
        repo::flat(branch).len() == branch.len(),
        forall|i: int|
            0 <= i < branch.len() ==> #[trigger] repo::flat(branch)[i] == (if branch[i] == '/' {
                '-'
            } else {
                branch[i]
            }),
{
    let f = repo::flat(branch);
    if f.contains('/') {
        let k = choose|k: int| 0 <= k < f.len() && f[k] == '/';
        assert(f[k] == (if branch[k] == '/' { '-' } else { branch[k] }));
    }
}

/// Without a configured template, the worktrees of a bare repository lie in it, each
/// under its branch's name.
pub proof fn law_default_place_in_bare(repo: RepoModel, cfg: ConfigModel, branch: Text)
    requires
        repo.bare,
        cfg.worktree_path is None,
    ensures
        repo::worktree_path(repo, cfg, branch) == path::joined_path(repo.main, repo::flat(branch)),
{
    let vars = seq![("repo"@, repo.name), ("branch"@, repo::flat(branch))];
    reveal_with_fuel(template::rendered, 3);
    reveal_strlit("{");
    reveal_strlit("}");
    reveal_strlit("repo");
    reveal_strlit("branch");
    reveal_strlit("{branch}");
    let b = template::placeholder("branch"@);
    assert("{branch}"@ =~= b);
    lemma_branch_hole(repo.name);
    law_first_occurrence_is_replaced(Seq::empty(), Seq::empty(), b, repo::flat(branch));
    assert(Seq::<char>::empty() + b + Seq::<char>::empty() =~= b);
    assert(Seq::<char>::empty() + repo::flat(branch) + Seq::<char>::empty() =~= repo::flat(branch));
    assert(vars.drop_first().drop_first() =~= Seq::<(Text, Text)>::empty());
}

proof fn lemma_fill_repo(name: Text)
    ensures
        text::replaced("{repo}-{branch}"@, template::placeholder("repo"@), name) == name + "-"@
            + template::placeholder("branch"@),
{
    let none = Seq::<char>::empty();
    reveal_strlit("{");
    reveal_strlit("}");
    reveal_strlit("-");
    reveal_strlit("repo");
    reveal_strlit("branch");
    reveal_strlit("{repo}-{branch}");
    let (r, b) = (template::placeholder("repo"@), template::placeholder("branch"@));
    let s = "-"@ + b;
    assert("{repo}-{branch}"@ =~= none + r + s);
    assert(s[0] == '-' && r[0] == '{');
    if r.is_prefix_of(s) {
        assert(s.subrange(0, r.len() as int)[0] == s[0]);
    }
    assert(s.drop_first() =~= b);
    lemma_branch_hole(name);
    assert(seq![s[0]] + b =~= s);
    law_first_occurrence_is_replaced(none, s, r, name);
    assert(none + name + s =~= name + "-"@ + b);
}

proof fn lemma_fill_branch(name: Text, value: Text)
    requires
        !text::occurs(template::placeholder("branch"@), name),
    ensures
        text::replaced(
            name + "-"@ + template::placeholder("branch"@),
            template::placeholder("branch"@),
            value,
        ) == name + "-"@ + value,
{
    let none = Seq::<char>::empty();
    let b = template::placeholder("branch"@);
    let head = name + "-"@;
    let s = head + b + none;
    reveal_strlit("-");
    assert(b.len() > 0 && !b.contains('-')) by {
        reveal_strlit("{");
        reveal_strlit("}");
        reveal_strlit("branch");
    }
    assert forall|k: int| 0 <= k < head.len() implies #[trigger] s.subrange(k, k + b.len()) != b by {
        let part = s.subrange(k, k + b.len());
        let n = name.len() as int;
        if part == b {
            if k + b.len() <= n {
                assert(name.subrange(k, k + b.len()) =~= part);
            } else {
                assert(part[n - k] == s[n] && s[n] == '-');
            }
        }
    }
    law_first_occurrence_is_replaced(head, none, b, value);
    assert(s =~= name + "-"@ + b);
    assert(head + value + none =~= head + value);
}

/// Without a configured template, the worktrees of a repository that is not bare lie
/// beside its main one, each under the names of the repository and the branch.
pub proof fn law_default_place_beside_main(repo: RepoModel, cfg: ConfigModel, branch: Text)
    requires
        !repo.bare,
        cfg.worktree_path is None,
        !text::occurs(template::placeholder("branch"@), repo.name),
    ensures
        repo::worktree_path(repo, cfg, branch) == path::joined_path(
            repo::base_dir(false, repo.main),
            repo.name + "-"@ + repo::flat(branch),
        ),
{
    let vars = seq![("repo"@, repo.name), ("branch"@, repo::flat(branch))];
    reveal_with_fuel(template::rendered, 3);
    lemma_fill_repo(repo.name);
    lemma_fill_branch(repo.name, repo::flat(branch));
    assert(vars.drop_first() =~= seq![("branch"@, repo::flat(branch))]);
    assert(vars.drop_first().drop_first() =~= Seq::<(Text, Text)>::empty());
}

/// A repository is the same, is called the same, and its worktrees lie at the same
/// places, whichever of its worktrees the program is started in, if git answers the
/// same in both: the shared directory, the list of worktrees, and whether it is bare.
pub proof fn law_same_layout_from_any_worktree(
    one: Known,
    two: Known,
    a: RepoModel,
    b: RepoModel,
    here: Text,
    there: Text,
    cfg: ConfigModel,
    branch: Text,
)
    requires
        repo::discovered(one) == Ok::<RepoModel, StopModel>(a),
        repo::discovered(two) == Ok::<RepoModel, StopModel>(b),
        repo::starting_dir(one, a.root) == Ok::<Text, StopModel>(here),
        repo::starting_dir(two, b.root) == Ok::<Text, StopModel>(there),
        repo::shared_dir(one, here) == repo::shared_dir(two, there),
        git::required(one, git::query(Topic::Worktrees, here, ""@, ""@)) == git::required(
            two,
            git::query(Topic::Worktrees, there, ""@, ""@),
        ),
        repo::shared_dir(one, here) matches Ok(dir) ==> repo::is_bare_repo(one, dir)
            == repo::is_bare_repo(two, dir),
    ensures
        a.git_dir == b.git_dir,
        a.main == b.main,
        a.name == b.name,
        a.bare == b.bare,
        repo::base_dir(a.bare, a.main) == repo::base_dir(b.bare, b.main),
        repo::worktree_path(a, cfg, branch) == repo::worktree_path(b, cfg, branch),
{
}

// ---------------------------------------------------------------------------
// Finding worktrees
// ---------------------------------------------------------------------------

proof fn lemma_worktree_at(known: Known, list: Seq<WorktreeModel>, expected: Text)
    ensures
        match repo::worktree_at(known, list, expected) {
            Ok(Some(p)) => exists|i: int|
                0 <= i < list.len() && !(#[trigger] list[i]).bare && list[i].path == p
                    && (repo::canonical(known, p) matches Ok(c) && path::same_path(c, expected)),
            Ok(None) => forall|i: int|
                0 <= i < list.len() && !(#[trigger] list[i]).bare ==> (repo::canonical(
                    known,
                    list[i].path,
                ) matches Ok(c) && !path::same_path(c, expected)),
            Err(_) => true,
        },
    decreases list.len(),
{
    if list.len() > 0 {
        let rest = list.drop_first();
        lemma_worktree_at(known, rest, expected);
        assert(forall|i: int| 0 <= i < rest.len() ==> rest[i] == list[i + 1]);
        let head = repo::canonical(known, list[0].path);
        let hit = !list[0].bare && (head matches Ok(c) && path::same_path(c, expected));
        if hit {
            assert(list[0].path == list[0].path);
        } else if !(!list[0].bare && head is Err) {
            match repo::worktree_at(known, rest, expected) {
                Ok(Some(p)) => {
                    let k = choose|k: int|
                        0 <= k < rest.len() && !(#[trigger] rest[k]).bare && rest[k].path == p;
                    assert(list[k + 1].path == p && !list[k + 1].bare);
                },
                Ok(None) => {
                    assert forall|i: int|
                        0 <= i < list.len() && !(#[trigger] list[i]).bare implies (repo::canonical(
                        known,
                        list[i].path,
                    ) matches Ok(c) && !path::same_path(c, expected)) by {
                        if i > 0 {
                            assert(list[i] == rest[i - 1]);
                        }
                    }
                },
                Err(_) => {},
            }
        }
    }
}

/// `rm` and `cd` look where `add` puts a worktree: if no worktree has the branch
/// checked out (its HEAD may be detached, or on another branch), the name still means
/// the worktree at the place that `add` gives to the branch.
pub proof fn law_worktrees_are_found_where_they_are_added(
    known: Known,
    repo: RepoModel,
    cfg: ConfigModel,
    branch: Text,
    list: Seq<WorktreeModel>,
    place: Text,
    i: int,
)
    requires
        git::required(
            known,
            git::query(Topic::Worktrees, repo::work_dir(repo), ""@, ""@),
        ) matches Ok(out) && porcelain::worktrees(out) == list,
        porcelain::checkout_of(list, branch) is None,
        repo::canonical(known, repo::worktree_path(repo, cfg, branch)) == Ok::<Text, StopModel>(
            place,
        ),
        0 <= i < list.len(),
        !list[i].bare,
        repo::canonical(known, list[i].path) matches Ok(c) && path::same_path(c, place),
        repo::worktree_named(known, repo, cfg, branch) is Ok,
    ensures
        repo::canonical(known, repo::worktree_named(known, repo, cfg, branch)->Ok_0) matches Ok(c)
            && path::same_path(c, place),
{
    lemma_worktree_at(known, list, place);
}

/// A worktree that a name means is one of those that git lists, and never the bare
/// repository itself.
pub proof fn law_named_worktree_is_listed(
    known: Known,
    repo: RepoModel,
    cfg: ConfigModel,
    name: Text,
    list: Seq<WorktreeModel>,
)
    requires
        git::required(
            known,
            git::query(Topic::Worktrees, repo::work_dir(repo), ""@, ""@),
        ) matches Ok(out) && porcelain::worktrees(out) == list,
        repo::worktree_named(known, repo, cfg, name) is Ok,
    ensures
        exists|i: int|
            0 <= i < list.len() && !(#[trigger] list[i]).bare && list[i].path
                == repo::worktree_named(known, repo, cfg, name)->Ok_0,
{
    porcelain::lemma_checkout_of(list, name);
    lemma_called_listed(list, name);
    if let Ok(expected) = repo::canonical(known, repo::worktree_path(repo, cfg, name)) {
        lemma_worktree_at(known, list, expected);
    }
}

proof fn lemma_called_listed(list: Seq<WorktreeModel>, name: Text)
    ensures
        repo::worktree_called(list, name) matches Some(p) ==> exists|i: int|
            0 <= i < list.len() && !(#[trigger] list[i]).bare && list[i].path == p,
    decreases list.len(),
{
    if list.len() > 0 {
        let rest = list.drop_first();
        lemma_called_listed(rest, name);
        if !list[0].bare && path::base_name(list[0].path) == Some(name) {
            assert(list[0].path == list[0].path);
        } else if let Some(p) = repo::worktree_called(rest, name) {
            let k = choose|k: int|
                0 <= k < rest.len() && !(#[trigger] rest[k]).bare && rest[k].path == p;
            assert(list[k + 1] == rest[k]);
        }
    }
}

proof fn lemma_first_checkout_listed(list: Seq<WorktreeModel>, names: Seq<Text>)
    ensures
        repo::first_checkout(list, names) matches Some(p) ==> exists|i: int|
            0 <= i < list.len() && !(#[trigger] list[i]).bare && list[i].path == p,
    decreases names.len(),
{
    if names.len() > 0 {
        porcelain::lemma_checkout_of(list, names[0]);
        lemma_first_checkout_listed(list, names.drop_first());
    }
}

proof fn lemma_any_checkout(list: Seq<WorktreeModel>)
    ensures
        match repo::any_checkout(list) {
            Some(p) => exists|i: int|
                0 <= i < list.len() && !(#[trigger] list[i]).bare && list[i].path == p,
            None => forall|i: int| 0 <= i < list.len() ==> (#[trigger] list[i]).bare,
        },
    decreases list.len(),
{
    if list.len() > 0 {
        let rest = list.drop_first();
        lemma_any_checkout(rest);
        assert(forall|i: int| 0 <= i < rest.len() ==> rest[i] == list[i + 1]);
        if !list[0].bare {
            assert(list[0].path == list[0].path);
        } else {
            match repo::any_checkout(rest) {
                Some(p) => {
                    let k = choose|k: int|
                        0 <= k < rest.len() && !(#[trigger] rest[k]).bare && rest[k].path == p;
                    assert(list[k + 1] == rest[k]);
                },
                None => {
                    assert forall|i: int| 0 <= i < list.len() implies (#[trigger] list[i]).bare by {
                        if i > 0 {
                            assert(list[i] == rest[i - 1]);
                        }
                    }
                },
            }
        }
    }
}

/// Who removes the current worktree is sent to the main working tree; in a bare
/// repository to one of the worktrees that are left, and to the repository's own
/// directory only if there is none.
pub proof fn law_home_is_a_checkout(
    known: Known,
    repo: RepoModel,
    cfg: ConfigModel,
    list: Seq<WorktreeModel>,
    home: Text,
)
    requires
        repo::home_dir(known, repo, cfg) == Ok::<Text, StopModel>(home),
        repo.bare ==> (git::required(
            known,
            git::query(Topic::Worktrees, repo.main, ""@, ""@),
        ) matches Ok(out) && porcelain::worktrees(out) == list),
    ensures
        !repo.bare ==> home == repo.main,
        repo.bare && (exists|i: int| 0 <= i < list.len() && !(#[trigger] list[i]).bare)
            ==> exists|i: int|
            0 <= i < list.len() && !(#[trigger] list[i]).bare && list[i].path == home,
{
    lemma_first_checkout_listed(list, repo::trunk_names(cfg.default_branch));
    lemma_any_checkout(list);
}

// ---------------------------------------------------------------------------
// The trunk and the remotes
// ---------------------------------------------------------------------------

/// Only a local branch is ever the trunk. The configured one is, if it exists; a
/// configured name without a branch counts as none.
pub proof fn law_trunk_exists(known: Known, dir: Text, cfg: ConfigModel, tips: Seq<TipModel>)
    ensures
        repo::trunk(known, dir, cfg, tips) matches Ok(Some(name)) ==> porcelain::is_branch(
            tips,
            name,
        ),
        cfg.default_branch matches Some(name) ==> if porcelain::is_branch(tips, name) {
            repo::trunk(known, dir, cfg, tips) == Ok::<Option<Text>, StopModel>(Some(name))
        } else {
            repo::trunk(known, dir, cfg, tips) == repo::trunk(
                known,
                dir,
                (config::Config { default_branch: None, ..cfg }),
                tips,
            )
        },
{
}

/// `main` comes before `master`, and both before the name that git gives to first
/// branches; the default of `origin` comes before all of these.
pub proof fn law_trunk_order(
    known: Known,
    dir: Text,
    cfg: ConfigModel,
    tips: Seq<TipModel>,
    head: Option<Text>,
)
    requires
        cfg.default_branch is None,
        repo::origin_default(known, dir) == Ok::<Option<Text>, StopModel>(head),
    ensures
        head matches Some(name) && porcelain::is_branch(tips, name) ==> repo::trunk(
            known,
            dir,
            cfg,
            tips,
        ) == Ok::<Option<Text>, StopModel>(head),
        repo::existing(tips, head) is None && porcelain::is_branch(tips, "main"@) ==> repo::trunk(
            known,
            dir,
            cfg,
            tips,
        ) == Ok::<Option<Text>, StopModel>(Some("main"@)),
        repo::existing(tips, head) is None && !porcelain::is_branch(tips, "main"@)
            && porcelain::is_branch(tips, "master"@) ==> repo::trunk(known, dir, cfg, tips) == Ok::<
            Option<Text>,
            StopModel,
        >(Some("master"@)),
{
}

proof fn lemma_having(
    known: Known,
    dir: Text,
    branch: Text,
    remotes: Seq<Text>,
    have: Seq<Text>,
    r: Text,
)
    requires
        repo::having(known, dir, branch, remotes) == Ok::<Seq<Text>, StopModel>(have),
    ensures
        have.contains(r) <==> remotes.contains(r) && git::succeeds(
            known,
            git::query(Topic::RemoteBranch, dir, r, branch),
        ) == Ok::<bool, StopModel>(true),
    decreases remotes.len(),
{
    if remotes.len() > 0 {
        let rest = remotes.drop_first();
        let tail = repo::having(known, dir, branch, rest)->Ok_0;
        lemma_having(known, dir, branch, rest, tail, r);
        text::lemma_first_and_rest(remotes, r);
        if git::succeeds(known, git::query(Topic::RemoteBranch, dir, remotes[0], branch)) == Ok::<
            bool,
            StopModel,
        >(true) {
            assert(have == seq![remotes[0]] + tail);
            assert(have.drop_first() =~= tail);
            text::lemma_first_and_rest(have, r);
        }
    }
}

/// A branch is tracked only on a remote that has it: on the one asked for, else on
/// `origin` if it has the branch, else on the only one that has it.
pub proof fn law_tracked_remote_has_the_branch(
    known: Known,
    dir: Text,
    branch: Text,
    explicit: Option<Text>,
    remote: Text,
)
    requires
        repo::remote_for(known, dir, branch, explicit) == Ok::<Option<Text>, StopModel>(
            Some(remote),
        ),
    ensures
        git::succeeds(known, git::query(Topic::RemoteBranch, dir, remote, branch)) == Ok::<
            bool,
            StopModel,
        >(true),
        explicit matches Some(name) ==> remote == name,
        explicit is None ==> remote == "origin"@ || repo::remotes_having(known, dir, branch)
            == Ok::<Seq<Text>, StopModel>(seq![remote]),
{
    let have = repo::remotes_having(known, dir, branch)->Ok_0;
    if have.len() > 0 {
        assert(have.contains(have[0]));
    }
    assert(have.contains(remote));
    if let Ok(Some(out)) = git::optional(known, git::query(Topic::Remotes, dir, ""@, ""@)) {
        lemma_having(known, dir, branch, text::lines_of(out), have, remote);
    }
    if explicit is None && remote != "origin"@ {
        assert(have =~= seq![remote]);
    }
}

// ---------------------------------------------------------------------------
// Creating
// ---------------------------------------------------------------------------

/// A worktree is only created at a place that is free, and it is the place that the
/// configuration gives to the branch.
pub proof fn law_new_worktrees_are_at_free_places(
    known: Known,
    repo: RepoModel,
    cfg: ConfigModel,
    req: RequestModel,
    fetched: bool,
)
    ensures
        create::added(known, repo, cfg, req, fetched) matches Ok(AddStep::Create(plan))
            ==> plan.path == repo::worktree_path(repo, cfg, req.branch) && git::succeeds(
            known,
            git::query(Topic::Exists, ""@, plan.path, ""@),
        ) == Ok::<bool, StopModel>(false),
{
}

/// A branch that exists is never made anew: if the branch is local, the step checks
/// it out, and it is checked out nowhere else.
pub proof fn law_local_branches_are_checked_out(
    known: Known,
    repo: RepoModel,
    cfg: ConfigModel,
    req: RequestModel,
    fetched: bool,
)
    requires
        repo::is_local(known, repo::work_dir(repo), req.branch) == Ok::<bool, StopModel>(true),
    ensures
        create::added(known, repo, cfg, req, fetched) matches Ok(step) ==> {
            let place = repo::worktree_path(repo, cfg, req.branch);
            &&& step == create::creation(place, seq![place, req.branch], None)
            &&& !create::forces_new(req)
            &&& git::required(
                known,
                git::query(Topic::Worktrees, repo::work_dir(repo), ""@, ""@),
            ) matches Ok(out) && porcelain::checkout_of(porcelain::worktrees(out), req.branch)
                is None
        },
{
}

/// The configured start of new branches has no effect on a branch that exists
/// locally or on a remote.
pub proof fn law_configured_base_is_for_new_branches(
    known: Known,
    repo: RepoModel,
    cfg: ConfigModel,
    other: Option<Text>,
    req: RequestModel,
    fetched: bool,
)
    requires
        !create::forces_new(req),
        repo::is_local(known, repo::work_dir(repo), req.branch) == Ok::<bool, StopModel>(true)
            || (repo::remote_for(known, repo::work_dir(repo), req.branch, req.remote) matches Ok(
            Some(_),
        )),
    ensures
        create::added(known, repo, cfg, req, fetched) == create::added(
            known,
            repo,
            (config::Config { base: other, ..cfg }),
            req,
            fetched,
        ),
{
}

/// A branch that is asked for as a new one tracks no remote, and nothing is fetched
/// for it.
pub proof fn law_new_branches_track_nothing(
    known: Known,
    repo: RepoModel,
    cfg: ConfigModel,
    req: RequestModel,
    fetched: bool,
)
    requires
        create::forces_new(req),
    ensures
        create::added(known, repo, cfg, req, fetched) matches Ok(step) ==> (step
            matches AddStep::Create(plan) && plan.tracking is None),
{
}

/// Nothing is fetched for a branch that is local or asked for as a new one, nor twice.
pub proof fn law_fetches_once_for_absent_branches(
    known: Known,
    repo: RepoModel,
    cfg: ConfigModel,
    req: RequestModel,
    fetched: bool,
)
    requires
        create::added(known, repo, cfg, req, fetched) matches Ok(AddStep::Fetch { .. }),
    ensures
        !fetched,
        !create::forces_new(req),
        req.fetch || cfg.fetch == Some(true),
        repo::is_local(known, repo::work_dir(repo), req.branch) == Ok::<bool, StopModel>(false),
{
}

/// All that comes of creating a worktree: the work that is done, in order, the result,
/// and what is printed on stdout.
pub struct AddRun {
    pub works: Seq<AddWorkModel>,
    pub result: Result<(), ErrorModel>,
    pub stdout: Text,
}

/// How many stages are left.
pub open spec fn stages_left(stage: AddStage) -> nat {
    match stage {
        AddStage::Resolved => 3,
        AddStage::Created => 2,
        AddStage::Transferred => 1,
        AddStage::Hooked => 0,
    }
}

/// What comes of creating a worktree from `stage` on, if the work of each stage goes as
/// `how` says.
pub open spec fn add_run(
    cfg: ConfigModel,
    repo: RepoModel,
    branch: Text,
    plan: CreationModel,
    color: bool,
    stage: AddStage,
    last: Result<(), ErrorModel>,
    how: spec_fn(AddStage) -> Result<(), ErrorModel>,
) -> AddRun
    decreases stages_left(stage),
{
    match create::next_work(cfg, repo, branch, plan, color, stage, last) {
        Err(e) => AddRun { works: Seq::empty(), result: Err(e), stdout: Seq::empty() },
        Ok(AddWork::Finish { note, stdout }) => AddRun {
            works: Seq::empty(),
            result: Ok(()),
            stdout,
        },
        Ok(work) => {
            let next = match work {
                AddWork::Git { next, .. } => next,
                AddWork::Transfer { next, .. } => next,
                AddWork::Hooks { next, .. } => next,
                AddWork::Finish { .. } => stage,
            };
            let rest = add_run(cfg, repo, branch, plan, color, next, how(stage), how);
            AddRun { works: seq![work] + rest.works, ..rest }
        },
    }
}

/// A worktree is created, then files are transferred to it, then the hooks run for it,
/// each only if all before went well. If all went well, and only then, the result is a
/// success, and then exactly the path is printed on stdout, on a line. Otherwise the
/// result is the first failure, and nothing is printed there.
pub proof fn law_order_of_an_addition(
    cfg: ConfigModel,
    repo: RepoModel,
    branch: Text,
    plan: CreationModel,
    color: bool,
    how: spec_fn(AddStage) -> Result<(), ErrorModel>,
)
    ensures
        ({
            let run = add_run(cfg, repo, branch, plan, color, AddStage::Resolved, Ok(()), how);
            let create = AddWork::Git { args: plan.args, next: AddStage::Created };
            let transfer = AddWork::Transfer {
                worktree: plan.path,
                next: AddStage::Transferred,
            };
            let hooks = AddWork::Hooks {
                commands: hooks::runs(cfg, POST_CREATE@, repo, branch, plan.path),
                next: AddStage::Hooked,
            };
            if let Err(e) = how(AddStage::Resolved) {
                run.works == seq![create] && run.result == Err::<(), ErrorModel>(e)
                    && run.stdout.len() == 0
            } else if let Err(e) = how(AddStage::Created) {
                run.works == seq![create, transfer] && run.result == Err::<(), ErrorModel>(e)
                    && run.stdout.len() == 0
            } else if let Err(e) = how(AddStage::Transferred) {
                run.works == seq![create, transfer, hooks] && run.result == Err::<(), ErrorModel>(e)
                    && run.stdout.len() == 0
            } else {
                run.works == seq![create, transfer, hooks] && run.result == Ok::<(), ErrorModel>(())
                    && run.stdout == plan.path + "\n"@
            }
        }),
{
    reveal_with_fuel(add_run, 4);
    let run = add_run(cfg, repo, branch, plan, color, AddStage::Resolved, Ok(()), how);
    let create = AddWork::Git { args: plan.args, next: AddStage::Created };
    let transfer = AddWork::Transfer { worktree: plan.path, next: AddStage::Transferred };
    let hooks = create::work_at(cfg, repo, branch, plan, color, AddStage::Transferred);
    if how(AddStage::Resolved) is Err {
        assert(run.works =~= seq![create]);
    } else if how(AddStage::Created) is Err {
        assert(run.works =~= seq![create, transfer]);
    } else {
        assert(run.works =~= seq![create, transfer, hooks]);
    }
}

/// A worktree that `add` decides on is printed as the path that the configuration gives
/// to the branch, and a failure prints nothing.
pub proof fn law_an_addition_prints_the_place_of_the_branch(
    known: Known,
    repo: RepoModel,
    cfg: ConfigModel,
    req: RequestModel,
    fetched: bool,
    plan: CreationModel,
    color: bool,
    how: spec_fn(AddStage) -> Result<(), ErrorModel>,
)
    requires
        create::added(known, repo, cfg, req, fetched) == Ok::<AddStepModel, StopModel>(
            AddStep::Create(plan),
        ),
    ensures
        ({
            let run = add_run(cfg, repo, req.branch, plan, color, AddStage::Resolved, Ok(()), how);
            if run.result is Ok {
                run.stdout == repo::worktree_path(repo, cfg, req.branch) + "\n"@
            } else {
                run.stdout.len() == 0
            }
        }),
{
    law_new_worktrees_are_at_free_places(known, repo, cfg, req, fetched);
    law_order_of_an_addition(cfg, repo, req.branch, plan, color, how);
}

// ---------------------------------------------------------------------------
// Removing
// ---------------------------------------------------------------------------

/// A branch that is cleared away unasked is a local branch other than the trunk, and
/// has no commit that the trunk lacks. Without a trunk, none is cleared away.
pub proof fn law_only_empty_branches_are_cleared(
    known: Known,
    repo: RepoModel,
    cfg: ConfigModel,
    branch: Text,
    args: Seq<Text>,
)
    requires
        remove::clearance(known, repo, cfg, branch) == Ok::<Option<Seq<Text>>, StopModel>(
            Some(args),
        ),
    ensures
        args == remove::delete_args(branch, true),
        repo::is_local(known, repo.main, branch) == Ok::<bool, StopModel>(true),
        exists|trunk: Text|
            trunk != branch && (repo::local_tips(known, repo.main) matches Ok(tips) && repo::trunk(
                known,
                repo.main,
                cfg,
                tips,
            ) == Ok::<Option<Text>, StopModel>(Some(trunk))) && #[trigger] remove::nothing_beyond(
                known,
                repo.main,
                trunk,
                branch,
            ) == Ok::<bool, StopModel>(true),
{
    let tips = repo::local_tips(known, repo.main)->Ok_0;
    let trunk = repo::trunk(known, repo.main, cfg, tips)->Ok_0->Some_0;
    assert(remove::nothing_beyond(known, repo.main, trunk, branch) == Ok::<bool, StopModel>(true));
}

/// Once planned, a removal fails only by what is run for it: no step fails by itself.
pub proof fn law_steps_of_a_removal_do_not_fail(
    known: Known,
    repo: RepoModel,
    cfg: ConfigModel,
    branch: Text,
    plan: RemovalModel,
    stage: Stage,
)
    ensures
        !(remove::removal_step(known, repo, cfg, branch, plan, stage) matches Err(Stop::Fail(_))),
{
}

/// A removal goes from stage to stage: first the hooks, then the worktree, then the
/// branch. What git is run for is the removal itself, the deletion that was asked for,
/// or, if none was, clearing an empty branch away; only a failure of the last is passed
/// over.
pub proof fn law_order_of_a_removal(
    known: Known,
    repo: RepoModel,
    cfg: ConfigModel,
    branch: Text,
    plan: RemovalModel,
    stage: Stage,
)
    ensures
        match remove::removal_step(known, repo, cfg, branch, plan, stage) {
            Ok(RmStep::Hooks { next, .. }) => stage == Stage::Planned && next == Stage::Announced,
            Ok(RmStep::Git { args, vital, next }) => {
                ||| stage == Stage::Announced && next == Stage::Removed && args == plan.args
                    && vital
                ||| stage == Stage::Removed && next == Stage::Settled && plan.delete == Some(args)
                    && vital
                ||| stage == Stage::Removed && next == Stage::Settled && plan.delete is None
                    && remove::clearance(known, repo, cfg, branch) == Ok::<
                    Option<Seq<Text>>,
                    StopModel,
                >(Some(args)) && !vital
            },
            Ok(RmStep::Finish { home }) => (stage == Stage::Removed || stage == Stage::Settled) && (
            home is Some <==> plan.leaving),
            Err(_) => stage == Stage::Removed || stage == Stage::Settled,
        },
{
}

// ---------------------------------------------------------------------------
// Listing
// ---------------------------------------------------------------------------

pub(crate) proof fn lemma_rows(
    known: Known,
    here: Option<Text>,
    kin: Seq<list::KinModel>,
    trees: Seq<WorktreeModel>,
    views: Seq<list::ViewModel>,
)
    requires
        list::rows(known, here, kin, trees) == Ok::<Seq<list::ViewModel>, StopModel>(views),
    ensures
        views.len() == trees.len(),
        forall|i: int|
            0 <= i < views.len() ==> list::row(known, here, kin, trees[i]) == Ok::<
                list::ViewModel,
                StopModel,
            >(#[trigger] views[i]),
    decreases trees.len(),
{
    if trees.len() > 0 {
        let rest = trees.drop_first();
        let tail = list::rows(known, here, kin, rest)->Ok_0;
        lemma_rows(known, here, kin, rest, tail);
        assert forall|i: int| 0 <= i < views.len() implies list::row(known, here, kin, trees[i])
            == Ok::<list::ViewModel, StopModel>(#[trigger] views[i]) by {
            if i > 0 {
                assert(views[i] == tail[i - 1]);
                assert(trees[i] == rest[i - 1]);
            }
        }
    }
}

/// A list has a row for each worktree that git lists, in the same order, with its
/// path and label. A branch is named exactly where one is checked out, and only a
/// worktree with a checkout is marked as the current one.
pub proof fn law_one_row_per_worktree(
    known: Known,
    repo: RepoModel,
    cfg: ConfigModel,
    trees: Seq<WorktreeModel>,
    views: Seq<list::ViewModel>,
)
    requires
        git::required(
            known,
            git::query(Topic::Worktrees, repo::work_dir(repo), ""@, ""@),
        ) matches Ok(out) && porcelain::worktrees(out) == trees,
        list::views_of(known, repo, cfg) == Ok::<Seq<list::ViewModel>, StopModel>(views),
    ensures
        views.len() == trees.len(),
        forall|i: int|
            0 <= i < views.len() ==> {
                let (v, w) = (#[trigger] views[i], trees[i]);
                &&& v.path == w.path && v.label == w.label
                &&& v.bare == w.bare && v.detached == w.detached
                &&& v.branch == (if w.bare || w.detached {
                    None
                } else {
                    Some(w.label)
                })
                &&& v.current ==> !v.bare
            },
{
    let dir = repo::work_dir(repo);
    let here = list::here_of(known, repo.root)->Ok_0;
    let tips = repo::local_tips(known, dir)->Ok_0;
    let trunk = repo::trunk(known, dir, cfg, tips)->Ok_0;
    let kin = list::kin_in(known, dir, tips, trunk, trees)->Ok_0;
    lemma_rows(known, here, kin, trees, views);
}

pub(crate) proof fn lemma_kin_about(
    known: Known,
    st: StackModel,
    labels: Seq<Text>,
    kin: Seq<list::KinModel>,
    label: Text,
)
    requires
        list::all_kin(known, st, labels) == Ok::<Seq<list::KinModel>, StopModel>(kin),
        labels.contains(label),
    ensures
        list::kin_about(kin, label) matches Some(k) && list::kin_of(known, st, label) == Ok::<
            list::KinModel,
            StopModel,
        >(k),
    decreases labels.len(),
{
    let rest = labels.drop_first();
    let tail = list::all_kin(known, st, rest)->Ok_0;
    let first = list::kin_of(known, st, labels[0])->Ok_0;
    assert(kin == seq![first] + tail);
    assert(kin.drop_first() =~= tail);
    text::lemma_first_and_rest(labels, label);
    if labels[0] != label {
        lemma_kin_about(known, st, rest, tail, label);
    }
}

pub(crate) proof fn lemma_labels(trees: Seq<WorktreeModel>, i: int)
    requires
        0 <= i < trees.len(),
        porcelain::on_branch(trees[i]),
    ensures
        porcelain::labels(trees).contains(trees[i].label),
    decreases trees.len(),
{
    let rest = trees.drop_first();
    let all = porcelain::labels(trees);
    if i > 0 {
        assert(trees[i] == rest[i - 1]);
        lemma_labels(rest, i - 1);
        let tail = porcelain::labels(rest);
        if porcelain::on_branch(trees[0]) {
            assert(all.drop_first() =~= tail);
            text::lemma_first_and_rest(all, trees[i].label);
        }
    } else {
        assert(all[0] == trees[0].label);
    }
}

/// A list shows the same stack that `up` and `down` move along: a row's lineage ends
/// with the branch that `down` leads to and the branch itself, and its only child is
/// where `up` leads. The trunk's row is shown without children. So is that of the bare
/// repository itself and of a detached HEAD, and without a lineage.
pub proof fn law_list_shows_the_way(
    known: Known,
    repo: RepoModel,
    cfg: ConfigModel,
    st: StackModel,
    trees: Seq<WorktreeModel>,
    views: Seq<list::ViewModel>,
    i: int,
)
    requires
        git::required(known, git::query(Topic::Worktrees, st.dir, ""@, ""@)) matches Ok(out)
            && porcelain::worktrees(out) == trees,
        st == nav::stack_at(repo::work_dir(repo), st.tips, st.trunk, trees),
        repo::local_tips(known, st.dir) == Ok::<Seq<TipModel>, StopModel>(st.tips),
        repo::trunk(known, st.dir, cfg, st.tips) == Ok::<Option<Text>, StopModel>(Some(st.trunk)),
        list::views_of(known, repo, cfg) == Ok::<Seq<list::ViewModel>, StopModel>(views),
        0 <= i < views.len(),
    ensures
        views[i].bare || views[i].detached ==> views[i].lineage.len() == 0 && views[i].children.len()
            == 0 && views[i].children_overflow is None,
        !views[i].bare && !views[i].detached ==> {
            let v = views[i];
            let (down, up) = (
                nav::down_step(known, st, v.label),
                nav::up_step(known, st, v.label),
            );
            &&& v.lineage.len() != 1
            &&& v.lineage.len() == 0 ==> (down matches Ok(NavStep::Stay(_)))
            &&& v.lineage.len() > 1 ==> v.lineage.last() == v.label && down == Ok::<
                nav::NavStepModel,
                StopModel,
            >(NavStep::Go(v.lineage[v.lineage.len() - 2]))
            &&& v.label == st.trunk ==> v.children.len() == 0 && v.children_overflow is None
            &&& v.label != st.trunk && v.children.len() == 1 ==> up == Ok::<
                nav::NavStepModel,
                StopModel,
            >(NavStep::Go(v.children[0]))
            &&& v.label != st.trunk && v.children.len() == 0 && v.children_overflow is None ==> (up
                matches Ok(NavStep::Stay(_)))
            &&& v.label != st.trunk && v.children.len() > 1 ==> up == Err::<
                nav::NavStepModel,
                StopModel,
            >(Stop::Fail(Error::Forks { branch: v.label, children: v.children }))
        },
{
    let here = list::here_of(known, repo.root)->Ok_0;
    let labels = porcelain::labels(trees);
    let kin = list::all_kin(known, st, labels)->Ok_0;
    assert(list::kin_in(known, st.dir, st.tips, Some(st.trunk), trees) == list::all_kin(
        known,
        st,
        labels,
    ));
    lemma_rows(known, here, kin, trees, views);
    assert(list::row(known, here, kin, trees[i]) == Ok::<list::ViewModel, StopModel>(views[i]));
    if porcelain::on_branch(trees[i]) {
        lemma_labels(trees, i);
        lemma_kin_about(known, st, labels, kin, trees[i].label);
        let chain = stack::lineage_of(known, st, trees[i].label)->Ok_0;
        stack_laws::law_lineage_shape(known, st, trees[i].label, chain);
        if trees[i].label != st.trunk {
            if let Ok(Children::Immediate(kids)) = stack::children_of(known, st, trees[i].label) {
                stack_laws::law_children(known, st, trees[i].label, kids);
            }
        }
    }
}

// ---------------------------------------------------------------------------
// Transferring
// ---------------------------------------------------------------------------

/// Only what git ignores is transferred, and all of what a glob matches that git
/// ignores is.
pub proof fn law_only_ignored_files_are_transferred(
    known: Known,
    source: Text,
    worktree: Text,
    mode: Mode,
    entries: Seq<Text>,
    jobs: Seq<transfer::JobModel>,
)
    requires
        transfer::jobs_of(known, source, worktree, mode, entries) == Ok::<
            Seq<transfer::JobModel>,
            StopModel,
        >(jobs),
    ensures
        forall|i: int|
            0 <= i < jobs.len() ==> entries.contains((#[trigger] jobs[i]).src) && jobs[i]
                == transfer::job_of(source, worktree, mode, jobs[i].src) && transfer::ignored(
                known,
                source,
                jobs[i].rel,
            ) == Ok::<bool, StopModel>(true),
        forall|k: int|
            0 <= k < entries.len() && transfer::ignored(
                known,
                source,
                transfer::rel_of(source, #[trigger] entries[k]),
            ) == Ok::<bool, StopModel>(true) ==> jobs.contains(
                transfer::job_of(source, worktree, mode, entries[k]),
            ),
    decreases entries.len(),
{
    if entries.len() > 0 {
        let rest = entries.drop_first();
        let tail = transfer::jobs_of(known, source, worktree, mode, rest)->Ok_0;
        law_only_ignored_files_are_transferred(known, source, worktree, mode, rest, tail);
        let own = transfer::job_of(source, worktree, mode, entries[0]);
        let taken = transfer::ignored(known, source, transfer::rel_of(source, entries[0])) == Ok::<
            bool,
            StopModel,
        >(true);
        if taken {
            assert(jobs == seq![own] + tail);
            assert(jobs[0] == own);
        }
        assert forall|i: int| 0 <= i < jobs.len() implies entries.contains(
            (#[trigger] jobs[i]).src,
        ) && jobs[i] == transfer::job_of(source, worktree, mode, jobs[i].src) && transfer::ignored(
            known,
            source,
            jobs[i].rel,
        ) == Ok::<bool, StopModel>(true) by {
            if taken && i == 0 {
                assert(entries.contains(entries[0]));
            } else {
                let j = if taken {
                    i - 1
                } else {
                    i
                };
                assert(jobs[i] == tail[j]);
                text::lemma_first_and_rest(entries, tail[j].src);
            }
        }
        assert forall|k: int|
            0 <= k < entries.len() && transfer::ignored(
                known,
                source,
                transfer::rel_of(source, #[trigger] entries[k]),
            ) == Ok::<bool, StopModel>(true) implies jobs.contains(
            transfer::job_of(source, worktree, mode, entries[k]),
        ) by {
            if k > 0 {
                assert(entries[k] == rest[k - 1]);
                let job = transfer::job_of(source, worktree, mode, rest[k - 1]);
                let j = choose|j: int| 0 <= j < tail.len() && tail[j] == job;
                assert(jobs[if taken { j + 1 } else { j }] == job);
            }
        }
    }
}

} // verus!
