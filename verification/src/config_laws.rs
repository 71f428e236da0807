//! What holds of the configuration: of modes, hooks and templates, and of where
//! worktrees lie.

use crate::config;
use crate::config::{Config, ConfigModel, Hook, Include, Mode};
use crate::create;
use crate::create::{AddStage, AddWork, AddWorkModel, CreationModel};
use crate::error::ErrorModel;
use crate::git::{Known, StopModel};
use crate::hooks;
use crate::laws;
use crate::path;
use crate::remove;
use crate::remove::{RemovalModel, RmStep, RmStepModel, Stage};
use crate::repo;
use crate::repo::RepoModel;
use crate::template;
use crate::text;
use crate::text::Text;
use crate::transfer;
use crate::transfer::{Rule, RuleModel};
use vstd::prelude::*;

verus! {

// ---------------------------------------------------------------------------
// Layers
// ---------------------------------------------------------------------------

/// A key that no layer sets is not set.
pub proof fn law_what_no_layer_sets(layers: Seq<ConfigModel>)
    ensures
        ({
            let cfg = config::layered(layers);
            &&& (forall|j: int|
                0 <= j < layers.len() ==> (#[trigger] layers[j]).worktree_path is None)
                ==> cfg.worktree_path is None
            &&& (forall|j: int| 0 <= j < layers.len() ==> (#[trigger] layers[j]).base is None)
                ==> cfg.base is None
            &&& (forall|j: int| 0 <= j < layers.len() ==> (#[trigger] layers[j]).fetch is None)
                ==> cfg.fetch is None
            &&& (forall|j: int|
                0 <= j < layers.len() ==> (#[trigger] layers[j]).default_branch is None)
                ==> cfg.default_branch is None
            &&& (forall|j: int| 0 <= j < layers.len() ==> (#[trigger] layers[j]).includes is None)
                ==> cfg.includes is None
            &&& (forall|j: int| 0 <= j < layers.len() ==> (#[trigger] layers[j]).hooks is None)
                ==> cfg.hooks is None
        }),
    decreases layers.len(),
{
    if layers.len() > 0 {
        let lower = layers.drop_last();
        law_what_no_layer_sets(lower);
        assert(layers[layers.len() - 1] == layers.last());
        assert(forall|j: int| 0 <= j < lower.len() ==> lower[j] == layers[j]);
    }
}

/// The file in the git directory counts most and is always looked at; then the one in the
/// working tree, if there is one; the user's counts least.
pub proof fn law_priority_of_files(user: Option<Text>, root: Option<Text>, git_dir: Text)
    ensures
        ({
            let files = config::config_files(user, root, git_dir);
            &&& files.len() == 1 + (if user is Some { 1int } else { 0 }) + (if root is Some {
                1int
            } else {
                0
            })
            &&& files.last() == path::joined_path(git_dir, "tonic.toml"@)
            &&& root matches Some(dir) ==> files[files.len() - 2] == path::joined_path(
                dir,
                "tonic.toml"@,
            )
            &&& user matches Some(dir) ==> files[0] == path::joined_path(
                dir,
                "tonic/config.toml"@,
            )
        }),
{
}

// ---------------------------------------------------------------------------
// Modes
// ---------------------------------------------------------------------------

/// The first entry for a pattern decides its mode, wherever in the list it stands.
pub proof fn law_first_entry_decides_the_mode(
    cfg: ConfigModel,
    list: Seq<Include<Text>>,
    pattern: Text,
    i: int,
)
    requires
        cfg.includes == Some(list),
        0 <= i < list.len(),
        list[i].pattern == pattern,
        forall|j: int| 0 <= j < i ==> (#[trigger] list[j]).pattern != pattern,
    ensures
        config::mode_of(config::listed(cfg.includes), pattern) == list[i].mode,
    decreases list.len(),
{
    if i > 0 {
        let rest = list.drop_first();
        assert(list[0].pattern != pattern);
        assert(rest[i - 1] == list[i]);
        assert forall|j: int| 0 <= j < i - 1 implies (#[trigger] rest[j]).pattern != pattern by {
            assert(rest[j] == list[j + 1]);
        }
        law_first_entry_decides_the_mode(
            (Config { includes: Some(rest), ..cfg }),
            rest,
            pattern,
            i - 1,
        );
    }
}

/// A pattern without an entry is copied, and so are all without a list.
pub proof fn law_copying_is_the_default(cfg: ConfigModel, pattern: Text)
    requires
        cfg.includes matches Some(list) ==> forall|j: int|
            0 <= j < list.len() ==> (#[trigger] list[j]).pattern != pattern,
    ensures
        config::mode_of(config::listed(cfg.includes), pattern) == Mode::Copy,
{
    if let Some(list) = cfg.includes {
        laws::law_unlisted_pattern_is_copied(list, pattern);
    }
}

/// Each line of the list of files to transfer that is neither empty nor a comment makes a
/// rule, in order: with the pattern, trimmed; the glob below the source; and the mode that
/// the configuration gives to the pattern.
pub proof fn law_rules(
    source: Text,
    cfg: ConfigModel,
    a: Seq<Text>,
    b: Seq<Text>,
    line: Text,
    pattern: Text,
)
    requires
        pattern == text::trimmed(line),
    ensures
        transfer::rules_of(source, cfg, Seq::empty()) == Seq::<RuleModel>::empty(),
        transfer::rules_of(source, cfg, seq![line]) == (if pattern.len() == 0 || pattern[0]
            == '#' {
            Seq::empty()
        } else {
            seq![
                (Rule {
                    pattern,
                    glob: path::joined_path(source, pattern),
                    mode: config::mode_of(config::listed(cfg.includes), pattern),
                }),
            ]
        }),
        transfer::rules_of(source, cfg, a + b) == transfer::rules_of(source, cfg, a)
            + transfer::rules_of(source, cfg, b),
    decreases a.len(),
{
    assert(seq![line].drop_first() =~= Seq::empty());
    assert(transfer::rules_of(source, cfg, Seq::empty()) =~= Seq::<RuleModel>::empty());
    let one = seq![transfer::rule_of(source, cfg, pattern)];
    assert(one + Seq::<RuleModel>::empty() =~= one);
    let whole = transfer::rules_of(source, cfg, a + b);
    if a.len() == 0 {
        assert(a + b =~= b);
        assert(whole =~= transfer::rules_of(source, cfg, a) + transfer::rules_of(source, cfg, b));
    } else {
        law_rules(source, cfg, a.drop_first(), b, line, pattern);
        assert((a + b)[0] == a[0]);
        assert((a + b).drop_first() =~= a.drop_first() + b);
        assert(whole =~= transfer::rules_of(source, cfg, a) + transfer::rules_of(source, cfg, b));
    }
}

// ---------------------------------------------------------------------------
// Templates
// ---------------------------------------------------------------------------

/// A piece of a template.
pub enum Piece {
    /// Text as it is.
    Plain(Text),
    /// A name between braces.
    Hole(Text),
}

/// The pieces, one after another, with what `f` gives in the place of each name.
pub open spec fn text_of(pieces: Seq<Piece>, f: spec_fn(Text) -> Text) -> Text
    decreases pieces.len(),
{
    if pieces.len() == 0 {
        Seq::empty()
    } else {
        (match pieces[0] {
            Piece::Plain(t) => t,
            Piece::Hole(name) => f(name),
        }) + text_of(pieces.drop_first(), f)
    }
}

/// `name` between braces.
pub open spec fn braced(name: Text) -> Text {
    seq!['{'] + name + seq!['}']
}

/// True if `t` has no brace.
pub open spec fn no_brace(t: Text) -> bool {
    !t.contains('{') && !t.contains('}')
}

/// True if no plain text among `pieces` opens a brace, and no name has one.
pub open spec fn well_made(pieces: Seq<Piece>) -> bool {
    forall|i: int|
        0 <= i < pieces.len() ==> match #[trigger] pieces[i] {
            Piece::Plain(t) => !t.contains('{'),
            Piece::Hole(name) => no_brace(name),
        }
}

proof fn lemma_skip_plain(t: Text, rest: Text, from: Text, to: Text)
    requires
        !t.contains('{'),
        from.len() > 0,
        from[0] == '{',
    ensures
        text::replaced(t + rest, from, to) == t + text::replaced(rest, from, to),
    decreases t.len(),
{
    let s = t + rest;
    if t.len() == 0 {
        assert(s =~= rest);
        assert(t + text::replaced(rest, from, to) =~= text::replaced(rest, from, to));
    } else {
        let u = t.drop_first();
        assert(s[0] == t[0]);
        assert(t.contains(t[0]));
        if from.is_prefix_of(s) {
            assert(s[0] == from[0]);
        }
        assert(s.drop_first() =~= u + rest);
        if u.contains('{') {
            let k = choose|k: int| 0 <= k < u.len() && u[k] == '{';
            assert(t[k + 1] == '{');
        }
        lemma_skip_plain(u, rest, from, to);
        assert(seq![t[0]] + (u + text::replaced(rest, from, to)) =~= t + text::replaced(
            rest,
            from,
            to,
        ));
    }
}

proof fn lemma_skip_hole(name: Text, other: Text, rest: Text, to: Text)
    requires
        no_brace(name),
        no_brace(other),
        name != other,
    ensures
        text::replaced(braced(name) + rest, braced(other), to) == braced(name) + text::replaced(
            rest,
            braced(other),
            to,
        ),
{
    let from = braced(other);
    let s = braced(name) + rest;
    let (n, m) = (name.len() as int, other.len() as int);
    if from.is_prefix_of(s) {
        assert(forall|k: int| 0 <= k < from.len() ==> s[k] == from[k]);
        if n < m {
            assert(s[n + 1] == '}');
            assert(from[n + 1] == other[n]);
            assert(other.contains(other[n]));
        } else if m < n {
            assert(from[m + 1] == '}');
            assert(s[m + 1] == name[m]);
            assert(name.contains(name[m]));
        } else {
            assert forall|k: int| 0 <= k < n implies name[k] == other[k] by {
                assert(s[k + 1] == name[k]);
                assert(from[k + 1] == other[k]);
            }
            assert(name =~= other);
        }
    }
    let tail = name + seq!['}'];
    assert(s.drop_first() =~= tail + rest);
    if tail.contains('{') {
        let k = choose|k: int| 0 <= k < tail.len() && tail[k] == '{';
        assert(name[k] == '{');
    }
    lemma_skip_plain(tail, rest, from, to);
    assert(s[0] == '{');
    assert(seq!['{'] + (tail + text::replaced(rest, from, to)) =~= braced(name) + text::replaced(
        rest,
        from,
        to,
    ));
}

/// True if filling in `name` by `value` turns what `f` gives into what `g` gives.
spec fn fills(
    name: Text,
    value: Text,
    f: spec_fn(Text) -> Text,
    g: spec_fn(Text) -> Text,
) -> bool {
    forall|n: Text|
        no_brace(n) ==> {
            ||| !(#[trigger] f(n)).contains('{') && g(n) == f(n)
            ||| f(n) == braced(n) && n != name && g(n) == f(n)
            ||| f(n) == braced(n) && n == name && g(n) == value
        }
}

proof fn lemma_fill(
    pieces: Seq<Piece>,
    name: Text,
    value: Text,
    f: spec_fn(Text) -> Text,
    g: spec_fn(Text) -> Text,
)
    requires
        well_made(pieces),
        no_brace(name),
        fills(name, value, f, g),
    ensures
        text::replaced(text_of(pieces, f), braced(name), value) == text_of(pieces, g),
    decreases pieces.len(),
{
    if pieces.len() > 0 {
        let rest = pieces.drop_first();
        assert forall|i: int| 0 <= i < rest.len() implies match #[trigger] rest[i] {
            Piece::Plain(t) => !t.contains('{'),
            Piece::Hole(n) => no_brace(n),
        } by {
            assert(rest[i] == pieces[i + 1]);
        }
        lemma_fill(rest, name, value, f, g);
        let tail = text_of(rest, f);
        let from = braced(name);
        match pieces[0] {
            Piece::Plain(t) => {
                lemma_skip_plain(t, tail, from, value);
            },
            Piece::Hole(n) => {
                assert(no_brace(n));
                if !f(n).contains('{') && g(n) == f(n) {
                    lemma_skip_plain(f(n), tail, from, value);
                } else if n != name {
                    lemma_skip_hole(n, name, tail, value);
                } else {
                    let none = Seq::<char>::empty();
                    assert(none + from + tail =~= from + tail);
                    laws::law_first_occurrence_is_replaced(none, tail, from, value);
                    assert(none + value =~= value);
                }
            },
        }
    } else {
        assert(text::replaced(Seq::empty(), braced(name), value) =~= Seq::<char>::empty());
    }
}

/// What `vars` put in the place of `name`: the value of the first variable of that name;
/// the name itself, between braces, if there is none.
pub open spec fn value_in(vars: Seq<(Text, Text)>, name: Text) -> Text
    decreases vars.len(),
{
    if vars.len() == 0 {
        braced(name)
    } else if vars[0].0 == name {
        vars[0].1
    } else {
        value_in(vars.drop_first(), name)
    }
}

proof fn lemma_placeholder(name: Text)
    ensures
        template::placeholder(name) == braced(name),
{
    reveal_strlit("{");
    reveal_strlit("}");
    assert(template::placeholder(name) =~= braced(name));
}

proof fn lemma_render(pieces: Seq<Piece>, f: spec_fn(Text) -> Text, vars: Seq<(Text, Text)>)
    requires
        well_made(pieces),
        forall|n: Text| no_brace(n) ==> !(#[trigger] f(n)).contains('{') || f(n) == braced(n),
        forall|i: int| 0 <= i < vars.len() ==> no_brace((#[trigger] vars[i]).0),
        forall|i: int| 0 <= i < vars.len() - 1 ==> !(#[trigger] vars[i]).1.contains('{'),
    ensures
        template::rendered(text_of(pieces, f), vars) == text_of(
            pieces,
            |n: Text|
                if f(n) == braced(n) {
                    value_in(vars, n)
                } else {
                    f(n)
                },
        ),
    decreases vars.len(),
{
    let goal = |n: Text|
        if f(n) == braced(n) {
            value_in(vars, n)
        } else {
            f(n)
        };
    if vars.len() == 0 {
        lemma_text_of_same(pieces, f, goal);
    } else {
        let (name, value) = vars[0];
        let rest = vars.drop_first();
        assert(no_brace(vars[0].0));
        let g = |n: Text|
            if f(n) == braced(n) && n == name {
                value
            } else {
                f(n)
            };
        lemma_placeholder(name);
        assert forall|n: Text| no_brace(n) implies {
            ||| !(#[trigger] f(n)).contains('{') && g(n) == f(n)
            ||| f(n) == braced(n) && n != name && g(n) == f(n)
            ||| f(n) == braced(n) && n == name && g(n) == value
        } by {
            assert(braced(n)[0] == '{');
            assert(braced(n).contains('{'));
        }
        lemma_fill(pieces, name, value, f, g);
        if rest.len() == 0 {
            assert(template::rendered(text_of(pieces, g), rest) == text_of(pieces, g));
            assert forall|n: Text| #[trigger] g(n) == goal(n) by {
                assert(value_in(rest, n) == braced(n));
            }
            lemma_text_of_same(pieces, g, goal);
        } else {
            assert(!vars[0].1.contains('{'));
            assert(forall|i: int| 0 <= i < rest.len() ==> rest[i] == vars[i + 1]);
            lemma_render(pieces, g, rest);
            let h = |n: Text|
                if g(n) == braced(n) {
                    value_in(rest, n)
                } else {
                    g(n)
                };
            assert forall|n: Text| #[trigger] h(n) == goal(n) by {
                assert(braced(n)[0] == '{');
                assert(braced(n).contains('{'));
            }
            lemma_text_of_same(pieces, h, goal);
        }
    }
}

proof fn lemma_text_of_same(pieces: Seq<Piece>, f: spec_fn(Text) -> Text, g: spec_fn(Text) -> Text)
    requires
        forall|n: Text| #[trigger] f(n) == g(n),
    ensures
        text_of(pieces, f) == text_of(pieces, g),
    decreases pieces.len(),
{
    if pieces.len() > 0 {
        lemma_text_of_same(pieces.drop_first(), f, g);
        if let Piece::Hole(n) = pieces[0] {
            assert(f(n) == g(n));
        }
    }
}

/// Each name between braces is replaced by its value, wherever it stands and however
/// often; other names, and all text between, stay. The values of all variables but the
/// last must not open braces themselves.
pub proof fn law_templates_are_filled(pieces: Seq<Piece>, vars: Seq<(Text, Text)>)
    requires
        well_made(pieces),
        forall|i: int| 0 <= i < vars.len() ==> no_brace((#[trigger] vars[i]).0),
        forall|i: int| 0 <= i < vars.len() - 1 ==> !(#[trigger] vars[i]).1.contains('{'),
    ensures
        template::rendered(text_of(pieces, |n: Text| braced(n)), vars) == text_of(
            pieces,
            |n: Text| value_in(vars, n),
        ),
{
    let f = |n: Text| braced(n);
    lemma_render(pieces, f, vars);
    let h = |n: Text|
        if f(n) == braced(n) {
            value_in(vars, n)
        } else {
            f(n)
        };
    lemma_text_of_same(pieces, h, |n: Text| value_in(vars, n));
}

// ---------------------------------------------------------------------------
// Hooks
// ---------------------------------------------------------------------------

/// Hooks run in the order of the configuration, each by itself; without hooks nothing
/// runs.
pub proof fn law_hooks_run_in_order(
    cfg: ConfigModel,
    a: Seq<Hook<Text>>,
    b: Seq<Hook<Text>>,
    event: Text,
    repo: RepoModel,
    branch: Text,
    worktree: Text,
)
    ensures
        hooks::runs((Config { hooks: None, ..cfg }), event, repo, branch, worktree)
            == Seq::<Text>::empty(),
        hooks::runs((Config { hooks: Some(Seq::empty()), ..cfg }), event, repo, branch, worktree)
            == Seq::<Text>::empty(),
        hooks::runs((Config { hooks: Some(a + b), ..cfg }), event, repo, branch, worktree)
            == hooks::runs((Config { hooks: Some(a), ..cfg }), event, repo, branch, worktree)
            + hooks::runs((Config { hooks: Some(b), ..cfg }), event, repo, branch, worktree),
    decreases a.len(),
{
    let vars = hooks::hook_vars(repo, branch, worktree);
    let whole = config::commands(a + b, event, vars);
    let goal = config::commands(a, event, vars) + config::commands(b, event, vars);
    if a.len() == 0 {
        assert(a + b =~= b);
        assert(whole =~= goal);
    } else {
        law_hooks_run_in_order(cfg, a.drop_first(), b, event, repo, branch, worktree);
        assert((a + b)[0] == a[0]);
        assert((a + b).drop_first() =~= a.drop_first() + b);
        assert(whole =~= goal);
    }
}

/// What the command of a hook has in the place of `{name}`.
pub open spec fn hook_value(repo: RepoModel, branch: Text, worktree: Text, name: Text) -> Text {
    if name == "repo"@ {
        repo.name
    } else if name == "branch"@ {
        branch
    } else if name == "worktree_path"@ {
        worktree
    } else {
        braced(name)
    }
}

proof fn lemma_names()
    ensures
        no_brace("repo"@),
        no_brace("branch"@),
        no_brace("worktree_path"@),
        "repo"@ != "branch"@,
        "repo"@ != "worktree_path"@,
        "branch"@ != "worktree_path"@,
        "{repo}"@ == braced("repo"@),
        "{branch}"@ == braced("branch"@),
        "{worktree_path}"@ == braced("worktree_path"@),
{
    reveal_strlit("repo");
    reveal_strlit("branch");
    reveal_strlit("worktree_path");
    reveal_strlit("{repo}");
    reveal_strlit("{branch}");
    reveal_strlit("{worktree_path}");
    assert("repo"@.len() == 4 && "branch"@.len() == 6 && "worktree_path"@.len() == 13);
    assert("{repo}"@ =~= braced("repo"@));
    assert("{branch}"@ =~= braced("branch"@));
    assert("{worktree_path}"@ =~= braced("worktree_path"@));
}

/// A hook runs at its own event only, whichever that is. Its command is its text with the
/// name of the repository, the branch as given, and the path of the worktree that is
/// created or removed, each in the place of its name.
pub proof fn law_hook_command(
    cfg: ConfigModel,
    hook: Hook<Text>,
    event: Text,
    repo: RepoModel,
    branch: Text,
    worktree: Text,
    pieces: Seq<Piece>,
)
    requires
        cfg.hooks == Some(seq![hook]),
    ensures
        hook.event != event ==> hooks::runs(cfg, event, repo, branch, worktree).len() == 0,
        hook.event == event ==> hooks::runs(cfg, event, repo, branch, worktree) == seq![
            text::replaced(
                text::replaced(
                    text::replaced(hook.run, "{repo}"@, repo.name),
                    "{branch}"@,
                    branch,
                ),
                "{worktree_path}"@,
                worktree,
            ),
        ],
        hook.event == event && hook.run == text_of(pieces, |n: Text| braced(n)) && well_made(pieces)
            && !repo.name.contains('{') && !branch.contains('{') ==> hooks::runs(
            cfg,
            event,
            repo,
            branch,
            worktree,
        ) == seq![text_of(pieces, |n: Text| hook_value(repo, branch, worktree, n))],
{
    let vars = hooks::hook_vars(repo, branch, worktree);
    assert(seq![hook].drop_first() =~= Seq::empty());
    assert(config::commands(Seq::empty(), event, vars) =~= Seq::<Text>::empty());
    let command = template::rendered(hook.run, vars);
    assert(hook.event == event ==> hooks::runs(cfg, event, repo, branch, worktree) =~= seq![
        command,
    ]);
    lemma_names();
    lemma_placeholder("repo"@);
    lemma_placeholder("branch"@);
    lemma_placeholder("worktree_path"@);
    reveal_with_fuel(template::rendered, 4);
    let last = vars.drop_first().drop_first();
    assert(last.drop_first() =~= Seq::<(Text, Text)>::empty());
    assert(vars.drop_first()[0] == vars[1] && last[0] == vars[2]);
    if well_made(pieces) && !repo.name.contains('{') && !branch.contains('{') {
        law_templates_are_filled(pieces, vars);
        let g = |n: Text| hook_value(repo, branch, worktree, n);
        let f = |n: Text| value_in(vars, n);
        assert forall|n: Text| #[trigger] f(n) == g(n) by {
            reveal_with_fuel(value_in, 4);
        }
        lemma_text_of_same(pieces, f, g);
    }
}

/// The hooks of a removal are those for `pre_remove`, with the worktree that is to be
/// removed, and those of an addition are those for `post_create`, with the one that has
/// been created.
pub proof fn law_hooks_of_both_ways(
    known: Known,
    cfg: ConfigModel,
    repo: RepoModel,
    branch: Text,
    gone: RemovalModel,
    plan: CreationModel,
    color: bool,
)
    ensures
        remove::removal_step(known, repo, cfg, branch, gone, Stage::Planned) == Ok::<
            RmStepModel,
            StopModel,
        >(
            RmStep::Hooks {
                commands: hooks::runs(cfg, "pre_remove"@, repo, branch, gone.path),
                next: Stage::Announced,
            },
        ),
        create::next_work(cfg, repo, branch, plan, color, AddStage::Transferred, Ok(())) == Ok::<
            AddWorkModel,
            ErrorModel,
        >(
            AddWork::Hooks {
                commands: hooks::runs(cfg, "post_create"@, repo, branch, plan.path),
                next: AddStage::Hooked,
            },
        ),
{
}

// ---------------------------------------------------------------------------
// Where worktrees lie
// ---------------------------------------------------------------------------

/// What a path template has in the place of `{name}`.
pub open spec fn place_value(repo: RepoModel, branch: Text, name: Text) -> Text {
    if name == "repo"@ {
        repo.name
    } else if name == "branch"@ {
        repo::flat(branch)
    } else {
        braced(name)
    }
}

/// A configured template decides where worktrees lie, in a bare repository as in any
/// other: it is filled with the name of the repository and the flattened branch, and
/// taken relative to the bare repository, or to the directory around the main worktree.
pub proof fn law_configured_place(
    repo: RepoModel,
    cfg: ConfigModel,
    branch: Text,
    template: Text,
    pieces: Seq<Piece>,
)
    requires
        cfg.worktree_path == Some(template),
    ensures
        ({
            let base = if repo.bare {
                repo.main
            } else {
                repo::base_dir(false, repo.main)
            };
            let place = repo::worktree_path(repo, cfg, branch);
            &&& place == path::joined_path(
                base,
                text::replaced(
                    text::replaced(template, "{repo}"@, repo.name),
                    "{branch}"@,
                    repo::flat(branch),
                ),
            )
            &&& template == text_of(pieces, |n: Text| braced(n)) && well_made(pieces)
                && !repo.name.contains('{') ==> place == path::joined_path(
                base,
                text_of(pieces, |n: Text| place_value(repo, branch, n)),
            )
            &&& !template.contains('{') ==> place == path::joined_path(base, template)
        }),
{
    let vars = seq![("repo"@, repo.name), ("branch"@, repo::flat(branch))];
    lemma_names();
    lemma_placeholder("repo"@);
    lemma_placeholder("branch"@);
    reveal_with_fuel(template::rendered, 3);
    assert(vars.drop_first().drop_first() =~= Seq::<(Text, Text)>::empty());
    assert(vars.drop_first()[0] == vars[1]);
    if well_made(pieces) && !repo.name.contains('{') {
        law_templates_are_filled(pieces, vars);
        let g = |n: Text| place_value(repo, branch, n);
        let f = |n: Text| value_in(vars, n);
        assert forall|n: Text| #[trigger] f(n) == g(n) by {
            reveal_with_fuel(value_in, 3);
        }
        lemma_text_of_same(pieces, f, g);
    }
    if !template.contains('{') {
        let none = Seq::<char>::empty();
        assert(template + none =~= template);
        lemma_skip_plain(template, none, "{repo}"@, repo.name);
        lemma_skip_plain(template, none, "{branch}"@, repo::flat(branch));
    }
}

/// Without a configured template, worktrees lie where they would with the template
/// `{branch}` in a bare repository, and with `{repo}-{branch}` in any other.
pub proof fn law_default_template(repo: RepoModel, cfg: ConfigModel, branch: Text)
    requires
        cfg.worktree_path is None,
    ensures
        repo::worktree_path(repo, cfg, branch) == repo::worktree_path(
            repo,
            (Config {
                worktree_path: Some(
                    if repo.bare {
                        "{branch}"@
                    } else {
                        "{repo}-{branch}"@
                    },
                ),
                ..cfg
            }),
            branch,
        ),
{
}

} // verus!
