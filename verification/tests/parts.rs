//! Single functions, with the answers they need given by hand.

use tonic::config::{Config, Hook, Include, Mode};
use tonic::create;
use tonic::create::{AddStage, AddStep, AddWork, Creation, Request};
use tonic::display::{
    format_dirty, format_upstream, render_human, render_porcelain, short_path, Layout,
};
use tonic::error::Error;
use tonic::git::{check_run, Facts, Query, Reply, Stop, Topic};
use tonic::hooks::{announce, check_hook, run_hooks, POST_CREATE, PRE_REMOVE};
use tonic::list::{collect_views, ListFormat, Listing, WorktreeView};
use tonic::nav::{goto, Move, Nav};
use tonic::porcelain::{
    parse_counts, parse_status, parse_tips, parse_worktree, parse_worktrees, worktree_labels,
    Status,
};
use tonic::remove;
use tonic::remove::{Removal, RmStep, Stage};
use tonic::repo::{
    choose_remote, default_branch, home_checkout, is_dirty, resolve_source, resolve_worktree,
    trunk_candidates, worktree_path_for, Repo,
};
use tonic::report;
use tonic::shell::{shell_init, shell_wrapper};
use tonic::stack::{direct_children, lineage, Children, Memo, Stack};
use tonic::style::{paint, Paint};
use tonic::template::render;
use tonic::transfer::{check_job, jobs, list_file, listed_source, read_list, rules, Job};

fn ok(text: &str) -> Reply {
    Reply {
        started: true,
        success: true,
        utf8: true,
        text: text.to_string(),
        note: String::new(),
    }
}

fn fail() -> Reply {
    Reply { success: false, ..ok("") }
}

fn not_started(note: &str) -> Reply {
    Reply { started: false, note: note.to_string(), ..fail() }
}

fn learn(facts: &mut Facts, topic: Topic, dir: &str, subject: &str, other: &str, reply: Reply) {
    facts.learn(Query::new(topic, dir, subject, other), reply);
}

fn stopped<T>(r: Result<T, Stop>) -> String {
    match r {
        Ok(_) => "ok".to_string(),
        Err(Stop::Fail(e)) => e.message(),
        Err(Stop::Ask(q)) => format!("{:?} {} {} {}", q.topic, q.dir, q.subject, q.other),
    }
}

fn normal() -> Repo {
    Repo {
        root: Some("/x/r".to_string()),
        git_dir: "/x/r/.git".to_string(),
        main: "/x/r".to_string(),
        name: "r".to_string(),
        bare: false,
    }
}

fn bare() -> Repo {
    Repo {
        root: None,
        git_dir: "/x/b.git".to_string(),
        main: "/x/b.git".to_string(),
        name: "b".to_string(),
        bare: true,
    }
}

fn request(branch: &str) -> Request {
    Request {
        branch: branch.to_string(),
        new_branch: false,
        base: None,
        remote: None,
        fetch: false,
    }
}

// ---------------------------------------------------------------------------
// Asking
// ---------------------------------------------------------------------------

#[test]
fn the_last_answer_counts_and_unknown_answers_are_asked_for() {
    let mut facts = Facts::new();
    let q = || Query::new(Topic::Remotes, "/d", "", "");
    assert_eq!(stopped(facts.require(q())), "Remotes /d  ");
    facts.learn(q(), ok("a\n"));
    facts.learn(q(), ok(" b \n"));
    assert_eq!(facts.require(q()).ok().as_deref(), Some("b"));
    facts.learn(q(), fail());
    assert_eq!(stopped(facts.require(q())), "git remote failed");
    assert!(matches!(facts.try_capture(q()), Ok(None)));
    facts.learn(q(), not_started("No such file or directory (os error 2)"));
    assert_eq!(stopped(facts.require(q())), "running git");
    assert!(matches!(facts.holds(q()), Ok(false)));
    let note = "invalid utf-8 sequence of 1 bytes from index 1".to_string();
    facts.learn(q(), Reply { utf8: false, note: note.clone(), ..ok("x\u{fffd}") });
    assert_eq!(stopped(facts.require(q())), note);
}

#[test]
fn questions_are_put_to_git() {
    let args = |topic| Query::new(topic, "/d", "s", "o").args().join(" ");
    assert_eq!(args(Topic::BareHere), "rev-parse --is-bare-repository");
    assert_eq!(args(Topic::TopLevel), "rev-parse --show-toplevel");
    assert_eq!(args(Topic::CommonDir), "rev-parse --git-common-dir");
    assert_eq!(args(Topic::CoreBare), "config --file s --get core.bare");
    assert_eq!(args(Topic::Worktrees), "worktree list --porcelain");
    assert_eq!(args(Topic::LocalBranch), "show-ref --verify --quiet refs/heads/s");
    assert_eq!(args(Topic::RemoteBranch), "show-ref --verify --quiet refs/remotes/s/o");
    assert_eq!(args(Topic::Remotes), "remote");
    assert_eq!(
        args(Topic::Tips),
        "for-each-ref --format=%(objectname) %(refname:short) refs/heads/"
    );
    assert_eq!(args(Topic::RemoteHead), "symbolic-ref --quiet refs/remotes/origin/HEAD");
    assert_eq!(args(Topic::InitialBranch), "config init.defaultBranch");
    assert_eq!(args(Topic::MergeBase), "merge-base s o");
    assert_eq!(args(Topic::StackRevs), "rev-list --first-parent --boundary s..o");
    assert_eq!(args(Topic::Containing), "branch --contains s --format=%(refname:short)");
    assert_eq!(args(Topic::Status), "status --porcelain");
    assert_eq!(args(Topic::Divergence), "rev-list --left-right --count @{u}...HEAD");
    assert_eq!(args(Topic::Head), "symbolic-ref --quiet --short HEAD");
    assert_eq!(args(Topic::Ignored), "check-ignore --quiet s");
    assert_eq!(args(Topic::Beyond), "rev-list --count s..o");
    assert_eq!(args(Topic::Canonical), "");
}

#[test]
fn runs_of_git_are_checked() {
    let args = || vec!["worktree".to_string(), "add".to_string()];
    assert!(check_run(args(), ok("")).is_ok());
    let e = check_run(args(), fail()).err().unwrap();
    assert_eq!(e.message(), "git worktree add failed");
    assert!(e.causes().is_empty());
    let e = check_run(args(), not_started("why")).err().unwrap();
    assert_eq!(e.message(), "running git");
    assert_eq!(e.causes(), ["why"]);
}

// ---------------------------------------------------------------------------
// Configuration
// ---------------------------------------------------------------------------

fn layer(path: Option<&str>, hooks: Option<Vec<Hook>>) -> Config {
    Config { worktree_path: path.map(str::to_string), hooks, ..Config::default() }
}

fn hook(event: &str, run: &str) -> Hook {
    Hook { event: event.to_string(), run: run.to_string() }
}

#[test]
fn higher_layers_replace_whole_lists() {
    let cfg = Config::load(vec![
        layer(Some("low"), Some(vec![hook("post_create", "a"), hook("post_create", "b")])),
        layer(Some("high"), None),
        layer(None, Some(vec![hook("post_create", "c")])),
    ]);
    assert_eq!(cfg.worktree_path.as_deref(), Some("high"));
    assert_eq!(cfg.hook_commands("post_create", &[]), ["c"]);
    assert_eq!(Config::load(Vec::new()).worktree_path, None);
}

#[test]
fn configuration_files_in_order() {
    assert_eq!(
        Config::files(Some("/home/u/.config"), &Some("/x/r".to_string()), "/x/r/.git"),
        ["/home/u/.config/tonic/config.toml", "/x/r/tonic.toml", "/x/r/.git/tonic.toml"]
    );
    assert_eq!(Config::files(None, &None, "/x/b.git"), ["/x/b.git/tonic.toml"]);
}

#[test]
fn hooks_get_their_variables() {
    let cfg = layer(
        None,
        Some(vec![
            hook("post_create", "createdb {repo}_{branch}"),
            hook("pre_remove", "dropdb {branch}"),
            hook("post_create", "touch {worktree_path}/x {nope}"),
        ]),
    );
    assert_eq!(
        run_hooks(&cfg, POST_CREATE, &normal(), "a/b", "/x/r-a-b"),
        ["createdb r_a/b", "touch /x/r-a-b/x {nope}"]
    );
    assert_eq!(run_hooks(&cfg, PRE_REMOVE, &normal(), "a/b", "/w"), ["dropdb a/b"]);
    assert_eq!(announce(PRE_REMOVE, "dropdb x"), "[pre_remove] dropdb x");
    assert!(check_hook(PRE_REMOVE, "true", ok("")).is_ok());
    let e = check_hook(PRE_REMOVE, "false", fail()).err().unwrap();
    assert_eq!(e.message(), "hook failed (pre_remove): false");
    assert!(e.causes().is_empty());
    let lost = Reply { started: false, note: "No such file".to_string(), ..fail() };
    let e = check_hook(POST_CREATE, "make", lost).err().unwrap();
    assert_eq!(e.message(), "running hook: make");
    assert_eq!(e.causes(), ["No such file"]);
}

#[test]
fn templates() {
    assert_eq!(render("no holes", &[("repo", "x")]), "no holes");
    assert_eq!(render("{a}{a}-{b}", &[("a", "{b}"), ("b", "c")]), "cc-c");
    let mut cfg: Config = Config::default();
    assert_eq!(worktree_path_for(&bare(), &cfg, "feat/x"), "/x/b.git/feat-x");
    cfg.worktree_path = Some("{repo}/.worktrees/{branch}".to_string());
    assert_eq!(worktree_path_for(&normal(), &cfg, "f"), "/x/r/.worktrees/f");
    cfg.worktree_path = Some("/elsewhere/{branch}".to_string());
    assert_eq!(worktree_path_for(&normal(), &cfg, "f"), "/elsewhere/f");
}

// ---------------------------------------------------------------------------
// Reading git
// ---------------------------------------------------------------------------

#[test]
fn worktrees_are_read() {
    let list = parse_worktrees(
        "worktree /a\nHEAD 1\ndetached\n\nworktree /b\nHEAD 2\nbranch refs/heads/detached\n",
    );
    assert_eq!(list.len(), 2);
    assert!(list[0].detached && !list[0].bare && list[0].label == "detached");
    assert!(!list[1].detached && list[1].label == "detached" && list[1].path == "/b");
    assert!(parse_worktrees("HEAD 1\n").is_empty());
}

#[test]
fn a_detached_head_is_no_branch_named_detached() {
    let alone = "worktree /a\nHEAD x\ndetached\n";
    assert_eq!(parse_worktree(alone, "detached"), None);
    let both = "worktree /x/r\nHEAD 1\nbranch refs/heads/main\n\n\
                worktree /a\nHEAD 2\ndetached\n\n\
                worktree /b\nHEAD 3\nbranch refs/heads/detached\n";
    assert_eq!(parse_worktree(both, "detached").as_deref(), Some("/b"));
    let list = parse_worktrees(both);
    assert_eq!(worktree_labels(&list), ["main", "detached"]);
    assert_eq!(worktree_labels(&parse_worktrees(alone)), names(&[]));

    // cd and rm find the branch, and nothing where it has no worktree
    let mut facts = Facts::new();
    let cfg = Config::default();
    learn(&mut facts, Topic::Worktrees, "/x/r", "", "", ok(both));
    let found = resolve_worktree(&facts, &normal(), &cfg, "detached");
    assert_eq!(found.ok().as_deref(), Some("/b"));
    learn(&mut facts, Topic::Worktrees, "/x/r", "", "", ok(alone));
    learn(&mut facts, Topic::Canonical, "", "/x/r-detached", "", fail());
    learn(&mut facts, Topic::Canonical, "", "/a", "", ok("/a"));
    let found = resolve_worktree(&facts, &normal(), &cfg, "detached");
    assert_eq!(stopped(found), "no worktree found for 'detached'");

    // add may check the branch out
    learn(&mut facts, Topic::Exists, "", "/x/r-detached", "", fail());
    learn(&mut facts, Topic::LocalBranch, "/x/r", "detached", "", ok(""));
    let step = create::add(&facts, &normal(), &cfg, &request("detached"), false);
    assert_eq!(created(step).0, "worktree add /x/r-detached detached");

    // a step up to it does not lead into the worktree with the detached HEAD
    learn(&mut facts, Topic::Status, "/x/r", "", "", ok(""));
    let step = goto(&facts, "/x/r", &parse_worktrees(alone), "detached");
    assert!(matches!(step, Ok(Move::Checkout { .. })));
    match goto(&facts, "/x/r", &list, "detached") {
        Ok(Move::Enter { path, .. }) => assert_eq!(path, "/b"),
        _ => panic!("expected its worktree"),
    }
}

#[test]
fn rows_without_a_branch_have_no_stack() {
    let list = "worktree /x/b.git\nbare\n\nworktree /x/a\nHEAD 2\ndetached\n\n\
                worktree /x/d\nHEAD 2\nbranch refs/heads/detached\n\n\
                worktree /x/e\nHEAD 2\nbranch refs/heads/bare\n";
    let mut facts = Facts::new();
    let dir = "/x/b.git";
    learn(&mut facts, Topic::Worktrees, dir, "", "", ok(list));
    learn(&mut facts, Topic::Tips, dir, "", "", ok("1 main\n2 detached\n3 bare\n4 kid\n"));
    learn(&mut facts, Topic::RemoteHead, dir, "", "", fail());
    for (b, out) in [("detached", "2\n-1\n"), ("bare", "3\n2\n-1\n"), ("kid", "4\n3\n2\n-1\n")] {
        learn(&mut facts, Topic::MergeBase, dir, "main", b, ok("1\n"));
        learn(&mut facts, Topic::StackRevs, dir, "main", b, ok(out));
    }
    learn(&mut facts, Topic::Containing, dir, "detached", "", ok("bare\ndetached\nkid\n"));
    learn(&mut facts, Topic::Containing, dir, "bare", "", ok("bare\nkid\n"));
    for w in ["/x/a", "/x/d", "/x/e"] {
        learn(&mut facts, Topic::Divergence, w, "", "", fail());
        learn(&mut facts, Topic::Status, w, "", "", ok(""));
    }
    let rows = collect_views(&facts, &bare(), &Config::default()).ok().unwrap();
    for row in &rows[0..2] {
        assert!(row.branch.is_none() && row.lineage.is_empty() && row.children.is_empty());
    }
    assert_eq!(rows[2].lineage, ["main", "detached"]);
    assert_eq!(rows[2].children, ["bare"]);
    assert_eq!(rows[3].lineage, ["main", "detached", "bare"]);
    assert_eq!(rows[3].children, ["kid"]);
}

#[test]
fn tips_are_read() {
    let tips = parse_tips("1 main\n2 a b\nnonsense\n");
    assert_eq!(tips.len(), 2);
    assert_eq!((tips[1].sha.as_str(), tips[1].name.as_str()), ("2", "a b"));
}

#[test]
fn changes_are_counted() {
    let st = parse_status("MM both\nA  staged\n M edited\n?? new\n?? other\n");
    assert_eq!((st.files, st.staged, st.unstaged, st.untracked), (5, 2, 2, 2));
    let st = parse_status("");
    assert_eq!((st.files, st.staged, st.unstaged, st.untracked), (0, 0, 0, 0));
    let mut facts = Facts::new();
    learn(&mut facts, Topic::Status, "/w", "", "", ok("?? a\n"));
    assert!(matches!(is_dirty(&facts, "/w"), Ok(false)));
    learn(&mut facts, Topic::Status, "/w", "", "", ok("?? a\nM  b\n"));
    assert!(matches!(is_dirty(&facts, "/w"), Ok(true)));
}

#[test]
fn distances_are_read() {
    let ab = parse_counts("3\t2").unwrap();
    assert_eq!((ab.behind, ab.ahead), (3, 2));
    assert!(parse_counts("3").is_none());
    assert!(parse_counts("3 x").is_none());
    assert!(parse_counts("").is_none());
}

// ---------------------------------------------------------------------------
// The repository
// ---------------------------------------------------------------------------

#[test]
fn a_bare_repository_is_discovered() {
    let mut facts = Facts::new();
    assert_eq!(stopped(Repo::discover(&facts)), "BareHere   ");
    learn(&mut facts, Topic::BareHere, "", "", "", fail());
    assert_eq!(stopped(Repo::discover(&facts)), "not a git repository");
    match Repo::discover(&facts) {
        Err(Stop::Fail(e)) => {
            assert_eq!(e.causes(), ["git rev-parse --is-bare-repository failed"])
        }
        _ => panic!("expected a failure"),
    }
    learn(&mut facts, Topic::BareHere, "", "", "", not_started("why"));
    match Repo::discover(&facts) {
        Err(Stop::Fail(e)) => {
            assert_eq!(e.message(), "not a git repository");
            assert_eq!(e.causes(), ["running git", "why"]);
        }
        _ => panic!("expected a failure"),
    }
    learn(&mut facts, Topic::BareHere, "", "", "", ok("true\n"));
    let gone = Reply { note: "gone (os error 2)".to_string(), ..fail() };
    learn(&mut facts, Topic::CurrentDir, "", "", "", gone);
    assert_eq!(stopped(Repo::discover(&facts)), "gone (os error 2)");
    learn(&mut facts, Topic::CurrentDir, "", "", "", ok("/x/b.git"));
    learn(&mut facts, Topic::CommonDir, "/x/b.git", "", "", ok(".\n"));
    assert_eq!(stopped(Repo::discover(&facts)), "Canonical  /x/b.git/. ");
    learn(&mut facts, Topic::Canonical, "", "/x/b.git/.", "", ok("/x/b.git"));
    learn(&mut facts, Topic::CoreBare, "", "/x/b.git/config", "", ok("true\n"));
    learn(&mut facts, Topic::Worktrees, "/x/b.git", "", "", ok("worktree /x/b.git\nbare\n"));
    let repo = Repo::discover(&facts).ok().unwrap();
    assert_eq!(repo.root, None);
    assert_eq!(repo.name, "b");
    assert!(repo.bare);
    assert_eq!(repo.cwd(), "/x/b.git");
}

#[test]
fn a_linked_worktree_has_the_main_ones_name() {
    let mut facts = Facts::new();
    learn(&mut facts, Topic::BareHere, "", "", "", ok("false\n"));
    learn(&mut facts, Topic::TopLevel, "", "", "", ok("/x/r-feat\n"));
    learn(&mut facts, Topic::CommonDir, "/x/r-feat", "", "", ok("/x/r/.git\n"));
    learn(&mut facts, Topic::Canonical, "", "/x/r/.git", "", fail());
    learn(&mut facts, Topic::CoreBare, "", "/x/r/.git/config", "", fail());
    let list = "worktree /x/r\nbranch refs/heads/main\n\nworktree /x/r-feat\nbranch refs/heads/feat\n";
    learn(&mut facts, Topic::Worktrees, "/x/r-feat", "", "", ok(list));
    let repo = Repo::discover(&facts).ok().unwrap();
    assert_eq!((repo.name.as_str(), repo.main.as_str()), ("r", "/x/r"));
    assert_eq!(repo.git_dir, "/x/r/.git");
    assert_eq!(worktree_path_for(&repo, &Config::default(), "n"), "/x/r-n");
}

#[test]
fn worktrees_are_found_by_branch_then_place_then_directory() {
    let list = "worktree /x/b.git\nbare\n\nworktree /x/b.git/one\nbranch refs/heads/two\n\n\
                worktree /x/b.git/two\ndetached\n\nworktree /y/three\ndetached\n";
    let mut facts = Facts::new();
    learn(&mut facts, Topic::Worktrees, "/x/b.git", "", "", ok(list));
    for p in ["/x/b.git/one", "/x/b.git/two", "/y/three", "/x/b.git/three", "/x/b.git/b.git"] {
        learn(&mut facts, Topic::Canonical, "", p, "", if p.ends_with("b.git/three") { fail() } else { ok(p) });
    }
    let cfg = Config::default();
    let find = |name: &str| resolve_worktree(&facts, &bare(), &cfg, name);
    assert_eq!(find("two").ok().as_deref(), Some("/x/b.git/one"));
    assert_eq!(find("one").ok().as_deref(), Some("/x/b.git/one"));
    assert_eq!(find("three").ok().as_deref(), Some("/y/three"));
    assert_eq!(stopped(find("b.git")), "no worktree found for 'b.git'");
}

#[test]
fn the_trunk_is_an_existing_branch() {
    let mut facts = Facts::new();
    learn(&mut facts, Topic::RemoteHead, "/d", "", "", ok("refs/remotes/origin/develop\n"));
    learn(&mut facts, Topic::InitialBranch, "/d", "", "", ok("trunk\n"));
    let mut cfg: Config = Config::default();
    let trunk = |facts: &Facts, cfg: &Config, tips: &str| {
        default_branch(facts, "/d", cfg, &parse_tips(tips)).ok().unwrap()
    };
    assert_eq!(trunk(&facts, &cfg, "1 main\n2 develop").as_deref(), Some("develop"));
    assert_eq!(trunk(&facts, &cfg, "1 master\n2 main").as_deref(), Some("main"));
    assert_eq!(trunk(&facts, &cfg, "1 master\n2 trunk").as_deref(), Some("master"));
    assert_eq!(trunk(&facts, &cfg, "2 trunk").as_deref(), Some("trunk"));
    assert_eq!(trunk(&facts, &cfg, "2 x"), None);
    assert_eq!(trunk_candidates(&cfg), ["main", "master"]);
    cfg.default_branch = Some("master".to_string());
    assert_eq!(trunk(&facts, &cfg, "1 master\n2 main\n3 develop").as_deref(), Some("master"));
    assert_eq!(trunk(&facts, &cfg, "2 main").as_deref(), Some("main"));
    assert_eq!(trunk_candidates(&cfg), ["master", "main"]);
}

fn remotes(have: &[&str]) -> Facts {
    let mut facts = Facts::new();
    learn(&mut facts, Topic::Remotes, "/x/r", "", "", ok("fork\norigin\nother\n"));
    for r in ["fork", "origin", "other"] {
        let reply = if have.contains(&r) { ok("") } else { fail() };
        learn(&mut facts, Topic::RemoteBranch, "/x/r", r, "f", reply);
    }
    facts
}

#[test]
fn remotes_are_chosen() {
    let choose = |have: &[&str], explicit| choose_remote(&remotes(have), "/x/r", "f", explicit);
    assert_eq!(choose(&[], None).ok().unwrap(), None);
    assert_eq!(choose(&["other"], None).ok().unwrap().as_deref(), Some("other"));
    assert_eq!(choose(&["fork", "origin"], None).ok().unwrap().as_deref(), Some("origin"));
    assert_eq!(choose(&["fork", "origin"], Some("fork")).ok().unwrap().as_deref(), Some("fork"));
    assert_eq!(
        stopped(choose(&["fork", "other"], None)),
        "branch 'f' exists on multiple remotes: fork, other. use --remote <name>"
    );
    assert_eq!(stopped(choose(&["fork"], Some("other"))), "remote 'other' has no branch 'f'");
}

#[test]
fn homes_and_sources() {
    let mut facts = Facts::new();
    let cfg = Config::default();
    assert_eq!(home_checkout(&facts, &normal(), &cfg).ok().as_deref(), Some("/x/r"));
    let source = resolve_source(&facts, &normal(), &cfg).ok().unwrap();
    assert_eq!(source.as_deref(), Some("/x/r"));
    let dir = "/x/b.git";
    learn(&mut facts, Topic::Worktrees, dir, "", "", ok("worktree /x/b.git\nbare\n"));
    assert_eq!(home_checkout(&facts, &bare(), &cfg).ok().as_deref(), Some("/x/b.git"));
    assert_eq!(resolve_source(&facts, &bare(), &cfg).ok().unwrap(), None);
    let some = "worktree /x/b.git\nbare\n\nworktree /x/b.git/f\nbranch refs/heads/f\n";
    learn(&mut facts, Topic::Worktrees, dir, "", "", ok(some));
    assert_eq!(home_checkout(&facts, &bare(), &cfg).ok().as_deref(), Some("/x/b.git/f"));
    assert_eq!(resolve_source(&facts, &bare(), &cfg).ok().unwrap(), None);
    let more = format!("{some}\nworktree /x/b.git/m\nbranch refs/heads/master\n");
    learn(&mut facts, Topic::Worktrees, dir, "", "", ok(&more));
    assert_eq!(home_checkout(&facts, &bare(), &cfg).ok().as_deref(), Some("/x/b.git/m"));
    let source = resolve_source(&facts, &bare(), &cfg).ok().unwrap();
    assert_eq!(source.as_deref(), Some("/x/b.git/m"));
}

// ---------------------------------------------------------------------------
// Stacks
// ---------------------------------------------------------------------------

fn stack() -> Stack {
    Stack {
        dir: "/d".to_string(),
        tips: parse_tips("1 main\n2 a\n3 b\n3 twin\n4 c\n1 sibling"),
        trunk: "main".to_string(),
        checked_out: vec!["twin".to_string()],
    }
}

fn revs(facts: &mut Facts, branch: &str, out: &str) {
    learn(facts, Topic::MergeBase, "/d", "main", branch, ok("1\n"));
    learn(facts, Topic::StackRevs, "/d", "main", branch, ok(out));
}

#[test]
fn lineages() {
    let mut facts = Facts::new();
    let st = stack();
    revs(&mut facts, "c", "4\n3\n2\n-1\n");
    let chain = lineage(&facts, &st, "c").ok().unwrap();
    // `twin` stands for its commit, for it has a worktree; `sibling` is at the trunk
    assert_eq!(chain, ["main", "a", "twin", "c"]);
    assert_eq!(lineage(&facts, &st, "main").ok().unwrap(), ["main"]);
    learn(&mut facts, Topic::MergeBase, "/d", "main", "root", fail());
    assert_eq!(lineage(&facts, &st, "root").ok().unwrap(), ["root"]);
    assert_eq!(stopped(lineage(&facts, &st, "a")), "MergeBase /d main a");
}

#[test]
fn children_are_sorted_and_one_per_commit() {
    let mut facts = Facts::new();
    let st = stack();
    revs(&mut facts, "b", "3\n2\n-1\n");
    revs(&mut facts, "twin", "3\n2\n-1\n");
    revs(&mut facts, "c", "4\n2\n-1\n");
    learn(&mut facts, Topic::Containing, "/d", "a", "", ok("a\nb\nc\nmain\ntwin\n"));
    let mut memo = Memo::new();
    match direct_children(&facts, &st, "a", &mut memo).ok().unwrap() {
        Children::Immediate(kids) => assert_eq!(kids, ["twin", "c"]),
        _ => panic!("expected children"),
    }
    learn(&mut facts, Topic::Containing, "/d", "c", "", ok("c\n"));
    assert!(matches!(direct_children(&facts, &st, "c", &mut memo), Ok(Children::Leaf)));
    let crowd: String = (0..101).map(|i| format!("x{i}\n")).collect();
    learn(&mut facts, Topic::Containing, "/d", "c", "", ok(&crowd));
    assert!(matches!(direct_children(&facts, &st, "c", &mut memo), Ok(Children::Many(101))));
    let step = tonic::nav::child_of(&facts, &st, "c");
    assert_eq!(
        stopped(step),
        "'c' has 101+ branches stacked on it — pick one with `tonic cd`/`tonic add`"
    );
    let step = tonic::nav::tip_of(&facts, &st, "c");
    assert_eq!(
        stopped(step),
        "'c' has 101+ branches stacked on it — navigate with `tonic cd`/`tonic add`"
    );
}

#[test]
fn contradictory_answers_end_a_climb() {
    let mut facts = Facts::new();
    let st = Stack {
        dir: "/d".to_string(),
        tips: parse_tips("1 main\n2 a\n3 b"),
        trunk: "main".to_string(),
        checked_out: Vec::new(),
    };
    revs(&mut facts, "a", "2\n3\n-1\n");
    revs(&mut facts, "b", "3\n2\n-1\n");
    learn(&mut facts, Topic::Containing, "/d", "a", "", ok("a\nb\n"));
    learn(&mut facts, Topic::Containing, "/d", "b", "", ok("a\nb\n"));
    assert_eq!(
        stopped(tonic::nav::tip_of(&facts, &st, "a")),
        "the stack above 'a' leads back to it"
    );
}

#[test]
fn navigation_needs_a_worktree_a_branch_and_a_trunk() {
    let mut facts = Facts::new();
    let cfg = Config::default();
    let go = |facts: &Facts, repo: &Repo| tonic::nav::navigate(facts, repo, &cfg, Nav::Down);
    assert_eq!(
        stopped(go(&facts, &bare())),
        "stack navigation must run from inside a worktree"
    );
    learn(&mut facts, Topic::Head, "/x/r", "", "", ok("\n"));
    assert_eq!(
        stopped(go(&facts, &normal())),
        "HEAD is detached — stack navigation needs a branch checked out"
    );
    learn(&mut facts, Topic::Head, "/x/r", "", "", ok("a\n"));
    learn(&mut facts, Topic::Tips, "/x/r", "", "", ok("1 a\n"));
    learn(&mut facts, Topic::RemoteHead, "/x/r", "", "", fail());
    learn(&mut facts, Topic::InitialBranch, "/x/r", "", "", ok("\n"));
    assert_eq!(
        stopped(go(&facts, &normal())),
        "no trunk branch found — stack lineage needs main/master or a configured default_branch"
    );
}

// ---------------------------------------------------------------------------
// add
// ---------------------------------------------------------------------------

fn before_add(path: &str, local: bool) -> Facts {
    let mut facts = remotes(&["origin"]);
    learn(&mut facts, Topic::Exists, "", path, "", fail());
    learn(&mut facts, Topic::LocalBranch, "/x/r", "f", "", if local { ok("") } else { fail() });
    learn(&mut facts, Topic::Worktrees, "/x/r", "", "", ok("worktree /x/r\nbranch refs/heads/main\n"));
    facts
}

fn created(step: Result<AddStep, Stop>) -> (String, Option<String>) {
    match step {
        Ok(AddStep::Create(plan)) => (plan.args.join(" "), plan.tracking),
        Ok(AddStep::Fetch { args }) => (args.join(" "), None),
        Err(stop) => (stopped::<()>(Err(stop)), None),
    }
}

/// Carries out a creation; the work of each stage ends as `how` says.
fn carried_out(
    cfg: &Config,
    how: impl Fn(AddStage) -> Result<(), Error>,
) -> (Vec<String>, Result<(String, String), String>) {
    let plan: Creation = Creation {
        args: vec!["worktree".to_string(), "add".to_string(), "/x/r-f".to_string()],
        path: "/x/r-f".to_string(),
        tracking: Some("origin/f".to_string()),
    };
    let mut done = Vec::new();
    let mut stage = AddStage::Resolved;
    let mut last = Ok(());
    loop {
        let next = match create::add_next(cfg, &normal(), "f", &plan, false, stage, last) {
            Err(e) => return (done, Err(e.message())),
            Ok(AddWork::Finish { note, stdout }) => return (done, Ok((note, stdout))),
            Ok(AddWork::Git { args, next }) => {
                done.push(args.join(" "));
                next
            }
            Ok(AddWork::Transfer { worktree, next }) => {
                done.push(format!("transfer to {worktree}"));
                next
            }
            Ok(AddWork::Hooks { commands, next }) => {
                done.push(commands.join("; "));
                next
            }
        };
        last = how(stage);
        stage = next;
    }
}

#[test]
fn a_creation_goes_on_while_all_goes_well() {
    let cfg = layer(
        None,
        Some(vec![
            hook("post_create", "createdb {branch}"),
            hook("pre_remove", "dropdb {branch}"),
            hook("post_create", "cd {worktree_path}"),
        ]),
    );
    let all = ["worktree add /x/r-f", "transfer to /x/r-f", "createdb f; cd /x/r-f"];
    let (done, end) = carried_out(&cfg, |_| Ok(()));
    assert_eq!(done, all);
    let (note, stdout) = end.unwrap();
    assert_eq!(note, report::created(false, "f", Some("origin/f")));
    assert_eq!(stdout, "/x/r-f\n");
    let failing = |at: AddStage| {
        carried_out(&cfg, move |stage| {
            if stage == at {
                Err(Error::ListUnreadable { cause: "disk".to_string() })
            } else {
                Ok(())
            }
        })
    };
    let stages = [AddStage::Resolved, AddStage::Created, AddStage::Transferred];
    for (i, stage) in stages.into_iter().enumerate() {
        let (done, end) = failing(stage);
        assert_eq!(done, all[..i + 1]);
        assert_eq!(end, Err("disk".to_string()));
    }
}

#[test]
fn a_fetch_may_fail() {
    let args = || vec!["fetch".to_string(), "--quiet".to_string(), "--all".to_string()];
    assert_eq!(create::after_fetch(args(), ok("")), None);
    let warning = Some("warning: fetch failed; resolving with existing refs".to_string());
    assert_eq!(create::after_fetch(args(), fail()), warning);
    let lost = Reply { started: false, ..fail() };
    assert_eq!(create::after_fetch(args(), lost), warning);
}

#[test]
fn files_come_from_where_a_list_is() {
    let cfg: Config = Config::default();
    let list = "/x/r/.worktreeinclude";
    let mut facts = Facts::new();
    assert!(matches!(listed_source(&facts, &normal(), &cfg), Err(Stop::Ask(_))));
    learn(&mut facts, Topic::Exists, "", list, "", ok(""));
    let source = listed_source(&facts, &normal(), &cfg).ok().unwrap();
    assert_eq!(source.as_deref(), Some("/x/r"));
    let mut without = Facts::new();
    learn(&mut without, Topic::Exists, "", list, "", fail());
    assert_eq!(listed_source(&without, &normal(), &cfg).ok().unwrap(), None);
    let mut empty = Facts::new();
    learn(&mut empty, Topic::Worktrees, "/x/b.git", "", "", ok("worktree /x/b.git\nbare\n"));
    assert_eq!(listed_source(&empty, &bare(), &cfg).ok().unwrap(), None);
}

#[test]
fn transfers_fail() {
    let denied = || Reply { note: "Permission denied".to_string(), ..fail() };
    assert_eq!(read_list(ok(".env\n")).ok().unwrap(), ".env\n");
    let e = read_list(denied()).err().unwrap();
    assert_eq!(e.message(), "Permission denied");
    assert!(e.causes().is_empty());
    let job: Job = Job {
        src: "/x/r/a/.env".to_string(),
        rel: "a/.env".to_string(),
        dest: "/x/r-f/a/.env".to_string(),
        dir: Some("/x/r-f/a".to_string()),
        mode: Mode::Copy,
    };
    assert!(check_job(&job, ok("")).is_ok());
    let e = check_job(&job, denied()).err().unwrap();
    assert_eq!(e.message(), "transferring a/.env");
    assert_eq!(e.causes(), ["Permission denied"]);
}

#[test]
fn worktrees_are_created() {
    let cfg: Config = Config { base: Some("main".to_string()), ..Config::default() };
    let (away, here) = (before_add("/x/r-f", false), before_add("/x/r-f", true));
    let run = |facts: &Facts, req: &Request| created(create::add(facts, &normal(), &cfg, req, false));
    let track = "worktree add --track -b f /x/r-f origin/f";
    assert_eq!(run(&away, &request("f")), (track.to_string(), Some("origin/f".to_string())));
    assert_eq!(run(&here, &request("f")), ("worktree add /x/r-f f".to_string(), None));
    let new = Request { new_branch: true, ..request("f") };
    assert_eq!(run(&away, &new), ("worktree add -b f /x/r-f main".to_string(), None));
    let based = Request { base: Some("v1".to_string()), ..request("f") };
    assert_eq!(run(&away, &based), ("worktree add -b f /x/r-f v1".to_string(), None));
    let mut nowhere = before_add("/x/r-f", false);
    learn(&mut nowhere, Topic::Remotes, "/x/r", "", "", fail());
    assert_eq!(run(&nowhere, &request("f")), ("worktree add -b f /x/r-f main".to_string(), None));
    let plain = Config::default();
    let step = create::add(&nowhere, &normal(), &plain, &request("f"), false);
    assert_eq!(created(step), ("worktree add -b f /x/r-f".to_string(), None));
}

#[test]
fn fetching_comes_first_and_once() {
    let cfg: Config = Config { fetch: Some(true), ..Config::default() };
    let facts = before_add("/x/r-f", false);
    let step = create::add(&facts, &normal(), &cfg, &request("f"), false);
    assert_eq!(created(step).0, "fetch --quiet --all");
    let from = Request { remote: Some("origin".to_string()), fetch: true, ..request("f") };
    let step = create::add(&facts, &normal(), &Config::default(), &from, false);
    assert_eq!(created(step).0, "fetch --quiet origin");
    let step = create::add(&facts, &normal(), &cfg, &from, true);
    assert_eq!(created(step).1.as_deref(), Some("origin/f"));
    let here = before_add("/x/r-f", true);
    let step = create::add(&here, &normal(), &cfg, &request("f"), false);
    assert_eq!(created(step).0, "worktree add /x/r-f f");
}

#[test]
fn requests_that_cannot_be_met() {
    let cfg = Config::default();
    let (away, here) = (before_add("/x/r-f", false), before_add("/x/r-f", true));
    let run = |facts: &Facts, req: &Request| {
        stopped(create::add(facts, &normal(), &cfg, req, false))
    };
    let both = Request {
        remote: Some("origin".to_string()),
        base: Some("main".to_string()),
        ..request("f")
    };
    assert_eq!(
        run(&here, &both),
        "--remote can't be combined with -b/--base, which create a new branch rather than track a remote"
    );
    let remote = Request { remote: Some("origin".to_string()), ..request("f") };
    assert_eq!(
        run(&here, &remote),
        "branch 'f' already exists locally; --remote only applies when creating a new branch from a remote"
    );
    let new = Request { new_branch: true, ..request("f") };
    assert_eq!(
        run(&here, &new),
        "branch 'f' already exists\n       omit -b/--base to check it out, or choose a new name"
    );
    let absent = Request { remote: Some("fork".to_string()), ..request("f") };
    assert_eq!(run(&away, &absent), "remote 'fork' has no branch 'f'");
    let mut taken = before_add("/x/r-f", true);
    let list = "worktree /y\nbranch refs/heads/f\n";
    learn(&mut taken, Topic::Worktrees, "/x/r", "", "", ok(list));
    assert_eq!(
        run(&taken, &request("f")),
        "branch 'f' is already checked out at /y\n       try: tonic cd f"
    );
    let mut full = before_add("/x/r-f", false);
    learn(&mut full, Topic::Exists, "", "/x/r-f", "", ok(""));
    assert_eq!(run(&full, &request("f")), "worktree path already exists: /x/r-f");
}

// ---------------------------------------------------------------------------
// rm
// ---------------------------------------------------------------------------

#[test]
fn removals() {
    let mut facts = Facts::new();
    let list = "worktree /x/r\nbranch refs/heads/main\n\nworktree /x/r-f\nbranch refs/heads/f\n";
    learn(&mut facts, Topic::Worktrees, "/x/r", "", "", ok(list));
    learn(&mut facts, Topic::Canonical, "", "/x/r", "", ok("/x/r"));
    learn(&mut facts, Topic::Canonical, "", "/x/r-f", "", ok("/x/r-f"));
    let cfg = Config::default();
    let plan = remove::rm(&facts, &normal(), &cfg, "f", false, true).ok().unwrap();
    assert_eq!(plan.args, ["worktree", "remove", "/x/r-f"]);
    assert_eq!(plan.delete.unwrap(), ["branch", "-d", "f"]);
    assert!(!plan.leaving);
    let plan = remove::rm(&facts, &normal(), &cfg, "main", true, true).ok().unwrap();
    assert_eq!(plan.args, ["worktree", "remove", "--force", "/x/r"]);
    assert_eq!(plan.delete.unwrap(), ["branch", "-D", "main"]);
    assert!(plan.leaving);
    let plan = remove::rm(&facts, &normal(), &cfg, "f", true, false).ok().unwrap();
    assert!(plan.delete.is_none());
}

#[test]
fn removals_step_by_step() {
    let cfg: Config = Config {
        hooks: Some(vec![hook("pre_remove", "dropdb {branch}")]),
        ..Config::default()
    };
    let plan = |leaving: bool, delete: Option<Vec<String>>| Removal {
        path: "/x/r-f".to_string(),
        leaving,
        args: names(&["worktree", "remove", "/x/r-f"]),
        delete,
    };
    let mut facts = Facts::new();
    let show = |facts: &Facts, plan: &Removal, stage: Stage| {
        match remove::rm_step(facts, &normal(), &cfg, "f", plan, stage) {
            Ok(RmStep::Hooks { commands, next }) => format!("{commands:?} {next:?}"),
            Ok(RmStep::Git { args, vital, next }) => format!("{} {vital} {next:?}", args.join(" ")),
            Ok(RmStep::Finish { home }) => format!("{home:?}"),
            Err(stop) => stopped::<()>(Err(stop)),
        }
    };
    let asked = plan(true, Some(names(&["branch", "-d", "f"])));
    assert_eq!(show(&facts, &asked, Stage::Planned), "[\"dropdb f\"] Announced");
    assert_eq!(
        show(&facts, &asked, Stage::Announced),
        "worktree remove /x/r-f true Removed"
    );
    assert_eq!(show(&facts, &asked, Stage::Removed), "branch -d f true Settled");
    assert_eq!(show(&facts, &asked, Stage::Settled), "Some(\"/x/r\")");
    let plain = plan(false, None);
    assert_eq!(show(&facts, &plain, Stage::Removed), "LocalBranch /x/r f ");
    learn(&mut facts, Topic::LocalBranch, "/x/r", "f", "", ok(""));
    learn(&mut facts, Topic::Tips, "/x/r", "", "", ok("1 main\n1 f\n"));
    learn(&mut facts, Topic::RemoteHead, "/x/r", "", "", fail());
    learn(&mut facts, Topic::Beyond, "/x/r", "main", "f", ok("0\n"));
    assert_eq!(show(&facts, &plain, Stage::Removed), "branch -D f false Settled");
    assert_eq!(show(&facts, &plain, Stage::Settled), "None");
    learn(&mut facts, Topic::LocalBranch, "/x/r", "f", "", fail());
    assert_eq!(show(&facts, &plain, Stage::Removed), "None");
    let args = || names(&["branch", "-D", "f"]);
    assert!(remove::check_step(args(), false, fail()).is_ok());
    let e = remove::check_step(args(), true, fail()).err().unwrap();
    assert_eq!(e.message(), "git branch -D f failed");
}

#[test]
fn branches_are_cleared_only_if_empty() {
    let clear = |tips: &str, count: &str| {
        let mut facts = Facts::new();
        learn(&mut facts, Topic::LocalBranch, "/x/r", "f", "", ok(""));
        learn(&mut facts, Topic::Tips, "/x/r", "", "", ok(tips));
        learn(&mut facts, Topic::RemoteHead, "/x/r", "", "", fail());
        learn(&mut facts, Topic::InitialBranch, "/x/r", "", "", ok("f\n"));
        learn(&mut facts, Topic::Beyond, "/x/r", "main", "f", ok(count));
        let args = remove::clear_branch(&facts, &normal(), &Config::default(), "f");
        args.ok().unwrap().map(|a| a.join(" "))
    };
    assert_eq!(clear("1 main\n1 f", "0\n").as_deref(), Some("branch -D f"));
    assert_eq!(clear("1 main\n2 f", "1\n"), None);
    // without main, `f` itself is the trunk
    assert_eq!(clear("1 f", "0\n"), None);
    assert_eq!(clear("1 x", "0\n"), None);
}

// ---------------------------------------------------------------------------
// Showing
// ---------------------------------------------------------------------------

fn view(label: &str) -> WorktreeView {
    WorktreeView {
        branch: Some(label.to_string()),
        path: format!("/x/{label}"),
        bare: false,
        current: false,
        detached: false,
        lineage: Vec::new(),
        children: Vec::new(),
        children_overflow: None,
        status: Status { files: 0, staged: 0, unstaged: 0, untracked: 0 },
        ahead: None,
        behind: None,
        label: label.to_string(),
    }
}

fn names(list: &[&str]) -> Vec<String> {
    list.iter().map(|s| s.to_string()).collect()
}

fn sample() -> Vec<WorktreeView> {
    vec![
        WorktreeView { bare: true, branch: None, path: "/x".to_string(), ..view("bare") },
        WorktreeView {
            current: true,
            lineage: names(&["main", "a", "feature"]),
            children: names(&["c", "d"]),
            status: Status { files: 3, staged: 1, unstaged: 2, untracked: 0 },
            ahead: Some(2),
            behind: Some(1),
            ..view("feature")
        },
        WorktreeView { branch: None, detached: true, path: "/home/u/w".to_string(), ..view("detached") },
        WorktreeView {
            lineage: names(&["main", "b"]),
            children_overflow: Some(200),
            ahead: Some(0),
            behind: Some(0),
            ..view("b")
        },
    ]
}

fn look(verbose: bool, color: bool) -> Layout {
    Layout { verbose, color, base: "/x".to_string(), home: Some("/home/u".to_string()) }
}

#[test]
fn rows_for_people() {
    assert_eq!(
        render_human(&sample(), &look(false, false)),
        "  bare      x\n\
         ▸ feature   feature  main → a → * → [2]  !3 ↑2 ↓1\n  \
           detached  ~/w\n  \
           b         b  main → * → [200+]\n"
    );
    let verbose = render_human(&sample(), &look(true, false));
    assert!(verbose.contains("main → a → feature → [2]  +1 *2 ↑2 ↓1"), "{verbose}");
    assert_eq!(render_human(&Vec::new(), &look(false, false)), "");
}

#[test]
fn rows_in_color() {
    let rows = render_human(&sample(), &look(false, true));
    let lines: Vec<&str> = rows.lines().collect();
    assert_eq!(lines[0], "  \x1b[2mbare    \x1b[0m  \x1b[2mx\x1b[0m");
    assert_eq!(
        lines[1],
        "\x1b[32m▸\x1b[39m \x1b[32;1mfeature \x1b[0m  \x1b[2mfeature\x1b[0m  \
         \x1b[2mmain → a → * → [2]\x1b[0m  \x1b[33m!3\x1b[39m \x1b[36m↑2 ↓1\x1b[39m"
    );
}

#[test]
fn paint_is_put_on() {
    assert_eq!(paint(true, Paint::Green, "x"), "\x1b[32mx\x1b[39m");
    assert_eq!(paint(true, Paint::BoldGreen, "x"), "\x1b[32;1mx\x1b[0m");
    assert_eq!(paint(true, Paint::Yellow, "x"), "\x1b[33mx\x1b[39m");
    assert_eq!(paint(true, Paint::Cyan, "x"), "\x1b[36mx\x1b[39m");
    assert_eq!(paint(true, Paint::Dim, ""), "\x1b[2m\x1b[0m");
    assert_eq!(paint(false, Paint::Dim, "x"), "x");
}

#[test]
fn records_for_programs() {
    assert_eq!(
        render_porcelain(&sample()),
        "worktree /x\nbare\nstatus files=0 staged=0 unstaged=0 untracked=0\n\n\
         worktree /x/feature\nbranch feature\ncurrent\nlineage main a feature\nchildren c d\n\
         status files=3 staged=1 unstaged=2 untracked=0\nahead 2\nbehind 1\n\n\
         worktree /home/u/w\ndetached\nstatus files=0 staged=0 unstaged=0 untracked=0\n\n\
         worktree /x/b\nbranch b\nlineage main b\nchildren-overflow 200\n\
         status files=0 staged=0 unstaged=0 untracked=0\nahead 0\nbehind 0\n"
    );
    let mut other = sample();
    other[3].children_overflow = None;
    assert_ne!(render_porcelain(&other), render_porcelain(&sample()));
}

#[test]
fn parts_of_a_row() {
    let st: Status = Status { files: 4, staged: 1, unstaged: 0, untracked: 3 };
    assert_eq!(format_dirty(&st, false), "!4");
    assert_eq!(format_dirty(&st, true), "+1 ?3");
    let clean: Status = Status { files: 0, staged: 0, unstaged: 0, untracked: 0 };
    assert_eq!(format_dirty(&clean, false), "");
    assert_eq!(format_dirty(&clean, true), "");
    assert_eq!(format_upstream(Some(2), None), "↑2");
    assert_eq!(format_upstream(Some(0), Some(3)), "↓3");
    assert_eq!(format_upstream(None, None), "");
    assert_eq!(short_path("/x/r-a", "/x", None), "r-a");
    assert_eq!(short_path("/x/b.git", "/x/b.git", None), "b.git");
    assert_eq!(short_path("/", "/", None), "/");
    assert_eq!(short_path("/home/u/w/a", "/x", Some("/home/u")), "~/w/a");
    assert_eq!(short_path("/other", "/x", Some("/home/u")), "/other");
}

#[test]
fn lists_in_each_format() {
    let mut facts = Facts::new();
    let list = "worktree /x/r\nbranch refs/heads/main\n";
    learn(&mut facts, Topic::Worktrees, "/x/r", "", "", ok(list));
    learn(&mut facts, Topic::Canonical, "", "/x/r", "", ok("/x/r"));
    learn(&mut facts, Topic::Tips, "/x/r", "", "", ok("1 main\n"));
    learn(&mut facts, Topic::RemoteHead, "/x/r", "", "", fail());
    learn(&mut facts, Topic::Divergence, "/x/r", "", "", ok("1\t2\n"));
    assert_eq!(stopped(collect_views(&facts, &normal(), &Config::default())), "Status /x/r  ");
    learn(&mut facts, Topic::Status, "/x/r", "", "", ok("?? a\n"));
    let show = |format| {
        tonic::list::list(&facts, &normal(), &Config::default(), format, true, None, false)
    };
    match show(ListFormat::Human) {
        Ok(Listing::Printed(text)) => assert_eq!(text, "▸ main  r  ?1 ↑2 ↓1\n"),
        _ => panic!("expected text"),
    }
    match show(ListFormat::Porcelain) {
        Ok(Listing::Printed(text)) => assert_eq!(
            text,
            "worktree /x/r\nbranch main\ncurrent\n\
             status files=1 staged=0 unstaged=0 untracked=1\nahead 2\nbehind 1\n"
        ),
        _ => panic!("expected text"),
    }
    match show(ListFormat::Json) {
        Ok(Listing::Rows(rows)) => {
            assert_eq!(rows.len(), 1);
            assert!(rows[0].current && rows[0].lineage.is_empty() && rows[0].children.is_empty());
            assert_eq!((rows[0].ahead, rows[0].behind), (Some(2), Some(1)));
        }
        _ => panic!("expected rows"),
    }
}

#[test]
fn reports() {
    assert_eq!(report::created(false, "a", None), "✓ created worktree for a");
    assert_eq!(
        report::created(true, "a", Some("origin/a")),
        "\x1b[32m✓\x1b[39m created worktree for a\n  tracking origin/a"
    );
    assert_eq!(report::removed(false, "/p"), "✓ removed worktree: /p");
    let stay: Move = Move::Stay { reason: "why".to_string() };
    assert_eq!(report::moved(true, &stay), "why");
    assert_eq!(
        report::skipped("[", "bad"),
        "warning: skipping invalid .worktreeinclude pattern '[': bad"
    );
}

#[test]
fn shells() {
    assert_eq!(shell_wrapper("bash"), shell_wrapper("zsh"));
    assert!(shell_init("fish").ok().unwrap().ends_with("    end\nend\n"));
    assert!(shell_init("zsh").ok().unwrap().starts_with("tonic() {\n    case \"$1\" in\n"));
    let e: Error = shell_init("elvish").err().unwrap();
    assert_eq!(e.message(), "unsupported shell 'elvish' (expected bash, zsh, or fish)");
}

// ---------------------------------------------------------------------------
// Transferring
// ---------------------------------------------------------------------------

#[test]
fn rules_are_read() {
    let cfg: Config = Config {
        includes: Some(vec![Include { pattern: "node_modules".to_string(), mode: Mode::Symlink }]),
        ..Config::default()
    };
    let list = rules("/x/r", &cfg, "# comment\n\n  .env  \nnode_modules\r\n #x\n/abs/*\n");
    let shown: Vec<(&str, &str, Mode)> =
        list.iter().map(|r| (r.pattern.as_str(), r.glob.as_str(), r.mode)).collect();
    assert_eq!(
        shown,
        [
            (".env", "/x/r/.env", Mode::Copy),
            ("node_modules", "/x/r/node_modules", Mode::Symlink),
            ("/abs/*", "/abs/*", Mode::Copy),
        ]
    );
    assert_eq!(list_file("/x/r"), "/x/r/.worktreeinclude");
}

#[test]
fn only_ignored_files_are_transferred() {
    let mut facts = Facts::new();
    learn(&mut facts, Topic::Ignored, "/x/r", "sub/.env", "", ok(""));
    learn(&mut facts, Topic::Ignored, "/x/r", "tracked", "", fail());
    let entries = names(&["/x/r/sub/.env", "/x/r/tracked"]);
    let list = jobs(&facts, "/x/r", "/x/r-f", Mode::Copy, &entries).ok().unwrap();
    assert_eq!(list.len(), 1);
    assert_eq!(list[0].src, "/x/r/sub/.env");
    assert_eq!(list[0].rel, "sub/.env");
    assert_eq!(list[0].dest, "/x/r-f/sub/.env");
    assert_eq!(list[0].dir.as_deref(), Some("/x/r-f/sub"));
    let more = names(&["/x/r/new"]);
    let step = jobs(&facts, "/x/r", "/x/r-f", Mode::Copy, &more);
    assert_eq!(stopped(step), "Ignored /x/r new ");
}
