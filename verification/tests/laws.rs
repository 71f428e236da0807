//! Laws of the library, on chosen values.

use tonic::config::{Config, Mode};
use tonic::create;
use tonic::create::{AddStep, Request};
use tonic::display::render_porcelain;
use tonic::git::{Facts, Query, Reply, Stop, Topic};
use tonic::list::WorktreeView;
use tonic::path::{component_list, is_same_path, join, strip_prefix};
use tonic::porcelain::{parse_tips, Status};
use tonic::repo::{worktree_path_for, Repo};
use tonic::stack::{lineage, Stack};
use tonic::template::render;
use tonic::transfer::jobs;

fn reply(success: bool, text: &str) -> Reply {
    Reply {
        started: true,
        success,
        utf8: true,
        text: text.to_string(),
        note: String::new(),
    }
}

fn base_and_fetch(base: Option<&str>, fetch: Option<bool>) -> Config {
    Config { base: base.map(str::to_string), fetch, ..Config::default() }
}

#[test]
fn layers_merge_in_any_grouping() {
    let layers = || {
        (
            base_and_fetch(Some("a"), Some(true)),
            base_and_fetch(None, Some(false)),
            base_and_fetch(Some("c"), None),
        )
    };
    let (mut left, b, c) = layers();
    left.merge(b);
    left.merge(c);
    let (mut right, mut b, c) = layers();
    b.merge(c);
    right.merge(b);
    assert_eq!((left.base.as_deref(), left.fetch), (Some("c"), Some(false)));
    assert_eq!((right.base.as_deref(), right.fetch), (Some("c"), Some(false)));
    let mut unset: Config = Config::default();
    unset.merge(right);
    assert_eq!((unset.base.as_deref(), unset.fetch), (Some("c"), Some(false)));
}

#[test]
fn worktrees_lie_side_by_side() {
    let mut repo = Repo {
        root: None,
        git_dir: "/src/my/.git".to_string(),
        main: "/src/my".to_string(),
        name: "my".to_string(),
        bare: false,
    };
    let cfg = Config::default();
    assert_eq!(component_list(&worktree_path_for(&repo, &cfg, "a/b")), ["src", "my-a-b"]);
    repo.root = Some("/elsewhere".to_string());
    repo.git_dir = "/other".to_string();
    assert_eq!(worktree_path_for(&repo, &cfg, "a/b"), "/src/my-a-b");
    repo.bare = true;
    assert_eq!(component_list(&worktree_path_for(&repo, &cfg, "a/b")), ["src", "my", "a-b"]);
}

#[test]
fn a_name_with_a_placeholder_is_filled_in_too() {
    let vars = [("repo", "{branch}"), ("branch", "x")];
    assert_eq!(render("{repo}-{branch}", &vars), "x-x");
    assert_eq!(render("{repo", &vars), "{repo");
}

#[test]
fn joining_undoes_stripping() {
    for (p, base) in [("/x/./a//b/", "/x"), ("/x", "/x/"), ("/a/b/c", "/"), ("/x/.y/z", "/x")] {
        let rel = strip_prefix(p, base).unwrap();
        assert!(is_same_path(&join(base, &rel), p), "{p} {base} {rel}");
    }
}

#[test]
fn transferred_files_keep_their_place() {
    let mut facts = Facts::new();
    let q = Query::new(Topic::Ignored, "/s/", "a/b", "");
    facts.learn(q, reply(true, ""));
    let entries = vec!["/s//a/b/".to_string()];
    let list = jobs(&facts, "/s/", "/w", Mode::Symlink, &entries).ok().unwrap();
    assert_eq!(strip_prefix(&list[0].dest, "/w").as_deref(), Some(list[0].rel.as_str()));
    assert_eq!((list[0].rel.as_str(), list[0].mode), ("a/b", Mode::Symlink));
}

#[test]
fn more_answers_change_nothing() {
    let st = Stack {
        dir: "/d".to_string(),
        tips: parse_tips("1 main\n2 a\n3 b"),
        trunk: "main".to_string(),
        checked_out: Vec::new(),
    };
    let mut facts = Facts::new();
    let mut asked = Vec::new();
    let chain = loop {
        match lineage(&facts, &st, "b") {
            Ok(chain) => break chain,
            Err(Stop::Fail(_)) => panic!("nothing can fail here"),
            Err(Stop::Ask(q)) => {
                let text = if matches!(q.topic, Topic::MergeBase) { "1\n" } else { "3\n2\n-1\n" };
                asked.push(q.args().join(" "));
                facts.learn(q, reply(true, text));
            }
        }
    };
    assert_eq!(asked, ["merge-base main b", "rev-list --first-parent --boundary main..b"]);
    assert_eq!(chain, ["main", "a", "b"]);
    facts.learn(Query::new(Topic::MergeBase, "/d", "main", "a"), reply(false, ""));
    facts.learn(Query::new(Topic::Head, "/d", "", ""), reply(true, "zzz"));
    assert_eq!(lineage(&facts, &st, "b").ok().unwrap(), chain);
}

#[test]
fn an_empty_branch_is_not_stacked_on_its_twin() {
    let st = Stack {
        dir: "/d".to_string(),
        tips: parse_tips("1 main\n2 foo\n2 empty"),
        trunk: "main".to_string(),
        checked_out: vec!["foo".to_string(), "empty".to_string()],
    };
    let mut facts = Facts::new();
    facts.learn(Query::new(Topic::MergeBase, "/d", "main", "empty"), reply(true, "1"));
    facts.learn(Query::new(Topic::StackRevs, "/d", "main", "empty"), reply(true, "2\n-1\n"));
    assert_eq!(lineage(&facts, &st, "empty").ok().unwrap(), ["main", "empty"]);
}

#[test]
fn the_configured_base_leaves_existing_branches_alone() {
    let repo = Repo {
        root: Some("/x/r".to_string()),
        git_dir: "/x/r/.git".to_string(),
        main: "/x/r".to_string(),
        name: "r".to_string(),
        bare: false,
    };
    let mut facts = Facts::new();
    facts.learn(Query::new(Topic::Exists, "", "/x/r-f", ""), reply(false, ""));
    facts.learn(Query::new(Topic::LocalBranch, "/x/r", "f", ""), reply(false, ""));
    facts.learn(Query::new(Topic::Remotes, "/x/r", "", ""), reply(true, "up\n"));
    facts.learn(Query::new(Topic::RemoteBranch, "/x/r", "up", "f"), reply(true, ""));
    let req: Request = Request {
        branch: "f".to_string(),
        new_branch: false,
        base: None,
        remote: None,
        fetch: false,
    };
    for base in [None, Some("main")] {
        let cfg = base_and_fetch(base, None);
        match create::add(&facts, &repo, &cfg, &req, false) {
            Ok(AddStep::Create(plan)) => {
                assert_eq!(plan.args.join(" "), "worktree add --track -b f /x/r-f up/f");
                assert_eq!(plan.tracking.as_deref(), Some("up/f"));
            }
            _ => panic!("expected a worktree"),
        }
    }
}

#[test]
fn records_tell_rows_apart() {
    let row = |path: &str, branch: Option<&str>, lineage: &[&str], files: usize| WorktreeView {
        branch: branch.map(str::to_string),
        path: path.to_string(),
        bare: false,
        current: false,
        detached: branch.is_none(),
        lineage: lineage.iter().map(|s| s.to_string()).collect(),
        children: Vec::new(),
        children_overflow: None,
        status: Status { files, staged: 1, unstaged: 11, untracked: 0 },
        ahead: None,
        behind: None,
        label: "x".to_string(),
    };
    let lists = [
        vec![],
        vec![row("/a", Some("b"), &[], 1)],
        vec![row("/a", None, &[], 1)],
        vec![row("/a", Some("b"), &["m", "b"], 1)],
        vec![row("/a", Some("b"), &["m", "x", "b"], 1)],
        vec![row("/a", Some("b"), &[], 11)],
        vec![row("/a", Some("b"), &[], 1), row("/a", Some("b"), &[], 1)],
    ];
    for (i, a) in lists.iter().enumerate() {
        for (j, b) in lists.iter().enumerate() {
            assert_eq!(render_porcelain(a) == render_porcelain(b), i == j);
        }
    }
}
