//! The parts that need no repository.

use tonic::config::{Config, Include, Mode};
use tonic::create::new_branch_args;
use tonic::porcelain::{parse_worktree, parse_worktrees};
use tonic::repo::{worktree_base, worktree_path_for, Repo};
use tonic::shell::shell_wrapper;
use tonic::template::render;

#[test]
fn shell_wrapper_per_shell() {
    assert!(shell_wrapper("zsh").unwrap().contains("tonic()"));
    assert!(shell_wrapper("bash").unwrap().contains("tonic()"));
    assert!(shell_wrapper("fish").unwrap().contains("function tonic"));
    assert!(shell_wrapper("elvish").is_none());
}

#[test]
fn render_substitutes() {
    let out = render("{repo}.git/{branch}", &[("repo", "tonic"), ("branch", "feat/x")]);
    assert_eq!(out, "tonic.git/feat/x");
}

#[test]
fn merge_later_wins_per_key() {
    let mut base: Config = Config {
        worktree_path: Some("a".into()),
        ..Config::default()
    };
    base.merge(Config {
        worktree_path: Some("b".into()),
        ..Config::default()
    });
    assert_eq!(base.worktree_path.as_deref(), Some("b"));
}

#[test]
fn worktree_base_normal_vs_bare() {
    // normal: base is the parent of the main working tree
    assert_eq!(worktree_base(false, "/src/myrepo"), "/src");
    // bare: base is the bare dir itself (siblings land inside it)
    assert_eq!(worktree_base(true, "/src/myrepo.git"), "/src/myrepo.git");
}

#[test]
fn parse_worktree_finds_branch() {
    let out = "worktree /repo/main\nHEAD abc\nbranch refs/heads/main\n\n\
               worktree /repo/.worktrees/feat\nHEAD def\nbranch refs/heads/feat\n";
    assert_eq!(parse_worktree(out, "feat").as_deref(), Some("/repo/.worktrees/feat"));
    assert_eq!(parse_worktree(out, "nope"), None);
}

#[test]
fn worktree_path_default_flattens_slash() {
    let repo = Repo {
        root: None,
        git_dir: "/x/r/.git".to_string(),
        main: "/x/r".to_string(),
        name: "r".to_string(),
        bare: false,
    };
    // default template "{repo}-{branch}", resolved against the main worktree's
    // parent; "feat/x" flattens to one dir.
    assert_eq!(worktree_path_for(&repo, &Config::default(), "feat/x"), "/x/r-feat-x");
}

#[test]
fn new_branch_args_from_head_and_base() {
    let mut a = vec!["worktree".to_string(), "add".to_string()];
    new_branch_args(&mut a, "foo", "/p", None);
    assert_eq!(a, ["worktree", "add", "-b", "foo", "/p"]);

    let mut b: Vec<String> = Vec::new();
    new_branch_args(&mut b, "foo", "/p", Some("main"));
    assert_eq!(b, ["-b", "foo", "/p", "main"]);
}

#[test]
fn bare_anchor_distinct_from_branch_named_bare() {
    let out = "worktree /repo.git\nbare\n\n\
               worktree /repo.git/bare\nHEAD abc\nbranch refs/heads/bare\n";
    let wts = parse_worktrees(out);
    // anchor: bare flag set, not a resolvable branch
    assert!(wts[0].bare);
    // the branch literally named "bare": not the anchor, and cd finds it
    assert!(!wts[1].bare);
    assert_eq!(parse_worktree(out, "bare").as_deref(), Some("/repo.git/bare"));
}

#[test]
fn mode_defaults_to_copy() {
    let cfg: Config = Config {
        includes: Some(vec![Include { pattern: "node_modules".into(), mode: Mode::Symlink }]),
        ..Config::default()
    };
    assert_eq!(cfg.mode_for("node_modules"), Mode::Symlink);
    assert_eq!(cfg.mode_for(".env"), Mode::Copy);
}
