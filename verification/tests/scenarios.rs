//! The commands, run against a repository in memory.

use tonic::config::Config;
use tonic::create;
use tonic::create::{AddStage, AddStep, AddWork, Request};
use tonic::error::Error;
use tonic::git::{Facts, Query, Reply, Stop, Topic};
use tonic::list::{ListFormat, Listing};
use tonic::nav::{checkout_args, Move};
use tonic::remove;
use tonic::remove::{RmStep, Stage};
use tonic::repo::Repo;
use tonic::report;
use tonic::shell;

// ---------------------------------------------------------------------------
// A repository in memory
// ---------------------------------------------------------------------------

/// A worktree: where it lies, the branch checked out (none if HEAD is detached), the
/// commit of HEAD, and what `git status --porcelain` says there.
struct Tree {
    path: String,
    branch: Option<String>,
    commit: usize,
    status: Vec<String>,
}

/// What a run of the program printed, and whether it succeeded.
struct Output {
    ok: bool,
    stdout: String,
    stderr: String,
}

struct Scratch {
    /// The parent of each commit.
    parents: Vec<Option<usize>>,
    /// Who made each commit.
    subjects: Vec<String>,
    branches: Vec<(String, usize)>,
    trees: Vec<Tree>,
    /// Branches of `origin`.
    remote: Vec<(String, usize)>,
    /// Local branches and their upstream on `origin`.
    upstream: Vec<(String, String)>,
    toml: String,
}

const ROOT: &str = "/scratch";
const REPO: &str = "/scratch/repo";

fn reply(success: bool, text: String) -> Reply {
    Reply { started: true, success, utf8: true, text, note: String::new() }
}

fn sha(commit: usize) -> String {
    format!("{:040x}", commit + 0xabc)
}

impl Scratch {
    /// A repository on `main` with one commit.
    fn new() -> Scratch {
        let mut s = Scratch {
            parents: Vec::new(),
            subjects: Vec::new(),
            branches: Vec::new(),
            trees: Vec::new(),
            remote: Vec::new(),
            upstream: Vec::new(),
            toml: String::new(),
        };
        s.parents.push(None);
        s.subjects.push("m0".to_string());
        s.branches.push(("main".to_string(), 0));
        s.trees.push(Tree {
            path: REPO.to_string(),
            branch: Some("main".to_string()),
            commit: 0,
            status: Vec::new(),
        });
        s
    }

    /// The path of the worktree that `add` creates for `branch`.
    fn wt(&self, branch: &str) -> String {
        format!("{ROOT}/repo-{}", branch.replace('/', "-"))
    }

    fn tree(&self, path: &str) -> Option<&Tree> {
        self.trees.iter().find(|t| t.path == path)
    }

    fn tree_mut(&mut self, path: &str) -> &mut Tree {
        self.trees.iter_mut().find(|t| t.path == path).expect("no such worktree")
    }

    fn has_tree(&self, path: &str) -> bool {
        self.tree(path).is_some()
    }

    fn tip(&self, branch: &str) -> Option<usize> {
        self.branches.iter().find(|b| b.0 == branch).map(|b| b.1)
    }

    fn set_tip(&mut self, branch: &str, commit: usize) {
        match self.branches.iter_mut().find(|b| b.0 == branch) {
            Some(b) => b.1 = commit,
            None => self.branches.push((branch.to_string(), commit)),
        }
    }

    /// Commits in the worktree at `path`.
    fn commit_in(&mut self, path: &str, name: &str) {
        let commit = self.parents.len();
        let tree = self.tree_mut(path);
        let parent = tree.commit;
        tree.commit = commit;
        let branch = tree.branch.clone();
        self.parents.push(Some(parent));
        self.subjects.push(name.to_string());
        if let Some(b) = branch {
            self.set_tip(&b, commit);
        }
    }

    /// Makes the branch `name` at HEAD of the worktree at `path`.
    fn branch_in(&mut self, path: &str, name: &str) {
        let commit = self.tree(path).unwrap().commit;
        self.set_tip(name, commit);
    }

    /// Switches the worktree at `path` to `branch`.
    fn switch_in(&mut self, path: &str, branch: &str) {
        let commit = self.tip(branch).unwrap();
        let tree = self.tree_mut(path);
        tree.branch = Some(branch.to_string());
        tree.commit = commit;
    }

    fn detach(&mut self, path: &str) {
        self.tree_mut(path).branch = None;
    }

    /// The commits from `commit` down to the root.
    fn history(&self, commit: usize) -> Vec<usize> {
        let mut out = vec![commit];
        let mut at = commit;
        while let Some(p) = self.parents[at] {
            out.push(p);
            at = p;
        }
        out
    }

    fn head(&self, path: &str) -> String {
        self.tree(path).unwrap().branch.clone().unwrap_or_default()
    }

    fn branch_names(&self) -> Vec<String> {
        self.branches.iter().map(|b| b.0.clone()).collect()
    }

    fn sorted_branches(&self) -> Vec<(String, usize)> {
        let mut all = self.branches.clone();
        all.sort();
        all
    }

    fn answer(&self, cwd: &str, q: &Query) -> Reply {
        let fail = || reply(false, String::new());
        let subject = q.subject.as_str();
        let other = q.other.as_str();
        match q.topic {
            Topic::BareHere => reply(true, "false\n".to_string()),
            Topic::TopLevel => reply(true, format!("{cwd}\n")),
            Topic::CurrentDir => reply(true, cwd.to_string()),
            Topic::CommonDir => reply(
                true,
                if q.dir == REPO { ".git\n".to_string() } else { format!("{REPO}/.git\n") },
            ),
            Topic::CoreBare => reply(true, "false\n".to_string()),
            Topic::Worktrees => {
                let mut out = String::new();
                for t in &self.trees {
                    out += &format!("worktree {}\nHEAD {}\n", t.path, sha(t.commit));
                    match &t.branch {
                        Some(b) => out += &format!("branch refs/heads/{b}\n\n"),
                        None => out += "detached\n\n",
                    }
                }
                reply(true, out)
            }
            Topic::LocalBranch => reply(self.tip(subject).is_some(), String::new()),
            Topic::RemoteBranch => reply(
                subject == "origin" && self.remote.iter().any(|b| b.0 == other),
                String::new(),
            ),
            Topic::Remotes => reply(
                true,
                if self.remote.is_empty() { String::new() } else { "origin\n".to_string() },
            ),
            Topic::Tips => {
                let mut out = String::new();
                for (name, commit) in self.sorted_branches() {
                    out += &format!("{} {name}\n", sha(commit));
                }
                reply(true, out)
            }
            Topic::RemoteHead | Topic::InitialBranch => fail(),
            Topic::MergeBase => match (self.tip(subject), self.tip(other)) {
                (Some(a), Some(b)) => {
                    let below = self.history(a);
                    match self.history(b).into_iter().find(|c| below.contains(c)) {
                        Some(c) => reply(true, sha(c) + "\n"),
                        None => fail(),
                    }
                }
                _ => fail(),
            },
            Topic::StackRevs => match (self.tip(subject), self.tip(other)) {
                (Some(a), Some(b)) => {
                    let below = self.history(a);
                    let mut out = String::new();
                    for c in self.history(b) {
                        if below.contains(&c) {
                            if !out.is_empty() {
                                out += &format!("-{}\n", sha(c));
                            }
                            break;
                        }
                        out += &format!("{}\n", sha(c));
                    }
                    reply(true, out)
                }
                _ => fail(),
            },
            Topic::Containing => match self.tip(subject) {
                Some(tip) => {
                    let mut out = String::new();
                    for (name, commit) in self.sorted_branches() {
                        if self.history(commit).contains(&tip) {
                            out += &format!("{name}\n");
                        }
                    }
                    reply(true, out)
                }
                None => fail(),
            },
            Topic::Status => {
                let lines = self.tree(&q.dir).map(|t| t.status.clone()).unwrap_or_default();
                reply(true, lines.iter().map(|l| format!("{l}\n")).collect())
            }
            Topic::Divergence => {
                let tree = self.tree(&q.dir).unwrap();
                let up = tree.branch.as_ref().and_then(|b| {
                    let full = &self.upstream.iter().find(|u| &u.0 == b)?.1;
                    self.remote.iter().find(|r| &r.0 == full).map(|r| r.1)
                });
                match up {
                    Some(up) => {
                        let (mine, theirs) = (self.history(tree.commit), self.history(up));
                        let behind = theirs.iter().filter(|c| !mine.contains(c)).count();
                        let ahead = mine.iter().filter(|c| !theirs.contains(c)).count();
                        reply(true, format!("{behind}\t{ahead}\n"))
                    }
                    None => fail(),
                }
            }
            Topic::Head => match &self.tree(&q.dir).unwrap().branch {
                Some(b) => reply(true, format!("{b}\n")),
                None => fail(),
            },
            Topic::Ignored => fail(),
            Topic::Beyond => match (self.tip(subject), self.tip(other)) {
                (Some(a), Some(b)) => {
                    let below = self.history(a);
                    let n = self.history(b).iter().filter(|c| !below.contains(c)).count();
                    reply(true, format!("{n}\n"))
                }
                _ => fail(),
            },
            Topic::Canonical => {
                let there = self.has_tree(subject) || subject == format!("{REPO}/.git");
                reply(there, if there { subject.to_string() } else { String::new() })
            }
            Topic::Exists => reply(self.has_tree(subject), String::new()),
        }
    }

    /// Calls `f`, answering its questions, until it is done.
    fn drive<T>(&self, cwd: &str, f: impl Fn(&Facts) -> Result<T, Stop>) -> Result<T, Error> {
        let mut facts = Facts::new();
        for _ in 0..1000 {
            match f(&facts) {
                Ok(done) => return Ok(done),
                Err(Stop::Fail(e)) => return Err(e),
                Err(Stop::Ask(q)) => {
                    let r = self.answer(cwd, &q);
                    facts.learn(q, r);
                }
            }
        }
        panic!("too many questions")
    }

    /// Runs git for its effect.
    fn git(&mut self, cwd: &str, args: &[String]) {
        let args: Vec<&str> = args.iter().map(String::as_str).collect();
        match args.as_slice() {
            ["worktree", "add", "-b", branch, path] => {
                let commit = self.tree(cwd).unwrap().commit;
                self.new_tree(path, branch, commit);
            }
            ["worktree", "add", "-b", branch, path, base] => {
                let commit = self.tip(base).unwrap();
                self.new_tree(path, branch, commit);
            }
            ["worktree", "add", "--track", "-b", branch, path, full] => {
                let name = full.strip_prefix("origin/").unwrap();
                let commit = self.remote.iter().find(|r| r.0 == name).unwrap().1;
                self.upstream.push((branch.to_string(), name.to_string()));
                self.new_tree(path, branch, commit);
            }
            ["worktree", "add", path, branch] => {
                let commit = self.tip(branch).unwrap();
                self.new_tree(path, branch, commit);
            }
            ["worktree", "remove", path] | ["worktree", "remove", "--force", path] => {
                self.trees.retain(|t| t.path != *path);
            }
            ["branch", "-d" | "-D", branch] => self.branches.retain(|b| b.0 != *branch),
            ["checkout", branch] => self.switch_in(cwd, branch),
            other => panic!("unexpected git {other:?}"),
        }
    }

    fn new_tree(&mut self, path: &str, branch: &str, commit: usize) {
        self.set_tip(branch, commit);
        self.trees.push(Tree {
            path: path.to_string(),
            branch: Some(branch.to_string()),
            commit,
            status: Vec::new(),
        });
    }

    fn config(&self) -> Config {
        let table: toml::Table = toml::from_str(&self.toml).unwrap();
        Config {
            default_branch: table
                .get("default_branch")
                .and_then(|v| v.as_str())
                .map(str::to_string),
            ..Config::default()
        }
    }

    /// Runs the program in the main worktree.
    fn tonic(&mut self, args: &[&str]) -> Output {
        self.tonic_in(REPO, args)
    }

    /// Runs the program in the worktree at `cwd`.
    fn tonic_in(&mut self, cwd: &str, args: &[&str]) -> Output {
        let mut out = Output { ok: true, stdout: String::new(), stderr: String::new() };
        if let Err(e) = self.run(cwd, args, &mut out) {
            out.ok = false;
            out.stderr += &e.message();
        }
        out
    }

    fn run(&mut self, cwd: &str, args: &[&str], out: &mut Output) -> Result<(), Error> {
        let repo = self.drive(cwd, |f| Repo::discover(f))?;
        let cfg = self.config();
        match args {
            ["add", branch] => self.run_add(cwd, &repo, &cfg, branch, None, out),
            ["add", branch, "--base", base] => {
                self.run_add(cwd, &repo, &cfg, branch, Some(base), out)
            }
            ["list"] => self.run_list(cwd, &repo, &cfg, false, out),
            ["list", "-v"] => self.run_list(cwd, &repo, &cfg, true, out),
            ["cd", branch] => {
                out.stdout = self.drive(cwd, |f| shell::cd(f, &repo, &cfg, branch))?;
                Ok(())
            }
            ["rm", branch] => self.run_rm(cwd, &repo, &cfg, branch, false, out),
            ["rm", branch, "-f"] => self.run_rm(cwd, &repo, &cfg, branch, true, out),
            ["up"] => self.run_move(cwd, |f| tonic::nav::up(f, &repo, &cfg), out),
            ["down"] => self.run_move(cwd, |f| tonic::nav::down(f, &repo, &cfg), out),
            ["top"] => self.run_move(cwd, |f| tonic::nav::top(f, &repo, &cfg), out),
            ["bottom"] => self.run_move(cwd, |f| tonic::nav::bottom(f, &repo, &cfg), out),
            other => panic!("unexpected command {other:?}"),
        }
    }

    fn run_add(
        &mut self,
        cwd: &str,
        repo: &Repo,
        cfg: &Config,
        branch: &str,
        base: Option<&str>,
        out: &mut Output,
    ) -> Result<(), Error> {
        let req = Request {
            branch: branch.to_string(),
            new_branch: false,
            base: base.map(str::to_string),
            remote: None,
            fetch: false,
        };
        let plan = match self.drive(cwd, |f| create::add(f, repo, cfg, &req, false))? {
            AddStep::Fetch { .. } => panic!("nothing was to be fetched"),
            AddStep::Create(plan) => plan,
        };
        let mut stage = AddStage::Resolved;
        loop {
            stage = match create::add_next(cfg, repo, branch, &plan, false, stage, Ok(()))? {
                AddWork::Git { args, next } => {
                    self.git(repo.cwd(), &args);
                    next
                }
                AddWork::Transfer { next, .. } => next,
                AddWork::Hooks { commands, next } => {
                    assert!(commands.is_empty(), "no hooks are configured");
                    next
                }
                AddWork::Finish { note, stdout } => {
                    out.stderr = note;
                    out.stdout = stdout.trim_end().to_string();
                    return Ok(());
                }
            };
        }
    }

    fn run_list(
        &mut self,
        cwd: &str,
        repo: &Repo,
        cfg: &Config,
        verbose: bool,
        out: &mut Output,
    ) -> Result<(), Error> {
        let listing = self.drive(cwd, |f| {
            tonic::list::list(f, repo, cfg, ListFormat::Human, verbose, None, false)
        })?;
        match listing {
            Listing::Printed(text) => out.stdout = text,
            Listing::Rows(_) => panic!("rows were not asked for"),
        }
        Ok(())
    }

    fn run_rm(
        &mut self,
        cwd: &str,
        repo: &Repo,
        cfg: &Config,
        branch: &str,
        force: bool,
        out: &mut Output,
    ) -> Result<(), Error> {
        let plan = self.drive(cwd, |f| remove::rm(f, repo, cfg, branch, force, false))?;
        let mut stage = Stage::Planned;
        loop {
            let step = self.drive(cwd, |f| remove::rm_step(f, repo, cfg, branch, &plan, stage))?;
            match step {
                RmStep::Hooks { commands, next } => {
                    assert!(commands.is_empty());
                    stage = next;
                }
                RmStep::Git { args, vital, next } => {
                    self.git(&repo.main, &args);
                    remove::check_step(args, vital, reply(true, String::new()))?;
                    stage = next;
                }
                RmStep::Finish { home } => {
                    out.stderr = report::removed(false, &plan.path);
                    out.stdout = home.unwrap_or_default();
                    break;
                }
            }
        }
        Ok(())
    }

    fn run_move(
        &mut self,
        cwd: &str,
        f: impl Fn(&Facts) -> Result<Move, Stop>,
        out: &mut Output,
    ) -> Result<(), Error> {
        let step = self.drive(cwd, f)?;
        out.stderr = report::moved(false, &step);
        match step {
            Move::Stay { .. } => {}
            Move::Enter { path, .. } => out.stdout = path,
            Move::Checkout { branch } => {
                self.git(cwd, &checkout_args(&branch));
            }
        }
        Ok(())
    }

    /// `foo`, with the branch `bar` stacked on it, which has no worktree.
    fn foo_with_bar(&mut self) -> String {
        self.tonic(&["add", "foo"]);
        let foo = self.wt("foo");
        self.commit_in(&foo, "fc");
        self.branch_in(&foo, "bar");
        self.switch_in(&foo, "bar");
        self.commit_in(&foo, "bc");
        self.switch_in(&foo, "foo");
        foo
    }

    /// `main → a → b`, each with a worktree.
    fn stack_ab(&mut self) {
        self.tonic(&["add", "a"]);
        let a = self.wt("a");
        self.commit_in(&a, "ac");
        self.tonic_in(&a, &["add", "b"]);
        let b = self.wt("b");
        self.commit_in(&b, "bc");
    }
}

// ---------------------------------------------------------------------------
// add
// ---------------------------------------------------------------------------

#[test]
fn add_creates_a_new_branch_and_worktree() {
    let mut s = Scratch::new();
    let out = s.tonic(&["add", "newb"]);
    assert!(out.ok, "{}", out.stderr);
    assert!(s.has_tree(&s.wt("newb")), "worktree dir not created");
    assert!(s.branch_names().contains(&"newb".to_string()), "branch not created");
    assert_eq!(out.stdout, "/scratch/repo-newb");
    assert_eq!(out.stderr, "✓ created worktree for newb");
}

#[test]
fn add_checks_out_an_existing_local_branch() {
    let mut s = Scratch::new();
    s.branch_in(REPO, "existing");
    let out = s.tonic(&["add", "existing"]);
    assert!(out.ok, "{}", out.stderr);
    assert!(s.has_tree(&s.wt("existing")));
}

#[test]
fn add_errors_when_branch_already_checked_out() {
    let mut s = Scratch::new();
    let out = s.tonic(&["add", "main"]);
    assert!(!out.ok);
    assert!(out.stderr.contains("already checked out"), "unexpected error:\n{}", out.stderr);
}

#[test]
fn base_roots_a_new_branch_at_the_given_ref() {
    let mut s = Scratch::new();
    s.tonic(&["add", "feature"]);
    let feature = s.wt("feature");
    s.commit_in(&feature, "fc");
    let out = s.tonic_in(&feature, &["add", "newb", "--base", "main"]);
    assert!(out.ok, "{}", out.stderr);
    let commit = s.tree(&s.wt("newb")).unwrap().commit;
    let log: Vec<String> = s.history(commit).into_iter().map(|c| s.subjects[c].clone()).collect();
    assert!(!log.contains(&"fc".to_string()), "newb should not hold feature's commit:\n{log:?}");
}

#[test]
fn add_tracks_a_remote_only_branch() {
    let mut s = Scratch::new();
    s.remote.push(("feature/x".to_string(), 0));
    let out = s.tonic(&["add", "feature/x"]);
    assert!(out.ok, "{}", out.stderr);
    assert!(
        out.stderr.contains("tracking origin/feature/x"),
        "expected remote tracking:\n{}",
        out.stderr
    );
    assert!(s.has_tree("/scratch/repo-feature-x"));
}

// ---------------------------------------------------------------------------
// list
// ---------------------------------------------------------------------------

#[test]
fn deep_stack_shows_full_lineage() {
    let mut s = Scratch::new();
    s.stack_ab();
    let out = s.tonic(&["list"]).stdout;
    assert!(out.contains("main → a → *"), "expected b's full lineage, got:\n{out}");
    assert!(out.contains("main → * → b"), "expected a's lineage with child, got:\n{out}");
    assert_eq!(
        out,
        "▸ main  repo\n  a     repo-a  main → * → b\n  b     repo-b  main → a → *\n"
    );
}

#[test]
fn plain_branch_off_main_has_no_lineage() {
    let mut s = Scratch::new();
    s.tonic(&["add", "solo"]);
    s.commit_in(&s.wt("solo"), "sc");
    let out = s.tonic(&["list"]).stdout;
    assert!(!out.contains('→'), "plain branch should not be annotated:\n{out}");
}

#[test]
fn lineage_survives_main_drifting_past_the_base() {
    let mut s = Scratch::new();
    s.tonic(&["add", "A"]);
    let a = s.wt("A");
    s.commit_in(&a, "a1");
    s.tonic_in(&a, &["add", "B"]);
    let b = s.wt("B");
    s.commit_in(&b, "b1");
    let merged = s.tip("A").unwrap();
    s.set_tip("main", merged);
    s.tree_mut(REPO).commit = merged;
    s.commit_in(REPO, "m2");
    let out = s.tonic(&["list"]).stdout;
    assert!(out.contains("main → A → *"), "drift regression: lineage lost:\n{out}");
}

#[test]
fn child_without_a_worktree_is_shown() {
    let mut s = Scratch::new();
    s.foo_with_bar();
    let out = s.tonic(&["list"]).stdout;
    assert!(out.contains("* → bar"), "non-worktree child not shown:\n{out}");
}

#[test]
fn twin_child_is_not_a_phantom_fork() {
    let mut s = Scratch::new();
    s.foo_with_bar();
    let bar = s.tip("bar").unwrap();
    s.set_tip("bartwin", bar);
    let out = s.tonic(&["list"]).stdout;
    assert!(out.contains("* → bar"), "expected single child:\n{out}");
    assert!(!out.contains("[2]"), "twin inflated the fork count:\n{out}");
}

#[test]
fn dirty_count_replaces_the_dirty_word() {
    let mut s = Scratch::new();
    s.tonic(&["add", "foo"]);
    let foo = s.wt("foo");
    s.tree_mut(&foo).status.push("?? wip".to_string());
    let out = s.tonic(&["list"]).stdout;
    assert!(out.contains("!1"), "expected a compact dirty count:\n{out}");
    assert!(!out.contains("(dirty)"), "the (dirty) word should be gone:\n{out}");
}

#[test]
fn verbose_splits_status_and_shows_full_lineage_names() {
    let mut s = Scratch::new();
    s.stack_ab();
    let b = s.wt("b");
    s.tree_mut(&b).status.push("?? wip".to_string());
    let out = s.tonic(&["list", "-v"]).stdout;
    assert!(out.contains("?1"), "verbose should split out untracked:\n{out}");
    assert!(out.contains("main → a → b"), "verbose should show full lineage names:\n{out}");
    assert!(!out.contains("→ *"), "verbose should not use the `*` self-marker:\n{out}");
}

#[test]
fn ahead_behind_shown_against_upstream() {
    let mut s = Scratch::new();
    s.branch_in(REPO, "feat");
    s.remote.push(("feat".to_string(), 0));
    s.tonic(&["add", "feat"]);
    let feat = s.wt("feat");
    s.upstream.push(("feat".to_string(), "feat".to_string()));
    s.commit_in(&feat, "f1");
    s.commit_in(&feat, "f2");
    let out = s.tonic(&["list"]).stdout;
    assert!(out.contains("↑2"), "expected an ahead count:\n{out}");
}

#[test]
fn paths_are_relative_and_current_is_marked() {
    let mut s = Scratch::new();
    s.tonic(&["add", "a"]);
    let out = s.tonic(&["list"]).stdout;
    assert!(out.contains('▸'), "current worktree not marked:\n{out}");
    assert!(out.contains("repo-a"), "worktree dir name missing:\n{out}");
    assert!(!out.contains(REPO), "path should be relative, not the absolute worktree path:\n{out}");
}

#[test]
fn configured_default_branch_anchors_lineage() {
    let mut s = Scratch::new();
    s.tonic(&["add", "develop"]);
    let develop = s.wt("develop");
    s.commit_in(&develop, "dc");
    s.tonic_in(&develop, &["add", "a"]);
    let a = s.wt("a");
    s.commit_in(&a, "ac");
    s.tonic_in(&a, &["add", "b"]);
    let b = s.wt("b");
    s.commit_in(&b, "bc");

    let out = s.tonic(&["list"]).stdout;
    assert!(out.contains("main → develop → a → *"), "default trunk should be main:\n{out}");

    s.toml = "default_branch = \"develop\"\n".to_string();
    let out = s.tonic(&["list"]).stdout;
    assert!(out.contains("develop → a → *"), "configured trunk not honored:\n{out}");
    assert!(!out.contains("main → develop"), "develop should be the root, not a child:\n{out}");
}

#[test]
fn stale_default_branch_config_falls_back() {
    let mut s = Scratch::new();
    s.stack_ab();
    s.toml = "default_branch = \"nope\"\n".to_string();
    let out = s.tonic(&["list"]).stdout;
    assert!(out.contains("main → a → *"), "stale config should fall back to main:\n{out}");
}

#[test]
fn empty_branch_gains_lineage_after_a_commit() {
    let mut s = Scratch::new();
    s.tonic(&["add", "foo"]);
    let foo = s.wt("foo");
    s.commit_in(&foo, "fc");
    s.tonic_in(&foo, &["add", "empty"]);

    let before = s.tonic(&["list"]).stdout;
    assert!(!before.contains("→ empty"), "empty branch should show no lineage yet:\n{before}");

    let empty = s.wt("empty");
    s.commit_in(&empty, "ec");
    let after = s.tonic(&["list"]).stdout;
    assert!(after.contains("main → foo → *"), "lineage should appear after a commit:\n{after}");
}

// ---------------------------------------------------------------------------
// up, down, top, bottom
// ---------------------------------------------------------------------------

#[test]
fn down_steps_to_parent_worktree() {
    let mut s = Scratch::new();
    s.stack_ab();
    let b = s.wt("b");
    let out = s.tonic_in(&b, &["down"]);
    assert!(out.ok, "{}", out.stderr);
    assert!(out.stdout.trim().ends_with("repo-a"), "down should cd to a's worktree:\n{}", out.stdout);
    assert_eq!(out.stderr, "✓ a: switched to its worktree");
}

#[test]
fn up_steps_to_child_worktree() {
    let mut s = Scratch::new();
    s.stack_ab();
    let a = s.wt("a");
    let out = s.tonic_in(&a, &["up"]);
    assert!(out.ok, "{}", out.stderr);
    assert!(out.stdout.trim().ends_with("repo-b"), "up should cd to b's worktree:\n{}", out.stdout);
}

#[test]
fn down_from_base_goes_to_trunk() {
    let mut s = Scratch::new();
    s.tonic(&["add", "a"]);
    let a = s.wt("a");
    s.commit_in(&a, "ac");
    let out = s.tonic_in(&a, &["down"]);
    assert!(out.ok, "{}", out.stderr);
    assert_eq!(out.stdout.trim(), REPO, "down from base should reach the trunk worktree");
}

#[test]
fn up_checks_out_in_place_when_child_has_no_worktree() {
    let mut s = Scratch::new();
    let foo = s.foo_with_bar();
    let out = s.tonic_in(&foo, &["up"]);
    assert!(out.ok, "{}", out.stderr);
    assert!(
        out.stdout.trim().is_empty(),
        "in-place checkout should not print a path:\n{}",
        out.stdout
    );
    assert_eq!(s.head(&foo), "bar", "up should have checked bar out in place");
    assert_eq!(out.stderr, "✓ bar: checked out in place");
}

#[test]
fn top_jumps_to_the_tip() {
    let mut s = Scratch::new();
    s.stack_ab();
    let (a, b) = (s.wt("a"), s.wt("b"));
    s.tonic_in(&b, &["add", "c"]);
    let c = s.wt("c");
    s.commit_in(&c, "cc");
    let out = s.tonic_in(&a, &["top"]);
    assert!(out.ok, "{}", out.stderr);
    assert!(out.stdout.trim().ends_with("repo-c"), "top should reach the tip:\n{}", out.stdout);
}

#[test]
fn bottom_jumps_to_the_base() {
    let mut s = Scratch::new();
    s.stack_ab();
    let b = s.wt("b");
    s.tonic_in(&b, &["add", "c"]);
    let c = s.wt("c");
    s.commit_in(&c, "cc");
    let out = s.tonic_in(&c, &["bottom"]);
    assert!(out.ok, "{}", out.stderr);
    assert!(out.stdout.trim().ends_with("repo-a"), "bottom should reach the base:\n{}", out.stdout);
}

#[test]
fn up_at_the_tip_is_a_noop() {
    let mut s = Scratch::new();
    s.stack_ab();
    let b = s.wt("b");
    let out = s.tonic_in(&b, &["up"]);
    assert!(out.ok, "{}", out.stderr);
    assert!(out.stdout.trim().is_empty(), "no-op should not print a path");
    assert!(
        out.stderr.contains("top of the stack"),
        "expected an at-the-top message:\n{}",
        out.stderr
    );
}

#[test]
fn down_on_the_trunk_is_a_noop() {
    let mut s = Scratch::new();
    s.stack_ab();
    let out = s.tonic(&["down"]);
    assert!(out.ok, "{}", out.stderr);
    assert!(out.stdout.trim().is_empty(), "no-op should not print a path");
    assert!(out.stderr.contains("trunk"), "expected an on-the-trunk message:\n{}", out.stderr);
}

#[test]
fn up_with_tracked_changes_is_refused() {
    let mut s = Scratch::new();
    let foo = s.foo_with_bar();
    s.tree_mut(&foo).status.push(" M fc".to_string());
    let out = s.tonic_in(&foo, &["up"]);
    assert!(!out.ok, "in-place checkout should be refused with tracked changes");
    assert!(
        out.stderr.contains("tracked files"),
        "expected a tracked-changes error:\n{}",
        out.stderr
    );
    assert_eq!(s.head(&foo), "foo", "HEAD must be unchanged after a refused checkout");
}

#[test]
fn up_with_only_untracked_changes_is_allowed() {
    let mut s = Scratch::new();
    let foo = s.foo_with_bar();
    s.tree_mut(&foo).status.push("?? scratch".to_string());
    let out = s.tonic_in(&foo, &["up"]);
    assert!(out.ok, "untracked-only should not block checkout:\n{}", out.stderr);
    assert_eq!(s.head(&foo), "bar", "up should have checked bar out in place");
    assert_eq!(s.tree(&foo).unwrap().status, ["?? scratch"], "untracked file should carry across");
}

#[test]
fn detached_head_errors() {
    let mut s = Scratch::new();
    s.stack_ab();
    let b = s.wt("b");
    s.detach(&b);
    let out = s.tonic_in(&b, &["down"]);
    assert!(!out.ok, "navigation needs a branch checked out");
    assert!(out.stderr.contains("detached"), "expected a detached-HEAD error:\n{}", out.stderr);
}

#[test]
fn up_into_a_fork_errors_naming_the_children() {
    let mut s = Scratch::new();
    s.tonic(&["add", "a"]);
    let a = s.wt("a");
    s.commit_in(&a, "ac");
    for child in ["b", "c"] {
        s.branch_in(&a, child);
        s.switch_in(&a, child);
        s.commit_in(&a, &format!("{child}c"));
        s.switch_in(&a, "a");
    }
    let out = s.tonic_in(&a, &["up"]);
    assert!(!out.ok, "a fork should not silently pick a branch");
    assert!(out.stderr.contains("forks"), "expected a fork error:\n{}", out.stderr);
    assert!(
        out.stderr.contains('b') && out.stderr.contains('c'),
        "fork error should name the children:\n{}",
        out.stderr
    );
    assert_eq!(
        out.stderr,
        "'a' forks into b, c — pick one with `tonic cd <branch>` or `tonic add <branch>`"
    );
    let out = s.tonic(&["list"]).stdout;
    assert!(out.contains("main → * → [2]"), "a fork shows its width:\n{out}");
    let out = s.tonic_in(&a, &["top"]);
    assert_eq!(
        out.stderr,
        "stack forks at 'a' into b, c — navigate with `tonic cd`/`tonic add`"
    );
}

// ---------------------------------------------------------------------------
// rm, cd
// ---------------------------------------------------------------------------

#[test]
fn rm_auto_deletes_an_empty_branch() {
    let mut s = Scratch::new();
    s.tonic(&["add", "scratch"]);
    let out = s.tonic(&["rm", "scratch"]);
    assert!(out.ok, "{}", out.stderr);
    assert!(
        !s.branch_names().iter().any(|b| b == "scratch"),
        "an empty branch should be auto-deleted on rm:\n{:?}",
        s.branch_names()
    );
    assert_eq!(out.stderr, "✓ removed worktree: /scratch/repo-scratch");
}

#[test]
fn rm_keeps_a_branch_that_has_commits() {
    let mut s = Scratch::new();
    s.tonic(&["add", "work"]);
    s.commit_in(&s.wt("work"), "wc");
    let out = s.tonic(&["rm", "work"]);
    assert!(out.ok, "{}", out.stderr);
    assert!(
        s.branch_names().iter().any(|b| b == "work"),
        "a branch with commits must be kept (needs explicit -d):\n{:?}",
        s.branch_names()
    );
}

#[test]
fn rm_keeps_a_stacked_branch_with_no_own_commit() {
    let mut s = Scratch::new();
    s.tonic(&["add", "a"]);
    let a = s.wt("a");
    s.commit_in(&a, "ac");
    s.tonic_in(&a, &["add", "b"]);
    let out = s.tonic(&["rm", "b"]);
    assert!(out.ok, "{}", out.stderr);
    assert!(
        s.branch_names().iter().any(|b| b == "b"),
        "a stacked branch (commits beyond trunk) must be kept:\n{:?}",
        s.branch_names()
    );
}

#[test]
fn rm_removes_a_worktree() {
    let mut s = Scratch::new();
    s.tonic(&["add", "foo"]);
    assert!(s.has_tree(&s.wt("foo")));
    let out = s.tonic(&["rm", "foo", "-f"]);
    assert!(out.ok);
    assert!(!s.has_tree(&s.wt("foo")), "worktree not removed");
}

#[test]
fn rm_resolves_a_detached_worktree_by_name() {
    let mut s = Scratch::new();
    s.tonic(&["add", "foo"]);
    let foo = s.wt("foo");
    s.detach(&foo);
    let out = s.tonic(&["rm", "foo", "-f"]);
    assert!(out.ok, "rm couldn't resolve a detached worktree");
    assert!(!s.has_tree(&foo));
}

#[test]
fn rm_leaves_detached_worktrees_to_their_own_names() {
    let mut s = Scratch::new();
    s.tonic(&["add", "foo"]);
    let foo = s.wt("foo");
    s.detach(&foo);
    let out = s.tonic(&["rm", "detached"]);
    assert_eq!((out.ok, out.stderr.as_str()), (false, "no worktree found for 'detached'"));
    let out = s.tonic(&["add", "detached"]);
    assert!(out.ok, "{}", out.stderr);
    let out = s.tonic(&["cd", "detached"]);
    assert_eq!(out.stdout, "/scratch/repo-detached");
    let out = s.tonic(&["rm", "detached"]);
    assert!(out.ok && s.has_tree(&foo) && !s.has_tree("/scratch/repo-detached"));
}

#[test]
fn cd_prints_the_worktree_path() {
    let mut s = Scratch::new();
    s.tonic(&["add", "foo"]);
    let out = s.tonic(&["cd", "foo"]);
    assert!(out.ok);
    assert!(
        out.stdout.trim().ends_with("repo-foo"),
        "cd printed unexpected path:\n{}",
        out.stdout
    );
}

#[test]
fn rm_of_the_current_worktree_prints_a_fallback_path() {
    let mut s = Scratch::new();
    s.tonic(&["add", "foo"]);
    let foo = s.wt("foo");
    let out = s.tonic_in(&foo, &["rm", "foo", "-f"]);
    assert!(out.ok);
    assert!(!out.stdout.trim().is_empty(), "no fallback path printed");
    assert!(
        out.stdout.contains("repo"),
        "fallback should be the main worktree:\n{}",
        out.stdout
    );
    assert_eq!(out.stdout, REPO);
}

// ---------------------------------------------------------------------------
// Laws, on a stack of three
// ---------------------------------------------------------------------------

#[test]
fn the_trunk_is_never_cleared_away() {
    let mut s = Scratch::new();
    s.switch_in(REPO, "main");
    s.branch_in(REPO, "other");
    s.switch_in(REPO, "other");
    s.tonic(&["add", "main"]);
    let out = s.tonic(&["rm", "main"]);
    assert!(out.ok, "{}", out.stderr);
    assert!(s.branch_names().contains(&"main".to_string()));
}

#[test]
fn down_undoes_up() {
    let mut s = Scratch::new();
    s.stack_ab();
    let a = s.wt("a");
    let up = s.tonic_in(&a, &["up"]).stdout;
    let down = s.tonic_in(&up, &["down"]).stdout;
    assert_eq!(down, a);
}

#[test]
fn top_is_up_repeated() {
    let mut s = Scratch::new();
    s.stack_ab();
    let (a, b) = (s.wt("a"), s.wt("b"));
    s.tonic_in(&b, &["add", "c"]);
    let c = s.wt("c");
    s.commit_in(&c, "cc");
    let once = s.tonic_in(&a, &["up"]).stdout;
    let twice = s.tonic_in(&once, &["up"]).stdout;
    assert_eq!(twice, s.tonic_in(&a, &["top"]).stdout);
    let out = s.tonic_in(&twice, &["top"]);
    assert_eq!((out.stdout.as_str(), out.stderr.as_str()), ("", "already at the top of the stack"));
    let out = s.tonic_in(&a, &["bottom"]);
    assert_eq!(
        (out.stdout.as_str(), out.stderr.as_str()),
        ("", "already at the bottom of the stack")
    );
}

#[test]
fn the_layout_is_the_same_from_every_worktree() {
    let mut s = Scratch::new();
    s.tonic(&["add", "a"]);
    let a = s.wt("a");
    let out = s.tonic_in(&a, &["add", "b"]);
    assert_eq!(out.stdout, "/scratch/repo-b");
    let list = s.tonic_in(&a, &["list"]).stdout;
    assert_eq!(list, "  main  repo\n▸ a     repo-a\n  b     repo-b\n");
}

#[test]
fn cd_fails_without_a_worktree() {
    let mut s = Scratch::new();
    let out = s.tonic(&["cd", "nope"]);
    assert!(!out.ok);
    assert_eq!(out.stderr, "no worktree found for 'nope'");
}

#[test]
fn add_fails_where_something_is() {
    let mut s = Scratch::new();
    s.tonic(&["add", "a/b"]);
    let out = s.tonic(&["add", "a-b"]);
    assert_eq!(out.stderr, "worktree path already exists: /scratch/repo-a-b");
}
