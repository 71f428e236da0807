//! The configuration: what a file can set, and how files are put together.

use crate::path;
use crate::path::join;
use crate::template;
use crate::template::render;
use crate::text::{empty_list, grow, same, Text};
use vstd::prelude::*;

verus! {

/// How an included file gets into a new worktree.
#[derive(Clone, Copy, PartialEq, Eq, Structural, Debug)]
pub enum Mode {
    Copy,
    Symlink,
}

/// The transfer mode of one pattern of `.worktreeinclude`.
pub struct Include<S = String> {
    pub pattern: S,
    pub mode: Mode,
}

/// A command to run at an event.
pub struct Hook<S = String> {
    pub event: S,
    pub run: S,
}

impl DeepView for Include<String> {
    type V = Include<Text>;

    open spec fn deep_view(&self) -> Include<Text> {
        Include { pattern: self.pattern@, mode: self.mode }
    }
}

impl DeepView for Hook<String> {
    type V = Hook<Text>;

    open spec fn deep_view(&self) -> Hook<Text> {
        Hook { event: self.event@, run: self.run@ }
    }
}

/// What one file sets, or several together.
pub struct Config<S = String, I = Vec<Include>, H = Vec<Hook>> {
    /// Path template of new worktrees, resolved against the directory in which the
    /// repository's worktrees lie. Placeholders: `{repo}`, `{branch}`.
    pub worktree_path: Option<S>,
    /// Where a new branch starts if the command does not say.
    pub base: Option<S>,
    /// Fetch before a branch that is not local is looked for on remotes.
    pub fetch: Option<bool>,
    /// The repository's trunk.
    pub default_branch: Option<S>,
    /// Transfer modes of patterns in `.worktreeinclude`.
    pub includes: Option<I>,
    /// Commands to run when a worktree is created or removed.
    pub hooks: Option<H>,
}

/// The value of a configuration.
pub type ConfigModel = Config<Text, Seq<Include<Text>>, Seq<Hook<Text>>>;

impl DeepView for Config<String, Vec<Include>, Vec<Hook>> {
    type V = ConfigModel;

    open spec fn deep_view(&self) -> ConfigModel {
        Config {
            worktree_path: self.worktree_path.deep_view(),
            base: self.base.deep_view(),
            fetch: self.fetch,
            default_branch: self.default_branch.deep_view(),
            includes: self.includes.deep_view(),
            hooks: self.hooks.deep_view(),
        }
    }
}

/// The configuration that sets nothing.
pub open spec fn unset() -> ConfigModel {
    Config {
        worktree_path: None,
        base: None,
        fetch: None,
        default_branch: None,
        includes: None,
        hooks: None,
    }
}

/// The setting `high` if there is one, else `low`.
pub open spec fn over<T>(low: Option<T>, high: Option<T>) -> Option<T> {
    if high is Some {
        high
    } else {
        low
    }
}

/// `low` with each key that `high` sets replaced by what `high` sets it to.
pub open spec fn overlaid(low: ConfigModel, high: ConfigModel) -> ConfigModel {
    Config {
        worktree_path: over(low.worktree_path, high.worktree_path),
        base: over(low.base, high.base),
        fetch: over(low.fetch, high.fetch),
        default_branch: over(low.default_branch, high.default_branch),
        includes: over(low.includes, high.includes),
        hooks: over(low.hooks, high.hooks),
    }
}

/// The configuration that `layers` make together, the lowest first.
pub open spec fn layered(layers: Seq<ConfigModel>) -> ConfigModel
    decreases layers.len(),
{
    if layers.len() == 0 {
        unset()
    } else {
        overlaid(layered(layers.drop_last()), layers.last())
    }
}

/// The mode of the first entry for exactly `pattern`; `Copy` if there is none.
pub open spec fn mode_of(includes: Seq<Include<Text>>, pattern: Text) -> Mode
    decreases includes.len(),
{
    if includes.len() == 0 {
        Mode::Copy
    } else if includes[0].pattern == pattern {
        includes[0].mode
    } else {
        mode_of(includes.drop_first(), pattern)
    }
}

/// The commands of the hooks for `event`, in order, with the variables filled in.
pub open spec fn commands(hooks: Seq<Hook<Text>>, event: Text, vars: Seq<(Text, Text)>) -> Seq<Text>
    decreases hooks.len(),
{
    if hooks.len() == 0 {
        Seq::empty()
    } else if hooks[0].event == event {
        seq![template::rendered(hooks[0].run, vars)] + commands(hooks.drop_first(), event, vars)
    } else {
        commands(hooks.drop_first(), event, vars)
    }
}

/// The list that a key sets, empty if it is not set.
pub open spec fn listed<T>(key: Option<Seq<T>>) -> Seq<T> {
    match key {
        Some(list) => list,
        None => Seq::empty(),
    }
}

/// The files that may configure a repository, the lowest in priority first: the
/// user's, the one in the working tree, the one in the git directory.
pub open spec fn config_files(
    user_dir: Option<Text>,
    root: Option<Text>,
    git_dir: Text,
) -> Seq<Text> {
    let user = match user_dir {
        Some(dir) => seq![path::joined_path(dir, "tonic/config.toml"@)],
        None => Seq::empty(),
    };
    let shared = match root {
        Some(dir) => seq![path::joined_path(dir, "tonic.toml"@)],
        None => Seq::empty(),
    };
    user + shared + seq![path::joined_path(git_dir, "tonic.toml"@)]
}

impl Default for Config<String, Vec<Include>, Vec<Hook>> {
    fn default() -> (r: Self)
        ensures
            r.deep_view() == unset(),
    {
        Config {
            worktree_path: None,
            base: None,
            fetch: None,
            default_branch: None,
            includes: None,
            hooks: None,
        }
    }
}

impl Config<String, Vec<Include>, Vec<Hook>> {
    /// Lets every key that `higher` sets replace this configuration's.
    pub fn merge(&mut self, higher: Config)
        ensures
            final(self).deep_view() == overlaid(old(self).deep_view(), higher.deep_view()),
    {
        if higher.worktree_path.is_some() {
            self.worktree_path = higher.worktree_path;
        }
        if higher.base.is_some() {
            self.base = higher.base;
        }
        if higher.fetch.is_some() {
            self.fetch = higher.fetch;
        }
        if higher.default_branch.is_some() {
            self.default_branch = higher.default_branch;
        }
        if higher.includes.is_some() {
            self.includes = higher.includes;
        }
        if higher.hooks.is_some() {
            self.hooks = higher.hooks;
        }
    }

    /// The configuration that the files' contents make together, the lowest in
    /// priority first.
    pub fn load(layers: Vec<Config>) -> (r: Config)
        ensures
            r.deep_view() == layered(layers.deep_view()),
    {
        let ghost all = layers.deep_view();
        let mut rest = layers;
        let mut cfg: Config = Config::default();
        let ghost mut done: int = 0;
        assert(all.take(0) =~= Seq::<ConfigModel>::empty());
        assert(all.skip(0) =~= all);
        while rest.len() > 0
            invariant
                0 <= done <= all.len(),
                rest.deep_view() == all.skip(done),
                cfg.deep_view() == layered(all.take(done)),
            decreases rest.len(),
        {
            let ghost before = rest.deep_view();
            let next = rest.remove(0);
            proof {
                assert(rest.deep_view() =~= before.drop_first());
                assert(before.drop_first() =~= all.skip(done + 1));
                assert(before[0] == all[done]);
                assert(next.deep_view() == before[0]);
                assert(all.take(done + 1).drop_last() =~= all.take(done));
                done = done + 1;
            }
            cfg.merge(next);
        }
        assert(all.skip(done).len() == 0);
        assert(all.take(done) =~= all);
        cfg
    }

    /// The files that may configure a repository, the lowest in priority first.
    pub fn files(user_dir: Option<&str>, root: &Option<String>, git_dir: &str) -> (r: Vec<String>)
        ensures
            r.deep_view() == config_files(user_dir.deep_view(), root.deep_view(), git_dir@),
    {
        let mut out: Vec<String> = empty_list();
        if let Some(dir) = user_dir {
            grow(&mut out, join(dir, "tonic/config.toml"));
        }
        let ghost user = match user_dir.deep_view() {
            Some(dir) => seq![path::joined_path(dir, "tonic/config.toml"@)],
            None => Seq::empty(),
        };
        assert(out.deep_view() =~= user);
        if let Some(dir) = root {
            grow(&mut out, join(dir.as_str(), "tonic.toml"));
        }
        grow(&mut out, join(git_dir, "tonic.toml"));
        assert(out.deep_view() =~= config_files(user_dir.deep_view(), root.deep_view(), git_dir@));
        out
    }

    /// The transfer mode of `pattern`.
    pub fn mode_for(&self, pattern: &str) -> (r: Mode)
        ensures
            r == mode_of(listed(self.deep_view().includes), pattern@),
    {
        match &self.includes {
            Some(list) => {
                let ghost all = list.deep_view();
                let mut i: usize = 0;
                assert(all.skip(0) =~= all);
                while i < list.len()
                    invariant
                        i <= list.len(),
                        all == list.deep_view(),
                        all == listed(self.deep_view().includes),
                        mode_of(all.skip(i as int), pattern@) == mode_of(all, pattern@),
                    decreases list.len() - i,
                {
                    let ghost rest = all.skip(i as int);
                    assert(rest[0] == list@[i as int].deep_view());
                    if same(list[i].pattern.as_str(), pattern) {
                        return list[i].mode;
                    }
                    assert(rest.drop_first() =~= all.skip(i + 1));
                    i += 1;
                }
                Mode::Copy
            },
            None => Mode::Copy,
        }
    }

    /// The commands to run at `event`, in order.
    pub fn hook_commands(&self, event: &str, vars: &[(&str, &str)]) -> (r: Vec<String>)
        ensures
            r.deep_view() == commands(
                listed(self.deep_view().hooks),
                event@,
                template::bindings(vars@),
            ),
    {
        let mut out: Vec<String> = empty_list();
        match &self.hooks {
            Some(list) => {
                let ghost all = list.deep_view();
                let ghost values = template::bindings(vars@);
                let mut i: usize = 0;
                assert(all.skip(0) =~= all);
                assert(out.deep_view() + commands(all, event@, values) =~= commands(
                    all,
                    event@,
                    values,
                ));
                while i < list.len()
                    invariant
                        i <= list.len(),
                        all == list.deep_view(),
                        values == template::bindings(vars@),
                        out.deep_view() + commands(all.skip(i as int), event@, values) == commands(
                            all,
                            event@,
                            values,
                        ),
                    decreases list.len() - i,
                {
                    let ghost rest = all.skip(i as int);
                    let ghost before = out.deep_view();
                    assert(rest[0] == list@[i as int].deep_view());
                    assert(rest.drop_first() =~= all.skip(i + 1));
                    if same(list[i].event.as_str(), event) {
                        let command = render(list[i].run.as_str(), vars);
                        let ghost tail = commands(all.skip(i + 1), event@, values);
                        assert(before.push(command@) + tail =~= before + (seq![command@] + tail));
                        grow(&mut out, command);
                    }
                    i += 1;
                }
                assert(out.deep_view() + Seq::<Text>::empty() =~= out.deep_view());
            },
            None => {},
        }
        out
    }
}

} // verus!
