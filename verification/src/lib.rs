//! `tonic`, a git worktree companion: the decisions.
//!
//! The crate decides where worktrees lie, which branch a name means, how branches are
//! stacked, and what to run and print; it runs nothing itself. A function that needs
//! to know something hands the question back, and is called again with the answer
//! (see [`git`]). Its contract says what it returns for all answers.

pub mod config;
pub mod config_laws;
pub mod create;
pub mod deed_laws;
pub mod display;
pub mod error;
pub mod git;
pub mod hooks;
pub mod laws;
pub mod list;
pub mod list_laws;
pub mod lossless;
pub mod nav;
pub mod path;
pub mod path_laws;
pub mod porcelain;
pub mod reading_laws;
pub mod remove;
pub mod repo;
pub mod repo_laws;
pub mod report;
pub mod shell;
pub mod stack;
pub mod stack_laws;
pub mod steady;
pub mod style;
pub mod template;
pub mod text;
pub mod transfer;
