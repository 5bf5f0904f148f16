//! Isolated development stacks, one per git worktree.
//!
//! The library holds the rules: what a manifest may say, which ports a worktree gets, which
//! environment a service runs with, what a repository's files say about how it is run, and how
//! answers become manifest text. Reading files, running processes and probing ports is left to
//! the program around it.

pub mod bootstrap;
pub mod cli;
pub mod compose;
pub mod config;
pub mod ctx;
pub mod dict;
pub mod discover;
pub mod doctor;
pub mod dryrun;
pub mod env;
pub mod health;
pub mod init;
pub mod laws;
pub mod lists;
pub mod loading;
pub mod manifest;
pub mod paths;
pub mod ports;
pub mod progress;
pub mod repo;
pub mod run;
pub mod slug;
pub mod sweeping;
pub mod text;
pub mod update;
pub mod value;
pub mod wiring;
pub mod worktrees;
