//! Project discovery naming, worktree planning and command-line grammar
//! for a git worktree navigator.

pub mod text;
pub mod path;
pub mod pretty;
pub mod suffix_laws;
pub mod session;
pub mod worktree;
pub mod config;
pub mod cli;
pub mod flow;
