//! herdr-branch-cleanup: return panes to the default branch when theirs is gone.
//!
//! The decision logic, the parsing of what `git`, `gh` and `herdr` print, and
//! the composition of one sweep are verified here; spawning processes,
//! reading files and the clock live in the application crate.

pub mod json;
pub mod text;
pub mod policy;
pub mod procio;
pub mod gitio;
pub mod herdrio;
pub mod sweep;
pub mod board;
pub mod cli;
pub mod daemon;
