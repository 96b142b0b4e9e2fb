//! Verified core of a terminal browser for `git stash` entries.
pub mod text;
pub mod git;
pub mod app;
pub mod ui;
pub mod event;
pub mod laws;
