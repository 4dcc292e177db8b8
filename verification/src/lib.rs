//! Tracks pull requests gathered from several named searches: merges the
//! results into one list without duplicates, remembers what the user has
//! seen, and derives what to show.

pub mod actions;
pub mod config;
pub mod display;
pub mod error;
pub mod fzf;
pub mod gh;
pub mod paint;
pub mod storage;
pub mod sync;
pub mod text;
pub mod util;
pub mod xbar;
