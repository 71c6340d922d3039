//! Commit-graph construction and layout for a Git client.
//!
//! The library turns an ordered window of commit records into a
//! render-ready layout: a column (lane), row and color per commit, and a
//! classified edge per parent relationship.

pub mod branch;
pub mod conflict;
pub mod diff;
pub mod graph;
pub mod graph_laws;
pub mod i18n;
pub mod idmap;
pub mod remote;
pub mod repository;
pub mod search;
pub mod stash;
pub mod status;
pub mod tag;
pub mod text;
pub mod walk;

// The crate root only gathers the modules.
