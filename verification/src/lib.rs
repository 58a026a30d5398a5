//! Core engine of a developer terminal: a VT screen model, the decision logic
//! of an SSH client session, a commit-graph layout engine and small helpers
//! for credentials and directory listings.
//!
//! Everything here is plain computation with machine-checked contracts. The
//! process, socket and file-system work that surrounds it is left to the
//! embedding application.

pub mod crypto;
pub mod git_graph;
pub mod text;
pub mod rows;
pub mod terminal;
pub mod ssh;
pub mod listing;
pub mod search;
