//! Local Git worktree discovery, as a verified core without input or output.

pub mod discovery;
pub mod error;
pub mod filesystem;
pub mod gitfile;
pub mod laws;
pub mod path;
pub mod text;
pub mod worktree;
