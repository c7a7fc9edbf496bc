//! Samskara, the pure datalog agent: the logic behind its world database,
//! proved with Verus. Commit types and the parsing of `jj` output, the
//! scripts that store commits, diffs and thoughts, the escaping of text for
//! CozoScript, and the reading of the database's JSON answers.

pub mod boot;
pub mod clone_manager;
pub mod digest;
pub mod editor;
pub mod jj_mirror;
pub mod json;
pub mod mcp;
pub mod rpc;
pub mod text;
pub mod vcs;
