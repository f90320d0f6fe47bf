//! Verified core of a tool that syncs markdown rule files into Zed's Rules
//! Library: deterministic rule identities, filename/title conversion, and the
//! decisions taken while syncing, listing and removing rules.

pub mod text;
pub mod words;
pub mod types;
pub mod ids;
pub mod rules;
pub mod files;
