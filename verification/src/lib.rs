//! Change-set resolution and path-boundary engine for a developer-workflow
//! CLI: locating repository and package roots, computing deduplicated sets of
//! changed files across comparison scopes, filtering path lists by suffix,
//! and validating/escaping untrusted strings bound for a subprocess shell.

pub mod text;
pub mod fileset;
pub mod errors;
pub mod shell;
pub mod git;
pub mod dart;
pub mod files;
