//! The typed failures that value-producing queries surface.  Boolean
//! predicates never fail; they collapse every failure mode to `false`.

use vstd::prelude::*;

verus! {

/// A failure surfaced to the caller.  Converting a failure into a process
/// exit code or a diagnostic message is the calling layer's business.
#[derive(Debug, PartialEq, Eq)]
pub enum Error {
    /// The queried path is not inside a repository.
    NotARepository,
    /// No upstream tracking ref is configured for the current branch.
    NoUpstreamBranch,
    /// The version-control subprocess could not be run, or its output was
    /// not valid text.
    GitQueryFailed,
    /// The given string holds characters outside the shell allow-list; the
    /// offending input is carried along.
    UnsafeShellInput(String),
}

} // verus!
