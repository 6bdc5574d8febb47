use vstd::prelude::*;

verus! {

/// Every way a merge can fail, each with what a user needs to diagnose it.
#[derive(Debug, Clone)]
pub enum MergeError {
    /// No input archive was given.
    NoInputs,
    /// Symbols to keep and symbols to remove were both given.
    ConflictingSymbolPolicies,
    /// An input could not be read as a static archive.
    ArchiveReadError { path: String, reason: String },
    /// A symbol pattern is not a valid regular expression.
    InvalidPattern { pattern: String },
    /// A tool executable could not be started at all.
    ExternalToolLaunchError { tool: String, inner: String },
    /// A tool ran and reported failure.
    ExternalToolError {
        reason: String,
        tool: String,
        args: Vec<String>,
        stdout: String,
        stderr: String,
    },
}

} // verus!
