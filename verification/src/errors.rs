//! Error kinds surfaced by the archive engine.

use vstd::prelude::*;

verus! {

/// Why a delegated search run failed.
#[derive(Clone, Copy, Debug, PartialEq, Eq, Structural)]
pub enum SearchFailure {
    /// The external search process exceeded its wall-clock budget.
    Timeout,
    /// The external search process exited with an unexpected status.
    ProcessError,
    /// The external search process could not be started at all.
    SpawnError,
}

/// Error kinds produced by the archive engine or by the I/O shell around it.
#[derive(Clone, Debug)]
pub enum ArchiveError {
    /// A channel directory or log file does not exist.
    NotFound,
    /// A transcript line or a date slug does not match its grammar; carries
    /// the offending text.
    ParseError(String),
    /// An underlying read failed; carries a description.
    IoError(String),
    /// The delegated search run failed.
    SearchFailed(SearchFailure),
}

} // verus!

verus! {

/// `e` is a `SearchFailed` carrying exactly the failure `f`.
pub open spec fn is_search_failed(e: ArchiveError, f: SearchFailure) -> bool {
    match e {
        ArchiveError::SearchFailed(x) => x == f,
        _ => false,
    }
}

/// `e` is a `ParseError` carrying exactly the text `t`.
pub open spec fn is_parse_error(e: ArchiveError, t: Seq<char>) -> bool {
    match e {
        ArchiveError::ParseError(x) => x@ == t,
        _ => false,
    }
}

} // verus!
