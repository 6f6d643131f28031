//! The errors of the library.
use vstd::prelude::*;

verus! {

/// Errors reported while reading or analysing a Delta table.
#[derive(Debug)]
pub enum DeltaLensError {
    /// The path holds no `_delta_log` directory.
    NotADeltaTable(String),
    /// An I/O failure, with its message.
    Io(String),
    /// A line of a commit file that could not be parsed.
    ParseError { path: String, line: usize, message: String },
    /// The requested version is beyond the latest one in the log.
    VersionNotFound(u64),
    /// The first version of a range is greater than the second.
    InvalidVersionRange(u64, u64),
    /// A JSON deserialization failure, with its message.
    Json(String),
    /// The log holds no commits.
    EmptyTable,
    /// A storage-level failure, with its message.
    Storage(String),
}

} // verus!
