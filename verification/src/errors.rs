//! The error taxonomy of the command and transaction layer.

use vstd::prelude::*;

verus! {

/// The failures a command or the unit of work can report.
///
/// A validation or not-found error is raised before any side effect. A
/// backend error stands for a store or broker transport failure. A partial
/// commit failure reports that the transaction committed durably while one
/// or more staged events failed to publish; the data change stays in effect.
#[derive(Debug, PartialEq, Eq)]
pub enum AppError {
    ValidationError { message: String },
    NotFound { id: String },
    BackendError { message: String },
    CommitPartialFailure { attempted: usize, failed: usize },
}

} // verus!
