//! Why a run was given up before anything was changed.

use vstd::prelude::*;

verus! {

/// Why a run was given up before anything was changed.
#[derive(Debug, PartialEq, Clone)]
pub enum RunError {
    /// GitHub could not be listed in full. It carries the error of the page
    /// that failed.
    RemoteUnavailable(String),
    /// Two repositories that the company keeps go by one name. It carries
    /// the name.
    IntegrityViolation(String),
    /// A repository that GitHub listed cannot be recorded: a count does not
    /// fit, or a date does not read. It carries the repository's name.
    Unrecordable(String),
}

} // verus!
