//! Per-operation results and runner-level errors.

use vstd::prelude::*;

verus! {

/// The result of one work operation: either a success payload or a failure
/// payload. A failure outcome is ordinary data — it is delivered through the
/// same path as a success and never aborts sibling operations.
#[derive(Clone, Debug, PartialEq, Eq)]
pub enum Outcome<T, E> {
    Success(T),
    Failure(E),
}

impl<T, E> Outcome<T, E> {
    /// True when this outcome carries a success payload.
    pub fn is_success(&self) -> (r: bool)
        ensures
            r == (self is Success),
    {
        match self {
            Outcome::Success(_) => true,
            Outcome::Failure(_) => false,
        }
    }

    /// True when this outcome carries a failure payload.
    pub fn is_failure(&self) -> (r: bool)
        ensures
            r == (self is Failure),
    {
        match self {
            Outcome::Success(_) => false,
            Outcome::Failure(_) => true,
        }
    }
}

/// A call-level fault of a runner. Per-item failures are not faults: they
/// travel as [`Outcome::Failure`] values. A runner as a whole fails only on a
/// bad configuration or on a failure of the scheduling substrate itself.
#[derive(Clone, Copy, Debug, PartialEq, Eq, Structural)]
pub enum RunnerError {
    /// The concurrency bound was zero: no operation could ever be admitted,
    /// so the run is rejected before any operation starts.
    InvalidConcurrency,
    /// The scheduling substrate failed; in-flight work is abandoned rather
    /// than silently swallowed. The verified engine never raises this: it is
    /// reserved for asynchronous execution substrates layered on top.
    SubstrateFailure,
}

impl RunnerError {
    /// A short description of the fault.
    pub fn describe(&self) -> String {
        match self {
            RunnerError::InvalidConcurrency => "concurrency bound must be at least 1".to_string(),
            RunnerError::SubstrateFailure => "scheduling substrate failed".to_string(),
        }
    }
}

} // verus!
