//! Bounded-concurrency task execution.
//!
//! Given an ordered batch of work, each unit of which will deliver one
//! [`Outcome`], and a concurrency bound `n`, the runners in this crate drive
//! every unit through a [`Gate`] that keeps at most `n` operations in flight
//! at any instant, and collect the results under one of two disciplines:
//! *unordered* (results in completion order) or *ordered* (results in input
//! order, whatever the completion order was). Either discipline can feed a
//! collection directly or pass each result through a caller-supplied
//! callback first.
//!
//! Completion order is not chosen by this crate: the runners take it as an
//! explicit schedule, so every claim proved here holds for every possible
//! interleaving of completions that a concurrent execution substrate could
//! produce.

pub mod gate;
pub mod laws;
pub mod outcome;
pub mod runner;
pub mod sink;

pub use gate::Gate;
pub use outcome::Outcome;
pub use outcome::RunnerError;
pub use runner::RunReport;
