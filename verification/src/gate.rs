//! The concurrency gate: a counting semaphore that admits at most a fixed
//! number of concurrently outstanding operations.
//!
//! This token pool is the single mechanism enforcing the concurrency bound. An
//! operation may not start before acquiring a token, and must give its token
//! back — on every exit path — before the runner considers it finished.

use vstd::prelude::*;
use crate::outcome::RunnerError;

verus! {

/// A pool of concurrency tokens with a capacity fixed at construction.
///
/// `held` counts the tokens currently handed out; it never exceeds the
/// capacity, which is the concurrency bound of the whole run.
pub struct Gate {
    capacity: usize,
    held: usize,
}

impl Gate {
    /// The number of tokens this gate was created with.
    pub closed spec fn capacity(&self) -> int {
        self.capacity as int
    }

    /// The number of tokens currently handed out to operations.
    pub closed spec fn held(&self) -> int {
        self.held as int
    }

    /// Well-formedness: the tokens handed out never exceed the capacity.
    pub open spec fn wf(&self) -> bool {
        0 <= self.held() <= self.capacity()
    }

    /// Creates a gate with `n` tokens, all available. A bound of zero is a
    /// configuration error: it would admit no operation at all, so it is
    /// rejected at once rather than left to deadlock.
    pub fn new(n: usize) -> (r: Result<Gate, RunnerError>)
        ensures
            n == 0 <==> r is Err,
            r matches Err(e) ==> e == RunnerError::InvalidConcurrency,
            r matches Ok(g) ==> g.wf() && g.capacity() == n && g.held() == 0,
    {
        if n == 0 {
            Err(RunnerError::InvalidConcurrency)
        } else {
            Ok(Gate { capacity: n, held: 0 })
        }
    }

    /// Tries to take one token. Succeeds exactly when a token is available;
    /// a failed attempt changes nothing. Suspension-until-available belongs
    /// to the execution substrate: callers retry after a completion returns
    /// a token.
    pub fn try_acquire(&mut self) -> (ok: bool)
        requires
            old(self).wf(),
        ensures
            final(self).wf(),
            final(self).capacity() == old(self).capacity(),
            ok == (old(self).held() < old(self).capacity()),
            ok ==> final(self).held() == old(self).held() + 1,
            !ok ==> final(self).held() == old(self).held(),
    {
        if self.held < self.capacity {
            self.held = self.held + 1;
            true
        } else {
            false
        }
    }

    /// Returns one token to the pool. Every operation that acquired a token
    /// must call this exactly once, whether its outcome was a success or a
    /// failure.
    pub fn release(&mut self)
        requires
            old(self).wf(),
            old(self).held() >= 1,
        ensures
            final(self).wf(),
            final(self).capacity() == old(self).capacity(),
            final(self).held() == old(self).held() - 1,
    {
        self.held = self.held - 1;
    }

    /// The number of tokens still available.
    pub fn available(&self) -> (r: usize)
        requires
            self.wf(),
        ensures
            r == self.capacity() - self.held(),
    {
        self.capacity - self.held
    }

    /// The number of tokens currently handed out.
    pub fn occupied(&self) -> (r: usize)
        ensures
            r == self.held(),
    {
        self.held
    }
}

} // verus!
