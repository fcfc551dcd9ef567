//! Lists of threads blocked on some condition.
//!
//! Blocking is not implemented yet: blocking only evaluates the condition
//! and returns, which callers must treat as a spurious wakeup.

use vstd::prelude::*;

use crate::errno::EResult;

verus! {

/// Time in microseconds.
pub type Micros = u64;

/// Helper struct used to construct types that block threads.
#[derive(Debug)]
pub struct Waitlist {
    marker: (),
}

impl Waitlist {
    /// An empty wait list.
    pub fn new() -> (r: Self) {
        Waitlist { marker: () }
    }

    /// Block on this list if a condition is met.
    /// May spuriously return early.
    pub fn unintr_block<F: FnOnce() -> bool>(&self, timeout: Micros, condition: F)
        requires
            condition.requires(()),
    {
        let _ = condition();
        let _ = timeout;
    }

    /// Block on this list if a condition is met.
    /// May spuriously return early, or return [`crate::errno::Errno::EINTR`] if the thread was signalled.
    pub fn block<F: FnOnce() -> bool>(&self, timeout: Micros, condition: F) -> (r: EResult<()>)
        requires
            condition.requires(()),
        ensures
            r is Ok,
    {
        let _ = condition();
        let _ = timeout;
        Ok(())
    }

    /// Notify at least one thread on this list.
    pub fn notify(&self) {
    }

    /// Notify all threads on this list.
    pub fn notify_all(&self) {
    }
}

} // verus!
