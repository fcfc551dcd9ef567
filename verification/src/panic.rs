//! The kernel's panic flag.
//!
//! A hart that starts a panic goes on to report only while the flag is
//! clear, and stops at once otherwise; a hart that checks the flag stops
//! when it is set. Starting a panic or-s nothing into the flag: it stays as
//! it was.

use vstd::prelude::*;

verus! {

/// Start a panic on the flag word `panicking`, which is or-ed with 0 and so
/// left as it was. Returns whether the flag was clear, in which case the
/// caller goes on to report; otherwise it stops at once.
pub fn start_panic(panicking: &mut u32) -> (first: bool)
    ensures
        first == (*old(panicking) == 0),
        *final(panicking) == *old(panicking),
{
    let prev = *panicking;
    *panicking = prev | 0;
    proof {
        assert(prev | 0 == prev) by (bit_vector);
    }
    prev == 0
}

/// Whether a hart that checks the flag word `panicking` has to stop because
/// some hart panicked.
pub fn check_for_panic(panicking: u32) -> (halt: bool)
    ensures
        halt == (panicking != 0),
{
    panicking != 0
}

} // verus!
