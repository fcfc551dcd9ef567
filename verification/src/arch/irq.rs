//! Enabling and disabling interrupts, over the value of the `sstatus`
//! register: each function reads the register's value and gives the value
//! to write back.

use vstd::prelude::*;

use crate::arch::csr::SIE_MASK;

verus! {

/// Whether `sstatus` enables interrupts.
pub open spec fn sie(sstatus: usize) -> bool {
    sstatus & 0x2 != 0
}

/// Check whether interrupts are enabled.
pub fn is_enabled(sstatus: usize) -> (r: bool)
    ensures
        r == sie(sstatus),
{
    sstatus & SIE_MASK != 0
}

/// Disable interrupts if `cond` holds, and tell whether they were enabled
/// before. Only the enable bit changes.
pub fn disable_if(sstatus: &mut usize, cond: bool) -> (r: bool)
    ensures
        r == sie(*old(sstatus)),
        sie(*final(sstatus)) == (sie(*old(sstatus)) && !cond),
        *final(sstatus) & !0x2usize == *old(sstatus) & !0x2usize,
{
    let mask: usize = if cond { SIE_MASK } else { 0 };
    let before = *sstatus;
    *sstatus = before & !mask;
    proof {
        assert((before & !mask) & 0x2 != 0 <==> (before & 0x2 != 0 && mask == 0)) by (bit_vector)
            requires
                mask == 0 || mask == 0x2,
        ;
        assert((before & !mask) & !0x2usize == before & !0x2usize) by (bit_vector)
            requires
                mask == 0 || mask == 0x2,
        ;
    }
    before & SIE_MASK != 0
}

/// Enable interrupts if `cond` holds. Only the enable bit changes.
pub fn enable_if(sstatus: &mut usize, cond: bool)
    ensures
        sie(*final(sstatus)) == (sie(*old(sstatus)) || cond),
        *final(sstatus) & !0x2usize == *old(sstatus) & !0x2usize,
{
    let mask: usize = if cond { SIE_MASK } else { 0 };
    let before = *sstatus;
    *sstatus = before | mask;
    proof {
        assert((before | mask) & 0x2 != 0 <==> (before & 0x2 != 0 || mask == 0x2)) by (bit_vector)
            requires
                mask == 0 || mask == 0x2,
        ;
        assert((before | mask) & !0x2usize == before & !0x2usize) by (bit_vector)
            requires
                mask == 0 || mask == 0x2,
        ;
    }
}

/// Disable interrupts, and tell whether they were enabled.
pub fn disable(sstatus: &mut usize) -> (r: bool)
    ensures
        r == sie(*old(sstatus)),
        !sie(*final(sstatus)),
        *final(sstatus) & !0x2usize == *old(sstatus) & !0x2usize,
{
    disable_if(sstatus, true)
}

/// Enable interrupts.
pub fn enable(sstatus: &mut usize)
    ensures
        sie(*final(sstatus)),
        *final(sstatus) & !0x2usize == *old(sstatus) & !0x2usize,
{
    enable_if(sstatus, true)
}

/// Guard that disables interrupts momentarily.
pub struct IrqGuard {
    was_enabled: bool,
}

impl IrqGuard {
    /// Whether interrupts were enabled when the guard was taken.
    pub closed spec fn enabled_before(&self) -> bool {
        self.was_enabled
    }

    /// Disable interrupts, remembering whether they were enabled.
    pub fn new(sstatus: &mut usize) -> (r: Self)
        ensures
            r.enabled_before() == sie(*old(sstatus)),
            !sie(*final(sstatus)),
            *final(sstatus) & !0x2usize == *old(sstatus) & !0x2usize,
    {
        IrqGuard { was_enabled: disable(sstatus) }
    }

    /// Give the guard up: interrupts are enabled again if they were when it
    /// was taken.
    pub fn release(self, sstatus: &mut usize)
        ensures
            sie(*final(sstatus)) == (sie(*old(sstatus)) || self.enabled_before()),
            *final(sstatus) & !0x2usize == *old(sstatus) & !0x2usize,
    {
        enable_if(sstatus, self.was_enabled)
    }
}

/// Taking a guard and giving it up leaves `sstatus` as it was.
pub proof fn lemma_guard_restores(before: usize, during: usize, after: usize, was: bool)
    requires
        was == sie(before),
        !sie(during),
        during & !0x2usize == before & !0x2usize,
        sie(after) == (sie(during) || was),
        after & !0x2usize == during & !0x2usize,
    ensures
        after == before,
{
    assert(after == before) by (bit_vector)
        requires
            (before & 0x2 != 0) == (after & 0x2 != 0),
            after & !0x2usize == before & !0x2usize,
    ;
}

} // verus!
