//! Per-CPU data.

use vstd::prelude::*;

verus! {

/// Architecture-specific CPU-local data.
#[derive(Clone, Copy, Debug)]
pub struct ArchCpuLocal {
    /// Stack pointer to use for interrupts that return from user mode (0 when unset).
    pub irq_stack: usize,
    /// Scratch space used by the trap and interrupt handlers.
    pub scratch: [usize; 3],
    /// This HART's ID (`mhartid` CSR).
    pub hartid: usize,
}

impl ArchCpuLocal {
    /// Fresh CPU-local data for the HART `hartid`.
    pub fn new(hartid: usize) -> (r: Self)
        ensures
            r.irq_stack == 0,
            r.scratch@ == seq![0usize, 0usize, 0usize],
            r.hartid == hartid,
    {
        ArchCpuLocal { irq_stack: 0, scratch: [0, 0, 0], hartid }
    }

    /// Set the interrupt stack pointer.
    pub fn set_irq_stack(&mut self, sp: usize)
        ensures
            *final(self) == (ArchCpuLocal { irq_stack: sp, ..*old(self) }),
    {
        self.irq_stack = sp;
    }
}

/// CPU-local data.
#[derive(Clone, Copy, Debug)]
pub struct CpuLocal {
    /// Architecture-specific CPU-local data.
    pub arch: ArchCpuLocal,
    /// Software-assigned ID (so that they're contiguous).
    pub id: u32,
}

impl CpuLocal {
    /// The data of the bootstrap processor before anything else is known.
    pub fn bsp() -> (r: Self)
        ensures
            r.arch.irq_stack == 0,
            r.arch.scratch@ == seq![0usize, 0usize, 0usize],
            r.arch.hartid == 0,
            r.id == 0,
    {
        CpuLocal { arch: ArchCpuLocal::new(0), id: 0 }
    }
}

} // verus!
