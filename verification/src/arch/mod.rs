//! RISC-V specifics: registers, CPU-local data and firmware calls.

pub mod cpulocal;
pub mod irq;
pub mod csr;
pub mod regs;
pub mod report;
pub mod sbi;

use vstd::prelude::*;

verus! {

/// Name of the architecture.
pub const NAME: &'static str = "riscv64";
/// Blank of the same width as [`NAME`], for banners.
pub const NAME_BLANK: &'static str = "=======";

} // verus!
