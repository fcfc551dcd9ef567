//! SBI remote fence extension.

use vstd::prelude::*;

use super::{probe_extension, to_reg, SbiCall, BASE_EID};
use crate::errno::wrap_i64;

verus! {

/// Extension ID of the remote fence extension.
pub const RFENCE_EID: i64 = 0x52464E43;

/// Probe for the remote fence extension.
pub fn probe() -> (r: SbiCall)
    ensures
        r.is(BASE_EID, 3, seq![RFENCE_EID]),
{
    probe_extension(RFENCE_EID)
}

/// Perform a remote `fence.i` on specified HARTs.
pub fn remote_fence_i(hart_mask: usize, hart_mask_base: usize) -> (r: SbiCall)
    ensures
        r.is(
            RFENCE_EID,
            0,
            seq![wrap_i64(hart_mask as int) as i64, wrap_i64(hart_mask_base as int) as i64],
        ),
{
    SbiCall::new(RFENCE_EID, 0, [to_reg(hart_mask), to_reg(hart_mask_base), 0, 0, 0, 0], 2)
}

/// Perform a remote `sfence.vma` without ASID on specified HARTs.
/// Applies to the entire address space if `start_addr` and `size` are 0, or if `size` is `usize::MAX`.
pub fn remote_sfence_vma(hart_mask: usize, hart_mask_base: usize, start_addr: usize, size: usize) -> (r: SbiCall)
    ensures
        r.is(
            RFENCE_EID,
            1,
            seq![
                wrap_i64(hart_mask as int) as i64,
                wrap_i64(hart_mask_base as int) as i64,
                wrap_i64(start_addr as int) as i64,
                wrap_i64(size as int) as i64,
            ],
        ),
{
    SbiCall::new(RFENCE_EID, 1, [to_reg(hart_mask), to_reg(hart_mask_base), to_reg(start_addr), to_reg(size), 0, 0], 4)
}

/// Perform a remote `sfence.vma` with ASID on specified HARTs.
/// Applies to the entire address space if `start_addr` and `size` are 0, or if `size` is `usize::MAX`.
pub fn remote_sfence_vma_asid(
    hart_mask: usize,
    hart_mask_base: usize,
    start_addr: usize,
    size: usize,
    asid: u16,
) -> (r: SbiCall)
    ensures
        r.is(
            RFENCE_EID,
            2,
            seq![
                wrap_i64(hart_mask as int) as i64,
                wrap_i64(hart_mask_base as int) as i64,
                wrap_i64(start_addr as int) as i64,
                wrap_i64(size as int) as i64,
                asid as i64,
            ],
        ),
{
    SbiCall::new(RFENCE_EID, 2, [to_reg(hart_mask), to_reg(hart_mask_base), to_reg(start_addr), to_reg(size), asid as i64, 0], 5)
}

} // verus!
