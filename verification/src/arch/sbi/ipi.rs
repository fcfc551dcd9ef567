//! SBI inter-processor interrupt extension.

use vstd::prelude::*;

use super::{probe_extension, to_reg, SbiCall, BASE_EID};
use crate::errno::wrap_i64;

verus! {

/// Extension ID of the IPI extension.
pub const IPI_EID: i64 = 0x735049;

/// Probe for the IPI extension.
pub fn probe() -> (r: SbiCall)
    ensures
        r.is(BASE_EID, 3, seq![IPI_EID]),
{
    probe_extension(IPI_EID)
}

/// Send an IPI to specified HARTs.
pub fn send_ipi(hart_mask: usize, hart_mask_base: usize) -> (r: SbiCall)
    ensures
        r.is(
            IPI_EID,
            0,
            seq![wrap_i64(hart_mask as int) as i64, wrap_i64(hart_mask_base as int) as i64],
        ),
{
    SbiCall::new(IPI_EID, 0, [to_reg(hart_mask), to_reg(hart_mask_base), 0, 0, 0, 0], 2)
}

} // verus!
