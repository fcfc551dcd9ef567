//! SBI timer extension.

use vstd::prelude::*;

use super::{half_to_reg, probe_extension, u64_to_reg, SbiCall, BASE_EID};

verus! {

/// Extension ID of the timer extension.
pub const TIME_EID: i64 = 0x54494D45;

/// Probe for the timer extension.
pub fn probe() -> (r: SbiCall)
    ensures
        r.is(BASE_EID, 3, seq![TIME_EID]),
{
    probe_extension(TIME_EID)
}

/// Set a timer to fire when the timer hits absolute value `ticks`.
pub fn set_timer(ticks: u64) -> (r: SbiCall)
    ensures
        r.is(TIME_EID, 0, seq![crate::errno::wrap_i64(ticks as int) as i64]),
{
    SbiCall::new(TIME_EID, 0, [u64_to_reg(ticks), 0, 0, 0, 0, 0], 1)
}

/// Set a timer to fire when the timer hits absolute value `ticks`, on a
/// 32-bit hart: the low half of `ticks` goes in the first register, the
/// high half in the second.
pub fn set_timer_rv32(ticks: u64) -> (r: SbiCall)
    ensures
        r.is(
            TIME_EID,
            0,
            seq![
                crate::errno::wrap_i32(ticks as int % 0x1_0000_0000) as i64,
                crate::errno::wrap_i32(ticks as int / 0x1_0000_0000) as i64,
            ],
        ),
{
    SbiCall::new(TIME_EID, 0, [half_to_reg(ticks % 0x1_0000_0000), half_to_reg(ticks / 0x1_0000_0000), 0, 0, 0, 0], 2)
}

} // verus!
