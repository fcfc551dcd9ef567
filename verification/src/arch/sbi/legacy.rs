//! SBI legacy extension. Legacy calls take the extension ID alone; the
//! function ID of their [`SbiCall`] is 0 and unused, and they return a
//! single register.

use vstd::prelude::*;

use super::{half_to_reg, u64_to_reg, SbiCall};
use crate::errno::wrap_i64;

verus! {

/// Set a timer to fire `delta_ticks` timer ticks in the future.
pub fn set_timer(delta_ticks: u64) -> (r: SbiCall)
    ensures
        r.is(0, 0, seq![wrap_i64(delta_ticks as int) as i64]),
{
    SbiCall::new(0, 0, [u64_to_reg(delta_ticks), 0, 0, 0, 0, 0], 1)
}

/// Write a character to the console.
pub fn console_putchar(ch: u8) -> (r: SbiCall)
    ensures
        r.is(1, 0, seq![ch as i64]),
{
    SbiCall::new(1, 0, [ch as i64, 0, 0, 0, 0, 0], 1)
}

/// Read a character from the console.
pub fn console_getchar() -> (r: SbiCall)
    ensures
        r.is(2, 0, seq![]),
{
    SbiCall::new(2, 0, [0, 0, 0, 0, 0, 0], 0)
}

/// The result of a legacy call that returns a status: success for zero.
pub fn status_result(a0: i64) -> (r: Result<(), ()>)
    ensures
        r is Ok <==> a0 == 0,
{
    if a0 == 0 {
        Ok(())
    } else {
        Err(())
    }
}

/// The result of [`console_getchar`]: the character's low byte, or failure
/// for a negative value.
pub fn getchar_result(a0: i64) -> (r: Result<u8, ()>)
    ensures
        a0 >= 0 ==> r == Ok::<u8, ()>((a0 % 256) as u8),
        a0 < 0 ==> r is Err,
{
    if a0 >= 0 {
        Ok((a0 % 256) as u8)
    } else {
        Err(())
    }
}

/// Set a timer to fire `delta_ticks` timer ticks in the future, on a
/// 32-bit hart: the low half of `delta_ticks` goes in the first register,
/// the high half in the second.
pub fn set_timer_rv32(delta_ticks: u64) -> (r: SbiCall)
    ensures
        r.is(
            0,
            0,
            seq![
                crate::errno::wrap_i32(delta_ticks as int % 0x1_0000_0000) as i64,
                crate::errno::wrap_i32(delta_ticks as int / 0x1_0000_0000) as i64,
            ],
        ),
{
    SbiCall::new(0, 0, [half_to_reg(delta_ticks % 0x1_0000_0000), half_to_reg(delta_ticks / 0x1_0000_0000), 0, 0, 0, 0], 2)
}

} // verus!
