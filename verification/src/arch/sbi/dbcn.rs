//! SBI debug console extension.

use vstd::prelude::*;

use super::{probe_extension, to_reg, u64_to_reg, SbiCall, BASE_EID};
use crate::errno::wrap_i64;

verus! {

/// Extension ID of the debug console extension.
pub const DBCN_EID: i64 = 0x4442434E;

/// Probe for the debug console extension.
pub fn probe() -> (r: SbiCall)
    ensures
        r.is(BASE_EID, 3, seq![DBCN_EID]),
{
    probe_extension(DBCN_EID)
}

/// Write multiple bytes to the debug console.
pub fn write(len: usize, paddr: u64) -> (r: SbiCall)
    ensures
        r.is(DBCN_EID, 0, seq![wrap_i64(len as int) as i64, wrap_i64(paddr as int) as i64, 0i64]),
{
    SbiCall::new(DBCN_EID, 0, [to_reg(len), u64_to_reg(paddr), 0, 0, 0, 0], 3)
}

/// Read multiple bytes from the debug console.
pub fn read(len: usize, paddr: usize) -> (r: SbiCall)
    ensures
        r.is(DBCN_EID, 1, seq![wrap_i64(len as int) as i64, wrap_i64(paddr as int) as i64, 0i64]),
{
    SbiCall::new(DBCN_EID, 1, [to_reg(len), to_reg(paddr), 0, 0, 0, 0], 3)
}

/// Write one byte to the debug console.
pub fn write_byte(byte: u8) -> (r: SbiCall)
    ensures
        r.is(DBCN_EID, 2, seq![byte as i64]),
{
    SbiCall::new(DBCN_EID, 2, [byte as i64, 0, 0, 0, 0, 0], 1)
}

} // verus!
