//! SBI HART state management extension.

use vstd::prelude::*;

use super::{probe_extension, to_reg, SbiCall, SbiResult, SbiError, BASE_EID};
use crate::errno::wrap_i64;

verus! {

/// Extension ID of the HSM extension.
pub const HSM_EID: i64 = 0x48534D;

/// Probe for the HSM extension.
pub fn probe() -> (r: SbiCall)
    ensures
        r.is(BASE_EID, 3, seq![HSM_EID]),
{
    probe_extension(HSM_EID)
}

/// HART state.
#[derive(Clone, Copy, Debug, PartialEq, Eq, Structural)]
pub enum HartState {
    Started,
    Stopped,
    StartPending,
    StopPending,
    Suspended,
    SuspendPending,
    ResumePending,
}

impl HartState {
    /// The number the firmware uses for this state.
    pub open spec fn spec_code(self) -> int {
        match self {
            HartState::Started => 0,
            HartState::Stopped => 1,
            HartState::StartPending => 2,
            HartState::StopPending => 3,
            HartState::Suspended => 4,
            HartState::SuspendPending => 5,
            HartState::ResumePending => 6,
        }
    }

    /// The state with the given number; the number must be one of them.
    pub fn from(value: i64) -> (r: HartState)
        requires
            0 <= value <= 6,
        ensures
            r.spec_code() == value,
    {
        match value {
            0 => HartState::Started,
            1 => HartState::Stopped,
            2 => HartState::StartPending,
            3 => HartState::StopPending,
            4 => HartState::Suspended,
            5 => HartState::SuspendPending,
            _ => HartState::ResumePending,
        }
    }
}

/// Start a single HART and set its `a0` register to its HARTID.
pub fn start(hartid: usize, start_addr: usize, a1_value: usize) -> (r: SbiCall)
    ensures
        r.is(
            HSM_EID,
            0,
            seq![
                wrap_i64(hartid as int) as i64,
                wrap_i64(start_addr as int) as i64,
                wrap_i64(a1_value as int) as i64,
            ],
        ),
{
    SbiCall::new(HSM_EID, 0, [to_reg(hartid), to_reg(start_addr), to_reg(a1_value), 0, 0, 0], 3)
}

/// Stop this HART; does not return if successful.
pub fn stop() -> (r: SbiCall)
    ensures
        r.is(HSM_EID, 1, seq![]),
{
    SbiCall::new(HSM_EID, 1, [0, 0, 0, 0, 0, 0], 0)
}

/// Get the status of some HART.
pub fn get_status(hartid: usize) -> (r: SbiCall)
    ensures
        r.is(HSM_EID, 2, seq![wrap_i64(hartid as int) as i64]),
{
    SbiCall::new(HSM_EID, 2, [to_reg(hartid), 0, 0, 0, 0, 0], 1)
}

/// Turn the result of [`get_status`] into a HART state.
pub fn get_status_result(res: SbiResult) -> (r: Result<HartState, SbiError>)
    requires
        res is Ok ==> 0 <= res->Ok_0 <= 6,
    ensures
        match res {
            Ok(v) => r is Ok && r->Ok_0.spec_code() == v,
            Err(e) => r == Err::<HartState, SbiError>(e),
        },
{
    match res {
        Ok(v) => Ok(HartState::from(v)),
        Err(e) => Err(e),
    }
}

/// Suspend this HART.
/// The suspend type is platform-defined.
/// If the suspend is non-retentive, the resume sets `a0` to the HARTID.
pub fn suspend(type_: u32, resume_addr: usize, a1_value: usize) -> (r: SbiCall)
    ensures
        r.is(
            HSM_EID,
            3,
            seq![type_ as i64, wrap_i64(resume_addr as int) as i64, wrap_i64(a1_value as int) as i64],
        ),
{
    SbiCall::new(HSM_EID, 3, [type_ as i64, to_reg(resume_addr), to_reg(a1_value), 0, 0, 0], 3)
}

} // verus!
