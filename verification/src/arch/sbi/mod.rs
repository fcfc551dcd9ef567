//! Calls into the supervisor binary interface (SBI) firmware.
//!
//! A call is described by an [`SbiCall`]: the extension and function IDs and
//! the argument registers. Whoever executes the `ecall` hands the two result
//! registers to [`SbiCall::result`], which turns them into an [`SbiResult`].

pub mod dbcn;
pub mod hsm;
pub mod ipi;
pub mod legacy;
pub mod rfence;
pub mod timer;

use vstd::prelude::*;

use crate::errno::wrap_i64;

verus! {

/// SBI-call errors.
#[derive(Clone, Copy, PartialEq, Eq, Debug, Structural)]
pub enum SbiError {
    Failed,
    NotSupported,
    InvalidParam,
    Denied,
    InvalidAddress,
    AlreadyAvailable,
    AlreadyStarted,
    AlreadyStopped,
    NoShmem,
}

/// The error that a (negated) SBI error code stands for; unknown codes are [`SbiError::Failed`].
pub open spec fn sbi_error_of(value: int) -> SbiError {
    if value == 2 {
        SbiError::NotSupported
    } else if value == 3 {
        SbiError::InvalidParam
    } else if value == 4 {
        SbiError::Denied
    } else if value == 5 {
        SbiError::InvalidAddress
    } else if value == 6 {
        SbiError::AlreadyAvailable
    } else if value == 7 {
        SbiError::AlreadyStarted
    } else if value == 8 {
        SbiError::AlreadyStopped
    } else if value == 9 {
        SbiError::NoShmem
    } else {
        SbiError::Failed
    }
}

impl SbiError {
    /// The SBI error code of this error, as a positive number.
    pub open spec fn spec_code(self) -> int {
        match self {
            SbiError::Failed => 1,
            SbiError::NotSupported => 2,
            SbiError::InvalidParam => 3,
            SbiError::Denied => 4,
            SbiError::InvalidAddress => 5,
            SbiError::AlreadyAvailable => 6,
            SbiError::AlreadyStarted => 7,
            SbiError::AlreadyStopped => 8,
            SbiError::NoShmem => 9,
        }
    }

    /// The SBI error code of this error, as a positive number.
    pub fn code(&self) -> (r: i64)
        ensures
            r == self.spec_code(),
    {
        match self {
            SbiError::Failed => 1,
            SbiError::NotSupported => 2,
            SbiError::InvalidParam => 3,
            SbiError::Denied => 4,
            SbiError::InvalidAddress => 5,
            SbiError::AlreadyAvailable => 6,
            SbiError::AlreadyStarted => 7,
            SbiError::AlreadyStopped => 8,
            SbiError::NoShmem => 9,
        }
    }

    /// The error for a (negated) SBI error code; unknown codes give [`SbiError::Failed`].
    pub fn from(value: i64) -> (r: SbiError)
        ensures
            r == sbi_error_of(value as int),
    {
        match value {
            1 => SbiError::Failed,
            2 => SbiError::NotSupported,
            3 => SbiError::InvalidParam,
            4 => SbiError::Denied,
            5 => SbiError::InvalidAddress,
            6 => SbiError::AlreadyAvailable,
            7 => SbiError::AlreadyStarted,
            8 => SbiError::AlreadyStopped,
            9 => SbiError::NoShmem,
            _ => SbiError::Failed,
        }
    }
}

/// Every error's code gives that error back.
pub proof fn lemma_sbi_error_code(e: SbiError)
    ensures
        sbi_error_of(e.spec_code()) == e,
        1 <= e.spec_code() <= 9,
{
}

/// SBI-call result.
pub type SbiResult = Result<i64, SbiError>;

/// Extension ID of the base extension.
pub const BASE_EID: i64 = 0x10;

/// One call into the firmware: registers `a7` (extension), `a6` (function)
/// and the first `nargs` of `a0` to `a5`.
#[derive(Clone, Copy, Debug)]
pub struct SbiCall {
    /// Extension ID, passed in `a7`.
    pub eid: i64,
    /// Function ID, passed in `a6`.
    pub fid: i64,
    /// Arguments `a0` to `a5`; those past `nargs` are zero.
    pub args: [i64; 6],
    /// Number of arguments that the call takes.
    pub nargs: usize,
}

/// What the result registers of a call stand for: success with `a1` when
/// `a0` is zero, else the error whose code is `-a0`.
pub open spec fn sbi_result_spec(a0: int, a1: i64) -> SbiResult {
    if a0 == 0 {
        Ok(a1)
    } else {
        Err(sbi_error_of(-a0))
    }
}

impl SbiCall {
    /// Whether this call is `fid` of extension `eid` with the arguments `a`.
    pub open spec fn is(self, eid: i64, fid: i64, a: Seq<i64>) -> bool {
        &&& self.eid == eid
        &&& self.fid == fid
        &&& self.nargs == a.len()
        &&& self.args@.len() == 6
        &&& forall|k: int| 0 <= k < 6 ==> #[trigger] self.args@[k] == (if k < a.len() { a[k] } else { 0i64 })
    }

    /// Describe a call: the arguments past the first `nargs` must be zero.
    pub fn new(eid: i64, fid: i64, args: [i64; 6], nargs: usize) -> (r: SbiCall)
        requires
            nargs <= 6,
            forall|k: int| nargs <= k < 6 ==> args@[k] == 0,
        ensures
            r.eid == eid,
            r.fid == fid,
            r.nargs == nargs,
            r.args@ == args@,
    {
        SbiCall { eid, fid, args, nargs }
    }

    /// Turn the result registers of this call into a result.
    pub fn result(&self, a0: i64, a1: i64) -> (r: SbiResult)
        requires
            a0 > i64::MIN,
        ensures
            r == sbi_result_spec(a0 as int, a1),
    {
        if a0 == 0 {
            Ok(a1)
        } else {
            Err(SbiError::from(-a0))
        }
    }
}

/// Get the SBI specification version.
pub fn get_spec_version() -> (r: SbiCall)
    ensures
        r.is(BASE_EID, 0, seq![]),
{
    SbiCall::new(BASE_EID, 0, [0, 0, 0, 0, 0, 0], 0)
}

/// Get the SBI implementation ID.
pub fn get_impl_id() -> (r: SbiCall)
    ensures
        r.is(BASE_EID, 1, seq![]),
{
    SbiCall::new(BASE_EID, 1, [0, 0, 0, 0, 0, 0], 0)
}

/// Get the SBI implementation version.
pub fn get_impl_version() -> (r: SbiCall)
    ensures
        r.is(BASE_EID, 2, seq![]),
{
    SbiCall::new(BASE_EID, 2, [0, 0, 0, 0, 0, 0], 0)
}

/// Ask whether the SBI extension `eid` is available.
pub fn probe_extension(eid: i64) -> (r: SbiCall)
    ensures
        r.is(BASE_EID, 3, seq![eid]),
{
    SbiCall::new(BASE_EID, 3, [eid, 0, 0, 0, 0, 0], 1)
}

/// Get the machine vendor ID.
pub fn get_mvendorid() -> (r: SbiCall)
    ensures
        r.is(BASE_EID, 4, seq![]),
{
    SbiCall::new(BASE_EID, 4, [0, 0, 0, 0, 0, 0], 0)
}

/// Get the machine architecture ID.
pub fn get_marchid() -> (r: SbiCall)
    ensures
        r.is(BASE_EID, 5, seq![]),
{
    SbiCall::new(BASE_EID, 5, [0, 0, 0, 0, 0, 0], 0)
}

/// Get the machine implementation ID.
pub fn get_mimpid() -> (r: SbiCall)
    ensures
        r.is(BASE_EID, 6, seq![]),
{
    SbiCall::new(BASE_EID, 6, [0, 0, 0, 0, 0, 0], 0)
}

/// Whether the result of a probe says the extension is there.
pub fn probe_result(res: SbiResult) -> (r: bool)
    ensures
        r == res is Ok,
{
    res.is_ok()
}

/// A register value as the firmware sees it: the same bits, signed.
pub fn to_reg(x: usize) -> (r: i64)
    ensures
        r == wrap_i64(x as int),
{
    u64_to_reg(x as u64)
}

/// The 32-bit register that holds `x`, below 2^32, on a 32-bit hart, as
/// the signed number that it reads as, widened.
pub fn half_to_reg(x: u64) -> (r: i64)
    requires
        x < 0x1_0000_0000,
    ensures
        r == crate::errno::wrap_i32(x as int),
{
    if x <= 0x7fff_ffff {
        x as i64
    } else {
        x as i64 - 0x1_0000_0000
    }
}

/// A 64-bit register value as the firmware sees it: the same bits, signed.
pub fn u64_to_reg(x: u64) -> (r: i64)
    ensures
        r == crate::errno::wrap_i64(x as int),
{
    if x <= 0x7fff_ffff_ffff_ffff {
        x as i64
    } else {
        -((0xffff_ffff_ffff_ffffu64 - x) as i64) - 1
    }
}

} // verus!
