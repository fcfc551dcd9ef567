//! Page protection flags, as they stand in bits 1 to 7 of a RISC-V page
//! table entry, and the memory kinds of the Svpbmt extension.

use vstd::prelude::*;

verus! {

/// Readable.
pub const R: u32 = 0x2;
/// Writable.
pub const W: u32 = 0x4;
/// Executable.
pub const X: u32 = 0x8;
/// Accessible to user mode.
pub const U: u32 = 0x10;
/// Global mapping.
pub const G: u32 = 0x20;
/// Accessed.
pub const A: u32 = 0x40;
/// Dirty.
pub const D: u32 = 0x80;
/// Non-cacheable memory.
pub const NC: u32 = 0x100;
/// I/O memory.
pub const IO: u32 = 0x200;
/// Map memory as read-write.
pub const RW: u32 = 0x6;
/// Map memory as read-execute.
pub const RX: u32 = 0xa;
/// Map memory as read-write-execute.
pub const RWX: u32 = 0xe;

} // verus!
