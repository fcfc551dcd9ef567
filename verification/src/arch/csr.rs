//! Control and status register fields.

use vstd::prelude::*;

verus! {

/// Extension state: off.
pub const XS_OFF: usize = 0;
/// Extension state: clean.
pub const XS_CLEAN: usize = 1;
/// Extension state: initial.
pub const XS_INITIAL: usize = 2;
/// Extension state: dirty.
pub const XS_DIRTY: usize = 3;

/// `sstatus.SIE`: supervisor interrupts enabled.
pub const SIE_BIT: u32 = 1;
/// Mask of `sstatus.SIE`.
pub const SIE_MASK: usize = 0x2;
/// `sstatus.SPIE`: interrupts were enabled before the trap.
pub const SPIE_BIT: u32 = 5;
/// Mask of `sstatus.SPIE`.
pub const SPIE_MASK: usize = 0x20;
/// `sstatus.UBE`: user big-endian.
pub const UBE_BIT: u32 = 6;
/// Mask of `sstatus.UBE`.
pub const UBE_MASK: usize = 0x40;
/// `sstatus.SPP`: the trap came from supervisor mode.
pub const SPP_BIT: u32 = 8;
/// Mask of `sstatus.SPP`.
pub const SPP_MASK: usize = 0x100;
/// `sstatus.VS`: vector state.
pub const VS_BIT: u32 = 9;
/// Mask of `sstatus.VS`.
pub const VS_MASK: usize = 0x600;
/// `sstatus.FS`: floating-point state.
pub const FS_BIT: u32 = 13;
/// Mask of `sstatus.FS`.
pub const FS_MASK: usize = 0x6000;
/// `sstatus.XS`: other extension state.
pub const XS_BIT: u32 = 15;
/// Mask of `sstatus.XS`.
pub const XS_MASK: usize = 0x18000;
/// `sstatus.SUM`: supervisor may access user memory.
pub const SUM_BIT: u32 = 18;
/// Mask of `sstatus.SUM`.
pub const SUM_MASK: usize = 0x40000;
/// `sstatus.MXR`: make executable readable.
pub const MXR_BIT: u32 = 19;
/// Mask of `sstatus.MXR`.
pub const MXR_MASK: usize = 0x80000;
/// `sstatus.UXL`: user XLEN.
pub const UXL_BIT: u32 = 32;
/// Mask of `sstatus.UXL`.
pub const UXL_MASK: u64 = 0x3_0000_0000;
/// `sstatus.SD`: some state is dirty.
pub const SD_BIT: u32 = 63;
/// Mask of `sstatus.SD`.
pub const SD_MASK: u64 = 0x8000_0000_0000_0000;

/// Each mask has exactly the bits of its field set.
pub proof fn lemma_masks()
    ensures
        SIE_MASK == 1usize << SIE_BIT,
        SPIE_MASK == 1usize << SPIE_BIT,
        UBE_MASK == 1usize << UBE_BIT,
        SPP_MASK == 1usize << SPP_BIT,
        VS_MASK == (1usize << 11u32) - (1usize << VS_BIT),
        FS_MASK == (1usize << 15u32) - (1usize << FS_BIT),
        XS_MASK == (1usize << 17u32) - (1usize << XS_BIT),
        SUM_MASK == 1usize << SUM_BIT,
        MXR_MASK == 1usize << MXR_BIT,
        UXL_MASK == (1u64 << 34u32) - (1u64 << UXL_BIT),
        SD_MASK == 1u64 << SD_BIT,
{
    assert(0x2usize == 1usize << 1u32) by (bit_vector);
    assert(0x20usize == 1usize << 5u32) by (bit_vector);
    assert(0x40usize == 1usize << 6u32) by (bit_vector);
    assert(0x100usize == 1usize << 8u32) by (bit_vector);
    assert(0x600usize == (1usize << 11u32) - (1usize << 9u32)) by (bit_vector);
    assert(0x6000usize == (1usize << 15u32) - (1usize << 13u32)) by (bit_vector);
    assert(0x18000usize == (1usize << 17u32) - (1usize << 15u32)) by (bit_vector);
    assert(0x40000usize == 1usize << 18u32) by (bit_vector);
    assert(0x80000usize == 1usize << 19u32) by (bit_vector);
    assert(0x3_0000_0000u64 == (1u64 << 34u32) - (1u64 << 32u32)) by (bit_vector);
    assert(0x8000_0000_0000_0000u64 == 1u64 << 63u32) by (bit_vector);
}

} // verus!
