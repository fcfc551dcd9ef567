//! Canonical virtual addresses.
//!
//! With `levels` levels of page tables of 9 bits each above 12 bits of page
//! offset, virtual addresses have `12 + 9 * levels` significant bits; the
//! bits above must repeat the top significant bit. Addresses are taken as
//! 64-bit values. `levels` is 3, 4 or 5 (Sv39, Sv48, Sv57).

use vstd::prelude::*;

use core::ops::Range;

verus! {

/// Bits of page offset.
pub const PAGE_BITS: u32 = 12;
/// Bits of virtual page number decoded per page-table level.
pub const BITS_PER_LEVEL: u32 = 9;
/// Size of a page.
pub const PAGE_SIZE: usize = 4096;

/// Supported numbers of paging levels.
pub open spec fn valid_levels(levels: u32) -> bool {
    3 <= levels <= 5
}

/// `2^n`.
pub open spec fn p2(n: nat) -> nat {
    vstd::arithmetic::power2::pow2(n)
}

/// Significant bits of a virtual address.
pub open spec fn va_bits(levels: u32) -> nat {
    (12 + 9 * levels) as nat
}

/// Whether the 64-bit value `a` is the sign extension of its low `bits` bits.
pub open spec fn sign_extended(a: int, bits: nat) -> bool {
    a < p2((bits - 1) as nat) || a >= 0x1_0000_0000_0000_0000 - p2((bits - 1) as nat)
}

/// Whether `addr` is a canonical virtual address.
pub open spec fn canon_addr(addr: int, levels: u32) -> bool {
    sign_extended(addr, va_bits(levels))
}

/// The low 52 bits of a page number, sign-extended from bit 51: the page
/// number as the upper bits of an address.
pub open spec fn vpn_low(vpn: int) -> int {
    vpn % 0x10_0000_0000_0000
}

/// Whether `vpn` is the page number of a canonical address; its upper 12
/// bits are ignored.
pub open spec fn canon_page(vpn: int, levels: u32) -> bool {
    vpn_low(vpn) < p2((9 * levels - 1) as nat) || vpn_low(vpn) >= 0x10_0000_0000_0000 - p2(
        (9 * levels - 1) as nat,
    )
}

/// The values of the powers of two that the bit-level proofs use.
pub proof fn lemma_p2_values(levels: u32)
    requires
        valid_levels(levels),
    ensures
        p2((va_bits(levels) - 1) as nat) == (if levels == 3 {
            0x40_0000_0000int
        } else if levels == 4 {
            0x8000_0000_0000int
        } else {
            0x100_0000_0000_0000int
        }),
        p2((9 * levels - 1) as nat) == (if levels == 3 {
            0x400_0000int
        } else if levels == 4 {
            0x8_0000_0000int
        } else {
            0x1000_0000_0000int
        }),
{
    vstd::arithmetic::power2::lemma2_to64();
    vstd::arithmetic::power2::lemma2_to64_rest();
}

/// Whether `x`, shifted left and arithmetically right by `e`, is unchanged,
/// as a test on the unsigned value.
proof fn lemma_sext_shift(x: u64, e: u64, lim: u64)
    requires
        (e == 25 && lim == 0x40_0000_0000u64) || (e == 16 && lim == 0x8000_0000_0000u64) || (e == 7 && lim
            == 0x100_0000_0000_0000u64),
    ensures
        ((((x as i64) << e) >> e) == x as i64) <==> (x < lim || x >= 0x1_0000_0000_0000_0000 - lim),
{
    assert(((((x as i64) << e) >> e) == x as i64) <==> (x < lim || x >= 0x1_0000_0000_0000_0000 - lim)) by (bit_vector)
        requires
            (e == 25 && lim == 0x40_0000_0000u64) || (e == 16 && lim == 0x8000_0000_0000u64) || (e == 7
                && lim == 0x100_0000_0000_0000u64),
    ;
}

/// The shift that keeps the significant bits of an address.
fn canon_shift(levels: u32) -> (r: u64)
    requires
        valid_levels(levels),
    ensures
        r == 64 - va_bits(levels),
{
    64 - 12 - 9 * levels as u64
}

/// Determine whether an address is canonical.
pub fn is_canon_addr(addr: usize, levels: u32) -> (r: bool)
    requires
        valid_levels(levels),
    ensures
        r == canon_addr(addr as int, levels),
{
    let x = addr as u64;
    let exp = canon_shift(levels);
    let canon = ((x as i64) << exp) >> exp;
    proof {
        lemma_p2_values(levels);
        let lim: u64 = if levels == 3 { 0x40_0000_0000 } else if levels == 4 { 0x8000_0000_0000 } else { 0x100_0000_0000_0000 };
        lemma_sext_shift(x, exp, lim);
    }
    canon == x as i64
}

/// Whether the top bit of a 64-bit address is set.
pub open spec fn high_half(addr: int) -> bool {
    addr >= 0x8000_0000_0000_0000
}

/// Determine whether an address is a canonical kernel address.
pub fn is_canon_kernel_addr(addr: usize, levels: u32) -> (r: bool)
    requires
        valid_levels(levels),
    ensures
        r == (canon_addr(addr as int, levels) && high_half(addr as int)),
{
    is_canon_addr(addr, levels) && addr as u64 >= 0x8000_0000_0000_0000
}

/// Determine whether an address is a canonical user address.
pub fn is_canon_user_addr(addr: usize, levels: u32) -> (r: bool)
    requires
        valid_levels(levels),
    ensures
        r == (canon_addr(addr as int, levels) && !high_half(addr as int)),
{
    is_canon_addr(addr, levels) && (addr as u64) < 0x8000_0000_0000_0000
}

/// Whether both ends of a range satisfy `p`; an empty range only needs its start to.
pub open spec fn ends_ok(range: Range<usize>, p: spec_fn(int) -> bool) -> bool {
    p(range.start as int) && (range.end <= range.start || p(range.end - 1))
}

/// Whether every address of a range is canonical; an empty range needs its
/// start to be.
pub open spec fn all_canon(range: Range<usize>, levels: u32) -> bool {
    &&& canon_addr(range.start as int, levels)
    &&& forall|a: int| range.start <= a < range.end ==> #[trigger] canon_addr(a, levels)
}

/// Determine whether an address range is canonical: every address in it is,
/// so both ends are, and they lie in the same half.
pub fn is_canon_range(range: Range<usize>, levels: u32) -> (r: bool)
    requires
        valid_levels(levels),
    ensures
        r == all_canon(range, levels),
        r == (ends_ok(range, |a: int| canon_addr(a, levels)) && (range.end <= range.start || high_half(
            range.start as int,
        ) == high_half(range.end - 1))),
{
    proof {
        lemma_p2_values(levels);
    }
    if !is_canon_addr(range.start, levels) {
        return false;
    }
    if range.end <= range.start {
        return true;
    }
    let last = range.end - 1;
    let r = is_canon_addr(last, levels) && ((range.start as u64) < 0x8000_0000_0000_0000) == ((last as u64)
        < 0x8000_0000_0000_0000);
    proof {
        let h = p2((va_bits(levels) - 1) as nat) as int;
        if !r && canon_addr(last as int, levels) {
            // The ends lie in different halves: the range holds the first
            // address past the lower half, which is not canonical.
            assert(range.start <= h < range.end);
            assert(!canon_addr(h, levels));
        }
    }
    r
}

/// Determine whether an address range is a canonical kernel range.
pub fn is_canon_kernel_range(range: Range<usize>, levels: u32) -> (r: bool)
    requires
        valid_levels(levels),
    ensures
        r == ends_ok(range, |a: int| canon_addr(a, levels) && high_half(a)),
{
    is_canon_kernel_addr(range.start, levels) && (range.end <= range.start || is_canon_kernel_addr(
        range.end - 1,
        levels,
    ))
}

/// Determine whether an address range is a canonical user range.
pub fn is_canon_user_range(range: Range<usize>, levels: u32) -> (r: bool)
    requires
        valid_levels(levels),
    ensures
        r == ends_ok(range, |a: int| canon_addr(a, levels) && !high_half(a)),
{
    is_canon_user_addr(range.start, levels) && (range.end <= range.start || is_canon_user_addr(
        range.end - 1,
        levels,
    ))
}

/// Sign-extension test on page numbers, as a test on the low 52 bits.
proof fn lemma_sext_page(x: u64, e: u64, lim: u64)
    requires
        (e == 37 && lim == 0x400_0000u64) || (e == 28 && lim == 0x8_0000_0000u64) || (e == 19 && lim
            == 0x1000_0000_0000u64),
    ensures
        ({
            let a = ((x as i64) << 12u64) >> 12u64;
            ((a << e) >> e == a) <==> (x % 0x10_0000_0000_0000 < lim || x % 0x10_0000_0000_0000
                >= 0x10_0000_0000_0000 - lim)
        }),
{
    assert(({
        let a = ((x as i64) << 12u64) >> 12u64;
        ((a << e) >> e == a) <==> (x % 0x10_0000_0000_0000 < lim || x % 0x10_0000_0000_0000
            >= 0x10_0000_0000_0000 - lim)
    })) by (bit_vector)
        requires
            (e == 37 && lim == 0x400_0000u64) || (e == 28 && lim == 0x8_0000_0000u64) || (e == 19 && lim
                == 0x1000_0000_0000u64),
    ;
}

/// Determine whether a page number is that of a canonical address.
pub fn is_canon_page(addr: usize, levels: u32) -> (r: bool)
    requires
        valid_levels(levels),
    ensures
        r == canon_page(addr as int, levels),
{
    let x = addr as u64;
    let a = ((x as i64) << 12u64) >> 12u64;
    let exp: u64 = 64 - 9 * levels as u64;
    let canon_page = (a << exp) >> exp;
    proof {
        lemma_p2_values(levels);
        let lim: u64 = if levels == 3 { 0x400_0000 } else if levels == 4 { 0x8_0000_0000 } else { 0x1000_0000_0000 };
        lemma_sext_page(x, exp, lim);
    }
    canon_page == a
}

/// Whether bit 51 of a page number is set: the page is in the upper half.
pub open spec fn high_half_page(vpn: int) -> bool {
    vpn_low(vpn) >= 0x8_0000_0000_0000
}

/// Determine whether a page number is that of a canonical kernel address.
pub fn is_canon_kernel_page(addr: usize, levels: u32) -> (r: bool)
    requires
        valid_levels(levels),
    ensures
        r == (canon_page(addr as int, levels) && high_half_page(addr as int)),
{
    let x = addr as u64;
    let shifted = (x as i64) << 12u64;
    proof {
        assert((((x as i64) << 12u64) < 0) == (x % 0x10_0000_0000_0000 >= 0x8_0000_0000_0000)) by (bit_vector);
    }
    is_canon_page(addr, levels) && shifted < 0
}

/// Determine whether a page number is that of a canonical user address:
/// canonical, with bit 51 of the page number, the top bit of the address,
/// clear.
pub fn is_canon_user_page(addr: usize, levels: u32) -> (r: bool)
    requires
        valid_levels(levels),
    ensures
        r == (canon_page(addr as int, levels) && !high_half_page(addr as int)),
{
    is_canon_page(addr, levels) && !is_canon_kernel_page(addr, levels)
}

/// Determine whether a page range is canonical: both ends are, and they lie
/// in the same half.
pub fn is_canon_page_range(range: Range<usize>, levels: u32) -> (r: bool)
    requires
        valid_levels(levels),
    ensures
        r == (ends_ok(range, |a: int| canon_page(a, levels)) && (range.end <= range.start || high_half_page(
            range.start as int,
        ) == high_half_page(range.end - 1))),
{
    if range.end <= range.start {
        return is_canon_page(range.start, levels);
    }
    let last = range.end - 1;
    (is_canon_kernel_page(range.start, levels) && is_canon_kernel_page(last, levels)) || (is_canon_user_page(
        range.start,
        levels,
    ) && is_canon_user_page(last, levels))
}

/// Determine whether a page range is a canonical kernel range.
pub fn is_canon_kernel_page_range(range: Range<usize>, levels: u32) -> (r: bool)
    requires
        valid_levels(levels),
    ensures
        r == ends_ok(range, |a: int| canon_page(a, levels) && high_half_page(a)),
{
    is_canon_kernel_page(range.start, levels) && (range.end <= range.start || is_canon_kernel_page(
        range.end - 1,
        levels,
    ))
}

/// Determine whether a page range is a canonical user range.
pub fn is_canon_user_page_range(range: Range<usize>, levels: u32) -> (r: bool)
    requires
        valid_levels(levels),
    ensures
        r == ends_ok(range, |a: int| canon_page(a, levels) && !high_half_page(a)),
{
    is_canon_user_page(range.start, levels) && (range.end <= range.start || is_canon_user_page(
        range.end - 1,
        levels,
    ))
}

/// Get the number of pages in a "half" of the canonical ranges.
pub fn canon_half_pages(levels: u32) -> (r: u64)
    requires
        valid_levels(levels),
    ensures
        r == p2((9 * levels - 1) as nat),
{
    proof {
        lemma_p2_values(levels);
    }
    if levels == 3 {
        0x400_0000
    } else if levels == 4 {
        0x8_0000_0000
    } else {
        0x1000_0000_0000
    }
}

/// Get the size of a "half" of the canonical ranges.
pub fn canon_half_size(levels: u32) -> (r: u64)
    requires
        valid_levels(levels),
    ensures
        r == p2((va_bits(levels) - 1) as nat),
{
    proof {
        lemma_p2_values(levels);
    }
    canon_half_pages(levels) * 4096
}

/// Get the start of the higher half.
pub fn higher_half_vaddr(levels: u32) -> (r: u64)
    requires
        valid_levels(levels),
    ensures
        r == 0x1_0000_0000_0000_0000 - p2((va_bits(levels) - 1) as nat),
{
    proof {
        lemma_p2_values(levels);
    }
    let half = canon_half_size(levels);
    0xffff_ffff_ffff_ffff - half + 1
}

/// Get the page number of the start of the higher half.
pub fn higher_half_vpn(levels: u32) -> (r: u64)
    requires
        valid_levels(levels),
    ensures
        r == (0x1_0000_0000_0000_0000 - p2((va_bits(levels) - 1) as nat)) / 4096,
{
    higher_half_vaddr(levels) / 4096
}

/// The higher half starts at the lowest canonical kernel address, and the
/// address below it is not canonical.
pub proof fn lemma_higher_half_is_lowest_kernel_address(levels: u32)
    requires
        valid_levels(levels),
    ensures
        ({
            let h = 0x1_0000_0000_0000_0000 - p2((va_bits(levels) - 1) as nat);
            &&& canon_addr(h, levels) && high_half(h)
            &&& !canon_addr(h - 1, levels)
        }),
{
    lemma_p2_values(levels);
}

/// C-facing form of [`is_canon_addr`].
pub fn mmu_is_canon_addr(addr: usize, levels: u32) -> (r: bool)
    requires
        valid_levels(levels),
    ensures
        r == canon_addr(addr as int, levels),
{
    is_canon_addr(addr, levels)
}

/// C-facing form of [`is_canon_kernel_addr`].
pub fn mmu_is_canon_kernel_addr(addr: usize, levels: u32) -> (r: bool)
    requires
        valid_levels(levels),
    ensures
        r == (canon_addr(addr as int, levels) && high_half(addr as int)),
{
    is_canon_kernel_addr(addr, levels)
}

/// C-facing form of [`is_canon_user_addr`].
pub fn mmu_is_canon_user_addr(addr: usize, levels: u32) -> (r: bool)
    requires
        valid_levels(levels),
    ensures
        r == (canon_addr(addr as int, levels) && !high_half(addr as int)),
{
    is_canon_user_addr(addr, levels)
}

/// C-facing form of [`is_canon_range`], on the range of `len` bytes from `start`.
pub fn mmu_is_canon_range(start: usize, len: usize, levels: u32) -> (r: bool)
    requires
        valid_levels(levels),
        start + len <= usize::MAX,
    ensures
        r == all_canon(start..(start + len) as usize, levels),
{
    is_canon_range(start..start + len, levels)
}

/// C-facing form of [`is_canon_kernel_range`], on the range of `len` bytes from `start`.
pub fn mmu_is_canon_kernel_range(start: usize, len: usize, levels: u32) -> (r: bool)
    requires
        valid_levels(levels),
        start + len <= usize::MAX,
    ensures
        r == ends_ok(start..(start + len) as usize, |a: int| canon_addr(a, levels) && high_half(a)),
{
    is_canon_kernel_range(start..start + len, levels)
}

/// C-facing form of [`is_canon_user_range`], on the range of `len` bytes from `start`.
pub fn mmu_is_canon_user_range(start: usize, len: usize, levels: u32) -> (r: bool)
    requires
        valid_levels(levels),
        start + len <= usize::MAX,
    ensures
        r == ends_ok(start..(start + len) as usize, |a: int| canon_addr(a, levels) && !high_half(a)),
{
    is_canon_user_range(start..start + len, levels)
}

/// C-facing form of [`canon_half_size`].
pub fn mmu_canon_half_size(levels: u32) -> (r: u64)
    requires
        valid_levels(levels),
    ensures
        r == p2((va_bits(levels) - 1) as nat),
{
    canon_half_size(levels)
}

/// C-facing form of [`higher_half_vaddr`].
pub fn mmu_higher_half_vaddr(levels: u32) -> (r: u64)
    requires
        valid_levels(levels),
    ensures
        r == 0x1_0000_0000_0000_0000 - p2((va_bits(levels) - 1) as nat),
{
    higher_half_vaddr(levels)
}

/// The number of paging levels, as the C side reads it.
pub fn mmu_paging_levels(levels: u32) -> (r: i32)
    requires
        valid_levels(levels),
    ensures
        r == levels,
{
    levels as i32
}

} // verus!
