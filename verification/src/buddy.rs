//! Arithmetic of naturally aligned power-of-two blocks of pages.

use vstd::prelude::*;

verus! {

/// `2^n` as an integer.
pub open spec fn pow2(n: nat) -> int {
    vstd::arithmetic::power2::pow2(n) as int
}

/// Whether `p` is a multiple of `2^o`.
pub open spec fn aligned(p: int, o: nat) -> bool {
    p % pow2(o) == 0
}

/// Whether page `p` lies in the block of `2^o` pages at `h`.
pub open spec fn in_block(p: int, h: int, o: nat) -> bool {
    h <= p < h + pow2(o)
}

/// The block of order `o` that contains page `p`.
pub open spec fn head_of(p: int, o: nat) -> int {
    p - p % pow2(o)
}

/// The buddy of an aligned block: the block of the same order that, joined
/// with it, forms an aligned block of the next order.
pub open spec fn buddy_of(h: int, o: nat) -> int {
    if (h / pow2(o)) % 2 == 0 {
        h + pow2(o)
    } else {
        h - pow2(o)
    }
}

/// The lower of a block and its buddy: the head of the block they form together.
pub open spec fn merged_head(h: int, o: nat) -> int {
    if h < buddy_of(h, o) {
        h
    } else {
        buddy_of(h, o)
    }
}

/// `2^(o+1) == 2 * 2^o`, and powers of two are positive.
pub proof fn lemma_pow2_facts(o: nat)
    ensures
        pow2(o) > 0,
        pow2(o + 1) == 2 * pow2(o),
{
    vstd::arithmetic::power2::lemma_pow2_pos(o);
    vstd::arithmetic::power2::lemma_pow2_unfold(o + 1);
}

/// Powers of two grow with the exponent.
pub proof fn lemma_pow2_mono(a: nat, b: nat)
    requires
        a <= b,
    ensures
        pow2(a) <= pow2(b),
{
    if a < b {
        vstd::arithmetic::power2::lemma_pow2_strictly_increases(a, b);
    }
}

/// A page of an aligned block has that block as the block of its order.
pub proof fn lemma_head_of(p: int, h: int, o: nat)
    requires
        aligned(h, o),
        in_block(p, h, o),
    ensures
        head_of(p, o) == h,
        p % pow2(o) == p - h,
{
    lemma_pow2_facts(o);
    let d = pow2(o);
    vstd::arithmetic::div_mod::lemma_fundamental_div_mod(h, d);
    let q = h / d;
    assert(h == d * q);
    vstd::arithmetic::div_mod::lemma_fundamental_div_mod_converse(p, d, q, p - h);
}

/// Distinct aligned blocks of one order do not overlap.
pub proof fn lemma_blocks_disjoint(h1: int, h2: int, o: nat, p: int)
    requires
        aligned(h1, o),
        aligned(h2, o),
        h1 != h2,
    ensures
        !(in_block(p, h1, o) && in_block(p, h2, o)),
{
    if in_block(p, h1, o) && in_block(p, h2, o) {
        lemma_head_of(p, h1, o);
        lemma_head_of(p, h2, o);
    }
}

/// The buddy of an aligned block is aligned, and the lower of the two is
/// aligned one order up and spans both.
pub proof fn lemma_buddy(h: int, o: nat)
    requires
        aligned(h, o),
    ensures
        aligned(buddy_of(h, o), o),
        buddy_of(h, o) != h,
        aligned(merged_head(h, o), o + 1),
        forall|p: int|
            #![trigger in_block(p, merged_head(h, o), o + 1)]
            in_block(p, merged_head(h, o), o + 1) <==> in_block(p, h, o)
                || in_block(p, buddy_of(h, o), o),
{
    lemma_pow2_facts(o);
    let d = pow2(o);
    vstd::arithmetic::div_mod::lemma_fundamental_div_mod(h, d);
    let q = h / d;
    assert(h == d * q);
    let b = buddy_of(h, o);
    if q % 2 == 0 {
        assert(b == d * (q + 1)) by (nonlinear_arith)
            requires
                b == h + d,
                h == d * q,
        ;
        vstd::arithmetic::div_mod::lemma_fundamental_div_mod_converse(b, d, q + 1, 0);
        let q2 = q / 2;
        assert(h == (2 * d) * q2) by (nonlinear_arith)
            requires
                h == d * q,
                q % 2 == 0,
                q2 == q / 2,
        ;
        vstd::arithmetic::div_mod::lemma_fundamental_div_mod_converse(h, 2 * d, q2, 0);
    } else {
        assert(b == d * (q - 1)) by (nonlinear_arith)
            requires
                b == h - d,
                h == d * q,
        ;
        vstd::arithmetic::div_mod::lemma_fundamental_div_mod_converse(b, d, q - 1, 0);
        let q2 = (q - 1) / 2;
        assert(b == (2 * d) * q2) by (nonlinear_arith)
            requires
                b == d * (q - 1),
                (q - 1) % 2 == 0,
                q2 == (q - 1) / 2,
        ;
        vstd::arithmetic::div_mod::lemma_fundamental_div_mod_converse(b, 2 * d, q2, 0);
    }
}

/// Flipping bit `o` of a block number is moving to the buddy.
pub proof fn lemma_xor_is_buddy(h: usize, o: usize)
    requires
        o < 32,
        aligned(h as int, o as nat),
    ensures
        (h ^ (1usize << o)) as int == buddy_of(h as int, o as nat),
        (1usize << o) as int == pow2(o as nat),
{
    vstd::bits::lemma_usize_pow2_no_overflow(o as nat);
    vstd::arithmetic::power2::lemma_pow2_pos(o as nat);
    assert(1usize * vstd::arithmetic::power2::pow2(o as nat) <= usize::MAX);
    vstd::bits::lemma_usize_shl_is_mul(1, o);
    let m = 1usize << o;
    assert((h ^ m) == (if h & m == 0 { h + m } else { h - m }) && (h & m == 0) == ((h >> o) % 2 == 0)) by (bit_vector)
        requires
            o < 32,
            m == 1usize << o,
    ;
    vstd::bits::lemma_usize_shr_is_div(h, o);
    if h & m != 0 {
        assert(h >= m) by (bit_vector)
            requires
                h & m != 0,
                o < 32,
                m == 1usize << o,
        ;
    }
}

} // verus!
