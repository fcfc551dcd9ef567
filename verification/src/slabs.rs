//! The slab allocator of small kernel objects.
//!
//! A slab is a block of two pages split into objects of one size, a power
//! of two from 8 to 256 bytes (its bucket). The first objects hold the
//! slab's header and its bitmap, in which a set bit marks a free object.

use vstd::prelude::*;

use crate::pmm::{self, AllocError, PageUsage, Pmm, RawMemory, PAGE_SIZE};

verus! {

/// Buddy page order used to allocate slabs.
pub const SLAB_BUDDY_ORDER: u8 = 1;
/// Smallest bucket size.
pub const BUCKET_SIZE_MIN: usize = 8;
/// Log-base 2 multiplier per bucket size.
pub const BUCKET_SIZE_EXP: u32 = 1;
/// Number of bucket sizes.
pub const BUCKET_COUNT: u8 = 6;
/// Largest bucket size.
pub const BUCKET_SIZE_MAX: usize = 256;
/// Bytes of a slab.
pub const SLAB_SIZE: usize = 8192;
/// Bytes of a slab's header before its bitmap.
pub const SLAB_HEADER_SIZE: usize = 24;

/// Object size of bucket `b`.
pub open spec fn obj_size(b: int) -> int {
    if b == 0 { 8 } else if b == 1 { 16 } else if b == 2 { 32 } else if b == 3 { 64 } else if b == 4 { 128 } else { 256 }
}

/// Number of objects that a slab of bucket `b` is split into.
pub open spec fn obj_count(b: int) -> int {
    SLAB_SIZE as int / obj_size(b)
}

/// Number of 64-bit words of the bitmap of a slab of bucket `b`.
pub open spec fn bitmap_words(b: int) -> int {
    if obj_count(b) >= 64 { obj_count(b) / 64 } else { 1 }
}

/// Number of objects that the header and the bitmap take up.
pub open spec fn obj_overhead(b: int) -> int {
    (bitmap_words(b) * 8 + SLAB_HEADER_SIZE + obj_size(b) - 1) / obj_size(b)
}

/// Number of objects of a slab of bucket `b` that can be handed out.
pub open spec fn true_obj_count(b: int) -> int {
    obj_count(b) - obj_overhead(b)
}

/// Whether bit `j` of word `w` is set.
pub open spec fn word_bit(w: u64, j: int) -> bool {
    (w >> (j as u64)) & 1 == 1
}

/// Whether bit `j` of the bitmap `bm` is set.
pub open spec fn bits_set(bm: Seq<u64>, j: int) -> bool {
    0 <= j < 64 * bm.len() && word_bit(bm[j / 64], j % 64)
}

/// The sizes of each bucket.
pub proof fn lemma_bucket_facts(b: int)
    requires
        0 <= b < 6,
    ensures
        0 < obj_overhead(b) < obj_count(b) <= 64 * bitmap_words(b),
        obj_count(b) * obj_size(b) == SLAB_SIZE,
        obj_size(b) >= 8,
        true_obj_count(b) < 0x1_0000,
{
    if b == 0 {
        assert(obj_count(b) == 1024 && bitmap_words(b) == 16 && obj_overhead(b) == 19);
    } else if b == 1 {
        assert(obj_count(b) == 512 && bitmap_words(b) == 8 && obj_overhead(b) == 6);
    } else if b == 2 {
        assert(obj_count(b) == 256 && bitmap_words(b) == 4 && obj_overhead(b) == 2);
    } else if b == 3 {
        assert(obj_count(b) == 128 && bitmap_words(b) == 2 && obj_overhead(b) == 1);
    } else if b == 4 {
        assert(obj_count(b) == 64 && bitmap_words(b) == 1 && obj_overhead(b) == 1);
    } else {
        assert(obj_count(b) == 32 && bitmap_words(b) == 1 && obj_overhead(b) == 1);
    }
}

/// Clearing and setting a bit changes that bit alone; no bit of zero is set.
proof fn lemma_word_bits(w: u64, t: u64)
    by (bit_vector)
    requires
        t < 64,
    ensures
        forall|j: u64| j < 64 ==> (#[trigger] ((w & !(1u64 << t)) >> j) & 1 == 1) == ((w >> j) & 1 == 1 && j != t),
        forall|j: u64| j < 64 ==> (#[trigger] ((w | (1u64 << t)) >> j) & 1 == 1) == ((w >> j) & 1 == 1 || j == t),
        forall|j: u64| j < 64 ==> #[trigger] (0u64 >> j) & 1 == 0,
{
}

/// The sizes of bucket `bucket`.
fn bucket_sizes(bucket: u8) -> (r: (usize, usize, usize, usize))
    requires
        bucket < 6,
    ensures
        r.0 == obj_size(bucket as int),
        r.1 == obj_count(bucket as int),
        r.2 == bitmap_words(bucket as int),
        r.3 == obj_overhead(bucket as int),
        r.3 < r.1 <= 64 * r.2,
        r.1 * r.0 == SLAB_SIZE,
{
    if bucket == 0 {
        (8, 1024, 16, 19)
    } else if bucket == 1 {
        (16, 512, 8, 6)
    } else if bucket == 2 {
        (32, 256, 4, 2)
    } else if bucket == 3 {
        (64, 128, 2, 1)
    } else if bucket == 4 {
        (128, 64, 1, 1)
    } else {
        (256, 32, 1, 1)
    }
}

/// A slab: its address, bucket, count of free objects and bitmap.
pub struct Slab {
    base: usize,
    bucket: u8,
    free: u16,
    bitmap: Vec<u64>,
}

impl Slab {
    /// The slab's address.
    pub closed spec fn addr(&self) -> int {
        self.base as int
    }

    /// The slab's bucket.
    pub closed spec fn bucket_of(&self) -> int {
        self.bucket as int
    }

    /// The count of free objects.
    pub closed spec fn free_count(&self) -> int {
        self.free as int
    }

    /// Whether object `i` is free.
    pub closed spec fn is_free(&self, i: int) -> bool {
        bits_set(self.bitmap@, i)
    }

    /// The free objects.
    pub open spec fn free_objs(&self) -> Set<int> {
        Set::new(|i: int| self.is_free(i))
    }

    /// The slab's invariant: only objects past the overhead are free, the
    /// count is right, and the slab is an aligned block of the address
    /// space.
    pub closed spec fn wf(&self) -> bool {
        &&& self.bucket < 6
        &&& self.bitmap@.len() == bitmap_words(self.bucket as int)
        &&& forall|i: int| #[trigger] self.is_free(i) ==> obj_overhead(self.bucket as int) <= i < obj_count(self.bucket as int)
        &&& self.free_objs().finite()
        &&& self.free == self.free_objs().len()
        &&& self.base % SLAB_SIZE == 0
        &&& self.base + SLAB_SIZE <= usize::MAX
    }

    /// What the invariant tells of the slab.
    pub proof fn lemma_wf(&self)
        requires
            self.wf(),
        ensures
            0 <= self.bucket_of() < 6,
            self.free_count() <= true_obj_count(self.bucket_of()),
            self.addr() % SLAB_SIZE as int == 0,
            self.addr() + SLAB_SIZE <= usize::MAX,
            forall|i: int| self.free_objs().contains(i) ==> obj_overhead(self.bucket_of()) <= i < obj_count(self.bucket_of()),
    {
        lemma_bucket_facts(self.bucket as int);
        vstd::set_lib::lemma_int_range(obj_overhead(self.bucket as int), obj_count(self.bucket as int));
        vstd::set_lib::lemma_len_subset(
            self.free_objs(),
            vstd::set_lib::set_int_range(obj_overhead(self.bucket as int), obj_count(self.bucket as int)),
        );
    }

    /// A slab of `bucket` at address `base` with every object past the
    /// overhead free.
    fn fresh(base: usize, bucket: u8) -> (r: Slab)
        requires
            bucket < 6,
            base % SLAB_SIZE == 0,
            base + SLAB_SIZE <= usize::MAX,
        ensures
            r.wf(),
            r.addr() == base,
            r.bucket_of() == bucket,
            r.free_objs() == Set::new(|i: int| obj_overhead(bucket as int) <= i < obj_count(bucket as int)),
            r.free_count() == true_obj_count(bucket as int),
    {
        let (_size, count, words, overhead) = bucket_sizes(bucket);
        let mut bitmap: Vec<u64> = Vec::new();
        let mut w: usize = 0;
        while w < words
            invariant
                w <= words,
                bitmap@.len() == w,
                forall|k: int| 0 <= k < w ==> bitmap@[k] == 0,
            decreases words - w,
        {
            bitmap.push(0);
            w = w + 1;
        }
        let mut i: usize = overhead;
        proof {
            assert forall|j: int| #[trigger] bits_set(bitmap@, j) == (overhead <= j < i) by {
                if 0 <= j < 64 * bitmap@.len() {
                    lemma_word_bits(0, 0);
                    assert(bitmap@[j / 64] == 0);
                    assert((0u64 >> ((j % 64) as u64)) & 1 == 0);
                }
            }
        }
        while i < count
            invariant
                overhead <= i <= count,
                count <= 64 * words,
                bitmap@.len() == words,
                words == bitmap_words(bucket as int),
                forall|j: int| #[trigger] bits_set(bitmap@, j) == (overhead <= j < i),
            decreases count - i,
        {
            let ghost b0 = bitmap@;
            let k = i / 64;
            let t = (i % 64) as u64;
            let old_w = bitmap[k];
            bitmap.set(k, old_w | (1u64 << t));
            proof {
                lemma_word_bits(old_w, t);
                assert forall|j: int| #[trigger] bits_set(bitmap@, j) == (overhead <= j < i + 1) by {
                    assert(bits_set(b0, j) == (overhead <= j < i));
                    if 0 <= j < 64 * words {
                        if j / 64 == k {
                            let jj = (j % 64) as u64;
                            assert(jj < 64);
                            assert(((old_w | (1u64 << t)) >> jj) & 1 == 1 <==> ((old_w >> jj) & 1 == 1 || jj == t));
                            assert((jj == t) == (j == i));
                        } else {
                            assert(bitmap@[j / 64] == b0[j / 64]);
                        }
                    }
                }
            }
            i = i + 1;
        }
        proof {
            lemma_bucket_facts(bucket as int);
        }
        let free = (count - overhead) as u16;
        let r = Slab { base, bucket, free, bitmap };
        proof {
            assert(r.free_objs() =~= vstd::set_lib::set_int_range(overhead as int, count as int));
            vstd::set_lib::lemma_int_range(overhead as int, count as int);
        }
        r
    }
}

impl Slab {
    /// Allocate and initialize a new slab of `bucket` from a fresh block of
    /// two pages, addressed through the direct map at `hhdm`.
    pub fn new(pmm: &mut Pmm, bucket: u8, hhdm: usize) -> (r: Result<Slab, AllocError>)
        requires
            old(pmm).wf(),
            bucket < 6,
            hhdm % SLAB_SIZE == 0,
            hhdm + old(pmm).pages().dom_end() * PAGE_SIZE <= usize::MAX,
        ensures
            final(pmm).wf(),
            final(pmm).pages().dom_start() == old(pmm).pages().dom_start(),
            final(pmm).pages().dom_end() == old(pmm).pages().dom_end(),
            match r {
                Ok(s) => {
                    let ppn = (s.addr() - hhdm) / PAGE_SIZE as int;
                    &&& s.wf()
                    &&& s.bucket_of() == bucket
                    &&& s.free_objs() == Set::new(|i: int| obj_overhead(bucket as int) <= i < obj_count(bucket as int))
                    &&& s.free_count() == true_obj_count(bucket as int)
                    &&& hhdm <= s.addr()
                    &&& (s.addr() - hhdm) % PAGE_SIZE as int == 0
                    &&& old(pmm).pages().free_pages().contains(ppn)
                    &&& final(pmm).pages().allocated_block(ppn, SLAB_BUDDY_ORDER as nat)
                    &&& final(pmm).pages().page(ppn).usage == PageUsage::KernelSlabs
                    &&& forall|p: int|
                        #![trigger final(pmm).pages().page(p)]
                        old(pmm).pages().dom_start() <= p < old(pmm).pages().dom_end() && !old(
                            pmm,
                        ).pages().free_pages().contains(p) ==> final(pmm).pages().page(p) == old(pmm).pages().page(p)
                },
                Err(_) => *final(pmm) == *old(pmm) && !old(pmm).pages().has_free_block(SLAB_BUDDY_ORDER as int),
            },
    {
        let mem = RawMemory::new(pmm, SLAB_BUDDY_ORDER, PageUsage::KernelSlabs)?;
        let ppn = mem.ppn();
        proof {
            crate::buddy::lemma_pow2_facts(0);
            crate::buddy::lemma_pow2_facts(1);
            vstd::arithmetic::power2::lemma2_to64();
            assert(crate::buddy::in_block(ppn as int, ppn as int, 1));
            assert(ppn % 2 == 0);
            assert(ppn + 2 <= pmm.pages().dom_end());
            assert(ppn * 4096 + 8192 <= pmm.pages().dom_end() * 4096) by (nonlinear_arith)
                requires
                    ppn + 2 <= pmm.pages().dom_end(),
            ;
            assert((hhdm + ppn * 4096) % 8192 == 0) by (nonlinear_arith)
                requires
                    hhdm % 8192 == 0,
                    ppn % 2 == 0,
            ;
        }
        let base = mem.hhdm_ptr(hhdm);
        let slab = Slab::fresh(base, bucket);
        proof {
            assert((base - hhdm) / 4096 == ppn as int) by (nonlinear_arith)
                requires
                    base == ppn * 4096 + hhdm,
            ;
            assert((base - hhdm) % 4096 == 0) by (nonlinear_arith)
                requires
                    base == ppn * 4096 + hhdm,
            ;
        }
        Ok(slab)
    }

    /// The index of the object at address `ptr` of this slab.
    pub open spec fn obj_index(&self, ptr: int) -> int {
        (ptr - self.addr()) / obj_size(self.bucket_of())
    }

    /// `s1` is `self` after handing out the object at `r`, the lowest free
    /// one.
    pub open spec fn obj_alloc_step(&self, s1: Slab, r: int) -> bool {
        let idx = self.obj_index(r);
        &&& s1.addr() == self.addr()
        &&& s1.bucket_of() == self.bucket_of()
        &&& self.addr() <= r
        &&& r == self.addr() + idx * obj_size(self.bucket_of())
        &&& self.free_objs().contains(idx)
        &&& forall|j: int| 0 <= j < idx ==> !self.free_objs().contains(j)
        &&& s1.free_objs() == self.free_objs().remove(idx)
        &&& s1.free_count() == self.free_count() - 1
    }

    /// Whether the object at `ptr` can be freed: it lies past the overhead
    /// and is in use.
    pub open spec fn obj_freeable(&self, ptr: int) -> bool {
        let idx = self.obj_index(ptr);
        &&& self.addr() <= ptr
        &&& obj_overhead(self.bucket_of()) <= idx < obj_count(self.bucket_of())
        &&& !self.free_objs().contains(idx)
    }

    /// `s1` is `self` after the object at `ptr` was freed.
    pub open spec fn obj_free_step(&self, s1: Slab, ptr: int) -> bool {
        &&& s1.addr() == self.addr()
        &&& s1.bucket_of() == self.bucket_of()
        &&& s1.free_objs() == self.free_objs().insert(self.obj_index(ptr))
        &&& s1.free_count() == self.free_count() + 1
    }

    /// Hand out the lowest free object: its bit is cleared and its address
    /// returned.
    #[verifier::loop_isolation(false)]
    pub fn allocate(&mut self) -> (r: usize)
        requires
            old(self).wf(),
            old(self).free_count() > 0,
        ensures
            final(self).wf(),
            old(self).obj_alloc_step(*final(self), r as int),
    {
        let ghost s0 = *self;
        let (size, count, words, overhead) = bucket_sizes(self.bucket);
        let mut i: usize = 0;
        while i < self.bitmap.len()
            invariant
                *self == s0,
                s0.wf(),
                s0.free_count() > 0,
                i <= self.bitmap@.len(),
                forall|j: int| 0 <= j < 64 * i ==> !#[trigger] bits_set(self.bitmap@, j),
            decreases self.bitmap@.len() - i,
        {
            let w = self.bitmap[i];
            if w != 0 {
                let lsb = w.trailing_zeros();
                proof {
                    vstd::std_specs::bits::axiom_u64_trailing_zeros(w);
                }
                let idx = i * 64 + lsb as usize;
                let ghost b0 = self.bitmap@;
                self.bitmap.set(i, w & !(1u64 << (lsb as u64)));
                proof {
                    lemma_word_bits(w, lsb as u64);
                    lemma_bucket_facts(s0.bucket as int);
                    assert(bits_set(b0, idx as int));
                    assert(s0.is_free(idx as int));
                    assert forall|j: int| 0 <= j < idx implies !#[trigger] s0.free_objs().contains(j) by {
                        if j >= 64 * i {
                            assert(j / 64 == i);
                            let jj = (j % 64) as u64;
                            assert(jj < lsb);
                            assert((w >> jj) & 1u64 == 0u64);
                        }
                    }
                    assert forall|j: int| #[trigger] bits_set(self.bitmap@, j) == (bits_set(b0, j) && j != idx) by {
                        if 0 <= j < 64 * self.bitmap@.len() {
                            if j / 64 == i {
                                let jj = (j % 64) as u64;
                                assert(jj < 64);
                                assert((jj == lsb as u64) == (j == idx));
                            } else {
                                assert(self.bitmap@[j / 64] == b0[j / 64]);
                            }
                        }
                    }
                    assert(self.free_objs() =~= s0.free_objs().remove(idx as int));
                    assert(idx < obj_count(s0.bucket as int));
                    assert(idx * size + size <= 8192) by (nonlinear_arith)
                        requires
                            idx < count,
                            count * size == 8192,
                    ;
                }
                self.free = self.free - 1;
                proof {
                    assert(self.bucket < 6);
                    assert(self.bitmap@.len() == bitmap_words(self.bucket as int));
                    assert forall|j: int| #[trigger] self.is_free(j) implies obj_overhead(self.bucket as int) <= j < obj_count(self.bucket as int) by {
                        assert(bits_set(self.bitmap@, j));
                        assert(s0.is_free(j));
                    }
                    assert(self.free_objs() =~= s0.free_objs().remove(idx as int));
                }
                let r = self.base + idx * size;
                proof {
                    assert((r - s0.base) / size as int == idx) by (nonlinear_arith)
                        requires
                            r == s0.base + idx * size,
                            size > 0,
                    ;
                }
                return r;
            }
            proof {
                lemma_word_bits(0, 0);
                assert forall|j: int| 0 <= j < 64 * (i + 1) implies !#[trigger] bits_set(self.bitmap@, j) by {
                    if j >= 64 * i {
                        assert(j / 64 == i);
                        assert(((0u64 >> ((j % 64) as u64)) & 1) == 0);
                    }
                }
            }
            i = i + 1;
        }
        proof {
            assert(s0.free_objs() =~= Set::<int>::empty());
            assert(false);
        }
        self.base
    }

    /// Take back object `(ptr - addr) / size`, which is in use.
    pub fn free(&mut self, ptr: usize)
        requires
            old(self).wf(),
            old(self).obj_freeable(ptr as int),
        ensures
            final(self).wf(),
            old(self).obj_free_step(*final(self), ptr as int),
    {
        let ghost s0 = *self;
        let (size, count, words, overhead) = bucket_sizes(self.bucket);
        let idx = (ptr - self.base) / size;
        let k = idx / 64;
        let t = (idx % 64) as u64;
        let ghost b0 = self.bitmap@;
        let w = self.bitmap[k];
        self.bitmap.set(k, w | (1u64 << t));
        proof {
            lemma_word_bits(w, t);
            lemma_bucket_facts(s0.bucket as int);
            assert forall|j: int| #[trigger] bits_set(self.bitmap@, j) == (bits_set(b0, j) || j == idx) by {
                if 0 <= j < 64 * self.bitmap@.len() {
                    if j / 64 == k {
                        let jj = (j % 64) as u64;
                        assert(jj < 64);
                        assert((jj == t) == (j == idx));
                    } else {
                        assert(self.bitmap@[j / 64] == b0[j / 64]);
                    }
                }
            }
            assert(self.free_objs() =~= s0.free_objs().insert(idx as int));
            assert(self.free_objs().len() == s0.free_objs().len() + 1);
            vstd::set_lib::lemma_int_range(overhead as int, count as int);
            let rest = vstd::set_lib::set_int_range(overhead as int, count as int).remove(idx as int);
            assert(s0.free_objs().subset_of(rest));
            vstd::set_lib::lemma_len_subset(s0.free_objs(), rest);
        }
        self.free = self.free + 1;
        proof {
            assert(self.free_objs() =~= s0.free_objs().insert(idx as int));
            assert forall|j: int| #[trigger] self.is_free(j) implies obj_overhead(self.bucket as int) <= j < obj_count(self.bucket as int) by {
                assert(bits_set(self.bitmap@, j));
                if j != idx {
                    assert(s0.is_free(j));
                }
            }
        }
    }
}

/// The bucket that an object of `min_size` bytes comes from.
pub open spec fn bucket_for(min_size: int) -> int {
    if min_size <= 8 { 0 } else if min_size <= 16 { 1 } else if min_size <= 32 { 2 } else if min_size <= 64 { 3 } else if min_size <= 128 { 4 } else { 5 }
}

/// The slab allocator: every slab, each of one bucket, addressed through
/// the direct map at `hhdm`.
pub struct Slabs {
    slabs: Vec<Slab>,
    hhdm: usize,
}

impl Slabs {
    /// Number of slabs.
    pub closed spec fn len(&self) -> int {
        self.slabs@.len() as int
    }

    /// Slab `i`.
    pub closed spec fn slab(&self, i: int) -> Slab {
        self.slabs@[i]
    }

    /// The direct map's offset.
    pub closed spec fn hhdm_offset(&self) -> int {
        self.hhdm as int
    }

    /// Slab `i` has objects that are free.
    pub open spec fn has_free(&self, i: int) -> bool {
        self.slab(i).free_count() > 0
    }

    /// Slab `i` is of bucket `b` and has objects both free and in use.
    pub open spec fn partial(&self, i: int, b: int) -> bool {
        self.slab(i).bucket_of() == b && 0 < self.slab(i).free_count() < true_obj_count(b)
    }

    /// Slab `i` is of bucket `b` and all its objects are free.
    pub open spec fn empty(&self, i: int, b: int) -> bool {
        self.slab(i).bucket_of() == b && self.slab(i).free_count() == true_obj_count(b)
    }

    /// The allocator's invariant: every slab is well formed, and no two
    /// share an address.
    pub closed spec fn wf(&self) -> bool {
        &&& forall|i: int| 0 <= i < self.slabs@.len() ==> (#[trigger] self.slabs@[i]).wf()
        &&& forall|i: int, j: int| 0 <= i < j < self.slabs@.len() ==> (#[trigger] self.slabs@[i]).addr() != (#[trigger] self.slabs@[j]).addr()
        &&& self.hhdm % SLAB_SIZE == 0
    }

    /// What the invariant tells of the slabs.
    pub proof fn lemma_wf(&self)
        requires
            self.wf(),
        ensures
            forall|i: int| 0 <= i < self.len() ==> #[trigger] self.slab(i).wf(),
            forall|i: int, j: int| 0 <= i < self.len() && 0 <= j < self.len() && i != j ==> self.slab(i).addr() != self.slab(j).addr(),
            self.hhdm_offset() % SLAB_SIZE as int == 0,
    {
        assert forall|i: int, j: int| 0 <= i < self.len() && 0 <= j < self.len() && i != j implies self.slab(i).addr() != self.slab(j).addr() by {
            if i < j {
                assert(self.slabs@[i].addr() != self.slabs@[j].addr());
            } else {
                assert(self.slabs@[j].addr() != self.slabs@[i].addr());
            }
        }
    }

    /// Every slab is a block of two pages of kernel slab memory of `pmm`,
    /// and the direct map reaches all of `pmm`'s pages.
    pub open spec fn linked(&self, pmm: &Pmm) -> bool {
        &&& self.hhdm_offset() + pmm.pages().dom_end() * PAGE_SIZE <= usize::MAX
        &&& forall|i: int|
            0 <= i < self.len() ==> {
                let a = #[trigger] self.slab(i).addr();
                let p = (a - self.hhdm_offset()) / PAGE_SIZE as int;
                &&& self.hhdm_offset() <= a
                &&& (a - self.hhdm_offset()) % PAGE_SIZE as int == 0
                &&& pmm.pages().dom_start() <= p && p + 1 < pmm.pages().dom_end()
                &&& pmm.pages().page(p).usage == PageUsage::KernelSlabs
                &&& pmm.pages().page(p + 1).usage == PageUsage::KernelSlabs
            }
    }

    /// No slabs yet, over the direct map at `hhdm`.
    pub fn new(hhdm: usize) -> (r: Self)
        requires
            hhdm % SLAB_SIZE == 0,
        ensures
            r.wf(),
            r.len() == 0,
            r.hhdm_offset() == hhdm,
    {
        Slabs { slabs: Vec::new(), hhdm }
    }

    /// Add a new slab of bucket `b`, if memory for it can be had.
    fn grow(&mut self, pmm: &mut Pmm, b: u8)
        requires
            old(self).wf(),
            old(pmm).wf(),
            old(self).linked(&*old(pmm)),
            b < 6,
        ensures
            final(self).wf(),
            final(pmm).wf(),
            final(self).linked(&*final(pmm)),
            final(pmm).pages().dom_start() == old(pmm).pages().dom_start(),
            final(pmm).pages().dom_end() == old(pmm).pages().dom_end(),
            final(self).hhdm_offset() == old(self).hhdm_offset(),
            final(self).len() == old(self).len() || final(self).len() == old(self).len() + 1,
            forall|i: int| 0 <= i < old(self).len() ==> #[trigger] final(self).slab(i) == old(self).slab(i),
            final(self).len() == old(self).len() + 1 ==> final(self).empty(old(self).len(), b as int) && final(self).slab(
                old(self).len(),
            ).free_objs() == Set::new(|k: int| obj_overhead(b as int) <= k < obj_count(b as int)),
            final(self).len() == old(self).len() ==> *final(pmm) == *old(pmm) && !old(pmm).pages().has_free_block(
                SLAB_BUDDY_ORDER as int,
            ),
    {
        let ghost s0 = *self;
        let ghost p0 = *pmm;
        match Slab::new(pmm, b, self.hhdm) {
            Ok(slab) => {
                let ghost na = slab.addr();
                proof {
                    s0.lemma_wf();
                    assert forall|i: int| 0 <= i < s0.len() implies #[trigger] s0.slab(i).addr() != na by {
                        let a = s0.slab(i).addr();
                        let p = (a - s0.hhdm) / PAGE_SIZE as int;
                        assert(p0.pages().page(p).usage == PageUsage::KernelSlabs);
                        assert(!p0.pages().free_pages().contains(p));
                        if a == na {
                            assert(p0.pages().free_pages().contains((na - s0.hhdm) / PAGE_SIZE as int));
                        }
                    }
                }
                self.slabs.push(slab);
                proof {
                    assert forall|i: int| 0 <= i < self.slabs@.len() implies (#[trigger] self.slabs@[i]).wf() by {
                        if i < s0.len() {
                            assert(self.slabs@[i] == s0.slabs@[i]);
                        }
                    }
                    assert forall|i: int, j: int| 0 <= i < j < self.slabs@.len() implies (#[trigger] self.slabs@[i]).addr()
                        != (#[trigger] self.slabs@[j]).addr() by {
                        if j < s0.len() {
                            assert(s0.slabs@[i].addr() != s0.slabs@[j].addr());
                        } else {
                            assert(s0.slab(i).addr() != na);
                        }
                    }
                    assert forall|i: int| 0 <= i < self.len() implies {
                        let a = #[trigger] self.slab(i).addr();
                        let p = (a - self.hhdm_offset()) / PAGE_SIZE as int;
                        &&& self.hhdm_offset() <= a
                        &&& (a - self.hhdm_offset()) % PAGE_SIZE as int == 0
                        &&& pmm.pages().dom_start() <= p && p + 1 < pmm.pages().dom_end()
                        &&& pmm.pages().page(p).usage == PageUsage::KernelSlabs
                        &&& pmm.pages().page(p + 1).usage == PageUsage::KernelSlabs
                    } by {
                        if i < s0.len() {
                            let a = s0.slab(i).addr();
                            let p = (a - s0.hhdm) / PAGE_SIZE as int;
                            assert(self.slab(i) == s0.slab(i));
                            assert(p0.pages().page(p).usage == PageUsage::KernelSlabs);
                            assert(!p0.pages().free_pages().contains(p));
                            assert(pmm.pages().page(p) == p0.pages().page(p));
                            assert(!p0.pages().free_pages().contains(p + 1));
                            assert(pmm.pages().page(p + 1) == p0.pages().page(p + 1));
                        } else {
                            let p = (na - s0.hhdm) / PAGE_SIZE as int;
                            crate::buddy::lemma_pow2_facts(1);
                            assert(crate::buddy::in_block(p, p, 1));
                            vstd::arithmetic::power2::lemma2_to64();
                            assert(crate::buddy::in_block(p + 1, p, 1));
                            assert(pmm.pages().page(p + 1).usage == pmm.pages().page(p).usage);
                        }
                    }
                }
            },
            Err(_) => {},
        }
    }
}

impl Slabs {
    /// The first slab of bucket `b` that is partly used, or, with
    /// `want_empty`, wholly free.
    fn find(&self, b: u8, want_empty: bool) -> (r: Option<usize>)
        requires
            self.wf(),
            b < 6,
        ensures
            match r {
                Some(i) => i < self.len() && (if want_empty { self.empty(i as int, b as int) } else { self.partial(i as int, b as int) })
                    && forall|j: int| 0 <= j < i ==> !(if want_empty { self.empty(j, b as int) } else { self.partial(j, b as int) }),
                None => forall|j: int| 0 <= j < self.len() ==> !(if want_empty { self.empty(j, b as int) } else { self.partial(j, b as int) }),
            },
    {
        let (_size, count, _words, overhead) = bucket_sizes(b);
        let total = count - overhead;
        let mut i: usize = 0;
        while i < self.slabs.len()
            invariant
                self.wf(),
                b < 6,
                total == true_obj_count(b as int),
                i <= self.slabs@.len(),
                forall|j: int| 0 <= j < i ==> !(if want_empty { self.empty(j, b as int) } else { self.partial(j, b as int) }),
            decreases self.slabs@.len() - i,
        {
            let s = &self.slabs[i];
            let hit = if want_empty {
                s.bucket == b && s.free as usize == total
            } else {
                s.bucket == b && s.free > 0 && (s.free as usize) < total
            };
            if hit {
                return Some(i);
            }
            i = i + 1;
        }
        None
    }

    /// Make up to four new slabs of bucket `b` when it has no slab with a
    /// free object.
    #[verifier::loop_isolation(false)]
    fn prepare(&mut self, pmm: &mut Pmm, b: u8)
        requires
            old(self).wf(),
            old(pmm).wf(),
            old(self).linked(&*old(pmm)),
            b < 6,
        ensures
            final(self).wf(),
            final(pmm).wf(),
            final(self).linked(&*final(pmm)),
            final(pmm).pages().dom_start() == old(pmm).pages().dom_start(),
            final(pmm).pages().dom_end() == old(pmm).pages().dom_end(),
            final(self).hhdm_offset() == old(self).hhdm_offset(),
            old(self).len() <= final(self).len() <= old(self).len() + 4,
            forall|j: int| 0 <= j < old(self).len() ==> #[trigger] final(self).slab(j) == old(self).slab(j),
            forall|j: int| old(self).len() <= j < final(self).len() ==> #[trigger] final(self).empty(j, b as int),
            forall|j: int| old(self).len() <= j < final(self).len() ==> #[trigger] final(self).slab(j).free_objs() == Set::new(
                |k: int| obj_overhead(b as int) <= k < obj_count(b as int),
            ),
            (exists|j: int| 0 <= j < old(self).len() && (old(self).partial(j, b as int) || old(self).empty(j, b as int)))
                ==> final(self).len() == old(self).len(),
            final(self).len() == old(self).len() && !(exists|j: int|
                0 <= j < old(self).len() && (old(self).partial(j, b as int) || old(self).empty(j, b as int))) ==> *final(pmm)
                == *old(pmm) && !old(pmm).pages().has_free_block(SLAB_BUDDY_ORDER as int),
    {
        let ghost s0 = *self;
        let ghost p0 = *pmm;
        let p = self.find(b, false);
        let e = self.find(b, true);
        if p.is_none() && e.is_none() {
            let mut n: usize = 0;
            while n < 4
                invariant
                    self.wf(),
                    pmm.wf(),
                    self.linked(&*pmm),
                    b < 6,
                    pmm.pages().dom_start() == p0.pages().dom_start(),
                    pmm.pages().dom_end() == p0.pages().dom_end(),
                    self.hhdm_offset() == s0.hhdm_offset(),
                    n <= 4,
                    s0.len() <= self.len() <= s0.len() + n,
                    forall|j: int| 0 <= j < s0.len() ==> #[trigger] self.slab(j) == s0.slab(j),
                    forall|j: int| s0.len() <= j < self.len() ==> #[trigger] self.empty(j, b as int),
                    forall|j: int| s0.len() <= j < self.len() ==> #[trigger] self.slab(j).free_objs() == Set::new(
                        |k: int| obj_overhead(b as int) <= k < obj_count(b as int),
                    ),
                    self.len() == s0.len() ==> *pmm == p0 && (n > 0 ==> !p0.pages().has_free_block(SLAB_BUDDY_ORDER as int)),
                decreases 4 - n,
            {
                let ghost sb = *self;
                self.grow(pmm, b);
                proof {
                    assert forall|j: int| s0.len() <= j < self.len() implies #[trigger] self.empty(j, b as int) by {
                        if j < sb.len() {
                            assert(sb.empty(j, b as int));
                            assert(self.slab(j) == sb.slab(j));
                        }
                    }
                    assert forall|j: int| s0.len() <= j < self.len() implies #[trigger] self.slab(j).free_objs() == Set::new(
                        |k: int| obj_overhead(b as int) <= k < obj_count(b as int),
                    ) by {
                        if j < sb.len() {
                            assert(self.slab(j) == sb.slab(j));
                        }
                    }
                    assert forall|j: int| 0 <= j < s0.len() implies #[trigger] self.slab(j) == s0.slab(j) by {
                        assert(self.slab(j) == sb.slab(j));
                    }
                }
                n = n + 1;
            }
        } else {
            proof {
                if p is Some {
                    assert(s0.partial(p->0 as int, b as int));
                } else {
                    assert(s0.empty(e->0 as int, b as int));
                }
            }
        }
    }

    /// Hand out an object of bucket `b` from the first partly used slab of
    /// it, else from the first wholly free one, and say which slab it was.
    fn take(&mut self, b: u8) -> (r: Option<(usize, usize)>)
        requires
            old(self).wf(),
            b < 6,
        ensures
            final(self).wf(),
            final(self).len() == old(self).len(),
            final(self).hhdm_offset() == old(self).hhdm_offset(),
            forall|pmm: Pmm| old(self).linked(&pmm) ==> final(self).linked(&pmm),
            match r {
                Some((i, ptr)) => {
                    let bb = b as int;
                    let a = old(self).slab(i as int).addr();
                    let idx = (ptr - a) / obj_size(bb);
                    let before = old(self).slab(i as int).free_objs();
                    &&& i < old(self).len()
                    &&& old(self).partial(i as int, bb) || old(self).empty(i as int, bb)
                    &&& (exists|j: int| 0 <= j < old(self).len() && old(self).partial(j, bb)) ==> old(self).partial(i as int, bb)
                        && forall|j: int| 0 <= j < i ==> !old(self).partial(j, bb)
                    &&& !(exists|j: int| 0 <= j < old(self).len() && old(self).partial(j, bb)) ==> old(self).empty(i as int, bb)
                        && forall|j: int| 0 <= j < i ==> !old(self).empty(j, bb)
                    &&& final(self).slab(i as int).addr() == a
                    &&& final(self).slab(i as int).bucket_of() == bb
                    &&& a <= ptr && ptr == a + idx * obj_size(bb)
                    &&& before.contains(idx)
                    &&& forall|k: int| 0 <= k < idx ==> !before.contains(k)
                    &&& final(self).slab(i as int).free_objs() == before.remove(idx)
                    &&& forall|j: int| 0 <= j < old(self).len() && j != i ==> #[trigger] final(self).slab(j) == old(self).slab(j)
                },
                None => *final(self) == *old(self) && forall|j: int|
                    0 <= j < old(self).len() ==> !old(self).partial(j, b as int) && !old(self).empty(j, b as int),
            },
    {
        let ghost s1 = *self;
        let pick = match self.find(b, false) {
            Some(i) => Some(i),
            None => self.find(b, true),
        };
        match pick {
            None => None,
            Some(i) => {
                proof {
                    s1.lemma_wf();
                    lemma_bucket_facts(b as int);
                }
                let mut slab = self.slabs.remove(i);
                let ptr = slab.allocate();
                self.slabs.insert(i, slab);
                proof {
                    assert forall|j: int| 0 <= j < self.slabs@.len() implies (#[trigger] self.slabs@[j]).wf() by {
                        if j != i {
                            assert(self.slabs@[j] == s1.slabs@[j]);
                            assert(s1.slab(j).wf());
                        }
                    }
                    assert forall|x: int, y: int| 0 <= x < y < self.slabs@.len() implies (#[trigger] self.slabs@[x]).addr()
                        != (#[trigger] self.slabs@[y]).addr() by {
                        assert(s1.slab(x).addr() != s1.slab(y).addr());
                        assert(self.slab(x).addr() == s1.slab(x).addr());
                        assert(self.slab(y).addr() == s1.slab(y).addr());
                    }
                    assert forall|j: int| 0 <= j < self.len() implies #[trigger] self.slab(j).addr() == s1.slab(j).addr() by {}
                    assert(self.slab(i as int) == slab);
                    assert forall|j: int| 0 <= j < s1.len() && j != i implies #[trigger] self.slab(j) == s1.slab(j) by {}
                }
                Some((i, ptr))
            },
        }
    }

    /// Allocate an object of at least `min_size` bytes from the smallest
    /// bucket that fits it: the lowest free object of the first partly used
    /// slab of that bucket, else of the first wholly free one. When the
    /// bucket has neither, up to four new slabs are made first.
    #[verifier::loop_isolation(false)]
    pub fn allocate(&mut self, pmm: &mut Pmm, min_size: usize) -> (r: Result<usize, AllocError>)
        requires
            old(self).wf(),
            old(pmm).wf(),
            old(self).linked(&*old(pmm)),
            min_size <= BUCKET_SIZE_MAX,
        ensures
            final(self).wf(),
            final(pmm).wf(),
            final(self).linked(&*final(pmm)),
            final(pmm).pages().dom_start() == old(pmm).pages().dom_start(),
            final(pmm).pages().dom_end() == old(pmm).pages().dom_end(),
            final(self).hhdm_offset() == old(self).hhdm_offset(),
            old(self).len() <= final(self).len() <= old(self).len() + 4,
            ({
                let b = bucket_for(min_size as int);
                let old_partial = exists|j: int| 0 <= j < old(self).len() && old(self).partial(j, b);
                let old_empty = exists|j: int| 0 <= j < old(self).len() && old(self).empty(j, b);
                &&& (old_partial || old_empty) ==> final(self).len() == old(self).len()
                &&& forall|j: int|
                    old(self).len() <= j < final(self).len() ==> #[trigger] final(self).slab(j).bucket_of() == b
                &&& match r {
                    Ok(ptr) => exists|i: int|
                        #![trigger final(self).slab(i)]
                        0 <= i < final(self).len() && {
                            let before = if i < old(self).len() {
                                old(self).slab(i).free_objs()
                            } else {
                                Set::new(|k: int| obj_overhead(b) <= k < obj_count(b))
                            };
                            let a = final(self).slab(i).addr();
                            let idx = (ptr - a) / obj_size(b);
                            &&& final(self).slab(i).bucket_of() == b
                            &&& a <= ptr && ptr == a + idx * obj_size(b)
                            &&& before.contains(idx)
                            &&& forall|k: int| 0 <= k < idx ==> !before.contains(k)
                            &&& final(self).slab(i).free_objs() == before.remove(idx)
                            &&& (old_partial ==> old(self).partial(i, b) && forall|j: int| 0 <= j < i ==> !old(self).partial(j, b))
                            &&& (!old_partial && old_empty ==> old(self).empty(i, b) && forall|j: int| 0 <= j < i ==> !old(self).empty(j, b))
                            &&& (!old_partial && !old_empty ==> i == old(self).len())
                            &&& forall|j: int| 0 <= j < old(self).len() && j != i ==> #[trigger] final(self).slab(j) == old(self).slab(j)
                            &&& forall|j: int| old(self).len() <= j < final(self).len() && j != i ==> #[trigger] final(self).empty(j, b)
                        },
                    Err(_) => !old_partial && !old_empty && final(self).len() == old(self).len() && *final(pmm) == *old(pmm)
                        && !old(pmm).pages().has_free_block(SLAB_BUDDY_ORDER as int),
                }
            }),
            r matches Ok(ptr) ==> exists|i: int|
                #![trigger final(self).slab(i)]
                0 <= i < final(self).len() && {
                    let b = bucket_for(min_size as int);
                    let sl = final(self).slab(i);
                    let idx = (ptr - sl.addr()) / obj_size(b);
                    &&& sl.bucket_of() == b
                    &&& sl.addr() <= ptr && ptr == sl.addr() + idx * obj_size(b)
                    &&& obj_overhead(b) <= idx < obj_count(b)
                    &&& !sl.free_objs().contains(idx)
                },
    {
        let ghost s0 = *self;
        let ghost p0 = *pmm;
        let mut b: u8 = 0;
        while b < 5 && bucket_sizes(b).0 < min_size
            invariant
                b <= 5,
                min_size <= 256,
                forall|c: int| 0 <= c < b ==> obj_size(c) < min_size,
            decreases 5 - b,
        {
            b = b + 1;
        }
        proof {
            if b > 0 {
                assert(obj_size(b - 1) < min_size);
            }
            if b < 5 {
                assert(obj_size(b as int) >= min_size);
            }
            assert(b == bucket_for(min_size as int));
        }
        self.prepare(pmm, b);
        let ghost s1 = *self;
        let t = self.take(b);
        match t {
            None => {
                proof {
                    let bb = b as int;
                    assert forall|j: int| 0 <= j < s0.len() implies !s0.partial(j, bb) && !s0.empty(j, bb) by {
                        assert(s1.slab(j) == s0.slab(j));
                        assert(!s1.partial(j, bb) && !s1.empty(j, bb));
                    }
                    if s1.len() > s0.len() {
                        assert(s1.empty(s0.len(), bb));
                    }
                }
                Err(AllocError)
            },
            Some((i, ptr)) => {
                proof {
                    let bb = b as int;
                    let old_partial = exists|j: int| 0 <= j < s0.len() && s0.partial(j, bb);
                    let old_empty = exists|j: int| 0 <= j < s0.len() && s0.empty(j, bb);
                    assert forall|j: int| 0 <= j < s0.len() && j != i implies #[trigger] self.slab(j) == s0.slab(j) by {
                        assert(s1.slab(j) == s0.slab(j));
                    }
                    assert forall|j: int| s0.len() <= j < self.len() && j != i implies #[trigger] self.empty(j, bb) by {
                        assert(s1.empty(j, bb));
                    }
                    assert forall|j: int| s0.len() <= j < self.len() implies #[trigger] self.slab(j).bucket_of() == bb by {
                        assert(s1.empty(j, bb));
                    }
                    if old_partial {
                        let j0 = choose|j: int| 0 <= j < s0.len() && s0.partial(j, bb);
                        assert(s1.slab(j0) == s0.slab(j0));
                        assert(s1.partial(j0, bb));
                        assert(exists|j: int| 0 <= j < s1.len() && s1.partial(j, bb));
                        assert(s1.partial(i as int, bb));
                        assert(forall|j: int| 0 <= j < i ==> !s1.partial(j, bb));
                        assert(i < s0.len()) by {
                            if i >= s0.len() {
                                assert(s1.empty(i as int, bb));
                            }
                        }
                        assert(s1.slab(i as int) == s0.slab(i as int));
                        assert forall|j: int| 0 <= j < i implies !s0.partial(j, bb) by {
                            assert(s1.slab(j) == s0.slab(j));
                            assert(!s1.partial(j, bb));
                        }
                    } else if old_empty {
                        let j0 = choose|j: int| 0 <= j < s0.len() && s0.empty(j, bb);
                        assert(s1.slab(j0) == s0.slab(j0));
                        assert(s1.empty(j0, bb));
                        assert(s1.len() == s0.len());
                        assert forall|j: int| 0 <= j < s1.len() implies !s1.partial(j, bb) by {
                            assert(s1.slab(j) == s0.slab(j));
                            assert(!s0.partial(j, bb));
                        }
                        assert(s1.slab(i as int) == s0.slab(i as int));
                        assert(!(exists|j: int| 0 <= j < s1.len() && s1.partial(j, bb)));
                        assert forall|j: int| 0 <= j < i implies !s0.empty(j, bb) by {
                            assert(s1.slab(j) == s0.slab(j));
                            assert(!s1.empty(j, bb));
                        }
                    } else {
                        assert forall|j: int| 0 <= j < s1.len() implies !s1.partial(j, bb) by {
                            if j < s0.len() {
                                assert(s1.slab(j) == s0.slab(j));
                                assert(!s0.partial(j, bb));
                            } else {
                                assert(s1.empty(j, bb));
                                lemma_bucket_facts(bb);
                            }
                        }
                        assert(!(exists|j: int| 0 <= j < s1.len() && s1.partial(j, bb)));
                        assert(s1.empty(i as int, bb));
                        assert(forall|j: int| 0 <= j < i ==> !s1.empty(j, bb));
                        if i < s0.len() {
                            assert(s1.slab(i as int) == s0.slab(i as int));
                            assert(!s0.empty(i as int, bb));
                        }
                        if i > s0.len() {
                            assert(s1.empty(s0.len(), bb));
                            assert(!s1.empty(s0.len(), bb));
                        }
                        assert(i == s0.len());
                    }
                    let before = if i < s0.len() {
                        s0.slab(i as int).free_objs()
                    } else {
                        Set::new(|k: int| obj_overhead(bb) <= k < obj_count(bb))
                    };
                    assert(s1.slab(i as int).free_objs() == before);
                    assert(self.slab(i as int).addr() == s1.slab(i as int).addr());
                    s1.lemma_wf();
                    assert(s1.slab(i as int).wf());
                    s1.slab(i as int).lemma_wf();
                }
                Ok(ptr)
            },
        }
    }

    /// Take back the object at `ptr`, in use, in the slab whose block holds
    /// it.
    pub fn free(&mut self, ptr: usize)
        requires
            old(self).wf(),
            exists|i: int|
                #![trigger old(self).slab(i)]
                0 <= i < old(self).len() && old(self).slab(i).addr() == ptr - ptr % SLAB_SIZE && {
                    let idx = (ptr - old(self).slab(i).addr()) / obj_size(old(self).slab(i).bucket_of());
                    &&& obj_overhead(old(self).slab(i).bucket_of()) <= idx < obj_count(old(self).slab(i).bucket_of())
                    &&& !old(self).slab(i).free_objs().contains(idx)
                },
        ensures
            final(self).wf(),
            final(self).len() == old(self).len(),
            final(self).hhdm_offset() == old(self).hhdm_offset(),
            forall|i: int| 0 <= i < old(self).len() ==> #[trigger] final(self).slab(i).addr() == old(self).slab(i).addr(),
            forall|pmm: Pmm| old(self).linked(&pmm) ==> final(self).linked(&pmm),
            forall|i: int|
                #![trigger final(self).slab(i)]
                0 <= i < old(self).len() ==> if old(self).slab(i).addr() == ptr - ptr % SLAB_SIZE {
                    final(self).slab(i).bucket_of() == old(self).slab(i).bucket_of() && final(self).slab(i).free_objs()
                        == old(self).slab(i).free_objs().insert(
                        (ptr - old(self).slab(i).addr()) / obj_size(old(self).slab(i).bucket_of()),
                    )
                } else {
                    final(self).slab(i) == old(self).slab(i)
                },
    {
        let ghost s0 = *self;
        let base = ptr - ptr % SLAB_SIZE;
        let ghost w = choose|i: int|
            #![trigger s0.slab(i)]
            0 <= i < s0.len() && s0.slab(i).addr() == ptr - ptr % SLAB_SIZE && {
                let idx = (ptr - s0.slab(i).addr()) / obj_size(s0.slab(i).bucket_of());
                &&& obj_overhead(s0.slab(i).bucket_of()) <= idx < obj_count(s0.slab(i).bucket_of())
                &&& !s0.slab(i).free_objs().contains(idx)
            };
        proof {
            s0.lemma_wf();
        }
        let n = self.slabs.len();
        let mut i: usize = 0;
        while self.slabs[i].base != base
            invariant
                *self == s0,
                s0.wf(),
                0 <= w < s0.len(),
                s0.slab(w).addr() == base,
                w < self.slabs@.len(),
                n == self.slabs@.len(),
                self.slabs@[w].base == base,
                i <= w,
            decreases w - i,
        {
            i = i + 1;
        }
        proof {
            assert(i == w);
        }
        let mut slab = self.slabs.remove(i);
        slab.free(ptr);
        self.slabs.insert(i, slab);
        proof {
            assert forall|j: int| 0 <= j < self.slabs@.len() implies (#[trigger] self.slabs@[j]).wf() by {
                if j != i {
                    assert(self.slabs@[j] == s0.slabs@[j]);
                    assert(s0.slab(j).wf());
                }
            }
            assert forall|x: int, y: int| 0 <= x < y < self.slabs@.len() implies (#[trigger] self.slabs@[x]).addr()
                != (#[trigger] self.slabs@[y]).addr() by {
                assert(self.slab(x).addr() == s0.slab(x).addr());
                assert(self.slab(y).addr() == s0.slab(y).addr());
            }
            assert forall|j: int| 0 <= j < self.len() implies #[trigger] self.slab(j).addr() == s0.slab(j).addr() by {}
        }
    }
}

impl Slabs {
    /// The direct map's offset.
    pub fn hhdm(&self) -> (r: usize)
        ensures
            r == self.hhdm_offset(),
    {
        self.hhdm
    }
}

/// What a slab hands out it takes back: the object that `allocate` returned
/// can be freed, and freeing it gives back the free objects and the count
/// from before.
pub proof fn lemma_slab_free_undoes_allocate(s0: Slab, s1: Slab, s2: Slab, r: int)
    requires
        s0.wf(),
        s0.obj_alloc_step(s1, r),
    ensures
        s1.obj_freeable(r),
        s1.obj_free_step(s2, r) ==> s2.free_objs() == s0.free_objs() && s2.free_count() == s0.free_count(),
{
    s0.lemma_wf();
    let b = s0.bucket_of();
    let idx = s0.obj_index(r);
    lemma_bucket_facts(b);
    assert(obj_size(b) > 0);
    assert((r - s0.addr()) == idx * obj_size(b));
    assert(s1.obj_index(r) == idx) by (nonlinear_arith)
        requires
            s1.obj_index(r) == (r - s1.addr()) / obj_size(b),
            s1.addr() == s0.addr(),
            r - s0.addr() == idx * obj_size(b),
            obj_size(b) > 0,
    ;
    assert(s0.is_free(idx));
    if s1.obj_free_step(s2, r) {
        assert(s2.free_objs() =~= s0.free_objs());
    }
}

} // verus!
