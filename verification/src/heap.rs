//! The kernel heap: small objects come from the slab allocator, larger ones
//! are whole buddy blocks of pages.

use vstd::prelude::*;

use crate::buddy::pow2;
use crate::pmm::{self, PageUsage, Pmm, RawMemory, MAX_ORDER, PAGE_SIZE};
use crate::slabs::{bucket_for, obj_count, obj_overhead, obj_size, Slabs, BUCKET_SIZE_MAX, SLAB_SIZE};

verus! {

/// Whether `o` is the least order whose block of pages holds `min` bytes.
pub open spec fn least_order(min: int, o: nat) -> bool {
    PAGE_SIZE * pow2(o) >= min && (o == 0 || PAGE_SIZE * pow2((o - 1) as nat) < min)
}

/// The buddy order of a heap block of `min_size` bytes: the least order
/// whose block of pages holds them.
pub fn heap_order(min_size: usize) -> (r: u32)
    requires
        0 < min_size <= 0x7fff_ffff_ffff_ffff,
    ensures
        r < 64,
        least_order(min_size as int, r as nat),
{
    let n = min_size as u64;
    let pages = n / 4096 + if n % 4096 != 0 { 1u64 } else { 0u64 };
    let lz = pages.leading_zeros();
    proof {
        vstd::std_specs::bits::axiom_u64_leading_zeros(pages);
        assert(pages != 0);
        assert(pages <= 0x8_0000_0000_0000);
    }
    let o = 63 - lz;
    proof {
        vstd::bits::lemma_u64_shr_is_div(pages, o as u64);
        let q = pages >> (o as u64);
        assert(q & 1 != 0 ==> q != 0) by (bit_vector);
        assert((pages as int) / pow2(o as nat) >= 1);
        crate::buddy::lemma_pow2_facts(o as nat);
        assert(pages >= pow2(o as nat)) by (nonlinear_arith)
            requires
                (pages as int) / pow2(o as nat) >= 1,
                pow2(o as nat) > 0,
        ;
        if lz > 0 {
            vstd::bits::lemma_u64_shr_is_div(pages, (64 - lz) as u64);
            assert((pages as int) / pow2((o + 1) as nat) == 0);
            crate::buddy::lemma_pow2_facts((o + 1) as nat);
            assert(pages < pow2((o + 1) as nat)) by (nonlinear_arith)
                requires
                    (pages as int) / pow2((o + 1) as nat) == 0,
                    pow2((o + 1) as nat) > 0,
            ;
        }
        assert(o <= 51) by {
            if o > 51 {
                crate::buddy::lemma_pow2_mono(52, o as nat);
                vstd::arithmetic::power2::lemma2_to64_rest();
            }
        }
        assert(lz > 0);
        assert(pages < pow2((o + 1) as nat));
        crate::buddy::lemma_pow2_mono(o as nat, 51);
        vstd::arithmetic::power2::lemma2_to64_rest();
        assert(4096 * pow2(o as nat) <= u64::MAX);
        vstd::bits::lemma_u64_shl_is_mul(4096, o as u64);
    }
    let mut order = o;
    if (4096u64 << (o as u64)) < n {
        order = o + 1;
        proof {
            crate::buddy::lemma_pow2_facts(o as nat);
            assert(4096 * pow2((o + 1) as nat) >= min_size) by (nonlinear_arith)
                requires
                    pow2((o + 1) as nat) == 2 * pow2(o as nat),
                    pages < pow2((o + 1) as nat),
                    pages >= pow2(o as nat),
                    n <= 4096 * pages,
                    n == min_size,
                    pages <= 0x8_0000_0000_0000,
                    o <= 51,
            ;
        }
    } else {
        proof {
            if o > 0 {
                crate::buddy::lemma_pow2_facts((o - 1) as nat);
                assert(4096 * pow2((o - 1) as nat) < min_size) by (nonlinear_arith)
                    requires
                        pow2(o as nat) == 2 * pow2((o - 1) as nat),
                        pages >= pow2(o as nat),
                        n > 4096 * (pages - 1),
                        n == min_size,
                        pow2((o - 1) as nat) >= 1,
                ;
            }
        }
    }
    order
}

/// `size` rounded up to a multiple of `align`.
pub open spec fn pad_to_align(size: int, align: int) -> int {
    ((size + align - 1) / align) * align
}

/// The kernel heap, with its slab allocator.
pub struct Heap {
    slabs: Slabs,
}

impl Heap {
    /// The slab allocator.
    pub closed spec fn objects(&self) -> Slabs {
        self.slabs
    }

    /// The heap's invariant, tied to the memory manager.
    pub open spec fn wf(&self, pmm: &Pmm) -> bool {
        &&& self.objects().wf()
        &&& self.objects().linked(pmm)
        &&& self.objects().hhdm_offset() > 0
    }

    /// An empty heap over the direct map at `hhdm`.
    pub fn new(hhdm: usize) -> (r: Self)
        requires
            hhdm % SLAB_SIZE == 0,
            hhdm > 0,
        ensures
            r.objects().wf(),
            r.objects().len() == 0,
            r.objects().hhdm_offset() == hhdm,
    {
        Heap { slabs: Slabs::new(hhdm) }
    }

    /// The page that holds address `ptr` of the direct map.
    pub open spec fn page_of(&self, ptr: int) -> int {
        (ptr - self.objects().hhdm_offset()) / PAGE_SIZE as int
    }

    /// `r` is the address of an object in use in a slab of bucket `b`.
    pub open spec fn slab_object(&self, r: int, b: int) -> bool {
        exists|i: int|
            #![trigger self.objects().slab(i)]
            0 <= i < self.objects().len() && {
                let sl = self.objects().slab(i);
                let idx = (r - sl.addr()) / obj_size(b);
                &&& sl.bucket_of() == b
                &&& sl.addr() <= r && r == sl.addr() + idx * obj_size(b)
                &&& obj_overhead(b) <= idx < obj_count(b)
                &&& !sl.free_objs().contains(idx)
            }
    }

    /// `r` is the address of a heap block of `2^o` pages, in use with one
    /// reference.
    pub open spec fn heap_block(&self, pmm: &Pmm, r: int, o: nat) -> bool {
        let ppn = self.page_of(r);
        &&& self.objects().hhdm_offset() <= r
        &&& (r - self.objects().hhdm_offset()) % PAGE_SIZE as int == 0
        &&& pmm.pages().allocated_block(ppn, o)
        &&& pmm.pages().page(ppn).usage == PageUsage::KernelHeap
        &&& pmm.pages().page(ppn).refcount == 1
    }

    /// What freeing `ptr` asks: it is the address of an object in use in a
    /// slab, or of a heap block in use.
    pub open spec fn can_deallocate(&self, pmm: &Pmm, ptr: int) -> bool {
        let ppn = self.page_of(ptr);
        let meta = pmm.pages().page(ppn);
        &&& self.objects().hhdm_offset() <= ptr
        &&& pmm.pages().dom_start() <= ppn < pmm.pages().dom_end()
        &&& meta.usage == PageUsage::KernelSlabs || meta.usage == PageUsage::KernelHeap
        &&& meta.usage == PageUsage::KernelSlabs ==> exists|i: int|
            #![trigger self.objects().slab(i)]
            0 <= i < self.objects().len() && self.objects().slab(i).addr() == ptr - ptr % SLAB_SIZE as int && {
                let sl = self.objects().slab(i);
                let idx = (ptr - sl.addr()) / obj_size(sl.bucket_of());
                &&& obj_overhead(sl.bucket_of()) <= idx < obj_count(sl.bucket_of())
                &&& !sl.free_objs().contains(idx)
            }
        &&& meta.usage == PageUsage::KernelHeap ==> {
            &&& (ptr - self.objects().hhdm_offset()) % PAGE_SIZE as int == 0
            &&& meta.refcount >= 1
            &&& meta.refcount == 1 ==> pmm.pages().allocated_block(ppn, meta.buddy_order as nat)
        }
    }

    /// Allocate `size` bytes aligned to `align`: objects of up to
    /// [`BUCKET_SIZE_MAX`] bytes come from the slabs, larger ones are the
    /// smallest buddy block that holds them. Zero stands for failure, which
    /// for a small request comes only when its bucket has no slab with a
    /// free object and no block is free for a new slab.
    pub fn allocate(&mut self, pmm: &mut Pmm, size: usize, align: usize) -> (r: usize)
        requires
            old(self).wf(&*old(pmm)),
            old(pmm).wf(),
            align > 0,
            size + align <= usize::MAX,
            size + align - 1 <= 0x7fff_ffff_ffff_ffff,
            pad_to_align(size as int, align as int) > 0,
        ensures
            final(self).wf(&*final(pmm)),
            final(pmm).wf(),
            final(pmm).pages().dom_start() == old(pmm).pages().dom_start(),
            final(pmm).pages().dom_end() == old(pmm).pages().dom_end(),
            ({
                let min = pad_to_align(size as int, align as int);
                &&& min <= BUCKET_SIZE_MAX ==> {
                    &&& r != 0 ==> final(self).slab_object(r as int, bucket_for(min))
                    &&& r == 0 ==> *final(pmm) == *old(pmm) && !old(pmm).pages().has_free_block(1)
                    &&& r == 0 ==> forall|j: int|
                        0 <= j < old(self).objects().len() ==> !#[trigger] old(self).objects().partial(j, bucket_for(min))
                            && !old(self).objects().empty(j, bucket_for(min))
                }
            }),
            ({
                let min = pad_to_align(size as int, align as int);
                &&& min > BUCKET_SIZE_MAX ==> exists|o: nat|
                    #[trigger] least_order(min, o) && {
                        &&& r != 0 ==> final(self).heap_block(&*final(pmm), r as int, o)
                            && old(pmm).pages().free_pages().contains(final(self).page_of(r as int))
                        &&& r == 0 ==> *final(pmm) == *old(pmm) && (o >= MAX_ORDER || !old(pmm).pages().has_free_block(o as int))
                    }
            }),
    {
        let t = size + (align - 1);
        let q = t / align;
        proof {
            assert(q * align <= t) by (nonlinear_arith)
                requires
                    q == t / align,
                    align > 0,
            ;
        }
        let min_size = q * align;
        proof {
            assert(min_size == pad_to_align(size as int, align as int));
        }
        if min_size <= BUCKET_SIZE_MAX {
            let ghost s0 = self.slabs;
            match self.slabs.allocate(pmm, min_size) {
                Ok(ptr) => {
                    proof {
                        let b = bucket_for(min_size as int);
                        let i = choose|i: int|
                            #![trigger self.slabs.slab(i)]
                            0 <= i < self.slabs.len() && {
                                let sl = self.slabs.slab(i);
                                let idx = (ptr - sl.addr()) / obj_size(b);
                                &&& sl.bucket_of() == b
                                &&& sl.addr() <= ptr && ptr == sl.addr() + idx * obj_size(b)
                                &&& obj_overhead(b) <= idx < obj_count(b)
                                &&& !sl.free_objs().contains(idx)
                            };
                        let sl = self.slabs.slab(i);
                        let idx = (ptr - sl.addr()) / obj_size(b);
                        crate::slabs::lemma_bucket_facts(b);
                        assert(ptr >= 8) by (nonlinear_arith)
                            requires
                                ptr == sl.addr() + idx * obj_size(b),
                                sl.addr() >= 0,
                                idx >= 1,
                                obj_size(b) >= 8,
                        ;
                    }
                    ptr
                },
                Err(_) => 0,
            }
        } else {
            let order = heap_order(min_size);
            let ghost o = order as nat;
            proof {
                assert(least_order(min_size as int, o));
            }
            match RawMemory::new(pmm, order as u8, PageUsage::KernelHeap) {
                Ok(mem) => {
                    let ghost ppn = mem@;
                    let hhdm = self.slabs.hhdm();
                    proof {
                        crate::buddy::lemma_pow2_facts(o);
                        assert(crate::buddy::in_block(ppn as int, ppn as int, o));
                        assert(ppn * PAGE_SIZE + hhdm <= usize::MAX) by (nonlinear_arith)
                            requires
                                ppn < pmm.pages().dom_end(),
                                hhdm + pmm.pages().dom_end() * 4096 <= usize::MAX,
                                PAGE_SIZE == 4096,
                        ;
                    }
                    let ptr = mem.hhdm_ptr(hhdm);
                    proof {
                        assert((ptr - hhdm) / 4096 == ppn as int) by (nonlinear_arith)
                            requires
                                ptr == ppn * 4096 + hhdm,
                        ;
                        assert((ptr - hhdm) % 4096 == 0) by (nonlinear_arith)
                            requires
                                ptr == ppn * 4096 + hhdm,
                        ;
                        assert forall|i: int| 0 <= i < self.slabs.len() implies {
                            let a = #[trigger] self.slabs.slab(i).addr();
                            let p = (a - self.slabs.hhdm_offset()) / PAGE_SIZE as int;
                            &&& self.slabs.hhdm_offset() <= a
                            &&& (a - self.slabs.hhdm_offset()) % PAGE_SIZE as int == 0
                            &&& pmm.pages().dom_start() <= p && p + 1 < pmm.pages().dom_end()
                            &&& pmm.pages().page(p).usage == PageUsage::KernelSlabs
                            &&& pmm.pages().page(p + 1).usage == PageUsage::KernelSlabs
                        } by {
                            let a = self.slabs.slab(i).addr();
                            let p = (a - self.slabs.hhdm_offset()) / PAGE_SIZE as int;
                            assert(old(pmm).pages().page(p).usage == PageUsage::KernelSlabs);
                            assert(old(pmm).pages().page(p + 1).usage == PageUsage::KernelSlabs);
                        }
                        let pp = (ptr - self.slabs.hhdm_offset()) / PAGE_SIZE as int;
                        assert(pp == ppn);
                        assert(Set::new(|p: int| crate::buddy::in_block(p, ppn as int, o)).contains(ppn as int));
                        assert(old(pmm).pages().free_pages().contains(pp));
                        assert(pmm.pages().allocated_block(pp, o));
                        assert(pmm.pages().page(pp).refcount == 1);
                        assert(ptr != 0);
                    }
                    ptr
                },
                Err(_) => 0,
            }
        }
    }
}

impl Heap {
    /// Free the memory at `ptr`: an object of a slab, or a block of the
    /// buddy allocator whose last owner this was.
    pub fn deallocate(&mut self, pmm: &mut Pmm, ptr: usize)
        requires
            old(self).wf(&*old(pmm)),
            old(pmm).wf(),
            old(self).can_deallocate(&*old(pmm), ptr as int),
        ensures
            final(self).wf(&*final(pmm)),
            final(pmm).wf(),
            final(pmm).pages().dom_start() == old(pmm).pages().dom_start(),
            final(pmm).pages().dom_end() == old(pmm).pages().dom_end(),
            ({
                let ppn = (ptr - old(self).objects().hhdm_offset()) / PAGE_SIZE as int;
                let meta = old(pmm).pages().page(ppn);
                &&& meta.usage == PageUsage::KernelSlabs ==> {
                    &&& *final(pmm) == *old(pmm)
                    &&& final(self).objects().len() == old(self).objects().len()
                    &&& forall|i: int|
                        #![trigger final(self).objects().slab(i)]
                        0 <= i < old(self).objects().len() ==> if old(self).objects().slab(i).addr() == ptr - ptr % SLAB_SIZE {
                            final(self).objects().slab(i).free_objs() == old(self).objects().slab(i).free_objs().insert(
                                (ptr - old(self).objects().slab(i).addr()) / obj_size(old(self).objects().slab(i).bucket_of()),
                            )
                        } else {
                            final(self).objects().slab(i) == old(self).objects().slab(i)
                        }
                }
                &&& meta.usage == PageUsage::KernelHeap ==> {
                    &&& *final(self) == *old(self)
                    &&& meta.refcount == 1 ==> final(pmm).pages().free_pages() == old(pmm).pages().free_pages().union(
                        Set::new(|p: int| crate::buddy::in_block(p, ppn, meta.buddy_order as nat)),
                    )
                    &&& meta.refcount > 1 ==> final(pmm).pages().free_pages() == old(pmm).pages().free_pages()
                        && final(pmm).pages().page(ppn).refcount == meta.refcount - 1
                }
            }),
    {
        let ghost p0 = *pmm;
        let hhdm = self.slabs.hhdm();
        let ppn = (ptr - hhdm) / PAGE_SIZE;
        let meta = pmm::page_meta(pmm, ppn);
        if meta.usage == PageUsage::KernelSlabs {
            self.slabs.free(ptr);
        } else {
            let mem = RawMemory::from_raw(ppn);
            mem.release(pmm);
            proof {
                let o = meta.buddy_order as nat;
                assert forall|i: int| 0 <= i < self.slabs.len() implies {
                    let a = #[trigger] self.slabs.slab(i).addr();
                    let p = (a - self.slabs.hhdm_offset()) / PAGE_SIZE as int;
                    &&& self.slabs.hhdm_offset() <= a
                    &&& (a - self.slabs.hhdm_offset()) % PAGE_SIZE as int == 0
                    &&& pmm.pages().dom_start() <= p && p + 1 < pmm.pages().dom_end()
                    &&& pmm.pages().page(p).usage == PageUsage::KernelSlabs
                    &&& pmm.pages().page(p + 1).usage == PageUsage::KernelSlabs
                } by {
                    let a = self.slabs.slab(i).addr();
                    let p = (a - self.slabs.hhdm_offset()) / PAGE_SIZE as int;
                    assert(p0.pages().page(p).usage == PageUsage::KernelSlabs);
                    assert(!p0.pages().free_pages().contains(p));
                    assert(p0.pages().page(p + 1).usage == PageUsage::KernelSlabs);
                    assert(!p0.pages().free_pages().contains(p + 1));
                    if meta.refcount == 1 {
                        if crate::buddy::in_block(p, ppn as int, o) {
                            assert(p0.pages().page(p).usage == p0.pages().page(ppn as int).usage);
                        }
                        if crate::buddy::in_block(p + 1, ppn as int, o) {
                            assert(p0.pages().page(p + 1).usage == p0.pages().page(ppn as int).usage);
                        }
                        assert(!Set::new(|q: int| crate::buddy::in_block(q, ppn as int, o)).contains(p));
                        assert(!Set::new(|q: int| crate::buddy::in_block(q, ppn as int, o)).contains(p + 1));
                    } else {
                        assert(p != ppn);
                        assert(p + 1 != ppn);
                    }
                }
            }
        }
    }
}

/// What the heap hands out it takes back: an address that `allocate`
/// returned, an object in use in a slab or a heap block in use with one
/// reference, is one that `deallocate` accepts in the state it left.
pub proof fn lemma_allocated_can_be_deallocated(h: Heap, pmm: Pmm, r: int, b: int, o: nat)
    requires
        h.wf(&pmm),
        pmm.wf(),
        h.slab_object(r, b) || h.heap_block(&pmm, r, o),
    ensures
        h.can_deallocate(&pmm, r),
{
    let s = h.objects();
    let hhdm = s.hhdm_offset();
    s.lemma_wf();
    if h.slab_object(r, b) {
        let i = choose|i: int|
            #![trigger s.slab(i)]
            0 <= i < s.len() && {
                let sl = s.slab(i);
                let idx = (r - sl.addr()) / obj_size(b);
                &&& sl.bucket_of() == b
                &&& sl.addr() <= r && r == sl.addr() + idx * obj_size(b)
                &&& obj_overhead(b) <= idx < obj_count(b)
                &&& !sl.free_objs().contains(idx)
            };
        let sl = s.slab(i);
        let a = sl.addr();
        let size = obj_size(b);
        let idx = (r - a) / size;
        sl.lemma_wf();
        crate::slabs::lemma_bucket_facts(b);
        let p = (a - hhdm) / PAGE_SIZE as int;
        assert(0 <= r - a < SLAB_SIZE) by (nonlinear_arith)
            requires
                r - a == idx * size,
                0 <= idx < obj_count(b),
                obj_count(b) * size == SLAB_SIZE,
                size > 0,
        ;
        assert(r - r % SLAB_SIZE as int == a) by (nonlinear_arith)
            requires
                a % SLAB_SIZE as int == 0,
                0 <= r - a < SLAB_SIZE,
        ;
        assert(h.page_of(r) == p || h.page_of(r) == p + 1) by (nonlinear_arith)
            requires
                h.page_of(r) == (r - hhdm) / PAGE_SIZE as int,
                p == (a - hhdm) / PAGE_SIZE as int,
                (a - hhdm) % PAGE_SIZE as int == 0,
                hhdm <= a,
                0 <= r - a < SLAB_SIZE,
        ;
        assert(s.slab(i).addr() == r - r % SLAB_SIZE as int);
    } else {
        let ppn = h.page_of(r);
        crate::buddy::lemma_pow2_facts(o);
        assert(crate::buddy::in_block(ppn, ppn, o));
    }
}

} // verus!
