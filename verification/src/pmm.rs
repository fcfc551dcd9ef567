//! Physical memory management: a buddy allocator over a page frame number
//! database, and usage accounting.
//!
//! Every page of the managed domain `start..end` has a [`PageMeta`]. Free
//! pages form naturally aligned blocks of `2^order` pages, all marked free
//! with that order, and the first page of each free block is on the free
//! list of its order. The list node of page `p` lives at address
//! `p - start + 2` of the node memory.

use vstd::prelude::*;

use crate::buddy::{aligned, head_of, in_block, lemma_blocks_disjoint, lemma_buddy, lemma_pow2_facts, lemma_pow2_mono, lemma_xor_is_buddy, buddy_of, merged_head, pow2};
use crate::list::{InvasiveList, InvasiveListNode, null_node};

verus! {

/// Physical page number.
pub type PPN = usize;

/// The largest order that buddy blocks will be coalesced to.
pub const MAX_ORDER: u8 = 32;

/// Size of a page.
pub const PAGE_SIZE: usize = 4096;

/// What a page of memory is used for.
#[derive(Clone, Copy, Debug, PartialEq, Eq, Structural)]
pub enum PageUsage {
    /// Page is not usable.
    Reserved,
    /// Page is available for use.
    Free,
    /// Allocated kernel memory pages.
    KernelAnon,
    /// Kernel slab heap page.
    KernelSlabs,
    /// Kernel buddy heap page.
    KernelHeap,
    /// Allocated user memory pages.
    UserAnon,
    /// Cache-mode user memory pages.
    UserCache,
}

/// Metadata about a single page of physical memory.
#[derive(Clone, Copy, Debug, PartialEq, Eq, Structural)]
pub struct PageMeta {
    /// What this page is currently in use for.
    pub usage: PageUsage,
    /// What order buddy block this page belongs to.
    pub buddy_order: u8,
    /// Page reference count.
    pub refcount: u32,
}

/// The buddy allocator state.
pub struct BuddyAlloc {
    start: PPN,
    end: PPN,
    meta: Vec<PageMeta>,
    nodes: Vec<InvasiveListNode>,
    freelists: Vec<InvasiveList>,
}

impl BuddyAlloc {
    /// First page of the domain.
    pub closed spec fn dom_start(&self) -> int {
        self.start as int
    }

    /// First page after the domain.
    pub closed spec fn dom_end(&self) -> int {
        self.end as int
    }

    /// The metadata of page `p`.
    pub closed spec fn page(&self, p: int) -> PageMeta {
        self.meta@[p - self.start]
    }

    /// The pages on the free list of order `o`.
    pub closed spec fn list(&self, o: int) -> Seq<usize> {
        self.freelists@[o]@
    }

    /// Whether block `h` is on the free list of order `o`.
    pub closed spec fn listed(&self, o: int, h: int) -> bool {
        self.list(o).contains((h - self.start + 2) as usize)
    }

    /// The free pages.
    /// Block `h` of order `o` cannot be joined with its buddy: the buddy lies
    /// outside the domain or is not a free block of the same order.
    pub open spec fn merge_stops(&self, h: int, o: nat) -> bool {
        let b = buddy_of(h, o);
        !(self.dom_start() <= b < self.dom_end() && self.page(b).usage == PageUsage::Free && self.page(b).buddy_order
            == o)
    }

    /// Block `h` of order `o` is free: all its pages are free pages of that
    /// order.
    pub open spec fn free_block_at(&self, h: int, o: nat) -> bool {
        forall|p: int|
            #![trigger self.page(p)]
            in_block(p, h, o) ==> self.page(p).usage == PageUsage::Free && self.page(p).buddy_order == o
    }

    /// The block of order `k` that starts `2^k` pages after `h` is free:
    /// the half that splitting a block at `h` down past order `k` leaves.
    pub open spec fn split_leftover_free(&self, h: int, k: nat) -> bool {
        self.free_block_at(h + pow2(k), k)
    }

    /// The free pages.
    pub open spec fn free_pages(&self) -> Set<int> {
        Set::new(|p: int| self.dom_start() <= p < self.dom_end() && self.page(p).usage == PageUsage::Free)
    }

    /// Block `h` of order `o` lies in the domain, is marked free with that
    /// order throughout, and has no page in `ex`.
    pub closed spec fn head_ok(&self, h: int, o: nat, ex: Set<int>) -> bool {
        &&& aligned(h, o)
        &&& self.start <= h
        &&& h + pow2(o) <= self.end
        &&& forall|p: int|
            #![trigger self.page(p)]
            in_block(p, h, o) ==> self.page(p).usage == PageUsage::Free && self.page(p).buddy_order == o
                && !ex.contains(p)
    }

    /// The allocator's invariant, except at the pages of `ex`, whose
    /// metadata may be stale and which are on no free list.
    pub closed spec fn wf_except(&self, ex: Set<int>) -> bool {
        &&& self.start <= self.end
        &&& self.end - self.start < 0x1_0000_0000
        &&& self.end - self.start + 2 <= usize::MAX
        &&& self.meta@.len() == self.end - self.start
        &&& self.nodes@.len() == self.end - self.start + 2
        &&& self.freelists@.len() == MAX_ORDER
        &&& forall|o: int| 0 <= o < MAX_ORDER ==> (#[trigger] self.freelists@[o]).wf(self.nodes@)
        &&& forall|o: int, i: int|
            0 <= o < MAX_ORDER && 0 <= i < self.list(o).len() ==> self.head_ok(
                #[trigger] self.list(o)[i] - 2 + self.start,
                o as nat,
                ex,
            )
        &&& forall|p: int|
            self.start <= p < self.end && !ex.contains(p) && (#[trigger] self.page(p)).usage == PageUsage::Free
                ==> self.page(p).buddy_order < MAX_ORDER && self.start <= head_of(p, self.page(p).buddy_order as nat)
                && self.listed(self.page(p).buddy_order as int, head_of(p, self.page(p).buddy_order as nat))
    }

    /// The allocator's invariant.
    pub open spec fn wf(&self) -> bool {
        self.wf_except(Set::empty())
    }

    /// Whether some free page belongs to a free block of order `order` or
    /// more.
    pub open spec fn has_free_block(&self, order: int) -> bool {
        exists|p: int| #[trigger] self.free_pages().contains(p) && self.page(p).buddy_order >= order
    }

    /// The smallest order from `o` on that has a free block, or
    /// [`MAX_ORDER`] when none has.
    pub open spec fn first_free_order(&self, o: int) -> int
        decreases MAX_ORDER - o,
    {
        if o >= MAX_ORDER {
            MAX_ORDER as int
        } else if self.has_free_block_of(o) {
            o
        } else {
            self.first_free_order(o + 1)
        }
    }

    /// An order that has a free block, with none between `o` and it, is the
    /// smallest from `o` on.
    proof fn lemma_first_free_order(&self, o: int, s: int)
        requires
            o <= s < MAX_ORDER,
            self.has_free_block_of(s),
            forall|k: int| o <= k < s ==> !#[trigger] self.has_free_block_of(k),
        ensures
            self.first_free_order(o) == s,
        decreases s - o,
    {
        if o < s {
            self.lemma_first_free_order(o + 1, s);
        }
    }

    /// Whether some free page belongs to a free block of order `order`.
    pub open spec fn has_free_block_of(&self, order: int) -> bool {
        exists|p: int| #[trigger] self.free_pages().contains(p) && self.page(p).buddy_order == order
    }

    /// A free block of some order is there exactly when a free list of
    /// that order or more is not empty.
    proof fn lemma_has_free_block(&self, order: int)
        requires
            self.wf(),
            0 <= order,
        ensures
            self.has_free_block(order) <==> exists|o: int| order <= o < MAX_ORDER && #[trigger] self.list(o).len() > 0,
    {
        if self.has_free_block(order) {
            let p = choose|p: int| #[trigger] self.free_pages().contains(p) && self.page(p).buddy_order >= order;
            let b = self.page(p).buddy_order as int;
            assert(self.list(b).len() > 0);
        }
        if exists|o: int| order <= o < MAX_ORDER && #[trigger] self.list(o).len() > 0 {
            let o = choose|o: int| order <= o < MAX_ORDER && #[trigger] self.list(o).len() > 0;
            self.lemma_list_item(Set::empty(), o, 0);
            let h = self.list(o)[0] - 2 + self.start;
            lemma_pow2_facts(o as nat);
            assert(in_block(h, h, o as nat));
            assert(self.page(h).usage == PageUsage::Free);
            assert(self.free_pages().contains(h));
        }
    }
}

/// The pages of block `h` of order `o`.
pub open spec fn block_set(h: int, o: nat) -> Set<int> {
    Set::new(|p: int| in_block(p, h, o))
}

/// A page lies in the block of its order.
pub proof fn lemma_in_own_block(p: int, o: nat)
    ensures
        in_block(p, head_of(p, o), o),
        aligned(head_of(p, o), o),
{
    lemma_pow2_facts(o);
    let d = pow2(o);
    vstd::arithmetic::div_mod::lemma_fundamental_div_mod(p, d);
    let q = p / d;
    assert(head_of(p, o) == d * q);
    vstd::arithmetic::div_mod::lemma_fundamental_div_mod_converse(head_of(p, o), d, q, 0);
}

/// An item still on a list after removing another one.
pub proof fn lemma_remove_contains(s: Seq<usize>, k: int, x: usize)
    requires
        0 <= k < s.len(),
        s.contains(x),
        s[k] != x,
    ensures
        s.remove(k).contains(x),
{
    let i = choose|i: int| 0 <= i < s.len() && s[i] == x;
    if i < k {
        assert(s.remove(k)[i] == x);
    } else {
        assert(s.remove(k)[i - 1] == x);
    }
}

impl BuddyAlloc {
    /// Every item of a free list heads a block of the list's order.
    proof fn lemma_listed(&self, ex: Set<int>, o: int, h: int)
        requires
            self.wf_except(ex),
            0 <= o < MAX_ORDER,
            self.listed(o, h),
            self.start <= h < self.end,
        ensures
            self.head_ok(h, o as nat, ex),
    {
        let a = (h - self.start + 2) as usize;
        let i = choose|i: int| 0 <= i < self.list(o).len() && self.list(o)[i] == a;
        assert(self.head_ok(self.list(o)[i] - 2 + self.start, o as nat, ex));
    }

    /// Items of free lists are addresses of pages of the domain.
    proof fn lemma_list_item(&self, ex: Set<int>, o: int, i: int)
        requires
            self.wf_except(ex),
            0 <= o < MAX_ORDER,
            0 <= i < self.list(o).len(),
        ensures
            2 <= self.list(o)[i] < self.nodes@.len(),
            self.listed(o, self.list(o)[i] - 2 + self.start),
            self.head_ok(self.list(o)[i] - 2 + self.start, o as nat, ex),
    {
        self.freelists@[o].lemma_wf(self.nodes@);
        assert(self.list(o).contains(self.list(o)[i]));
        assert((self.list(o)[i] - 2 + self.start - self.start + 2) as usize == self.list(o)[i]);
    }

    /// One address is on at most one free list.
    proof fn lemma_lists_disjoint(&self, ex: Set<int>, o1: int, o2: int, a: usize)
        requires
            self.wf_except(ex),
            0 <= o1 < MAX_ORDER,
            0 <= o2 < MAX_ORDER,
            o1 != o2,
            self.list(o1).contains(a),
        ensures
            !self.list(o2).contains(a),
    {
        let i = choose|i: int| 0 <= i < self.list(o1).len() && self.list(o1)[i] == a;
        self.lemma_list_item(ex, o1, i);
        if self.list(o2).contains(a) {
            let j = choose|j: int| 0 <= j < self.list(o2).len() && self.list(o2)[j] == a;
            self.lemma_list_item(ex, o2, j);
            let h = a - 2 + self.start;
            lemma_pow2_facts(o1 as nat);
            lemma_pow2_facts(o2 as nat);
            assert(in_block(h, h, o1 as nat));
            assert(in_block(h, h, o2 as nat));
            assert(self.page(h).buddy_order == o1);
        }
    }

    /// Taking block `h` off the free list of order `o` keeps the invariant,
    /// with the block's pages excepted.
    proof fn lemma_after_remove(s0: BuddyAlloc, s1: BuddyAlloc, o: int, h: int, ex: Set<int>)
        requires
            s0.wf_except(ex),
            0 <= o < MAX_ORDER,
            s0.start <= h < s0.end,
            s0.listed(o, h),
            s1.start == s0.start,
            s1.end == s0.end,
            s1.meta@ == s0.meta@,
            s1.nodes@.len() == s0.nodes@.len(),
            s1.freelists@.len() == MAX_ORDER,
            forall|o2: int| 0 <= o2 < MAX_ORDER && o2 != o ==> s1.freelists@[o2] == s0.freelists@[o2],
            s1.freelists@[o].wf(s1.nodes@),
            s1.list(o) == s0.list(o).remove(s0.list(o).index_of((h - s0.start + 2) as usize)),
            forall|a: usize|
                a < s0.nodes@.len() && !s0.list(o).contains(a) ==> #[trigger] s1.nodes@[a as int]
                    == s0.nodes@[a as int],
        ensures
            s1.wf_except(ex.union(block_set(h, o as nat))),
    {
        let ex2 = ex.union(block_set(h, o as nat));
        let ah = (h - s0.start + 2) as usize;
        let k = s0.list(o).index_of(ah);
        s0.list(o).index_of_first_ensures(ah);
        s0.lemma_listed(ex, o, h);
        s0.freelists@[o].lemma_wf(s0.nodes@);
        // Other lists are untouched, and keep their links.
        assert forall|o2: int| 0 <= o2 < MAX_ORDER implies (#[trigger] s1.freelists@[o2]).wf(s1.nodes@) by {
            if o2 != o {
                assert forall|a: usize| #[trigger] s0.freelists@[o2]@.contains(a) implies s1.nodes@[a as int]
                    == s0.nodes@[a as int] by {
                    s0.lemma_lists_disjoint(ex, o2, o, a);
                    let i = choose|i: int| 0 <= i < s0.list(o2).len() && s0.list(o2)[i] == a;
                    s0.lemma_list_item(ex, o2, i);
                }
                s0.freelists@[o2].lemma_frame(s0.nodes@, s1.nodes@);
            }
        }
        // Every remaining item heads a good block avoiding the removed one.
        assert forall|o2: int, i: int| 0 <= o2 < MAX_ORDER && 0 <= i < s1.list(o2).len() implies s1.head_ok(
            #[trigger] s1.list(o2)[i] - 2 + s1.start,
            o2 as nat,
            ex2,
        ) by {
            let j = if o2 != o { i } else if i < k { i } else { i + 1 };
            assert(s1.list(o2)[i] == s0.list(o2)[j]);
            s0.lemma_list_item(ex, o2, j);
            let h2 = s0.list(o2)[j] - 2 + s0.start;
            assert forall|p: int| #![trigger s1.page(p)] in_block(p, h2, o2 as nat) implies s1.page(p).usage
                == PageUsage::Free && s1.page(p).buddy_order == o2 && !ex2.contains(p) by {
                assert(s0.page(p) == s1.page(p));
                if in_block(p, h, o as nat) {
                    lemma_pow2_facts(o as nat);
                    assert(in_block(h, h, o as nat));
                    if o2 == o {
                        assert(h2 != h);
                        lemma_blocks_disjoint(h2, h, o as nat, p);
                    }
                }
            }
        }
        // Every free page outside the exception is still on its list.
        assert forall|p: int|
            s1.start <= p < s1.end && !ex2.contains(p) && (#[trigger] s1.page(p)).usage == PageUsage::Free implies s1.page(
            p,
        ).buddy_order < MAX_ORDER && s1.start <= head_of(p, s1.page(p).buddy_order as nat) && s1.listed(
            s1.page(p).buddy_order as int,
            head_of(p, s1.page(p).buddy_order as nat),
        ) by {
            assert(s0.page(p) == s1.page(p));
            let po = s0.page(p).buddy_order as int;
            let hp = head_of(p, po as nat);
            let ap = (hp - s0.start + 2) as usize;
            lemma_in_own_block(p, po as nat);
            if po == o {
                assert(ap != ah);
                lemma_remove_contains(s0.list(o), k, ap);
            }
        }
    }
}

impl BuddyAlloc {
    /// Changing the metadata of excepted pages alone keeps the invariant.
    proof fn lemma_meta_frame(s0: BuddyAlloc, s1: BuddyAlloc, ex: Set<int>)
        requires
            s0.wf_except(ex),
            s1.start == s0.start,
            s1.end == s0.end,
            s1.nodes@ == s0.nodes@,
            s1.freelists@ == s0.freelists@,
            s1.meta@.len() == s0.meta@.len(),
            forall|p: int| s0.start <= p < s0.end && !ex.contains(p) ==> #[trigger] s1.page(p) == s0.page(p),
        ensures
            s1.wf_except(ex),
    {
        assert forall|o: int| 0 <= o < MAX_ORDER implies (#[trigger] s1.freelists@[o]).wf(s1.nodes@) by {
            assert(s0.freelists@[o].wf(s0.nodes@));
        }
        assert forall|o: int, i: int| 0 <= o < MAX_ORDER && 0 <= i < s1.list(o).len() implies s1.head_ok(
            #[trigger] s1.list(o)[i] - 2 + s1.start,
            o as nat,
            ex,
        ) by {
            assert(s1.list(o) == s0.list(o));
            s0.lemma_list_item(ex, o, i);
            let h = s0.list(o)[i] - 2 + s0.start;
            assert forall|p: int| #![trigger s1.page(p)] in_block(p, h, o as nat) implies s1.page(p).usage
                == PageUsage::Free && s1.page(p).buddy_order == o && !ex.contains(p) by {
                assert(s0.page(p).usage == PageUsage::Free);
            }
        }
        assert forall|p: int|
            s1.start <= p < s1.end && !ex.contains(p) && (#[trigger] s1.page(p)).usage == PageUsage::Free implies s1.page(
            p,
        ).buddy_order < MAX_ORDER && s1.start <= head_of(p, s1.page(p).buddy_order as nat) && s1.listed(
            s1.page(p).buddy_order as int,
            head_of(p, s1.page(p).buddy_order as nat),
        ) by {
            assert(s0.page(p) == s1.page(p));
        }
    }

    /// Changing list nodes in a way that keeps every list well formed keeps
    /// the invariant.
    proof fn lemma_nodes_frame(s0: BuddyAlloc, s1: BuddyAlloc, ex: Set<int>)
        requires
            s0.wf_except(ex),
            s1.start == s0.start,
            s1.end == s0.end,
            s1.meta@ == s0.meta@,
            s1.freelists@ == s0.freelists@,
            s1.nodes@.len() == s0.nodes@.len(),
            forall|o: int| 0 <= o < MAX_ORDER ==> (#[trigger] s1.freelists@[o]).wf(s1.nodes@),
        ensures
            s1.wf_except(ex),
    {
        assert forall|o: int, i: int| 0 <= o < MAX_ORDER && 0 <= i < s1.list(o).len() implies s1.head_ok(
            #[trigger] s1.list(o)[i] - 2 + s1.start,
            o as nat,
            ex,
        ) by {
            assert(s1.list(o) == s0.list(o));
            s0.lemma_list_item(ex, o, i);
            let h = s0.list(o)[i] - 2 + s0.start;
            assert forall|p: int| #![trigger s1.page(p)] in_block(p, h, o as nat) implies s1.page(p).usage
                == PageUsage::Free && s1.page(p).buddy_order == o && !ex.contains(p) by {
                assert(s0.page(p) == s1.page(p));
            }
        }
        assert forall|p: int|
            s1.start <= p < s1.end && !ex.contains(p) && (#[trigger] s1.page(p)).usage == PageUsage::Free implies s1.page(
            p,
        ).buddy_order < MAX_ORDER && s1.start <= head_of(p, s1.page(p).buddy_order as nat) && s1.listed(
            s1.page(p).buddy_order as int,
            head_of(p, s1.page(p).buddy_order as nat),
        ) by {
            assert(s0.page(p) == s1.page(p));
        }
    }

    /// Putting block `h`, whose pages are marked free with order `o` and are
    /// excepted, on the front of the free list of that order keeps the
    /// invariant, without the exception for the block.
    proof fn lemma_after_push(s0: BuddyAlloc, s1: BuddyAlloc, o: int, h: int, ex: Set<int>)
        requires
            s0.wf_except(ex),
            0 <= o < MAX_ORDER,
            aligned(h, o as nat),
            s0.start <= h,
            h + pow2(o as nat) <= s0.end,
            forall|p: int|
                #![trigger s0.page(p)]
                in_block(p, h, o as nat) ==> ex.contains(p) && s0.page(p).usage == PageUsage::Free
                    && s0.page(p).buddy_order == o,
            s1.start == s0.start,
            s1.end == s0.end,
            s1.meta@ == s0.meta@,
            s1.nodes@.len() == s0.nodes@.len(),
            s1.freelists@.len() == MAX_ORDER,
            forall|o2: int| 0 <= o2 < MAX_ORDER && o2 != o ==> s1.freelists@[o2] == s0.freelists@[o2],
            s1.freelists@[o].wf(s1.nodes@),
            s1.list(o) == seq![(h - s0.start + 2) as usize] + s0.list(o),
            forall|a: usize|
                a < s0.nodes@.len() && a != (h - s0.start + 2) && !s0.list(o).contains(a) ==> #[trigger] s1.nodes@[a as int]
                    == s0.nodes@[a as int],
        ensures
            s1.wf_except(ex.difference(vstd::set::Set::new(|p: int| in_block(p, h, o as nat)))),
    {
        let ex2 = ex.difference(Set::new(|p: int| in_block(p, h, o as nat)));
        let ah = (h - s0.start + 2) as usize;
        assert(ah as int == h - s0.start + 2);
        lemma_pow2_facts(o as nat);
        assert(in_block(h, h, o as nat));
        assert(ex.contains(h));
        // The new item is on no other list: its page is excepted.
        assert forall|o2: int| 0 <= o2 < MAX_ORDER implies (#[trigger] s1.freelists@[o2]).wf(s1.nodes@) by {
            if o2 != o {
                assert forall|a: usize| #[trigger] s0.freelists@[o2]@.contains(a) implies s1.nodes@[a as int]
                    == s0.nodes@[a as int] by {
                    let i = choose|i: int| 0 <= i < s0.list(o2).len() && s0.list(o2)[i] == a;
                    s0.lemma_list_item(ex, o2, i);
                    if a == ah {
                        assert(a - 2 + s0.start == h);
                        assert(in_block(h, h, o2 as nat)) by {
                            lemma_pow2_facts(o2 as nat);
                        }
                        assert(s0.page(h).usage == PageUsage::Free);
                        assert(false);
                    }
                    s0.lemma_lists_disjoint(ex, o2, o, a);
                }
                s0.freelists@[o2].lemma_frame(s0.nodes@, s1.nodes@);
            }
        }
        assert forall|o2: int, i: int| 0 <= o2 < MAX_ORDER && 0 <= i < s1.list(o2).len() implies s1.head_ok(
            #[trigger] s1.list(o2)[i] - 2 + s1.start,
            o2 as nat,
            ex2,
        ) by {
            if o2 == o && i == 0 {
                assert(s1.list(o2)[i] == ah);
                assert forall|p: int| #![trigger s1.page(p)] in_block(p, h, o as nat) implies s1.page(p).usage
                    == PageUsage::Free && s1.page(p).buddy_order == o && !ex2.contains(p) by {
                    assert(s0.page(p) == s1.page(p));
                }
            } else {
                let j = if o2 == o { i - 1 } else { i };
                assert(s1.list(o2)[i] == s0.list(o2)[j]);
                s0.lemma_list_item(ex, o2, j);
                let h2 = s0.list(o2)[j] - 2 + s0.start;
                assert forall|p: int| #![trigger s1.page(p)] in_block(p, h2, o2 as nat) implies s1.page(p).usage
                    == PageUsage::Free && s1.page(p).buddy_order == o2 && !ex2.contains(p) by {
                    assert(s0.page(p) == s1.page(p));
                }
            }
        }
        assert forall|p: int|
            s1.start <= p < s1.end && !ex2.contains(p) && (#[trigger] s1.page(p)).usage == PageUsage::Free implies s1.page(
            p,
        ).buddy_order < MAX_ORDER && s1.start <= head_of(p, s1.page(p).buddy_order as nat) && s1.listed(
            s1.page(p).buddy_order as int,
            head_of(p, s1.page(p).buddy_order as nat),
        ) by {
            assert(s0.page(p) == s1.page(p));
            if in_block(p, h, o as nat) {
                crate::buddy::lemma_head_of(p, h, o as nat);
                assert(s1.list(o)[0] == ah);
            } else {
                let po = s0.page(p).buddy_order as int;
                let ap = (head_of(p, po as nat) - s0.start + 2) as usize;
                assert(s0.list(po).contains(ap));
                if po == o {
                    let i = choose|i: int| 0 <= i < s0.list(o).len() && s0.list(o)[i] == ap;
                    assert(s1.list(o)[i + 1] == ap);
                }
            }
        }
    }

    /// Mark one block of memory as free, joining it with its free buddies
    /// while `may_coalesce` holds. The block's pages are excepted from the
    /// invariant on entry and not on return; coalescing needs the
    /// invariant to hold everywhere else.
    fn free(&mut self, ppn0: PPN, order0: u8, may_coalesce: bool, Ghost(ex): Ghost<Set<int>>)
        requires
            old(self).wf_except(ex),
            order0 < MAX_ORDER,
            aligned(ppn0 as int, order0 as nat),
            old(self).dom_start() <= ppn0,
            ppn0 + pow2(order0 as nat) <= old(self).dom_end(),
            forall|p: int| in_block(p, ppn0 as int, order0 as nat) ==> ex.contains(p),
            may_coalesce ==> forall|p: int| ex.contains(p) ==> in_block(p, ppn0 as int, order0 as nat),
        ensures
            final(self).wf_except(ex.difference(Set::new(|p: int| in_block(p, ppn0 as int, order0 as nat)))),
            final(self).dom_start() == old(self).dom_start(),
            final(self).dom_end() == old(self).dom_end(),
            final(self).free_pages() == old(self).free_pages().union(
                Set::new(|p: int| in_block(p, ppn0 as int, order0 as nat)),
            ),
            forall|p: int|
                #![trigger final(self).page(p)]
                old(self).dom_start() <= p < old(self).dom_end() && !old(self).free_pages().contains(p)
                    && !in_block(p, ppn0 as int, order0 as nat) ==> final(self).page(p) == old(self).page(p),
            !may_coalesce ==> forall|p: int|
                #![trigger final(self).page(p)]
                old(self).dom_start() <= p < old(self).dom_end() && !in_block(p, ppn0 as int, order0 as nat)
                    ==> final(self).page(p) == old(self).page(p),
            forall|p: int|
                #![trigger final(self).page(p)]
                in_block(p, ppn0 as int, order0 as nat) ==> final(self).page(p).usage == PageUsage::Free,
            !may_coalesce ==> final(self).free_block_at(ppn0 as int, order0 as nat),
            may_coalesce ==> exists|h: int, o: nat|
                #![trigger final(self).merge_stops(h, o)]
                order0 <= o < MAX_ORDER && aligned(h, o) && in_block(ppn0 as int, h, o) && final(self).free_block_at(h, o)
                    && final(self).merge_stops(h, o) && forall|p: int|
                    #![trigger final(self).page(p)]
                    old(self).dom_start() <= p < old(self).dom_end() && !in_block(p, h, o) ==> final(self).page(p)
                        == old(self).page(p),
    {
        let ghost s_in = *self;
        let mut ppn = ppn0;
        let mut order = order0;
        let ghost mut cur = ex;
        proof {
            assert forall|p: int| cur.contains(p) <==> ex.contains(p) || in_block(p, ppn as int, order as nat) by {}
        }
        while may_coalesce && order < MAX_ORDER
            invariant_except_break
                order < MAX_ORDER,
            invariant
                self.wf_except(cur),
                self.start == s_in.start,
                self.end == s_in.end,
                self.meta@ == s_in.meta@,
                aligned(ppn as int, order as nat),
                self.start <= ppn,
                ppn + pow2(order as nat) <= self.end,
                order <= MAX_ORDER,
                forall|p: int| in_block(p, ppn0 as int, order0 as nat) ==> in_block(p, ppn as int, order as nat),
                forall|p: int| cur.contains(p) <==> ex.contains(p) || in_block(p, ppn as int, order as nat),
                !may_coalesce ==> ppn == ppn0 && order == order0,
                may_coalesce ==> forall|p: int| ex.contains(p) ==> in_block(p, ppn0 as int, order0 as nat),
                forall|p: int|
                    in_block(p, ppn as int, order as nat) && !in_block(p, ppn0 as int, order0 as nat)
                        ==> s_in.page(p).usage == PageUsage::Free,
                order0 <= order,
            ensures
                may_coalesce ==> s_in.merge_stops(ppn as int, order as nat),
            decreases MAX_ORDER - order,
        {
            let bit = 1usize << order;
            let buddy = ppn ^ bit;
            proof {
                lemma_xor_is_buddy(ppn, order as usize);
                lemma_buddy(ppn as int, order as nat);
                lemma_pow2_facts(order as nat);
            }
            if buddy < self.start || buddy >= self.end {
                break;
            }
            let b = self.meta[buddy - self.start];
            if b.usage != PageUsage::Free || b.buddy_order != order {
                proof {
                    assert(s_in.page(buddy as int) == self.page(buddy as int));
                }
                break;
            }
            let ghost s0 = *self;
            proof {
                assert(s0.page(buddy as int) == b);
                // The buddy is outside the current block and the exception.
                assert(!in_block(buddy as int, ppn as int, order as nat));
                assert(!cur.contains(buddy as int));
                assert(head_of(buddy as int, order as nat) == buddy) by {
                    crate::buddy::lemma_head_of(buddy as int, buddy as int, order as nat);
                }
                s0.lemma_listed(cur, order as int, buddy as int);
                s0.freelists@[order as int].lemma_wf(s0.nodes@);
            }
            let a = buddy - self.start + 2;
            self.freelists[order as usize].remove(&mut self.nodes, a);
            proof {
                let s1 = *self;
                BuddyAlloc::lemma_after_remove(s0, s1, order as int, buddy as int, cur);
                let m = merged_head(ppn as int, order as nat);
                assert forall|p: int| cur.union(crate::pmm::block_set(buddy as int, order as nat)).contains(p) <==> ex.contains(p)
                    || in_block(p, m, (order + 1) as nat) by {}
                cur = cur.union(crate::pmm::block_set(buddy as int, order as nat));
                assert forall|p: int|
                    in_block(p, m, (order + 1) as nat) && !in_block(p, ppn0 as int, order0 as nat) implies s_in.page(
                    p,
                ).usage == PageUsage::Free by {
                    if in_block(p, buddy as int, order as nat) {
                        assert(s0.page(p).usage == PageUsage::Free);
                        assert(s_in.page(p) == s0.page(p));
                    }
                }
            }
            let ghost old_order = order;
            ppn = if ppn < buddy { ppn } else { buddy };
            order = order + 1;
            proof {
                lemma_pow2_facts(old_order as nat);
                assert(ppn + pow2(order as nat) <= self.end);
                assert(pow2(order as nat) < 0x1_0000_0000);
                vstd::arithmetic::power2::lemma2_to64();
                assert(order < MAX_ORDER) by {
                    if order >= 32 {
                        lemma_pow2_mono(32, order as nat);
                    }
                }
            }
        }
        proof {
            vstd::arithmetic::power2::lemma2_to64();
            assert(order < 32) by {
                if order >= 32 {
                    lemma_pow2_mono(32, order as nat);
                }
            }
            lemma_pow2_facts(order as nat);
            assert(cur.contains(ppn as int));
        }
        // Update block metadata.
        let size = 1usize << order;
        proof {
            vstd::bits::lemma_usize_pow2_no_overflow(order as nat);
            vstd::bits::lemma_usize_shl_is_mul(1, order as usize);
        }
        let ghost s_pre = *self;
        let mut p = ppn;
        while p < ppn + size
            invariant
                ppn <= p <= ppn + size,
                size == pow2(order as nat),
                ppn + size <= self.end,
                self.start <= ppn,
                self.start == s_pre.start,
                self.end == s_pre.end,
                self.nodes@ == s_pre.nodes@,
                self.freelists@ == s_pre.freelists@,
                self.meta@.len() == s_pre.meta@.len(),
                s_pre.meta@.len() == s_pre.end - s_pre.start,
                forall|q: int|
                    #![trigger self.page(q)]
                    ppn <= q < p ==> self.page(q) == (PageMeta { usage: PageUsage::Free, buddy_order: order, refcount: 0 }),
                forall|q: int| #![trigger self.page(q)] self.start <= q < self.end && !(ppn <= q < p) ==> self.page(q) == s_pre.page(q),
            decreases ppn + size - p,
        {
            let ghost prev = *self;
            self.meta[p - self.start] = PageMeta { usage: PageUsage::Free, buddy_order: order, refcount: 0 };
            proof {
                assert forall|q: int| #![trigger self.page(q)] self.start <= q < self.end implies self.page(q) == (
                if q == p {
                    PageMeta { usage: PageUsage::Free, buddy_order: order, refcount: 0 }
                } else {
                    prev.page(q)
                }) by {
                    assert(self.meta@[q - self.start] == prev.meta@.update(p - self.start, PageMeta { usage: PageUsage::Free, buddy_order: order, refcount: 0 })[q - self.start]);
                }
            }
            p = p + 1;
        }
        proof {
            BuddyAlloc::lemma_meta_frame(s_pre, *self, cur);
        }
        // Insert into the correct freelist.
        let a = ppn - self.start + 2;
        let ghost s_meta = *self;
        proof {
            // The block's node is on no list: its page is excepted.
            assert forall|o: int| 0 <= o < MAX_ORDER implies !s_meta.list(o).contains(a) by {
                if s_meta.list(o).contains(a) {
                    let i = choose|i: int| 0 <= i < s_meta.list(o).len() && s_meta.list(o)[i] == a;
                    s_meta.lemma_list_item(cur, o, i);
                    lemma_pow2_facts(o as nat);
                    assert(a - 2 + s_meta.start == ppn);
                    assert(in_block(ppn as int, ppn as int, o as nat));
                    assert(s_meta.page(ppn as int).usage == PageUsage::Free && !cur.contains(ppn as int));
                }
            }
        }
        self.nodes[a] = InvasiveListNode::new();
        proof {
            assert forall|o: int| 0 <= o < MAX_ORDER implies (#[trigger] self.freelists@[o]).wf(self.nodes@) by {
                assert forall|x: usize| #[trigger] s_meta.freelists@[o]@.contains(x) implies self.nodes@[x as int]
                    == s_meta.nodes@[x as int] by {
                    assert(s_meta.list(o).contains(x));
                    assert(x != a);
                }
                s_meta.freelists@[o].lemma_frame(s_meta.nodes@, self.nodes@);
            }
        }
        let ghost s_node = *self;
        proof {
            assert(s_node.meta@ == s_meta.meta@);
            assert(s_node.freelists@ == s_meta.freelists@);
            BuddyAlloc::lemma_nodes_frame(s_meta, s_node, cur);
            assert forall|q: int| #![trigger s_node.page(q)] in_block(q, ppn as int, order as nat) implies cur.contains(q)
                && s_node.page(q).usage == PageUsage::Free && s_node.page(q).buddy_order == order by {
                assert(s_node.page(q) == s_meta.page(q));
                assert(s_meta.page(q) == (PageMeta { usage: PageUsage::Free, buddy_order: order, refcount: 0 }));
            }
        }
        let res = self.freelists[order as usize].push_front(&mut self.nodes, a);
        proof {
            assert(res is Ok);
            let s_fin = *self;
            BuddyAlloc::lemma_after_push(s_node, s_fin, order as int, ppn as int, cur);
            let fin_ex = cur.difference(Set::new(|q: int| in_block(q, ppn as int, order as nat)));
            assert(fin_ex =~= ex.difference(Set::new(|q: int| in_block(q, ppn0 as int, order0 as nat))));
            assert(s_fin.meta@ == s_meta.meta@);
            assert forall|q: int| #[trigger] s_fin.free_pages().contains(q) <==> s_in.free_pages().union(
                Set::new(|q: int| in_block(q, ppn0 as int, order0 as nat)),
            ).contains(q) by {
                if s_in.start <= q < s_in.end {
                    assert(s_fin.page(q) == s_meta.page(q));
                    if !in_block(q, ppn as int, order as nat) {
                        assert(s_meta.page(q) == s_pre.page(q));
                        assert(s_pre.page(q) == s_in.page(q));
                    }
                }
            }
            assert(s_fin.free_pages() =~= s_in.free_pages().union(Set::new(|q: int| in_block(q, ppn0 as int, order0 as nat))));
            assert forall|q: int|
                #![trigger s_fin.page(q)]
                s_in.start <= q < s_in.end && (!s_in.free_pages().contains(q) || !may_coalesce) && !in_block(q, ppn0 as int, order0 as nat)
                    implies s_fin.page(q) == s_in.page(q) by {
                assert(s_fin.page(q) == s_meta.page(q));
                assert(s_meta.page(q) == s_pre.page(q));
            }
            assert forall|q: int| #![trigger s_fin.page(q)] in_block(q, ppn0 as int, order0 as nat) implies s_fin.page(q).usage
                == PageUsage::Free by {
                assert(s_fin.page(q) == s_meta.page(q));
            }
            assert(s_fin.free_block_at(ppn as int, order as nat)) by {
                assert forall|q: int| #![trigger s_fin.page(q)] in_block(q, ppn as int, order as nat) implies s_fin.page(q).usage
                    == PageUsage::Free && s_fin.page(q).buddy_order == order by {
                    assert(s_fin.page(q) == s_meta.page(q));
                }
            }
            assert forall|q: int|
                #![trigger s_fin.page(q)]
                s_in.start <= q < s_in.end && !in_block(q, ppn as int, order as nat) implies s_fin.page(q) == s_in.page(q) by {
                assert(s_fin.page(q) == s_meta.page(q));
                assert(s_meta.page(q) == s_pre.page(q));
            }
            if may_coalesce {
                let h = ppn as int;
                let o = order as nat;
                let b = buddy_of(h, o);
                lemma_buddy(h, o);
                lemma_pow2_facts(o);
                if s_in.start <= b < s_in.end {
                    assert(!in_block(b, h, o));
                    assert(s_fin.page(b) == s_meta.page(b));
                    assert(s_meta.page(b) == s_pre.page(b));
                    assert(s_pre.page(b) == s_in.page(b));
                }
                assert(s_fin.merge_stops(h, o));
                assert(in_block(ppn0 as int, h, o));
            }
        }
    }
}

/// An aligned block is aligned at every smaller order, and so is the block
/// `2^small` pages further.
pub proof fn lemma_aligned_weaken(h: int, big: nat, small: nat)
    requires
        aligned(h, big),
        small <= big,
    ensures
        aligned(h, small),
        aligned(h + pow2(small), small),
        small < big ==> h + pow2(small + 1) <= h + pow2(big),
{
    lemma_pow2_facts(small);
    lemma_pow2_facts(big);
    vstd::arithmetic::power2::lemma_pow2_adds(small, (big - small) as nat);
    let ds = pow2(small);
    let m = pow2((big - small) as nat);
    assert(pow2(big) == ds * m);
    vstd::arithmetic::div_mod::lemma_fundamental_div_mod(h, pow2(big));
    let q = h / pow2(big);
    assert(h == ds * (m * q)) by (nonlinear_arith)
        requires
            h == pow2(big) * q,
            pow2(big) == ds * m,
    ;
    vstd::arithmetic::div_mod::lemma_fundamental_div_mod_converse(h, ds, m * q, 0);
    assert(h + ds == ds * (m * q + 1)) by (nonlinear_arith)
        requires
            h == ds * (m * q),
    ;
    vstd::arithmetic::div_mod::lemma_fundamental_div_mod_converse(h + ds, ds, m * q + 1, 0);
    if small < big {
        lemma_pow2_mono(small + 1, big);
    }
}

impl BuddyAlloc {
    /// Dropping the exception for pages that are not free keeps the invariant.
    proof fn lemma_drop_exception(&self, ex: Set<int>, ex2: Set<int>)
        requires
            self.wf_except(ex),
            ex2.subset_of(ex),
            forall|p: int|
                #![trigger self.page(p)]
                ex.contains(p) && !ex2.contains(p) && self.dom_start() <= p < self.dom_end() ==> self.page(p).usage
                    != PageUsage::Free,
        ensures
            self.wf_except(ex2),
    {
        assert forall|o: int, i: int| 0 <= o < MAX_ORDER && 0 <= i < self.list(o).len() implies self.head_ok(
            #[trigger] self.list(o)[i] - 2 + self.start,
            o as nat,
            ex2,
        ) by {
            self.lemma_list_item(ex, o, i);
        }
    }

    /// A page that is not free can be excepted.
    proof fn lemma_add_exception(&self, ex: Set<int>, ex2: Set<int>)
        requires
            self.wf_except(ex),
            ex.subset_of(ex2),
            forall|p: int|
                #![trigger self.page(p)]
                ex2.contains(p) && !ex.contains(p) ==> self.dom_start() <= p < self.dom_end() && self.page(p).usage
                    != PageUsage::Free,
        ensures
            self.wf_except(ex2),
    {
        assert forall|o: int, i: int| 0 <= o < MAX_ORDER && 0 <= i < self.list(o).len() implies self.head_ok(
            #[trigger] self.list(o)[i] - 2 + self.start,
            o as nat,
            ex2,
        ) by {
            self.lemma_list_item(ex, o, i);
            let h = self.list(o)[i] - 2 + self.start;
            assert forall|p: int| #![trigger self.page(p)] in_block(p, h, o as nat) implies self.page(p).usage
                == PageUsage::Free && self.page(p).buddy_order == o && !ex2.contains(p) by {}
        }
    }

    /// Try to allocate a block of `2^order` pages for `usage`: the smallest
    /// free block of at least that order is split down to it.
    pub fn allocate(&mut self, order: u8, usage: PageUsage) -> (r: Option<PPN>)
        requires
            old(self).wf(),
            usage != PageUsage::Free,
        ensures
            final(self).wf(),
            final(self).dom_start() == old(self).dom_start(),
            final(self).dom_end() == old(self).dom_end(),
            r is None <==> order >= MAX_ORDER || !old(self).has_free_block(order as int),
            r is None ==> *final(self) == *old(self),
            r is Some ==> old(self).first_free_order(order as int) < MAX_ORDER && old(self).free_block_at(
                r->0 as int,
                old(self).first_free_order(order as int) as nat,
            ),
            r is Some ==> ({
                let ppn = r->0 as int;
                &&& aligned(ppn, order as nat)
                &&& old(self).dom_start() <= ppn
                &&& ppn + pow2(order as nat) <= old(self).dom_end()
                &&& forall|p: int| in_block(p, ppn, order as nat) ==> #[trigger] old(self).free_pages().contains(p)
                &&& final(self).free_pages() == old(self).free_pages().difference(
                    Set::new(|p: int| in_block(p, ppn, order as nat)),
                )
                &&& forall|p: int|
                    #![trigger final(self).page(p)]
                    in_block(p, ppn, order as nat) ==> final(self).page(p) == (PageMeta {
                        usage: usage,
                        buddy_order: order,
                        refcount: 0,
                    })
            }),
            forall|p: int|
                #![trigger final(self).page(p)]
                old(self).dom_start() <= p < old(self).dom_end() && !old(self).free_pages().contains(p)
                    ==> final(self).page(p) == old(self).page(p),
            r is Some ==> forall|k: nat|
                order <= k < old(self).first_free_order(order as int) ==> #[trigger] final(self).split_leftover_free(
                    r->0 as int,
                    k,
                ),
            r is Some ==> forall|p: int|
                #![trigger final(self).page(p)]
                old(self).dom_start() <= p < old(self).dom_end() && !in_block(
                    p,
                    r->0 as int,
                    old(self).first_free_order(order as int) as nat,
                ) ==> final(self).page(p) == old(self).page(p),
    {
        let ghost s0 = *self;
        proof {
            s0.lemma_has_free_block(order as int);
        }
        if order > MAX_ORDER {
            return None;
        }
        let mut split: u8 = order;
        while split < MAX_ORDER
            invariant
                order <= split <= MAX_ORDER,
                self.wf(),
                *self == s0,
                forall|o: int| order <= o < split ==> s0.list(o).len() == 0,
            ensures
                order <= split <= MAX_ORDER,
                *self == s0,
                forall|o: int| order <= o < split ==> s0.list(o).len() == 0,
                split < MAX_ORDER ==> s0.list(split as int).len() != 0,
            decreases MAX_ORDER - split,
        {
            proof {
                self.freelists@[split as int].lemma_len(self.nodes@);
            }
            if self.freelists[split as usize].len() != 0 {
                break;
            }
            split = split + 1;
        }
        if split >= MAX_ORDER {
            return None;
        }
        proof {
            self.freelists@[split as int].lemma_len(self.nodes@);
            self.freelists@[split as int].lemma_wf(self.nodes@);
        }
        let block = match self.freelists[split as usize].pop_front(&mut self.nodes) {
            Some(b) => b,
            None => {
                proof {
                    assert(false);
                }
                0
            },
        };
        let ppn = block - 2 + self.start;
        let ghost blk = Set::new(|p: int| in_block(p, ppn as int, split as nat));
        proof {
            let s1 = *self;
            s0.lemma_list_item(Set::empty(), split as int, 0);
            assert(s0.listed(split as int, ppn as int));
            s0.list(split as int).index_of_first_ensures(block);
            s0.freelists@[split as int].lemma_wf(s0.nodes@);
            assert(s0.list(split as int).index_of(block) == 0);
            assert(s1.list(split as int) =~= s0.list(split as int).remove(0));
            BuddyAlloc::lemma_after_remove(s0, s1, split as int, ppn as int, Set::empty());
            assert(Set::<int>::empty().union(crate::pmm::block_set(ppn as int, split as nat)) =~= blk);
            // The block taken is the first of the smallest order that has one.
            assert(s0.free_block_at(ppn as int, split as nat));
            assert forall|o2: int| order <= o2 < split implies !#[trigger] s0.has_free_block_of(o2) by {
                if s0.has_free_block_of(o2) {
                    let p = choose|p: int| #[trigger] s0.free_pages().contains(p) && s0.page(p).buddy_order == o2;
                    assert(s0.list(o2).len() > 0);
                }
            }
        }
        // Split down to the desired order.
        let mut o = order;
        let ghost mut cur = blk;
        let ghost s_split = *self;
        proof {
            lemma_pow2_mono(order as nat, split as nat);
            assert forall|p: int| #![trigger self.page(p)] in_block(p, ppn as int, split as nat) implies s0.page(p).usage
                == PageUsage::Free by {
                assert(s0.page(p).usage == PageUsage::Free);
            }
        }
        while o < split
            invariant
                order <= o <= split,
                split < MAX_ORDER,
                self.wf_except(cur),
                self.start == s0.start,
                self.end == s0.end,
                aligned(ppn as int, split as nat),
                s0.start <= ppn,
                ppn + pow2(split as nat) <= s0.end,
                forall|p: int|
                    #[trigger] cur.contains(p) <==> in_block(p, ppn as int, order as nat) || (ppn + pow2(o as nat) <= p
                        < ppn + pow2(split as nat)),
                forall|p: int| #![trigger self.page(p)] s0.start <= p < s0.end ==> (self.page(p).usage == PageUsage::Free
                    <==> s0.page(p).usage == PageUsage::Free),
                forall|p: int|
                    #![trigger self.page(p)]
                    s0.start <= p < s0.end && !in_block(p, ppn as int, split as nat) ==> self.page(p) == s0.page(p),
                forall|p: int| #![trigger self.page(p)] in_block(p, ppn as int, order as nat) ==> self.page(p) == s_split.page(p),
                forall|p: int| #![trigger s0.page(p)] in_block(p, ppn as int, split as nat) ==> s0.page(p).usage == PageUsage::Free,
                forall|k: nat| order <= k < o ==> #[trigger] self.split_leftover_free(ppn as int, k),
            decreases split - o,
        {
            proof {
                vstd::bits::lemma_usize_pow2_no_overflow(o as nat);
                vstd::bits::lemma_usize_shl_is_mul(1, o as usize);
                lemma_aligned_weaken(ppn as int, split as nat, o as nat);
                lemma_pow2_mono(o as nat, split as nat);
            }
            let half = ppn + (1usize << o);
            proof {
                lemma_pow2_facts(o as nat);
                lemma_pow2_mono(order as nat, o as nat);
                assert forall|p: int| in_block(p, half as int, o as nat) implies cur.contains(p) by {}
            }
            let ghost s_a = *self;
            self.free(half, o, false, Ghost(cur));
            proof {
                let nxt = cur.difference(Set::new(|p: int| in_block(p, half as int, o as nat)));
                assert forall|p: int|
                    #[trigger] nxt.contains(p) <==> in_block(p, ppn as int, order as nat) || (ppn + pow2((o + 1) as nat)
                        <= p < ppn + pow2(split as nat)) by {}
                cur = nxt;
                assert forall|k: nat| order <= k < o + 1 implies #[trigger] self.split_leftover_free(ppn as int, k) by {
                    if k < o {
                        lemma_pow2_facts(k);
                        lemma_pow2_mono(k + 1, o as nat);
                        assert(s_a.split_leftover_free(ppn as int, k));
                        assert forall|q: int| #![trigger self.page(q)] in_block(q, ppn + pow2(k), k) implies self.page(q)
                            == s_a.page(q) by {
                            assert(!in_block(q, half as int, o as nat));
                            assert(s_a.page(q).usage == PageUsage::Free);
                        }
                    }
                }
                assert forall|p: int| #![trigger self.page(p)] s0.start <= p < s0.end implies (self.page(p).usage
                    == PageUsage::Free <==> s0.page(p).usage == PageUsage::Free) by {
                    if in_block(p, half as int, o as nat) {
                        assert(in_block(p, ppn as int, split as nat));
                        assert(s0.page(p).usage == PageUsage::Free);
                    } else {
                        assert(self.page(p) == s_a.page(p));
                    }
                }
            }
            o = o + 1;
        }
        // Update block metadata.
        let size = 1usize << order;
        proof {
            vstd::bits::lemma_usize_pow2_no_overflow(order as nat);
            vstd::bits::lemma_usize_shl_is_mul(1, order as usize);
            lemma_pow2_mono(order as nat, split as nat);
        }
        let ghost s_pre = *self;
        let mut p = ppn;
        while p < ppn + size
            invariant
                ppn <= p <= ppn + size,
                size == pow2(order as nat),
                ppn + size <= self.end,
                self.start <= ppn,
                self.start == s_pre.start,
                self.end == s_pre.end,
                self.nodes@ == s_pre.nodes@,
                self.freelists@ == s_pre.freelists@,
                self.meta@.len() == s_pre.meta@.len(),
                s_pre.meta@.len() == s_pre.end - s_pre.start,
                forall|q: int|
                    #![trigger self.page(q)]
                    ppn <= q < p ==> self.page(q) == (PageMeta { usage: usage, buddy_order: order, refcount: 0 }),
                forall|q: int| #![trigger self.page(q)] self.start <= q < self.end && !(ppn <= q < p) ==> self.page(q) == s_pre.page(q),
            decreases ppn + size - p,
        {
            let ghost prev = *self;
            self.meta[p - self.start] = PageMeta { usage: usage, buddy_order: order, refcount: 0 };
            proof {
                assert forall|q: int| #![trigger self.page(q)] self.start <= q < self.end implies self.page(q) == (
                if q == p {
                    PageMeta { usage: usage, buddy_order: order, refcount: 0 }
                } else {
                    prev.page(q)
                }) by {
                    assert(self.meta@[q - self.start] == prev.meta@.update(p - self.start, PageMeta { usage: usage, buddy_order: order, refcount: 0 })[q - self.start]);
                }
            }
            p = p + 1;
        }
        proof {
            BuddyAlloc::lemma_meta_frame(s_pre, *self, cur);
            self.lemma_drop_exception(cur, Set::empty());
            assert(self.free_pages() =~= s0.free_pages().difference(Set::new(|q: int| in_block(q, ppn as int, order as nat))));
            lemma_aligned_weaken(ppn as int, split as nat, order as nat);
            assert forall|q: int| in_block(q, ppn as int, order as nat) implies #[trigger] s0.free_pages().contains(q) by {
                assert(in_block(q, ppn as int, split as nat));
                assert(s0.page(q).usage == PageUsage::Free);
            }
            assert forall|q: int| #![trigger self.page(q)] in_block(q, ppn as int, order as nat) implies self.page(q) == (PageMeta {
                usage: usage,
                buddy_order: order,
                refcount: 0,
            }) by {}
        }
        proof {
            assert(s0.free_block_at(ppn as int, split as nat));
            assert(forall|o2: int| order <= o2 < split ==> !#[trigger] s0.has_free_block_of(o2));
            lemma_pow2_facts(split as nat);
            assert(in_block(ppn as int, ppn as int, split as nat));
            assert(s0.free_pages().contains(ppn as int));
            assert(s0.has_free_block_of(split as int));
            s0.lemma_first_free_order(order as int, split as int);
            assert forall|k: nat| order <= k < split implies #[trigger] self.split_leftover_free(ppn as int, k) by {
                lemma_pow2_mono(order as nat, k);
                assert(s_pre.split_leftover_free(ppn as int, k));
                assert forall|q: int| #![trigger self.page(q)] in_block(q, ppn + pow2(k), k) implies self.page(q)
                    == s_pre.page(q) by {
                    lemma_pow2_facts(k);
                    lemma_pow2_mono(k + 1, split as nat);
                }
            }
        }
        Some(ppn)
    }
}

impl BuddyAlloc {
    /// An allocator for the pages `domain`, all reserved, with empty free lists.
    pub fn new(domain: core::ops::Range<PPN>) -> (r: Self)
        requires
            domain.start <= domain.end,
            domain.end - domain.start < 0x1_0000_0000,
            domain.end - domain.start + 2 <= usize::MAX,
        ensures
            r.wf(),
            r.dom_start() == domain.start,
            r.dom_end() == domain.end,
            r.free_pages() == Set::<int>::empty(),
            forall|p: int|
                #![trigger r.page(p)]
                domain.start <= p < domain.end ==> r.page(p) == (PageMeta {
                    usage: PageUsage::Reserved,
                    buddy_order: 0,
                    refcount: 1,
                }),
    {
        let n = domain.end - domain.start;
        let mut meta: Vec<PageMeta> = Vec::new();
        let mut i: usize = 0;
        while i < n
            invariant
                i <= n,
                meta@.len() == i,
                forall|k: int| 0 <= k < i ==> meta@[k] == (PageMeta { usage: PageUsage::Reserved, buddy_order: 0, refcount: 1 }),
            decreases n - i,
        {
            meta.push(PageMeta { usage: PageUsage::Reserved, buddy_order: 0, refcount: 1 });
            i = i + 1;
        }
        let mut nodes: Vec<InvasiveListNode> = Vec::new();
        let mut j: usize = 0;
        let nn = n + 2;
        while j < nn
            invariant
                nn == n + 2,
                j <= nn,
                nodes@.len() == j,
            decreases nn - j,
        {
            nodes.push(InvasiveListNode::new());
            j = j + 1;
        }
        let mut freelists: Vec<InvasiveList> = Vec::new();
        let mut o: u8 = 0;
        while o < MAX_ORDER
            invariant
                o <= MAX_ORDER,
                freelists@.len() == o,
                forall|k: int| 0 <= k < o ==> (#[trigger] freelists@[k])@.len() == 0,
                forall|k: int, ns: Seq<InvasiveListNode>| 0 <= k < o ==> #[trigger] freelists@[k].wf(ns),
            decreases MAX_ORDER - o,
        {
            freelists.push(InvasiveList::new());
            o = o + 1;
        }
        let r = BuddyAlloc { start: domain.start, end: domain.end, meta, nodes, freelists };
        proof {
            assert forall|o: int, i: int| 0 <= o < MAX_ORDER && 0 <= i < r.list(o).len() implies r.head_ok(
                #[trigger] r.list(o)[i] - 2 + r.start,
                o as nat,
                Set::empty(),
            ) by {}
            assert(r.free_pages() =~= Set::<int>::empty());
        }
        r
    }

    /// Mark an allocated block, whose pages are none of them free, as free
    /// again, joining it with free buddies.
    pub fn free_block(&mut self, ppn: PPN, order: u8)
        requires
            old(self).wf(),
            order < MAX_ORDER,
            aligned(ppn as int, order as nat),
            old(self).dom_start() <= ppn,
            ppn + pow2(order as nat) <= old(self).dom_end(),
            forall|p: int| in_block(p, ppn as int, order as nat) ==> !(#[trigger] old(self).free_pages().contains(p)),
        ensures
            final(self).wf(),
            final(self).dom_start() == old(self).dom_start(),
            final(self).dom_end() == old(self).dom_end(),
            final(self).free_pages() == old(self).free_pages().union(
                Set::new(|p: int| in_block(p, ppn as int, order as nat)),
            ),
            forall|p: int|
                #![trigger final(self).page(p)]
                old(self).dom_start() <= p < old(self).dom_end() && !old(self).free_pages().contains(p)
                    && !in_block(p, ppn as int, order as nat) ==> final(self).page(p) == old(self).page(p),
            exists|h: int, o: nat|
                #![trigger final(self).merge_stops(h, o)]
                order <= o < MAX_ORDER && aligned(h, o) && in_block(ppn as int, h, o) && final(self).free_block_at(h, o)
                    && final(self).merge_stops(h, o) && forall|p: int|
                    #![trigger final(self).page(p)]
                    old(self).dom_start() <= p < old(self).dom_end() && !in_block(p, h, o) ==> final(self).page(p)
                        == old(self).page(p),
    {
        let ghost blk = Set::new(|p: int| in_block(p, ppn as int, order as nat));
        proof {
            assert forall|p: int| #![trigger self.page(p)] blk.contains(p) && !Set::<int>::empty().contains(p) implies self.dom_start()
                <= p < self.dom_end() && self.page(p).usage != PageUsage::Free by {
                assert(!self.free_pages().contains(p));
            }
            self.lemma_add_exception(Set::empty(), blk);
        }
        self.free(ppn, order, true, Ghost(blk));
        proof {
            assert(blk.difference(blk) =~= Set::<int>::empty());
        }
    }

    /// The metadata of a page of the domain.
    pub fn page_meta(&self, ppn: PPN) -> (r: PageMeta)
        requires
            self.wf(),
            self.dom_start() <= ppn < self.dom_end(),
        ensures
            r == self.page(ppn as int),
    {
        self.meta[ppn - self.start]
    }

    /// Set the reference count of a page.
    pub fn set_refcount(&mut self, ppn: PPN, refcount: u32)
        requires
            old(self).wf(),
            old(self).dom_start() <= ppn < old(self).dom_end(),
        ensures
            final(self).wf(),
            final(self).dom_start() == old(self).dom_start(),
            final(self).dom_end() == old(self).dom_end(),
            final(self).free_pages() == old(self).free_pages(),
            forall|p: int|
                #![trigger final(self).page(p)]
                old(self).dom_start() <= p < old(self).dom_end() ==> final(self).page(p) == (if p == ppn {
                    PageMeta { refcount: refcount, ..old(self).page(p) }
                } else {
                    old(self).page(p)
                }),
    {
        let ghost s0 = *self;
        let m = self.meta[ppn - self.start];
        self.meta[ppn - self.start] = PageMeta { refcount: refcount, ..m };
        proof {
            assert forall|p: int| #![trigger self.page(p)] self.start <= p < self.end implies self.page(p) == (if p == ppn {
                PageMeta { refcount: refcount, ..s0.page(p) }
            } else {
                s0.page(p)
            }) by {
                assert(self.meta@[p - self.start] == s0.meta@.update(ppn - self.start, PageMeta { refcount: refcount, ..m })[p - self.start]);
            }
            assert forall|o: int| 0 <= o < MAX_ORDER implies (#[trigger] self.freelists@[o]).wf(self.nodes@) by {
                assert(s0.freelists@[o].wf(s0.nodes@));
            }
            assert forall|o: int, i: int| 0 <= o < MAX_ORDER && 0 <= i < self.list(o).len() implies self.head_ok(
                #[trigger] self.list(o)[i] - 2 + self.start,
                o as nat,
                Set::empty(),
            ) by {
                s0.lemma_list_item(Set::empty(), o, i);
                let h = s0.list(o)[i] - 2 + s0.start;
                assert forall|p: int| #![trigger self.page(p)] in_block(p, h, o as nat) implies self.page(p).usage
                    == PageUsage::Free && self.page(p).buddy_order == o && !Set::<int>::empty().contains(p) by {
                    assert(s0.page(p).usage == PageUsage::Free);
                }
            }
            assert forall|p: int|
                self.start <= p < self.end && !Set::<int>::empty().contains(p) && (#[trigger] self.page(p)).usage == PageUsage::Free implies self.page(
                p,
            ).buddy_order < MAX_ORDER && self.start <= head_of(p, self.page(p).buddy_order as nat) && self.listed(
                self.page(p).buddy_order as int,
                head_of(p, self.page(p).buddy_order as nat),
            ) by {
                assert(s0.page(p).usage == PageUsage::Free);
            }
            assert(self.free_pages() =~= s0.free_pages());
        }
    }
}

/// Whether pages in `usage` are counted as kernel memory.
pub open spec fn is_kernel_usage(usage: PageUsage) -> bool {
    usage == PageUsage::KernelAnon || usage == PageUsage::KernelSlabs || usage == PageUsage::KernelHeap
}

/// Whether pages in `usage` are counted as user memory.
pub open spec fn is_user_usage(usage: PageUsage) -> bool {
    usage == PageUsage::UserAnon || usage == PageUsage::UserCache
}

/// Whether `usage` is one that an allocation can be made for.
pub open spec fn is_alloc_usage(usage: PageUsage) -> bool {
    is_kernel_usage(usage) || is_user_usage(usage)
}

/// `x / PAGE_SIZE`, rounded up.
pub open spec fn pages_up(x: int) -> int {
    (x + PAGE_SIZE - 1) / PAGE_SIZE as int
}

impl BuddyAlloc {
    /// The pages of the domain.
    pub open spec fn domain_set(&self) -> Set<int> {
        Set::new(|p: int| self.dom_start() <= p < self.dom_end())
    }

    /// The pages in use by the kernel.
    pub open spec fn kernel_pages(&self) -> Set<int> {
        Set::new(|p: int| self.dom_start() <= p < self.dom_end() && is_kernel_usage(self.page(p).usage))
    }

    /// The pages in use by userspace.
    pub open spec fn user_pages(&self) -> Set<int> {
        Set::new(|p: int| self.dom_start() <= p < self.dom_end() && is_user_usage(self.page(p).usage))
    }

    /// Block `ppn` of order `order` was handed out as one allocation: it is
    /// aligned, lies in the domain, and all its pages carry the same usage,
    /// one that allocations are made for, and that order.
    pub open spec fn allocated_block(&self, ppn: int, order: nat) -> bool {
        &&& order < MAX_ORDER
        &&& aligned(ppn, order)
        &&& self.dom_start() <= ppn
        &&& ppn + pow2(order) <= self.dom_end()
        &&& is_alloc_usage(self.page(ppn).usage)
        &&& forall|p: int|
            #![trigger self.page(p)]
            in_block(p, ppn, order) ==> self.page(p).usage == self.page(ppn).usage && self.page(p).buddy_order
                == order
    }
}

/// The pages of a block form a set of `2^o` pages.
pub proof fn lemma_block_len(h: int, o: nat)
    ensures
        Set::new(|p: int| in_block(p, h, o)).finite(),
        Set::new(|p: int| in_block(p, h, o)).len() == pow2(o),
{
    lemma_pow2_facts(o);
    vstd::set_lib::lemma_int_range(h, h + pow2(o));
    assert(Set::new(|p: int| in_block(p, h, o)) =~= vstd::set_lib::set_int_range(h, h + pow2(o)));
}

/// Sets of pages of the domain are finite and no larger than it.
proof fn lemma_domain_subset(b: BuddyAlloc, s: Set<int>)
    requires
        b.dom_start() <= b.dom_end(),
        forall|p: int| s.contains(p) ==> b.dom_start() <= p < b.dom_end(),
    ensures
        s.finite(),
        s.len() <= b.dom_end() - b.dom_start(),
{
    vstd::set_lib::lemma_int_range(b.dom_start(), b.dom_end());
    assert(s.subset_of(vstd::set_lib::set_int_range(b.dom_start(), b.dom_end())));
    vstd::set_lib::lemma_len_subset(s, vstd::set_lib::set_int_range(b.dom_start(), b.dom_end()));
}

/// Failure to allocate memory.
#[derive(Clone, Copy, Debug, PartialEq, Eq, Structural)]
pub struct AllocError;

/// Bytes of page metadata kept per page of RAM.
pub const PAGE_META_SIZE: usize = 8;

/// The physical memory manager: the buddy allocator and counters of how
/// many pages of RAM there are, are free, and are in use by the kernel and
/// by userspace.
pub struct Pmm {
    buddy: BuddyAlloc,
    total_pages: usize,
    free_pages: usize,
    kernel_pages: usize,
    user_pages: usize,
}

impl Pmm {
    /// The buddy allocator and its page metadata.
    pub closed spec fn pages(&self) -> BuddyAlloc {
        self.buddy
    }

    /// The manager's invariant: the allocator is well formed, the domain's
    /// size in bytes fits a `usize`, and each counter equals the number of
    /// pages it counts.
    pub closed spec fn wf(&self) -> bool {
        &&& self.buddy.wf()
        &&& self.total_pages == self.buddy.dom_end() - self.buddy.dom_start()
        &&& self.total_pages * PAGE_SIZE <= usize::MAX
        &&& self.free_pages == self.buddy.free_pages().len()
        &&& self.kernel_pages == self.buddy.kernel_pages().len()
        &&& self.user_pages == self.buddy.user_pages().len()
    }

    /// The counted sets are finite and disjoint sets of pages of the domain.
    proof fn lemma_sets(&self)
        requires
            self.buddy.wf(),
        ensures
            self.buddy.free_pages().finite(),
            self.buddy.kernel_pages().finite(),
            self.buddy.user_pages().finite(),
            self.buddy.free_pages().len() <= self.buddy.dom_end() - self.buddy.dom_start(),
            self.buddy.kernel_pages().len() <= self.buddy.dom_end() - self.buddy.dom_start(),
            self.buddy.user_pages().len() <= self.buddy.dom_end() - self.buddy.dom_start(),
    {
        lemma_domain_subset(self.buddy, self.buddy.free_pages());
        lemma_domain_subset(self.buddy, self.buddy.kernel_pages());
        lemma_domain_subset(self.buddy, self.buddy.user_pages());
    }
}

/// The pages of block `ppn` of order `order`.
pub open spec fn block_pages(ppn: int, order: nat) -> Set<int> {
    Set::new(|p: int| in_block(p, ppn, order))
}

/// `p1` is `p0` after block `ppn` of order `order`, all free in `p0`, was
/// handed out for `usage`: its pages leave the free set and join the kernel
/// or user set.
pub open spec fn allocation_step(p0: Pmm, p1: Pmm, ppn: int, order: nat, usage: PageUsage) -> bool {
    let blk = block_pages(ppn, order);
    &&& p1.pages().allocated_block(ppn, order)
    &&& blk.subset_of(p0.pages().free_pages())
    &&& p1.pages().free_pages() == p0.pages().free_pages().difference(blk)
    &&& p1.pages().kernel_pages() == (if is_kernel_usage(usage) {
        p0.pages().kernel_pages().union(blk)
    } else {
        p0.pages().kernel_pages()
    })
    &&& p1.pages().user_pages() == (if is_user_usage(usage) {
        p0.pages().user_pages().union(blk)
    } else {
        p0.pages().user_pages()
    })
}

/// `p1` is `p0` after block `ppn` of order `order` was freed: its pages
/// join the free set and leave the kernel and user sets.
pub open spec fn free_step(p0: Pmm, p1: Pmm, ppn: int, order: nat) -> bool {
    let blk = block_pages(ppn, order);
    &&& p1.pages().free_pages() == p0.pages().free_pages().union(blk)
    &&& p1.pages().kernel_pages() == p0.pages().kernel_pages().difference(blk)
    &&& p1.pages().user_pages() == p0.pages().user_pages().difference(blk)
}

/// Freeing a block right after allocating it gives back the free, kernel
/// and user page sets from before the allocation.
pub proof fn lemma_free_undoes_allocate(p0: Pmm, p1: Pmm, p2: Pmm, ppn: int, order: nat, usage: PageUsage)
    requires
        allocation_step(p0, p1, ppn, order, usage),
        free_step(p1, p2, ppn, order),
    ensures
        p2.pages().free_pages() == p0.pages().free_pages(),
        p2.pages().kernel_pages() == p0.pages().kernel_pages(),
        p2.pages().user_pages() == p0.pages().user_pages(),
{
    let blk = block_pages(ppn, order);
    assert(p2.pages().free_pages() =~= p0.pages().free_pages());
    assert forall|p: int| blk.contains(p) implies !p0.pages().kernel_pages().contains(p)
        && !p0.pages().user_pages().contains(p) by {
        assert(p0.pages().free_pages().contains(p));
    }
    assert(p2.pages().kernel_pages() =~= p0.pages().kernel_pages());
    assert(p2.pages().user_pages() =~= p0.pages().user_pages());
}

/// Allocating a block of `2^order` pages takes that many pages from the
/// free count and adds them to the kernel's count or to userspace's,
/// whichever `usage` is counted in.
pub proof fn lemma_allocate_counts(p0: Pmm, p1: Pmm, ppn: int, order: nat, usage: PageUsage)
    requires
        p0.wf(),
        p1.wf(),
        is_alloc_usage(usage),
        allocation_step(p0, p1, ppn, order, usage),
    ensures
        p1.pages().free_pages().len() + pow2(order) == p0.pages().free_pages().len(),
        is_kernel_usage(usage) ==> p1.pages().kernel_pages().len() == p0.pages().kernel_pages().len() + pow2(order)
            && p1.pages().user_pages().len() == p0.pages().user_pages().len(),
        is_user_usage(usage) ==> p1.pages().user_pages().len() == p0.pages().user_pages().len() + pow2(order)
            && p1.pages().kernel_pages().len() == p0.pages().kernel_pages().len(),
        p1.pages().free_pages().len() * PAGE_SIZE + pow2(order) * PAGE_SIZE == p0.pages().free_pages().len()
            * PAGE_SIZE,
        is_kernel_usage(usage) ==> p1.pages().kernel_pages().len() * PAGE_SIZE == p0.pages().kernel_pages().len()
            * PAGE_SIZE + pow2(order) * PAGE_SIZE,
        is_user_usage(usage) ==> p1.pages().user_pages().len() * PAGE_SIZE == p0.pages().user_pages().len()
            * PAGE_SIZE + pow2(order) * PAGE_SIZE,
{
    let blk = block_pages(ppn, order);
    p0.lemma_sets();
    lemma_block_len(ppn, order);
    assert(blk =~= Set::new(|p: int| in_block(p, ppn, order)));
    let f0 = p0.pages().free_pages();
    vstd::set_lib::lemma_set_difference_len(f0, blk);
    assert(f0.intersect(blk) =~= blk);
    let k0 = p0.pages().kernel_pages();
    let u0 = p0.pages().user_pages();
    assert(k0.disjoint(blk)) by {
        assert forall|p: int| blk.contains(p) implies !k0.contains(p) by {
            assert(f0.contains(p));
        }
    }
    assert(u0.disjoint(blk)) by {
        assert forall|p: int| blk.contains(p) implies !u0.contains(p) by {
            assert(f0.contains(p));
        }
    }
    vstd::set_lib::lemma_set_disjoint_lens(k0, blk);
    vstd::set_lib::lemma_set_disjoint_lens(u0, blk);
}

/// Making the whole pages of `memory` usable, all of them reserved pages
/// of the domain, adds exactly that many pages to the free count.
pub proof fn lemma_mark_usable_counts(p0: Pmm, p1: Pmm, memory: core::ops::Range<usize>)
    requires
        p0.wf(),
        forall|p: int|
            pages_up(memory.start as int) <= p < (memory.end / PAGE_SIZE) as int ==> p0.pages().dom_start() <= p
                < p0.pages().dom_end() && (#[trigger] p0.pages().page(p)).usage == PageUsage::Reserved,
        p1.pages().free_pages() == p0.pages().free_pages().union(
            Set::new(|p: int| pages_up(memory.start as int) <= p < (memory.end / PAGE_SIZE) as int),
        ),
    ensures
        ({
            let lo = pages_up(memory.start as int);
            let hi = (memory.end / PAGE_SIZE) as int;
            &&& p1.pages().free_pages().len() == p0.pages().free_pages().len() + (if hi < lo { 0 } else { hi - lo })
            &&& p1.pages().free_pages().len() * PAGE_SIZE == p0.pages().free_pages().len() * PAGE_SIZE + (if hi < lo {
                0
            } else {
                hi - lo
            }) * PAGE_SIZE
        }),
{
    let lo = pages_up(memory.start as int);
    let hi = (memory.end / PAGE_SIZE) as int;
    let r = Set::new(|p: int| lo <= p < hi);
    p0.lemma_sets();
    let f0 = p0.pages().free_pages();
    if hi < lo {
        assert(r =~= Set::<int>::empty());
        assert(f0.union(r) =~= f0);
    } else {
        vstd::set_lib::lemma_int_range(lo, hi);
        assert(r =~= vstd::set_lib::set_int_range(lo, hi));
        assert(f0.disjoint(r)) by {
            assert forall|p: int| r.contains(p) implies !f0.contains(p) by {
                assert(p0.pages().page(p).usage == PageUsage::Reserved);
            }
        }
        vstd::set_lib::lemma_set_disjoint_lens(f0, r);
    }
}

/// `p1` accounts the same pages of RAM as `p0`.
pub open spec fn domain_kept(p0: Pmm, p1: Pmm) -> bool {
    p1.pages().dom_start() == p0.pages().dom_start() && p1.pages().dom_end() == p0.pages().dom_end()
}

/// Along a run of calls that each keep the domain, as [`allocate`],
/// [`deallocate`] and [`mark_usable`] do, the bytes of RAM that
/// [`total_memory`] reports stay those of the first state.
pub proof fn lemma_total_memory_constant(states: Seq<Pmm>)
    requires
        forall|i: int, j: int|
            0 <= i && j == i + 1 && j < states.len() ==> domain_kept(#[trigger] states[i], #[trigger] states[j]),
    ensures
        forall|i: int|
            0 <= i < states.len() ==> domain_kept(states[0], #[trigger] states[i]) && (states[i].pages().dom_end()
                - states[i].pages().dom_start()) * PAGE_SIZE == (states[0].pages().dom_end()
                - states[0].pages().dom_start()) * PAGE_SIZE,
    decreases states.len(),
{
    if states.len() > 1 {
        let n = states.len() - 1;
        let s2 = states.drop_last();
        assert forall|i: int, j: int|
            0 <= i && j == i + 1 && j < s2.len() implies domain_kept(#[trigger] s2[i], #[trigger] s2[j]) by {
            assert(s2[i] == states[i]);
            assert(s2[j] == states[j]);
            assert(domain_kept(states[i], states[j]));
        }
        lemma_total_memory_constant(s2);
        assert(s2[n - 1] == states[n - 1]);
        assert(domain_kept(states[n - 1], states[n]));
        assert(domain_kept(states[0], s2[n - 1]));
        assert forall|i: int| 0 <= i < states.len() implies domain_kept(states[0], #[trigger] states[i]) by {
            if i < n {
                assert(s2[i] == states[i]);
                assert(domain_kept(s2[0], s2[i]));
            }
        }
    }
}

/// After [`init`] for the RAM `all_ram`, and along any run of calls that
/// keep the domain ([`allocate`], [`deallocate`], [`mark_usable`]), the
/// bytes that [`total_memory`] reports are those of the whole pages of
/// `all_ram`.
pub proof fn lemma_total_memory_from_init(all_ram: core::ops::Range<usize>, states: Seq<Pmm>)
    requires
        states.len() > 0,
        ({
            let first = pages_up(all_ram.start as int);
            let last = (all_ram.end / PAGE_SIZE) as int;
            let n = if last < first { 0 } else { last - first };
            states[0].pages().dom_start() == first && states[0].pages().dom_end() == first + n
        }),
        forall|i: int, j: int|
            0 <= i && j == i + 1 && j < states.len() ==> domain_kept(#[trigger] states[i], #[trigger] states[j]),
    ensures
        forall|i: int|
            0 <= i < states.len() ==> ({
                let first = pages_up(all_ram.start as int);
                let last = (all_ram.end / PAGE_SIZE) as int;
                let n = if last < first { 0 } else { last - first };
                (#[trigger] states[i].pages().dom_end() - states[i].pages().dom_start()) * PAGE_SIZE == n * PAGE_SIZE
            }),
{
    lemma_total_memory_constant(states);
    assert forall|i: int| 0 <= i < states.len() implies #[trigger] domain_kept(states[0], states[i]) by {}
}

/// Allocating a block for `usage` and then freeing it: right after the
/// allocation, the kernel's or userspace's bytes, whichever counts
/// `usage`, are up by the block's `PAGE_SIZE << order` bytes and the free
/// bytes down by as many; once it is freed, the free, kernel and user
/// bytes are those from before.
pub proof fn lemma_allocate_free_bytes(p0: Pmm, p1: Pmm, p2: Pmm, ppn: int, order: nat, usage: PageUsage)
    requires
        p0.wf(),
        p1.wf(),
        p2.wf(),
        is_alloc_usage(usage),
        allocation_step(p0, p1, ppn, order, usage),
        free_step(p1, p2, ppn, order),
    ensures
        p1.pages().free_pages().len() * PAGE_SIZE + pow2(order) * PAGE_SIZE == p0.pages().free_pages().len() * PAGE_SIZE,
        is_kernel_usage(usage) ==> p1.pages().kernel_pages().len() * PAGE_SIZE == p0.pages().kernel_pages().len()
            * PAGE_SIZE + pow2(order) * PAGE_SIZE,
        is_user_usage(usage) ==> p1.pages().user_pages().len() * PAGE_SIZE == p0.pages().user_pages().len()
            * PAGE_SIZE + pow2(order) * PAGE_SIZE,
        p2.pages().free_pages().len() * PAGE_SIZE == p0.pages().free_pages().len() * PAGE_SIZE,
        p2.pages().kernel_pages().len() * PAGE_SIZE == p0.pages().kernel_pages().len() * PAGE_SIZE,
        p2.pages().user_pages().len() * PAGE_SIZE == p0.pages().user_pages().len() * PAGE_SIZE,
{
    lemma_allocate_counts(p0, p1, ppn, order, usage);
    lemma_free_undoes_allocate(p0, p1, p2, ppn, order, usage);
}

/// Allocate a block of `2^order` pages for `usage`, and count them as in
/// use by the kernel or by userspace.
pub fn allocate(pmm: &mut Pmm, order: u8, usage: PageUsage) -> (r: Result<PPN, AllocError>)
    requires
        old(pmm).wf(),
        is_alloc_usage(usage),
    ensures
        final(pmm).wf(),
        final(pmm).pages().dom_start() == old(pmm).pages().dom_start(),
        final(pmm).pages().dom_end() == old(pmm).pages().dom_end(),
        r is Err <==> order >= MAX_ORDER || !old(pmm).pages().has_free_block(order as int),
        r is Err ==> *final(pmm) == *old(pmm),
        r is Ok ==> ({
            let ppn = r->Ok_0 as int;
            &&& allocation_step(*old(pmm), *final(pmm), ppn, order as nat, usage)
            &&& forall|p: int|
                #![trigger final(pmm).pages().page(p)]
                in_block(p, ppn, order as nat) ==> final(pmm).pages().page(p) == (PageMeta {
                    usage: usage,
                    buddy_order: order,
                    refcount: 0,
                })
        }),
        forall|p: int|
            #![trigger final(pmm).pages().page(p)]
            old(pmm).pages().dom_start() <= p < old(pmm).pages().dom_end() && !old(pmm).pages().free_pages().contains(p)
                ==> final(pmm).pages().page(p) == old(pmm).pages().page(p),
        r is Ok ==> old(pmm).pages().first_free_order(order as int) < MAX_ORDER && old(pmm).pages().free_block_at(
            r->Ok_0 as int,
            old(pmm).pages().first_free_order(order as int) as nat,
        ),
        r is Ok ==> forall|k: nat|
            order <= k < old(pmm).pages().first_free_order(order as int) ==> #[trigger] final(pmm).pages().split_leftover_free(r->Ok_0 as int, k),
        r is Ok ==> forall|p: int|
            #![trigger final(pmm).pages().page(p)]
            old(pmm).pages().dom_start() <= p < old(pmm).pages().dom_end() && !in_block(
                p,
                r->Ok_0 as int,
                old(pmm).pages().first_free_order(order as int) as nat,
            ) ==> final(pmm).pages().page(p) == old(pmm).pages().page(p),
{
    let ghost b0 = pmm.buddy;
    proof {
        pmm.lemma_sets();
    }
    let res = pmm.buddy.allocate(order, usage);
    match res {
        None => Err(AllocError),
        Some(ppn) => {
            let ghost b1 = pmm.buddy;
            let ghost blk = Set::new(|p: int| in_block(p, ppn as int, order as nat));
            proof {
                lemma_block_len(ppn as int, order as nat);
                lemma_pow2_facts(order as nat);
                lemma_xor_is_buddy(0, order as usize);
                assert(blk.subset_of(b0.free_pages()));
                assert forall|p: int| #![trigger b1.page(p)] in_block(p, ppn as int, order as nat) implies b1.page(p).usage
                    == b1.page(ppn as int).usage && b1.page(p).buddy_order == order by {
                    lemma_pow2_facts(order as nat);
                    assert(in_block(ppn as int, ppn as int, order as nat));
                }
                lemma_pow2_facts(order as nat);
                assert(in_block(ppn as int, ppn as int, order as nat));
                assert(b1.allocated_block(ppn as int, order as nat));
                assert forall|p: int| b0.dom_start() <= p < b0.dom_end() implies
                    (b1.page(p).usage == PageUsage::Free <==> b0.free_pages().contains(p) && !blk.contains(p)) &&
                    (!blk.contains(p) ==> (is_kernel_usage(b1.page(p).usage) <==> is_kernel_usage(b0.page(p).usage))) &&
                    (!blk.contains(p) ==> (is_user_usage(b1.page(p).usage) <==> is_user_usage(b0.page(p).usage))) &&
                    (blk.contains(p) ==> b1.page(p).usage == usage && b0.page(p).usage == PageUsage::Free) by {
                    if blk.contains(p) {
                        assert(b0.free_pages().contains(p));
                    } else if b0.free_pages().contains(p) {
                        assert(b1.free_pages().contains(p));
                    } else {
                        assert(b1.page(p) == b0.page(p));
                    }
                }
                let k0 = b0.kernel_pages();
                let u0 = b0.user_pages();
                let f0 = b0.free_pages();
                pmm.lemma_sets();
                assert(k0.disjoint(blk));
                assert(u0.disjoint(blk));
                vstd::set_lib::lemma_set_disjoint_lens(k0, blk);
                vstd::set_lib::lemma_set_disjoint_lens(u0, blk);
                vstd::set_lib::lemma_set_difference_len(f0, blk);
                assert(f0.intersect(blk) =~= blk);
                assert forall|p: int| blk.contains(p) implies #[trigger] b1.page(p).usage == usage && b0.page(p).usage
                    == PageUsage::Free by {
                    assert(b0.free_pages().contains(p));
                }
                if is_kernel_usage(usage) {
                    assert(b1.kernel_pages() =~= k0.union(blk));
                    assert forall|p: int| #[trigger] b1.user_pages().contains(p) == u0.contains(p) by {
                        if blk.contains(p) {
                            assert(b1.page(p).usage == usage);
                        }
                    }
                    assert(b1.user_pages() =~= u0);
                } else {
                    assert forall|p: int| #[trigger] b1.kernel_pages().contains(p) == k0.contains(p) by {
                        if blk.contains(p) {
                            assert(b1.page(p).usage == usage);
                        }
                    }
                    assert(b1.kernel_pages() =~= k0);
                    assert(b1.user_pages() =~= u0.union(blk));
                }
                lemma_domain_subset(b1, b1.kernel_pages());
                lemma_domain_subset(b1, b1.user_pages());
            }
            let count: usize = 1usize << order;
            pmm.free_pages = pmm.free_pages - count;
            if usage == PageUsage::KernelAnon || usage == PageUsage::KernelSlabs || usage == PageUsage::KernelHeap {
                pmm.kernel_pages = pmm.kernel_pages + count;
            } else {
                pmm.user_pages = pmm.user_pages + count;
            }
            Ok(ppn)
        },
    }
}

/// Free a block that was allocated as one, and take its pages off the
/// count of kernel or user memory.
pub fn deallocate(pmm: &mut Pmm, ppn: PPN, order: u8)
    requires
        old(pmm).wf(),
        old(pmm).pages().allocated_block(ppn as int, order as nat),
    ensures
        final(pmm).wf(),
        final(pmm).pages().dom_start() == old(pmm).pages().dom_start(),
        final(pmm).pages().dom_end() == old(pmm).pages().dom_end(),
        free_step(*old(pmm), *final(pmm), ppn as int, order as nat),
        forall|p: int|
            #![trigger final(pmm).pages().page(p)]
            old(pmm).pages().dom_start() <= p < old(pmm).pages().dom_end() && !old(pmm).pages().free_pages().contains(p)
                && !in_block(p, ppn as int, order as nat) ==> final(pmm).pages().page(p) == old(pmm).pages().page(p),
        exists|h: int, o: nat|
            #![trigger final(pmm).pages().merge_stops(h, o)]
            order <= o < MAX_ORDER && aligned(h, o) && in_block(ppn as int, h, o) && final(pmm).pages().free_block_at(h, o)
                && final(pmm).pages().merge_stops(h, o) && forall|p: int|
                #![trigger final(pmm).pages().page(p)]
                old(pmm).pages().dom_start() <= p < old(pmm).pages().dom_end() && !in_block(p, h, o)
                    ==> final(pmm).pages().page(p) == old(pmm).pages().page(p),
{
    let ghost b0 = pmm.buddy;
    let ghost blk = Set::new(|p: int| in_block(p, ppn as int, order as nat));
    proof {
        lemma_pow2_facts(order as nat);
    }
    let usage = pmm.buddy.page_meta(ppn).usage;
    proof {
        pmm.lemma_sets();
        assert forall|p: int| in_block(p, ppn as int, order as nat) implies !(#[trigger] b0.free_pages().contains(p)) by {
            assert(b0.page(p).usage == b0.page(ppn as int).usage);
        }
    }
    pmm.buddy.free_block(ppn, order);
    let ghost b1 = pmm.buddy;
    proof {
        lemma_block_len(ppn as int, order as nat);
        lemma_xor_is_buddy(0, order as usize);
        lemma_pow2_facts(order as nat);
        assert forall|p: int| b0.dom_start() <= p < b0.dom_end() implies
            (!blk.contains(p) ==> (is_kernel_usage(b1.page(p).usage) <==> is_kernel_usage(b0.page(p).usage))) &&
            (!blk.contains(p) ==> (is_user_usage(b1.page(p).usage) <==> is_user_usage(b0.page(p).usage))) &&
            (blk.contains(p) ==> b1.page(p).usage == PageUsage::Free && b0.page(p).usage == usage) by {
            if blk.contains(p) {
                assert(b1.free_pages().contains(p));
                assert(b0.page(p).usage == b0.page(ppn as int).usage);
            } else if b0.free_pages().contains(p) {
                assert(b1.free_pages().contains(p));
            } else {
                assert(b1.page(p) == b0.page(p));
            }
        }
        let k0 = b0.kernel_pages();
        let u0 = b0.user_pages();
        let f0 = b0.free_pages();
        assert(f0.disjoint(blk));
        vstd::set_lib::lemma_set_disjoint_lens(f0, blk);
        assert(b1.free_pages() =~= f0.union(blk));
        assert forall|p: int| #[trigger] b1.kernel_pages().contains(p) == k0.difference(blk).contains(p) by {
            if b0.dom_start() <= p < b0.dom_end() {
            }
        }
        assert forall|p: int| #[trigger] b1.user_pages().contains(p) == u0.difference(blk).contains(p) by {
            if b0.dom_start() <= p < b0.dom_end() {
                if blk.contains(p) {
                    assert(b1.free_pages().contains(p));
                    assert(b0.page(p).usage == b0.page(ppn as int).usage);
                } else if b0.free_pages().contains(p) {
                    assert(b1.free_pages().contains(p));
                } else {
                    assert(b1.page(p) == b0.page(p));
                }
            }
        }
        assert(b1.kernel_pages() =~= k0.difference(blk));
        assert(b1.user_pages() =~= u0.difference(blk));
        vstd::set_lib::lemma_set_difference_len(k0, blk);
        vstd::set_lib::lemma_set_difference_len(u0, blk);
        assert(in_block(ppn as int, ppn as int, order as nat));
        if is_kernel_usage(usage) {
            assert(k0.intersect(blk) =~= blk);
            assert(u0.intersect(blk) =~= Set::empty());
        } else {
            assert(u0.intersect(blk) =~= blk);
            assert(k0.intersect(blk) =~= Set::empty());
        }
        lemma_domain_subset(b1, b1.free_pages());
    }
    let count: usize = 1usize << order;
    if usage == PageUsage::KernelAnon || usage == PageUsage::KernelSlabs || usage == PageUsage::KernelHeap {
        pmm.kernel_pages = pmm.kernel_pages - count;
    } else {
        pmm.user_pages = pmm.user_pages - count;
    }
    pmm.free_pages = pmm.free_pages + count;
}

/// First page that lies wholly at or above address `x`.
fn page_ceil(x: usize) -> (r: usize)
    ensures
        r == pages_up(x as int),
{
    let q = x / PAGE_SIZE;
    if x % PAGE_SIZE != 0 {
        q + 1
    } else {
        q
    }
}

/// Mark the whole pages of the address range `memory`, all of them
/// reserved pages of the domain, as free.
pub fn mark_usable(pmm: &mut Pmm, memory: core::ops::Range<usize>)
    requires
        old(pmm).wf(),
        forall|p: int|
            pages_up(memory.start as int) <= p < (memory.end / PAGE_SIZE) as int ==> old(pmm).pages().dom_start() <= p
                < old(pmm).pages().dom_end() && (#[trigger] old(pmm).pages().page(p)).usage == PageUsage::Reserved,
    ensures
        final(pmm).wf(),
        final(pmm).pages().dom_start() == old(pmm).pages().dom_start(),
        final(pmm).pages().dom_end() == old(pmm).pages().dom_end(),
        final(pmm).pages().free_pages() == old(pmm).pages().free_pages().union(
            Set::new(|p: int| pages_up(memory.start as int) <= p < (memory.end / PAGE_SIZE) as int),
        ),
        final(pmm).pages().kernel_pages() == old(pmm).pages().kernel_pages(),
        final(pmm).pages().user_pages() == old(pmm).pages().user_pages(),
{
    let ghost b0 = pmm.buddy;
    let first = page_ceil(memory.start);
    let last = memory.end / PAGE_SIZE;
    let mut page = first;
    proof {
        assert forall|q: int| page <= q < last implies b0.dom_start() <= q < b0.dom_end() && (#[trigger] pmm.buddy.page(q)).usage
            == PageUsage::Reserved by {
            assert(pmm.pages().page(q).usage == PageUsage::Reserved);
        }
    }
    while page < last
        invariant
            first == pages_up(memory.start as int),
            last == (memory.end / PAGE_SIZE) as int,
            first <= page,
            page <= last || page == first,
            pmm.wf(),
            pmm.buddy.dom_start() == b0.dom_start(),
            pmm.buddy.dom_end() == b0.dom_end(),
            forall|q: int| page <= q < last ==> b0.dom_start() <= q < b0.dom_end() && (#[trigger] pmm.buddy.page(q)).usage
                == PageUsage::Reserved,
            pmm.buddy.free_pages() == b0.free_pages().union(Set::new(|q: int| first <= q < page)),
            pmm.buddy.kernel_pages() == b0.kernel_pages(),
            pmm.buddy.user_pages() == b0.user_pages(),
        decreases last - page,
    {
        let ghost b1 = pmm.buddy;
        let ghost blk = Set::new(|q: int| in_block(q, page as int, 0));
        proof {
            vstd::arithmetic::power2::lemma2_to64();
            assert(pow2(0) == 1);
            assert(aligned(page as int, 0));
            assert(b1.page(page as int).usage == PageUsage::Reserved);
            assert forall|q: int| in_block(q, page as int, 0) implies !(#[trigger] b1.free_pages().contains(q)) by {
                assert(q == page);
            }
            pmm.lemma_sets();
        }
        pmm.buddy.free_block(page, 0);
        let ghost b2 = pmm.buddy;
        proof {
            assert(blk =~= set![page as int]);
            assert(!b1.free_pages().contains(page as int));
            assert forall|q: int| b0.dom_start() <= q < b0.dom_end() && q != page implies (b2.page(q).usage == PageUsage::Free
                <==> b1.page(q).usage == PageUsage::Free) && (is_kernel_usage(b2.page(q).usage) <==> is_kernel_usage(
                b1.page(q).usage)) && (is_user_usage(b2.page(q).usage) <==> is_user_usage(b1.page(q).usage)) by {
                if b1.free_pages().contains(q) {
                    assert(b2.free_pages().contains(q));
                } else {
                    assert(!in_block(q, page as int, 0));
                    assert(b2.page(q) == b1.page(q));
                }
            }
            assert(b2.free_pages().contains(page as int));
            assert forall|q: int| #[trigger] b2.kernel_pages().contains(q) == b1.kernel_pages().contains(q) by {
                if q == page {
                    assert(b2.free_pages().contains(q));
                }
            }
            assert forall|q: int| #[trigger] b2.user_pages().contains(q) == b1.user_pages().contains(q) by {
                if q == page {
                    assert(b2.free_pages().contains(q));
                }
            }
            assert(b2.kernel_pages() =~= b1.kernel_pages());
            assert(b2.user_pages() =~= b1.user_pages());
            assert(b2.free_pages() =~= b1.free_pages().insert(page as int));
            assert(b2.free_pages() =~= b0.free_pages().union(Set::new(|q: int| first <= q < page + 1)));
            assert forall|q: int| page + 1 <= q < last implies b0.dom_start() <= q < b0.dom_end() && (#[trigger] b2.page(
                q)).usage == PageUsage::Reserved by {
                assert(b1.page(q).usage == PageUsage::Reserved);
                assert(!in_block(q, page as int, 0));
            }
            lemma_domain_subset(b1, b1.free_pages());
        }
        pmm.free_pages = pmm.free_pages + 1;
        page = page + 1;
    }
    proof {
        if first >= last {
            assert(Set::new(|q: int| first <= q < page) =~= Set::new(
                |p: int| pages_up(memory.start as int) <= p < (memory.end / PAGE_SIZE) as int,
            ));
        } else {
            assert(Set::new(|q: int| first <= q < page) =~= Set::new(
                |p: int| pages_up(memory.start as int) <= p < (memory.end / PAGE_SIZE) as int,
            ));
        }
    }
}

/// Set up physical memory management for the RAM `all_ram`, taking the
/// page metadata's space from the start of `early_paddr` and marking the
/// rest of `early_paddr` as usable.
pub fn init(early_paddr: core::ops::Range<usize>, all_ram: core::ops::Range<usize>) -> (r: Pmm)
    requires
        ({
            let first = pages_up(all_ram.start as int);
            let last = (all_ram.end / PAGE_SIZE) as int;
            let n = if last < first { 0 } else { last - first };
            let usable = early_paddr.start + PAGE_META_SIZE * n;
            &&& n < 0x1_0000_0000
    &&& n + 2 <= usize::MAX
            &&& n + 2 <= usize::MAX
            &&& usable <= usize::MAX
            &&& (pages_up(usable) >= (early_paddr.end / PAGE_SIZE) as int || first <= pages_up(usable) && (early_paddr.end / PAGE_SIZE) as int <= last)
        }),
    ensures
        r.wf(),
        ({
            let first = pages_up(all_ram.start as int);
            let last = (all_ram.end / PAGE_SIZE) as int;
            let n = if last < first { 0 } else { last - first };
            let usable = early_paddr.start + PAGE_META_SIZE * n;
            &&& r.pages().dom_start() == first
            &&& r.pages().dom_end() == first + n
            &&& r.pages().free_pages() == Set::new(|p: int| pages_up(usable) <= p < (early_paddr.end / PAGE_SIZE) as int)
            &&& r.pages().kernel_pages() == Set::<int>::empty()
            &&& r.pages().user_pages() == Set::<int>::empty()
        }),
{
    let first = page_ceil(all_ram.start);
    let last0 = all_ram.end / PAGE_SIZE;
    let mut last = last0;
    if last < first {
        last = first;
    }
    let n = last - first;
    let buddy = BuddyAlloc::new(first..last);
    let mut pmm = Pmm { buddy, total_pages: n, free_pages: 0, kernel_pages: 0, user_pages: 0 };
    proof {
        assert(pmm.buddy.free_pages() =~= Set::<int>::empty());
        assert(pmm.buddy.kernel_pages() =~= Set::<int>::empty());
        assert(pmm.buddy.user_pages() =~= Set::<int>::empty());
        assert(n * PAGE_SIZE <= usize::MAX) by (nonlinear_arith)
            requires
                n <= last0,
                last0 == all_ram.end / 4096,
                PAGE_SIZE == 4096,
        ;
    }
    let usable = early_paddr.start + PAGE_META_SIZE * n;
    mark_usable(&mut pmm, usable..early_paddr.end);
    proof {
        assert(Set::<int>::empty().union(Set::new(|p: int| pages_up(usable as int) <= p < (early_paddr.end / PAGE_SIZE) as int))
            =~= Set::new(|p: int| pages_up(usable as int) <= p < (early_paddr.end / PAGE_SIZE) as int));
    }
    pmm
}

/// The pages of RAM that the manager accounts.
pub fn domain(pmm: &Pmm) -> (r: core::ops::Range<PPN>)
    ensures
        r.start == pmm.pages().dom_start(),
        r.end == pmm.pages().dom_end(),
{
    pmm.buddy.start..pmm.buddy.end
}

/// Bytes of RAM accounted by the manager.
pub fn total_memory(pmm: &Pmm) -> (r: usize)
    requires
        pmm.wf(),
    ensures
        r == (pmm.pages().dom_end() - pmm.pages().dom_start()) * PAGE_SIZE,
{
    pmm.total_pages * PAGE_SIZE
}

/// Bytes of free memory.
pub fn free_memory(pmm: &Pmm) -> (r: usize)
    requires
        pmm.wf(),
    ensures
        r == pmm.pages().free_pages().len() * PAGE_SIZE,
{
    proof {
        pmm.lemma_sets();
    }
    pmm.free_pages * PAGE_SIZE
}

/// Bytes of memory in use by the kernel.
pub fn kernel_memory(pmm: &Pmm) -> (r: usize)
    requires
        pmm.wf(),
    ensures
        r == pmm.pages().kernel_pages().len() * PAGE_SIZE,
{
    proof {
        pmm.lemma_sets();
    }
    pmm.kernel_pages * PAGE_SIZE
}

/// Bytes of memory in use by userspace.
pub fn user_memory(pmm: &Pmm) -> (r: usize)
    requires
        pmm.wf(),
    ensures
        r == pmm.pages().user_pages().len() * PAGE_SIZE,
{
    proof {
        pmm.lemma_sets();
    }
    pmm.user_pages * PAGE_SIZE
}

/// The metadata of a page of RAM.
pub fn page_meta(pmm: &Pmm, ppn: PPN) -> (r: PageMeta)
    requires
        pmm.wf(),
        pmm.pages().dom_start() <= ppn < pmm.pages().dom_end(),
    ensures
        r == pmm.pages().page(ppn as int),
{
    pmm.buddy.page_meta(ppn)
}

/// The free, kernel and user pages never overlap, and together they are no
/// more pages than there are.
pub proof fn lemma_counts_bounded(pmm: &Pmm)
    requires
        pmm.wf(),
    ensures
        pmm.pages().free_pages().disjoint(pmm.pages().kernel_pages()),
        pmm.pages().free_pages().disjoint(pmm.pages().user_pages()),
        pmm.pages().kernel_pages().disjoint(pmm.pages().user_pages()),
        pmm.pages().free_pages().len() + pmm.pages().kernel_pages().len() + pmm.pages().user_pages().len()
            <= pmm.pages().dom_end() - pmm.pages().dom_start(),
{
    let b = pmm.buddy;
    pmm.lemma_sets();
    let f = b.free_pages();
    let k = b.kernel_pages();
    let u = b.user_pages();
    vstd::set_lib::lemma_set_disjoint_lens(f, k);
    lemma_domain_subset(b, f.union(k));
    vstd::set_lib::lemma_set_disjoint_lens(f.union(k), u);
    lemma_domain_subset(b, f.union(k).union(u));
}

impl Pmm {
    /// Set the reference count of a page of the domain.
    fn set_refcount(&mut self, ppn: PPN, refcount: u32)
        requires
            old(self).wf(),
            old(self).pages().dom_start() <= ppn < old(self).pages().dom_end(),
        ensures
            final(self).wf(),
            final(self).pages().dom_start() == old(self).pages().dom_start(),
            final(self).pages().dom_end() == old(self).pages().dom_end(),
            final(self).pages().free_pages() == old(self).pages().free_pages(),
            final(self).pages().kernel_pages() == old(self).pages().kernel_pages(),
            final(self).pages().user_pages() == old(self).pages().user_pages(),
            forall|p: int|
                #![trigger final(self).pages().page(p)]
                old(self).pages().dom_start() <= p < old(self).pages().dom_end() ==> final(self).pages().page(p) == (if p
                    == ppn {
                    PageMeta { refcount: refcount, ..old(self).pages().page(p) }
                } else {
                    old(self).pages().page(p)
                }),
    {
        let ghost b0 = self.buddy;
        self.buddy.set_refcount(ppn, refcount);
        proof {
            let b1 = self.buddy;
            assert forall|p: int| #[trigger] b1.kernel_pages().contains(p) == b0.kernel_pages().contains(p) by {
                if b0.dom_start() <= p < b0.dom_end() {
                    assert(b1.page(p).usage == b0.page(p).usage);
                }
            }
            assert forall|p: int| #[trigger] b1.user_pages().contains(p) == b0.user_pages().contains(p) by {
                if b0.dom_start() <= p < b0.dom_end() {
                    assert(b1.page(p).usage == b0.page(p).usage);
                }
            }
            assert(b1.kernel_pages() =~= b0.kernel_pages());
            assert(b1.user_pages() =~= b0.user_pages());
        }
    }
}

/// A shared ownership of a naturally aligned block of physical memory. The
/// reference count of the block's first page counts its owners.
pub struct RawMemory {
    ppn: PPN,
}

impl View for RawMemory {
    type V = PPN;

    /// The first page of the block.
    closed spec fn view(&self) -> PPN {
        self.ppn
    }
}

impl RawMemory {
    /// Try to allocate a block of `2^order` pages for `usage`, owned once.
    pub fn new(pmm: &mut Pmm, order: u8, usage: PageUsage) -> (r: Result<Self, AllocError>)
        requires
            old(pmm).wf(),
            is_alloc_usage(usage),
        ensures
            final(pmm).wf(),
            final(pmm).pages().dom_start() == old(pmm).pages().dom_start(),
            final(pmm).pages().dom_end() == old(pmm).pages().dom_end(),
            r is Err <==> order >= MAX_ORDER || !old(pmm).pages().has_free_block(order as int),
            r is Err ==> *final(pmm) == *old(pmm),
            r is Ok ==> ({
                let ppn = r->Ok_0@ as int;
                &&& allocation_step(*old(pmm), *final(pmm), ppn, order as nat, usage)
                &&& forall|p: int|
                    #![trigger final(pmm).pages().page(p)]
                    in_block(p, ppn, order as nat) ==> final(pmm).pages().page(p) == (PageMeta {
                        usage: usage,
                        buddy_order: order,
                        refcount: if p == ppn { 1 } else { 0 },
                    })
            }),
            forall|p: int|
                #![trigger final(pmm).pages().page(p)]
                old(pmm).pages().dom_start() <= p < old(pmm).pages().dom_end() && !old(pmm).pages().free_pages().contains(p)
                    ==> final(pmm).pages().page(p) == old(pmm).pages().page(p),
    {
        let ppn = allocate(pmm, order, usage)?;
        let ghost p1 = *pmm;
        proof {
            lemma_pow2_facts(order as nat);
            assert(in_block(ppn as int, ppn as int, order as nat));
        }
        pmm.set_refcount(ppn, 1);
        proof {
            assert forall|p: int| #![trigger pmm.pages().page(p)] in_block(p, ppn as int, order as nat) implies pmm.pages().page(p).usage
                == pmm.pages().page(ppn as int).usage && pmm.pages().page(p).buddy_order == order by {
                assert(p1.pages().page(p).usage == usage);
            }
        }
        Ok(RawMemory { ppn })
    }

    /// Take ownership of block `ppn` without counting a new owner.
    pub fn from_raw(ppn: PPN) -> (r: Self)
        ensures
            r@ == ppn,
    {
        RawMemory { ppn }
    }

    /// Take ownership of block `ppn` as one more owner.
    pub fn from_raw_ref(pmm: &mut Pmm, ppn: PPN) -> (r: Self)
        requires
            old(pmm).wf(),
            old(pmm).pages().dom_start() <= ppn < old(pmm).pages().dom_end(),
            old(pmm).pages().page(ppn as int).refcount < u32::MAX,
        ensures
            r@ == ppn,
            final(pmm).wf(),
            final(pmm).pages().dom_start() == old(pmm).pages().dom_start(),
            final(pmm).pages().dom_end() == old(pmm).pages().dom_end(),
            final(pmm).pages().free_pages() == old(pmm).pages().free_pages(),
            final(pmm).pages().kernel_pages() == old(pmm).pages().kernel_pages(),
            final(pmm).pages().user_pages() == old(pmm).pages().user_pages(),
            forall|p: int|
                #![trigger final(pmm).pages().page(p)]
                old(pmm).pages().dom_start() <= p < old(pmm).pages().dom_end() ==> final(pmm).pages().page(p) == (if p
                    == ppn {
                    PageMeta { refcount: (old(pmm).pages().page(p).refcount + 1) as u32, ..old(pmm).pages().page(p) }
                } else {
                    old(pmm).pages().page(p)
                }),
    {
        let meta = page_meta(pmm, ppn);
        pmm.set_refcount(ppn, meta.refcount + 1);
        RawMemory { ppn }
    }

    /// The first page of the block.
    pub fn ppn(&self) -> (r: PPN)
        ensures
            r == self@,
    {
        self.ppn
    }

    /// The address of this memory in the higher-half direct map that
    /// starts at `hhdm_offset`.
    pub fn hhdm_ptr(&self, hhdm_offset: usize) -> (r: usize)
        requires
            self@ * PAGE_SIZE + hhdm_offset <= usize::MAX,
        ensures
            r == self@ * PAGE_SIZE + hhdm_offset,
    {
        self.ppn * PAGE_SIZE + hhdm_offset
    }

    /// Another owner of the same block.
    pub fn clone_ref(&self, pmm: &mut Pmm) -> (r: Self)
        requires
            old(pmm).wf(),
            old(pmm).pages().dom_start() <= self@ < old(pmm).pages().dom_end(),
            old(pmm).pages().page(self@ as int).refcount < u32::MAX,
        ensures
            r@ == self@,
            final(pmm).wf(),
            final(pmm).pages().dom_start() == old(pmm).pages().dom_start(),
            final(pmm).pages().dom_end() == old(pmm).pages().dom_end(),
            final(pmm).pages().free_pages() == old(pmm).pages().free_pages(),
            final(pmm).pages().kernel_pages() == old(pmm).pages().kernel_pages(),
            final(pmm).pages().user_pages() == old(pmm).pages().user_pages(),
            forall|p: int|
                #![trigger final(pmm).pages().page(p)]
                old(pmm).pages().dom_start() <= p < old(pmm).pages().dom_end() ==> final(pmm).pages().page(p) == (if p
                    == self@ {
                    PageMeta { refcount: (old(pmm).pages().page(p).refcount + 1) as u32, ..old(pmm).pages().page(p) }
                } else {
                    old(pmm).pages().page(p)
                }),
    {
        RawMemory::from_raw_ref(pmm, self.ppn)
    }

    /// Give up this ownership; the last owner frees the block.
    pub fn release(self, pmm: &mut Pmm)
        requires
            old(pmm).wf(),
            old(pmm).pages().dom_start() <= self@ < old(pmm).pages().dom_end(),
            old(pmm).pages().page(self@ as int).refcount >= 1,
            old(pmm).pages().page(self@ as int).refcount == 1 ==> old(pmm).pages().allocated_block(
                self@ as int,
                old(pmm).pages().page(self@ as int).buddy_order as nat,
            ),
        ensures
            final(pmm).wf(),
            final(pmm).pages().dom_start() == old(pmm).pages().dom_start(),
            final(pmm).pages().dom_end() == old(pmm).pages().dom_end(),
            old(pmm).pages().page(self@ as int).refcount == 1 ==> ({
                let blk = Set::new(
                    |p: int| in_block(p, self@ as int, old(pmm).pages().page(self@ as int).buddy_order as nat),
                );
                &&& free_step(*old(pmm), *final(pmm), self@ as int, old(pmm).pages().page(self@ as int).buddy_order as nat)
                &&& forall|p: int|
                    #![trigger final(pmm).pages().page(p)]
                    old(pmm).pages().dom_start() <= p < old(pmm).pages().dom_end() && !old(pmm).pages().free_pages().contains(p)
                        && !blk.contains(p) ==> final(pmm).pages().page(p) == old(pmm).pages().page(p)
            }),
            old(pmm).pages().page(self@ as int).refcount > 1 ==> {
                &&& final(pmm).pages().free_pages() == old(pmm).pages().free_pages()
                &&& final(pmm).pages().kernel_pages() == old(pmm).pages().kernel_pages()
                &&& final(pmm).pages().user_pages() == old(pmm).pages().user_pages()
                &&& forall|p: int|
                    #![trigger final(pmm).pages().page(p)]
                    old(pmm).pages().dom_start() <= p < old(pmm).pages().dom_end() ==> final(pmm).pages().page(p) == (if p
                        == self@ {
                        PageMeta { refcount: (old(pmm).pages().page(p).refcount - 1) as u32, ..old(pmm).pages().page(p) }
                    } else {
                        old(pmm).pages().page(p)
                    })
            },
    {
        let meta = page_meta(pmm, self.ppn);
        if meta.refcount == 1 {
            deallocate(pmm, self.ppn, meta.buddy_order);
        } else {
            pmm.set_refcount(self.ppn, meta.refcount - 1);
        }
    }
}

/// The conditions under which [`init`] sets up memory management: fewer
/// than 2^32 pages of RAM, since two free blocks of the largest order would
/// otherwise merge into an order past the last free list, a page count
/// that leaves room in a `usize` for the two list heads, and page metadata
/// that fits the address space.
pub open spec fn init_ok(early_paddr: core::ops::Range<usize>, all_ram: core::ops::Range<usize>) -> bool {
    let first = pages_up(all_ram.start as int);
    let last = (all_ram.end / PAGE_SIZE) as int;
    let n = if last < first { 0 } else { last - first };
    let usable = early_paddr.start + PAGE_META_SIZE * n;
    &&& n < 0x1_0000_0000
    &&& n + 2 <= usize::MAX
    &&& usable <= usize::MAX
    &&& (pages_up(usable) >= (early_paddr.end / PAGE_SIZE) as int || first <= pages_up(usable) && (early_paddr.end
        / PAGE_SIZE) as int <= last)
}

/// [`init`], on the inputs that it takes; `None` on others.
pub fn init_checked(early_paddr: core::ops::Range<usize>, all_ram: core::ops::Range<usize>) -> (r: Option<Pmm>)
    ensures
        r is Some <==> init_ok(early_paddr, all_ram),
        r matches Some(p) ==> p.wf() && ({
            let first = pages_up(all_ram.start as int);
            let last = (all_ram.end / PAGE_SIZE) as int;
            let n = if last < first { 0 } else { last - first };
            let usable = early_paddr.start + PAGE_META_SIZE * n;
            &&& p.pages().dom_start() == first
            &&& p.pages().dom_end() == first + n
            &&& p.pages().free_pages() == Set::new(|q: int| pages_up(usable) <= q < (early_paddr.end / PAGE_SIZE) as int)
            &&& p.pages().kernel_pages() == Set::<int>::empty()
            &&& p.pages().user_pages() == Set::<int>::empty()
        }),
{
    let first = page_ceil(all_ram.start);
    let last0 = all_ram.end / PAGE_SIZE;
    let n = if last0 < first { 0 } else { last0 - first };
    if n as u64 >= 0x1_0000_0000u64 || n > usize::MAX - 2 {
        return None;
    }
    if early_paddr.start > usize::MAX - PAGE_META_SIZE * n {
        return None;
    }
    let usable = early_paddr.start + PAGE_META_SIZE * n;
    let ufirst = page_ceil(usable);
    let ulast = early_paddr.end / PAGE_SIZE;
    let last = if last0 < first { first } else { last0 };
    if !(ufirst >= ulast || (first <= ufirst && ulast <= last)) {
        return None;
    }
    Some(init(early_paddr, all_ram))
}

/// [`mark_usable`], when every whole page of `memory` is a reserved page of
/// the domain; otherwise nothing changes and the answer is `false`.
pub fn mark_usable_checked(pmm: &mut Pmm, memory: core::ops::Range<usize>) -> (r: bool)
    requires
        old(pmm).wf(),
    ensures
        final(pmm).wf(),
        r == forall|p: int|
            pages_up(memory.start as int) <= p < (memory.end / PAGE_SIZE) as int ==> old(pmm).pages().dom_start() <= p
                < old(pmm).pages().dom_end() && (#[trigger] old(pmm).pages().page(p)).usage == PageUsage::Reserved,
        !r ==> *final(pmm) == *old(pmm),
        r ==> {
            &&& final(pmm).pages().dom_start() == old(pmm).pages().dom_start()
            &&& final(pmm).pages().dom_end() == old(pmm).pages().dom_end()
            &&& final(pmm).pages().free_pages() == old(pmm).pages().free_pages().union(
                Set::new(|p: int| pages_up(memory.start as int) <= p < (memory.end / PAGE_SIZE) as int),
            )
            &&& final(pmm).pages().kernel_pages() == old(pmm).pages().kernel_pages()
            &&& final(pmm).pages().user_pages() == old(pmm).pages().user_pages()
        },
{
    let first = page_ceil(memory.start);
    let last = memory.end / PAGE_SIZE;
    let ds = pmm.buddy.start;
    let de = pmm.buddy.end;
    let mut p = first;
    while p < last
        invariant
            pmm.wf(),
            first == pages_up(memory.start as int),
            last == (memory.end / PAGE_SIZE) as int,
            ds == pmm.pages().dom_start(),
            de == pmm.pages().dom_end(),
            first <= p,
            forall|q: int| first <= q < p ==> ds <= q < de && (#[trigger] pmm.pages().page(q)).usage == PageUsage::Reserved,
        decreases last - p,
    {
        if p < ds || p >= de {
            return false;
        }
        let m = page_meta(pmm, p);
        if m.usage != PageUsage::Reserved {
            return false;
        }
        p = p + 1;
    }
    mark_usable(pmm, memory);
    true
}

} // verus!
