//! Page tables: entries and their packed form, and the tree of tables in
//! the memory that holds them.
//!
//! A packed entry has the RISC-V layout: bit 0 valid, bits 1 to 7 the
//! flags of [`crate::prot`], bits 10 to 53 the physical page number, bits
//! 61 and 62 the Svpbmt memory kind.

use vstd::prelude::*;

use crate::errno::{EResult, Errno};
use crate::pmm::{self, PageUsage, Pmm};
use crate::prot;

verus! {

/// Physical page number.
pub type PPN = usize;
/// Virtual page number.
pub type VPN = usize;

/// Bits of virtual page number decoded per page-table level.
pub const BITS_PER_LEVEL: u32 = 9;
/// Number of entries per page-table page.
pub const PTE_PER_PAGE: usize = 512;
/// The packed entry of unmapped memory.
pub const INVALID_PTE: u64 = 0;
/// The physical page numbers that a packed entry can hold.
pub const PPN_MASK: u64 = 0xfff_ffff_ffff;
/// The flags that a packed entry can hold.
pub const FLAGS_MASK: u32 = 0x3fe;

/// Generic representation of a page table entry.
#[derive(Clone, Copy, Debug)]
pub struct PTE {
    /// Physical page number that this PTE points to.
    pub ppn: PPN,
    /// Page protection flags, see [`crate::prot`].
    pub flags: u32,
    /// At what level of the page table this PTE is stored.
    pub level: u8,
    /// Whether this PTE is valid.
    pub valid: bool,
    /// Whether this is a leaf PTE.
    pub leaf: bool,
}

/// Two entries are the same mapping: same page, protection, level and
/// validity, and the same kind of entry unless both are invalid.
pub open spec fn pte_same(a: PTE, b: PTE) -> bool {
    &&& a.ppn == b.ppn
    &&& a.flags & prot::RWX == b.flags & prot::RWX
    &&& a.level == b.level
    &&& a.valid == b.valid
    &&& (a.leaf == b.leaf || !a.valid && !b.valid)
}

impl PartialEq for PTE {
    fn eq(&self, other: &Self) -> (r: bool) {
        self.ppn == other.ppn && (self.flags & prot::RWX) == (other.flags & prot::RWX) && self.level
            == other.level && self.valid == other.valid && (self.leaf == other.leaf || !self.valid
            && !other.valid)
    }
}

impl vstd::std_specs::cmp::PartialEqSpecImpl for PTE {
    open spec fn obeys_eq_spec() -> bool {
        true
    }

    open spec fn eq_spec(&self, other: &Self) -> bool {
        pte_same(*self, *other)
    }
}

/// The entry that stands for unmapped memory.
pub open spec fn null_pte() -> PTE {
    PTE { ppn: 0, flags: 0, level: 0, valid: false, leaf: false }
}

/// Whether the packed entry `raw` is valid.
pub open spec fn raw_valid(raw: u64) -> bool {
    raw & 1 == 1
}

/// The flags held by the packed entry `raw`.
pub open spec fn raw_flags(raw: u64) -> u32 {
    ((raw & 0xfe) as u32) | (if (raw >> 61u64) & 1 == 1 { prot::NC } else { 0 }) | (if (raw >> 62u64) & 1 == 1 {
        prot::IO
    } else {
        0
    })
}

/// The entry that the packed entry `raw` holds, as stored at `level`. It
/// is a leaf when it is valid and grants some access.
pub open spec fn unpack_spec(raw: u64, level: u8) -> PTE {
    PTE {
        ppn: ((raw >> 10u64) & PPN_MASK) as usize,
        flags: raw_flags(raw),
        level: level,
        valid: raw_valid(raw),
        leaf: raw_valid(raw) && raw & 0xe != 0,
    }
}

/// The packed form of entry `pte`.
pub open spec fn pack_spec(pte: PTE) -> u64 {
    (((pte.ppn as u64) & PPN_MASK) << 10u64) | ((pte.flags & 0xfe) as u64) | (if pte.valid { 1u64 } else { 0u64 }) | (
    if pte.flags & prot::NC != 0 {
        0x2000_0000_0000_0000u64
    } else {
        0u64
    }) | (if pte.flags & prot::IO != 0 {
        0x4000_0000_0000_0000u64
    } else {
        0u64
    })
}

/// Whether packing keeps all of `pte`: its page number and flags fit, and
/// it is a leaf exactly when it is valid and grants some access.
pub open spec fn pte_packable(pte: PTE) -> bool {
    &&& pte.ppn <= PPN_MASK
    &&& pte.flags & !FLAGS_MASK == 0
    &&& pte.leaf == (pte.valid && pte.flags & prot::RWX != 0)
}

impl PTE {
    /// The entry that stands for unmapped memory.
    pub fn null() -> (r: PTE)
        ensures
            r == null_pte(),
    {
        PTE { ppn: 0, flags: 0, level: 0, valid: false, leaf: false }
    }

    /// Whether this PTE represents unmapped memory (as some invalid PTEs may encode demand-mapped things).
    pub fn is_null(&self) -> (r: bool)
        ensures
            r == (self.ppn == 0 && self.flags == 0 && !self.valid),
    {
        self.ppn == 0 && self.flags == 0 && !self.valid
    }

    /// The packed form of this entry.
    pub fn pack(&self) -> (r: u64)
        ensures
            r == pack_spec(*self),
    {
        let nc: u64 = if self.flags & prot::NC != 0 { 0x2000_0000_0000_0000 } else { 0 };
        let io: u64 = if self.flags & prot::IO != 0 { 0x4000_0000_0000_0000 } else { 0 };
        let v: u64 = if self.valid { 1 } else { 0 };
        (((self.ppn as u64) & PPN_MASK) << 10u64) | ((self.flags & 0xfe) as u64) | v | nc | io
    }

    /// The entry that the packed entry `raw` holds, as stored at `level`.
    pub fn unpack(raw: u64, level: u8) -> (r: PTE)
        ensures
            r == unpack_spec(raw, level),
    {
        let nc: u32 = if (raw >> 61u64) & 1 == 1 { prot::NC } else { 0 };
        let io: u32 = if (raw >> 62u64) & 1 == 1 { prot::IO } else { 0 };
        let valid = raw & 1 == 1;
        PTE {
            ppn: ((raw >> 10u64) & PPN_MASK) as usize,
            flags: ((raw & 0xfe) as u32) | nc | io,
            level,
            valid,
            leaf: valid && raw & 0xe != 0,
        }
    }
}

/// Unpacking gives back every entry that packing keeps whole.
pub proof fn lemma_unpack_pack(pte: PTE)
    requires
        pte_packable(pte),
    ensures
        unpack_spec(pack_spec(pte), pte.level) == pte,
{
    let q = pte.ppn as u64;
    assert(q == pte.ppn);
    let p = q & PPN_MASK;
    assert(p == q) by (bit_vector)
        requires
            q <= 0xfff_ffff_ffff,
            p == q & 0xfff_ffff_ffff,
    ;
    let f = pte.flags;
    let v: u64 = if pte.valid { 1u64 } else { 0u64 };
    let nc: u64 = if f & prot::NC != 0 { 0x2000_0000_0000_0000u64 } else { 0u64 };
    let io: u64 = if f & prot::IO != 0 { 0x4000_0000_0000_0000u64 } else { 0u64 };
    let raw = (p << 10u64) | ((f & 0xfe) as u64) | v | nc | io;
    assert(raw == pack_spec(pte));
    assert(((raw >> 10u64) & PPN_MASK) == p && raw & 1 == v && raw & 0xe == ((f & 0xe) as u64) && ((raw & 0xfe) as u32)
        == f & 0xfe && ((raw >> 61u64) & 1 == 1) == (f & 0x100 != 0) && ((raw >> 62u64) & 1 == 1) == (f & 0x200 != 0))
        by (bit_vector)
        requires
            p <= 0xfff_ffff_ffff,
            v <= 1,
            nc == 0 || nc == 0x2000_0000_0000_0000u64,
            io == 0 || io == 0x4000_0000_0000_0000u64,
            (nc != 0) == (f & 0x100 != 0),
            (io != 0) == (f & 0x200 != 0),
            raw == (p << 10u64) | ((f & 0xfe) as u64) | v | nc | io,
    ;
    assert((f & 0xfe) | (if f & 0x100 != 0 { 0x100u32 } else { 0u32 }) | (if f & 0x200 != 0 { 0x200u32 } else { 0u32 }) == f)
        by (bit_vector)
        requires
            f & !0x3feu32 == 0,
    ;
    assert((f & 0xe != 0) == (f & 0xe != 0));
}

/// The index into the table of `level` that decodes `vpn`.
pub open spec fn vpn_index(vpn: VPN, level: u8) -> usize {
    (((vpn as u64) >> (level as u64 * 9)) % 512) as usize
}

/// Get the index in the given page table level for the given virtual page.
pub fn get_vpn_index(vpn: VPN, level: u8) -> (r: usize)
    requires
        level < 5,
    ensures
        r == vpn_index(vpn, level),
        r < PTE_PER_PAGE,
{
    (((vpn as u64) >> (level as u64 * 9)) % 512) as usize
}

/// Determine the highest order of page that can be used for the start of a
/// certain mapping in a page table of `levels` levels: the number of whole
/// levels of trailing zero bits that `vpn` and `ppn` share, as far as `size`
/// pages reach, and at most the top level.
pub fn calc_superpage(vpn: VPN, ppn: PPN, size: VPN, levels: u8) -> (r: u8)
    requires
        size > 0,
        1 <= levels <= 5,
    ensures
        ({
            let tz = vstd::std_specs::bits::u64_trailing_zeros((vpn as u64) | (ppn as u64)) as int;
            let lg = 63 - vstd::std_specs::bits::u64_leading_zeros(size as u64) as int;
            let m = (if tz < lg { tz } else { lg }) / 9;
            r == (if m < levels - 1 { m } else { levels - 1 })
        }),
        r < levels,
{
    let tz = ((vpn as u64) | (ppn as u64)).trailing_zeros();
    let lz = (size as u64).leading_zeros();
    proof {
        vstd::std_specs::bits::axiom_u64_trailing_zeros((vpn as u64) | (ppn as u64));
        vstd::std_specs::bits::axiom_u64_leading_zeros(size as u64);
        assert(size as u64 != 0);
    }
    let lg = 63 - lz;
    let m = if tz < lg { tz } else { lg };
    let o = m / 9;
    if o < (levels - 1) as u32 {
        o as u8
    } else {
        levels - 1
    }
}

/// Whether the packed entry `raw` is valid and points to a table of the
/// next level.
pub open spec fn raw_table(raw: u64) -> bool {
    raw_valid(raw) && raw & 0xe == 0
}

/// The page that the packed entry `raw` points to.
pub open spec fn raw_ppn(raw: u64) -> int {
    ((raw >> 10u64) & PPN_MASK) as usize as int
}

/// The memory that holds page-table pages: each table is one page of
/// [`PTE_PER_PAGE`] packed entries, found by its physical page number and
/// placed at one level of the tree.
pub struct PtMem {
    ppns: Vec<PPN>,
    lvls: Vec<u8>,
    ptes: Vec<u64>,
}

impl PtMem {
    /// Whether page `t` holds a table.
    pub closed spec fn has(&self, t: int) -> bool {
        exists|i: int| 0 <= i < self.ppns@.len() && self.ppns@[i] == t
    }

    /// Where table `t` is stored.
    spec fn slot(&self, t: int) -> int {
        choose|i: int| 0 <= i < self.ppns@.len() && self.ppns@[i] == t
    }

    /// The level of table `t`.
    pub closed spec fn level_of(&self, t: int) -> int {
        self.lvls@[self.slot(t)] as int
    }

    /// Entry `k` of table `t`.
    pub closed spec fn entry(&self, t: int, k: int) -> u64 {
        self.ptes@[512 * self.slot(t) + k]
    }

    /// An entry that may stand in a table of level `level`: one that points
    /// to a table points to one of the next level.
    pub open spec fn child_ok(&self, raw: u64, level: int) -> bool {
        level > 0 && raw_table(raw) ==> self.has(raw_ppn(raw)) && self.level_of(raw_ppn(raw)) == level - 1
    }

    /// No page holds two tables.
    closed spec fn distinct(&self) -> bool {
        forall|i: int, j: int| 0 <= i < j < self.ppns@.len() ==> self.ppns@[i] != self.ppns@[j]
    }

    /// The memory's invariant: tables are distinct pages of levels below
    /// five, and every entry that points to a table points to one of the
    /// next level.
    pub closed spec fn wf(&self) -> bool {
        &&& self.lvls@.len() == self.ppns@.len()
        &&& self.ptes@.len() == 512 * self.ppns@.len()
        &&& self.distinct()
        &&& forall|i: int| 0 <= i < self.lvls@.len() ==> self.lvls@[i] < 5
        &&& forall|t: int, k: int|
            self.has(t) && 0 <= k < 512 ==> #[trigger] self.child_ok(self.entry(t, k), self.level_of(t))
    }

    /// The tables are pages in use by the kernel, each a block of one page,
    /// and every page that may be allocated has a number that a packed
    /// entry can hold.
    pub open spec fn linked(&self, pmm: &Pmm) -> bool {
        &&& pmm.pages().dom_end() <= PPN_MASK + 1
        &&& forall|t: int|
            #![trigger self.has(t)]
            self.has(t) ==> pmm.pages().dom_start() <= t < pmm.pages().dom_end() && pmm.pages().page(t).usage
                == PageUsage::KernelAnon && pmm.pages().page(t).buddy_order == 0
    }

    /// `other` holds the tables of `self`, at the same levels and with the
    /// same entries.
    pub open spec fn keeps(&self, other: &PtMem) -> bool {
        forall|t: int|
            #![trigger other.has(t)]
            self.has(t) ==> other.has(t) && other.level_of(t) == self.level_of(t) && forall|k: int|
                0 <= k < 512 ==> #[trigger] other.entry(t, k) == self.entry(t, k)
    }

    proof fn lemma_slot(&self, i: int)
        requires
            self.distinct(),
            0 <= i < self.ppns@.len(),
        ensures
            self.has(self.ppns@[i] as int),
            self.slot(self.ppns@[i] as int) == i,
    {
        let t = self.ppns@[i] as int;
        assert(self.has(t));
        let j = self.slot(t);
        if j != i {
            if j < i {
                assert(self.ppns@[j] != self.ppns@[i]);
            } else {
                assert(self.ppns@[i] != self.ppns@[j]);
            }
        }
    }

    proof fn lemma_has(&self, t: int)
        requires
            self.wf(),
            self.has(t),
        ensures
            0 <= self.slot(t) < self.ppns@.len(),
            self.ppns@[self.slot(t)] == t,
            0 <= self.level_of(t) < 5,
    {
    }

    /// Memory with no tables.
    pub fn new() -> (r: Self)
        ensures
            r.wf(),
            forall|t: int| !r.has(t),
            distinct_links(&r),
    {
        let r = PtMem { ppns: Vec::new(), lvls: Vec::new(), ptes: Vec::new() };
        proof {
            reveal(distinct_links);
        }
        r
    }

    /// Where table `t` is stored.
    fn find(&self, t: PPN) -> (r: usize)
        requires
            self.wf(),
            self.has(t as int),
        ensures
            r == self.slot(t as int),
            r < self.ppns@.len(),
    {
        proof {
            self.lemma_has(t as int);
        }
        let ghost s = self.slot(t as int);
        let mut i: usize = 0;
        while i < self.ppns.len()
            invariant
                self.wf(),
                0 <= s < self.ppns@.len(),
                self.ppns@[s] == t,
                i <= s,
            decreases self.ppns@.len() - i,
        {
            if self.ppns[i] == t {
                proof {
                    self.lemma_slot(i as int);
                }
                return i;
            }
            i = i + 1;
        }
        proof {
            assert(false);
        }
        0
    }

    /// The level of table `t`.
    pub fn level(&self, t: PPN) -> (r: u8)
        requires
            self.wf(),
            self.has(t as int),
        ensures
            r == self.level_of(t as int),
            r < 5,
    {
        let i = self.find(t);
        self.lvls[i]
    }

    /// Read entry `k` of table `t`.
    pub fn read(&self, t: PPN, k: usize) -> (r: u64)
        requires
            self.wf(),
            self.has(t as int),
            k < PTE_PER_PAGE,
        ensures
            r == self.entry(t as int, k as int),
    {
        let i = self.find(t);
        let _total = self.ptes.len();
        proof {
            assert(512 * i + k < 512 * self.ppns@.len()) by (nonlinear_arith)
                requires
                    i < self.ppns@.len(),
                    k < 512,
            ;
        }
        self.ptes[512 * i + k]
    }

    /// Write entry `k` of table `t`, and return what it held.
    pub fn write(&mut self, t: PPN, k: usize, val: u64) -> (r: u64)
        requires
            old(self).wf(),
            old(self).has(t as int),
            k < PTE_PER_PAGE,
            old(self).child_ok(val, old(self).level_of(t as int)),
        ensures
            final(self).wf(),
            r == old(self).entry(t as int, k as int),
            forall|u: int| #[trigger] final(self).has(u) == old(self).has(u),
            forall|u: int| old(self).has(u) ==> #[trigger] final(self).level_of(u) == old(self).level_of(u),
            forall|u: int, j: int|
                old(self).has(u) && 0 <= j < 512 ==> #[trigger] final(self).entry(u, j) == (if u == t && j == k {
                    val
                } else {
                    old(self).entry(u, j)
                }),
    {
        let ghost s0 = *self;
        let i = self.find(t);
        let _total = self.ptes.len();
        proof {
            assert(512 * i + k < 512 * self.ppns@.len()) by (nonlinear_arith)
                requires
                    i < self.ppns@.len(),
                    k < 512,
            ;
        }
        let old_val = self.ptes[512 * i + k];
        self.ptes.set(512 * i + k, val);
        proof {
            assert forall|u: int| #[trigger] self.has(u) == s0.has(u) by {
                if s0.has(u) {
                    let j = s0.slot(u);
                    assert(self.ppns@[j] == u);
                }
                if self.has(u) {
                    let j = self.slot(u);
                    assert(s0.ppns@[j] == u);
                }
            }
            assert forall|u: int| #[trigger] self.slot(u) == s0.slot(u) by {}
            assert forall|u: int, j: int| s0.has(u) && 0 <= j < 512 implies #[trigger] self.entry(u, j) == (if u == t
                && j == k {
                val
            } else {
                s0.entry(u, j)
            }) by {
                s0.lemma_has(u);
                s0.lemma_has(t as int);
                if u != t {
                    assert(s0.slot(u) != s0.slot(t as int));
                }
            }
            assert forall|u: int, j: int| self.has(u) && 0 <= j < 512 implies #[trigger] self.child_ok(
                self.entry(u, j),
                self.level_of(u),
            ) by {
                assert(s0.child_ok(s0.entry(u, j), s0.level_of(u)));
            }
        }
        old_val
    }

    /// Allocate a table of `level` with every entry invalid.
    pub fn alloc_table(&mut self, pmm: &mut Pmm, level: u8) -> (r: EResult<PPN>)
        requires
            old(self).wf(),
            old(pmm).wf(),
            old(self).linked(&*old(pmm)),
            level < 5,
        ensures
            final(self).wf(),
            final(pmm).wf(),
            final(self).linked(&*final(pmm)),
            final(pmm).pages().dom_start() == old(pmm).pages().dom_start(),
            final(pmm).pages().dom_end() == old(pmm).pages().dom_end(),
            old(self).keeps(&*final(self)),
            match r {
                Ok(t) => {
                    &&& !old(self).has(t as int)
                    &&& final(self).has(t as int)
                    &&& final(self).level_of(t as int) == level
                    &&& forall|k: int| 0 <= k < 512 ==> #[trigger] final(self).entry(t as int, k) == INVALID_PTE
                    &&& forall|u: int| #[trigger] final(self).has(u) ==> old(self).has(u) || u == t
                    &&& old(pmm).pages().has_free_block(0)
                    &&& old(pmm).pages().free_pages().contains(t as int)
                    &&& final(pmm).pages().free_pages() == old(pmm).pages().free_pages().remove(t as int)
                    &&& final(pmm).pages().kernel_pages() == old(pmm).pages().kernel_pages().insert(t as int)
                    &&& final(pmm).pages().user_pages() == old(pmm).pages().user_pages()
                },
                Err(e) => {
                    &&& e == Errno::ENOMEM
                    &&& *final(self) == *old(self)
                    &&& *final(pmm) == *old(pmm)
                    &&& !old(pmm).pages().has_free_block(0)
                },
            },
    {
        let ghost s0 = *self;
        let ghost p0 = *pmm;
        let t = match pmm::allocate(pmm, 0, PageUsage::KernelAnon) {
            Ok(t) => t,
            Err(_) => {
                return Err(Errno::ENOMEM);
            },
        };
        proof {
            crate::buddy::lemma_pow2_facts(0);
            vstd::arithmetic::power2::lemma2_to64();
            assert(crate::buddy::in_block(t as int, t as int, 0));
            assert(Set::new(|p: int| crate::buddy::in_block(p, t as int, 0)) =~= set![t as int]);
            assert(p0.pages().free_pages().contains(t as int));
            if s0.has(t as int) {
                assert(p0.pages().page(t as int).usage == PageUsage::KernelAnon);
            }
        }
        let n = self.ppns.len();
        self.ppns.push(t);
        self.lvls.push(level);
        let mut k: usize = 0;
        while k < 512
            invariant
                self.ppns@ == s0.ppns@.push(t),
                self.lvls@ == s0.lvls@.push(level),
                n == s0.ppns@.len(),
                s0.ptes@.len() == 512 * n,
                self.ptes@.len() == 512 * n + k,
                k <= 512,
                forall|j: int| 0 <= j < 512 * n ==> self.ptes@[j] == s0.ptes@[j],
                forall|j: int| 512 * n <= j < 512 * n + k ==> self.ptes@[j] == INVALID_PTE,
            decreases 512 - k,
        {
            self.ptes.push(INVALID_PTE);
            k = k + 1;
        }
        proof {
            assert forall|u: int| #[trigger] self.has(u) == (s0.has(u) || u == t) by {
                if s0.has(u) {
                    let j = s0.slot(u);
                    assert(self.ppns@[j] == u);
                }
                if u == t {
                    assert(self.ppns@[n as int] == t);
                }
                if self.has(u) {
                    let j = self.slot(u);
                    if j < n {
                        assert(s0.ppns@[j] == u);
                    }
                }
            }
            assert forall|i: int, j: int| 0 <= i < j < self.ppns@.len() implies self.ppns@[i] != self.ppns@[j] by {
                if j == n {
                    assert(s0.has(self.ppns@[i] as int));
                } else {
                    assert(s0.ppns@[i] != s0.ppns@[j]);
                }
            }
            assert(self.distinct());
            assert forall|u: int| s0.has(u) implies #[trigger] self.slot(u) == s0.slot(u) && s0.slot(u) < n by {
                s0.lemma_has(u);
                self.lemma_slot(s0.slot(u));
            }
            self.lemma_slot(n as int);
            assert forall|u: int| s0.has(u) implies #[trigger] self.level_of(u) == s0.level_of(u) && forall|k: int|
                0 <= k < 512 ==> #[trigger] self.entry(u, k) == s0.entry(u, k) by {
                assert(self.slot(u) == s0.slot(u) && s0.slot(u) < n);
                assert forall|k: int| 0 <= k < 512 implies #[trigger] self.entry(u, k) == s0.entry(u, k) by {
                    assert(512 * s0.slot(u) + k < 512 * n) by (nonlinear_arith)
                        requires
                            s0.slot(u) < n,
                            0 <= k < 512,
                    ;
                }
            }
            assert forall|k: int| 0 <= k < 512 implies #[trigger] self.entry(t as int, k) == INVALID_PTE by {}
            assert forall|u: int, k: int| self.has(u) && 0 <= k < 512 implies #[trigger] self.child_ok(
                self.entry(u, k),
                self.level_of(u),
            ) by {
                if u == t {
                    assert(self.entry(u, k) == 0);
                    assert(!raw_table(0u64)) by (bit_vector);
                } else {
                    assert(s0.child_ok(s0.entry(u, k), s0.level_of(u)));
                }
            }
            assert forall|i: int| 0 <= i < self.lvls@.len() implies self.lvls@[i] < 5 by {
                if i < n {
                    assert(s0.lvls@[i] < 5);
                }
            }
            assert(self.wf());
            assert forall|u: int| #![trigger self.has(u)] self.has(u) implies pmm.pages().dom_start() <= u < pmm.pages().dom_end()
                && pmm.pages().page(u).usage == PageUsage::KernelAnon && pmm.pages().page(u).buddy_order == 0 by {
                if u == t {
                } else {
                    assert(s0.has(u));
                    assert(!p0.pages().free_pages().contains(u));
                }
            }
            assert(p0.pages().free_pages().difference(set![t as int]) =~= p0.pages().free_pages().remove(t as int));
            assert(p0.pages().kernel_pages().union(set![t as int]) =~= p0.pages().kernel_pages().insert(t as int));
        }
        Ok(t)
    }
}

/// What a walk from table `t` at `level` down towards `vpn` reads: the
/// entry at `min_level`, or the first one above it that is invalid or a
/// leaf.
pub open spec fn walk_spec(mem: &PtMem, t: int, vpn: VPN, level: int, min_level: int) -> PTE
    decreases level,
{
    let pte = unpack_spec(mem.entry(t, vpn_index(vpn, level as u8) as int), level as u8);
    if level <= min_level || level <= 0 {
        pte
    } else if pte.valid && !pte.leaf {
        walk_spec(mem, pte.ppn as int, vpn, level - 1, min_level)
    } else {
        pte
    }
}

/// The table at `target` that the entries on the way down from `root` at
/// `top` towards `vpn` lead to, if they all point to tables.
pub open spec fn reach(mem: &PtMem, root: int, vpn: VPN, top: int, target: int) -> Option<int>
    decreases top - target,
{
    if target >= top {
        Some(root)
    } else {
        match reach(mem, root, vpn, top, target + 1) {
            Some(u) => {
                let raw = mem.entry(u, vpn_index(vpn, (target + 1) as u8) as int);
                if raw_table(raw) {
                    Some(raw_ppn(raw))
                } else {
                    None
                }
            },
            None => None,
        }
    }
}

/// The tables on the way down are tables of their level.
pub proof fn lemma_reach_props(mem: &PtMem, root: int, vpn: VPN, top: int, target: int)
    requires
        mem.wf(),
        mem.has(root),
        mem.level_of(root) == top,
        0 <= target <= top,
    ensures
        reach(mem, root, vpn, top, target) matches Some(u) ==> mem.has(u) && mem.level_of(u) == target,
    decreases top - target,
{
    if target < top {
        lemma_reach_props(mem, root, vpn, top, target + 1);
        if let Some(u) = reach(mem, root, vpn, top, target + 1) {
            mem.lemma_has(u);
            let k = vpn_index(vpn, (target + 1) as u8) as int;
            assert(vpn_index(vpn, (target + 1) as u8) < 512);
            assert(mem.child_ok(mem.entry(u, k), mem.level_of(u)));
        }
    }
}

/// The way down to `target` reads only tables above `target`: memory that
/// keeps those keeps it.
pub proof fn lemma_reach_frame(mem: &PtMem, mem2: &PtMem, root: int, vpn: VPN, top: int, target: int)
    requires
        mem.wf(),
        mem.has(root),
        mem.level_of(root) == top,
        0 <= target <= top,
        forall|u: int|
            #![trigger mem.has(u)]
            mem.has(u) && mem.level_of(u) > target ==> mem2.has(u) && forall|k: int|
                0 <= k < 512 ==> #[trigger] mem2.entry(u, k) == mem.entry(u, k),
    ensures
        reach(mem2, root, vpn, top, target) == reach(mem, root, vpn, top, target),
    decreases top - target,
{
    if target < top {
        lemma_reach_frame(mem, mem2, root, vpn, top, target + 1);
        lemma_reach_props(mem, root, vpn, top, target + 1);
        assert(vpn_index(vpn, (target + 1) as u8) < 512);
    }
}

/// The way down from `root` passes through the table its entry points to.
proof fn lemma_reach_shift(mem: &PtMem, root: int, vpn: VPN, top: int, m: int)
    requires
        0 <= m < top,
        raw_table(mem.entry(root, vpn_index(vpn, top as u8) as int)),
    ensures
        reach(mem, root, vpn, top, m) == reach(
            mem,
            raw_ppn(mem.entry(root, vpn_index(vpn, top as u8) as int)),
            vpn,
            top - 1,
            m,
        ),
    decreases top - m,
{
    assert(reach(mem, root, vpn, top, top) == Some(root));
    let c = raw_ppn(mem.entry(root, vpn_index(vpn, top as u8) as int));
    assert(reach(mem, c, vpn, top - 1, top - 1) == Some(c));
    if m < top - 1 {
        lemma_reach_shift(mem, root, vpn, top, m + 1);
    }
}

/// A way down that reaches `m` reaches every level above it, and its first
/// step is an entry that points to a table.
proof fn lemma_reach_some(mem: &PtMem, root: int, vpn: VPN, top: int, m: int)
    requires
        0 <= m < top,
        reach(mem, root, vpn, top, m) is Some,
    ensures
        raw_table(mem.entry(root, vpn_index(vpn, top as u8) as int)),
    decreases top - m,
{
    assert(reach(mem, root, vpn, top, top) == Some(root));
    if m < top - 1 {
        lemma_reach_some(mem, root, vpn, top, m + 1);
    }
}

/// What packing puts in the valid bit, the access bits and the page
/// number.
pub proof fn lemma_pack_bits(pte: PTE)
    ensures
        raw_valid(pack_spec(pte)) == pte.valid,
        pack_spec(pte) & 0xe == (pte.flags & 0xe) as u64,
        raw_table(pack_spec(pte)) == (pte.valid && pte.flags & prot::RWX == 0),
        pte.ppn <= PPN_MASK ==> raw_ppn(pack_spec(pte)) == pte.ppn,
{
    let q = pte.ppn as u64;
    let p = q & PPN_MASK;
    let f = pte.flags;
    let v: u64 = if pte.valid { 1u64 } else { 0u64 };
    let nc: u64 = if f & prot::NC != 0 { 0x2000_0000_0000_0000u64 } else { 0u64 };
    let io: u64 = if f & prot::IO != 0 { 0x4000_0000_0000_0000u64 } else { 0u64 };
    let raw = (p << 10u64) | ((f & 0xfe) as u64) | v | nc | io;
    assert(raw == pack_spec(pte));
    assert(raw & 1 == v && raw & 0xe == ((f & 0xe) as u64) && (q <= 0xfff_ffff_ffff ==> (raw >> 10u64) & 0xfff_ffff_ffff == q))
        by (bit_vector)
        requires
            p == q & 0xfff_ffff_ffff,
            v <= 1,
            nc == 0 || nc == 0x2000_0000_0000_0000u64,
            io == 0 || io == 0x4000_0000_0000_0000u64,
            raw == (p << 10u64) | ((f & 0xfe) as u64) | v | nc | io,
    ;
    assert(((f & 0xe) as u64 == 0) == (f & 0xe == 0)) by (bit_vector);
}

/// A walk from `root` goes through every table that the way down reaches.
pub proof fn lemma_walk_via(mem: &PtMem, root: int, vpn: VPN, top: int, lvl: int, m: int)
    requires
        0 <= m <= lvl <= top,
        reach(mem, root, vpn, top, lvl) is Some,
    ensures
        walk_spec(mem, root, vpn, top, m) == walk_spec(mem, reach(mem, root, vpn, top, lvl)->0, vpn, lvl, m),
    decreases top - lvl,
{
    if lvl < top {
        lemma_reach_some(mem, root, vpn, top, lvl);
        lemma_reach_shift(mem, root, vpn, top, lvl);
        let raw = mem.entry(root, vpn_index(vpn, top as u8) as int);
        assert(raw_table(raw) == (unpack_spec(raw, top as u8).valid && !unpack_spec(raw, top as u8).leaf));
        lemma_walk_via(mem, raw_ppn(raw), vpn, top - 1, lvl, m);
    }
}

/// A way down that stops above a level stops above every lower level.
pub proof fn lemma_reach_none(mem: &PtMem, root: int, vpn: VPN, top: int, a: int, b: int)
    requires
        b <= a <= top,
        reach(mem, root, vpn, top, a) is None,
    ensures
        reach(mem, root, vpn, top, b) is None,
    decreases a - b,
{
    if b < a {
        lemma_reach_none(mem, root, vpn, top, a, b + 1);
    }
}

/// Entry `k` of the table that a superpage `orig` is split into at
/// `new_level`: the same mapping, for the `k`-th part of it.
pub open spec fn split_entry(orig: PTE, new_level: u8, k: int) -> PTE {
    PTE { ppn: ((orig.ppn as u64) + ((k as u64) << (new_level as u64 * 9))) as usize, level: new_level, ..orig }
}

/// What splitting the superpage entry `pte` of `level` down to `target`
/// leaves as the entry for `vpn`: at each level below, the part of the
/// entry above that covers `vpn`, as stored and read back.
pub open spec fn split_walk(pte: PTE, vpn: VPN, level: int, target: int) -> PTE
    decreases level - target,
{
    if level <= target {
        pte
    } else {
        let l = (level - 1) as u8;
        split_walk(unpack_spec(pack_spec(split_entry(pte, l, vpn_index(vpn, l) as int)), l), vpn, level - 1, target)
    }
}

/// Try to split a page table leaf node into a new table of `new_level`
/// that maps the same memory.
fn split_pgtable_leaf(mem: &mut PtMem, pmm: &mut Pmm, orig: PTE, new_level: u8) -> (r: EResult<PPN>)
    requires
        old(mem).wf(),
        old(pmm).wf(),
        old(mem).linked(&*old(pmm)),
        new_level < 4,
        orig.valid,
        orig.flags & 0xe != 0,
        orig.ppn <= PPN_MASK,
    ensures
        final(mem).wf(),
        final(pmm).wf(),
        final(mem).linked(&*final(pmm)),
        final(pmm).pages().dom_start() == old(pmm).pages().dom_start(),
        final(pmm).pages().dom_end() == old(pmm).pages().dom_end(),
        old(mem).keeps(&*final(mem)),
        match r {
            Ok(t) => {
                &&& !old(mem).has(t as int)
                &&& final(mem).has(t as int)
                &&& final(mem).level_of(t as int) == new_level
                &&& forall|k: int| 0 <= k < 512 ==> #[trigger] final(mem).entry(t as int, k) == pack_spec(split_entry(orig, new_level, k))
                &&& forall|u: int| #[trigger] final(mem).has(u) ==> old(mem).has(u) || u == t
            },
            Err(e) => e == Errno::ENOMEM && *final(mem) == *old(mem) && *final(pmm) == *old(pmm)
                && !old(pmm).pages().has_free_block(0),
        },
{
    let ghost m0 = *mem;
    let t = mem.alloc_table(pmm, new_level)?;
    let ghost m1 = *mem;
    let mut i: usize = 0;
    while i < 512
        invariant
            mem.wf(),
            pmm.wf(),
            mem.linked(&*pmm),
            m0.keeps(&*mem),
            !m0.has(t as int),
            mem.has(t as int),
            mem.level_of(t as int) == new_level,
            forall|u: int| #[trigger] mem.has(u) ==> m0.has(u) || u == t,
            forall|u: int| #[trigger] mem.has(u) == m1.has(u),
            forall|k: int| 0 <= k < i ==> #[trigger] mem.entry(t as int, k) == pack_spec(split_entry(orig, new_level, k)),
            i <= 512,
            new_level < 4,
            orig.valid,
            orig.flags & 0xe != 0,
            orig.ppn <= PPN_MASK,
        decreases 512 - i,
    {
        proof {
            let i64 = i as u64;
            let nl = new_level as u64;
            assert((i64 << (nl * 9)) < 0x10_0000_0000u64) by (bit_vector)
                requires
                    i64 < 512,
                    nl < 4,
            ;
        }
        let pte = PTE {
            ppn: ((orig.ppn as u64) + ((i as u64) << (new_level as u64 * 9))) as usize,
            flags: orig.flags,
            level: new_level,
            valid: orig.valid,
            leaf: orig.leaf,
        };
        proof {
            lemma_pack_bits(pte);
            assert(pte == split_entry(orig, new_level, i as int));
        }
        let ghost mb = *mem;
        let _ = mem.write(t, i, pte.pack());
        proof {
            assert forall|u: int| #![trigger mem.has(u)] m0.has(u) implies mem.has(u) && mem.level_of(u) == m0.level_of(u)
                && forall|k: int| 0 <= k < 512 ==> #[trigger] mem.entry(u, k) == m0.entry(u, k) by {
                assert(mb.has(u));
                assert forall|k: int| 0 <= k < 512 implies #[trigger] mem.entry(u, k) == m0.entry(u, k) by {
                    assert(mb.entry(u, k) == m0.entry(u, k));
                }
            }
        }
        i = i + 1;
    }
    Ok(t)
}

/// What unpacking takes from the access bits and the page number.
pub proof fn lemma_unpack_bits(raw: u64, level: u8)
    ensures
        unpack_spec(raw, level).ppn <= PPN_MASK,
        unpack_spec(raw, level).ppn == raw_ppn(raw),
        (unpack_spec(raw, level).flags & 0xe) as u64 == raw & 0xe,
        raw_table(raw) == (unpack_spec(raw, level).valid && !unpack_spec(raw, level).leaf),
{
    let p = (raw >> 10u64) & PPN_MASK;
    assert(p <= 0xfff_ffff_ffff) by (bit_vector)
        requires
            p == (raw >> 10u64) & 0xfff_ffff_ffff,
    ;
    let nc: u32 = if (raw >> 61u64) & 1 == 1 { prot::NC } else { 0 };
    let io: u32 = if (raw >> 62u64) & 1 == 1 { prot::IO } else { 0 };
    assert(((((raw & 0xfe) as u32) | nc | io) & 0xe) as u64 == raw & 0xe) by (bit_vector)
        requires
            nc == 0 || nc == 0x100u32,
            io == 0 || io == 0x200u32,
    ;
}

/// A way down made of entries that point to tables stays as it was where
/// those entries are kept.
pub proof fn lemma_reach_kept(mem: &PtMem, mem2: &PtMem, root: int, vpn: VPN, top: int, target: int)
    requires
        mem.wf(),
        mem.has(root),
        mem.level_of(root) == top,
        0 <= target <= top,
        reach(mem, root, vpn, top, target) is Some,
        tables_kept(mem, mem2, target),
    ensures
        reach(mem2, root, vpn, top, target) == reach(mem, root, vpn, top, target),
    decreases top - target,
{
    if target < top {
        assert(reach(mem, root, vpn, top, target + 1) is Some);
        assert(tables_kept(mem, mem2, target + 1));
        lemma_reach_kept(mem, mem2, root, vpn, top, target + 1);
        lemma_reach_props(mem, root, vpn, top, target + 1);
        let u = reach(mem, root, vpn, top, target + 1)->0;
        let k = vpn_index(vpn, (target + 1) as u8) as int;
        assert(mem.has(u));
        assert(mem2.entry(u, k) == mem.entry(u, k));
    }
}

/// Abstracts direct manipulation and usage of page tables: the root table
/// and the number of levels of the tree.
pub struct PageTable {
    root_ppn: PPN,
    levels: u8,
}

/// No two entries of tables above level 0 point to the same table: the
/// tables form a tree.
#[verifier::opaque]
pub open spec fn distinct_links(mem: &PtMem) -> bool {
    forall|u1: int, k1: int, u2: int, k2: int|
        #![trigger mem.entry(u1, k1), mem.entry(u2, k2)]
        mem.has(u1) && mem.has(u2) && 0 <= k1 < 512 && 0 <= k2 < 512 && mem.level_of(u1) > 0 && mem.level_of(u2) > 0
            && raw_table(mem.entry(u1, k1)) && raw_table(mem.entry(u2, k2)) && raw_ppn(mem.entry(u1, k1)) == raw_ppn(
            mem.entry(u2, k2),
        ) ==> u1 == u2 && k1 == k2
}

/// Memory that keeps the tables of `m1`, and whose other tables hold no
/// entry that points to a table, keeps them a tree.
pub proof fn lemma_links_kept(m1: &PtMem, m2: &PtMem)
    requires
        distinct_links(m1),
        m1.keeps(m2),
        forall|u: int, k: int|
            #![trigger m2.entry(u, k)]
            m2.has(u) && !m1.has(u) && 0 <= k < 512 ==> !raw_table(m2.entry(u, k)),
    ensures
        distinct_links(m2),
{
    reveal(distinct_links);
    assert forall|u1: int, k1: int, u2: int, k2: int|
        #![trigger m2.entry(u1, k1), m2.entry(u2, k2)]
        m2.has(u1) && m2.has(u2) && 0 <= k1 < 512 && 0 <= k2 < 512 && m2.level_of(u1) > 0 && m2.level_of(u2) > 0
            && raw_table(m2.entry(u1, k1)) && raw_table(m2.entry(u2, k2)) && raw_ppn(m2.entry(u1, k1)) == raw_ppn(
            m2.entry(u2, k2),
        ) implies u1 == u2 && k1 == k2 by {
        assert(m1.has(u1));
        assert(m1.has(u2));
        assert(m2.has(u1) && m2.has(u2));
        assert(m2.entry(u1, k1) == m1.entry(u1, k1));
        assert(m2.entry(u2, k2) == m1.entry(u2, k2));
        assert(m1.entry(u1, k1) == m1.entry(u1, k1) && m1.entry(u2, k2) == m1.entry(u2, k2));
    }
}

/// Writing entry `k` of table `t` keeps the tables a tree when the value
/// written, if it points to a table, points to one that no other entry
/// points to.
pub proof fn lemma_links_write(m1: &PtMem, m2: &PtMem, t: int, k: int, val: u64)
    requires
        distinct_links(m1),
        m1.has(t),
        0 <= k < 512,
        forall|u: int| #[trigger] m2.has(u) == m1.has(u),
        forall|u: int| m1.has(u) ==> #[trigger] m2.level_of(u) == m1.level_of(u),
        forall|u: int, j: int|
            m1.has(u) && 0 <= j < 512 ==> #[trigger] m2.entry(u, j) == (if u == t && j == k {
                val
            } else {
                m1.entry(u, j)
            }),
        m1.level_of(t) > 0 && raw_table(val) ==> forall|u: int, j: int|
            #![trigger m1.entry(u, j)]
            m1.has(u) && 0 <= j < 512 && m1.level_of(u) > 0 && raw_table(m1.entry(u, j)) && !(u == t && j == k)
                ==> raw_ppn(m1.entry(u, j)) != raw_ppn(val),
    ensures
        distinct_links(m2),
{
    reveal(distinct_links);
    assert forall|u1: int, k1: int, u2: int, k2: int|
        #![trigger m2.entry(u1, k1), m2.entry(u2, k2)]
        m2.has(u1) && m2.has(u2) && 0 <= k1 < 512 && 0 <= k2 < 512 && m2.level_of(u1) > 0 && m2.level_of(u2) > 0
            && raw_table(m2.entry(u1, k1)) && raw_table(m2.entry(u2, k2)) && raw_ppn(m2.entry(u1, k1)) == raw_ppn(
            m2.entry(u2, k2),
        ) implies u1 == u2 && k1 == k2 by {
        assert(m1.has(u1) && m1.has(u2));
        let a = m1.entry(u1, k1);
        let b = m1.entry(u2, k2);
        if u1 == t && k1 == k && !(u2 == t && k2 == k) {
            assert(m2.entry(u2, k2) == b);
        } else if u2 == t && k2 == k && !(u1 == t && k1 == k) {
            assert(m2.entry(u1, k1) == a);
        } else if !(u1 == t && k1 == k) && !(u2 == t && k2 == k) {
            assert(m2.entry(u1, k1) == a);
            assert(m2.entry(u2, k2) == b);
        }
    }
}

/// In a tree of tables, two pages whose ways down reach the same table at
/// `l` go through the same entries above it.
proof fn lemma_same_way_up(mem: &PtMem, root: int, p: VPN, q: VPN, top: int, l: int)
    requires
        mem.wf(),
        mem.has(root),
        mem.level_of(root) == top,
        0 <= l <= top,
        distinct_links(mem),
        reach(mem, root, p, top, l) is Some,
        reach(mem, root, p, top, l) == reach(mem, root, q, top, l),
    ensures
        forall|m: int| l < m <= top ==> #[trigger] vpn_index(p, m as u8) == vpn_index(q, m as u8),
    decreases top - l,
{
    if l < top {
        let a = reach(mem, root, p, top, l + 1)->0;
        let b = reach(mem, root, q, top, l + 1)->0;
        lemma_reach_props(mem, root, p, top, l + 1);
        lemma_reach_props(mem, root, q, top, l + 1);
        let ka = vpn_index(p, (l + 1) as u8) as int;
        let kb = vpn_index(q, (l + 1) as u8) as int;
        reveal(distinct_links);
        assert(mem.entry(a, ka) == mem.entry(a, ka) && mem.entry(b, kb) == mem.entry(b, kb));
        assert(a == b && ka == kb);
        lemma_same_way_up(mem, root, p, q, top, l + 1);
    }
}

/// Pages that agree on the index of every level of a tree of `depth`
/// levels are the same modulo the pages that the tree spans.
proof fn lemma_indices_agree(p: VPN, q: VPN, depth: int)
    requires
        3 <= depth <= 5,
        forall|m: int| 0 <= m < depth ==> #[trigger] vpn_index(p, m as u8) == vpn_index(q, m as u8),
    ensures
        p as int % table_span(depth) == q as int % table_span(depth),
{
    let x = p as u64;
    let y = q as u64;
    assert(vpn_index(p, 0int as u8) == vpn_index(q, 0int as u8));
    assert(vpn_index(p, 1int as u8) == vpn_index(q, 1int as u8));
    assert(vpn_index(p, 2int as u8) == vpn_index(q, 2int as u8));
    assert((x >> 0u64) % 512 == (y >> 0u64) % 512);
    assert((x >> 9u64) % 512 == (y >> 9u64) % 512);
    assert((x >> 18u64) % 512 == (y >> 18u64) % 512);
    if depth == 3 {
        assert(x % 0x800_0000 == y % 0x800_0000) by (bit_vector)
            requires
                (x >> 0u64) % 512 == (y >> 0u64) % 512,
                (x >> 9u64) % 512 == (y >> 9u64) % 512,
                (x >> 18u64) % 512 == (y >> 18u64) % 512,
        ;
    } else {
        assert(vpn_index(p, 3int as u8) == vpn_index(q, 3int as u8));
        assert((x >> 27u64) % 512 == (y >> 27u64) % 512);
        if depth == 4 {
            assert(x % 0x10_0000_0000 == y % 0x10_0000_0000) by (bit_vector)
                requires
                    (x >> 0u64) % 512 == (y >> 0u64) % 512,
                    (x >> 9u64) % 512 == (y >> 9u64) % 512,
                    (x >> 18u64) % 512 == (y >> 18u64) % 512,
                    (x >> 27u64) % 512 == (y >> 27u64) % 512,
            ;
        } else {
            assert(vpn_index(p, 4int as u8) == vpn_index(q, 4int as u8));
            assert((x >> 36u64) % 512 == (y >> 36u64) % 512);
            assert(x % 0x2000_0000_0000 == y % 0x2000_0000_0000) by (bit_vector)
                requires
                    (x >> 0u64) % 512 == (y >> 0u64) % 512,
                    (x >> 9u64) % 512 == (y >> 9u64) % 512,
                    (x >> 18u64) % 512 == (y >> 18u64) % 512,
                    (x >> 27u64) % 512 == (y >> 27u64) % 512,
                    (x >> 36u64) % 512 == (y >> 36u64) % 512,
            ;
        }
    }
}

/// The number of pages that a tree of `depth` levels of tables spans, for
/// the 3 to 5 levels that a page table has.
pub open spec fn table_span(depth: int) -> int {
    if depth <= 3 {
        0x800_0000
    } else if depth == 4 {
        0x10_0000_0000
    } else {
        0x2000_0000_0000
    }
}

/// In a tree of tables, two different pages less than a tree's span apart
/// that are both mapped down to level 0 read different level-0 entries.
#[verifier::spinoff_prover]
pub proof fn lemma_distinct_leaf_entries(mem: &PtMem, root: int, top: int, p: VPN, q: VPN)
    requires
        mem.wf(),
        mem.has(root),
        mem.level_of(root) == top,
        2 <= top <= 4,
        distinct_links(mem),
        p < q < p + table_span(top + 1),
        reach(mem, root, p, top, 0) is Some,
        reach(mem, root, q, top, 0) is Some,
    ensures
        (reach(mem, root, p, top, 0)->0, vpn_index(p, 0) as int) != (reach(mem, root, q, top, 0)->0, vpn_index(q, 0) as int),
{
    if reach(mem, root, p, top, 0) == reach(mem, root, q, top, 0) && vpn_index(p, 0) == vpn_index(q, 0) {
        lemma_same_way_up(mem, root, p, q, top, 0);
        assert forall|m: int| 0 <= m < top + 1 implies #[trigger] vpn_index(p, m as u8) == vpn_index(q, m as u8) by {
            if m == 0 {
                assert(vpn_index(p, 0int as u8) == vpn_index(p, 0));
            }
        }
        lemma_indices_agree(p, q, top + 1);
        let span = table_span(top + 1);
        let a = p as int;
        let b = q as int;
        assert(false) by (nonlinear_arith)
            requires
                a < b < a + span,
                span > 0,
                a >= 0,
                a % span == b % span,
        ;
    }
}

impl PageTable {
    /// The root table.
    pub closed spec fn root(&self) -> int {
        self.root_ppn as int
    }

    /// The number of levels.
    pub closed spec fn depth(&self) -> int {
        self.levels as int
    }

    /// The root is a table of the top level of a tree of 3 to 5 levels.
    pub open spec fn wf(&self, mem: &PtMem) -> bool {
        &&& mem.wf()
        &&& 3 <= self.depth() <= 5
        &&& mem.has(self.root())
        &&& mem.level_of(self.root()) == self.depth() - 1
    }

    /// What a walk towards `vpn` that stops at `min_level` reads.
    pub open spec fn lookup(&self, mem: &PtMem, vpn: VPN, min_level: int) -> PTE {
        walk_spec(mem, self.root(), vpn, self.depth() - 1, min_level)
    }

    /// Create a new page table of `levels` levels, with an empty root.
    pub fn new(mem: &mut PtMem, pmm: &mut Pmm, levels: u8) -> (r: EResult<Self>)
        requires
            old(mem).wf(),
            old(pmm).wf(),
            old(mem).linked(&*old(pmm)),
            3 <= levels <= 5,
        ensures
            final(mem).wf(),
            final(pmm).wf(),
            final(mem).linked(&*final(pmm)),
            final(pmm).pages().dom_start() == old(pmm).pages().dom_start(),
            final(pmm).pages().dom_end() == old(pmm).pages().dom_end(),
            old(mem).keeps(&*final(mem)),
            distinct_links(&*old(mem)) ==> distinct_links(&*final(mem)),
            match r {
                Ok(pt) => {
                    &&& pt.wf(&*final(mem))
                    &&& pt.depth() == levels
                    &&& !old(mem).has(pt.root())
                    &&& forall|k: int| 0 <= k < 512 ==> #[trigger] final(mem).entry(pt.root(), k) == INVALID_PTE
                    &&& old(pmm).pages().has_free_block(0)
                    &&& old(pmm).pages().free_pages().contains(pt.root())
                    &&& final(pmm).pages().free_pages() == old(pmm).pages().free_pages().remove(pt.root())
                    &&& final(pmm).pages().kernel_pages() == old(pmm).pages().kernel_pages().insert(pt.root())
                    &&& final(pmm).pages().user_pages() == old(pmm).pages().user_pages()
                },
                Err(e) => e == Errno::ENOMEM && !old(pmm).pages().has_free_block(0) && *final(mem) == *old(mem)
                    && *final(pmm) == *old(pmm),
            },
    {
        let ghost m0 = *mem;
        let root = mem.alloc_table(pmm, levels - 1)?;
        proof {
            if distinct_links(&m0) {
                assert(0u64 & 1 == 0) by (bit_vector);
                assert forall|u: int, k: int|
                    #![trigger mem.entry(u, k)]
                    mem.has(u) && !m0.has(u) && 0 <= k < 512 implies !raw_table(mem.entry(u, k)) by {
                    assert(mem.entry(root as int, k) == INVALID_PTE);
                }
                lemma_links_kept(&m0, &*mem);
            }
        }
        Ok(PageTable { root_ppn: root, levels })
    }

    /// Get the root page number.
    pub fn root_ppn(&self) -> (r: PPN)
        ensures
            r == self.root(),
    {
        self.root_ppn
    }

    /// The number of levels.
    pub fn levels(&self) -> (r: u8)
        ensures
            r == self.depth(),
    {
        self.levels
    }

    /// Walk down the page table and read the target page's PTE, stopping
    /// at `min_level`.
    pub fn walk_shallow(&self, mem: &PtMem, vpn: VPN, min_level: u32) -> (r: PTE)
        requires
            self.wf(mem),
            min_level < self.depth(),
        ensures
            r == self.lookup(mem, vpn, min_level as int),
    {
        let mut t = self.root_ppn;
        let mut level: u8 = self.levels - 1;
        loop
            invariant
                self.wf(mem),
                min_level <= level < 5,
                mem.has(t as int),
                mem.level_of(t as int) == level,
                walk_spec(mem, t as int, vpn, level as int, min_level as int) == self.lookup(mem, vpn, min_level as int),
            decreases level,
        {
            let index = get_vpn_index(vpn, level);
            let pte = PTE::unpack(mem.read(t, index), level);
            if level as u32 == min_level || !pte.valid && level > 0 {
                return pte;
            } else if pte.valid && !pte.leaf {
                proof {
                    assert(mem.child_ok(mem.entry(t as int, index as int), mem.level_of(t as int)));
                }
                t = pte.ppn;
                level = level - 1;
            } else {
                return pte;
            }
        }
    }

    /// Walk down the page table and read the target page's PTE.
    pub fn walk(&self, mem: &PtMem, vpn: VPN) -> (r: PTE)
        requires
            self.wf(mem),
        ensures
            r == self.lookup(mem, vpn, 0),
    {
        self.walk_shallow(mem, vpn, 0)
    }
}

/// Every entry of a table of `m0` that differs in `m1` is the one that
/// decodes `vpn` at a level of `low` or more, in a table that the way down
/// towards `vpn` in `m1` goes through.
pub open spec fn path_changes(m0: &PtMem, m1: &PtMem, root: int, vpn: VPN, top: int, low: int) -> bool {
    forall|u: int, k: int|
        #![trigger m0.has(u), m1.entry(u, k)]
        m0.has(u) && 0 <= k < 512 && m1.entry(u, k) != m0.entry(u, k) ==> k == vpn_index(vpn, m0.level_of(u) as u8)
            && low <= m0.level_of(u) && reach(m1, root, vpn, top, m0.level_of(u)) == Some(u)
}

/// Every invalid entry of a table of `m0` above `level` is the same in `m1`.
pub open spec fn invalid_kept(m0: &PtMem, m1: &PtMem, level: int) -> bool {
    forall|u: int, k: int|
        #![trigger m0.has(u), m1.entry(u, k)]
        m0.has(u) && 0 <= k < 512 && m0.level_of(u) > level && !raw_valid(m0.entry(u, k)) ==> m1.entry(u, k)
            == m0.entry(u, k)
}

/// Writing the entry that decodes `vpn` in the table that the way down
/// reaches at `lvl`, after making new tables, keeps [`path_changes`].
proof fn lemma_changes_step(
    m0: &PtMem,
    ma: &PtMem,
    mb: &PtMem,
    mc: &PtMem,
    root: int,
    vpn: VPN,
    top: int,
    lvl: int,
    t: int,
)
    requires
        ma.wf(),
        mb.wf(),
        mc.wf(),
        ma.has(root),
        ma.level_of(root) == top,
        0 <= lvl <= top,
        path_changes(m0, ma, root, vpn, top, lvl),
        path_frame(m0, ma, vpn),
        ma.keeps(mb),
        forall|u: int| #[trigger] mc.has(u) == mb.has(u),
        forall|u: int| mb.has(u) ==> #[trigger] mc.level_of(u) == mb.level_of(u),
        forall|u: int, j: int|
            mb.has(u) && 0 <= j < 512 && !(u == t && j == vpn_index(vpn, lvl as u8)) ==> #[trigger] mc.entry(u, j)
                == mb.entry(u, j),
        reach(ma, root, vpn, top, lvl) == Some(t),
        ma.has(t),
        ma.level_of(t) == lvl,
        reach(mc, root, vpn, top, lvl) == Some(t),
    ensures
        path_changes(m0, mc, root, vpn, top, lvl),
{
    assert forall|u: int, k: int|
        #![trigger m0.has(u), mc.entry(u, k)]
        m0.has(u) && 0 <= k < 512 && mc.entry(u, k) != m0.entry(u, k) implies k == vpn_index(vpn, m0.level_of(u) as u8)
            && lvl <= m0.level_of(u) && reach(mc, root, vpn, top, m0.level_of(u)) == Some(u) by {
        assert(ma.has(u));
        assert(mb.has(u));
        if u == t && k == vpn_index(vpn, lvl as u8) {
        } else {
            assert(mc.entry(u, k) == mb.entry(u, k));
            assert(mb.entry(u, k) == ma.entry(u, k));
            let l = m0.level_of(u);
            assert(reach(ma, root, vpn, top, l) == Some(u));
            lemma_reach_props(ma, root, vpn, top, l);
            if l == lvl {
                assert(u == t);
            }
            lemma_reach_frame(ma, mb, root, vpn, top, l);
            assert(mb.has(root));
            lemma_reach_frame(mb, mc, root, vpn, top, l);
        }
    }
}

/// A walk down to level 0 that ends at level 0 went through a table at
/// every level.
pub proof fn lemma_walk_level(mem: &PtMem, root: int, vpn: VPN, top: int)
    requires
        0 <= top < 5,
        walk_spec(mem, root, vpn, top, 0).level == 0,
    ensures
        reach(mem, root, vpn, top, 0) is Some,
    decreases top,
{
    if top > 0 {
        let raw = mem.entry(root, vpn_index(vpn, top as u8) as int);
        lemma_unpack_bits(raw, top as u8);
        if raw_table(raw) {
            lemma_walk_level(mem, raw_ppn(raw), vpn, top - 1);
            lemma_reach_shift(mem, root, vpn, top, 0);
        }
    }
}

impl PageTable {
    /// Whether the way down towards `vpn` is cut off by an invalid entry
    /// above `level`.
    pub open spec fn cut_off(&self, mem: &PtMem, vpn: VPN, level: int) -> bool {
        reach(mem, self.root(), vpn, self.depth() - 1, level) is None && !self.lookup(mem, vpn, level).valid
    }

    /// Create a new mapping, or remove one with a null entry: descend to
    /// the entry's level, making tables on the way and splitting superpages
    /// that cover `vpn`, then write the entry and return the one it
    /// replaced. A null entry whose way down is cut off changes nothing.
    #[verifier::spinoff_prover]
    #[verifier::rlimit(60)]
    fn map_impl(&self, mem: &mut PtMem, pmm: &mut Pmm, vpn: VPN, new_pte: PTE) -> (r: EResult<PTE>)
        requires
            self.wf(&*old(mem)),
            old(pmm).wf(),
            old(mem).linked(&*old(pmm)),
            new_pte.level < self.depth(),
            new_pte.level == 0 || !(new_pte.valid && new_pte.flags & prot::RWX == 0),
        ensures
            self.wf(&*final(mem)),
            final(pmm).wf(),
            final(mem).linked(&*final(pmm)),
            final(pmm).pages().dom_start() == old(pmm).pages().dom_start(),
            final(pmm).pages().dom_end() == old(pmm).pages().dom_end(),
            path_frame(&*old(mem), &*final(mem), vpn),
            tables_kept(&*old(mem), &*final(mem), new_pte.level as int),
            path_changes(&*old(mem), &*final(mem), self.root(), vpn, self.depth() - 1, new_pte.level as int),
            distinct_links(&*old(mem)) ==> distinct_links(&*final(mem)),
            new_pte.ppn == 0 && new_pte.flags == 0 && !new_pte.valid ==> invalid_kept(
                &*old(mem),
                &*final(mem),
                new_pte.level as int,
            ),
            match r {
                Ok(p) => if new_pte.ppn == 0 && new_pte.flags == 0 && !new_pte.valid && self.cut_off(
                    &*old(mem),
                    vpn,
                    new_pte.level as int,
                ) {
                    p == null_pte() && *final(mem) == *old(mem) && *final(pmm) == *old(pmm)
                } else {
                    &&& self.lookup(&*final(mem), vpn, new_pte.level as int) == unpack_spec(
                        pack_spec(new_pte),
                        new_pte.level,
                    )
                    &&& reach(&*old(mem), self.root(), vpn, self.depth() - 1, new_pte.level as int) is Some ==> p
                        == self.lookup(&*old(mem), vpn, new_pte.level as int) && *final(pmm) == *old(pmm)
                    &&& self.cut_off(&*old(mem), vpn, new_pte.level as int) ==> p == unpack_spec(
                        INVALID_PTE,
                        new_pte.level,
                    )
                    &&& reach(&*final(mem), self.root(), vpn, self.depth() - 1, new_pte.level as int) is Some
                    &&& reach(&*old(mem), self.root(), vpn, self.depth() - 1, new_pte.level as int) is None
                        && self.lookup(&*old(mem), vpn, new_pte.level as int).valid ==> p == split_walk(
                        self.lookup(&*old(mem), vpn, new_pte.level as int),
                        vpn,
                        self.lookup(&*old(mem), vpn, new_pte.level as int).level as int,
                        new_pte.level as int,
                    )
                },
                Err(e) => e == Errno::ENOMEM && !final(pmm).pages().has_free_block(0),
            },
            reach(&*old(mem), self.root(), vpn, self.depth() - 1, new_pte.level as int) is Some ==> r is Ok,
            new_pte.ppn == 0 && new_pte.flags == 0 && !new_pte.valid && self.cut_off(&*old(mem), vpn, new_pte.level as int)
                ==> r is Ok,
    {
        let ghost m0 = *mem;
        let ghost p0 = *pmm;
        let ghost top = self.depth() - 1;
        let ghost root = self.root();
        let target = new_pte.level;
        let null = new_pte.is_null();
        let global: u32 = if crate::canon::is_canon_kernel_page(vpn, self.levels as u32) {
            prot::G
        } else {
            0
        };
        let mut t = self.root_ppn;
        let mut lvl: u8 = self.levels - 1;
        let ghost mut changed = false;
        proof {
            assert(reach(&*mem, root, vpn, top, top) == Some(root));
        }
        while lvl > target
            invariant
                self.wf(&*mem),
                pmm.wf(),
                mem.linked(&*pmm),
                pmm.pages().dom_start() == p0.pages().dom_start(),
                pmm.pages().dom_end() == p0.pages().dom_end(),
                top == self.depth() - 1,
                root == self.root(),
                m0 == *old(mem),
                p0 == *old(pmm),
                target == new_pte.level,
                target <= lvl <= top,
                lvl < 5,
                new_pte.level == 0 || !(new_pte.valid && new_pte.flags & prot::RWX == 0),
                null == (new_pte.ppn == 0 && new_pte.flags == 0 && !new_pte.valid),
                global == 0 || global == prot::G,
                mem.has(t as int),
                mem.level_of(t as int) == lvl,
                reach(&*mem, root, vpn, top, lvl as int) == Some(t as int),
                path_frame(&m0, &*mem, vpn),
                tables_kept(&m0, &*mem, target as int),
                path_changes(&m0, &*mem, root, vpn, top, lvl as int),
                null ==> invalid_kept(&m0, &*mem, target as int),
                !changed ==> *mem == m0 && *pmm == p0,
                reach(&m0, root, vpn, top, target as int) is Some ==> !changed,
                null && changed ==> self.lookup(&m0, vpn, target as int).valid,
                null && changed ==> forall|k: int|
                    0 <= k < 512 ==> raw_valid(#[trigger] mem.entry(t as int, k)) && !raw_table(mem.entry(t as int, k)),
                changed && !self.lookup(&m0, vpn, target as int).valid ==> forall|k: int|
                    0 <= k < 512 ==> #[trigger] mem.entry(t as int, k) == INVALID_PTE,
                distinct_links(&m0) ==> distinct_links(&*mem),
                changed && self.lookup(&m0, vpn, target as int).valid ==> forall|k: int|
                    0 <= k < 512 ==> raw_valid(#[trigger] mem.entry(t as int, k)) && !raw_table(mem.entry(t as int, k)),
                changed && self.lookup(&m0, vpn, target as int).valid ==> split_walk(
                    unpack_spec(mem.entry(t as int, vpn_index(vpn, lvl) as int), lvl),
                    vpn,
                    lvl as int,
                    target as int,
                ) == split_walk(
                    self.lookup(&m0, vpn, target as int),
                    vpn,
                    self.lookup(&m0, vpn, target as int).level as int,
                    target as int,
                ),
            decreases lvl,
        {
            let ghost ma = *mem;
            let index = get_vpn_index(vpn, lvl);
            let raw = mem.read(t, index);
            let pte = PTE::unpack(raw, lvl);
            proof {
                lemma_unpack_bits(raw, lvl);
                assert(ma.child_ok(raw, lvl as int));
                assert(0u64 & 1 == 0) by (bit_vector);
                if !changed {
                    lemma_walk_via(&m0, root, vpn, top, lvl as int, target as int);
                }
            }
            if !pte.valid {
                if null {
                    proof {
                        assert(!changed);
                        assert(reach(&m0, root, vpn, top, lvl - 1) is None);
                        lemma_reach_none(&m0, root, vpn, top, lvl - 1, target as int);
                        lemma_walk_via(&m0, root, vpn, top, lvl as int, target as int);
                    }
                    return Ok(PTE::null());
                }
                proof {
                    if !changed {
                        assert(reach(&m0, root, vpn, top, lvl - 1) is None);
                        lemma_reach_none(&m0, root, vpn, top, lvl - 1, target as int);
                    }
                }
                let c = mem.alloc_table(pmm, lvl - 1)?;
                let ghost mb = *mem;
                let link = PTE { ppn: c, flags: global, level: lvl, valid: true, leaf: false };
                proof {
                    lemma_pack_bits(link);
                    assert(mb.has(c as int));
                    assert(mb.has(t as int));
                    assert(mb.has(root));
                    assert(global & prot::RWX == 0 && global & 0xe == 0) by (bit_vector)
                        requires
                            global == 0 || global == 0x20u32,
                    ;
                    lemma_reach_frame(&ma, &mb, root, vpn, top, lvl as int);
                }
                let _ = mem.write(t, index, link.pack());
                proof {
                    lemma_reach_frame(&mb, &*mem, root, vpn, top, lvl as int);
                    assert(reach(&*mem, root, vpn, top, lvl - 1) == Some(c as int));
                    assert forall|u: int| #![trigger m0.has(u)] m0.has(u) implies mem.has(u) && mem.level_of(u) == m0.level_of(
                        u,
                    ) && forall|k: int|
                        0 <= k < 512 && k != vpn_index(vpn, m0.level_of(u) as u8) ==> #[trigger] mem.entry(u, k)
                            == m0.entry(u, k) by {
                        assert(ma.has(u));
                        assert(mb.has(u));
                        assert forall|k: int| 0 <= k < 512 && k != vpn_index(vpn, m0.level_of(u) as u8) implies #[trigger] mem.entry(
                            u,
                            k,
                        ) == m0.entry(u, k) by {
                            assert(ma.entry(u, k) == m0.entry(u, k));
                            assert(mb.entry(u, k) == ma.entry(u, k));
                        }
                    }
                    assert forall|u: int, k: int|
                        #![trigger m0.has(u), mem.entry(u, k)]
                        m0.has(u) && 0 <= k < 512 && m0.level_of(u) > target && raw_table(m0.entry(u, k))
                            implies mem.entry(u, k) == m0.entry(u, k) by {
                        assert(ma.has(u));
                        assert(mb.has(u));
                        assert(ma.entry(u, k) == m0.entry(u, k));
                        assert(mb.entry(u, k) == ma.entry(u, k));
                    }
                    lemma_changes_step(&m0, &ma, &mb, &*mem, root, vpn, top, lvl as int, t as int);
                    if null {
                        assert forall|u: int, k: int|
                            #![trigger m0.has(u), mem.entry(u, k)]
                            m0.has(u) && 0 <= k < 512 && m0.level_of(u) > target && !raw_valid(m0.entry(u, k))
                                implies mem.entry(u, k) == m0.entry(u, k) by {
                            assert(ma.has(u));
                            assert(mb.has(u));
                            assert(ma.entry(u, k) == m0.entry(u, k));
                            assert(mb.entry(u, k) == ma.entry(u, k));
                        }
                    }
                    if !changed {
                        assert(reach(&m0, root, vpn, top, lvl - 1) is None);
                        lemma_reach_none(&m0, root, vpn, top, lvl - 1, target as int);
                    }
                    assert forall|k: int| 0 <= k < 512 implies #[trigger] mem.entry(c as int, k) == INVALID_PTE by {
                        assert(mb.entry(c as int, k) == INVALID_PTE);
                    }
                    if distinct_links(&m0) {
                        assert forall|u: int, k: int|
                            #![trigger mb.entry(u, k)]
                            mb.has(u) && !ma.has(u) && 0 <= k < 512 implies !raw_table(mb.entry(u, k)) by {
                            assert(mb.entry(c as int, k) == INVALID_PTE);
                        }
                        lemma_links_kept(&ma, &mb);
                        assert forall|u: int, j: int|
                            #![trigger mb.entry(u, j)]
                            mb.has(u) && 0 <= j < 512 && mb.level_of(u) > 0 && raw_table(mb.entry(u, j)) && !(u == t
                                && j == index) implies raw_ppn(mb.entry(u, j)) != raw_ppn(pack_spec(link)) by {
                            if u == c as int {
                                assert(mb.entry(c as int, j) == INVALID_PTE);
                            } else {
                                assert(ma.has(u));
                                assert(mb.entry(u, j) == ma.entry(u, j));
                                assert(ma.child_ok(ma.entry(u, j), ma.level_of(u)));
                            }
                        }
                        lemma_links_write(&mb, &*mem, t as int, index as int, pack_spec(link));
                    }
                    changed = true;
                }
                t = c;
            } else if pte.leaf {
                proof {
                    if !changed {
                        assert(reach(&m0, root, vpn, top, lvl - 1) is None);
                        lemma_reach_none(&m0, root, vpn, top, lvl - 1, target as int);
                        lemma_walk_via(&m0, root, vpn, top, lvl as int, target as int);
                    }
                    if null {
                        assert(self.lookup(&m0, vpn, target as int).valid);
                    }
                }
                let c = split_pgtable_leaf(mem, pmm, pte, lvl - 1)?;
                let ghost mb = *mem;
                let link = PTE { ppn: c, flags: global, level: lvl, valid: true, leaf: false };
                proof {
                    lemma_pack_bits(link);
                    assert(mb.has(c as int));
                    assert(mb.has(t as int));
                    assert(mb.has(root));
                    assert(global & prot::RWX == 0 && global & 0xe == 0) by (bit_vector)
                        requires
                            global == 0 || global == 0x20u32,
                    ;
                    lemma_reach_frame(&ma, &mb, root, vpn, top, lvl as int);
                }
                let _ = mem.write(t, index, link.pack());
                proof {
                    lemma_reach_frame(&mb, &*mem, root, vpn, top, lvl as int);
                    assert(reach(&*mem, root, vpn, top, lvl - 1) == Some(c as int));
                    assert forall|u: int| #![trigger m0.has(u)] m0.has(u) implies mem.has(u) && mem.level_of(u) == m0.level_of(
                        u,
                    ) && forall|k: int|
                        0 <= k < 512 && k != vpn_index(vpn, m0.level_of(u) as u8) ==> #[trigger] mem.entry(u, k)
                            == m0.entry(u, k) by {
                        assert(ma.has(u));
                        assert(mb.has(u));
                        assert forall|k: int| 0 <= k < 512 && k != vpn_index(vpn, m0.level_of(u) as u8) implies #[trigger] mem.entry(
                            u,
                            k,
                        ) == m0.entry(u, k) by {
                            assert(ma.entry(u, k) == m0.entry(u, k));
                            assert(mb.entry(u, k) == ma.entry(u, k));
                        }
                    }
                    assert forall|u: int, k: int|
                        #![trigger m0.has(u), mem.entry(u, k)]
                        m0.has(u) && 0 <= k < 512 && m0.level_of(u) > target && raw_table(m0.entry(u, k))
                            implies mem.entry(u, k) == m0.entry(u, k) by {
                        assert(ma.has(u));
                        assert(mb.has(u));
                        assert(ma.entry(u, k) == m0.entry(u, k));
                        assert(mb.entry(u, k) == ma.entry(u, k));
                    }
                    lemma_changes_step(&m0, &ma, &mb, &*mem, root, vpn, top, lvl as int, t as int);
                    if null {
                        assert forall|u: int, k: int|
                            #![trigger m0.has(u), mem.entry(u, k)]
                            m0.has(u) && 0 <= k < 512 && m0.level_of(u) > target && !raw_valid(m0.entry(u, k))
                                implies mem.entry(u, k) == m0.entry(u, k) by {
                            assert(ma.has(u));
                            assert(mb.has(u));
                            assert(ma.entry(u, k) == m0.entry(u, k));
                            assert(mb.entry(u, k) == ma.entry(u, k));
                        }
                    }
                    if !changed {
                        assert(reach(&m0, root, vpn, top, lvl - 1) is None);
                        lemma_reach_none(&m0, root, vpn, top, lvl - 1, target as int);
                        lemma_walk_via(&m0, root, vpn, top, lvl as int, target as int);
                    }
                    assert forall|k: int| 0 <= k < 512 implies raw_valid(#[trigger] mem.entry(c as int, k)) && !raw_table(
                        mem.entry(c as int, k),
                    ) by {
                        lemma_pack_bits(split_entry(pte, (lvl - 1) as u8, k));
                    }
                    let l1 = (lvl - 1) as u8;
                    let i1 = vpn_index(vpn, l1) as int;
                    assert(mem.entry(c as int, i1) == pack_spec(split_entry(pte, l1, i1))) by {
                        assert(mb.entry(c as int, i1) == pack_spec(split_entry(pte, l1, i1)));
                    }
                    assert(split_walk(pte, vpn, lvl as int, target as int) == split_walk(
                        unpack_spec(mem.entry(c as int, i1), l1),
                        vpn,
                        lvl - 1,
                        target as int,
                    ));
                    if distinct_links(&m0) {
                        assert forall|u: int, k: int|
                            #![trigger mb.entry(u, k)]
                            mb.has(u) && !ma.has(u) && 0 <= k < 512 implies !raw_table(mb.entry(u, k)) by {
                            lemma_pack_bits(split_entry(pte, (lvl - 1) as u8, k));
                        }
                        lemma_links_kept(&ma, &mb);
                        assert forall|u: int, j: int|
                            #![trigger mb.entry(u, j)]
                            mb.has(u) && 0 <= j < 512 && mb.level_of(u) > 0 && raw_table(mb.entry(u, j)) && !(u == t
                                && j == index) implies raw_ppn(mb.entry(u, j)) != raw_ppn(pack_spec(link)) by {
                            if u == c as int {
                                lemma_pack_bits(split_entry(pte, (lvl - 1) as u8, j));
                            } else {
                                assert(ma.has(u));
                                assert(mb.entry(u, j) == ma.entry(u, j));
                                assert(ma.child_ok(ma.entry(u, j), ma.level_of(u)));
                            }
                        }
                        lemma_links_write(&mb, &*mem, t as int, index as int, pack_spec(link));
                    }
                    changed = true;
                }
                t = c;
            } else {
                proof {
                    assert(reach(&*mem, root, vpn, top, lvl - 1) == Some(raw_ppn(raw)));
                }
                t = pte.ppn;
            }
            lvl = lvl - 1;
        }
        let index = get_vpn_index(vpn, target);
        let ghost mb = *mem;
        proof {
            lemma_pack_bits(new_pte);
            lemma_walk_via(&mb, root, vpn, top, target as int, target as int);
            if reach(&m0, root, vpn, top, target as int) is Some {
                lemma_walk_via(&m0, root, vpn, top, target as int, target as int);
            }
        }
        let old_raw = mem.write(t, index, new_pte.pack());
        proof {
            assert(mb.keeps(&mb));
            lemma_reach_frame(&mb, &*mem, root, vpn, top, target as int);
            lemma_changes_step(&m0, &mb, &mb, &*mem, root, vpn, top, target as int, t as int);
            if null {
                assert forall|u: int, k: int|
                    #![trigger m0.has(u), mem.entry(u, k)]
                    m0.has(u) && 0 <= k < 512 && m0.level_of(u) > target && !raw_valid(m0.entry(u, k))
                        implies mem.entry(u, k) == m0.entry(u, k) by {
                    assert(mb.has(u));
                    assert(mb.entry(u, k) == m0.entry(u, k));
                }
            }
            assert forall|u: int, k: int|
                #![trigger m0.has(u), mem.entry(u, k)]
                m0.has(u) && 0 <= k < 512 && m0.level_of(u) > target && raw_table(m0.entry(u, k))
                    implies mem.entry(u, k) == m0.entry(u, k) by {
                assert(mb.has(u));
                assert(mb.entry(u, k) == m0.entry(u, k));
            }
            lemma_reach_frame(&mb, &*mem, root, vpn, top, target as int);
            lemma_walk_via(&*mem, root, vpn, top, target as int, target as int);
            if self.cut_off(&m0, vpn, target as int) {
                assert(changed);
                assert(old_raw == INVALID_PTE);
            }
            if reach(&m0, root, vpn, top, target as int) is None {
                assert(changed);
            }
            if distinct_links(&m0) {
                lemma_links_write(&mb, &*mem, t as int, index as int, pack_spec(new_pte));
            }
        }
        Ok(PTE::unpack(old_raw, target))
    }
}

impl PageTable {
    /// Create a new mapping, and return the entry it replaced: the invalid
    /// entry of a new table where the way down was cut off by an invalid
    /// entry, the part that covers `vpn` of a superpage that was split on
    /// the way, and the old entry where the way down reached the entry's
    /// level.
    pub fn map(&self, mem: &mut PtMem, pmm: &mut Pmm, vpn: VPN, new_pte: PTE) -> (r: EResult<PTE>)
        requires
            self.wf(&*old(mem)),
            old(pmm).wf(),
            old(mem).linked(&*old(pmm)),
            new_pte.level < self.depth(),
            new_pte.level == 0 || !(new_pte.valid && new_pte.flags & prot::RWX == 0),
        ensures
            self.wf(&*final(mem)),
            final(pmm).wf(),
            final(mem).linked(&*final(pmm)),
            final(pmm).pages().dom_start() == old(pmm).pages().dom_start(),
            final(pmm).pages().dom_end() == old(pmm).pages().dom_end(),
            path_frame(&*old(mem), &*final(mem), vpn),
            tables_kept(&*old(mem), &*final(mem), new_pte.level as int),
            path_changes(&*old(mem), &*final(mem), self.root(), vpn, self.depth() - 1, new_pte.level as int),
            distinct_links(&*old(mem)) ==> distinct_links(&*final(mem)),
            match r {
                Ok(p) => if new_pte.ppn == 0 && new_pte.flags == 0 && !new_pte.valid && self.cut_off(
                    &*old(mem),
                    vpn,
                    new_pte.level as int,
                ) {
                    p == null_pte() && *final(mem) == *old(mem) && *final(pmm) == *old(pmm)
                } else {
                    &&& self.lookup(&*final(mem), vpn, new_pte.level as int) == unpack_spec(
                        pack_spec(new_pte),
                        new_pte.level,
                    )
                    &&& reach(&*old(mem), self.root(), vpn, self.depth() - 1, new_pte.level as int) is Some ==> p
                        == self.lookup(&*old(mem), vpn, new_pte.level as int) && *final(pmm) == *old(pmm)
                    &&& self.cut_off(&*old(mem), vpn, new_pte.level as int) ==> p == unpack_spec(
                        INVALID_PTE,
                        new_pte.level,
                    )
                    &&& reach(&*final(mem), self.root(), vpn, self.depth() - 1, new_pte.level as int) is Some
                    &&& reach(&*old(mem), self.root(), vpn, self.depth() - 1, new_pte.level as int) is None
                        && self.lookup(&*old(mem), vpn, new_pte.level as int).valid ==> p == split_walk(
                        self.lookup(&*old(mem), vpn, new_pte.level as int),
                        vpn,
                        self.lookup(&*old(mem), vpn, new_pte.level as int).level as int,
                        new_pte.level as int,
                    )
                },
                Err(e) => e == Errno::ENOMEM && !final(pmm).pages().has_free_block(0),
            },
            reach(&*old(mem), self.root(), vpn, self.depth() - 1, new_pte.level as int) is Some ==> r is Ok,
    {
        self.map_impl(mem, pmm, vpn, new_pte)
    }

    /// Remove an existing mapping: the entry at `level` for `vpn` becomes
    /// invalid, and the one it replaced is returned.
    pub fn unmap(&self, mem: &mut PtMem, pmm: &mut Pmm, vpn: VPN, level: u8) -> (r: EResult<PTE>)
        requires
            self.wf(&*old(mem)),
            old(pmm).wf(),
            old(mem).linked(&*old(pmm)),
            level < self.depth(),
        ensures
            self.wf(&*final(mem)),
            final(pmm).wf(),
            final(mem).linked(&*final(pmm)),
            final(pmm).pages().dom_start() == old(pmm).pages().dom_start(),
            final(pmm).pages().dom_end() == old(pmm).pages().dom_end(),
            path_frame(&*old(mem), &*final(mem), vpn),
            tables_kept(&*old(mem), &*final(mem), level as int),
            path_changes(&*old(mem), &*final(mem), self.root(), vpn, self.depth() - 1, level as int),
            invalid_kept(&*old(mem), &*final(mem), level as int),
            distinct_links(&*old(mem)) ==> distinct_links(&*final(mem)),
            r is Ok ==> final(mem).wf() && forall|u: int, k: int|
                #![trigger old(mem).has(u), final(mem).entry(u, k)]
                old(mem).has(u) && 0 <= k < 512 && final(mem).entry(u, k) != old(mem).entry(u, k) && old(mem).level_of(u)
                    == level ==> !raw_valid(final(mem).entry(u, k)),
            match r {
                Ok(p) => {
                    &&& !self.lookup(&*final(mem), vpn, level as int).valid
                    &&& self.cut_off(&*old(mem), vpn, level as int) ==> p == null_pte() && *final(mem) == *old(mem)
                        && *final(pmm) == *old(pmm)
                    &&& reach(&*old(mem), self.root(), vpn, self.depth() - 1, level as int) is Some ==> p == self.lookup(
                        &*old(mem),
                        vpn,
                        level as int,
                    ) && *final(pmm) == *old(pmm)
                    &&& reach(&*old(mem), self.root(), vpn, self.depth() - 1, level as int) is Some ==> reach(
                        &*final(mem),
                        self.root(),
                        vpn,
                        self.depth() - 1,
                        level as int,
                    ) is Some
                },
                Err(e) => e == Errno::ENOMEM && !final(pmm).pages().has_free_block(0),
            },
            reach(&*old(mem), self.root(), vpn, self.depth() - 1, level as int) is Some ==> r is Ok,
            self.cut_off(&*old(mem), vpn, level as int) ==> r is Ok,
    {
        let null = PTE { ppn: 0, flags: 0, level, valid: false, leaf: false };
        proof {
            lemma_pack_bits(null);
        }
        let ghost m0 = *mem;
        let r = self.map_impl(mem, pmm, vpn, null);
        proof {
            if r is Ok && !self.cut_off(&m0, vpn, level as int) {
                assert forall|u: int, k: int|
                    #![trigger m0.has(u), mem.entry(u, k)]
                    m0.has(u) && 0 <= k < 512 && mem.entry(u, k) != m0.entry(u, k) && m0.level_of(u) == level
                        implies !raw_valid(mem.entry(u, k)) by {
                    assert(reach(&*mem, self.root(), vpn, self.depth() - 1, level as int) == Some(u));
                    lemma_walk_via(&*mem, self.root(), vpn, self.depth() - 1, level as int, level as int);
                }
            }
        }
        r
    }

    /// Change the protection flags of the leaf for `vpn` at `level`. Fails,
    /// changing nothing and returning what a walk finds there, if there is
    /// not a protectable PTE present at the correct location.
    pub fn protect(&self, mem: &mut PtMem, vpn: VPN, level: u8, prot: u32) -> (r: Result<PTE, PTE>)
        requires
            self.wf(&*old(mem)),
            level < self.depth(),
            prot & prot::R != 0,
            prot & !prot::RWX == 0,
        ensures
            self.wf(&*final(mem)),
            path_frame(&*old(mem), &*final(mem), vpn),
            ({
                let q = self.lookup(&*old(mem), vpn, level as int);
                let found = reach(&*old(mem), self.root(), vpn, self.depth() - 1, level as int) is Some && q.valid
                    && q.leaf;
                &&& r is Ok <==> found
                &&& r matches Ok(p) ==> p == PTE { flags: (q.flags & !prot::RWX) | prot, ..q }
                    && self.lookup(&*final(mem), vpn, level as int) == unpack_spec(pack_spec(p), level)
                &&& r matches Err(p) ==> p == q && *final(mem) == *old(mem)
            }),
    {
        let ghost m0 = *mem;
        let ghost top = self.depth() - 1;
        let ghost root = self.root();
        let mut t = self.root_ppn;
        let mut lvl: u8 = self.levels - 1;
        proof {
            assert(reach(&*mem, root, vpn, top, top) == Some(root));
        }
        while lvl > level
            invariant
                self.wf(&*mem),
                *mem == m0,
                top == self.depth() - 1,
                root == self.root(),
                level <= lvl <= top,
                lvl < 5,
                mem.has(t as int),
                mem.level_of(t as int) == lvl,
                reach(&*mem, root, vpn, top, lvl as int) == Some(t as int),
            decreases lvl,
        {
            let index = get_vpn_index(vpn, lvl);
            let raw = mem.read(t, index);
            let pte = PTE::unpack(raw, lvl);
            proof {
                lemma_unpack_bits(raw, lvl);
                assert(mem.child_ok(raw, lvl as int));
            }
            if !pte.valid || pte.leaf {
                proof {
                    assert(reach(&*mem, root, vpn, top, lvl - 1) is None);
                    lemma_reach_none(&*mem, root, vpn, top, lvl - 1, level as int);
                    lemma_walk_via(&*mem, root, vpn, top, lvl as int, level as int);
                }
                return Err(pte);
            }
            proof {
                assert(reach(&*mem, root, vpn, top, lvl - 1) == Some(raw_ppn(raw)));
            }
            t = pte.ppn;
            lvl = lvl - 1;
        }
        let index = get_vpn_index(vpn, level);
        let raw = mem.read(t, index);
        let mut pte = PTE::unpack(raw, level);
        proof {
            lemma_walk_via(&*mem, root, vpn, top, level as int, level as int);
        }
        if !pte.valid || !pte.leaf {
            return Err(pte);
        }
        let of = pte.flags;
        let nf = (of & !prot::RWX) | prot;
        pte.flags = nf;
        proof {
            lemma_pack_bits(pte);
            assert(nf & 0xe != 0) by (bit_vector)
                requires
                    nf == (of & !0xeu32) | prot,
                    prot & 0x2 != 0,
            ;
        }
        let ghost mb = *mem;
        let _ = mem.write(t, index, pte.pack());
        proof {
            lemma_reach_frame(&mb, &*mem, root, vpn, top, level as int);
            lemma_walk_via(&*mem, root, vpn, top, level as int, level as int);
        }
        Ok(pte)
    }

    /// Fill the upper half of the root with tables of the next level, all
    /// empty. Used to construct the kernel page table.
    pub fn populate_higher_half(&mut self, mem: &mut PtMem, pmm: &mut Pmm) -> (r: EResult<()>)
        requires
            old(self).wf(&*old(mem)),
            old(pmm).wf(),
            old(mem).linked(&*old(pmm)),
        ensures
            *final(self) == *old(self),
            final(self).wf(&*final(mem)),
            final(pmm).wf(),
            final(mem).linked(&*final(pmm)),
            final(pmm).pages().dom_start() == old(pmm).pages().dom_start(),
            final(pmm).pages().dom_end() == old(pmm).pages().dom_end(),
            forall|u: int|
                #![trigger old(mem).has(u)]
                old(mem).has(u) && u != old(self).root() ==> final(mem).has(u) && final(mem).level_of(u) == old(
                    mem,
                ).level_of(u) && forall|k: int| 0 <= k < 512 ==> #[trigger] final(mem).entry(u, k) == old(mem).entry(u, k),
            forall|k: int| 0 <= k < 256 ==> #[trigger] final(mem).entry(old(self).root(), k) == old(mem).entry(old(self).root(), k),
            r is Ok ==> forall|k: int|
                256 <= k < 512 ==> {
                    let e = #[trigger] final(mem).entry(old(self).root(), k);
                    &&& raw_table(e)
                    &&& !old(mem).has(raw_ppn(e))
                    &&& forall|j: int| 0 <= j < 512 ==> #[trigger] final(mem).entry(raw_ppn(e), j) == INVALID_PTE
                },
            r matches Err(e) ==> e == Errno::ENOMEM,
    {
        let ghost m0 = *mem;
        let ghost root = self.root();
        let mut i: usize = 256;
        while i < 512
            invariant
                self.wf(&*mem),
                *self == *old(self),
                root == self.root(),
                m0 == *old(mem),
                pmm.wf(),
                mem.linked(&*pmm),
                pmm.pages().dom_start() == old(pmm).pages().dom_start(),
                pmm.pages().dom_end() == old(pmm).pages().dom_end(),
                256 <= i <= 512,
                forall|u: int|
                    #![trigger m0.has(u)]
                    m0.has(u) ==> mem.has(u) && mem.level_of(u) == m0.level_of(u),
                forall|u: int|
                    #![trigger m0.has(u)]
                    m0.has(u) && u != root ==> forall|k: int| 0 <= k < 512 ==> #[trigger] mem.entry(u, k) == m0.entry(u, k),
                forall|k: int| 0 <= k < 256 ==> #[trigger] mem.entry(root, k) == m0.entry(root, k),
                forall|k: int|
                    256 <= k < i ==> {
                        let e = #[trigger] mem.entry(root, k);
                        &&& raw_table(e)
                        &&& !m0.has(raw_ppn(e))
                        &&& forall|j: int| 0 <= j < 512 ==> #[trigger] mem.entry(raw_ppn(e), j) == INVALID_PTE
                    },
            decreases 512 - i,
        {
            let ghost ma = *mem;
            let page = mem.alloc_table(pmm, self.levels - 2)?;
            let ghost mb = *mem;
            let pte = PTE { ppn: page, flags: 0, level: self.levels - 1, valid: true, leaf: false };
            proof {
                lemma_pack_bits(pte);
                assert(mb.has(page as int));
                assert(mb.has(root));
                assert(0u32 & 0xe == 0) by (bit_vector);
            }
            let _ = mem.write(self.root_ppn, i, pte.pack());
            proof {
                assert forall|u: int| #![trigger m0.has(u)] m0.has(u) implies mem.has(u) && mem.level_of(u) == m0.level_of(u) by {
                    assert(ma.has(u));
                    assert(mb.has(u));
                }
                assert forall|u: int| #![trigger m0.has(u)] m0.has(u) && u != root implies forall|k: int|
                    0 <= k < 512 ==> #[trigger] mem.entry(u, k) == m0.entry(u, k) by {
                    assert(ma.has(u));
                    assert(mb.has(u));
                    assert forall|k: int| 0 <= k < 512 implies #[trigger] mem.entry(u, k) == m0.entry(u, k) by {
                        assert(ma.entry(u, k) == m0.entry(u, k));
                        assert(mb.entry(u, k) == ma.entry(u, k));
                    }
                }
                assert forall|k: int| 0 <= k < 256 implies #[trigger] mem.entry(root, k) == m0.entry(root, k) by {
                    assert(ma.entry(root, k) == m0.entry(root, k));
                    assert(mb.entry(root, k) == ma.entry(root, k));
                }
                assert forall|k: int| 256 <= k < i + 1 implies {
                    let e = #[trigger] mem.entry(root, k);
                    &&& raw_table(e)
                    &&& !m0.has(raw_ppn(e))
                    &&& forall|j: int| 0 <= j < 512 ==> #[trigger] mem.entry(raw_ppn(e), j) == INVALID_PTE
                } by {
                    if k < i {
                        let e = ma.entry(root, k);
                        assert(mb.entry(root, k) == e);
                        assert(ma.child_ok(ma.entry(root, k), ma.level_of(root)));
                        assert(ma.has(raw_ppn(e)));
                        assert(mb.has(raw_ppn(e)));
                        assert(raw_ppn(e) != root);
                        assert forall|j: int| 0 <= j < 512 implies #[trigger] mem.entry(raw_ppn(e), j) == INVALID_PTE by {
                            assert(ma.entry(raw_ppn(e), j) == INVALID_PTE);
                            assert(mb.entry(raw_ppn(e), j) == INVALID_PTE);
                        }
                    } else {
                        assert(!m0.has(page as int));
                        assert forall|j: int| 0 <= j < 512 implies #[trigger] mem.entry(page as int, j) == INVALID_PTE by {
                            assert(mb.entry(page as int, j) == INVALID_PTE);
                        }
                    }
                }
            }
            i = i + 1;
        }
        Ok(())
    }

    /// Copy the upper half of the root from `kernel_pt`, assumed to be the
    /// kernel page table, so that both map the higher half alike.
    pub fn copy_higher_half(&mut self, mem: &mut PtMem, kernel_pt: &PageTable)
        requires
            old(self).wf(&*old(mem)),
            kernel_pt.wf(&*old(mem)),
            kernel_pt.depth() == old(self).depth(),
        ensures
            *final(self) == *old(self),
            final(self).wf(&*final(mem)),
            kernel_pt.wf(&*final(mem)),
            forall|u: int| #[trigger] final(mem).has(u) == old(mem).has(u),
            forall|u: int| old(mem).has(u) ==> #[trigger] final(mem).level_of(u) == old(mem).level_of(u),
            forall|u: int, k: int|
                old(mem).has(u) && 0 <= k < 512 ==> #[trigger] final(mem).entry(u, k) == (if u == old(self).root() && 256 <= k {
                    old(mem).entry(kernel_pt.root(), k)
                } else {
                    old(mem).entry(u, k)
                }),
    {
        let ghost m0 = *mem;
        let ghost root = self.root();
        let mut i: usize = 256;
        while i < 512
            invariant
                self.wf(&*mem),
                kernel_pt.wf(&*mem),
                *self == *old(self),
                root == self.root(),
                m0 == *old(mem),
                kernel_pt.wf(&m0),
                kernel_pt.depth() == self.depth(),
                256 <= i <= 512,
                forall|u: int| #[trigger] mem.has(u) == m0.has(u),
                forall|u: int| m0.has(u) ==> #[trigger] mem.level_of(u) == m0.level_of(u),
                forall|u: int, k: int|
                    m0.has(u) && 0 <= k < 512 ==> #[trigger] mem.entry(u, k) == (if u == root && 256 <= k < i {
                        m0.entry(kernel_pt.root(), k)
                    } else {
                        m0.entry(u, k)
                    }),
            decreases 512 - i,
        {
            let raw = mem.read(kernel_pt.root_ppn, i);
            proof {
                if kernel_pt.root() == root {
                    assert(raw == m0.entry(kernel_pt.root(), i as int));
                }
                assert(raw == m0.entry(kernel_pt.root(), i as int));
                assert(m0.child_ok(raw, m0.level_of(kernel_pt.root())));
            }
            let _ = mem.write(self.root_ppn, i, raw);
            i = i + 1;
        }
    }
}

/// Every entry of a table of `m0` above `level` that points to a table is
/// the same in `m1`.
pub open spec fn tables_kept(m0: &PtMem, m1: &PtMem, level: int) -> bool {
    forall|u: int, k: int|
        #![trigger m0.has(u), m1.entry(u, k)]
        m0.has(u) && 0 <= k < 512 && m0.level_of(u) > level && raw_table(m0.entry(u, k)) ==> m1.entry(u, k)
            == m0.entry(u, k)
}

/// Every table of `m0` is in `m1` at the same level, with the same entries
/// except, maybe, the one that decodes `vpn` at that level.
pub open spec fn path_frame(m0: &PtMem, m1: &PtMem, vpn: VPN) -> bool {
    forall|u: int|
        #![trigger m0.has(u)]
        m0.has(u) ==> m1.has(u) && m1.level_of(u) == m0.level_of(u) && forall|k: int|
            0 <= k < 512 && k != vpn_index(vpn, m0.level_of(u) as u8) ==> #[trigger] m1.entry(u, k) == m0.entry(u, k)
}

/// Two page tables of the same depth whose roots hold the same upper half
/// map every page of the higher half alike: after `copy_higher_half`, a
/// page table sees the kernel's higher-half mappings.
pub proof fn lemma_shared_higher_half(pt: &PageTable, kernel_pt: &PageTable, mem: &PtMem, vpn: VPN, min_level: int)
    requires
        pt.wf(mem),
        kernel_pt.wf(mem),
        pt.depth() == kernel_pt.depth(),
        0 <= min_level < pt.depth(),
        vpn_index(vpn, (pt.depth() - 1) as u8) >= 256,
        forall|k: int| 256 <= k < 512 ==> #[trigger] mem.entry(pt.root(), k) == mem.entry(kernel_pt.root(), k),
    ensures
        pt.lookup(mem, vpn, min_level) == kernel_pt.lookup(mem, vpn, min_level),
{
    let k = vpn_index(vpn, (pt.depth() - 1) as u8) as int;
    assert(mem.entry(pt.root(), k) == mem.entry(kernel_pt.root(), k));
}

/// A walk that finds nothing mapped still finds nothing where the entries
/// that point to tables and the invalid ones above level 0 are kept, and
/// every entry at level 0 that changed is invalid.
pub proof fn lemma_invalid_walk(m1: &PtMem, m2: &PtMem, t: int, vpn: VPN, level: int)
    requires
        m1.wf(),
        m1.has(t),
        m1.level_of(t) == level,
        !walk_spec(m1, t, vpn, level, 0).valid,
        tables_kept(m1, m2, 0),
        invalid_kept(m1, m2, 0),
        forall|u: int, k: int|
            #![trigger m1.has(u), m2.entry(u, k)]
            m1.has(u) && 0 <= k < 512 && m2.entry(u, k) != m1.entry(u, k) && m1.level_of(u) == 0 ==> !raw_valid(
                m2.entry(u, k),
            ),
    ensures
        !walk_spec(m2, t, vpn, level, 0).valid,
    decreases level,
{
    m1.lemma_has(t);
    let k = vpn_index(vpn, level as u8) as int;
    let raw1 = m1.entry(t, k);
    lemma_unpack_bits(raw1, level as u8);
    lemma_unpack_bits(m2.entry(t, k), level as u8);
    if level > 0 {
        if raw_table(raw1) {
            assert(m2.entry(t, k) == raw1);
            assert(m1.child_ok(raw1, level));
            lemma_invalid_walk(m1, m2, raw_ppn(raw1), vpn, level - 1);
        } else {
            assert(m2.entry(t, k) == raw1);
        }
    }
}

} // verus!
