//! Process memory maps: a page table and the mappings that it implements.

use vstd::prelude::*;

use core::ops::Range;

use crate::errno::{EResult, Errno};
use crate::kernel_mm::KernelMemmap;
use crate::pagetable::{PageTable, PtMem, VPN};
use crate::pmm::{Pmm, RawMemory};

verus! {

/// Private mapping; copy-on-write.
pub const PRIVATE: u32 = 0x1;
/// Shared mapping; directly accesses the page cache OR not coverted to copy-on-write upon fork.
pub const SHARED: u32 = 0x2;

/// Kind of memory access.
#[derive(Clone, Copy, Debug, PartialEq, Eq, Structural)]
pub enum AccessType {
    /// Read-only access.
    Read,
    /// Read-write access.
    Write,
    /// Read-execute access.
    Exec,
}

/// An object that can be mapped into memory.
pub trait Pager {
    /// Try to acquire a load of the backing object.
    /// The resulting page may be written to by userland if the matching [`Mapping`] is writable.
    fn load(&self, pmm: &mut Pmm, offset: VPN) -> EResult<RawMemory>;
}

/// A single mapping.
pub struct Mapping<P: Pager> {
    /// Virtual page range that this is mapped into.
    range: Range<VPN>,
    /// Protection flags requested by userspace.
    prot: u32,
    /// Mapping flags requested by userspace.
    map: u32,
    /// Handle to the backing object.
    pager: P,
}

impl<P: Pager> Mapping<P> {
    /// A mapping of `pager` at `range`.
    pub fn new(range: Range<VPN>, prot: u32, map: u32, pager: P) -> (r: Self)
        ensures
            r.pages() == range,
    {
        Mapping { range, prot, map, pager }
    }

    /// The pages mapped.
    pub closed spec fn pages(&self) -> Range<VPN> {
        self.range
    }

    /// Handle a page fault; implementation of CoW, demand-paging, etc.
    /// Returns whether the access should be retried: no fault is handled
    /// yet, so never.
    pub fn page_fault(&self, pmap: &PageTable, vma: VPN, request: AccessType) -> (r: bool)
        ensures
            !r,
    {
        false
    }
}

/// A process' memory map.
pub struct Memmap<P: Pager> {
    /// Page tables that implement the memory mappings.
    pmap: PageTable,
    /// Authoritative set of memory mappings.
    map: Vec<Mapping<P>>,
}

impl<P: Pager> Memmap<P> {
    /// The page table.
    pub closed spec fn table(&self) -> PageTable {
        self.pmap
    }

    /// The mappings.
    pub closed spec fn mappings(&self) -> Seq<Mapping<P>> {
        self.map@
    }

    /// Create a new, blank, memory map, whose page table shares the
    /// kernel's higher half.
    pub fn new(mem: &mut PtMem, pmm: &mut Pmm, kernel: &KernelMemmap) -> (r: EResult<Self>)
        requires
            old(mem).wf(),
            old(pmm).wf(),
            old(mem).linked(&*old(pmm)),
            kernel.wf(&*old(mem)),
        ensures
            final(mem).wf(),
            final(pmm).wf(),
            final(mem).linked(&*final(pmm)),
            kernel.wf(&*final(mem)),
            match r {
                Ok(m) => {
                    &&& m.table().wf(&*final(mem))
                    &&& m.table().depth() == kernel.table().depth()
                    &&& m.mappings().len() == 0
                    &&& forall|k: int| 256 <= k < 512 ==> #[trigger] final(mem).entry(m.table().root(), k) == final(mem).entry(
                        kernel.table().root(),
                        k,
                    )
                },
                Err(e) => e == Errno::ENOMEM && !old(pmm).pages().has_free_block(0),
            },
    {
        let kpt = kernel.page_table();
        let ghost m0 = *mem;
        let mut pmap = PageTable::new(mem, pmm, kpt.levels())?;
        proof {
            assert(m0.has(kpt.root()));
        }
        pmap.copy_higher_half(mem, kpt);
        proof {
            assert(pmap.root() != kpt.root());
            assert forall|k: int| 256 <= k < 512 implies #[trigger] mem.entry(pmap.root(), k) == mem.entry(kpt.root(), k) by {}
        }
        Ok(Memmap { pmap, map: Vec::new() })
    }

    /// Handle a page fault; implementation of CoW, demand-paging, etc.
    /// Returns whether the access should be retried: the mapping that
    /// holds `vma` decides, and without one the fault is not handled.
    pub fn page_fault(&self, vma: VPN, request: AccessType) -> (r: bool)
        ensures
            !r,
    {
        let mut i: usize = 0;
        while i < self.map.len()
            invariant
                i <= self.map@.len(),
            decreases self.map@.len() - i,
        {
            let m = &self.map[i];
            if m.range.start <= vma && vma < m.range.end {
                return m.page_fault(&self.pmap, vma, request);
            }
            i = i + 1;
        }
        false
    }
}

} // verus!
