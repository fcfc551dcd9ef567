use positron::boot::{
    pmm_from_memmap, BootMemError, MemmapEntry, MEMMAP_BOOTLOADER_RECLAIMABLE, MEMMAP_RESERVED,
    MEMMAP_USABLE,
};
use positron::heap::{heap_order, Heap};
use positron::kernel_mm::{
    init_kernel_memmap, KernelImage, KernelMemmap, Segment, VmaAlloc, VmmInitError, VpnRange,
};
use positron::pagetable::{
    calc_superpage, get_vpn_index, PageTable, PtMem, INVALID_PTE, PTE,
};
use positron::pmm::{
    self, free_memory, init_checked, kernel_memory, mark_usable_checked, page_meta, total_memory,
    user_memory, PageUsage, Pmm, RawMemory,
};
use positron::prot;
use positron::slabs::{Slab, Slabs};
use positron::errno::Errno;

/// 64 MiB of RAM at 2 GiB, all of it one early region.
fn fresh_pmm() -> Pmm {
    init_checked(0x8000_0000..0x8400_0000, 0x8000_0000..0x8400_0000).unwrap()
}

#[test]
fn pmm_init_counts_pages() {
    let pmm = fresh_pmm();
    // 16384 pages, of which 32 hold the page metadata.
    assert_eq!(total_memory(&pmm), 0x400_0000);
    assert_eq!(free_memory(&pmm), (16384 - 32) * 4096);
    assert_eq!(kernel_memory(&pmm), 0);
    assert_eq!(user_memory(&pmm), 0);
    assert_eq!(page_meta(&pmm, 0x80000).usage, PageUsage::Reserved);
    assert_eq!(page_meta(&pmm, 0x80020).usage, PageUsage::Free);
}

#[test]
fn pmm_init_refuses_too_much_metadata() {
    // The metadata of a whole 4 GiB does not fit a region that starts near the top.
    assert!(init_checked(usize::MAX - 10..usize::MAX, 0..0x1_0000_0000).is_none());
}

#[test]
fn pmm_allocate_and_deallocate() {
    let mut pmm = fresh_pmm();
    let free0 = free_memory(&pmm);
    let ppn = pmm::allocate(&mut pmm, 2, PageUsage::KernelAnon).unwrap();
    assert_eq!(ppn % 4, 0);
    assert_eq!(free_memory(&pmm), free0 - 4 * 4096);
    assert_eq!(kernel_memory(&pmm), 4 * 4096);
    let m = page_meta(&pmm, ppn + 3);
    assert_eq!(m.usage, PageUsage::KernelAnon);
    assert_eq!(m.buddy_order, 2);
    let uppn = pmm::allocate(&mut pmm, 0, PageUsage::UserAnon).unwrap();
    assert_eq!(user_memory(&pmm), 4096);
    pmm::deallocate(&mut pmm, ppn, 2);
    pmm::deallocate(&mut pmm, uppn, 0);
    assert_eq!(free_memory(&pmm), free0);
    assert_eq!(kernel_memory(&pmm), 0);
    assert_eq!(user_memory(&pmm), 0);
    assert_eq!(total_memory(&pmm), 0x400_0000);
}

#[test]
fn pmm_split_leftovers_are_free_blocks() {
    let mut pmm = fresh_pmm();
    // The smallest free block is the 32 pages after the metadata.
    let ppn = pmm::allocate(&mut pmm, 0, PageUsage::KernelAnon).unwrap();
    assert_eq!(ppn, 0x80020);
    for k in 0..5u8 {
        let m = page_meta(&pmm, ppn + (1usize << k));
        assert_eq!(m.usage, PageUsage::Free);
        assert_eq!(m.buddy_order, k);
    }
    // The leftovers can be handed out again whole.
    assert_eq!(pmm::allocate(&mut pmm, 4, PageUsage::KernelAnon), Ok(0x80030));
}

#[test]
fn pmm_allocate_too_large_fails() {
    let mut pmm = fresh_pmm();
    assert!(pmm::allocate(&mut pmm, 20, PageUsage::KernelAnon).is_err());
    assert!(pmm::allocate(&mut pmm, 40, PageUsage::KernelAnon).is_err());
}

#[test]
fn pmm_blocks_do_not_overlap() {
    let mut pmm = fresh_pmm();
    let a = pmm::allocate(&mut pmm, 1, PageUsage::KernelHeap).unwrap();
    let b = pmm::allocate(&mut pmm, 1, PageUsage::KernelHeap).unwrap();
    assert!(a + 2 <= b || b + 2 <= a);
}

#[test]
fn pmm_mark_usable_checked() {
    let mut pmm = fresh_pmm();
    let free0 = free_memory(&pmm);
    // The metadata pages are reserved: marking them usable works once.
    assert!(mark_usable_checked(&mut pmm, 0x8000_0000..0x8000_2000));
    assert_eq!(free_memory(&pmm), free0 + 2 * 4096);
    assert!(!mark_usable_checked(&mut pmm, 0x8000_0000..0x8000_2000));
    // Pages outside the RAM are refused.
    assert!(!mark_usable_checked(&mut pmm, 0x1000..0x2000));
    assert_eq!(total_memory(&pmm), 0x400_0000);
}

#[test]
fn raw_memory_refcount() {
    let mut pmm = fresh_pmm();
    let free0 = free_memory(&pmm);
    let mem = RawMemory::new(&mut pmm, 0, PageUsage::UserCache).unwrap();
    let ppn = mem.ppn();
    assert_eq!(page_meta(&pmm, ppn).refcount, 1);
    assert_eq!(user_memory(&pmm), 4096);
    let other = mem.clone_ref(&mut pmm);
    assert_eq!(page_meta(&pmm, ppn).refcount, 2);
    mem.release(&mut pmm);
    assert_eq!(free_memory(&pmm), free0 - 4096);
    other.release(&mut pmm);
    assert_eq!(free_memory(&pmm), free0);
    assert_eq!(user_memory(&pmm), 0);
    assert_eq!(RawMemory::from_raw(7).hhdm_ptr(0xffff_8000_0000_0000), 0xffff_8000_0000_7000);
}

#[test]
fn vma_alloc_first_fit_with_padding() {
    let mut vma = VmaAlloc::new(VpnRange { start: 100, end: 200 }).unwrap();
    assert_eq!(vma._free_page_count(), 100);
    assert_eq!(vma.alloc_pages(10), Ok(116));
    assert_eq!(vma._free_page_count(), 58);
    assert_eq!(vma.alloc_pages(0), Err(Errno::EINVAL));
    assert_eq!(vma.alloc_pages(1000), Err(Errno::ENOMEM));
    vma.free(VpnRange { start: 100, end: 142 });
    assert_eq!(vma._free_page_count(), 100);
    vma.steal(VpnRange { start: 150, end: 160 });
    assert_eq!(vma._free_page_count(), 90);
    // Freeing outside the bounds is ignored.
    vma.free(VpnRange { start: 0, end: 50 });
    assert_eq!(vma._free_page_count(), 90);
}

#[test]
fn pte_pack_unpack_round_trip() {
    let pte = PTE { ppn: 0x12345, flags: prot::RW | prot::G | prot::A | prot::D, level: 1, valid: true, leaf: true };
    let raw = pte.pack();
    assert_eq!(raw, (0x12345 << 10) | 0xe7);
    let back = PTE::unpack(raw, 1);
    assert_eq!(back.ppn, 0x12345);
    assert_eq!(back.flags, pte.flags);
    assert!(back.valid && back.leaf);
    assert!(back == pte);
    let io = PTE { ppn: 1, flags: prot::R | prot::IO, level: 0, valid: true, leaf: true };
    assert_eq!(io.pack(), (1 << 10) | 0x3 | (1 << 62));
    assert_eq!(PTE::unpack(io.pack(), 0).flags, prot::R | prot::IO);
    assert!(PTE::null().is_null());
    assert!(!PTE::unpack(INVALID_PTE, 0).valid);
}

#[test]
fn vpn_index_and_superpage() {
    assert_eq!(get_vpn_index(0x1ff, 0), 0x1ff);
    assert_eq!(get_vpn_index(0x3_fe00, 1), 0x1ff);
    assert_eq!(get_vpn_index(0x400_0000 + 0x200, 1), 1);
    assert_eq!(get_vpn_index(0x8000_0000, 2), 0);
    // A 2 MiB-aligned mapping of 1024 pages can use level-1 superpages.
    assert_eq!(calc_superpage(0x200, 0x400, 1024, 3), 1);
    // Misaligned physical pages force 4 KiB pages.
    assert_eq!(calc_superpage(0x200, 0x401, 1024, 3), 0);
    // Too small a size forces 4 KiB pages.
    assert_eq!(calc_superpage(0x40000, 0x40000, 100, 3), 0);
    assert_eq!(calc_superpage(0, 0, 1 << 18, 3), 2);
    // Capped at the top level of the table.
    assert_eq!(calc_superpage(0, 0, 1 << 27, 3), 2);
    assert_eq!(calc_superpage(0, 0, 1 << 27, 4), 3);
    assert_eq!(calc_superpage(512, 1024, 512, 3), 1);
    assert_eq!(calc_superpage(512, 1024, 511, 3), 0);
}

#[test]
fn page_table_map_walk_unmap() {
    let mut pmm = fresh_pmm();
    let mut mem = PtMem::new();
    let pt = PageTable::new(&mut mem, &mut pmm, 3).unwrap();
    assert_eq!(pt.levels(), 3);
    assert!(!pt.walk(&mem, 0x1234).valid);
    let kernel0 = kernel_memory(&pmm);
    let pte = PTE { ppn: 0x80100, flags: prot::RW | prot::A | prot::D, level: 0, valid: true, leaf: true };
    let old = pt.map(&mut mem, &mut pmm, 0x1234, pte).unwrap();
    assert!(!old.valid);
    assert_eq!((old.ppn, old.flags, old.level), (0, 0, 0));
    // Two new tables were made on the way down.
    assert_eq!(kernel_memory(&pmm), kernel0 + 2 * 4096);
    let got = pt.walk(&mem, 0x1234);
    assert!(got.valid && got.leaf);
    assert_eq!(got.ppn, 0x80100);
    assert_eq!(got.level, 0);
    // A neighbour shares the tables but is not mapped.
    assert!(!pt.walk(&mem, 0x1235).valid);
    assert_eq!(pt.walk_shallow(&mem, 0x1235, 1).level, 1);
    // Remapping returns the old entry.
    let pte2 = PTE { ppn: 0x80200, ..pte };
    let old = pt.map(&mut mem, &mut pmm, 0x1234, pte2).unwrap();
    assert_eq!(old.ppn, 0x80100);
    let old = pt.unmap(&mut mem, &mut pmm, 0x1234, 0).unwrap();
    assert_eq!(old.ppn, 0x80200);
    assert!(!pt.walk(&mem, 0x1234).valid);
    // Unmapping where nothing is mapped makes no tables.
    let k1 = kernel_memory(&pmm);
    let r = pt.unmap(&mut mem, &mut pmm, 0x4000_0000, 0).unwrap();
    assert!(r.is_null());
    assert_eq!(kernel_memory(&pmm), k1);
}

#[test]
fn page_table_superpage_split() {
    let mut pmm = fresh_pmm();
    let mut mem = PtMem::new();
    let pt = PageTable::new(&mut mem, &mut pmm, 3).unwrap();
    // A 2 MiB page at level 1.
    let big = PTE { ppn: 0x80400, flags: prot::RW, level: 1, valid: true, leaf: true };
    pt.map(&mut mem, &mut pmm, 0x200, big).unwrap();
    let got = pt.walk(&mem, 0x205);
    assert_eq!(got.level, 1);
    assert_eq!(got.ppn, 0x80400);
    // Mapping one 4 KiB page inside splits it.
    let small = PTE { ppn: 0x90000, flags: prot::R, level: 0, valid: true, leaf: true };
    let old = pt.map(&mut mem, &mut pmm, 0x205, small).unwrap();
    assert_eq!(old.ppn, 0x80405);
    assert_eq!(pt.walk(&mem, 0x205).ppn, 0x90000);
    let other = pt.walk(&mem, 0x206);
    assert_eq!(other.level, 0);
    assert_eq!(other.ppn, 0x80406);
}

#[test]
fn page_table_protect() {
    let mut pmm = fresh_pmm();
    let mut mem = PtMem::new();
    let pt = PageTable::new(&mut mem, &mut pmm, 4).unwrap();
    let pte = PTE { ppn: 0x80100, flags: prot::RW | prot::A, level: 0, valid: true, leaf: true };
    pt.map(&mut mem, &mut pmm, 0x42, pte).unwrap();
    let p = pt.protect(&mut mem, 0x42, 0, prot::RX).unwrap();
    assert_eq!(p.flags, prot::RX | prot::A);
    assert_eq!(pt.walk(&mem, 0x42).flags, prot::RX | prot::A);
    // Nothing protectable where nothing is mapped.
    assert!(pt.protect(&mut mem, 0x9999_9999, 0, prot::R).is_err());
    // Nor at a level where the entry points to a table.
    assert!(pt.protect(&mut mem, 0x42, 1, prot::R).is_err());
}

#[test]
fn page_table_higher_half() {
    let mut pmm = fresh_pmm();
    let mut mem = PtMem::new();
    let mut kpt = PageTable::new(&mut mem, &mut pmm, 3).unwrap();
    kpt.populate_higher_half(&mut mem, &mut pmm).unwrap();
    let kernel_vpn: usize = 0xF_FFFF_FC00_0123;
    let pte = PTE { ppn: 0x80100, flags: prot::RW | prot::G, level: 0, valid: true, leaf: true };
    kpt.map(&mut mem, &mut pmm, kernel_vpn, pte).unwrap();
    let mut upt = PageTable::new(&mut mem, &mut pmm, 3).unwrap();
    assert!(!upt.walk(&mem, kernel_vpn).valid);
    upt.copy_higher_half(&mut mem, &kpt);
    assert_eq!(upt.walk(&mem, kernel_vpn).ppn, 0x80100);
    assert!(!upt.walk(&mem, 0x123).valid);
}

#[test]
fn kernel_memmap_maps_and_unmaps() {
    let mut pmm = fresh_pmm();
    let mut mem = PtMem::new();
    let mut k = KernelMemmap::new(&mut mem, &mut pmm, 3).unwrap();
    let v = k.map_pages(&mut mem, &mut pmm, None, 0x80100, 4, prot::RW).unwrap();
    // The allocator hands out the higher half past its first sixteenth, after padding.
    assert_eq!(v, 0xF_FFFF_FC00_0000 + 0x40_0000 + 16);
    for i in 0..4 {
        let got = k.page_table().walk(&mem, v + i);
        assert!(got.valid && got.leaf);
        assert_eq!(got.ppn, 0x80100 + i);
        assert_eq!(got.flags, prot::RW | prot::G | prot::A | prot::D);
    }
    k.unmap_pages(&mut mem, &mut pmm, v, 4).unwrap();
    for i in 0..4 {
        assert!(!k.page_table().walk(&mem, v + i).valid);
    }
    let fixed: usize = 0xF_FFFF_FE00_0000;
    assert_eq!(k.map_pages(&mut mem, &mut pmm, Some(fixed), 0x80200, 1, prot::R), Ok(fixed));
    assert_eq!(k.page_table().walk(&mem, fixed).ppn, 0x80200);
    // Byte ranges cover the whole pages that hold them.
    let vaddr = 0xFFFF_FFFF_E000_0800usize;
    let r = k.map(&mut mem, &mut pmm, Some(vaddr), 0x8030_0800, 0x1000, prot::RW).unwrap();
    assert_eq!(r, vaddr / 4096);
    assert_eq!(k.page_table().walk(&mem, vaddr / 4096 + 1).ppn, 0x80301);
    k.unmap(&mut mem, &mut pmm, vaddr, 0x1000).unwrap();
    assert!(!k.page_table().walk(&mem, vaddr / 4096).valid);
    assert!(!k.page_table().walk(&mem, vaddr / 4096 + 1).valid);
}

#[test]
fn kernel_memmap_zero_pages_is_invalid() {
    let mut pmm = fresh_pmm();
    let mut mem = PtMem::new();
    let mut k = KernelMemmap::new(&mut mem, &mut pmm, 3).unwrap();
    assert_eq!(k.map_pages(&mut mem, &mut pmm, None, 0x80100, 0, prot::R), Err(Errno::EINVAL));
}

#[test]
fn heap_order_is_least_fitting() {
    assert_eq!(heap_order(1), 0);
    assert_eq!(heap_order(4096), 0);
    assert_eq!(heap_order(4097), 1);
    assert_eq!(heap_order(8192), 1);
    assert_eq!(heap_order(8193), 2);
    assert_eq!(heap_order(5 * 4096), 3);
    assert_eq!(heap_order(1 << 30), 18);
}

#[test]
fn slabs_allocate_and_free() {
    let mut pmm = fresh_pmm();
    let hhdm = 0xffff_8000_0000_0000usize;
    let mut slabs = Slabs::new(hhdm);
    let a = slabs.allocate(&mut pmm, 8).unwrap();
    // Four slabs of two pages each were made for the bucket.
    assert_eq!(kernel_memory(&pmm), 4 * 2 * 4096);
    // The first object past the header and bitmap of a slab of 8-byte objects is the 19th.
    assert_eq!(a % 8192, 19 * 8);
    let b = slabs.allocate(&mut pmm, 5).unwrap();
    assert_eq!(b, a + 8);
    let c = slabs.allocate(&mut pmm, 100).unwrap();
    assert_eq!(c % 8192, 128);
    slabs.free(a);
    // The freed object is the lowest free one again.
    assert_eq!(slabs.allocate(&mut pmm, 1).unwrap(), a);
}

#[test]
fn heap_small_and_large() {
    let mut pmm = fresh_pmm();
    let hhdm = 0xffff_8000_0000_0000usize;
    let mut heap = Heap::new(hhdm);
    let small = heap.allocate(&mut pmm, 24, 8);
    assert_ne!(small, 0);
    assert_eq!(small % 32, 0);
    let free0 = free_memory(&pmm);
    let big = heap.allocate(&mut pmm, 3 * 4096, 4096);
    assert_ne!(big, 0);
    assert_eq!((big - hhdm) % (4 * 4096), 0);
    assert_eq!(free_memory(&pmm), free0 - 4 * 4096);
    heap.deallocate(&mut pmm, big);
    assert_eq!(free_memory(&pmm), free0);
    heap.deallocate(&mut pmm, small);
    // Too large a request fails with a null pointer.
    assert_eq!(heap.allocate(&mut pmm, 1 << 40, 8), 0);
}

#[test]
fn slab_free_undoes_allocate() {
    let mut pmm = fresh_pmm();
    let hhdm = 0xffff_8000_0000_0000usize;
    let mut slab = Slab::new(&mut pmm, 3, hhdm).unwrap();
    let a = slab.allocate();
    let b = slab.allocate();
    assert_eq!(b, a + 64);
    slab.free(a);
    // Taking `a` back restores the slab as it was after its first allocation.
    assert_eq!(slab.allocate(), a);
    slab.free(b);
    slab.free(a);
    assert_eq!(slab.allocate(), a);
    assert_eq!(slab.allocate(), b);
}

#[test]
fn pmm_free_undoes_allocate() {
    let mut pmm = fresh_pmm();
    let k0 = pmm::allocate(&mut pmm, 0, PageUsage::KernelHeap).unwrap();
    let (f, k, u) = (free_memory(&pmm), kernel_memory(&pmm), user_memory(&pmm));
    for order in 0..5u8 {
        let p = pmm::allocate(&mut pmm, order, PageUsage::UserCache).unwrap();
        assert_eq!(user_memory(&pmm), u + (4096usize << order));
        pmm::deallocate(&mut pmm, p, order);
        assert_eq!((free_memory(&pmm), kernel_memory(&pmm), user_memory(&pmm)), (f, k, u));
    }
    pmm::deallocate(&mut pmm, k0, 0);
    assert_eq!(kernel_memory(&pmm), 0);
}

fn region(base: u64, length: u64, type_: u64) -> MemmapEntry {
    MemmapEntry { base, length, type_ }
}

#[test]
fn pmm_taken_over_from_memmap() {
    let entries = vec![
        region(0x8000_0000, 0x400_0000, MEMMAP_USABLE),
        region(0x8400_0000, 0x10_0000, MEMMAP_RESERVED),
        region(0x8410_0000, 0x10_0000, MEMMAP_USABLE),
        region(0x8420_0000, 0x10_0000, MEMMAP_BOOTLOADER_RECLAIMABLE),
    ];
    let (plan, pmm) = pmm_from_memmap(&entries);
    assert_eq!(plan.lowest_paddr, 0x8000_0000);
    assert_eq!(plan.highest_paddr, 0x8430_0000);
    assert_eq!(plan.largest_region, Some(0));
    let pmm = pmm.unwrap();
    // 0x4300 pages of RAM; their metadata takes 34 pages at the start of the
    // largest region, the rest of it and the second usable region are free.
    assert_eq!(total_memory(&pmm), 0x4300 * 4096);
    assert_eq!(free_memory(&pmm), (0x4000 - 34 + 0x100) * 4096);
    assert_eq!(kernel_memory(&pmm), 0);
    assert_eq!(page_meta(&pmm, 0x84100).usage, PageUsage::Free);
    assert_eq!(page_meta(&pmm, 0x84200).usage, PageUsage::Reserved);
    assert_eq!(page_meta(&pmm, 0x80000).usage, PageUsage::Reserved);
}

#[test]
fn pmm_from_memmap_refusals() {
    let (_, r) = pmm_from_memmap(&vec![region(0x1000, 0x1000, MEMMAP_RESERVED)]);
    assert!(matches!(r, Err(BootMemError::NoUsableMemory)));
    let (_, r) = pmm_from_memmap(&vec![
        region(0x8000_0000, 0x400_0000, MEMMAP_USABLE),
        region(0x8010_0000, 0x1000, MEMMAP_USABLE),
    ]);
    assert!(matches!(r, Err(BootMemError::Overlap)));
    // 2^32 pages of RAM could hold two free blocks of the largest order
    // that would merge past the last free list.
    let (_, r) = pmm_from_memmap(&vec![
        region(0x1000, 0x1000, MEMMAP_USABLE),
        region(0x1000_0000_0000, 0x1000, MEMMAP_BOOTLOADER_RECLAIMABLE),
    ]);
    assert!(matches!(r, Err(BootMemError::BadLayout)));
}

#[test]
fn heap_takes_back_what_it_hands_out() {
    let mut pmm = fresh_pmm();
    let hhdm = 0xffff_8000_0000_0000usize;
    let mut heap = Heap::new(hhdm);
    // 256-byte objects: the later ones lie in the second page of their slab.
    let mut objs = Vec::new();
    for _ in 0..20 {
        let p = heap.allocate(&mut pmm, 200, 8);
        assert_ne!(p, 0);
        objs.push(p);
    }
    let high = *objs.iter().find(|&&p| p % 8192 >= 4096).unwrap();
    heap.deallocate(&mut pmm, high);
    assert_eq!(heap.allocate(&mut pmm, 256, 256), high);
    for p in objs {
        heap.deallocate(&mut pmm, p);
    }
    let big = heap.allocate(&mut pmm, 5000, 8);
    heap.deallocate(&mut pmm, big);
    assert_eq!(heap.allocate(&mut pmm, 5000, 8), big);
}

fn sv39_image() -> KernelImage {
    let base = 0xffff_ffff_8000_0000usize;
    KernelImage {
        vaddr: base,
        paddr: 0x8020_0000,
        text: Segment { start: base, end: base + 0x3000 },
        rodata: Segment { start: base + 0x3000, end: base + 0x4800 },
        data: Segment { start: base + 0x5000, end: base + 0x6000 },
    }
}

#[test]
fn kernel_memmap_set_up() {
    let mut pmm = fresh_pmm();
    let mut mem = PtMem::new();
    let k = init_kernel_memmap(&mut mem, &mut pmm, 3, 0xffff_ffc0_0000_0000, sv39_image()).unwrap();
    let pt = k.page_table();
    let hh = 0xF_FFFF_FC00_0000usize;
    let rw = prot::RW | prot::G | prot::A | prot::D;
    // All of RAM at the direct map.
    for ppn in [0x80000usize, 0x80123, 0x83fff] {
        let e = pt.walk(&mem, hh + ppn);
        assert!(e.valid && e.leaf);
        assert_eq!((e.ppn, e.flags), (ppn, rw));
    }
    assert!(!pt.walk(&mem, hh + 0x84000).valid);
    // The image's segments at their virtual addresses.
    let img = 0xF_FFFF_FFF8_0000usize;
    assert_eq!((pt.walk(&mem, img + 1).ppn, pt.walk(&mem, img + 1).flags), (0x80201, prot::RX | prot::G | prot::A | prot::D));
    assert_eq!((pt.walk(&mem, img + 4).ppn, pt.walk(&mem, img + 4).flags), (0x80204, prot::R | prot::G | prot::A | prot::D));
    assert_eq!((pt.walk(&mem, img + 5).ppn, pt.walk(&mem, img + 5).flags), (0x80205, rw));
    assert!(!pt.walk(&mem, img + 6).valid);
}

#[test]
fn kernel_memmap_set_up_refusals() {
    let mut pmm = fresh_pmm();
    let mut mem = PtMem::new();
    // A direct map at a user address.
    let r = init_kernel_memmap(&mut mem, &mut pmm, 3, 0, sv39_image());
    assert!(matches!(r, Err(VmmInitError::BadRegion)));
    // A segment below the image's base.
    let mut image = sv39_image();
    image.text.start -= 0x1000;
    let r = init_kernel_memmap(&mut mem, &mut pmm, 3, 0xffff_ffc0_0000_0000, image);
    assert!(matches!(r, Err(VmmInitError::BadRegion)));
    // Nothing was allocated for the refused set-ups.
    assert_eq!(kernel_memory(&pmm), 0);
}

#[test]
fn pmm_freed_buddies_are_joined() {
    let mut pmm = fresh_pmm();
    let a = pmm::allocate(&mut pmm, 0, PageUsage::KernelAnon).unwrap();
    let b = pmm::allocate(&mut pmm, 0, PageUsage::KernelAnon).unwrap();
    // The second page comes from the smallest free block: the buddy of the first.
    assert_eq!(b, a ^ 1);
    pmm::deallocate(&mut pmm, a, 0);
    pmm::deallocate(&mut pmm, b, 0);
    // Both were joined back into the block they were split from, so a
    // block of two pages is split from it again at the same place.
    assert_eq!(pmm::allocate(&mut pmm, 1, PageUsage::KernelAnon).unwrap(), a & !1);
    let c = pmm::allocate(&mut pmm, 1, PageUsage::KernelAnon).unwrap();
    assert_eq!(c, (a & !1) + 2);
}
