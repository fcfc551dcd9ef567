//! What the kernel makes of the bootloader's answers: the memory map it
//! hands over, and the date at boot.

use vstd::prelude::*;

use core::ops::Range;

use crate::pmm::{init_checked, init_ok, mark_usable_checked, pages_up, PageUsage, Pmm, PAGE_META_SIZE, PAGE_SIZE};

verus! {

/// Usable RAM.
pub const MEMMAP_USABLE: u64 = 0;
/// Reserved memory.
pub const MEMMAP_RESERVED: u64 = 1;
/// ACPI tables that can be reclaimed.
pub const MEMMAP_ACPI_RECLAIMABLE: u64 = 2;
/// ACPI non-volatile storage.
pub const MEMMAP_ACPI_NVS: u64 = 3;
/// Faulty memory.
pub const MEMMAP_BAD_MEMORY: u64 = 4;
/// Memory that the bootloader used and that can be reclaimed.
pub const MEMMAP_BOOTLOADER_RECLAIMABLE: u64 = 5;
/// The kernel and its modules.
pub const MEMMAP_EXECUTABLE_AND_MODULES: u64 = 6;
/// A framebuffer.
pub const MEMMAP_FRAMEBUFFER: u64 = 7;
/// Reserved memory that is mapped.
pub const MEMMAP_MAPPED_RESERVED: u64 = 8;

/// One region of the bootloader's memory map.
#[derive(Clone, Copy, Debug, PartialEq, Eq, Structural)]
pub struct MemmapEntry {
    /// Physical address of the region.
    pub base: u64,
    /// Length of the region in bytes.
    pub length: u64,
    /// What the region is, one of the `MEMMAP_` kinds.
    pub type_: u64,
}

/// Whether a region counts towards the span of RAM.
pub open spec fn counts_as_ram(e: MemmapEntry) -> bool {
    e.type_ == MEMMAP_USABLE || e.type_ == MEMMAP_BOOTLOADER_RECLAIMABLE
}

/// What the boot code makes of the memory map: the lowest start and the
/// highest end of RAM, and the largest usable region.
#[derive(Clone, Copy, Debug, PartialEq, Eq, Structural)]
pub struct MemoryPlan {
    /// Lowest address of RAM, or `usize::MAX` without any.
    pub lowest_paddr: usize,
    /// Highest end of RAM, or 0 without any.
    pub highest_paddr: usize,
    /// Index of the first of the largest usable regions.
    pub largest_region: Option<usize>,
}

/// `r` is what the boot code makes of `entries`: the lowest start and the
/// highest end of the regions that count as RAM (`usize::MAX` and 0 without
/// any), and the first of the largest usable regions.
pub open spec fn is_memory_plan(entries: Seq<MemmapEntry>, r: MemoryPlan) -> bool {
    &&& forall|i: int| 0 <= i < entries.len() && counts_as_ram(#[trigger] entries[i]) ==> r.lowest_paddr
        <= entries[i].base as usize && (entries[i].base + entries[i].length) as u64 as usize <= r.highest_paddr
    &&& r.lowest_paddr == usize::MAX || exists|i: int|
        0 <= i < entries.len() && counts_as_ram(#[trigger] entries[i]) && r.lowest_paddr == entries[i].base as usize
    &&& r.highest_paddr == 0 || exists|i: int|
        0 <= i < entries.len() && counts_as_ram(#[trigger] entries[i]) && r.highest_paddr == (entries[i].base
            + entries[i].length) as u64 as usize
    &&& match r.largest_region {
        Some(k) => {
            &&& k < entries.len()
            &&& entries[k as int].type_ == MEMMAP_USABLE
            &&& forall|j: int| 0 <= j < entries.len() && (#[trigger] entries[j]).type_ == MEMMAP_USABLE ==> entries[j].length
                <= entries[k as int].length
            &&& forall|j: int| 0 <= j < k && (#[trigger] entries[j]).type_ == MEMMAP_USABLE ==> entries[j].length
                < entries[k as int].length
        },
        None => forall|j: int| 0 <= j < entries.len() ==> (#[trigger] entries[j]).type_ != MEMMAP_USABLE,
    }
}

/// Whether no region that counts as RAM runs past the end of the address space.
pub open spec fn ram_regions_fit(entries: Seq<MemmapEntry>) -> bool {
    forall|i: int| 0 <= i < entries.len() && counts_as_ram(#[trigger] entries[i]) ==> entries[i].base
        + entries[i].length <= u64::MAX
}

/// Find the span of RAM and the largest usable region of the memory map.
pub fn scan_memmap(entries: &Vec<MemmapEntry>) -> (r: MemoryPlan)
    requires
        ram_regions_fit(entries@),
    ensures
        is_memory_plan(entries@, r),
{
    let mut lowest: usize = usize::MAX;
    let mut highest: usize = 0;
    let mut largest: Option<usize> = None;
    let mut i: usize = 0;
    while i < entries.len()
        invariant
            i <= entries@.len(),
            forall|k: int| 0 <= k < entries@.len() && counts_as_ram(#[trigger] entries@[k]) ==> entries@[k].base
                + entries@[k].length <= u64::MAX,
            forall|k: int| 0 <= k < i && counts_as_ram(#[trigger] entries@[k]) ==> lowest <= entries@[k].base as usize
                && (entries@[k].base + entries@[k].length) as u64 as usize <= highest,
            lowest == usize::MAX || exists|k: int|
                0 <= k < i && counts_as_ram(#[trigger] entries@[k]) && lowest == entries@[k].base as usize,
            highest == 0 || exists|k: int|
                0 <= k < i && counts_as_ram(#[trigger] entries@[k]) && highest == (entries@[k].base
                    + entries@[k].length) as u64 as usize,
            match largest {
                Some(m) => {
                    &&& m < i
                    &&& entries@[m as int].type_ == MEMMAP_USABLE
                    &&& forall|j: int| 0 <= j < i && (#[trigger] entries@[j]).type_ == MEMMAP_USABLE ==> entries@[j].length
                        <= entries@[m as int].length
                    &&& forall|j: int| 0 <= j < m && (#[trigger] entries@[j]).type_ == MEMMAP_USABLE ==> entries@[j].length
                        < entries@[m as int].length
                },
                None => forall|j: int| 0 <= j < i ==> (#[trigger] entries@[j]).type_ != MEMMAP_USABLE,
            },
        decreases entries@.len() - i,
    {
        let e = entries[i];
        if e.type_ == MEMMAP_USABLE || e.type_ == MEMMAP_BOOTLOADER_RECLAIMABLE {
            let b = e.base as usize;
            let t = (e.base + e.length) as usize;
            if b < lowest {
                lowest = b;
            }
            if t > highest {
                highest = t;
            }
        }
        let replace = match largest {
            Some(m) => entries[m].length < e.length,
            None => true,
        };
        if e.type_ == MEMMAP_USABLE && replace {
            largest = Some(i);
        }
        i = i + 1;
    }
    MemoryPlan { lowest_paddr: lowest, highest_paddr: highest, largest_region: largest }
}

/// Why the kernel cannot take over the memory map.
#[derive(Clone, Copy, Debug, PartialEq, Eq, Structural)]
pub enum BootMemError {
    /// No region is usable.
    NoUsableMemory,
    /// The largest usable region cannot hold the page metadata, or reaches
    /// past the span of RAM.
    BadLayout,
    /// A usable region reaches past the span of RAM, or overlaps memory that
    /// is already usable.
    Overlap,
}

/// The addresses of a region.
pub open spec fn region_range(e: MemmapEntry) -> Range<usize> {
    (e.base as usize)..((e.base + e.length) as u64 as usize)
}

/// The whole pages within a range of addresses.
pub open spec fn range_pages(m: Range<usize>) -> Set<int> {
    Set::new(|p: int| pages_up(m.start as int) <= p < (m.end / PAGE_SIZE) as int)
}

/// First page of the span of RAM `ram`.
pub open spec fn ram_first(ram: Range<usize>) -> int {
    pages_up(ram.start as int)
}

/// Number of pages of the span of RAM `ram`.
pub open spec fn ram_pages(ram: Range<usize>) -> int {
    let last = (ram.end / PAGE_SIZE) as int;
    if last < ram_first(ram) {
        0
    } else {
        last - ram_first(ram)
    }
}

/// The pages of the early region `early` that are free once the page
/// metadata for `ram` has been put at its start.
pub open spec fn early_free(early: Range<usize>, ram: Range<usize>) -> Set<int> {
    Set::new(
        |q: int|
            pages_up(early.start + PAGE_META_SIZE * ram_pages(ram)) <= q < (early.end / PAGE_SIZE) as int,
    )
}

/// Whether region `j` is one that is made usable after the early region
/// `skip`: a usable region other than it.
pub open spec fn marks_region(entries: Seq<MemmapEntry>, skip: int, j: int) -> bool {
    j != skip && entries[j].type_ == MEMMAP_USABLE
}

/// The pages made usable by the regions before `k`, besides the early one.
pub open spec fn marked_pages(entries: Seq<MemmapEntry>, skip: int, k: int) -> Set<int>
    decreases k,
{
    if k <= 0 {
        Set::empty()
    } else {
        marked_pages(entries, skip, k - 1).union(
            if marks_region(entries, skip, k - 1) {
                range_pages(region_range(entries[k - 1]))
            } else {
                Set::empty()
            },
        )
    }
}

/// Whether region `j` can be made usable after those before it: its pages
/// lie in the span of RAM and none of them is usable yet.
pub open spec fn mark_fits(entries: Seq<MemmapEntry>, skip: int, j: int, ram: Range<usize>, free0: Set<int>) -> bool {
    forall|p: int|
        #[trigger] range_pages(region_range(entries[j])).contains(p) ==> ram_first(ram) <= p < ram_first(ram)
            + ram_pages(ram) && !free0.contains(p) && !marked_pages(entries, skip, j).contains(p)
}

/// Whether every region to be made usable fits.
pub open spec fn all_marks_fit(entries: Seq<MemmapEntry>, skip: int, ram: Range<usize>, free0: Set<int>) -> bool {
    forall|j: int|
        0 <= j < entries.len() && marks_region(entries, skip, j) ==> #[trigger] mark_fits(entries, skip, j, ram, free0)
}

/// Take over physical memory from the memory map: find the span of RAM and
/// the largest usable region, put the page metadata at the start of that
/// region and make the rest of it usable, then make every other usable
/// region usable, in order. Returns what was found of the map, and the
/// memory manager or why there is none.
pub fn pmm_from_memmap(entries: &Vec<MemmapEntry>) -> (r: (MemoryPlan, Result<Pmm, BootMemError>))
    requires
        ram_regions_fit(entries@),
    ensures
        is_memory_plan(entries@, r.0),
        match r.0.largest_region {
            None => r.1 matches Err(e) && e == BootMemError::NoUsableMemory,
            Some(k) => {
                let early = region_range(entries@[k as int]);
                let ram = r.0.lowest_paddr..r.0.highest_paddr;
                let free0 = early_free(early, ram);
                &&& !init_ok(early, ram) ==> (r.1 matches Err(e) && e == BootMemError::BadLayout)
                &&& init_ok(early, ram) && !all_marks_fit(entries@, k as int, ram, free0) ==> (r.1 matches Err(e) && e
                    == BootMemError::Overlap)
                &&& init_ok(early, ram) && all_marks_fit(entries@, k as int, ram, free0) ==> (r.1 matches Ok(p) && {
                    &&& p.wf()
                    &&& p.pages().dom_start() == ram_first(ram)
                    &&& p.pages().dom_end() == ram_first(ram) + ram_pages(ram)
                    &&& p.pages().free_pages() == free0.union(marked_pages(entries@, k as int, entries@.len() as int))
                    &&& p.pages().kernel_pages() == Set::<int>::empty()
                    &&& p.pages().user_pages() == Set::<int>::empty()
                })
            },
        },
{
    let plan = scan_memmap(entries);
    let k = match plan.largest_region {
        None => {
            return (plan, Err(BootMemError::NoUsableMemory));
        },
        Some(k) => k,
    };
    let big = entries[k];
    let early_start = big.base as usize;
    let early_end = (big.base + big.length) as usize;
    let ghost early = region_range(entries@[k as int]);
    let ghost ram = plan.lowest_paddr..plan.highest_paddr;
    let mut pmm = match init_checked(early_start..early_end, plan.lowest_paddr..plan.highest_paddr) {
        None => {
            return (plan, Err(BootMemError::BadLayout));
        },
        Some(p) => p,
    };
    let ghost free0 = early_free(early, ram);
    proof {
        assert(pmm.pages().free_pages() =~= free0.union(marked_pages(entries@, k as int, 0)));
    }
    let mut i: usize = 0;
    while i < entries.len()
        invariant
            is_memory_plan(entries@, plan),
            ram_regions_fit(entries@),
            plan.largest_region == Some(k),
            early == region_range(entries@[k as int]),
            ram == (plan.lowest_paddr..plan.highest_paddr),
            free0 == early_free(early, ram),
            init_ok(early, ram),
            i <= entries@.len(),
            pmm.wf(),
            pmm.pages().dom_start() == ram_first(ram),
            pmm.pages().dom_end() == ram_first(ram) + ram_pages(ram),
            pmm.pages().kernel_pages() == Set::<int>::empty(),
            pmm.pages().user_pages() == Set::<int>::empty(),
            pmm.pages().free_pages() == free0.union(marked_pages(entries@, k as int, i as int)),
            forall|j: int|
                0 <= j < i && marks_region(entries@, k as int, j) ==> #[trigger] mark_fits(entries@, k as int, j, ram, free0),
        decreases entries@.len() - i,
    {
        let e = entries[i];
        let ghost before = pmm;
        if i != k && e.type_ == MEMMAP_USABLE {
            let ghost pages = range_pages(region_range(e));
            proof {
                assert(counts_as_ram(entries@[i as int]));
            }
            let ok = mark_usable_checked(&mut pmm, (e.base as usize)..((e.base + e.length) as usize));
            proof {
                assert forall|p: int| pages.contains(p) implies (before.pages().dom_start() <= p < before.pages().dom_end()
                    && (#[trigger] before.pages().page(p)).usage == PageUsage::Reserved) == (ram_first(ram) <= p
                    < ram_first(ram) + ram_pages(ram) && !free0.contains(p) && !marked_pages(entries@, k as int, i as int).contains(p)) by {
                    assert(!before.pages().kernel_pages().contains(p));
                    assert(!before.pages().user_pages().contains(p));
                    assert(before.pages().free_pages().contains(p) == (free0.contains(p) || marked_pages(entries@, k as int, i as int).contains(p)));
                }
            }
            if !ok {
                proof {
                    let p0 = choose|p: int|
                        pages_up(e.base as usize as int) <= p < ((e.base + e.length) as u64 as usize / PAGE_SIZE) as int
                            && !(before.pages().dom_start() <= p < before.pages().dom_end()
                            && (#[trigger] before.pages().page(p)).usage == PageUsage::Reserved);
                    assert(pages.contains(p0));
                    assert(before.pages().page(p0).usage == before.pages().page(p0).usage);
                    assert(!mark_fits(entries@, k as int, i as int, ram, free0));
                }
                return (plan, Err(BootMemError::Overlap));
            }
            proof {
                assert forall|p: int| #[trigger] pages.contains(p) implies ram_first(ram) <= p < ram_first(ram)
                    + ram_pages(ram) && !free0.contains(p) && !marked_pages(entries@, k as int, i as int).contains(p) by {
                    assert(before.pages().page(p).usage == PageUsage::Reserved);
                }
                assert(mark_fits(entries@, k as int, i as int, ram, free0));
            }
        }
        proof {
            assert(pmm.pages().free_pages() =~= free0.union(marked_pages(entries@, k as int, i + 1)));
        }
        i = i + 1;
    }
    (plan, Ok(pmm))
}

/// Name of a kind of region, as the boot log shows it.
pub fn region_type_name(type_: u64) -> (r: &'static str)
    ensures
        type_ == MEMMAP_USABLE ==> r@ == "Usable"@,
        type_ == MEMMAP_RESERVED ==> r@ == "Reserved"@,
        type_ == MEMMAP_ACPI_RECLAIMABLE ==> r@ == "ACPI reclaimable"@,
        type_ == MEMMAP_ACPI_NVS ==> r@ == "ACPI non-volatile storage"@,
        type_ == MEMMAP_BAD_MEMORY ==> r@ == "Bad memory"@,
        type_ == MEMMAP_BOOTLOADER_RECLAIMABLE ==> r@ == "Bootloader reclaimable"@,
        type_ == MEMMAP_EXECUTABLE_AND_MODULES ==> r@ == "Kernel/modules"@,
        type_ == MEMMAP_FRAMEBUFFER ==> r@ == "Framebuffer"@,
        type_ > MEMMAP_FRAMEBUFFER ==> r@ == "?"@,
{
    if type_ == MEMMAP_USABLE {
        "Usable"
    } else if type_ == MEMMAP_RESERVED {
        "Reserved"
    } else if type_ == MEMMAP_ACPI_RECLAIMABLE {
        "ACPI reclaimable"
    } else if type_ == MEMMAP_ACPI_NVS {
        "ACPI non-volatile storage"
    } else if type_ == MEMMAP_BAD_MEMORY {
        "Bad memory"
    } else if type_ == MEMMAP_BOOTLOADER_RECLAIMABLE {
        "Bootloader reclaimable"
    } else if type_ == MEMMAP_EXECUTABLE_AND_MODULES {
        "Kernel/modules"
    } else if type_ == MEMMAP_FRAMEBUFFER {
        "Framebuffer"
    } else {
        "?"
    }
}

/// Name of a kind of region, as the boot banner shows it.
pub fn memmap_type_name(type_: u64) -> (r: &'static str)
    ensures
        type_ == MEMMAP_USABLE ==> r@ == "Usable"@,
        type_ == MEMMAP_RESERVED ==> r@ == "Reserved"@,
        type_ == MEMMAP_ACPI_RECLAIMABLE ==> r@ == "ACPI reclaimable"@,
        type_ == MEMMAP_ACPI_NVS ==> r@ == "ACPI NVS"@,
        type_ == MEMMAP_BAD_MEMORY ==> r@ == "Bad memory"@,
        type_ == MEMMAP_BOOTLOADER_RECLAIMABLE ==> r@ == "Bootloader reclaimable"@,
        type_ == MEMMAP_EXECUTABLE_AND_MODULES ==> r@ == "Executable and modules"@,
        type_ == MEMMAP_FRAMEBUFFER ==> r@ == "Framebuffer"@,
        type_ == MEMMAP_MAPPED_RESERVED ==> r@ == "Mapped reserved"@,
        type_ > MEMMAP_MAPPED_RESERVED ==> r@ == "?"@,
{
    if type_ == MEMMAP_USABLE {
        "Usable"
    } else if type_ == MEMMAP_RESERVED {
        "Reserved"
    } else if type_ == MEMMAP_ACPI_RECLAIMABLE {
        "ACPI reclaimable"
    } else if type_ == MEMMAP_ACPI_NVS {
        "ACPI NVS"
    } else if type_ == MEMMAP_BAD_MEMORY {
        "Bad memory"
    } else if type_ == MEMMAP_BOOTLOADER_RECLAIMABLE {
        "Bootloader reclaimable"
    } else if type_ == MEMMAP_EXECUTABLE_AND_MODULES {
        "Executable and modules"
    } else if type_ == MEMMAP_FRAMEBUFFER {
        "Framebuffer"
    } else if type_ == MEMMAP_MAPPED_RESERVED {
        "Mapped reserved"
    } else {
        "?"
    }
}

/// Firmware type code: x86 BIOS.
pub const FIRMWARE_TYPE_X86BIOS: u64 = 0;
/// Firmware type code: 32-bit EFI.
pub const FIRMWARE_TYPE_EFI32: u64 = 1;
/// Firmware type code: 64-bit EFI.
pub const FIRMWARE_TYPE_EFI64: u64 = 2;
/// Firmware type code: RISC-V SBI.
pub const FIRMWARE_TYPE_SBI: u64 = 3;

/// Name of a firmware type, as the boot banner shows it.
pub fn firmware_type_name(type_: u64) -> (r: &'static str)
    ensures
        type_ == FIRMWARE_TYPE_X86BIOS ==> r@ == "BIOS"@,
        type_ == FIRMWARE_TYPE_EFI32 ==> r@ == "EFI (32-bit)"@,
        type_ == FIRMWARE_TYPE_EFI64 ==> r@ == "EFI (64-bit)"@,
        type_ == FIRMWARE_TYPE_SBI ==> r@ == "SBI"@,
        type_ > FIRMWARE_TYPE_SBI ==> r@ == "?"@,
{
    if type_ == FIRMWARE_TYPE_X86BIOS {
        "BIOS"
    } else if type_ == FIRMWARE_TYPE_EFI32 {
        "EFI (32-bit)"
    } else if type_ == FIRMWARE_TYPE_EFI64 {
        "EFI (64-bit)"
    } else if type_ == FIRMWARE_TYPE_SBI {
        "SBI"
    } else {
        "?"
    }
}

/// The plural ending and the closing of the banner line that counts `n`
/// loaded modules: "module" takes an "s" unless there is one, and the line
/// ends in a colon when a list follows.
pub fn modules_line_endings(n: usize) -> (r: (&'static str, &'static str))
    ensures
        r.0@ == (if n == 1 { ""@ } else { "s"@ }),
        r.1@ == (if n == 0 { ""@ } else { ":"@ }),
{
    let plural = if n == 1 { "" } else { "s" };
    let colon = if n == 0 { "" } else { ":" };
    (plural, colon)
}

/// What chrono's `DateTime::from_timestamp(secs, 0)` gives, rendered in
/// UTC without a time zone by its `Display`: `None` where chrono refuses
/// the timestamp.
pub uninterp spec fn utc_date_text(secs: i64) -> Option<Seq<char>>;

/// Calls chrono's `DateTime::from_timestamp(secs, 0)` and renders
/// `naive_utc()` of the result with `Display`. Claimed: the answer is
/// [`utc_date_text`] of `secs`, a function of `secs` alone; nothing is
/// claimed of which timestamps chrono refuses or of the text's form.
#[verifier::external_body]
fn chrono_date_text(secs: i64) -> (r: Option<String>)
    ensures
        match r {
            Some(s) => utc_date_text(secs) == Some(s@),
            None => utc_date_text(secs) is None,
        },
{
    match chrono::DateTime::from_timestamp(secs, 0) {
        Some(d) => Some(format!("{}", d.naive_utc())),
        None => None,
    }
}

/// The date at boot, from the bootloader's UNIX timestamp, as the boot log
/// shows it; `None` where the timestamp is out of chrono's range.
pub fn date_at_boot(unix_seconds: i64) -> (r: Option<String>)
    ensures
        match r {
            Some(s) => utc_date_text(unix_seconds) == Some(s@),
            None => utc_date_text(unix_seconds) is None,
        },
{
    chrono_date_text(unix_seconds)
}

/// Seconds and microseconds of a span of `usec` microseconds, as the boot
/// log shows boot times.
pub fn split_usec(usec: u64) -> (r: (u64, u64))
    ensures
        r.0 == usec / 1_000_000,
        r.1 == usec % 1_000_000,
        r.0 * 1_000_000 + r.1 == usec,
{
    (usec / 1_000_000, usec % 1_000_000)
}

} // verus!
