# positron

The core of the Positron kernel for RISC-V, as a library whose behaviour is
stated in `requires` / `ensures` contracts and proved with Verus.

Hardware state that the kernel reaches through pointers (page-table pages,
page metadata, the `sstatus` word, the direct-map offset) is passed to the
library as explicit values: `PtMem` holds the page tables, `Pmm` the page
metadata and the buddy free lists, and so on. Every operation says what it
does to them.

## Layout

- `src/errno.rs`, `src/log.rs`: error numbers and log levels.
- `src/list.rs`: intrusive doubly-linked lists over a table of nodes.
- `src/arch/`: trap frames and the text that reports them, CSR bits,
  interrupt enabling, SBI calls.
- `src/buddy.rs`, `src/pmm.rs`: the buddy allocator and physical memory
  management, with page usage counters.
- `src/canon.rs`, `src/prot.rs`, `src/pagetable.rs`: canonical addresses,
  protection flags, page-table entries and page tables (map, unmap,
  protect, superpage splitting, the shared higher half).
- `src/kernel_mm.rs`, `src/memmap.rs`: the kernel's virtual range
  allocator and memory map, and process memory maps.
- `src/slabs.rs`, `src/heap.rs`: the slab allocator and the kernel heap.
- `src/spinlock.rs`, `src/mutex.rs`, `src/waitlist.rs`: lock words and
  guards.
- `src/dtb.rs`: device-tree properties and phandle lookup.
- `src/boot.rs`: what the kernel makes of the bootloader's memory map,
  date and boot times.
- `src/panic.rs`: the panic flag.
- `src/text.rs`: hexadecimal numbers and strings appended as characters.
- `app/`: the boot entry point, console output and the glue that hands
  bootloader answers to the library.
- `tests/`: tests of the library on concrete values.
