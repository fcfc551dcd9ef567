//! Verified core of the Positron kernel: error numbers, interrupt frames,
//! firmware calls, intrusive lists, physical and virtual memory management,
//! device-tree properties and locks, modelled over plain values.

pub mod errno;
pub mod list;
pub mod kernel_mm;
pub mod arch;

pub mod log;
pub mod waitlist;
pub mod dtb;
pub mod canon;
pub mod spinlock;
pub mod mutex;
pub mod buddy;
pub mod pmm;
pub mod prot;
pub mod pagetable;
pub mod slabs;
pub mod heap;
pub mod memmap;
pub mod boot;
pub mod panic;
pub mod text;
