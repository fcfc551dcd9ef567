use positron::arch::irq::{disable, disable_if, enable, enable_if, is_enabled, IrqGuard};
use positron::arch::regs::{GpRegfile, IrqFrame, SpRegfile};
use positron::arch::report::exception_report;
use positron::arch::sbi::{self, hsm, legacy, SbiError};
use positron::boot::{
    firmware_type_name, modules_line_endings, FIRMWARE_TYPE_SBI, date_at_boot, memmap_type_name, region_type_name, scan_memmap, split_usec, MemmapEntry,
    MEMMAP_BOOTLOADER_RECLAIMABLE, MEMMAP_RESERVED, MEMMAP_USABLE,
};
use positron::canon::{
    mmu_canon_half_size, mmu_higher_half_vaddr, mmu_is_canon_addr, mmu_is_canon_kernel_addr,
    mmu_is_canon_kernel_range, mmu_is_canon_range, mmu_is_canon_user_addr, mmu_is_canon_user_range,
    mmu_paging_levels, canon_half_pages, canon_half_size, higher_half_vaddr, higher_half_vpn, is_canon_addr,
    is_canon_kernel_addr, is_canon_kernel_page, is_canon_page, is_canon_range, is_canon_user_addr,
    is_canon_page_range, is_canon_user_page, is_canon_user_page_range,
};
use positron::errno::{Errno, EResult};
use positron::list::{HasListNode, InvasiveList, InvasiveListNode, LINK_END, LINK_NULL};
use positron::panic::{check_for_panic, start_panic};
use positron::log::LogLevel;

#[test]
fn errno_codes_round_trip() {
    assert_eq!(Errno::ENOMEM.code(), 12);
    assert_eq!(Errno::from_code(12), Some(Errno::ENOMEM));
    assert_eq!(Errno::from_code(0), None);
    assert_eq!(Errno::EINVAL.name(), "EINVAL");
    assert_eq!(Errno::ENOMEM.desc(), "Out of memory");
    assert_eq!(Errno::ENOMEM.text().into_iter().collect::<String>(), "ENOMEM (Out of memory)");
    for c in 1..=130 {
        if let Some(e) = Errno::from_code(c) {
            assert_eq!(e.code(), c);
        }
    }
}

#[test]
fn errno_check_and_extract() {
    assert_eq!(Errno::check_i32(-12), Err(Errno::ENOMEM));
    assert_eq!(Errno::check_i32(5), Ok(5));
    assert_eq!(Errno::check_bool(1), Ok(true));
    assert_eq!(Errno::check_bool(0), Ok(false));
    assert_eq!(Errno::check(-22), Err(Errno::EINVAL));
    assert_eq!(Errno::check(0), Ok(()));
    assert_eq!(Errno::check_usize(4096), Ok(4096));
    assert_eq!(Errno::extract_i32(Err(Errno::ENOMEM)), -12);
    assert_eq!(Errno::extract_i32(Ok(7)), 7);
    let r: EResult<()> = Err(Errno::EPERM);
    assert_eq!(Errno::extract(r), -1);
    assert_eq!(Errno::extract_bool(Ok(true)), 1);
    assert_eq!(Errno::check_i32(Errno::extract_i32(Err(Errno::EAGAIN))), Err(Errno::EAGAIN));
}

#[test]
fn list_push_pop_remove() {
    let mut nodes = vec![InvasiveListNode::new(); 8];
    let mut list = InvasiveList::new();
    assert_eq!(list.push_back(&mut nodes, 3), Ok(()));
    assert_eq!(list.push_back(&mut nodes, 4), Ok(()));
    assert_eq!(list.push_front(&mut nodes, 2), Ok(()));
    // An item already on a list is refused.
    assert_eq!(list.push_front(&mut nodes, 3), Err(()));
    assert_eq!(list.len(), 3);
    assert_eq!(list.front(), Some(2));
    assert_eq!(list.back(), Some(4));
    assert!(list.contains(&nodes, 3));
    list.remove(&mut nodes, 3);
    assert!(!list.contains(&nodes, 3));
    assert_eq!(list.len(), 2);
    let mut it = list.iter();
    assert_eq!(it.next(&nodes), Some(2));
    assert_eq!(it.next(&nodes), Some(4));
    assert_eq!(it.next(&nodes), None);
    assert_eq!(list.pop_front(&mut nodes), Some(2));
    assert_eq!(list.pop_back(&mut nodes), Some(4));
    assert_eq!(list.pop_back(&mut nodes), None);
    // Popped items can be pushed again.
    assert_eq!(list.push_front(&mut nodes, 4), Ok(()));
    list.clear(&mut nodes);
    assert_eq!(list.len(), 0);
    assert_eq!(list.push_front(&mut nodes, 4), Ok(()));
}

#[test]
fn canonical_addresses_sv39() {
    assert!(is_canon_addr(0x3f_ffff_ffff, 3));
    assert!(!is_canon_addr(0x40_0000_0000, 3));
    assert!(is_canon_addr(0xffff_ffc0_0000_0000, 3));
    assert!(is_canon_kernel_addr(0xffff_ffc0_0000_0000, 3));
    assert!(!is_canon_user_addr(0xffff_ffc0_0000_0000, 3));
    assert!(is_canon_range(0x1000..0x2000, 3));
    assert!(!is_canon_range(0x1000..0x40_0000_0001, 3));
    assert!(is_canon_page(0xf_ffff_fc00_0000, 3));
    assert!(is_canon_kernel_page(0xf_ffff_fc00_0000, 3));
    assert!(!is_canon_page(0x400_0000, 3));
    assert!(is_canon_user_page_range(0..0x400_0000, 3));
    // A range that spans the hole between the halves is not canonical.
    assert!(!is_canon_range(0..usize::MAX, 3));
    assert!(!is_canon_range(0x1000..0xffff_ffc0_0000_1000, 3));
    assert!(is_canon_range(0xffff_ffc0_0000_0000..usize::MAX, 3));
    assert!(!is_canon_page_range(0..0xf_ffff_fc00_0001, 3));
    // The first kernel page is no user page.
    assert!(!is_canon_user_page(higher_half_vpn(3) as usize, 3));
    assert!(is_canon_user_page(0x3ff_ffff, 3));
    assert_eq!(canon_half_pages(3), 0x400_0000);
    assert_eq!(canon_half_size(4), 0x8000_0000_0000);
    assert_eq!(higher_half_vaddr(3), 0xffff_ffc0_0000_0000);
    assert_eq!(higher_half_vpn(3), 0xf_ffff_fc00_0000);
}

#[test]
fn sbi_calls_and_results() {
    let c = sbi::probe_extension(hsm::HSM_EID);
    assert_eq!(c.eid, sbi::BASE_EID);
    assert_eq!(c.fid, 3);
    assert_eq!(c.args[0], hsm::HSM_EID);
    assert_eq!(c.nargs, 1);
    assert_eq!(c.result(0, 1), Ok(1));
    assert_eq!(c.result(-2, 0), Err(SbiError::NotSupported));
    assert_eq!(c.result(-100, 0), Err(SbiError::Failed));
    assert!(sbi::probe_result(Ok(1)));
    assert!(!sbi::probe_result(Err(SbiError::NotSupported)));
    assert_eq!(SbiError::AlreadyStopped.code(), 8);
    let s = hsm::start(1, 0x8020_0000, 42);
    assert_eq!((s.eid, s.fid, s.nargs), (hsm::HSM_EID, 0, 3));
    assert_eq!(s.args, [1, 0x8020_0000, 42, 0, 0, 0]);
    assert_eq!(hsm::get_status_result(Ok(2)), Ok(hsm::HartState::StartPending));
    assert_eq!(legacy::status_result(0), Ok(()));
    assert_eq!(legacy::getchar_result(65), Ok(65));
    assert_eq!(legacy::getchar_result(-1), Err(()));
    let t = legacy::set_timer_rv32(0x1_8000_0001);
    assert_eq!((t.eid, t.nargs, t.args), (0, 2, [-0x7fff_ffff, 1, 0, 0, 0, 0]));
    let t = positron::arch::sbi::timer::set_timer_rv32(0x7_0000_0005);
    assert_eq!((t.fid, t.nargs, t.args), (0, 2, [5, 7, 0, 0, 0, 0]));
    let t = positron::arch::sbi::timer::set_timer(0x7_0000_0005);
    assert_eq!((t.nargs, t.args), (1, [0x7_0000_0005, 0, 0, 0, 0, 0]));
}

fn frame(scause: isize, stval: usize, pc: usize) -> IrqFrame {
    let sregs = SpRegfile { sstatus: 0x100, scause, stval, fake_fp: 0 };
    let mut regs: GpRegfile = zero_regs();
    regs.pc = pc;
    IrqFrame { sregs, regs }
}

fn zero_regs() -> GpRegfile {
    GpRegfile {
        pc: 0, ra: 0, sp: 0, gp: 0, tp: 0, t0: 0, t1: 0, t2: 0, s0: 0, s1: 0, a0: 0, a1: 0, a2: 0,
        a3: 0, a4: 0, a5: 0, a6: 0, a7: 0, s2: 0, s3: 0, s4: 0, s5: 0, s6: 0, s7: 0, s8: 0, s9: 0,
        s10: 0, s11: 0, t3: 0, t4: 0, t5: 0, t6: 0,
    }
}

#[test]
fn irq_frame_fault_info() {
    let f = frame(13, 0xdead_b000, 0x8020_1234);
    assert_eq!(f.fault_code(), 13);
    assert_eq!(f.fault_name(), Some("Load page fault"));
    assert_eq!(f.is_mem_trap(), Some(0xdead_b000));
    let g = frame(2, 0, 0x8020_1234);
    assert_eq!(g.is_mem_trap(), Some(0x8020_1234));
    let h = frame(8, 0, 0);
    assert_eq!(h.is_mem_trap(), None);
    assert_eq!(frame(10, 0, 0).fault_name(), None);
    let mut f2 = f;
    f2.set_retval(7);
    assert_eq!(f2.regs.a0, 7);
    f2.set_pc(0x1000);
    assert_eq!(f2.get_pc(), 0x1000);
}

fn text(chars: Vec<char>) -> String {
    chars.into_iter().collect()
}

#[test]
fn register_dump_text() {
    let mut r = zero_regs();
    r.pc = 0x8020_1234;
    r.s10 = 0xffff_ffff_ffff_ffff;
    r.t6 = 0xab;
    let got = text(r.dump_text());
    let lines: Vec<&str> = got.split('\n').collect();
    assert_eq!(lines.len(), 9);
    assert_eq!(lines[8], "");
    assert_eq!(
        lines[0],
        "  PC  0x0000000080201234  RA  0x0000000000000000  SP  0x0000000000000000  GP  0x0000000000000000"
    );
    assert_eq!(
        lines[6],
        "  S8  0x0000000000000000  S9  0x0000000000000000  S10 0xffffffffffffffff  S11 0x0000000000000000"
    );
    assert_eq!(
        lines[7],
        "  T3  0x0000000000000000  T4  0x0000000000000000  T5  0x0000000000000000  T6  0x00000000000000ab"
    );
    let s = SpRegfile { sstatus: 0x120, scause: -9223372036854775803, stval: 0, fake_fp: 0 };
    assert_eq!(
        text(s.dump_text()),
        "  SSTATUS  0x120\n  SCAUSE   0x8000000000000005\n  STVAL    0x0\n"
    );
}

#[test]
fn unhandled_exception_report_text() {
    let f = frame(13, 0xdead_b000, 0x8020_1234);
    let got = text(exception_report(&f));
    let dump = text(f.dump_text());
    let head = "**** UNHANDLED EXCEPTION 0xd ****\nLoad page fault\nVirtual address: 0xdeadb000\n";
    assert_eq!(got, format!("{}{}", head, dump));
    assert_eq!(dump, format!("{}{}", text(f.regs.dump_text()), text(f.sregs.dump_text())));
    // A cause with no name and no address.
    let g = frame(10, 0, 0);
    let got = text(exception_report(&g));
    assert!(got.starts_with("**** UNHANDLED EXCEPTION 0xa ****\n  PC  0x"));
}

#[test]
fn interrupt_enable_bit() {
    let mut s: usize = 0x122;
    assert!(is_enabled(s));
    assert!(disable(&mut s));
    assert_eq!(s, 0x120);
    assert!(!disable_if(&mut s, true));
    enable_if(&mut s, false);
    assert_eq!(s, 0x120);
    enable(&mut s);
    assert_eq!(s, 0x122);
    let g = IrqGuard::new(&mut s);
    assert!(!is_enabled(s));
    g.release(&mut s);
    assert_eq!(s, 0x122);
    let mut off: usize = 0x120;
    let g = IrqGuard::new(&mut off);
    g.release(&mut off);
    assert_eq!(off, 0x120);
}

#[test]
fn memory_map_scan() {
    let entries = vec![
        MemmapEntry { base: 0x1000, length: 0x1000, type_: MEMMAP_RESERVED },
        MemmapEntry { base: 0x8000_0000, length: 0x20_0000, type_: MEMMAP_USABLE },
        MemmapEntry { base: 0x8020_0000, length: 0x10_0000, type_: MEMMAP_BOOTLOADER_RECLAIMABLE },
        MemmapEntry { base: 0x8040_0000, length: 0x400_0000, type_: MEMMAP_USABLE },
        MemmapEntry { base: 0x9000_0000, length: 0x400_0000, type_: MEMMAP_USABLE },
    ];
    let plan = scan_memmap(&entries);
    assert_eq!(plan.lowest_paddr, 0x8000_0000);
    assert_eq!(plan.highest_paddr, 0x9400_0000);
    // The first of the largest usable regions.
    assert_eq!(plan.largest_region, Some(3));
    let none = scan_memmap(&vec![MemmapEntry { base: 0, length: 0x1000, type_: MEMMAP_RESERVED }]);
    assert_eq!(none.lowest_paddr, usize::MAX);
    assert_eq!(none.highest_paddr, 0);
    assert_eq!(none.largest_region, None);
    assert_eq!(region_type_name(6), "Kernel/modules");
    assert_eq!(memmap_type_name(6), "Executable and modules");
    assert_eq!(memmap_type_name(42), "?");
}

#[test]
fn boot_date_and_times() {
    assert_eq!(date_at_boot(1431648000), Some("2015-05-15 00:00:00".to_string()));
    assert_eq!(date_at_boot(0), Some("1970-01-01 00:00:00".to_string()));
    assert_eq!(date_at_boot(i64::MAX), None);
    assert_eq!(split_usec(1_234_567), (1, 234_567));
}

#[test]
fn log_prefixes() {
    assert_eq!(LogLevel::Info.prefix(), "\x1b[32mINFO  ");
    assert_eq!(LogLevel::Fatal.prefix(), "\x1b[31mFATAL ");
}

#[test]
fn mmu_entry_points_sv39() {
    assert!(mmu_is_canon_addr(0x3f_ffff_ffff, 3));
    assert!(!mmu_is_canon_addr(0x40_0000_0000, 3));
    assert!(mmu_is_canon_kernel_addr(0xffff_ffc0_0000_0000, 3));
    assert!(!mmu_is_canon_kernel_addr(0x1000, 3));
    assert!(mmu_is_canon_user_addr(0x1000, 3));
    assert!(!mmu_is_canon_user_addr(0xffff_ffc0_0000_0000, 3));
    assert!(mmu_is_canon_range(0x3f_ffff_f000, 0x1000, 3));
    assert!(!mmu_is_canon_range(0x3f_ffff_f000, 0x1001, 3));
    assert!(mmu_is_canon_kernel_range(0xffff_ffc0_0000_0000, 0x1000, 3));
    assert!(!mmu_is_canon_kernel_range(0x1000, 0x1000, 3));
    assert!(mmu_is_canon_user_range(0, 0x1000, 3));
    assert!(!mmu_is_canon_user_range(0x3f_ffff_f000, 0x2000, 3));
    assert_eq!(mmu_canon_half_size(3), 1 << 38);
    assert_eq!(mmu_higher_half_vaddr(3), 0xffff_ffc0_0000_0000);
    assert_eq!(mmu_higher_half_vaddr(4), 0xffff_8000_0000_0000);
    assert_eq!(mmu_paging_levels(4), 4);
}

#[test]
fn panic_flag() {
    let mut flag = 0u32;
    assert!(!check_for_panic(flag));
    // Starting a panic goes on while the flag is clear, and leaves it so.
    assert!(start_panic(&mut flag));
    assert_eq!(flag, 0);
    assert!(!check_for_panic(flag));
    // A flag that is set stops a panic at once and stops every check.
    let mut set = 1u32;
    assert!(!start_panic(&mut set));
    assert_eq!(set, 1);
    assert!(check_for_panic(set));
}

#[test]
fn list_node_of_a_node_is_itself() {
    let mut n = InvasiveListNode::new();
    assert_eq!(n.list_node().next, LINK_NULL);
    n.list_node_mut().next = LINK_END;
    n.list_node_mut().prev = 7;
    assert_eq!(n.next, LINK_END);
    assert_eq!(n.list_node().prev, 7);
}

#[test]
fn banner_names() {
    assert_eq!(firmware_type_name(0), "BIOS");
    assert_eq!(firmware_type_name(2), "EFI (64-bit)");
    assert_eq!(firmware_type_name(FIRMWARE_TYPE_SBI), "SBI");
    assert_eq!(firmware_type_name(4), "?");
    assert_eq!(modules_line_endings(0), ("s", ""));
    assert_eq!(modules_line_endings(1), ("", ":"));
    assert_eq!(modules_line_endings(3), ("s", ":"));
}
