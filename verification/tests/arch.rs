use avaria::ahci::{
    abar_window, build_fis, classify_port, first_port, header_flags, identify_model,
    identify_sectors, poll_command, port_active, port_idle, port_ready, prdt_entry,
    read_byte_count, size_mb, start_cmd, stop_cmd, CommandPoll, PortKind, ATA_CMD_READ_DMA_EXT,
    SATA_SIG_ATA,
};
use avaria::cpu::{
    cpu_vendor, has_feature_avx, has_feature_sse, has_feature_sse2, has_feature_sse3,
    has_feature_sse41, has_feature_sse42, has_invariant_tsc, has_tsc, lapic_id, restore_irq,
};
use avaria::descriptor::{Gdt, GdtEntry, Idt, IdtEntry, Tss, tss_size, KERNEL_CS};
use avaria::lapic::svr_enable;
use avaria::paging::{
    LapicOp, LapicWalk, MmioOp, MmioWalk, PageWalk, WalkKind, WalkOp,
    entry_frame, exec_step, lapic_pte, lapic_step, mmio_pte, mmio_step, page_span, table_entry,
    table_index, user_step, LapicStep, MapStep, PageStep, PTE_NX,
};
use avaria::pci::{max_functions, PciAddr, PciDevice, PciRegistry};
use avaria::pic::{clear_mask, eoi_ports, mask_target, remap_sequence, set_mask, PortWrite};
use avaria::pit::{divisor, reload_bytes};
use avaria::smp::{aps_all_ready, cpu_slot, SmpState};
use avaria::sse::{sse_cr0, sse_cr4, xcr0_halves};
use avaria::syscall::{syscall_dispatch, SyscallAction};
use avaria::descriptor::IsrContext;
use avaria::tsc::{
    calibration_count, calibration_done, freq_khz, freq_mhz, ticks_to_ms, ticks_to_ns,
    ticks_to_us, uptime_ms,
};

fn gdt_base(e: &GdtEntry) -> u32 {
    e.base_low as u32 | (e.base_mid as u32) << 16 | (e.base_high as u32) << 24
}

fn gdt_limit(e: &GdtEntry) -> u32 {
    e.limit_low as u32 | ((e.granularity & 0xF) as u32) << 16
}

#[test]
fn gdt_entry_encodes_base_and_limit() {
    let e = GdtEntry::new(0x1234_5678, 0xABCDE, 0x9A, 0xA);
    assert_eq!(e.limit_low, 0xBCDE);
    assert_eq!(e.base_low, 0x5678);
    assert_eq!(e.base_mid, 0x34);
    assert_eq!(e.base_high, 0x12);
    assert_eq!(e.access, 0x9A);
    assert_eq!(e.granularity, 0xAA);
    assert_eq!(gdt_base(&e), 0x1234_5678);
    assert_eq!(gdt_limit(&e), 0xABCDE);
}

#[test]
fn gdt_null_is_zero() {
    let e = GdtEntry::null();
    assert_eq!(e, GdtEntry::new(0, 0, 0, 0));
    assert_eq!(e.access, 0);
    assert_eq!(e.granularity, 0);
}

#[test]
fn gdt_kernel_table() {
    let g = Gdt::new();
    assert_eq!(g.entries[1].access, 0x9A);
    assert_eq!(g.entries[1].granularity, 0xAF);
    assert_eq!(g.entries[1].limit_low, 0xFFFF);
    assert_eq!(g.entries[2].access, 0x92);
    assert_eq!(g.entries[2].granularity, 0xCF);
    assert_eq!(g.entries[3].access, 0xF2);
    assert_eq!(g.entries[4].access, 0xFA);
    assert_eq!(g.entries[5], GdtEntry::null());
}

#[test]
fn gdt_tss_descriptor_holds_64_bit_base() {
    let mut g = Gdt::new();
    let base: u64 = 0xFFFF_8000_1234_5678;
    g.install_tss(base, 103);
    let lo = g.entries[5];
    let hi = g.entries[6];
    assert_eq!(lo.access, 0x89);
    assert_eq!(gdt_limit(&lo), 103);
    let rebuilt = gdt_base(&lo) as u64 | (hi.limit_low as u64) << 32 | (hi.base_low as u64) << 48;
    assert_eq!(rebuilt, base);
    assert_eq!(g.entries[1].access, 0x9A);
}

#[test]
fn idt_gate_points_to_handler() {
    let mut e = IdtEntry::empty();
    e.set_handler(0xFFFF_FFFF_8012_3456);
    assert_eq!(e.offset_low, 0x3456);
    assert_eq!(e.offset_mid, 0x8012);
    assert_eq!(e.offset_high, 0xFFFF_FFFF);
    assert_eq!(e.selector, KERNEL_CS);
    assert_eq!(e.type_attr, 0x8E);
    e.set_dpl(3);
    assert_eq!(e.type_attr, 0xEE);
    e.set_dpl(0);
    assert_eq!(e.type_attr, 0x8E);
    e.set_dpl(6);
    assert_eq!(e.type_attr, 0xCE);
}

#[test]
fn idt_install_stubs_and_syscall_gate() {
    let mut idt = Idt::new();
    let stubs: Vec<u64> = (0..48).map(|i| 0x1000 + i * 0x10).collect();
    idt.install_stubs(&stubs, 0x9000);
    assert_eq!(idt.entries[47].offset_low, 0x1000 + 47 * 0x10);
    assert_eq!(idt.entries[0x80].offset_low, 0x9000);
    assert_eq!(idt.entries[48], IdtEntry::empty());
    avaria::syscall::init(&mut idt);
    assert_eq!(idt.entries[0x80].type_attr, 0xEE);
    idt.set_gate_dpl(300, 3);
    assert_eq!(idt.entries.len(), 256);
}

#[test]
fn tss_layout() {
    let t = Tss::new();
    assert_eq!(t.iomap_base, 104);
    assert_eq!(tss_size(), 103);
    let mut t2 = t;
    t2.set_kernel_stack(0xdead_b000);
    assert_eq!(t2.rsp0, 0xdead_b000);
    assert_eq!(t2.rsp1, 0);
}

#[test]
fn pci_config_address_and_fields() {
    let a = PciAddr { bus: 1, dev: 2, func: 3 };
    assert_eq!(a.config_address(0x0B), 0x8001_1308);
    let dword0 = 0x2922_8086u32;
    assert_eq!(a.vendor_id(dword0), 0x8086);
    assert_eq!(a.device_id(dword0), 0x2922);
    let dword8 = 0x0106_0102u32;
    assert_eq!(a.class_code(dword8), 0x01);
    assert_eq!(a.subclass(dword8), 0x06);
    assert_eq!(a.prog_if(dword8), 0x01);
    assert_eq!(a.header_type(0x0080_0000), 0x80);
    assert_eq!(a.interrupt_line(0x0000_010B), 0x0B);
    assert_eq!(a.interrupt_pin(0x0000_010B), 0x01);
    assert_eq!(a.config_read8(0x1122_3344, 2), 0x22);
    assert_eq!(a.config_read16(0x1122_3344, 3), 0x1122);
    assert_eq!(a.bar_offset(5), 0x24);
}

#[test]
fn pci_bar_decoding() {
    let a = PciAddr { bus: 0, dev: 0, func: 0 };
    assert_eq!(a.bar_mem_base(0xC001, 0), 0xC000);
    assert_eq!(a.bar_mem_base(0xFEBF_0000, 7), 0xFEBF_0000);
    assert!(a.bar_is_64(0xE000_000C));
    assert_eq!(a.bar_mem_base(0xE000_000C, 0x1), 0x1_E000_0000);
    assert_eq!(a.enable_bus_master(0x0290_0003), 0x0290_0007);
    assert_eq!(max_functions(0x80), 8);
    assert_eq!(max_functions(0x00), 1);
}

#[test]
fn pci_registry_finds_first_match() {
    let mut reg = PciRegistry::new();
    let dev = |bus: u8, class: u8, sub: u8, pi: u8| PciDevice {
        addr: PciAddr { bus, dev: 0, func: 0 },
        vendor_id: 0x8086,
        device_id: 1,
        class,
        subclass: sub,
        prog_if: pi,
    };
    reg.record(dev(0, 0x03, 0x00, 0x00));
    reg.record(dev(1, 0x01, 0x06, 0x01));
    reg.record(dev(2, 0x01, 0x06, 0x01));
    assert_eq!(reg.count(), 3);
    assert_eq!(reg.find_by_class(0x01, 0x06, 0x01), Some(PciAddr { bus: 1, dev: 0, func: 0 }));
    assert_eq!(reg.find_by_class(0x02, 0x00, 0x00), None);
    for i in 0..70 {
        reg.record(dev(i as u8, 0x0C, 0x03, 0x30));
    }
    assert_eq!(reg.list().len(), 64);
    assert_eq!(reg.count(), 73);
}

#[test]
fn pic_sequences_and_masks() {
    let seq = remap_sequence(32, 40, 0xB8, 0x8E);
    assert_eq!(seq.len(), 10);
    assert_eq!(seq[2], PortWrite { port: 0x21, value: 32 });
    assert_eq!(seq[3], PortWrite { port: 0xA1, value: 40 });
    assert_eq!(seq[9], PortWrite { port: 0xA1, value: 0x8E });
    assert_eq!(eoi_ports(3), vec![0x20]);
    assert_eq!(eoi_ports(12), vec![0xA0, 0x20]);
    assert_eq!(mask_target(1), (0x21, 1));
    assert_eq!(mask_target(14), (0xA1, 6));
    assert_eq!(set_mask(0x00, 1), 0x02);
    assert_eq!(clear_mask(0xFF, 1), 0xFD);
    assert_eq!(clear_mask(0xFF, 9), 0xFD);
}

#[test]
fn pit_divisor_values() {
    assert_eq!(divisor(100), 11931);
    assert_eq!(divisor(1), 0xFFFF);
    assert_eq!(reload_bytes(11931), (0x9B, 0x2E));
}

#[test]
fn sse_and_lapic_registers() {
    assert_eq!(sse_cr0(0x8000_0015), 0x8000_0013);
    assert_eq!(sse_cr4(0x20, false), 0x620);
    assert_eq!(sse_cr4(0x20, true), 0x40620);
    assert_eq!(xcr0_halves(0x7), (7, 0));
    assert_eq!(xcr0_halves(0x1_0000_0002), (2, 1));
    assert_eq!(svr_enable(0x0F), 0x1FF);
}

#[test]
fn cpu_features_and_vendor() {
    let v = cpu_vendor(0x756e_6547, 0x6c65_746e, 0x4965_6e69);
    assert_eq!(&v, b"GenuineIntel");
    assert!(has_feature_sse(1 << 25));
    assert!(!has_feature_sse(1 << 26));
    assert!(has_feature_sse2(1 << 26));
    assert!(has_feature_sse3(1));
    assert!(has_feature_sse41(1 << 19));
    assert!(has_feature_sse42(1 << 20));
    assert!(has_feature_avx(1 << 28));
    assert!(has_tsc(1 << 4));
    assert!(has_invariant_tsc(0x8000_0008, 1 << 8));
    assert!(!has_invariant_tsc(0x8000_0006, 1 << 8));
    assert_eq!(lapic_id(0x0300_0800), 3);
    assert!(restore_irq(0x202));
    assert!(!restore_irq(0x002));
}

#[test]
fn tsc_conversions() {
    assert_eq!(calibration_count(), 11931);
    assert!(calibration_done(0, 11931));
    assert!(calibration_done(65000, 11931));
    assert!(!calibration_done(500, 11931));
    assert_eq!(freq_khz(1_000, 30_001_000), 3_000_000);
    assert_eq!(freq_mhz(3_000_000), 3000);
    assert_eq!(ticks_to_ns(3_000, 3_000_000), 1000);
    assert_eq!(ticks_to_us(3_000_000, 3_000_000), 1000);
    assert_eq!(ticks_to_ms(6_000_000, 3_000_000), 2);
    assert_eq!(ticks_to_us(u64::MAX, 0), 0);
    assert_eq!(uptime_ms(9_000_000, 3_000_000), 3);
    assert_eq!(uptime_ms(9_000_000, 0), 0);
}

#[test]
fn paging_indices_and_steps() {
    let va: u64 = 0xFFFF_8000_FEE0_0000;
    assert_eq!(table_index(va, 4), 256);
    assert_eq!(table_index(va, 3), 3);
    assert_eq!(table_index(va, 2), 0x1F7);
    assert_eq!(table_index(va, 1), 0);
    assert_eq!(entry_frame(0x8000_0000_1234_5067), 0x1234_5000);
    assert_eq!(page_span(0x1234, 0x2000), (0x1000, 0x4000));
    assert_eq!(exec_step(2, 0x0), PageStep { write: None, descend: None });
    assert_eq!(exec_step(4, 0x5003), PageStep { write: None, descend: Some(0x5000) });
    assert_eq!(exec_step(2, PTE_NX | 0x20_0081), PageStep { write: Some(0x20_0083), descend: None });
    assert_eq!(exec_step(1, PTE_NX | 0x7001), PageStep { write: Some(0x7003), descend: None });
    assert_eq!(user_step(3, 0x9003), PageStep { write: Some(0x9007), descend: Some(0x9000) });
    assert_eq!(user_step(1, PTE_NX | 0x7001), PageStep { write: Some(0x7007), descend: None });
    assert_eq!(table_entry(0x3000), 0x3003);
    assert_eq!(mmio_pte(0xFEBF_0000), PTE_NX | 0xFEBF_001B);
    assert_eq!(mmio_step(3, 0, 0), MapStep::AllocTable);
    assert_eq!(mmio_step(2, 0x20_0081, 0), MapStep::Mapped);
    assert_eq!(mmio_step(1, 0, 0x1000), MapStep::Write(PTE_NX | 0x101B));
    assert_eq!(lapic_pte(), 0xFEE0_001B);
    assert_eq!(lapic_step(4, 0), LapicStep::Fail);
    assert_eq!(lapic_step(3, 0), LapicStep::Fail);
    assert_eq!(lapic_step(2, 0), LapicStep::NewTable);
    assert_eq!(lapic_step(1, 0), LapicStep::WritePte);
    assert_eq!(lapic_step(3, 0x4000_0081), LapicStep::Mapped);
}

#[test]
fn smp_online_tracking() {
    let mut s = SmpState::new();
    s.init(2, 4);
    assert_eq!(s.cpu_count(), 4);
    assert_eq!(s.bsp_id(), 2);
    assert!(s.is_online(2));
    assert!(s.is_online(66));
    assert!(!s.is_online(1));
    s.mark_online(1);
    s.mark_online(65);
    assert_eq!(s.online_count(), 2);
    assert_eq!(cpu_slot(70), 6);
    assert!(aps_all_ready(3, 4));
    assert!(!aps_all_ready(2, 4));
    assert!(aps_all_ready(0, 1));
}

fn ctx(rax: u64, rdi: u64, rsi: u64) -> IsrContext {
    IsrContext {
        r15: 0, r14: 0, r13: 0, r12: 0, r11: 0, r10: 0, r9: 0, r8: 0,
        rbp: 0, rdi, rsi, rdx: 0, rcx: 0, rbx: 0, rax,
        vector: 0x80, error_code: 0, rip: 0x40_1000, cs: 0x23, rflags: 0x202,
        rsp: 0x7000, ss: 0x1B,
    }
}

#[test]
fn syscall_dispatch_actions() {
    let mut c = ctx(0, 7, 0);
    assert_eq!(syscall_dispatch(&mut c, 0xAAAA, 0xBBBB), SyscallAction::Exit(7));
    assert_eq!((c.cs, c.ss, c.rip, c.rsp, c.rflags), (0x08, 0x10, 0xAAAA, 0xBBBB, 0x202));
    let mut c = ctx(1, 0x5000, 12);
    assert_eq!(syscall_dispatch(&mut c, 0, 0), SyscallAction::SerialWrite { ptr: 0x5000, len: 12 });
    assert_eq!(c.rax, 0);
    let mut c = ctx(1, 0, 12);
    assert_eq!(syscall_dispatch(&mut c, 0, 0), SyscallAction::Nothing);
    let mut c = ctx(1, 0x5000, 4096);
    assert_eq!(syscall_dispatch(&mut c, 0, 0), SyscallAction::Nothing);
    let mut c = ctx(9, 0, 0);
    assert_eq!(syscall_dispatch(&mut c, 0, 0), SyscallAction::Unknown(9));
    assert_eq!(c.rax, u64::MAX);
    assert_eq!(c.rip, 0x40_1000);
}

#[test]
fn ahci_port_and_command_decoding() {
    assert_eq!(classify_port(0b10, 0, 0x113, SATA_SIG_ATA), PortKind::NotImplemented);
    assert_eq!(classify_port(0b10, 1, 0x101, SATA_SIG_ATA), PortKind::NoDevice);
    assert_eq!(classify_port(0b10, 1, 0x113, 0xEB14_0101), PortKind::NotAta);
    assert_eq!(classify_port(0b10, 1, 0x113, SATA_SIG_ATA), PortKind::Sata);
    assert_eq!(stop_cmd(0xC017), (0xC016, 0xC006));
    assert!(!port_idle(0xC006));
    assert!(port_idle(0x0006));
    assert_eq!(start_cmd(0x0006), (0x0016, 0x0017));
    assert!(port_ready(0x50));
    assert!(!port_ready(0x88));
    assert_eq!(poll_command(0, 0x51, 0), CommandPoll::Error);
    assert_eq!(poll_command(0, 0x50, 0), CommandPoll::Done);
    assert_eq!(poll_command(1, 0x50, 0x4000_0000), CommandPoll::TaskFileError);
    assert_eq!(poll_command(1, 0x50, 0), CommandPoll::Pending);
    assert_eq!(header_flags(false), 5);
    assert_eq!(header_flags(true), 0x45);
    let p = prdt_entry(0x1_2345_6000, 4096);
    assert_eq!((p.dba, p.dbau, p.dbc), (0x2345_6000, 1, 4095));
    let f = build_fis(ATA_CMD_READ_DMA_EXT, 0x0102_0304_0506, 0x0203);
    assert_eq!((f.fis_type, f.flags, f.command, f.device), (0x27, 0x80, 0x25, 0x40));
    assert_eq!((f.lba0, f.lba1, f.lba2, f.lba3, f.lba4, f.lba5), (6, 5, 4, 3, 2, 1));
    assert_eq!((f.count_lo, f.count_hi), (3, 2));
    assert_eq!(read_byte_count(0), 65536 * 512);
    assert_eq!(read_byte_count(8), 4096);
    assert!(port_active(0b100, 2));
    assert!(!port_active(0b100, 1));
    assert!(!port_active(u32::MAX, 32));
    assert_eq!(abar_window(0xFEBF_1100), (0xFEBF_1000, 2, 0x100));
    assert_eq!(first_port(0b1000_0100), Some(2));
    assert_eq!(first_port(0), None);
}

#[test]
fn ahci_identify_decoding() {
    let mut words = vec![0u16; 256];
    words[27] = u16::from_be_bytes(*b"QE");
    words[28] = u16::from_be_bytes(*b"MU");
    words[29] = 0x2000 | 0x01;
    words[100] = 0x0000;
    words[101] = 0x0010;
    let model = identify_model(&words);
    assert_eq!(model, b"QEMU ".to_vec());
    let sectors = identify_sectors(&words);
    assert_eq!(sectors, 0x10_0000);
    assert_eq!(size_mb(sectors), 512);
}

fn walk_tables(kind: WalkKind, tables: &mut std::collections::HashMap<(u64, usize), u64>, vaddr: u64, size: u64) -> usize {
    let (mut w, mut op) = PageWalk::start(kind, 0x1000 | 0x18, vaddr, size);
    let mut visits = 0;
    while let WalkOp::Visit { table, index } = op {
        visits += 1;
        let e = *tables.get(&(table, index)).unwrap_or(&0);
        let (write, next) = w.feed(e);
        if let Some(v) = write {
            tables.insert((table, index), v);
        }
        op = next;
    }
    visits
}

fn two_page_tables() -> std::collections::HashMap<(u64, usize), u64> {
    let nx = 0x8000_0000_0000_0000u64;
    let mut t = std::collections::HashMap::new();
    t.insert((0x1000, 0), 0x2000 | 1);
    t.insert((0x2000, 0), 0x3000 | 1);
    t.insert((0x3000, 0), 0x4000 | 1);
    t.insert((0x4000, 1), 0x5000 | 1 | nx);
    t.insert((0x4000, 2), 0x6000 | 1 | nx);
    t
}

#[test]
fn page_walk_makes_span_executable() {
    let mut t = two_page_tables();
    assert_eq!(walk_tables(WalkKind::Exec, &mut t, 0x1800, 0x1000), 8);
    assert_eq!(t[&(0x4000, 1)], 0x5000 | 1 | 2);
    assert_eq!(t[&(0x4000, 2)], 0x6000 | 1 | 2);
    assert_eq!(t[&(0x1000, 0)], 0x2000 | 1);
}

#[test]
fn page_walk_opens_to_user_and_skips_holes() {
    let mut t = two_page_tables();
    assert_eq!(walk_tables(WalkKind::User, &mut t, 0x1000, 0x3000), 4 + 4 + 4);
    assert_eq!(t[&(0x1000, 0)], 0x2000 | 1 | 4);
    assert_eq!(t[&(0x3000, 0)], 0x4000 | 1 | 4);
    assert_eq!(t[&(0x4000, 1)], 0x5000 | 1 | 2 | 4);
    assert_eq!(t.get(&(0x4000, 3)), None);
    let (_, op) = PageWalk::start(WalkKind::Exec, 0, 0x5000, 0);
    assert_eq!(op, WalkOp::Finished);
}

#[test]
fn mmio_walk_builds_tables_and_maps_each_page() {
    let mut t: std::collections::HashMap<(u64, usize), u64> = std::collections::HashMap::new();
    let mut next_table = 0x10000u64;
    let mut flushed = Vec::new();
    let mut w = MmioWalk::start(0, 0x1000, 0x3000, 2);
    let result = loop {
        match w.op() {
            MmioOp::Visit { table, index } => {
                let (write, flush) = w.feed(*t.get(&(table, index)).unwrap_or(&0));
                if let Some(v) = write {
                    t.insert((table, index), v);
                }
                flushed.extend(flush);
            }
            MmioOp::NewTable { table, index } => {
                let v = w.table_made(Some(next_table)).unwrap();
                t.insert((table, index), v);
                next_table += 0x1000;
            }
            MmioOp::Overflow => panic!("unexpected overflow"),
            MmioOp::Done(v) => break v,
        }
    };
    assert_eq!(result, 0x3000);
    assert_eq!(flushed, vec![0x3000, 0x4000]);
    assert_eq!(next_table, 0x13000);
    let pte = 1 | 2 | 8 | 0x10 | 0x8000_0000_0000_0000u64;
    assert_eq!(t[&(0x12000, 3)], 0x3000 | pte);
    assert_eq!(t[&(0x12000, 4)], 0x4000 | pte);
}

#[test]
fn mmio_walk_edges() {
    let mut w = MmioWalk::start(0, 0x1000, 0x3000, 1);
    assert_eq!(w.feed(0), (None, None));
    assert!(matches!(w.op(), MmioOp::NewTable { .. }));
    assert_eq!(w.table_made(None), None);
    assert_eq!(w.op(), MmioOp::Done(0));
    assert_eq!(MmioWalk::start(u64::MAX, 0, 1, 1).op(), MmioOp::Overflow);
    assert_eq!(MmioWalk::start(0x100, 0, 0x20, 0).op(), MmioOp::Done(0x120));
}

#[test]
fn lapic_walk_outcomes() {
    let mut w = LapicWalk::start(0, 0x1000);
    assert_eq!(w.op(), LapicOp::Visit { table: 0x1000, index: 0 });
    w.feed(0);
    assert_eq!(w.op(), LapicOp::Unreachable);

    let mut w = LapicWalk::start(0, 0x1000);
    w.feed(0x2000 | 1);
    assert_eq!(w.op(), LapicOp::Visit { table: 0x2000, index: 3 });
    w.feed(0x3000 | 1);
    assert_eq!(w.op(), LapicOp::Visit { table: 0x3000, index: 503 });
    assert_eq!(w.feed(0), (None, false));
    let (entry, pte, flush) = w.table_made(Some(0x9000));
    assert_eq!(entry, Some(0x9000 | 3));
    assert_eq!(pte, Some((0x9000, 0, 0xFEE0_0000 | 1 | 2 | 8 | 0x10)));
    assert!(flush);
    assert_eq!(w.op(), LapicOp::Done(0xFEE0_0000));
}
