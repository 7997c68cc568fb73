use avaria::bitmap::{clear_bit_in, set_bit_in, test_bit};
use avaria::descriptor::IsrContext;
use avaria::heap::{KernelHeap, MemoryRegion};
use avaria::ps2::{keyboard_config, Keyboard};
use avaria::sched::{load_ctx, save_ctx, Scheduler, Task, TaskState};
use avaria::serial::{dec, hex};
use avaria::shell::{cell_origin, shell_draw_prompt, Shell, ShellOp};
use avaria::spinlock::SpinLock;
use avaria::vesa::Framebuffer;
use avaria::vfs::{DirEntry, DirIter, FileType};

fn typed(kb: &mut Keyboard, codes: &[u8]) -> Vec<u8> {
    for &c in codes {
        kb.process_scancode(c);
    }
    let mut out = Vec::new();
    while let Some(ch) = kb.read_key() {
        out.push(ch);
    }
    out
}

#[test]
fn keyboard_plain_and_shifted_keys() {
    let mut kb = Keyboard::new();
    assert!(!kb.has_key());
    assert_eq!(typed(&mut kb, &[0x1E, 0x9E, 0x02]), b"a1".to_vec());
    assert_eq!(typed(&mut kb, &[0x2A, 0x1E, 0x02, 0xAA, 0x1E]), b"A!a".to_vec());
    assert_eq!(typed(&mut kb, &[0x36, 0x0C, 0xB6, 0x0C]), b"_-".to_vec());
}

#[test]
fn keyboard_caps_lock() {
    let mut kb = Keyboard::new();
    assert_eq!(typed(&mut kb, &[0x3A, 0xBA, 0x1E, 0x02]), b"A1".to_vec());
    assert_eq!(typed(&mut kb, &[0x2A, 0x1E, 0x02, 0xAA]), b"a!".to_vec());
    assert_eq!(typed(&mut kb, &[0x3A, 0x1E]), b"a".to_vec());
}

#[test]
fn keyboard_ignores_releases_modifiers_and_prefix() {
    let mut kb = Keyboard::new();
    assert_eq!(typed(&mut kb, &[0xE0, 0x1D, 0x38, 0x9D, 0xB8, 0x3B, 0x1C]), b"\n".to_vec());
}

#[test]
fn keyboard_buffer_holds_255() {
    let mut kb = Keyboard::new();
    for _ in 0..300 {
        kb.process_scancode(0x1E);
    }
    let mut n = 0;
    while kb.read_key().is_some() {
        n += 1;
    }
    assert_eq!(n, 255);
    assert!(!kb.has_key());
}

#[test]
fn keyboard_config_byte() {
    assert_eq!(keyboard_config(0x74), 0x65);
    assert_eq!(keyboard_config(0x00), 0x01);
}

#[test]
fn serial_number_formats() {
    assert_eq!(hex(0), b"0".to_vec());
    assert_eq!(hex(0xdead_beef), b"deadbeef".to_vec());
    assert_eq!(hex(u64::MAX), b"ffffffffffffffff".to_vec());
    assert_eq!(dec(0), b"0".to_vec());
    assert_eq!(dec(1234567890), b"1234567890".to_vec());
    assert_eq!(dec(u64::MAX), b"18446744073709551615".to_vec());
}

#[test]
fn bitmap_bits() {
    let mut v = vec![0u8; 4];
    set_bit_in(&mut v, 9);
    assert_eq!(v[1], 0x02);
    assert!(test_bit(&v, 9));
    assert!(!test_bit(&v, 8));
    set_bit_in(&mut v, 31);
    assert_eq!(v[3], 0x80);
    clear_bit_in(&mut v, 9);
    clear_bit_in(&mut v, 31);
    assert_eq!(v, vec![0u8; 4]);
}

#[test]
fn framebuffer_fill_and_clear() {
    let mut fb = Framebuffer::new(vec![0u8; 4 * 3 * 2], 4, 2, 12, 3);
    assert_eq!((fb.width(), fb.height()), (4, 2));
    fb.put_pixel(1, 1, 1, 2, 3);
    assert_eq!(&fb.pixels()[15..18], &[3, 2, 1]);
    fb.put_pixel(4, 0, 9, 9, 9);
    fb.fill_rect(2, 0, 5, 1, 7, 8, 9);
    assert_eq!(&fb.pixels()[6..12], &[9, 8, 7, 9, 8, 7]);
    assert_eq!(&fb.pixels()[0..3], &[0, 0, 0]);
    fb.clear(0x10, 0x20, 0x30);
    assert!(fb.pixels().chunks(3).all(|p| p == [0x30, 0x20, 0x10]));
}

#[test]
fn spinlock_try_and_release() {
    let l = SpinLock::new();
    assert!(l.try_lock());
    assert!(!l.try_lock());
    l.unlock();
    assert!(l.try_lock());
}

#[test]
fn dir_iter_walks_entries() {
    let entries = [
        DirEntry { name: "a", file_type: FileType::File, size: 1 },
        DirEntry { name: "b", file_type: FileType::Directory, size: 0 },
    ];
    let mut it = DirIter::new(&entries);
    assert_eq!(it.next().map(|e| e.name), Some("a"));
    assert_eq!(it.next().map(|e| e.size), Some(0));
    assert!(it.next().is_none());
    assert!(it.next().is_none());
}

#[test]
fn shell_prompt_and_typing() {
    let p = shell_draw_prompt(2);
    assert_eq!(p.len(), 8);
    assert_eq!(p[0], ShellOp::Draw { col: 0, row: 2, ch: 'a' as u32 });
    assert_eq!(p[7], ShellOp::Draw { col: 7, row: 2, ch: ' ' as u32 });
    assert_eq!(cell_origin(3, 2), (32, 40));
    let mut sh = Shell::new(8 * 20 + 16, 16 * 3 + 16);
    let start = sh.start();
    assert_eq!(start[0], ShellOp::Clear);
    assert_eq!(start[9], ShellOp::Draw { col: 8, row: 0, ch: '_' as u32 });
    let ops = sh.handle_key(b'h');
    assert_eq!(
        ops,
        vec![
            ShellOp::Draw { col: 8, row: 0, ch: 'h' as u32 },
            ShellOp::Draw { col: 9, row: 0, ch: '_' as u32 },
        ]
    );
    sh.handle_key(b'i');
    let ops = sh.handle_key(0x08);
    assert_eq!(
        ops,
        vec![
            ShellOp::Draw { col: 10, row: 0, ch: ' ' as u32 },
            ShellOp::Draw { col: 9, row: 0, ch: '_' as u32 },
        ]
    );
    let ops = sh.handle_key(b'\n');
    assert_eq!(ops[0], ShellOp::Draw { col: 9, row: 0, ch: ' ' as u32 });
    assert_eq!(ops[1], ShellOp::Draw { col: 0, row: 1, ch: '>' as u32 });
    assert_eq!(ops[3], ShellOp::Draw { col: 2, row: 1, ch: 'h' as u32 });
    assert_eq!(ops[4], ShellOp::Draw { col: 0, row: 2, ch: 'a' as u32 });
    assert_eq!(*ops.last().unwrap(), ShellOp::Draw { col: 8, row: 2, ch: '_' as u32 });
}

#[test]
fn shell_wraps_to_top_and_stops_at_row_end() {
    let mut sh = Shell::new(8 * 11 + 16, 16 * 2 + 16);
    sh.start();
    assert_eq!(sh.handle_key(b'x').len(), 2);
    assert_eq!(sh.handle_key(b'y').len(), 2);
    assert!(sh.handle_key(b'z').is_empty());
    let ops = sh.handle_key(b'\n');
    assert!(ops.contains(&ShellOp::Clear));
    assert_eq!(*ops.last().unwrap(), ShellOp::Draw { col: 8, row: 0, ch: '_' as u32 });
    assert!(sh.handle_key(0x08).is_empty());
}

fn heap() -> KernelHeap {
    let mut h = KernelHeap::new();
    h.init(0, &[MemoryRegion { usable: true, base: 0x10_0000, length: 0x10_0000 }]);
    h
}

fn frame(rip: u64, rax: u64) -> IsrContext {
    IsrContext {
        r15: 15, r14: 14, r13: 13, r12: 12, r11: 11, r10: 10, r9: 9, r8: 8,
        rbp: 0, rdi: 0, rsi: 0, rdx: 0, rcx: 0, rbx: 0, rax,
        vector: 32, error_code: 0, rip, cs: 8, rflags: 0x202, rsp: 0x5000, ss: 0x10,
    }
}

#[test]
fn context_save_and_load() {
    let mut t = Task::empty();
    let c = frame(0x1234, 77);
    save_ctx(&mut t, &c);
    assert_eq!((t.rip, t.rax, t.r15, t.rsp), (0x1234, 77, 15, 0x5000));
    let mut c2 = frame(0, 0);
    c2.cs = 0x23;
    load_ctx(&t, &mut c2);
    assert_eq!((c2.rip, c2.rax, c2.cs, c2.ss), (0x1234, 77, 8, 0x10));
}

#[test]
fn scheduler_spawn_and_round_robin() {
    let mut h = heap();
    let mut s = Scheduler::new();
    s.init();
    let a = s.spawn(&mut h, 0xAAAA, 0x1, b"first", 0x7777).unwrap();
    let b = s.spawn(&mut h, 0xBBBB, 0x2, b"a-very-long-task-name", 0x7777).unwrap();
    assert_eq!((a, b), (1, 2));
    let mut ctx = frame(0x1000, 0);
    assert_eq!(s.timer_tick(&mut ctx), None);
    assert_eq!(s.ticks(), 1);
    assert_eq!(ctx.rip, 0x1000);
    s.start();
    let top = s.timer_tick(&mut ctx).unwrap();
    assert_eq!(ctx.rip, 0x7777);
    assert_eq!(ctx.rdi, 0xAAAA);
    assert_eq!(ctx.rsp % 0x4000, 0x4000 - 8);
    assert_eq!(top, ctx.rsp + 8);
    ctx.rax = 5;
    s.timer_tick(&mut ctx);
    assert_eq!(ctx.rdi, 0xBBBB);
    s.timer_tick(&mut ctx);
    assert_eq!(ctx.rip, 0x1000);
    s.timer_tick(&mut ctx);
    assert_eq!(ctx.rax, 5);
    assert_eq!(s.ticks(), 5);
}

#[test]
fn scheduler_preemption_hold() {
    let mut h = heap();
    let mut s = Scheduler::new();
    s.init();
    s.spawn(&mut h, 1, 0, b"t", 0x10).unwrap();
    s.start();
    s.preempt_disable();
    let mut ctx = frame(0x1000, 0);
    assert_eq!(s.timer_tick(&mut ctx), None);
    assert_eq!(ctx.rip, 0x1000);
    s.preempt_enable();
    s.preempt_enable();
    assert!(s.timer_tick(&mut ctx).is_some());
    assert_eq!(ctx.rip, 0x10);
}

#[test]
fn scheduler_slots_run_out_and_exited_slots_are_reused() {
    let mut h = heap();
    let mut s = Scheduler::new();
    s.init();
    for i in 1..16u16 {
        assert_eq!(s.spawn(&mut h, 0, 0, b"w", 0), Some(i));
    }
    assert_eq!(s.spawn(&mut h, 0, 0, b"w", 0), None);
    s.start();
    let mut ctx = frame(0x1000, 0);
    s.timer_tick(&mut ctx);
    s.task_exit();
    assert_eq!(s.spawn(&mut h, 0, 0, b"again", 0), Some(1));
}

#[test]
fn scheduler_without_stack_memory() {
    let mut h = KernelHeap::new();
    let mut s = Scheduler::new();
    s.init();
    assert_eq!(s.spawn(&mut h, 0, 0, b"x", 0), None);
}

#[test]
fn task_state_defaults() {
    let t = Task::empty();
    assert_eq!(t.state, TaskState::Empty);
    assert_eq!(t.name, [0u8; 16]);
}

#[test]
fn keyboard_releases_never_queue() {
    let mut kb = Keyboard::new();
    for sc in 0x80u8..=0xFF {
        kb.process_scancode(sc);
    }
    assert!(!kb.has_key());
}

#[test]
fn keyboard_caps_lock_twice_is_off() {
    let mut kb = Keyboard::new();
    assert_eq!(typed(&mut kb, &[0x3A, 0x3A, 0x1E]), b"a".to_vec());
}

#[test]
fn shell_backspace_undoes_a_character() {
    let mut sh = Shell::new(8 * 20 + 16, 16 * 3 + 16);
    sh.start();
    sh.handle_key(b'q');
    assert_eq!(sh.line_len(), 1);
    sh.handle_key(0x08);
    assert_eq!(sh.line_len(), 0);
    assert_eq!(sh.handle_key(b'r')[0], ShellOp::Draw { col: 8, row: 0, ch: 'r' as u32 });
}

#[test]
fn framebuffer_clear_leaves_row_padding() {
    let mut fb = Framebuffer::new(vec![0x11u8; 2 * 12], 2, 2, 12, 4);
    fb.clear(1, 2, 3);
    let px = fb.pixels();
    for y in 0..2 {
        for x in 0..2 {
            let o = y * 12 + x * 4;
            assert_eq!(&px[o..o + 4], &[3, 2, 1, 0xFF]);
        }
        assert_eq!(&px[y * 12 + 8..y * 12 + 12], &[0x11; 4]);
    }
}
