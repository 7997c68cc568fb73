//! The `int 0x80` system-call interface: decoding a call from the trapped
//! registers and setting up the return.
use vstd::prelude::*;
use crate::descriptor::{Idt, IsrContext, IDT_ENTRIES, SYSCALL_VECTOR, KERNEL_CS, KERNEL_DS, idt_dpl,
    idt_offset};

verus! {

pub const SYS_EXIT: u64 = 0;

pub const SYS_SERIAL_WRITE: u64 = 1;

/// Longest serial write accepted (exclusive).
pub const SERIAL_WRITE_MAX: u64 = 4096;

/// Flags the kernel resumes with after an exit: interrupts enabled.
pub const RESUME_RFLAGS: u64 = 0x202;

/// What the kernel has to do for a system call besides the register
/// changes.
#[derive(Clone, Copy, PartialEq, Eq, Structural, Debug)]
pub enum SyscallAction {
    /// Report the exit status; the context now resumes in the kernel.
    Exit(u64),
    /// Write `len` bytes from user address `ptr` to the serial port.
    SerialWrite { ptr: u64, len: u64 },
    /// Nothing to do (a serial write with a null or too long buffer).
    Nothing,
    /// Report an unknown call number.
    Unknown(u64),
}

/// The context and action for system call `ctx.rax` trapped in `ctx`;
/// exit resumes at `resume_rip` on the stack ending at `resume_stack`.
pub open spec fn syscall_outcome(ctx: IsrContext, resume_rip: u64, resume_stack: u64) -> (IsrContext, SyscallAction) {
    if ctx.rax == SYS_EXIT {
        (
            IsrContext {
                cs: KERNEL_CS as u64,
                ss: KERNEL_DS as u64,
                rip: resume_rip,
                rflags: RESUME_RFLAGS,
                rsp: resume_stack,
                ..ctx
            },
            SyscallAction::Exit(ctx.rdi),
        )
    } else if ctx.rax == SYS_SERIAL_WRITE {
        (
            IsrContext { rax: 0, ..ctx },
            if ctx.rdi != 0 && ctx.rsi < SERIAL_WRITE_MAX {
                SyscallAction::SerialWrite { ptr: ctx.rdi, len: ctx.rsi }
            } else {
                SyscallAction::Nothing
            },
        )
    } else {
        (IsrContext { rax: u64::MAX, ..ctx }, SyscallAction::Unknown(ctx.rax))
    }
}

/// Handles the system call trapped in `ctx` (number in RAX, arguments in
/// RDI and RSI): exit redirects the context to `resume_rip` in the kernel
/// on the stack ending at `resume_stack`; a serial write returns 0; an
/// unknown call returns all ones.
pub fn syscall_dispatch(ctx: &mut IsrContext, resume_rip: u64, resume_stack: u64) -> (r: SyscallAction)
    ensures
        (*final(ctx), r) == syscall_outcome(*old(ctx), resume_rip, resume_stack),
{
    let nr = ctx.rax;
    if nr == SYS_EXIT {
        let code = ctx.rdi;
        ctx.cs = KERNEL_CS as u64;
        ctx.ss = KERNEL_DS as u64;
        ctx.rip = resume_rip;
        ctx.rflags = RESUME_RFLAGS;
        ctx.rsp = resume_stack;
        SyscallAction::Exit(code)
    } else if nr == SYS_SERIAL_WRITE {
        let ptr = ctx.rdi;
        let len = ctx.rsi;
        ctx.rax = 0;
        if ptr != 0 && len < SERIAL_WRITE_MAX {
            SyscallAction::SerialWrite { ptr, len }
        } else {
            SyscallAction::Nothing
        }
    } else {
        ctx.rax = u64::MAX;
        SyscallAction::Unknown(nr)
    }
}

/// Opens the system-call gate to user mode (privilege level 3).
pub fn init(idt: &mut Idt)
    requires
        old(idt).entries@.len() == IDT_ENTRIES,
    ensures
        final(idt).entries@.len() == IDT_ENTRIES,
        idt_dpl(final(idt).entries@[SYSCALL_VECTOR as int]) == 3,
        idt_offset(final(idt).entries@[SYSCALL_VECTOR as int]) == idt_offset(
            old(idt).entries@[SYSCALL_VECTOR as int],
        ),
        forall|i: int| 0 <= i < IDT_ENTRIES && i != SYSCALL_VECTOR ==> final(idt).entries@[i]
            == old(idt).entries@[i],
{
    idt.set_gate_dpl(SYSCALL_VECTOR, 3);
}

} // verus!
