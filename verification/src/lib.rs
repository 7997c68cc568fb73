//! Verified core of the avaria x86_64 hobby kernel: memory allocators,
//! message passing, file-format parsers (ELF, tar, PSF, ext3) and the
//! decision logic of its drivers and scheduler.
use vstd::prelude::*;

pub mod bitmap;
pub mod buddy;
pub mod slab;
pub mod heap;
pub mod ipc;
pub mod spinlock;
pub mod vfs;
pub mod initrd;
pub mod vesa;
pub mod psf;
pub mod bytes;
pub mod elf;
pub mod cpu;
pub mod tsc;
pub mod serial;
pub mod descriptor;
pub mod pci;
pub mod ps2;
pub mod sched;
pub mod ext3;
pub mod paging;
pub mod pic;
pub mod pit;
pub mod sse;
pub mod lapic;
pub mod smp;
pub mod syscall;
pub mod shell;
pub mod ahci;
