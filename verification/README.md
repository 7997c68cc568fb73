# avaria

The logic of a small x86_64 kernel, written in Verus and proved against its
contracts, with a thin unverified shell that boots it.

## Layout

- `src/` is the verified library. Each module holds one part of the kernel:
  - memory: `buddy` (page allocator), `slab` (small objects), `heap`
    (kmalloc over both), `paging` (page-table entries and walk steps);
  - formats: `elf`, `initrd` (tar), `psf` (fonts), `ext3`, `bytes`;
  - tasks and messages: `sched`, `ipc`, `syscall`, `spinlock`;
  - devices: `ahci`, `pci`, `ps2`, `pic`, `pit`, `lapic`, `smp`, `sse`,
    `tsc`, `cpu`, `serial`, `vesa`, `descriptor` (GDT, IDT, TSS), `shell`.

  Where the hardware has to be touched, the library decides and the caller
  acts: a function computes the register value, the bytes to send or the
  next step of a walk (`BlockWalk`, `PathWalk`, `PageStep`), and states
  exactly what it returns.
- `app/` boots the kernel: the limine requests, port and MMIO access,
  interrupt stubs, the loops that drive the library's step functions, and
  the function table handed to loadable modules.
- `tests/` runs the library on concrete values.
