//! Encodings of the x86_64 descriptor tables: GDT segment and TSS
//! descriptors, IDT interrupt gates, and the task-state segment.
use vstd::prelude::*;

verus! {

/// One 8-byte GDT descriptor, field by field as the CPU lays it out.
#[derive(Clone, Copy, PartialEq, Eq, Structural, Debug)]
pub struct GdtEntry {
    pub limit_low: u16,
    pub base_low: u16,
    pub base_mid: u8,
    pub access: u8,
    pub granularity: u8,
    pub base_high: u8,
}

/// The 32-bit base address that descriptor `e` encodes.
pub open spec fn gdt_base(e: GdtEntry) -> int {
    e.base_low + e.base_mid * 0x1_0000 + e.base_high * 0x100_0000
}

/// The 20-bit limit that descriptor `e` encodes.
pub open spec fn gdt_limit(e: GdtEntry) -> int {
    e.limit_low + (e.granularity % 16) * 0x1_0000
}

/// The 4-bit flags nibble of descriptor `e`.
pub open spec fn gdt_flags(e: GdtEntry) -> int {
    (e.granularity / 16) as int
}

impl GdtEntry {
    /// The descriptor for a segment at `base` with `limit` (its low 20 bits
    /// are kept), access byte `access` and the low 4 bits of `flags`.
    pub fn new(base: u32, limit: u32, access: u8, flags: u8) -> (r: Self)
        ensures
            gdt_base(r) == base,
            gdt_limit(r) == limit % 0x10_0000,
            gdt_flags(r) == flags % 16,
            r.access == access,
    {
        let limit_low = (limit & 0xFFFF) as u16;
        let base_low = (base & 0xFFFF) as u16;
        let base_mid = ((base >> 16) & 0xFF) as u8;
        let base_high = ((base >> 24) & 0xFF) as u8;
        let granularity = ((limit >> 16) & 0x0F) as u8 | (flags << 4u8);
        assert(base_low + base_mid * 0x1_0000 + base_high * 0x100_0000 == base) by (bit_vector)
            requires
                base_low == (base & 0xFFFF) as u16,
                base_mid == ((base >> 16) & 0xFF) as u8,
                base_high == ((base >> 24) & 0xFF) as u8,
        ;
        assert(granularity % 16 == (limit >> 16) & 0x0F && granularity / 16 == flags % 16)
            by (bit_vector)
            requires
                granularity == ((limit >> 16) & 0x0F) as u8 | (flags << 4u8),
        ;
        assert(limit_low + ((limit >> 16) & 0x0F) * 0x1_0000 == limit % 0x10_0000) by (bit_vector)
            requires
                limit_low == (limit & 0xFFFF) as u16,
        ;
        let r = GdtEntry { limit_low, base_low, base_mid, access, granularity, base_high };
        r
    }

    /// The all-zero descriptor.
    pub fn null() -> (r: Self)
        ensures
            r == (GdtEntry {
                limit_low: 0,
                base_low: 0,
                base_mid: 0,
                access: 0,
                granularity: 0,
                base_high: 0,
            }),
    {
        let r = Self::new(0, 0, 0, 0);
        assert(r.limit_low == 0 && r.base_low == 0 && r.base_mid == 0 && r.base_high == 0
            && r.granularity == 0) by {
            assert(gdt_base(r) == 0);
            assert(gdt_limit(r) == 0);
            assert(gdt_flags(r) == 0);
        }
        r
    }
}

/// Kernel code segment selector.
pub const KERNEL_CS: u16 = 0x08;

/// Kernel data segment selector.
pub const KERNEL_DS: u16 = 0x10;

/// User data segment selector (RPL 3).
pub const USER_DS: u16 = 0x1B;

/// User code segment selector (RPL 3).
pub const USER_CS: u16 = 0x23;

/// Selector of the TSS descriptor.
pub const TSS_SEL: u16 = 0x28;

/// Number of GDT slots: null, four segments, and the two halves of the TSS
/// descriptor.
pub const GDT_ENTRIES: usize = 7;

/// The 64-bit base that the two halves `low`, `high` of a system
/// descriptor encode together.
pub open spec fn tss_base(low: GdtEntry, high: GdtEntry) -> int {
    gdt_base(low) + high.limit_low * 0x1_0000_0000 + high.base_low * 0x1_0000_0000_0000
}

/// The global descriptor table.
pub struct Gdt {
    pub entries: [GdtEntry; 7],
}

impl Gdt {
    /// The kernel's table: null, kernel code, kernel data, user data, user
    /// code (all flat, 4 GiB limit), and two empty slots for the TSS.
    pub fn new() -> (r: Self)
        ensures
            r.entries@[0] == GdtEntry::null_spec(),
            gdt_limit(r.entries@[1]) == 0xFFFFF && gdt_base(r.entries@[1]) == 0,
            r.entries@[1].access == 0x9A && gdt_flags(r.entries@[1]) == 0xA,
            gdt_limit(r.entries@[2]) == 0xFFFFF && gdt_base(r.entries@[2]) == 0,
            r.entries@[2].access == 0x92 && gdt_flags(r.entries@[2]) == 0xC,
            gdt_limit(r.entries@[3]) == 0xFFFFF && gdt_base(r.entries@[3]) == 0,
            r.entries@[3].access == 0xF2 && gdt_flags(r.entries@[3]) == 0xC,
            gdt_limit(r.entries@[4]) == 0xFFFFF && gdt_base(r.entries@[4]) == 0,
            r.entries@[4].access == 0xFA && gdt_flags(r.entries@[4]) == 0xA,
            r.entries@[5] == GdtEntry::null_spec(),
            r.entries@[6] == GdtEntry::null_spec(),
    {
        let z = GdtEntry::null();
        let r = Gdt {
            entries: [
                z,
                GdtEntry::new(0, 0xFFFFF, 0x9A, 0xA),
                GdtEntry::new(0, 0xFFFFF, 0x92, 0xC),
                GdtEntry::new(0, 0xFFFFF, 0xF2, 0xC),
                GdtEntry::new(0, 0xFFFFF, 0xFA, 0xA),
                z,
                z,
            ],
        };
        r
    }

    /// Writes the 16-byte TSS descriptor for a TSS at `base` with byte
    /// limit `limit` (type 0x89: present, available 64-bit TSS) into slots
    /// 5 and 6.
    pub fn install_tss(&mut self, base: u64, limit: u16)
        ensures
            tss_base(final(self).entries@[5], final(self).entries@[6]) == base,
            gdt_limit(final(self).entries@[5]) == limit,
            gdt_flags(final(self).entries@[5]) == 0,
            final(self).entries@[5].access == 0x89,
            final(self).entries@[6].base_mid == 0 && final(self).entries@[6].access == 0,
            final(self).entries@[6].granularity == 0 && final(self).entries@[6].base_high == 0,
            forall|i: int| 0 <= i < 5 ==> final(self).entries@[i] == old(self).entries@[i],
    {
        let limit_val = limit as u32;
        let base_lo = base as u32;
        let base_hi = (base >> 32u64) as u32;
        let low = GdtEntry {
            limit_low: (limit_val & 0xFFFF) as u16,
            base_low: (base_lo & 0xFFFF) as u16,
            base_mid: ((base_lo >> 16) & 0xFF) as u8,
            access: 0x89,
            granularity: ((limit_val >> 16) & 0x0F) as u8,
            base_high: ((base_lo >> 24) & 0xFF) as u8,
        };
        let high = GdtEntry {
            limit_low: (base_hi & 0xFFFF) as u16,
            base_low: ((base_hi >> 16) & 0xFFFF) as u16,
            base_mid: 0,
            access: 0,
            granularity: 0,
            base_high: 0,
        };
        assert(low.base_low + low.base_mid * 0x1_0000 + low.base_high * 0x100_0000
            + high.limit_low * 0x1_0000_0000 + high.base_low * 0x1_0000_0000_0000 == base) by {
            let b0 = low.base_low;
            let b1 = low.base_mid;
            let b2 = low.base_high;
            let b3 = high.limit_low;
            let b4 = high.base_low;
            assert(b0 + b1 * 0x1_0000 + b2 * 0x100_0000 + b3 * 0x1_0000_0000 + b4
                * 0x1_0000_0000_0000 == base) by (bit_vector)
                requires
                    base_lo == base as u32,
                    base_hi == (base >> 32u64) as u32,
                    b0 == (base_lo & 0xFFFF) as u16,
                    b1 == ((base_lo >> 16) & 0xFF) as u8,
                    b2 == ((base_lo >> 24) & 0xFF) as u8,
                    b3 == (base_hi & 0xFFFF) as u16,
                    b4 == ((base_hi >> 16) & 0xFFFF) as u16,
            ;
        }
        assert(gdt_limit(low) == limit && gdt_flags(low) == 0) by {
            let l0 = low.limit_low;
            let g = low.granularity;
            assert(l0 + (g % 16) * 0x1_0000 == limit && g / 16 == 0) by (bit_vector)
                requires
                    limit_val == limit as u32,
                    l0 == (limit_val & 0xFFFF) as u16,
                    g == ((limit_val >> 16) & 0x0F) as u8,
            ;
        }
        self.entries[5] = low;
        self.entries[6] = high;
    }
}

impl GdtEntry {
    /// The all-zero descriptor, as a value.
    pub open spec fn null_spec() -> GdtEntry {
        GdtEntry { limit_low: 0, base_low: 0, base_mid: 0, access: 0, granularity: 0, base_high: 0 }
    }
}

/// One 16-byte IDT gate descriptor.
#[derive(Clone, Copy, PartialEq, Eq, Structural, Debug)]
pub struct IdtEntry {
    pub offset_low: u16,
    pub selector: u16,
    pub ist: u8,
    pub type_attr: u8,
    pub offset_mid: u16,
    pub offset_high: u32,
    pub reserved: u32,
}

/// The handler address that gate `e` points to.
pub open spec fn idt_offset(e: IdtEntry) -> int {
    e.offset_low + e.offset_mid * 0x1_0000 + e.offset_high * 0x1_0000_0000
}

/// The descriptor privilege level of gate `e` (bits 5..6 of its type byte).
pub open spec fn idt_dpl(e: IdtEntry) -> int {
    ((e.type_attr / 32) % 4) as int
}

impl IdtEntry {
    /// A not-present gate with every field zero.
    pub fn empty() -> (r: Self)
        ensures
            r == (IdtEntry {
                offset_low: 0,
                selector: 0,
                ist: 0,
                type_attr: 0,
                offset_mid: 0,
                offset_high: 0,
                reserved: 0,
            }),
    {
        IdtEntry {
            offset_low: 0,
            selector: 0,
            ist: 0,
            type_attr: 0,
            offset_mid: 0,
            offset_high: 0,
            reserved: 0,
        }
    }

    /// Makes this a present ring-0 interrupt gate (type 0x8E) in the kernel
    /// code segment that jumps to `handler`.
    pub fn set_handler(&mut self, handler: u64)
        ensures
            idt_offset(*final(self)) == handler,
            final(self).selector == KERNEL_CS,
            final(self).type_attr == 0x8E,
            final(self).ist == 0,
            final(self).reserved == 0,
    {
        self.offset_low = handler as u16;
        self.offset_mid = (handler >> 16u64) as u16;
        self.offset_high = (handler >> 32u64) as u32;
        self.selector = KERNEL_CS;
        self.type_attr = 0x8E;
        self.ist = 0;
        self.reserved = 0;
        let lo = self.offset_low;
        let mid = self.offset_mid;
        let hi = self.offset_high;
        assert(lo + mid * 0x1_0000 + hi * 0x1_0000_0000 == handler) by (bit_vector)
            requires
                lo == handler as u16,
                mid == (handler >> 16u64) as u16,
                hi == (handler >> 32u64) as u32,
        ;
    }

    /// Sets the privilege level of this gate (bits 5 and 6 of the type byte) from
    /// bits 0 and 1 of `dpl`; the type byte's other bits stay as they were.
    pub fn set_dpl(&mut self, dpl: u8)
        ensures
            idt_dpl(*final(self)) == dpl % 4,
            final(self).type_attr % 32 == old(self).type_attr % 32,
            final(self).type_attr / 128 == old(self).type_attr / 128,
            final(self).offset_low == old(self).offset_low,
            final(self).offset_mid == old(self).offset_mid,
            final(self).offset_high == old(self).offset_high,
            final(self).selector == old(self).selector,
            final(self).ist == old(self).ist,
            final(self).reserved == old(self).reserved,
    {
        let t = self.type_attr;
        let base = t & 0x9F;
        let n = base | ((dpl & 3) << 5u8);
        assert((n / 32) % 4 == dpl % 4 && n % 32 == t % 32 && n / 128 == t / 128) by (bit_vector)
            requires
                n == (t & 0x9F) | ((dpl & 3) << 5u8),
        ;
        self.type_attr = n;
    }
}

/// Number of IDT slots.
pub const IDT_ENTRIES: usize = 256;

/// Entry count of the exception and IRQ stubs that `init` installs.
pub const STUB_COUNT: usize = 48;

/// The system-call vector.
pub const SYSCALL_VECTOR: usize = 0x80;

/// The interrupt descriptor table.
pub struct Idt {
    pub entries: Vec<IdtEntry>,
}

impl Idt {
    /// A table of 256 empty gates.
    pub fn new() -> (r: Self)
        ensures
            r.entries@.len() == IDT_ENTRIES,
            forall|i: int| 0 <= i < IDT_ENTRIES ==> r.entries@[i].type_attr == 0
                && r.entries@[i] == IdtEntry::empty_spec(),
    {
        let mut entries: Vec<IdtEntry> = Vec::new();
        let mut i: usize = 0;
        while i < IDT_ENTRIES
            invariant
                i <= IDT_ENTRIES,
                entries@.len() == i,
                forall|j: int| 0 <= j < i ==> entries@[j] == IdtEntry::empty_spec(),
            decreases IDT_ENTRIES - i,
        {
            entries.push(IdtEntry::empty());
            i += 1;
        }
        Idt { entries }
    }

    /// Points gate `vector` at `handler` (see `IdtEntry::set_handler`); a
    /// vector outside the table changes nothing.
    pub fn set_handler(&mut self, vector: usize, handler: u64)
        requires
            old(self).entries@.len() == IDT_ENTRIES,
        ensures
            final(self).entries@.len() == IDT_ENTRIES,
            vector < IDT_ENTRIES ==> idt_offset(final(self).entries@[vector as int]) == handler
                && final(self).entries@[vector as int].type_attr == 0x8E
                && final(self).entries@[vector as int].selector == KERNEL_CS
                && final(self).entries@[vector as int].ist == 0
                && final(self).entries@[vector as int].reserved == 0,
            forall|i: int| 0 <= i < IDT_ENTRIES && i != vector ==> final(self).entries@[i]
                == old(self).entries@[i],
    {
        if vector < IDT_ENTRIES {
            let mut e = self.entries[vector];
            e.set_handler(handler);
            self.entries.set(vector, e);
        }
    }

    /// Sets the privilege level of gate `vector` (see `IdtEntry::set_dpl`);
    /// a vector outside the table changes nothing.
    pub fn set_gate_dpl(&mut self, vector: usize, dpl: u8)
        requires
            old(self).entries@.len() == IDT_ENTRIES,
        ensures
            final(self).entries@.len() == IDT_ENTRIES,
            vector < IDT_ENTRIES ==> idt_dpl(final(self).entries@[vector as int]) == dpl % 4
                && idt_offset(final(self).entries@[vector as int]) == idt_offset(
                old(self).entries@[vector as int],
            ),
            forall|i: int| 0 <= i < IDT_ENTRIES && i != vector ==> final(self).entries@[i]
                == old(self).entries@[i],
    {
        if vector < IDT_ENTRIES {
            let mut e = self.entries[vector];
            e.set_dpl(dpl);
            self.entries.set(vector, e);
        }
    }

    /// Installs the 48 exception and IRQ stubs at vectors 0..47 and the
    /// system-call stub at 0x80; `stubs` holds the 48 stub addresses.
    pub fn install_stubs(&mut self, stubs: &[u64], syscall_stub: u64)
        requires
            old(self).entries@.len() == IDT_ENTRIES,
            stubs@.len() == STUB_COUNT,
        ensures
            final(self).entries@.len() == IDT_ENTRIES,
            forall|i: int| 0 <= i < STUB_COUNT ==> idt_offset(#[trigger] final(self).entries@[i])
                == stubs@[i] && final(self).entries@[i].type_attr == 0x8E,
            idt_offset(final(self).entries@[SYSCALL_VECTOR as int]) == syscall_stub,
            final(self).entries@[SYSCALL_VECTOR as int].type_attr == 0x8E,
            forall|i: int| STUB_COUNT <= i < IDT_ENTRIES && i != SYSCALL_VECTOR ==> #[trigger] final(self).entries@[i] == old(self).entries@[i],
    {
        let mut i: usize = 0;
        while i < STUB_COUNT
            invariant
                i <= STUB_COUNT,
                stubs@.len() == STUB_COUNT,
                self.entries@.len() == IDT_ENTRIES,
                forall|j: int| 0 <= j < i ==> idt_offset(#[trigger] self.entries@[j]) == stubs@[j]
                    && self.entries@[j].type_attr == 0x8E,
                forall|j: int| i <= j < IDT_ENTRIES ==> #[trigger] self.entries@[j] == old(self).entries@[j],
            decreases STUB_COUNT - i,
        {
            self.set_handler(i, stubs[i]);
            i += 1;
        }
        self.set_handler(SYSCALL_VECTOR, syscall_stub);
    }
}

impl IdtEntry {
    /// The all-zero gate, as a value.
    pub open spec fn empty_spec() -> IdtEntry {
        IdtEntry {
            offset_low: 0,
            selector: 0,
            ist: 0,
            type_attr: 0,
            offset_mid: 0,
            offset_high: 0,
            reserved: 0,
        }
    }
}

/// The registers that the common interrupt stub pushes, followed by the
/// vector, the error code and the frame the CPU pushed.
#[derive(Clone, Copy, PartialEq, Eq, Structural, Debug)]
pub struct IsrContext {
    pub r15: u64,
    pub r14: u64,
    pub r13: u64,
    pub r12: u64,
    pub r11: u64,
    pub r10: u64,
    pub r9: u64,
    pub r8: u64,
    pub rbp: u64,
    pub rdi: u64,
    pub rsi: u64,
    pub rdx: u64,
    pub rcx: u64,
    pub rbx: u64,
    pub rax: u64,
    pub vector: u64,
    pub error_code: u64,
    pub rip: u64,
    pub cs: u64,
    pub rflags: u64,
    pub rsp: u64,
    pub ss: u64,
}

/// The frame the CPU pushes on an interrupt.
#[derive(Clone, Copy, PartialEq, Eq, Structural, Debug)]
pub struct InterruptFrame {
    pub rip: u64,
    pub cs: u64,
    pub rflags: u64,
    pub rsp: u64,
    pub ss: u64,
}

/// The 64-bit task-state segment, field by field.
#[derive(Clone, Copy, PartialEq, Eq, Structural, Debug)]
pub struct Tss {
    pub reserved0: u32,
    pub rsp0: u64,
    pub rsp1: u64,
    pub rsp2: u64,
    pub reserved1: u64,
    pub ist1: u64,
    pub ist2: u64,
    pub ist3: u64,
    pub ist4: u64,
    pub ist5: u64,
    pub ist6: u64,
    pub ist7: u64,
    pub reserved2: u64,
    pub reserved3: u16,
    pub iomap_base: u16,
}

/// Size in bytes of the packed TSS layout.
pub const TSS_BYTES: u16 = 104;

impl Tss {
    /// A TSS with every stack pointer zero and the I/O bitmap placed just
    /// past the segment (so that there is none).
    pub fn new() -> (r: Self)
        ensures
            r.rsp0 == 0 && r.rsp1 == 0 && r.rsp2 == 0,
            r.ist1 == 0 && r.ist2 == 0 && r.ist3 == 0 && r.ist4 == 0,
            r.ist5 == 0 && r.ist6 == 0 && r.ist7 == 0,
            r.reserved0 == 0 && r.reserved1 == 0 && r.reserved2 == 0 && r.reserved3 == 0,
            r.iomap_base == TSS_BYTES,
    {
        Tss {
            reserved0: 0,
            rsp0: 0,
            rsp1: 0,
            rsp2: 0,
            reserved1: 0,
            ist1: 0,
            ist2: 0,
            ist3: 0,
            ist4: 0,
            ist5: 0,
            ist6: 0,
            ist7: 0,
            reserved2: 0,
            reserved3: 0,
            iomap_base: TSS_BYTES,
        }
    }

    /// Sets the stack that the CPU switches to on entry to ring 0.
    pub fn set_kernel_stack(&mut self, rsp0: u64)
        ensures
            *final(self) == (Tss { rsp0, ..*old(self) }),
    {
        self.rsp0 = rsp0;
    }
}

/// The byte limit to put in the TSS descriptor: its size minus one.
pub fn tss_size() -> (r: u16)
    ensures
        r == TSS_BYTES - 1,
{
    TSS_BYTES - 1
}

} // verus!
