//! PCI configuration space through mechanism #1: the address written to
//! port 0xCF8, the fields decoded from the dwords read back at 0xCFC, BAR
//! decoding, and the registry of devices found by a bus scan.
use vstd::prelude::*;

verus! {

/// Bus, device and function of a PCI function.
#[derive(Clone, Copy, PartialEq, Eq, Structural, Debug)]
pub struct PciAddr {
    pub bus: u8,
    pub dev: u8,
    pub func: u8,
}

/// The configuration-address dword selecting the dword that holds byte
/// `offset` of function `a`'s configuration space.
pub open spec fn spec_config_address(a: PciAddr, offset: u8) -> u32 {
    0x8000_0000u32 | ((a.bus as u32) << 16u32) | ((a.dev as u32) << 11u32) | ((a.func as u32)
        << 8u32) | ((offset as u32) & 0xFCu32)
}

/// The 16-bit field at byte `offset` of a configuration dword `dword`.
pub open spec fn field16(dword: u32, offset: u8) -> u16 {
    (dword >> (((offset & 2u8) as u32) * 8)) as u16
}

/// The byte at `offset` of a configuration dword `dword`.
pub open spec fn field8(dword: u32, offset: u8) -> u8 {
    (dword >> (((offset & 3u8) as u32) * 8)) as u8
}

/// Vendor id that an empty slot reads as.
pub const NO_DEVICE: u16 = 0xFFFF;

/// The byte lanes of a configuration access stay inside the dword.
proof fn lemma_offset_bits(offset: u8)
    by (bit_vector)
    ensures
        offset & 2 <= 2,
        offset & 3 <= 3,
{
}

/// The standard header fields in terms of the dwords that hold them.
proof fn lemma_config_fields(d: u32)
    by (bit_vector)
    ensures
        field16(d, 0x00) == d % 0x1_0000,
        field16(d, 0x02) == d / 0x1_0000,
        field8(d, 0x0B) == d / 0x100_0000,
        field8(d, 0x0A) == (d / 0x1_0000) % 0x100,
        field8(d, 0x09) == (d / 0x100) % 0x100,
        field8(d, 0x0E) == (d / 0x1_0000) % 0x100,
        field8(d, 0x3C) == d % 0x100,
        field8(d, 0x3D) == (d / 0x100) % 0x100,
{
}

impl PciAddr {
    /// The value to write to the configuration-address port before reading
    /// or writing the dword that holds byte `offset`.
    pub fn config_address(&self, offset: u8) -> (r: u32)
        ensures
            r == spec_config_address(*self, offset),
    {
        0x8000_0000u32 | ((self.bus as u32) << 16u32) | ((self.dev as u32) << 11u32) | ((
        self.func as u32) << 8u32) | ((offset as u32) & 0xFCu32)
    }

    /// The 16-bit field at `offset`, given the dword `dword` read at the
    /// configuration address of `offset`.
    pub fn config_read16(&self, dword: u32, offset: u8) -> (r: u16)
        ensures
            r == field16(dword, offset),
    {
        proof {
            lemma_offset_bits(offset);
        }
        (dword >> (((offset & 2) as u32) * 8)) as u16
    }

    /// The byte at `offset`, given the dword `dword` read at the
    /// configuration address of `offset`.
    pub fn config_read8(&self, dword: u32, offset: u8) -> (r: u8)
        ensures
            r == field8(dword, offset),
    {
        proof {
            lemma_offset_bits(offset);
        }
        (dword >> (((offset & 3) as u32) * 8)) as u8
    }

    /// Vendor id (offset 0x00) from the dword at offset 0x00.
    pub fn vendor_id(&self, dword0: u32) -> (r: u16)
        ensures
            r == dword0 % 0x1_0000,
    {
        proof {
            lemma_config_fields(dword0);
        }
        self.config_read16(dword0, 0x00)
    }

    /// Device id (offset 0x02) from the dword at offset 0x00.
    pub fn device_id(&self, dword0: u32) -> (r: u16)
        ensures
            r == dword0 / 0x1_0000,
    {
        proof {
            lemma_config_fields(dword0);
        }
        self.config_read16(dword0, 0x02)
    }

    /// Class code (offset 0x0B) from the dword at offset 0x08.
    pub fn class_code(&self, dword8: u32) -> (r: u8)
        ensures
            r == dword8 / 0x100_0000,
    {
        proof {
            lemma_config_fields(dword8);
        }
        self.config_read8(dword8, 0x0B)
    }

    /// Subclass (offset 0x0A) from the dword at offset 0x08.
    pub fn subclass(&self, dword8: u32) -> (r: u8)
        ensures
            r == (dword8 / 0x1_0000) % 0x100,
    {
        proof {
            lemma_config_fields(dword8);
        }
        self.config_read8(dword8, 0x0A)
    }

    /// Programming interface (offset 0x09) from the dword at offset 0x08.
    pub fn prog_if(&self, dword8: u32) -> (r: u8)
        ensures
            r == (dword8 / 0x100) % 0x100,
    {
        proof {
            lemma_config_fields(dword8);
        }
        self.config_read8(dword8, 0x09)
    }

    /// Header type (offset 0x0E) from the dword at offset 0x0C.
    pub fn header_type(&self, dword_c: u32) -> (r: u8)
        ensures
            r == (dword_c / 0x1_0000) % 0x100,
    {
        proof {
            lemma_config_fields(dword_c);
        }
        self.config_read8(dword_c, 0x0E)
    }

    /// Interrupt line (offset 0x3C) from the dword at offset 0x3C.
    pub fn interrupt_line(&self, dword3c: u32) -> (r: u8)
        ensures
            r == dword3c % 0x100,
    {
        proof {
            lemma_config_fields(dword3c);
        }
        self.config_read8(dword3c, 0x3C)
    }

    /// Interrupt pin (offset 0x3D) from the dword at offset 0x3C.
    pub fn interrupt_pin(&self, dword3c: u32) -> (r: u8)
        ensures
            r == (dword3c / 0x100) % 0x100,
    {
        proof {
            lemma_config_fields(dword3c);
        }
        self.config_read8(dword3c, 0x3D)
    }

    /// Configuration offset of base address register `index` (0..5 on a
    /// type 0 header).
    pub fn bar_offset(&self, index: u8) -> (r: u8)
        requires
            0x10 + index * 4 <= u8::MAX,
        ensures
            r == 0x10 + index * 4,
    {
        0x10 + index * 4
    }

    /// Whether a memory BAR whose low dword is `bar0` is 64 bits wide, so that
    /// the next BAR holds the high half of its base.
    pub fn bar_is_64(&self, bar0: u32) -> (r: bool)
        ensures
            r == (bar0 & 1 == 0 && (bar0 >> 1u32) & 3 == 2),
    {
        bar0 & 1 == 0 && (bar0 >> 1u32) & 3 == 2
    }

    /// The base address that a BAR decodes to: an I/O BAR (bit 0 set) with
    /// its low 2 bits cleared; a memory BAR with its low 4 bits cleared,
    /// extended by `bar1`, the next BAR, when it is 64 bits wide.
    pub fn bar_mem_base(&self, bar0: u32, bar1: u32) -> (r: u64)
        ensures
            bar0 & 1 != 0 ==> r == (bar0 & !3u32) as u64,
            bar0 & 1 == 0 && (bar0 >> 1u32) & 3 == 2 ==> r == ((bar0 & !0xFu32) as u64) | ((
            bar1 as u64) << 32u64),
            bar0 & 1 == 0 && (bar0 >> 1u32) & 3 != 2 ==> r == (bar0 & !0xFu32) as u64,
    {
        if bar0 & 1 != 0 {
            return (bar0 & !3u32) as u64;
        }
        let bar_type = (bar0 >> 1u32) & 3;
        let base_lo = (bar0 & !0xFu32) as u64;
        if bar_type == 2 {
            base_lo | ((bar1 as u64) << 32u64)
        } else {
            base_lo
        }
    }

    /// The dword to write back at offset 0x04 to enable memory space and bus
    /// mastering, given the dword `full` read there: the command register
    /// (low half) gains bits 1 and 2, the status half is kept.
    pub fn enable_bus_master(&self, full: u32) -> (r: u32)
        ensures
            r == (full & 0xFFFF_0000u32) | ((field16(full, 0x04) | 6u16) as u32),
            r == full | 6,
    {
        let cmd = self.config_read16(full, 0x04);
        let new_cmd = cmd | 6;
        let r = (full & 0xFFFF_0000u32) | (new_cmd as u32);
        assert(r == full | 6) by (bit_vector)
            requires
                cmd == (full >> (((4u8 & 2u8) as u32) * 8)) as u16,
                new_cmd == cmd | 6,
                r == (full & 0xFFFF_0000u32) | (new_cmd as u32),
        ;
        r
    }
}

/// Number of functions to probe in a device whose function 0 has header
/// type `header`: 8 for a multi-function device (bit 7), else 1.
pub fn max_functions(header: u8) -> (r: u8)
    ensures
        r == (if header & 0x80 != 0 { 8u8 } else { 1u8 }),
{
    if header & 0x80 != 0 {
        8
    } else {
        1
    }
}

/// A function found by the bus scan.
#[derive(Clone, Copy, PartialEq, Eq, Structural, Debug)]
pub struct PciDevice {
    pub addr: PciAddr,
    pub vendor_id: u16,
    pub device_id: u16,
    pub class: u8,
    pub subclass: u8,
    pub prog_if: u8,
}

/// How many devices the registry keeps.
pub const MAX_PCI_DEVICES: usize = 64;

/// Whether `d` has the given class, subclass and programming interface.
pub open spec fn class_matches(d: PciDevice, class: u8, subclass: u8, prog_if: u8) -> bool {
    d.class == class && d.subclass == subclass && d.prog_if == prog_if
}

/// The devices recorded by a bus scan, in the order found; the first
/// MAX_PCI_DEVICES are kept and all are counted.
pub struct PciRegistry {
    devices: Vec<PciDevice>,
    found: usize,
}

impl PciRegistry {
    /// The devices kept, in scan order.
    pub closed spec fn devices(&self) -> Seq<PciDevice> {
        self.devices@
    }

    /// How many devices the scan found, kept or not.
    pub closed spec fn found(&self) -> nat {
        self.found as nat
    }

    pub closed spec fn wf(&self) -> bool {
        &&& self.devices@.len() <= MAX_PCI_DEVICES
        &&& self.devices@.len() <= self.found
        &&& self.devices@.len() < MAX_PCI_DEVICES ==> self.devices@.len() == self.found
    }

    /// An empty registry.
    pub fn new() -> (r: Self)
        ensures
            r.wf(),
            r.devices() == Seq::<PciDevice>::empty(),
            r.found() == 0,
    {
        PciRegistry { devices: Vec::new(), found: 0 }
    }

    /// Records a device found by the scan: it is kept while fewer than
    /// MAX_PCI_DEVICES are, and counted in any case.
    pub fn record(&mut self, dev: PciDevice)
        requires
            old(self).wf(),
            old(self).found() < usize::MAX,
        ensures
            final(self).wf(),
            final(self).found() == old(self).found() + 1,
            old(self).devices().len() < MAX_PCI_DEVICES ==> final(self).devices() == old(self).devices().push(dev),
            old(self).devices().len() >= MAX_PCI_DEVICES ==> final(self).devices() == old(self).devices(),
    {
        if self.devices.len() < MAX_PCI_DEVICES {
            self.devices.push(dev);
        }
        self.found = self.found + 1;
    }

    /// How many devices the scan found.
    pub fn count(&self) -> (r: usize)
        ensures
            r == self.found(),
    {
        self.found
    }

    /// The devices kept, in scan order.
    pub fn list(&self) -> (r: &[PciDevice])
        ensures
            r@ == self.devices(),
    {
        self.devices.as_slice()
    }

    /// The address of the first kept device with the given class, subclass
    /// and programming interface.
    pub fn find_by_class(&self, class: u8, subclass: u8, prog_if: u8) -> (r: Option<PciAddr>)
        ensures
            r is None <==> forall|i: int|
                0 <= i < self.devices().len() ==> !class_matches(
                    #[trigger] self.devices()[i],
                    class,
                    subclass,
                    prog_if,
                ),
            r is Some ==> exists|i: int|
                0 <= i < self.devices().len() && class_matches(
                    #[trigger] self.devices()[i],
                    class,
                    subclass,
                    prog_if,
                ) && self.devices()[i].addr == r->0 && forall|j: int|
                    0 <= j < i ==> !class_matches(self.devices()[j], class, subclass, prog_if),
    {
        let mut i: usize = 0;
        while i < self.devices.len()
            invariant
                i <= self.devices@.len(),
                forall|j: int|
                    0 <= j < i ==> !class_matches(#[trigger] self.devices@[j], class, subclass, prog_if),
            decreases self.devices@.len() - i,
        {
            let d = self.devices[i];
            if d.class == class && d.subclass == subclass && d.prog_if == prog_if {
                assert(class_matches(self.devices()[i as int], class, subclass, prog_if));
                assert(forall|j: int|
                    0 <= j < i ==> !class_matches(self.devices()[j], class, subclass, prog_if));
                return Some(d.addr);
            }
            i += 1;
        }
        None
    }
}

} // verus!
