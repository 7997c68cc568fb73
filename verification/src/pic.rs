//! The pair of 8259 interrupt controllers: remapping, masking and
//! end-of-interrupt.
use vstd::prelude::*;

verus! {

pub const PIC1_CMD: u16 = 0x20;

pub const PIC1_DATA: u16 = 0x21;

pub const PIC2_CMD: u16 = 0xA0;

pub const PIC2_DATA: u16 = 0xA1;

/// Initialisation command word 1: start initialisation, ICW4 follows.
pub const ICW1_INIT: u8 = 0x11;

/// ICW4: 8086 mode.
pub const ICW4_8086: u8 = 0x01;

/// The end-of-interrupt command.
pub const PIC_EOI: u8 = 0x20;

/// One write to a controller port.
#[derive(Clone, Copy, PartialEq, Eq, Structural, Debug)]
pub struct PortWrite {
    pub port: u16,
    pub value: u8,
}

/// The writes that remap the controllers' vectors to `offset1` (master) and
/// `offset2` (slave) and restore the masks `mask1`, `mask2` read before;
/// every write but the last two is followed by an I/O wait.
pub fn remap_sequence(offset1: u8, offset2: u8, mask1: u8, mask2: u8) -> (r: Vec<PortWrite>)
    ensures
        r@ == seq![
            PortWrite { port: PIC1_CMD, value: ICW1_INIT },
            PortWrite { port: PIC2_CMD, value: ICW1_INIT },
            PortWrite { port: PIC1_DATA, value: offset1 },
            PortWrite { port: PIC2_DATA, value: offset2 },
            PortWrite { port: PIC1_DATA, value: 4 },
            PortWrite { port: PIC2_DATA, value: 2 },
            PortWrite { port: PIC1_DATA, value: ICW4_8086 },
            PortWrite { port: PIC2_DATA, value: ICW4_8086 },
            PortWrite { port: PIC1_DATA, value: mask1 },
            PortWrite { port: PIC2_DATA, value: mask2 },
        ],
{
    let mut r: Vec<PortWrite> = Vec::new();
    r.push(PortWrite { port: PIC1_CMD, value: ICW1_INIT });
    r.push(PortWrite { port: PIC2_CMD, value: ICW1_INIT });
    r.push(PortWrite { port: PIC1_DATA, value: offset1 });
    r.push(PortWrite { port: PIC2_DATA, value: offset2 });
    r.push(PortWrite { port: PIC1_DATA, value: 4 });
    r.push(PortWrite { port: PIC2_DATA, value: 2 });
    r.push(PortWrite { port: PIC1_DATA, value: ICW4_8086 });
    r.push(PortWrite { port: PIC2_DATA, value: ICW4_8086 });
    r.push(PortWrite { port: PIC1_DATA, value: mask1 });
    r.push(PortWrite { port: PIC2_DATA, value: mask2 });
    assert(r@ =~= seq![
        PortWrite { port: PIC1_CMD, value: ICW1_INIT },
        PortWrite { port: PIC2_CMD, value: ICW1_INIT },
        PortWrite { port: PIC1_DATA, value: offset1 },
        PortWrite { port: PIC2_DATA, value: offset2 },
        PortWrite { port: PIC1_DATA, value: 4 },
        PortWrite { port: PIC2_DATA, value: 2 },
        PortWrite { port: PIC1_DATA, value: ICW4_8086 },
        PortWrite { port: PIC2_DATA, value: ICW4_8086 },
        PortWrite { port: PIC1_DATA, value: mask1 },
        PortWrite { port: PIC2_DATA, value: mask2 },
    ]);
    r
}

/// The command ports to send end-of-interrupt to for `irq`: the slave's
/// first for IRQs 8 and up, then always the master's.
pub fn eoi_ports(irq: u8) -> (r: Vec<u16>)
    ensures
        irq >= 8 ==> r@ == seq![PIC2_CMD, PIC1_CMD],
        irq < 8 ==> r@ == seq![PIC1_CMD],
{
    let mut r: Vec<u16> = Vec::new();
    if irq >= 8 {
        r.push(PIC2_CMD);
    }
    r.push(PIC1_CMD);
    assert(irq >= 8 ==> r@ =~= seq![PIC2_CMD, PIC1_CMD]);
    assert(irq < 8 ==> r@ =~= seq![PIC1_CMD]);
    r
}

/// The data port holding the mask bit of `irq`, and the bit's position.
pub fn mask_target(irq: u8) -> (r: (u16, u8))
    requires
        irq < 16,
    ensures
        irq < 8 ==> r == (PIC1_DATA, irq),
        irq >= 8 ==> r == (PIC2_DATA, (irq - 8) as u8),
{
    if irq < 8 {
        (PIC1_DATA, irq)
    } else {
        (PIC2_DATA, irq - 8)
    }
}

/// The mask register value `val` with the bit of `irq` set (IRQ masked).
pub fn set_mask(val: u8, irq: u8) -> (r: u8)
    requires
        irq < 16,
    ensures
        r == val | (1u8 << mask_bit(irq)),
{
    let (_, bit) = mask_target(irq);
    val | (1u8 << bit)
}

/// The mask register value `val` with the bit of `irq` cleared (IRQ
/// enabled).
pub fn clear_mask(val: u8, irq: u8) -> (r: u8)
    requires
        irq < 16,
    ensures
        r == val & !(1u8 << mask_bit(irq)),
{
    let (_, bit) = mask_target(irq);
    val & !(1u8 << bit)
}

/// Position of `irq`'s bit in its controller's mask register.
pub open spec fn mask_bit(irq: u8) -> u8 {
    if irq < 8 {
        irq
    } else {
        (irq - 8) as u8
    }
}

/// Masking then unmasking an IRQ leaves the other IRQs' bits as they were
/// and the IRQ itself enabled.
pub proof fn lemma_mask_unmask(val: u8, irq: u8)
    requires
        irq < 16,
    ensures
        ((val | (1u8 << mask_bit(irq))) & !(1u8 << mask_bit(irq))) == val & !(1u8 << mask_bit(irq)),
{
    let b = mask_bit(irq);
    assert(((val | (1u8 << b)) & !(1u8 << b)) == val & !(1u8 << b)) by (bit_vector)
        requires
            b < 8,
    ;
}

} // verus!
