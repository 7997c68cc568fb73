//! Local APIC register settings.
use vstd::prelude::*;

verus! {

/// MSR holding the APIC base address.
pub const IA32_APIC_BASE_MSR: u32 = 0x1B;

/// Spurious-interrupt vector register offset.
pub const SVR: usize = 0xF0;

/// LINT0 local vector table register offset.
pub const LINT0: usize = 0x350;

/// LINT1 local vector table register offset.
pub const LINT1: usize = 0x360;

/// LINT0 setting: external interrupts (delivery mode ExtINT).
pub const LINT0_EXTINT: u32 = 0b111 << 8;

/// LINT1 setting: non-maskable interrupts (delivery mode NMI).
pub const LINT1_NMI: u32 = 0b100 << 8;

/// The spurious-interrupt register with the APIC software-enabled and the
/// spurious vector 0xFF.
pub fn svr_enable(svr: u32) -> (r: u32)
    ensures
        r == svr | 0x100 | 0xFF,
        r & 0x100 != 0,
        r & 0xFF == 0xFF,
{
    let r = svr | 0x100 | 0xFF;
    assert(r & 0x100 != 0 && r & 0xFF == 0xFF) by (bit_vector)
        requires
            r == svr | 0x100 | 0xFF,
    ;
    r
}

} // verus!
