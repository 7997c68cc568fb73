//! The 8254 programmable interval timer, channel 0.
use vstd::prelude::*;

verus! {

/// Input clock of the timer in Hz.
pub const PIT_FREQ: u32 = 1193182;

/// Mode command: channel 0, low then high byte, rate generator.
pub const PIT_MODE_RATE: u8 = 0x34;

/// The reload value for a tick rate of `hz`: the input clock divided by
/// it, capped at the 16-bit maximum.
pub fn divisor(hz: u32) -> (r: u16)
    requires
        hz > 0,
    ensures
        r == (if PIT_FREQ / hz > 0xFFFF { 0xFFFF } else { PIT_FREQ / hz }),
{
    let d = PIT_FREQ / hz;
    if d > 0xFFFF {
        0xFFFF
    } else {
        d as u16
    }
}

/// The two bytes written to the channel's data port for reload value `d`,
/// low byte first.
pub fn reload_bytes(d: u16) -> (r: (u8, u8))
    ensures
        r.0 == d % 256,
        r.1 == d / 256,
{
    let lo = (d & 0xFF) as u8;
    let hi = (d >> 8u16) as u8;
    assert(lo == d % 256 && hi == d / 256) by (bit_vector)
        requires
            lo == (d & 0xFF) as u8,
            hi == (d >> 8u16) as u8,
    ;
    (lo, hi)
}

} // verus!
