//! Time-stamp-counter arithmetic: calibration against a 10 ms PIT interval
//! and conversions from ticks, given the calibrated frequency in kHz (0
//! while uncalibrated).
use vstd::prelude::*;

verus! {

/// PIT input clock in Hz.
pub const PIT_FREQ: u64 = 1193182;

/// Length of the calibration interval in ms.
pub const CALIBRATION_MS: u64 = 10;

/// PIT count for the calibration interval.
pub fn calibration_count() -> (r: u16)
    ensures
        r == PIT_FREQ * CALIBRATION_MS / 1000,
{
    (PIT_FREQ * CALIBRATION_MS / 1000) as u16
}

/// Whether the PIT countdown read back (`current`) shows that the
/// calibration interval has elapsed: the counter reached zero or wrapped.
pub fn calibration_done(current: u16, pit_count: u16) -> (r: bool)
    ensures
        r == (current == 0 || current > pit_count),
{
    current == 0 || current > pit_count
}

/// The frequency in kHz measured from TSC readings `start` and `end` taken
/// CALIBRATION_MS apart.
pub fn freq_khz(start: u64, end: u64) -> (r: u64)
    requires
        start <= end,
    ensures
        r == (end - start) / (CALIBRATION_MS as int),
{
    let ticks = end - start;
    ticks / CALIBRATION_MS
}

pub fn freq_mhz(freq_khz: u64) -> (r: u64)
    ensures
        r == freq_khz / 1000,
{
    freq_khz / 1000
}

/// Nanoseconds in `ticks` (0 while uncalibrated).
pub fn ticks_to_ns(ticks: u64, freq_khz: u64) -> (r: u64)
    requires
        freq_khz != 0 ==> ticks * 1_000_000 <= u64::MAX,
    ensures
        r == (if freq_khz == 0 { 0 } else { ticks * 1_000_000 / freq_khz as int }),
{
    if freq_khz == 0 {
        return 0;
    }
    ticks * 1_000_000 / freq_khz
}

/// Microseconds in `ticks` (0 while uncalibrated).
pub fn ticks_to_us(ticks: u64, freq_khz: u64) -> (r: u64)
    requires
        freq_khz != 0 ==> ticks * 1_000 <= u64::MAX,
    ensures
        r == (if freq_khz == 0 { 0 } else { ticks * 1_000 / freq_khz as int }),
{
    if freq_khz == 0 {
        return 0;
    }
    ticks * 1_000 / freq_khz
}

/// Milliseconds in `ticks` (0 while uncalibrated).
pub fn ticks_to_ms(ticks: u64, freq_khz: u64) -> (r: u64)
    ensures
        r == (if freq_khz == 0 { 0 } else { ticks / freq_khz }),
{
    if freq_khz == 0 {
        return 0;
    }
    ticks / freq_khz
}

/// Milliseconds since the counter started, from its current reading `now`.
pub fn uptime_ms(now: u64, freq_khz: u64) -> (r: u64)
    ensures
        r == (if freq_khz == 0 { 0 } else { now / freq_khz }),
{
    ticks_to_ms(now, freq_khz)
}

} // verus!
