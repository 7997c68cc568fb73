//! Control-register settings that enable SSE and AVX.
use vstd::prelude::*;

verus! {

/// CR0.EM: x87 emulation.
pub const CR0_EM: u64 = 1 << 2;

/// CR0.MP: monitor coprocessor.
pub const CR0_MP: u64 = 1 << 1;

/// CR4.OSFXSR and CR4.OSXMMEXCPT.
pub const CR4_SSE: u64 = (1 << 9) | (1 << 10);

/// CR4.OSXSAVE.
pub const CR4_OSXSAVE: u64 = 1 << 18;

/// XCR0 with x87, SSE and AVX state enabled.
pub const XCR0_AVX: u64 = 0x7;

/// CR0 with emulation off and coprocessor monitoring on.
pub fn sse_cr0(cr0: u64) -> (r: u64)
    ensures
        r == (cr0 & !CR0_EM) | CR0_MP,
{
    (cr0 & !CR0_EM) | CR0_MP
}

/// CR4 with FXSAVE and SIMD exceptions enabled, and XSAVE too when the CPU
/// has AVX.
pub fn sse_cr4(cr4: u64, avx: bool) -> (r: u64)
    ensures
        avx ==> r == cr4 | CR4_SSE | CR4_OSXSAVE,
        !avx ==> r == cr4 | CR4_SSE,
{
    let r = cr4 | CR4_SSE;
    if avx {
        r | CR4_OSXSAVE
    } else {
        r
    }
}

/// The two halves of XCR0 as `xsetbv` takes them (EAX, EDX).
pub fn xcr0_halves(xcr0: u64) -> (r: (u32, u32))
    ensures
        r.0 == xcr0 % 0x1_0000_0000,
        r.1 == xcr0 / 0x1_0000_0000,
{
    let lo = xcr0 as u32;
    let hi = (xcr0 >> 32u64) as u32;
    assert(lo == xcr0 % 0x1_0000_0000 && hi == xcr0 / 0x1_0000_0000) by (bit_vector)
        requires
            lo == xcr0 as u32,
            hi == (xcr0 >> 32u64) as u32,
    ;
    (lo, hi)
}

} // verus!
