//! Decoding what the `cpuid` instruction and the flags register report.
use vstd::prelude::*;

verus! {

/// Interrupt-enable bit of RFLAGS.
pub const RFLAGS_IF: u64 = 0x200;

/// Whether restoring saved flags `flags` re-enables interrupts (the IF bit
/// was set when they were saved).
pub fn restore_irq(flags: u64) -> (r: bool)
    ensures
        r == (flags & RFLAGS_IF != 0),
{
    flags & RFLAGS_IF != 0
}

/// Bytes of a 32-bit register, least significant first.
pub open spec fn le_bytes32(x: u32) -> Seq<u8> {
    seq![(x & 0xff) as u8, ((x >> 8) & 0xff) as u8, ((x >> 16) & 0xff) as u8, ((x >> 24) & 0xff) as u8]
}

fn put_le32(v: &mut [u8; 12], at: usize, x: u32)
    requires
        at + 4 <= 12,
    ensures
        final(v)@ == old(v)@.subrange(0, at as int) + le_bytes32(x) + old(v)@.subrange(at + 4, 12),
{
    v[at] = (x & 0xff) as u8;
    v[at + 1] = ((x >> 8) & 0xff) as u8;
    v[at + 2] = ((x >> 16) & 0xff) as u8;
    v[at + 3] = ((x >> 24) & 0xff) as u8;
    assert(v@ =~= old(v)@.subrange(0, at as int) + le_bytes32(x) + old(v)@.subrange(at + 4, 12));
}

/// The vendor string of leaf 0: EBX, EDX, ECX in that order.
pub fn cpu_vendor(ebx: u32, ecx: u32, edx: u32) -> (r: [u8; 12])
    ensures
        r@ == le_bytes32(ebx) + le_bytes32(edx) + le_bytes32(ecx),
{
    let mut vendor = [0u8; 12];
    put_le32(&mut vendor, 0, ebx);
    put_le32(&mut vendor, 4, edx);
    put_le32(&mut vendor, 8, ecx);
    assert(vendor@ =~= le_bytes32(ebx) + le_bytes32(edx) + le_bytes32(ecx));
    vendor
}

/// SSE: leaf 1, EDX bit 25.
pub fn has_feature_sse(edx: u32) -> (r: bool)
    ensures
        r == (edx & (1u32 << 25u32) != 0),
{
    edx & (1u32 << 25u32) != 0
}

/// SSE2: leaf 1, EDX bit 26.
pub fn has_feature_sse2(edx: u32) -> (r: bool)
    ensures
        r == (edx & (1u32 << 26u32) != 0),
{
    edx & (1u32 << 26u32) != 0
}

/// SSE3: leaf 1, ECX bit 0.
pub fn has_feature_sse3(ecx: u32) -> (r: bool)
    ensures
        r == (ecx & 1u32 != 0),
{
    ecx & 1u32 != 0
}

/// SSE4.1: leaf 1, ECX bit 19.
pub fn has_feature_sse41(ecx: u32) -> (r: bool)
    ensures
        r == (ecx & (1u32 << 19u32) != 0),
{
    ecx & (1u32 << 19u32) != 0
}

/// SSE4.2: leaf 1, ECX bit 20.
pub fn has_feature_sse42(ecx: u32) -> (r: bool)
    ensures
        r == (ecx & (1u32 << 20u32) != 0),
{
    ecx & (1u32 << 20u32) != 0
}

/// AVX: leaf 1, ECX bit 28.
pub fn has_feature_avx(ecx: u32) -> (r: bool)
    ensures
        r == (ecx & (1u32 << 28u32) != 0),
{
    ecx & (1u32 << 28u32) != 0
}

/// Time-stamp counter: leaf 1, EDX bit 4.
pub fn has_tsc(edx: u32) -> (r: bool)
    ensures
        r == (edx & (1u32 << 4u32) != 0),
{
    edx & (1u32 << 4u32) != 0
}

/// Whether the highest extended leaf `max_ext` (EAX of leaf 0x80000000)
/// includes the power-management leaf 0x80000007.
pub fn invariant_tsc_leaf_supported(max_ext: u32) -> (r: bool)
    ensures
        r == (max_ext >= 0x8000_0007),
{
    max_ext >= 0x8000_0007
}

/// Invariant TSC: the extended leaf 0x80000007 exists and its EDX bit 8
/// is set (`edx` is ignored when the leaf does not exist).
pub fn has_invariant_tsc(max_ext: u32, edx: u32) -> (r: bool)
    ensures
        r == (max_ext >= 0x8000_0007 && edx & (1u32 << 8u32) != 0),
{
    if !invariant_tsc_leaf_supported(max_ext) {
        return false;
    }
    edx & (1u32 << 8u32) != 0
}

/// Initial local APIC id: leaf 1, EBX bits 24..31.
pub fn lapic_id(ebx: u32) -> (r: u32)
    ensures
        r == ebx >> 24u32,
        r < 256,
{
    assert(ebx >> 24u32 < 256) by (bit_vector);
    ebx >> 24u32
}

} // verus!
