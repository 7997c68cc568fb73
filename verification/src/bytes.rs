//! Little-endian field reads from byte slices.
use vstd::prelude::*;
use vstd::bytes::{
    spec_u16_from_le_bytes,
    spec_u32_from_le_bytes,
    spec_u64_from_le_bytes,
    u16_from_le_bytes,
    u32_from_le_bytes,
    u64_from_le_bytes,
};

verus! {

/// The 16-bit little-endian value at `off`.
pub open spec fn le16(d: Seq<u8>, off: int) -> u16 {
    spec_u16_from_le_bytes(d.subrange(off, off + 2))
}

/// The 32-bit little-endian value at `off`.
pub open spec fn le32(d: Seq<u8>, off: int) -> u32 {
    spec_u32_from_le_bytes(d.subrange(off, off + 4))
}

/// The 64-bit little-endian value at `off`.
pub open spec fn le64(d: Seq<u8>, off: int) -> u64 {
    spec_u64_from_le_bytes(d.subrange(off, off + 8))
}

pub fn read_u16(d: &[u8], off: usize) -> (r: u16)
    requires
        off + 2 <= d.len(),
    ensures
        r == le16(d@, off as int),
{
    u16_from_le_bytes(&d[off..off + 2])
}

pub fn read_u32(d: &[u8], off: usize) -> (r: u32)
    requires
        off + 4 <= d.len(),
    ensures
        r == le32(d@, off as int),
{
    u32_from_le_bytes(&d[off..off + 4])
}

pub fn read_u64(d: &[u8], off: usize) -> (r: u64)
    requires
        off + 8 <= d.len(),
    ensures
        r == le64(d@, off as int),
{
    u64_from_le_bytes(&d[off..off + 8])
}

} // verus!
