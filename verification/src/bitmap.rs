//! A byte array read as a sequence of bits, least significant bit first.
use vstd::prelude::*;

verus! {

/// Bit `k` (0 = least significant) of byte `b`.
pub open spec fn byte_bit(b: u8, k: int) -> bool {
    (b >> (k as u8)) & 1u8 == 1u8
}

/// The bits of a byte array: bit `i` is bit `i % 8` of byte `i / 8`.
pub open spec fn bits_of(bytes: Seq<u8>) -> Seq<bool> {
    Seq::new(bytes.len() * 8, |i: int| byte_bit(bytes[i / 8], i % 8))
}

proof fn lemma_byte_or(b: u8, k: u8, j: u8)
    requires
        k < 8,
        j < 8,
    ensures
        ((b | (1u8 << k)) >> j) & 1u8 == (if j == k { 1u8 } else { (b >> j) & 1u8 }),
{
    assert(((b | (1u8 << k)) >> j) & 1u8 == (if j == k { 1u8 } else { (b >> j) & 1u8 }))
        by (bit_vector)
        requires
            k < 8,
            j < 8,
    ;
}

proof fn lemma_byte_and_not(b: u8, k: u8, j: u8)
    requires
        k < 8,
        j < 8,
    ensures
        ((b & !(1u8 << k)) >> j) & 1u8 == (if j == k { 0u8 } else { (b >> j) & 1u8 }),
{
    assert(((b & !(1u8 << k)) >> j) & 1u8 == (if j == k { 0u8 } else { (b >> j) & 1u8 }))
        by (bit_vector)
        requires
            k < 8,
            j < 8,
    ;
}

proof fn lemma_byte_test(b: u8, k: u8)
    requires
        k < 8,
    ensures
        (b & (1u8 << k) != 0) == ((b >> k) & 1u8 == 1u8),
{
    assert((b & (1u8 << k) != 0) == ((b >> k) & 1u8 == 1u8)) by (bit_vector)
        requires
            k < 8,
    ;
}

/// Reads bit `bit` of `bytes`.
pub fn test_bit(bytes: &Vec<u8>, bit: usize) -> (r: bool)
    requires
        bit / 8 < bytes.len(),
    ensures
        r == bits_of(bytes@)[bit as int],
{
    let k: u8 = (bit % 8) as u8;
    let b = bytes[bit / 8];
    proof {
        lemma_byte_test(b, k);
    }
    b & (1u8 << k) != 0
}

/// Sets bit `bit` of `bytes`.
pub fn set_bit_in(bytes: &mut Vec<u8>, bit: usize)
    requires
        bit / 8 < old(bytes).len(),
    ensures
        final(bytes).len() == old(bytes).len(),
        bits_of(final(bytes)@) == bits_of(old(bytes)@).update(bit as int, true),
{
    let k: u8 = (bit % 8) as u8;
    let i = bit / 8;
    let b = bytes[i];
    let nb = b | (1u8 << k);
    bytes.set(i, nb);
    proof {
        let ob = bits_of(old(bytes)@);
        let nbits = bits_of(bytes@);
        assert forall|x: int| 0 <= x < nbits.len() implies nbits[x] == ob.update(
            bit as int,
            true,
        )[x] by {
            if x / 8 == i as int {
                lemma_byte_or(b, k, (x % 8) as u8);
            }
        }
        assert(nbits =~= ob.update(bit as int, true));
    }
}

/// Clears bit `bit` of `bytes`.
pub fn clear_bit_in(bytes: &mut Vec<u8>, bit: usize)
    requires
        bit / 8 < old(bytes).len(),
    ensures
        final(bytes).len() == old(bytes).len(),
        bits_of(final(bytes)@) == bits_of(old(bytes)@).update(bit as int, false),
{
    let k: u8 = (bit % 8) as u8;
    let i = bit / 8;
    let b = bytes[i];
    let nb = b & !(1u8 << k);
    bytes.set(i, nb);
    proof {
        let ob = bits_of(old(bytes)@);
        let nbits = bits_of(bytes@);
        assert forall|x: int| 0 <= x < nbits.len() implies nbits[x] == ob.update(
            bit as int,
            false,
        )[x] by {
            if x / 8 == i as int {
                lemma_byte_and_not(b, k, (x % 8) as u8);
            }
        }
        assert(nbits =~= ob.update(bit as int, false));
    }
}

} // verus!
