//! The 64-bit FNV-1a hash.
use vstd::prelude::*;

verus! {

pub const FNV_OFFSET_BASIS: u64 = 0xcbf29ce484222325;

pub const FNV_PRIME: u64 = 0x100000001b3;

/// One FNV-1a round: xor in the byte, then multiply by the prime modulo 2^64.
pub open spec fn fnv_step(h: u64, b: u8) -> u64 {
    vstd::wrapping::u64_specs::wrapping_mul(h ^ (b as u64), FNV_PRIME)
}

/// The FNV-1a hash of a byte sequence: the rounds applied in order,
/// starting from the offset basis.
pub open spec fn fnv1a64_of(s: Seq<u8>) -> u64
    decreases s.len(),
{
    if s.len() == 0 {
        FNV_OFFSET_BASIS
    } else {
        fnv_step(fnv1a64_of(s.drop_last()), s.last())
    }
}

/// The 64-bit FNV-1a hash of `input`.
pub fn fnv1a64(input: &[u8]) -> (h: u64)
    ensures
        h == fnv1a64_of(input@),
{
    let mut hash: u64 = FNV_OFFSET_BASIS;
    let mut i: usize = 0;
    while i < input.len()
        invariant
            0 <= i <= input.len(),
            hash == fnv1a64_of(input@.take(i as int)),
        decreases input.len() - i,
    {
        let byte: u8 = input[i];
        hash = hash ^ (byte as u64);
        hash = hash.wrapping_mul(FNV_PRIME);
        assert(input@.take(i + 1).drop_last() == input@.take(i as int));
        i = i + 1;
    }
    assert(input@.take(input.len() as int) == input@);
    hash
}

} // verus!
