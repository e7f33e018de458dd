//! The FNV-1a-64 hash that identifies a configuration.

use vstd::prelude::*;

verus! {

/// The FNV-1a-64 hash of a byte sequence: starting from the offset basis, every
/// byte is folded in by exclusive-or and the result multiplied by the FNV prime
/// modulo 2^64.
pub open spec fn fnv1a64_of(bytes: Seq<u8>) -> u64
    decreases bytes.len(),
{
    if bytes.len() == 0 {
        0xcbf2_9ce4_8422_2325
    } else {
        (fnv1a64_of(bytes.drop_last()) ^ (bytes.last() as u64)).wrapping_mul(
            0x0000_0100_0000_01b3,
        )
    }
}

/// Hashes bytes with FNV-1a-64.
#[must_use]
pub fn fnv1a64(bytes: &[u8]) -> (hash: u64)
    ensures
        hash == fnv1a64_of(bytes@),
{
    let mut hash: u64 = 0xcbf2_9ce4_8422_2325;
    let mut index: usize = 0;
    assert(bytes@.subrange(0, 0) =~= Seq::<u8>::empty());
    while index < bytes.len()
        invariant
            index <= bytes@.len(),
            hash == fnv1a64_of(bytes@.subrange(0, index as int)),
        decreases bytes@.len() - index,
    {
        let ghost next = bytes@.subrange(0, index + 1);
        assert(next.drop_last() =~= bytes@.subrange(0, index as int));
        hash = hash ^ (bytes[index] as u64);
        hash = hash.wrapping_mul(0x0000_0100_0000_01b3);
        index = index + 1;
    }
    assert(bytes@.subrange(0, bytes@.len() as int) =~= bytes@);
    hash
}

} // verus!
