//! What holds of integers on the wire as a whole.

use vstd::prelude::*;

use crate::wire;

verus! {

/// An integer on the wire is big-endian: each byte counts 256 times as much as the next
/// one.
pub proof fn law_integers_are_big_endian(s: Seq<u8>, at: int)
    ensures
        wire::be16(s, at) == s[at] * 0x100 + s[at + 1],
        wire::be32(s, at) == s[at] * 0x100_0000 + s[at + 1] * 0x1_0000 + s[at + 2] * 0x100 + s[at
            + 3],
        wire::be64(s, at) == s[at] * 0x100_0000_0000_0000 + s[at + 1] * 0x1_0000_0000_0000 + s[at
            + 2] * 0x100_0000_0000 + s[at + 3] * 0x1_0000_0000 + s[at + 4] * 0x100_0000 + s[at + 5]
            * 0x1_0000 + s[at + 6] * 0x100 + s[at + 7],
{
    reveal(wire::be16);
    reveal(wire::be32);
    reveal(wire::be64);
}

/// A signed integer on the wire is in two's complement: it is the unsigned one, less 2
/// to the number of its bits where the first bit is set.
pub proof fn law_signed_integers_are_in_twos_complement(s: Seq<u8>, at: int)
    ensures
        wire::be_i8(s, at) == if s[at] < 0x80 {
            s[at] as int
        } else {
            s[at] - 0x100
        },
        wire::be_i16(s, at) == if s[at] < 0x80 {
            s[at] * 0x100 + s[at + 1]
        } else {
            s[at] * 0x100 + s[at + 1] - 0x1_0000
        },
{
    reveal(wire::be16);
}

/// The bytes of an integer read back as the integer, and there are as many as its width
/// says.
pub proof fn law_written_integers_read_back(a: u16, b: u32, c: u64, d: i8, e: i16)
    ensures
        wire::b16(a).len() == 2,
        wire::be16(wire::b16(a), 0) == a,
        wire::b32(b).len() == 4,
        wire::be32(wire::b32(b), 0) == b,
        wire::b64(c).len() == 8,
        wire::be64(wire::b64(c), 0) == c,
        wire::b_i8(d).len() == 1,
        wire::be_i8(wire::b_i8(d), 0) == d,
        wire::b_i16(e).len() == 2,
        wire::be_i16(wire::b_i16(e), 0) == e,
{
    wire::lemma_b16(a);
    wire::lemma_b32(b);
    wire::lemma_b64(c);
    wire::lemma_b16(wire::unsigned16(e));
}

} // verus!
