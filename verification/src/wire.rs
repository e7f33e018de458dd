//! Big-endian integers on byte sequences.
//!
//! `be16`, `be32`, `be64`, `be_i8` and `be_i16` read an integer out of a byte
//! sequence at an offset; `b16`, `b32`, `b64`, `b_i8` and `b_i16` give the bytes
//! of an integer. The lemmas say that the two are inverse to each other.

pub mod laws;

use vstd::prelude::*;

verus! {

/// The unsigned 16-bit integer whose big-endian bytes start at `at`.
#[verifier::opaque]
pub open spec fn be16(s: Seq<u8>, at: int) -> u16 {
    (s[at] * 256 + s[at + 1]) as u16
}

/// The unsigned 32-bit integer whose big-endian bytes start at `at`.
#[verifier::opaque]
pub open spec fn be32(s: Seq<u8>, at: int) -> u32 {
    (be16(s, at) * 0x1_0000 + be16(s, at + 2)) as u32
}

/// The unsigned 64-bit integer whose big-endian bytes start at `at`.
#[verifier::opaque]
pub open spec fn be64(s: Seq<u8>, at: int) -> u64 {
    (be32(s, at) * 0x1_0000_0000 + be32(s, at + 4)) as u64
}

/// The two's-complement value of a byte.
pub open spec fn signed8(value: u8) -> i8 {
    if value < 0x80 {
        value as i8
    } else {
        (value - 0x100) as i8
    }
}

/// The byte whose two's-complement value is `value`.
pub open spec fn unsigned8(value: i8) -> u8 {
    if value >= 0 {
        value as u8
    } else {
        (value + 0x100) as u8
    }
}

/// The two's-complement value of a 16-bit word.
pub open spec fn signed16(value: u16) -> i16 {
    if value < 0x8000 {
        value as i16
    } else {
        (value - 0x1_0000) as i16
    }
}

/// The 16-bit word whose two's-complement value is `value`.
pub open spec fn unsigned16(value: i16) -> u16 {
    if value >= 0 {
        value as u16
    } else {
        (value + 0x1_0000) as u16
    }
}

/// The signed 8-bit integer in the byte at `at`.
pub open spec fn be_i8(s: Seq<u8>, at: int) -> i8 {
    signed8(s[at])
}

/// The signed 16-bit integer whose big-endian bytes start at `at`.
pub open spec fn be_i16(s: Seq<u8>, at: int) -> i16 {
    signed16(be16(s, at))
}

/// One byte.
pub open spec fn b8(value: u8) -> Seq<u8> {
    seq![value]
}

/// The big-endian bytes of a 16-bit integer.
pub open spec fn b16(value: u16) -> Seq<u8> {
    seq![(value / 256) as u8, (value % 256) as u8]
}

/// The big-endian bytes of a 32-bit integer.
pub open spec fn b32(value: u32) -> Seq<u8> {
    b16((value / 0x1_0000) as u16) + b16((value % 0x1_0000) as u16)
}

/// The big-endian bytes of a 64-bit integer.
pub open spec fn b64(value: u64) -> Seq<u8> {
    b32((value / 0x1_0000_0000) as u32) + b32((value % 0x1_0000_0000) as u32)
}

/// The byte of a signed 8-bit integer.
pub open spec fn b_i8(value: i8) -> Seq<u8> {
    b8(unsigned8(value))
}

/// The big-endian bytes of a signed 16-bit integer.
pub open spec fn b_i16(value: i16) -> Seq<u8> {
    b16(unsigned16(value))
}

/// Every byte and every integer that `shorter` holds is still at its place in
/// `longer`.
pub open spec fn kept(shorter: Seq<u8>, longer: Seq<u8>) -> bool {
    &&& shorter.len() <= longer.len()
    &&& forall|i: int| 0 <= i < shorter.len() ==> #[trigger] longer[i] == shorter[i]
    &&& forall|i: int|
        0 <= i && i + 2 <= shorter.len() ==> #[trigger] be16(longer, i) == be16(shorter, i)
    &&& forall|i: int|
        0 <= i && i + 4 <= shorter.len() ==> #[trigger] be32(longer, i) == be32(shorter, i)
    &&& forall|i: int|
        0 <= i && i + 8 <= shorter.len() ==> #[trigger] be64(longer, i) == be64(shorter, i)
}

pub proof fn lemma_kept_by_append(s: Seq<u8>, tail: Seq<u8>)
    ensures
        kept(s, s + tail),
{
    reveal(be16);
    reveal(be32);
    reveal(be64);
}

pub proof fn lemma_b16(value: u16)
    ensures
        b16(value).len() == 2,
        be16(b16(value), 0) == value,
{
    reveal(be16);
}

pub proof fn lemma_b32(value: u32)
    ensures
        b32(value).len() == 4,
        be32(b32(value), 0) == value,
{
    reveal(be16);
    reveal(be32);
    let high = (value / 0x1_0000) as u16;
    let low = (value % 0x1_0000) as u16;
    lemma_b16(high);
    lemma_b16(low);
    let s = b32(value);
    assert(s[0] == b16(high)[0] && s[1] == b16(high)[1]);
    assert(s[2] == b16(low)[0] && s[3] == b16(low)[1]);
    assert(be16(s, 0) == high);
    assert(be16(s, 2) == low);
}

pub proof fn lemma_b64(value: u64)
    ensures
        b64(value).len() == 8,
        be64(b64(value), 0) == value,
{
    reveal(be64);
    let high = (value / 0x1_0000_0000) as u32;
    let low = (value % 0x1_0000_0000) as u32;
    lemma_b32(high);
    lemma_b32(low);
    let s = b64(value);
    lemma_shifted(b32(high), b32(low));
    lemma_kept_by_append(b32(high), b32(low));
    assert(be32(s, 0) == high);
    assert(be32(s, 4) == low);
}

/// An integer at the start of `tail` stands at the end of `s` in `s + tail`.
proof fn lemma_shifted(s: Seq<u8>, tail: Seq<u8>)
    ensures
        tail.len() >= 2 ==> be16(s + tail, s.len() as int) == be16(tail, 0),
        tail.len() >= 4 ==> be32(s + tail, s.len() as int) == be32(tail, 0),
        tail.len() >= 8 ==> be64(s + tail, s.len() as int) == be64(tail, 0),
{
    reveal(be16);
    reveal(be32);
    reveal(be64);
}

pub proof fn lemma_append8(s: Seq<u8>, value: u8)
    ensures
        (s + b8(value)).len() == s.len() + 1,
        kept(s, s + b8(value)),
        (s + b8(value))[s.len() as int] == value,
{
    lemma_kept_by_append(s, b8(value));
}

pub proof fn lemma_append16(s: Seq<u8>, value: u16)
    ensures
        (s + b16(value)).len() == s.len() + 2,
        kept(s, s + b16(value)),
        be16(s + b16(value), s.len() as int) == value,
{
    lemma_kept_by_append(s, b16(value));
    lemma_b16(value);
    lemma_shifted(s, b16(value));
}

pub proof fn lemma_append32(s: Seq<u8>, value: u32)
    ensures
        (s + b32(value)).len() == s.len() + 4,
        kept(s, s + b32(value)),
        be32(s + b32(value), s.len() as int) == value,
{
    lemma_kept_by_append(s, b32(value));
    lemma_b32(value);
    lemma_shifted(s, b32(value));
}

pub proof fn lemma_append64(s: Seq<u8>, value: u64)
    ensures
        (s + b64(value)).len() == s.len() + 8,
        kept(s, s + b64(value)),
        be64(s + b64(value), s.len() as int) == value,
{
    lemma_kept_by_append(s, b64(value));
    lemma_b64(value);
    lemma_shifted(s, b64(value));
}

/// Equal 16-bit integers have equal bytes.
pub proof fn lemma_same16(s: Seq<u8>, t: Seq<u8>, at: int)
    requires
        be16(s, at) == be16(t, at),
    ensures
        s[at] == t[at],
        s[at + 1] == t[at + 1],
{
    reveal(be16);
}

/// Equal 32-bit integers have equal bytes.
pub proof fn lemma_same32(s: Seq<u8>, t: Seq<u8>, at: int)
    requires
        be32(s, at) == be32(t, at),
    ensures
        forall|i: int| at <= i < at + 4 ==> #[trigger] s[i] == t[i],
{
    reveal(be32);
    assert(be16(s, at) == be16(t, at));
    lemma_same16(s, t, at);
    lemma_same16(s, t, at + 2);
}

/// Equal 64-bit integers have equal bytes.
pub proof fn lemma_same64(s: Seq<u8>, t: Seq<u8>, at: int)
    requires
        be64(s, at) == be64(t, at),
    ensures
        forall|i: int| at <= i < at + 8 ==> #[trigger] s[i] == t[i],
{
    reveal(be64);
    assert(be32(s, at) == be32(t, at));
    lemma_same32(s, t, at);
    lemma_same32(s, t, at + 4);
}

/// An integer in a part of a sequence is the integer at the shifted offset.
pub proof fn lemma_subrange(s: Seq<u8>, from: int, to: int)
    requires
        0 <= from <= to <= s.len(),
    ensures
        forall|i: int|
            0 <= i && i + 2 <= to - from ==> #[trigger] be16(s.subrange(from, to), i) == be16(
                s,
                from + i,
            ),
        forall|i: int|
            0 <= i && i + 4 <= to - from ==> #[trigger] be32(s.subrange(from, to), i) == be32(
                s,
                from + i,
            ),
        forall|i: int|
            0 <= i && i + 8 <= to - from ==> #[trigger] be64(s.subrange(from, to), i) == be64(
                s,
                from + i,
            ),
{
    reveal(be16);
    reveal(be32);
    reveal(be64);
}

/// Reads the 16-bit integer at `offset`.
pub fn read_u16(bytes: &[u8], offset: usize) -> (value: u16)
    requires
        offset + 2 <= bytes@.len(),
    ensures
        value == be16(bytes@, offset as int),
{
    reveal(be16);
    bytes[offset] as u16 * 256 + bytes[offset + 1] as u16
}

/// Reads the signed byte at `offset`.
pub fn read_i8(bytes: &[u8], offset: usize) -> (value: i8)
    requires
        offset < bytes@.len(),
    ensures
        value == be_i8(bytes@, offset as int),
{
    let raw: u8 = bytes[offset];
    if raw < 0x80 {
        raw as i8
    } else {
        (raw as i16 - 0x100) as i8
    }
}

/// Reads the signed 16-bit integer at `offset`.
pub fn read_i16(bytes: &[u8], offset: usize) -> (value: i16)
    requires
        offset + 2 <= bytes@.len(),
    ensures
        value == be_i16(bytes@, offset as int),
{
    let raw: u16 = read_u16(bytes, offset);
    if raw < 0x8000 {
        raw as i16
    } else {
        (raw as i32 - 0x1_0000) as i16
    }
}

/// Reads the 32-bit integer at `offset`.
pub fn read_u32(bytes: &[u8], offset: usize) -> (value: u32)
    requires
        offset + 4 <= bytes@.len(),
    ensures
        value == be32(bytes@, offset as int),
{
    reveal(be32);
    assert(bytes.len() == bytes@.len());
    read_u16(bytes, offset) as u32 * 0x1_0000 + read_u16(bytes, offset + 2) as u32
}

/// Reads the 64-bit integer at `offset`.
pub fn read_u64(bytes: &[u8], offset: usize) -> (value: u64)
    requires
        offset + 8 <= bytes@.len(),
    ensures
        value == be64(bytes@, offset as int),
{
    reveal(be64);
    assert(bytes.len() == bytes@.len());
    read_u32(bytes, offset) as u64 * 0x1_0000_0000 + read_u32(bytes, offset + 4) as u64
}

} // verus!
