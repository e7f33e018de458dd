//! Checks on flags and step bitmaps, and the faults that they report.

use vstd::prelude::*;

use crate::v2::types::Error;

verus! {

/// The result of a check that found `fault`, if it found one.
pub open spec fn verdict(fault: Option<Error>) -> Result<(), Error> {
    match fault {
        Some(error) => Err(error),
        None => Ok(()),
    }
}

/// The first of two faults, if there is one.
pub open spec fn first_fault(first: Option<Error>, second: Option<Error>) -> Option<Error> {
    if first is Some {
        first
    } else {
        second
    }
}

/// The fault of a flag byte that has a bit outside `known`.
pub open spec fn unknown_flags_u8(field: &'static str, value: u8, known: u8) -> Option<Error> {
    if value & !known == 0 {
        None
    } else {
        Some(Error::UnknownFlags { field, bits: (value & !known) as u32 })
    }
}

/// The fault of a flag word that has a bit outside `known`.
pub open spec fn unknown_flags_u16(field: &'static str, value: u16, known: u16) -> Option<Error> {
    if value & !known == 0 {
        None
    } else {
        Some(Error::UnknownFlags { field, bits: (value & !known) as u32 })
    }
}

/// The fault of a flag word that has a bit outside `known`.
pub open spec fn unknown_flags_u32(field: &'static str, value: u32, known: u32) -> Option<Error> {
    if value & !known == 0 {
        None
    } else {
        Some(Error::UnknownFlags { field, bits: value & !known })
    }
}

/// Rejects a flag byte that has a bit outside `known`.
pub(crate) fn ensure_known_u8(field: &'static str, value: u8, known: u8) -> (result: Result<
    (),
    Error,
>)
    ensures
        result == verdict(unknown_flags_u8(field, value, known)),
{
    let unknown: u8 = value & !known;
    if unknown == 0 {
        Ok(())
    } else {
        Err(Error::UnknownFlags { field, bits: unknown as u32 })
    }
}

/// Rejects a flag word that has a bit outside `known`.
pub(crate) fn ensure_known_u16(field: &'static str, value: u16, known: u16) -> (result: Result<
    (),
    Error,
>)
    ensures
        result == verdict(unknown_flags_u16(field, value, known)),
{
    let unknown: u16 = value & !known;
    if unknown == 0 {
        Ok(())
    } else {
        Err(Error::UnknownFlags { field, bits: unknown as u32 })
    }
}

/// Rejects a flag word that has a bit outside `known`.
pub(crate) fn ensure_known_u32(field: &'static str, value: u32, known: u32) -> (result: Result<
    (),
    Error,
>)
    ensures
        result == verdict(unknown_flags_u32(field, value, known)),
{
    let unknown: u32 = value & !known;
    if unknown == 0 {
        Ok(())
    } else {
        Err(Error::UnknownFlags { field, bits: unknown })
    }
}

/// Whether bit `index` of `bitmap` is set.
pub open spec fn has_bit(bitmap: u16, index: int) -> bool {
    bitmap & (1u16 << (index as u16)) != 0
}

/// How many of the bits `0..count` of `bitmap` are set.
pub open spec fn set_bits(bitmap: u16, count: int) -> int
    decreases count,
{
    if count <= 0 {
        0
    } else {
        set_bits(bitmap, count - 1) + if has_bit(bitmap, count - 1) {
            1int
        } else {
            0int
        }
    }
}

pub proof fn lemma_set_bits_range(bitmap: u16, count: int)
    requires
        0 <= count,
    ensures
        0 <= set_bits(bitmap, count) <= count,
    decreases count,
{
    if count > 0 {
        lemma_set_bits_range(bitmap, count - 1);
    }
}

/// The bitmap that has the bits `0..step_count` set.
pub open spec fn step_mask_of(step_count: u8) -> u16 {
    ((1u16 << (step_count as u16)) - 1) as u16
}

/// Whether bit `index` of `bitmap` is set.
pub(crate) fn test_bit(bitmap: u16, index: usize) -> (set: bool)
    requires
        index < 16,
    ensures
        set == has_bit(bitmap, index as int),
{
    bitmap & (1u16 << (index as u16)) != 0
}

/// Counts how many of the bits `0..count` of `bitmap` are set.
pub(crate) fn count_bits(bitmap: u16, count: u8) -> (ones: u8)
    requires
        count <= 16,
    ensures
        ones == set_bits(bitmap, count as int),
        ones <= count,
{
    let mut ones: u8 = 0;
    let mut index: u8 = 0;
    while index < count
        invariant
            index <= count <= 16,
            ones == set_bits(bitmap, index as int),
            ones <= index,
        decreases count - index,
    {
        if test_bit(bitmap, index as usize) {
            ones = ones + 1;
        }
        index = index + 1;
    }
    ones
}

/// The bitmap that has the bits `0..step_count` set.
pub(crate) fn step_mask(step_count: u8) -> (mask: u16)
    requires
        step_count <= 15,
    ensures
        mask == step_mask_of(step_count),
{
    let shift: u16 = step_count as u16;
    assert(shift <= 15 ==> 1u16 << shift >= 1) by (bit_vector);
    (1u16 << shift) - 1
}

/// The bitmap of the positions below `count` at which `holds` is true.
pub open spec fn bitmap_where(holds: spec_fn(int) -> bool, count: int) -> u16
    decreases count,
{
    if count <= 0 {
        0
    } else {
        bitmap_where(holds, count - 1) | (if holds(count - 1) {
            1u16 << ((count - 1) as u16)
        } else {
            0
        })
    }
}

pub proof fn lemma_bit_of_or(bitmap: u16, set: int, index: int)
    requires
        0 <= set < 16,
        0 <= index < 16,
    ensures
        has_bit(bitmap | (1u16 << (set as u16)), index) == (has_bit(bitmap, index) || index == set),
        has_bit(bitmap | 0, index) == has_bit(bitmap, index),
{
    let s = set as u16;
    let i = index as u16;
    assert(((bitmap | (1u16 << s)) & (1u16 << i) != 0) == (bitmap & (1u16 << i) != 0 || s == i))
        by (bit_vector)
        requires
            s < 16,
            i < 16,
    ;
    assert(bitmap | 0 == bitmap) by (bit_vector);
}

/// An empty bitmap has no bits.
pub proof fn lemma_no_bits_of_zero(index: int)
    ensures
        !has_bit(0, index),
{
    let i = index as u16;
    assert(0u16 & (1u16 << i) == 0) by (bit_vector);
}

/// Bit `index` of a bitmap of positions says whether the position is among them.
pub proof fn lemma_bitmap_where(holds: spec_fn(int) -> bool, count: int, index: int)
    requires
        0 <= count <= 16,
        0 <= index < 16,
    ensures
        has_bit(bitmap_where(holds, count), index) == (index < count && holds(index)),
    decreases count,
{
    if count <= 0 {
        lemma_no_bits_of_zero(index);
    } else {
        lemma_bitmap_where(holds, count - 1, index);
        lemma_bit_of_or(bitmap_where(holds, count - 1), count - 1, index);
    }
}

/// Bitmaps with equal bits are equal.
pub proof fn lemma_bits_determine(a: u16, b: u16)
    requires
        forall|i: int| 0 <= i < 16 ==> #[trigger] has_bit(a, i) == has_bit(b, i),
    ensures
        a == b,
{
    assert(has_bit(a, 0) == has_bit(b, 0) && has_bit(a, 1) == has_bit(b, 1) && has_bit(a, 2)
        == has_bit(b, 2) && has_bit(a, 3) == has_bit(b, 3));
    assert(has_bit(a, 4) == has_bit(b, 4) && has_bit(a, 5) == has_bit(b, 5) && has_bit(a, 6)
        == has_bit(b, 6) && has_bit(a, 7) == has_bit(b, 7));
    assert(has_bit(a, 8) == has_bit(b, 8) && has_bit(a, 9) == has_bit(b, 9) && has_bit(a, 10)
        == has_bit(b, 10) && has_bit(a, 11) == has_bit(b, 11));
    assert(has_bit(a, 12) == has_bit(b, 12) && has_bit(a, 13) == has_bit(b, 13) && has_bit(a, 14)
        == has_bit(b, 14) && has_bit(a, 15) == has_bit(b, 15));
    assert(a == b) by (bit_vector)
        requires
            (a & (1u16 << 0u16) != 0) == (b & (1u16 << 0u16) != 0),
            (a & (1u16 << 1u16) != 0) == (b & (1u16 << 1u16) != 0),
            (a & (1u16 << 2u16) != 0) == (b & (1u16 << 2u16) != 0),
            (a & (1u16 << 3u16) != 0) == (b & (1u16 << 3u16) != 0),
            (a & (1u16 << 4u16) != 0) == (b & (1u16 << 4u16) != 0),
            (a & (1u16 << 5u16) != 0) == (b & (1u16 << 5u16) != 0),
            (a & (1u16 << 6u16) != 0) == (b & (1u16 << 6u16) != 0),
            (a & (1u16 << 7u16) != 0) == (b & (1u16 << 7u16) != 0),
            (a & (1u16 << 8u16) != 0) == (b & (1u16 << 8u16) != 0),
            (a & (1u16 << 9u16) != 0) == (b & (1u16 << 9u16) != 0),
            (a & (1u16 << 10u16) != 0) == (b & (1u16 << 10u16) != 0),
            (a & (1u16 << 11u16) != 0) == (b & (1u16 << 11u16) != 0),
            (a & (1u16 << 12u16) != 0) == (b & (1u16 << 12u16) != 0),
            (a & (1u16 << 13u16) != 0) == (b & (1u16 << 13u16) != 0),
            (a & (1u16 << 14u16) != 0) == (b & (1u16 << 14u16) != 0),
            (a & (1u16 << 15u16) != 0) == (b & (1u16 << 15u16) != 0),
    ;
}

/// The bits of the step mask are those below the step count.
pub proof fn lemma_mask_bits(step_count: u8, index: int)
    requires
        step_count <= 15,
        0 <= index < 16,
    ensures
        has_bit(step_mask_of(step_count), index) == (index < step_count),
{
    let n = step_count as u16;
    let i = index as u16;
    let mask = step_mask_of(step_count);
    assert(n <= 15 ==> 1u16 << n >= 1) by (bit_vector);
    assert((mask & (1u16 << i) != 0) == (i < n)) by (bit_vector)
        requires
            n <= 15,
            i < 16,
            mask == ((1u16 << n) - 1) as u16,
    ;
}

/// A bitmap without a bit outside the mask has no bit from the step count on.
pub proof fn lemma_within_mask(bitmap: u16, step_count: u8, index: int)
    requires
        step_count <= 15,
        bitmap & !step_mask_of(step_count) == 0,
        0 <= index < 16,
        has_bit(bitmap, index),
    ensures
        index < step_count,
{
    let mask = step_mask_of(step_count);
    let i = index as u16;
    lemma_mask_bits(step_count, index);
    assert(mask & (1u16 << i) != 0) by (bit_vector)
        requires
            bitmap & !mask == 0,
            bitmap & (1u16 << i) != 0,
    ;
}

/// A bitmap whose every bit is below the step count has none outside the mask.
pub proof fn lemma_mask_covers(bitmap: u16, step_count: u8)
    requires
        step_count <= 15,
        forall|i: int| 0 <= i < 16 && #[trigger] has_bit(bitmap, i) ==> i < step_count,
    ensures
        bitmap & !step_mask_of(step_count) == 0,
{
    let mask = step_mask_of(step_count);
    let outside = bitmap & !mask;
    assert forall|i: int| 0 <= i < 16 implies #[trigger] has_bit(outside, i) == has_bit(0, i) by {
        lemma_mask_bits(step_count, i);
        let k = i as u16;
        assert((outside & (1u16 << k) != 0) == (bitmap & (1u16 << k) != 0 && mask & (1u16 << k)
            == 0)) by (bit_vector)
            requires
                outside == bitmap & !mask,
                k < 16,
        ;
        lemma_no_bits_of_zero(i);
        assert(has_bit(bitmap, i) ==> i < step_count);
    }
    lemma_bits_determine(outside, 0);
}

/// Bits of the mask without the bits of a bitmap.
pub proof fn lemma_mask_without(bitmap: u16, step_count: u8, index: int)
    requires
        step_count <= 15,
        0 <= index < 16,
    ensures
        has_bit(step_mask_of(step_count) & !bitmap, index) == (index < step_count && !has_bit(
            bitmap,
            index,
        )),
{
    let mask = step_mask_of(step_count);
    let i = index as u16;
    lemma_mask_bits(step_count, index);
    assert(((mask & !bitmap) & (1u16 << i) != 0) == (mask & (1u16 << i) != 0 && bitmap & (1u16
        << i) == 0)) by (bit_vector)
        requires
            i < 16,
    ;
}

/// The bitmap with bit `index` set as well.
pub(crate) fn with_bit(bitmap: u16, index: usize) -> (result: u16)
    requires
        index < 16,
    ensures
        result == bitmap | (1u16 << (index as u16)),
{
    bitmap | (1u16 << (index as u16))
}

/// A bit of a bitmap is the digit of the number in base two: half of the number has each
/// bit one place lower, and the lowest bit is set exactly if the number is odd.
pub proof fn law_bits_are_binary_digits(bitmap: u16, index: int)
    requires
        0 <= index < 15,
    ensures
        has_bit(bitmap, 0) <==> bitmap % 2 == 1,
        has_bit(bitmap, index + 1) <==> has_bit(bitmap / 2, index),
{
    let i = index as u16;
    let next = (index + 1) as u16;
    let half = bitmap / 2;
    assert((bitmap & (1u16 << 0u16) != 0) == (bitmap % 2 == 1)) by (bit_vector);
    assert((bitmap & (1u16 << next) != 0) == (half & (1u16 << i) != 0)) by (bit_vector)
        requires
            i < 15,
            next == i + 1,
            half == bitmap / 2,
    ;
}

/// Counting one bit further adds one exactly where that bit is set, so that the count is
/// full exactly if every bit is.
pub proof fn law_set_bits_are_counted(bitmap: u16, count: int)
    requires
        0 <= count < 16,
    ensures
        set_bits(bitmap, 0) == 0,
        set_bits(bitmap, count + 1) == set_bits(bitmap, count) + if has_bit(bitmap, count) {
            1int
        } else {
            0
        },
        0 <= set_bits(bitmap, count) <= count,
        set_bits(bitmap, count) == count <==> forall|i: int|
            0 <= i < count ==> #[trigger] has_bit(bitmap, i),
    decreases count,
{
    if count > 0 {
        law_set_bits_are_counted(bitmap, count - 1);
    }
}

} // verus!
