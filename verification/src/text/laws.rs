//! What holds of numbers as text as a whole: reading the digits gives the number back.

use vstd::arithmetic::power;
use vstd::prelude::*;

use crate::text;

verus! {

/// The value of a digit by its place in the character set.
pub open spec fn digit_value(c: char) -> int {
    if '0' <= c <= '9' {
        c as int - '0' as int
    } else {
        c as int - 'a' as int + 10
    }
}

/// The number that digits stand for, read from left to right.
pub open spec fn number(digits: Seq<char>, base: int) -> int
    decreases digits.len(),
{
    if digits.len() == 0 {
        0
    } else {
        number(digits.drop_last(), base) * base + digit_value(digits.last())
    }
}

/// Whether a character is a decimal digit.
pub open spec fn is_decimal_digit(c: char) -> bool {
    '0' <= c <= '9'
}

/// Whether a character is a hexadecimal digit in lower case.
pub open spec fn is_hex_digit(c: char) -> bool {
    '0' <= c <= '9' || 'a' <= c <= 'f'
}

/// Decimal digits read back as the number that they were written from. They are digits
/// only, and the first is zero only where it is the only one.
pub proof fn law_decimal_digits_read_back(value: nat)
    ensures
        number(text::decimal(value), 10) == value,
        text::decimal(value).len() >= 1,
        forall|i: int|
            0 <= i < text::decimal(value).len() ==> is_decimal_digit(
                #[trigger] text::decimal(value)[i],
            ),
        text::decimal(value)[0] == '0' ==> value == 0 && text::decimal(value).len() == 1,
    decreases value,
{
    let digits = text::decimal(value);
    if value >= 10 {
        law_decimal_digits_read_back(value / 10);
        let head = text::decimal(value / 10);
        assert(digits.drop_last() =~= head);
        assert forall|i: int| 0 <= i < digits.len() implies is_decimal_digit(
            #[trigger] digits[i],
        ) by {
            if i < head.len() {
                assert(digits[i] == head[i]);
            }
        }
        assert(digits[0] == head[0]);
    } else {
        assert(digits.drop_last() =~= Seq::<char>::empty());
        assert(number(digits.drop_last(), 10) == 0);
    }
}

/// Equal decimal text means equal numbers.
pub proof fn law_decimal_text_determines_the_number(a: nat, b: nat)
    requires
        text::decimal(a) == text::decimal(b),
    ensures
        a == b,
{
    law_decimal_digits_read_back(a);
    law_decimal_digits_read_back(b);
}

/// Fixed-width hexadecimal digits are as many as asked for, digits in lower case only,
/// and read back as the number that they were written from where it fits.
pub proof fn law_hex_digits_read_back(value: nat, width: nat)
    ensures
        text::hex_digits(value, width).len() == width,
        forall|i: int|
            0 <= i < width ==> is_hex_digit(#[trigger] text::hex_digits(value, width)[i]),
        value < power::pow(16, width) ==> number(text::hex_digits(value, width), 16) == value,
    decreases width,
{
    reveal(power::pow);
    let digits = text::hex_digits(value, width);
    if width > 0 {
        let head = text::hex_digits(value / 16, (width - 1) as nat);
        law_hex_digits_read_back(value / 16, (width - 1) as nat);
        assert(digits.drop_last() =~= head);
        assert forall|i: int| 0 <= i < width implies is_hex_digit(#[trigger] digits[i]) by {
            if i < width - 1 {
                assert(digits[i] == head[i]);
            }
        }
        assert(power::pow(16, width) == 16 * power::pow(16, (width - 1) as nat));
    }
}

/// Sixteen hexadecimal digits hold every 64-bit number exactly.
pub proof fn law_sixteen_digits_hold_64_bits(a: u64, b: u64)
    ensures
        text::hex_digits(a as nat, 16).len() == 16,
        number(text::hex_digits(a as nat, 16), 16) == a,
        text::hex_digits(a as nat, 16) == text::hex_digits(b as nat, 16) ==> a == b,
{
    assert(power::pow(16, 16) == 0x1_0000_0000_0000_0000) by {
        reveal_with_fuel(power::pow, 17);
    }
    law_hex_digits_read_back(a as nat, 16);
    law_hex_digits_read_back(b as nat, 16);
}

/// Hexadecimal digits without a fixed width read back as the number that they were
/// written from, and the first is zero only where it is the only one.
pub proof fn law_hexadecimal_reads_back(value: nat)
    ensures
        number(text::hexadecimal(value), 16) == value,
        text::hexadecimal(value).len() >= 1,
        text::hexadecimal(value)[0] == '0' ==> value == 0 && text::hexadecimal(value).len() == 1,
    decreases value,
{
    let digits = text::hexadecimal(value);
    if value >= 16 {
        law_hexadecimal_reads_back(value / 16);
        assert(digits.drop_last() =~= text::hexadecimal(value / 16));
        assert(digits[0] == text::hexadecimal(value / 16)[0]);
    } else {
        assert(digits.drop_last() =~= Seq::<char>::empty());
        assert(number(digits.drop_last(), 16) == 0);
    }
}

/// A signed number is written with a minus sign exactly where it is negative, and then
/// with the digits of its magnitude.
pub proof fn law_signed_text_reads_back(value: int)
    ensures
        text::signed_decimal(value)[0] == '-' <==> value < 0,
        value < 0 ==> number(text::signed_decimal(value).skip(1), 10) == -value,
        value >= 0 ==> number(text::signed_decimal(value), 10) == value,
{
    if value < 0 {
        law_decimal_digits_read_back((-value) as nat);
        assert(text::signed_decimal(value).skip(1) =~= text::decimal((-value) as nat));
    } else {
        law_decimal_digits_read_back(value as nat);
        assert(is_decimal_digit(text::decimal(value as nat)[0]));
    }
}

proof fn lemma_decimal_places(value: nat, width: nat)
    ensures
        text::decimal_digits(value, width).len() == width,
        value < power::pow(10, width) ==> number(text::decimal_digits(value, width), 10) == value,
    decreases width,
{
    reveal(power::pow);
    if width > 0 {
        let digits = text::decimal_digits(value, width);
        lemma_decimal_places(value / 10, (width - 1) as nat);
        assert(digits.drop_last() =~= text::decimal_digits(value / 10, (width - 1) as nat));
        assert(power::pow(10, width) == 10 * power::pow(10, (width - 1) as nat));
    }
}

/// Hundredths are written as a minus sign where they are negative, a whole part, a
/// point and two places, and whole part and places together give the number back.
pub proof fn law_hundredths_read_back(value: int)
    ensures
        ({
            let magnitude = if value < 0 {
                -value
            } else {
                value
            };
            let shown = if value < 0 {
                text::hundredths(value).skip(1)
            } else {
                text::hundredths(value)
            };
            let point = shown.len() - 3;
            &&& text::hundredths(value)[0] == '-' <==> value < 0
            &&& point >= 1
            &&& shown[point] == '.'
            &&& number(shown.take(point), 10) * 100 + number(shown.skip(point + 1), 10)
                == magnitude
        }),
{
    let magnitude = (if value < 0 {
        -value
    } else {
        value
    }) as nat;
    let whole = text::decimal(magnitude / 100);
    let places = text::decimal_digits(magnitude % 100, 2);
    let shown = text::hundredths_magnitude(magnitude);
    law_decimal_digits_read_back(magnitude / 100);
    assert(power::pow(10, 2) == 100) by {
        reveal_with_fuel(power::pow, 3);
    }
    lemma_decimal_places(magnitude % 100, 2);
    assert(shown.take(whole.len() as int) =~= whole);
    assert(shown.skip(whole.len() as int + 1) =~= places);
    assert(is_decimal_digit(whole[0]));
    if value < 0 {
        assert(text::hundredths(value).skip(1) =~= shown);
    } else {
        assert(shown[0] == whole[0]);
    }
}

/// Thousandths are written as a whole part, a point and three places, and these
/// together give the number back.
pub proof fn law_thousandths_read_back(value: nat)
    ensures
        ({
            let shown = text::thousandths(value);
            let point = shown.len() - 4;
            &&& point >= 1
            &&& shown[point] == '.'
            &&& number(shown.take(point), 10) * 1000 + number(shown.skip(point + 1), 10) == value
        }),
{
    let whole = text::decimal(value / 1_000);
    let places = text::decimal_digits(value % 1_000, 3);
    let shown = text::thousandths(value);
    law_decimal_digits_read_back(value / 1_000);
    assert(power::pow(10, 3) == 1_000) by {
        reveal_with_fuel(power::pow, 4);
    }
    lemma_decimal_places(value % 1_000, 3);
    assert(shown.take(whole.len() as int) =~= whole);
    assert(shown.skip(whole.len() as int + 1) =~= places);
}

/// Whether a text shows a passage.
pub open spec fn shows(whole: Seq<char>, passage: Seq<char>) -> bool {
    exists|before: Seq<char>, after: Seq<char>| whole == #[trigger] (before + passage + after)
}

proof fn lemma_longer_shows(whole: Seq<char>, passage: Seq<char>, more: Seq<char>)
    requires
        shows(whole, passage),
    ensures
        shows(whole + more, passage),
{
    let (before, after) = choose|before: Seq<char>, after: Seq<char>|
        whole == #[trigger] (before + passage + after);
    assert(whole + more =~= before + passage + (after + more));
}

/// Parts behind a text, one behind the other.
pub open spec fn joined(base: Seq<char>, parts: Seq<Seq<char>>, count: int) -> Seq<char>
    decreases count,
{
    if count <= 0 {
        base
    } else {
        joined(base, parts, count - 1) + parts[count - 1]
    }
}

/// `count` parts from `at` on, one behind the other.
pub open spec fn passage_of(parts: Seq<Seq<char>>, at: int, count: int) -> Seq<char> {
    joined(Seq::empty(), parts.skip(at), count)
}

proof fn lemma_joined_at(base: Seq<char>, parts: Seq<Seq<char>>, at: int, count: int)
    requires
        0 <= at,
        0 <= count,
        at + count <= parts.len(),
    ensures
        joined(base, parts, at + count) == joined(base, parts, at) + passage_of(parts, at, count),
    decreases count,
{
    if count > 0 {
        lemma_joined_at(base, parts, at, count - 1);
        assert(parts.skip(at)[count - 1] == parts[at + count - 1]);
    }
    assert(joined(base, parts, at + count) =~= joined(base, parts, at) + passage_of(
        parts,
        at,
        count,
    ));
}

proof fn lemma_passage(base: Seq<char>, parts: Seq<Seq<char>>, len: int, at: int, count: int)
    requires
        0 <= at,
        0 <= count,
        at + count <= len <= parts.len(),
    ensures
        shows(joined(base, parts, len), passage_of(parts, at, count)),
{
    lemma_joined_at(base, parts, at, count);
    lemma_joined_at(base, parts, at + count, len - at - count);
    assert(joined(base, parts, len) == joined(base, parts, at) + passage_of(parts, at, count)
        + passage_of(parts, at + count, len - at - count));
}

/// A part of a text is shown by it, and so are it and the part behind it, and the two
/// behind it.
pub proof fn lemma_labelled(base: Seq<char>, parts: Seq<Seq<char>>, len: int, at: int)
    requires
        0 <= at < len <= parts.len(),
    ensures
        shows(joined(base, parts, len), parts[at]),
        at + 1 < len ==> shows(joined(base, parts, len), parts[at] + parts[at + 1]),
        at + 2 < len ==> shows(
            joined(base, parts, len),
            parts[at] + parts[at + 1] + parts[at + 2],
        ),
{
    reveal_with_fuel(joined, 4);
    lemma_passage(base, parts, len, at, 1);
    assert(passage_of(parts, at, 1) =~= parts[at]);
    if at + 1 < len {
        lemma_passage(base, parts, len, at, 2);
        assert(passage_of(parts, at, 2) =~= parts[at] + parts[at + 1]);
    }
    if at + 2 < len {
        lemma_passage(base, parts, len, at, 3);
        assert(passage_of(parts, at, 3) =~= parts[at] + parts[at + 1] + parts[at + 2]);
    }
}

/// What a text shows, its continuation shows too.
pub proof fn lemma_continued(base: Seq<char>, parts: Seq<Seq<char>>, len: int)
    requires
        0 <= len <= parts.len(),
    ensures
        forall|passage: Seq<char>|
            shows(base, passage) ==> #[trigger] shows(joined(base, parts, len), passage),
{
    lemma_joined_at(base, parts, 0, len);
    assert forall|passage: Seq<char>| shows(base, passage) implies #[trigger] shows(
        joined(base, parts, len),
        passage,
    ) by {
        lemma_longer_shows(base, passage, passage_of(parts, 0, len));
    }
}

/// A truth value is spelled out.
pub proof fn law_truth_is_spelled_out(value: bool)
    ensures
        value ==> text::truth(value) =~= seq!['t', 'r', 'u', 'e'],
        !value ==> text::truth(value) =~= seq!['f', 'a', 'l', 's', 'e'],
{
    reveal_strlit("true");
    reveal_strlit("false");
}

} // verus!
