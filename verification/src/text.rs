//! Numbers as text.
//!
//! Decimal and fixed-width hexadecimal digits, and decimal fractions with a
//! fixed number of places.

pub mod laws;

use vstd::prelude::*;
use vstd::string::StringExecFns;

verus! {

/// The digit of value `d`, in lower case.
pub open spec fn digit(d: int) -> char {
    if d == 0 {
        '0'
    } else if d == 1 {
        '1'
    } else if d == 2 {
        '2'
    } else if d == 3 {
        '3'
    } else if d == 4 {
        '4'
    } else if d == 5 {
        '5'
    } else if d == 6 {
        '6'
    } else if d == 7 {
        '7'
    } else if d == 8 {
        '8'
    } else if d == 9 {
        '9'
    } else if d == 10 {
        'a'
    } else if d == 11 {
        'b'
    } else if d == 12 {
        'c'
    } else if d == 13 {
        'd'
    } else if d == 14 {
        'e'
    } else {
        'f'
    }
}

/// The decimal digits of a number, without leading zeros.
pub open spec fn decimal(value: nat) -> Seq<char>
    decreases value,
{
    if value < 10 {
        seq![digit(value as int)]
    } else {
        decimal(value / 10).push(digit((value % 10) as int))
    }
}

/// The decimal digits of a number, with a minus sign where it is negative.
pub open spec fn signed_decimal(value: int) -> Seq<char> {
    if value < 0 {
        seq!['-'] + decimal((-value) as nat)
    } else {
        decimal(value as nat)
    }
}

/// The last `width` hexadecimal digits of a number, with leading zeros.
pub open spec fn hex_digits(value: nat, width: nat) -> Seq<char>
    decreases width,
{
    if width == 0 {
        Seq::empty()
    } else {
        hex_digits(value / 16, (width - 1) as nat).push(digit((value % 16) as int))
    }
}

/// The hexadecimal digits of a number, without leading zeros.
pub open spec fn hexadecimal(value: nat) -> Seq<char>
    decreases value,
{
    if value < 16 {
        seq![digit(value as int)]
    } else {
        hexadecimal(value / 16).push(digit((value % 16) as int))
    }
}

/// The last `width` decimal digits of a number, with leading zeros.
pub open spec fn decimal_digits(value: nat, width: nat) -> Seq<char>
    decreases width,
{
    if width == 0 {
        Seq::empty()
    } else {
        decimal_digits(value / 10, (width - 1) as nat).push(digit((value % 10) as int))
    }
}

/// A number of hundredths as a decimal fraction with two places.
pub open spec fn hundredths(value: int) -> Seq<char> {
    if value < 0 {
        seq!['-'] + hundredths_magnitude((-value) as nat)
    } else {
        hundredths_magnitude(value as nat)
    }
}

/// A number of hundredths, without its sign, as a decimal fraction with two places.
pub open spec fn hundredths_magnitude(value: nat) -> Seq<char> {
    decimal(value / 100).push('.') + decimal_digits(value % 100, 2)
}

/// A number of thousandths as a decimal fraction with three places.
pub open spec fn thousandths(value: nat) -> Seq<char> {
    decimal(value / 1_000).push('.') + decimal_digits(value % 1_000, 3)
}

/// The word for a truth value.
pub open spec fn truth(value: bool) -> Seq<char> {
    if value {
        "true"@
    } else {
        "false"@
    }
}

/// Appends a digit.
pub fn push_digit(out: &mut String, d: u8)
    requires
        d < 16,
    ensures
        final(out)@ == old(out)@.push(digit(d as int)),
{
    proof {
        reveal_strlit("0");
        reveal_strlit("1");
        reveal_strlit("2");
        reveal_strlit("3");
        reveal_strlit("4");
        reveal_strlit("5");
        reveal_strlit("6");
        reveal_strlit("7");
        reveal_strlit("8");
        reveal_strlit("9");
        reveal_strlit("a");
        reveal_strlit("b");
        reveal_strlit("c");
        reveal_strlit("d");
        reveal_strlit("e");
        reveal_strlit("f");
    }
    let text = match d {
        0 => "0",
        1 => "1",
        2 => "2",
        3 => "3",
        4 => "4",
        5 => "5",
        6 => "6",
        7 => "7",
        8 => "8",
        9 => "9",
        10 => "a",
        11 => "b",
        12 => "c",
        13 => "d",
        14 => "e",
        _ => "f",
    };
    assert(text@ =~= seq![digit(d as int)]);
    out.append(text);
    assert(old(out)@ + seq![digit(d as int)] =~= old(out)@.push(digit(d as int)));
}

/// Appends the decimal digits of a number.
pub fn push_decimal(out: &mut String, value: u64)
    ensures
        final(out)@ == old(out)@ + decimal(value as nat),
    decreases value,
{
    let ghost before = out@;
    if value >= 10 {
        push_decimal(out, value / 10);
    }
    push_digit(out, (value % 10) as u8);
    assert(out@ =~= before + decimal(value as nat));
}

/// Appends the decimal digits of a number, with a minus sign where it is negative.
pub fn push_signed(out: &mut String, value: i64)
    ensures
        final(out)@ == old(out)@ + signed_decimal(value as int),
{
    if value < 0 {
        push_minus(out);
        push_decimal(out, (-(value as i128)) as u64);
        assert(out@ =~= old(out)@ + (seq!['-'] + decimal((-value) as nat)));
    } else {
        push_decimal(out, value as u64);
    }
}

/// Appends a minus sign.
fn push_minus(out: &mut String)
    ensures
        final(out)@ == old(out)@ + seq!['-'],
{
    proof {
        reveal_strlit("-");
    }
    assert("-"@ =~= seq!['-']);
    out.append("-");
}

/// Appends the last `width` hexadecimal digits of a number.
pub fn push_hex(out: &mut String, value: u64, width: u8)
    ensures
        final(out)@ == old(out)@ + hex_digits(value as nat, width as nat),
    decreases width,
{
    let ghost before = out@;
    if width > 0 {
        push_hex(out, value / 16, width - 1);
        push_digit(out, (value % 16) as u8);
    }
    assert(out@ =~= before + hex_digits(value as nat, width as nat));
}

/// Appends the hexadecimal digits of a number, without leading zeros.
pub fn push_hexadecimal(out: &mut String, value: u64)
    ensures
        final(out)@ == old(out)@ + hexadecimal(value as nat),
    decreases value,
{
    let ghost before = out@;
    if value >= 16 {
        push_hexadecimal(out, value / 16);
    }
    push_digit(out, (value % 16) as u8);
    assert(out@ =~= before + hexadecimal(value as nat));
}

/// Appends the last `width` decimal digits of a number.
fn push_decimal_digits(out: &mut String, value: u64, width: u8)
    ensures
        final(out)@ == old(out)@ + decimal_digits(value as nat, width as nat),
    decreases width,
{
    let ghost before = out@;
    if width > 0 {
        push_decimal_digits(out, value / 10, width - 1);
        push_digit(out, (value % 10) as u8);
    }
    assert(out@ =~= before + decimal_digits(value as nat, width as nat));
}

/// Appends a point.
fn push_point(out: &mut String)
    ensures
        final(out)@ == old(out)@.push('.'),
{
    proof {
        reveal_strlit(".");
    }
    assert("."@ =~= seq!['.']);
    out.append(".");
    assert(old(out)@ + seq!['.'] =~= old(out)@.push('.'));
}

/// Appends a number of hundredths as a decimal fraction with two places.
pub fn push_hundredths(out: &mut String, value: i64)
    ensures
        final(out)@ == old(out)@ + hundredths(value as int),
{
    let ghost before = out@;
    let magnitude: u64 = if value < 0 {
        push_minus(out);
        (-(value as i128)) as u64
    } else {
        value as u64
    };
    push_decimal(out, magnitude / 100);
    push_point(out);
    push_decimal_digits(out, magnitude % 100, 2);
    assert(out@ =~= before + hundredths(value as int));
}

/// Appends a number of thousandths as a decimal fraction with three places.
pub fn push_thousandths(out: &mut String, value: u64)
    ensures
        final(out)@ == old(out)@ + thousandths(value as nat),
{
    let ghost before = out@;
    push_decimal(out, value / 1_000);
    push_point(out);
    push_decimal_digits(out, value % 1_000, 3);
    assert(out@ =~= before + thousandths(value as nat));
}

/// Appends the word for a truth value.
pub fn push_truth(out: &mut String, value: bool)
    ensures
        final(out)@ == old(out)@ + truth(value),
{
    if value {
        out.append("true");
    } else {
        out.append("false");
    }
}

/// Sixteen hexadecimal digits.
pub fn hex_u64(value: u64) -> (text: String)
    ensures
        text@ == hex_digits(value as nat, 16),
{
    let mut text = String::new();
    push_hex(&mut text, value, 16);
    assert(text@ =~= hex_digits(value as nat, 16));
    text
}

/// The decimal digits of a number.
pub fn decimal_u64(value: u64) -> (text: String)
    ensures
        text@ == decimal(value as nat),
{
    let mut text = String::new();
    push_decimal(&mut text, value);
    assert(text@ =~= decimal(value as nat));
    text
}

/// What `Debug` of std writes for a string: the string between double quotes,
/// with the characters escaped that std escapes.
pub uninterp spec fn debug_of(text: Seq<char>) -> Seq<char>;

/// Whether a string holds nothing but lower-case letters, digits and underscores.
pub open spec fn is_plain(text: Seq<char>) -> bool {
    forall|i: int|
        0 <= i < text.len() ==> {
            ||| 'a' <= #[trigger] text[i] <= 'z'
            ||| '0' <= text[i] <= '9'
            ||| text[i] == '_'
        }
}

/// Calls `Debug::fmt` of `str`, through `format!`. The contract claims that the
/// result depends on the string alone, and that a string of lower-case letters,
/// digits and underscores comes out between double quotes and otherwise as it is.
/// What other characters are escaped to is left unsaid.
#[verifier::external_body]
fn debug_text(text: &str) -> (written: String)
    ensures
        written@ == debug_of(text@),
        is_plain(text@) ==> written@ == seq!['"'] + text@ + seq!['"'],
{
    format!("{text:?}")
}

/// Appends what `Debug` writes for a string.
pub fn push_debug(out: &mut String, text: &str)
    ensures
        final(out)@ == old(out)@ + debug_of(text@),
        is_plain(text@) ==> debug_of(text@) == seq!['"'] + text@ + seq!['"'],
{
    let written = debug_text(text);
    out.append(written.as_str());
}

/// A number between two texts.
pub(crate) fn one_number(before: &str, value: u64, after: &str) -> (out: String)
    ensures
        out@ == before@ + decimal(value as nat) + after@,
{
    let mut out = String::from_str(before);
    push_decimal(&mut out, value);
    out.append(after);
    out
}

/// Two numbers between three texts.
pub(crate) fn two_numbers(
    before: &str,
    first: u64,
    between: &str,
    second: u64,
    after: &str,
) -> (out: String)
    ensures
        out@ == before@ + decimal(first as nat) + between@ + decimal(second as nat)
            + after@,
{
    let mut out = String::from_str(before);
    push_decimal(&mut out, first);
    out.append(between);
    push_decimal(&mut out, second);
    out.append(after);
    out
}

/// A text and a number behind it.
pub(crate) fn ending_number(before: &str, value: u64) -> (out: String)
    ensures
        out@ == before@ + decimal(value as nat),
{
    let mut out = String::from_str(before);
    push_decimal(&mut out, value);
    out
}

/// Two texts and a number behind each.
pub(crate) fn ending_numbers(before: &str, first: u64, between: &str, second: u64) -> (out: String)
    ensures
        out@ == before@ + decimal(first as nat) + between@ + decimal(second as nat),
{
    let mut out = String::from_str(before);
    push_decimal(&mut out, first);
    out.append(between);
    push_decimal(&mut out, second);
    out
}

} // verus!
