//! What holds of hexadecimal text as a whole.

use vstd::prelude::*;

use crate::hex;
use crate::hex::{HexError, TextDecodeError};
use crate::telemetry;
use crate::telemetry::{DecodeError, TelemetryV1};
use crate::text;
use crate::text::laws as text_laws;
use crate::v2::types::MAX_PHY_FRAME_LEN;

verus! {

/// The ASCII code of the digit of value `value`.
pub open spec fn digit_code(value: int, upper_case: bool) -> u8 {
    if value < 10 {
        (0x30 + value) as u8
    } else if upper_case {
        (0x41 + value - 10) as u8
    } else {
        (0x61 + value - 10) as u8
    }
}

/// The digits of bytes, two for each.
pub open spec fn digits_of(bytes: Seq<u8>, upper_case: bool) -> Seq<u8> {
    Seq::new(
        2 * bytes.len(),
        |i: int|
            digit_code(
                if i % 2 == 0 {
                    bytes[i / 2] / 16
                } else {
                    bytes[i / 2] % 16
                } as int,
                upper_case,
            ),
    )
}

/// Digits behind a prefix.
pub open spec fn prefixed(digits: Seq<u8>, upper_case: bool) -> Seq<u8> {
    seq![
        0x30u8,
        if upper_case {
            0x58u8
        } else {
            0x78u8
        },
    ] + digits
}

/// Digits in either case, behind a prefix in either case or without one, parse to
/// the bytes that they were written from.
pub proof fn law_written_digits_parse(bytes: Seq<u8>, upper_case: bool, upper_case_prefix: bool)
    requires
        hex::MIN_PAYLOAD_LEN <= bytes.len() <= MAX_PHY_FRAME_LEN,
    ensures
        hex::parsed_payload(digits_of(bytes, upper_case)) == Ok::<Seq<u8>, HexError>(bytes),
        hex::parsed_payload(prefixed(digits_of(bytes, upper_case), upper_case_prefix)) == Ok::<
            Seq<u8>,
            HexError,
        >(bytes),
        2 * bytes.len() == hex::FRAME_HEX_LEN ==> {
            &&& hex::parsed_frame(digits_of(bytes, upper_case)) == Ok::<Seq<u8>, HexError>(bytes)
            &&& hex::parsed_frame(prefixed(digits_of(bytes, upper_case), upper_case_prefix))
                == Ok::<Seq<u8>, HexError>(bytes)
        },
{
    let digits = digits_of(bytes, upper_case);
    lemma_digits(bytes, upper_case, digits.len() as int);
    assert(!hex::is_prefixed(digits)) by {
        assert(hex::nibble_of(digits[1]) is Some);
    }
    let behind = prefixed(digits, upper_case_prefix);
    assert(behind.skip(2) =~= digits);
    assert(hex::bytes_of(digits) =~= bytes);
}

proof fn lemma_digits(bytes: Seq<u8>, upper_case: bool, count: int)
    requires
        0 <= count <= 2 * bytes.len(),
    ensures
        hex::digits_fault(digits_of(bytes, upper_case), count) is None,
        forall|i: int|
            0 <= i < 2 * bytes.len() ==> hex::nibble_of(
                #[trigger] digits_of(bytes, upper_case)[i],
            ) is Some,
        forall|i: int|
            0 <= i < bytes.len() ==> #[trigger] hex::byte_at(digits_of(bytes, upper_case), i)
                == bytes[i],
    decreases count,
{
    let digits = digits_of(bytes, upper_case);
    if count > 0 {
        lemma_digits(bytes, upper_case, count - 1);
    }
    assert forall|i: int| 0 <= i < bytes.len() implies #[trigger] hex::byte_at(digits, i)
        == bytes[i] by {
        assert((2 * i) / 2 == i && (2 * i) % 2 == 0);
        assert((2 * i + 1) / 2 == i && (2 * i + 1) % 2 == 1);
        assert(hex::nibble_of(digits[2 * i]) == Some((bytes[i] / 16) as u8));
        assert(hex::nibble_of(digits[2 * i + 1]) == Some((bytes[i] % 16) as u8));
    }
}

/// Every failure names what is wrong: an invalid byte is reported at the first
/// position that holds no digit, with the byte found there.
pub proof fn law_invalid_byte_is_the_first_one(digits: Seq<u8>, count: int)
    requires
        0 <= count <= digits.len(),
        digits.len() <= usize::MAX,
    ensures
        match hex::digits_fault(digits, count) {
            Some(HexError::InvalidByte { index, found }) => {
                &&& index < count
                &&& found == digits[index as int]
                &&& hex::nibble_of(found) is None
                &&& forall|i: int|
                    0 <= i < index ==> hex::nibble_of(#[trigger] digits[i]) is Some
            },
            Some(_) => false,
            None => forall|i: int|
                0 <= i < count ==> hex::nibble_of(#[trigger] digits[i]) is Some,
        },
    decreases count,
{
    if count > 0 {
        law_invalid_byte_is_the_first_one(digits, count - 1);
    }
}

/// A digit is worth its place among the digits, in either case, and nothing else is a
/// digit.
pub proof fn law_digits_have_their_value(byte: u8, value: int, upper_case: bool)
    ensures
        0 <= value < 16 ==> (hex::nibble_of(digit_code(value, upper_case)) matches Some(nibble)
            && nibble == value),
        hex::nibble_of(byte) is Some <==> (0x30 <= byte <= 0x39 || 0x41 <= byte <= 0x46 || 0x61
            <= byte <= 0x66),
        hex::nibble_of(byte) matches Some(nibble) ==> nibble < 16 && (byte == digit_code(
            nibble as int,
            true,
        ) || byte == digit_code(nibble as int, false)),
{
}

/// Text of the wrong length is refused with the length that was found, without its
/// prefix, and with the length that is wanted: 96 digits for a version 1 frame, and for
/// any frame an even count of 6 to 510 digits.
pub proof fn law_wrong_lengths_are_named(encoded: Seq<u8>)
    requires
        encoded.len() <= usize::MAX,
    ensures
        ({
            let prefixed = encoded.len() >= 2 && encoded[0] == 0x30 && (encoded[1] == 0x78
                || encoded[1] == 0x58);
            let digits = if prefixed {
                encoded.len() - 2
            } else {
                encoded.len() as int
            };
            &&& digits != 96 ==> (hex::parsed_frame(encoded) matches Err(
                HexError::WrongLength { expected, actual },
            ) && expected == 96 && actual == digits)
            &&& hex::parsed_frame(encoded) matches Ok(bytes) ==> digits == 96 && bytes.len() == 48
            &&& digits % 2 == 1 ==> (hex::parsed_payload(encoded) matches Err(
                HexError::OddLength { actual },
            ) && actual == digits)
            &&& digits % 2 == 0 && !(6 <= digits <= 510) ==> (hex::parsed_payload(encoded) matches Err(
                HexError::PayloadLength { minimum, maximum, actual },
            ) && minimum == 3 && maximum == 255 && 2 * actual == digits)
            &&& hex::parsed_payload(encoded) matches Ok(bytes) ==> 2 * bytes.len() == digits
        }),
{
}

/// The messages of refused text show each value behind its own words.
#[verifier::spinoff_prover]
#[verifier::rlimit(30)]
pub proof fn law_messages_show_what_was_found(
    expected: usize,
    actual: usize,
    minimum: usize,
    maximum: usize,
    index: usize,
    found: u8,
)
    ensures
        text_laws::shows(
            hex::hex_error_text(HexError::WrongLength { expected, actual }),
            "wrong hexadecimal length: expected "@ + text::decimal(expected as nat)
                + " characters, got "@,
        ),
        text_laws::shows(
            hex::hex_error_text(HexError::WrongLength { expected, actual }),
            " characters, got "@ + text::decimal(actual as nat),
        ),
        text_laws::shows(
            hex::hex_error_text(HexError::OddLength { actual }),
            "wrong hexadecimal length: expected an even count of characters, got "@
                + text::decimal(actual as nat),
        ),
        text_laws::shows(
            hex::hex_error_text(HexError::PayloadLength { minimum, maximum, actual }),
            "payload length must be "@ + text::decimal(minimum as nat) + "..="@,
        ),
        text_laws::shows(
            hex::hex_error_text(HexError::PayloadLength { minimum, maximum, actual }),
            "..="@ + text::decimal(maximum as nat) + " bytes, got "@,
        ),
        text_laws::shows(
            hex::hex_error_text(HexError::PayloadLength { minimum, maximum, actual }),
            " bytes, got "@ + text::decimal(actual as nat),
        ),
        text_laws::shows(
            hex::hex_error_text(HexError::InvalidByte { index, found }),
            "invalid hexadecimal byte 0x"@ + text::hex_digits(found as nat, 2) + " at position "@,
        ),
        text_laws::shows(
            hex::hex_error_text(HexError::InvalidByte { index, found }),
            " at position "@ + text::decimal(index as nat),
        ),
{
    let parts = seq![
        "wrong hexadecimal length: expected "@,
        text::decimal(expected as nat),
        " characters, got "@,
        text::decimal(actual as nat),
    ];
    assert(Seq::<char>::empty() + parts[0] =~= parts[0]);
    let message = hex::hex_error_text(HexError::WrongLength { expected, actual });
    assert(message == text_laws::joined(Seq::empty(), parts, 4)) by {
        reveal_with_fuel(text_laws::joined, 5);
    }
    text_laws::lemma_labelled(Seq::empty(), parts, 4, 0);
    text_laws::lemma_labelled(Seq::empty(), parts, 4, 2);
    let parts = seq![
        "wrong hexadecimal length: expected an even count of characters, got "@,
        text::decimal(actual as nat),
    ];
    assert(Seq::<char>::empty() + parts[0] =~= parts[0]);
    let message = hex::hex_error_text(HexError::OddLength { actual });
    assert(message == text_laws::joined(Seq::empty(), parts, 2)) by {
        reveal_with_fuel(text_laws::joined, 3);
    }
    text_laws::lemma_labelled(Seq::empty(), parts, 2, 0);
    let parts = seq![
        "payload length must be "@,
        text::decimal(minimum as nat),
        "..="@,
        text::decimal(maximum as nat),
        " bytes, got "@,
        text::decimal(actual as nat),
    ];
    assert(Seq::<char>::empty() + parts[0] =~= parts[0]);
    let message = hex::hex_error_text(HexError::PayloadLength { minimum, maximum, actual });
    assert(message == text_laws::joined(Seq::empty(), parts, 6)) by {
        reveal_with_fuel(text_laws::joined, 7);
    }
    text_laws::lemma_labelled(Seq::empty(), parts, 6, 0);
    text_laws::lemma_labelled(Seq::empty(), parts, 6, 2);
    text_laws::lemma_labelled(Seq::empty(), parts, 6, 4);
    let parts = seq![
        "invalid hexadecimal byte 0x"@,
        text::hex_digits(found as nat, 2),
        " at position "@,
        text::decimal(index as nat),
    ];
    assert(Seq::<char>::empty() + parts[0] =~= parts[0]);
    let message = hex::hex_error_text(HexError::InvalidByte { index, found });
    assert(message == text_laws::joined(Seq::empty(), parts, 4)) by {
        reveal_with_fuel(text_laws::joined, 5);
    }
    text_laws::lemma_labelled(Seq::empty(), parts, 4, 0);
    text_laws::lemma_labelled(Seq::empty(), parts, 4, 2);
}

/// A version 1 frame written as text decodes to the telemetry that was encoded, and text
/// that parses is refused only for what its bytes are.
pub proof fn law_telemetry_reads_back_from_text(
    frame: TelemetryV1,
    encoded: Seq<u8>,
    upper_case: bool,
    upper_case_prefix: bool,
)
    ensures
        ({
            let digits = digits_of(telemetry::telemetry_bytes(frame), upper_case);
            &&& hex::decoded_text(digits) == Ok::<TelemetryV1, TextDecodeError>(frame)
            &&& hex::decoded_text(prefixed(digits, upper_case_prefix)) == Ok::<
                TelemetryV1,
                TextDecodeError,
            >(frame)
        }),
        match hex::decoded_text(encoded) {
            Ok(found) => hex::parsed_frame(encoded) matches Ok(bytes) && telemetry::decoded_v1(
                bytes,
            ) == Ok::<TelemetryV1, DecodeError>(found),
            Err(TextDecodeError::Hex(error)) => hex::parsed_frame(encoded) == Err::<
                Seq<u8>,
                HexError,
            >(error),
            Err(TextDecodeError::Protocol(error)) => hex::parsed_frame(encoded) matches Ok(bytes)
                && telemetry::decoded_v1(bytes) == Err::<TelemetryV1, DecodeError>(error),
        },
{
    telemetry::law_v1_round_trip(frame);
    law_written_digits_parse(
        telemetry::telemetry_bytes(frame),
        upper_case,
        upper_case_prefix,
    );
}

} // verus!
