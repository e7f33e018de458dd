//! Frames as hexadecimal text.
//!
//! Upper-case and lower-case digits are accepted, as is an optional `0x` prefix.
//! Embedded spaces or separators are intentionally rejected.

pub mod laws;

use vstd::prelude::*;
use vstd::string::StringExecFns;
use vstd::string::StringSliceAdditionalSpecFns;

use crate::telemetry;
use crate::telemetry::{DecodeError, TelemetryV1, FRAME_LEN};
use crate::text;
use crate::text::push_hex;
use crate::v2::types::MAX_PHY_FRAME_LEN;

verus! {

/// Number of hexadecimal characters in one version 1 frame.
pub const FRAME_HEX_LEN: usize = FRAME_LEN * 2;

/// Smallest payload that names its protocol version.
pub const MIN_PAYLOAD_LEN: usize = 3;

/// Failure while parsing hexadecimal input.
#[derive(Clone, Copy, Debug, Eq, PartialEq, Structural)]
pub enum HexError {
    /// The text does not contain exactly 48 bytes.
    WrongLength {
        /// Required count of hexadecimal characters.
        expected: usize,
        /// Supplied byte length after removing an optional prefix.
        actual: usize,
    },
    /// A variable-size payload contains half of a byte.
    OddLength {
        /// Supplied count of hexadecimal characters.
        actual: usize,
    },
    /// A variable-size payload is too short or exceeds the `LoRa` PHY maximum.
    PayloadLength {
        /// Smallest accepted byte count.
        minimum: usize,
        /// Largest accepted byte count.
        maximum: usize,
        /// Supplied byte count.
        actual: usize,
    },
    /// A byte is not an ASCII hexadecimal digit.
    InvalidByte {
        /// Zero-based byte position after removing an optional prefix.
        index: usize,
        /// Byte found at that position.
        found: u8,
    },
}

/// The text of a hexadecimal failure.
pub open spec fn hex_error_text(error: HexError) -> Seq<char> {
    match error {
        HexError::WrongLength { expected, actual } => "wrong hexadecimal length: expected "@
            + text::decimal(expected as nat) + " characters, got "@ + text::decimal(actual as nat),
        HexError::OddLength { actual } =>
            "wrong hexadecimal length: expected an even count of characters, got "@ + text::decimal(
            actual as nat,
        ),
        HexError::PayloadLength { minimum, maximum, actual } => "payload length must be "@
            + text::decimal(minimum as nat) + "..="@ + text::decimal(maximum as nat)
            + " bytes, got "@ + text::decimal(actual as nat),
        HexError::InvalidByte { index, found } => "invalid hexadecimal byte 0x"@ + text::hex_digits(
            found as nat,
            2,
        ) + " at position "@ + text::decimal(index as nat),
    }
}

impl HexError {
    /// A readable description.
    #[must_use]
    pub fn message(self) -> (message: String)
        ensures
            message@ == hex_error_text(self),
    {
        match self {
            HexError::WrongLength { expected, actual } => text::ending_numbers(
                "wrong hexadecimal length: expected ",
                expected as u64,
                " characters, got ",
                actual as u64,
            ),
            HexError::OddLength { actual } => text::ending_number(
                "wrong hexadecimal length: expected an even count of characters, got ",
                actual as u64,
            ),
            HexError::PayloadLength { minimum, maximum, actual } => {
                let mut message = text::two_numbers(
                    "payload length must be ",
                    minimum as u64,
                    "..=",
                    maximum as u64,
                    " bytes, got ",
                );
                text::push_decimal(&mut message, actual as u64);
                message
            },
            HexError::InvalidByte { index, found } => {
                let mut message = String::from_str("invalid hexadecimal byte 0x");
                push_hex(&mut message, found as u64, 2);
                message.append(" at position ");
                text::push_decimal(&mut message, index as u64);
                message
            },
        }
    }
}

/// Failure while decoding a text frame.
#[derive(Clone, Copy, Debug, Eq, PartialEq)]
pub enum TextDecodeError {
    /// The hexadecimal representation is malformed.
    Hex(HexError),
    /// The decoded bytes do not contain valid Vesta telemetry.
    Protocol(DecodeError),
}

impl TextDecodeError {
    /// A readable description.
    #[must_use]
    pub fn message(self) -> (message: String)
        ensures
            message@ == match self {
                TextDecodeError::Hex(error) => hex_error_text(error),
                TextDecodeError::Protocol(error) => telemetry::decode_error_text(error),
            },
    {
        match self {
            TextDecodeError::Hex(error) => error.message(),
            TextDecodeError::Protocol(error) => error.message(),
        }
    }
}

/// Whether text starts with `0x` or `0X`.
pub open spec fn is_prefixed(bytes: Seq<u8>) -> bool {
    bytes.len() >= 2 && bytes[0] == 0x30 && (bytes[1] == 0x78 || bytes[1] == 0x58)
}

/// Text without an optional prefix.
pub open spec fn without_prefix(bytes: Seq<u8>) -> Seq<u8> {
    if is_prefixed(bytes) {
        bytes.skip(2)
    } else {
        bytes
    }
}

/// The value of an ASCII hexadecimal digit.
pub open spec fn nibble_of(byte: u8) -> Option<u8> {
    if 0x30 <= byte <= 0x39 {
        Some((byte - 0x30) as u8)
    } else if 0x61 <= byte <= 0x66 {
        Some((byte - 0x61 + 10) as u8)
    } else if 0x41 <= byte <= 0x46 {
        Some((byte - 0x41 + 10) as u8)
    } else {
        None
    }
}

/// The failure for the first of the first `count` bytes that is no digit.
pub open spec fn digits_fault(digits: Seq<u8>, count: int) -> Option<HexError>
    decreases count,
{
    if count <= 0 {
        None
    } else if digits_fault(digits, count - 1) is Some {
        digits_fault(digits, count - 1)
    } else if nibble_of(digits[count - 1]) is None {
        Some(HexError::InvalidByte { index: (count - 1) as usize, found: digits[count - 1] })
    } else {
        None
    }
}

/// The byte that the pair of digits at `i` stands for.
pub open spec fn byte_at(digits: Seq<u8>, i: int) -> u8 {
    (nibble_of(digits[2 * i])->0 * 16 + nibble_of(digits[2 * i + 1])->0) as u8
}

/// The bytes that pairs of digits stand for.
pub open spec fn bytes_of(digits: Seq<u8>) -> Seq<u8> {
    Seq::new(digits.len() / 2, |i: int| byte_at(digits, i))
}

/// What digits without a prefix parse to once their count is accepted.
pub open spec fn parsed_digits(digits: Seq<u8>) -> Result<Seq<u8>, HexError> {
    match digits_fault(digits, digits.len() as int) {
        Some(error) => Err(error),
        None => Ok(bytes_of(digits)),
    }
}

/// What text parses to as one version 1 frame.
pub open spec fn parsed_frame(bytes: Seq<u8>) -> Result<Seq<u8>, HexError> {
    let digits = without_prefix(bytes);
    if digits.len() != FRAME_HEX_LEN {
        Err(HexError::WrongLength { expected: FRAME_HEX_LEN, actual: digits.len() as usize })
    } else {
        parsed_digits(digits)
    }
}

/// What text parses to as a variable-length frame.
pub open spec fn parsed_payload(bytes: Seq<u8>) -> Result<Seq<u8>, HexError> {
    let digits = without_prefix(bytes);
    if digits.len() % 2 != 0 {
        Err(HexError::OddLength { actual: digits.len() as usize })
    } else if !(MIN_PAYLOAD_LEN <= digits.len() / 2 <= MAX_PHY_FRAME_LEN) {
        Err(
            HexError::PayloadLength {
                minimum: MIN_PAYLOAD_LEN,
                maximum: MAX_PHY_FRAME_LEN,
                actual: (digits.len() / 2) as usize,
            },
        )
    } else {
        parsed_digits(digits)
    }
}

/// Where the digits of a text start.
fn prefix_len(source: &[u8]) -> (start: usize)
    ensures
        start <= source@.len(),
        start == if is_prefixed(source@) {
            2int
        } else {
            0
        },
        without_prefix(source@) == source@.skip(start as int),
{
    assert(source@.skip(0) =~= source@);
    if source.len() >= 2 && source[0] == 0x30 && (source[1] == 0x78 || source[1] == 0x58) {
        2
    } else {
        0
    }
}

/// The value of an ASCII hexadecimal digit.
fn hex_nibble(byte: u8) -> (nibble: Option<u8>)
    ensures
        nibble == nibble_of(byte),
        nibble is Some ==> nibble->0 < 16,
{
    if byte >= 0x30 && byte <= 0x39 {
        Some(byte - 0x30)
    } else if byte >= 0x61 && byte <= 0x66 {
        Some(byte - 0x61 + 10)
    } else if byte >= 0x41 && byte <= 0x46 {
        Some(byte - 0x41 + 10)
    } else {
        None
    }
}

/// Parses the pair of digits at `index`.
fn parse_byte(source: &[u8], start: usize, index: usize) -> (byte: Result<u8, HexError>)
    requires
        start <= source@.len(),
        2 * index + 1 < source@.len() - start,
        source@.len() <= usize::MAX,
        digits_fault(source@.skip(start as int), 2 * index) is None,
    ensures
        ({
            let digits = source@.skip(start as int);
            match byte {
                Ok(byte) => byte == byte_at(digits, index as int) && digits_fault(
                    digits,
                    2 * index + 2,
                ) is None,
                Err(error) => digits_fault(digits, digits.len() as int) == Some(error),
            }
        }),
{
    let ghost digits = source@.skip(start as int);
    let high_index: usize = index * 2;
    let low_index: usize = high_index + 1;
    proof {
        lemma_digits_fault_stays(digits, high_index + 1, digits.len() as int);
        lemma_digits_fault_stays(digits, low_index + 1, digits.len() as int);
    }
    let high: u8 = match hex_nibble(source[start + high_index]) {
        Some(nibble) => nibble,
        None => {
            return Err(
                HexError::InvalidByte { index: high_index, found: source[start + high_index] },
            );
        },
    };
    let low: u8 = match hex_nibble(source[start + low_index]) {
        Some(nibble) => nibble,
        None => {
            return Err(
                HexError::InvalidByte { index: low_index, found: source[start + low_index] },
            );
        },
    };
    Ok(high * 16 + low)
}

proof fn lemma_digits_fault_stays(digits: Seq<u8>, from: int, to: int)
    requires
        0 <= from <= to,
    ensures
        digits_fault(digits, from) is Some ==> digits_fault(digits, to) == digits_fault(
            digits,
            from,
        ),
    decreases to,
{
    if from < to {
        lemma_digits_fault_stays(digits, from, to - 1);
    }
}

/// Parse exactly one version 1 frame from hexadecimal text.
///
/// # Errors
///
/// Returns [`HexError`] for an incorrect length or a non-hexadecimal byte.
pub fn parse_frame_hex(input: &str) -> (result: Result<[u8; FRAME_LEN], HexError>)
    ensures
        match result {
            Ok(frame) => parsed_frame(input.spec_bytes()) == Ok::<Seq<u8>, HexError>(frame@),
            Err(error) => parsed_frame(input.spec_bytes()) == Err::<Seq<u8>, HexError>(error),
        },
{
    let source = input.as_bytes();
    let start: usize = prefix_len(source);
    let ghost digits = source@.skip(start as int);
    assert(source.len() == source@.len());
    if source.len() - start != FRAME_HEX_LEN {
        return Err(
            HexError::WrongLength { expected: FRAME_HEX_LEN, actual: source.len() - start },
        );
    }
    let mut frame: [u8; FRAME_LEN] = [0;FRAME_LEN];
    let mut index: usize = 0;
    while index < FRAME_LEN
        invariant
            index <= FRAME_LEN,
            source@.len() <= usize::MAX,
            source@.len() - start == FRAME_HEX_LEN,
            start <= source@.len(),
            source@ == input.spec_bytes(),
            digits == source@.skip(start as int),
            digits == without_prefix(source@),
            digits.len() == FRAME_HEX_LEN,
            digits_fault(digits, 2 * index) is None,
            forall|i: int| 0 <= i < index ==> #[trigger] frame@[i] == byte_at(digits, i),
        decreases FRAME_LEN - index,
    {
        match parse_byte(source, start, index) {
            Ok(byte) => {
                frame[index] = byte;
            },
            Err(error) => {
                return Err(error);
            },
        }
        index = index + 1;
    }
    assert(frame@ =~= bytes_of(digits));
    Ok(frame)
}

/// Parse a variable-length Vesta frame from hexadecimal text.
///
/// Version 2 frames may contain between 48 and 255 bytes. This parser accepts
/// any whole-byte payload from 3 through 255 bytes and leaves exact
/// version-specific length validation to the codec.
///
/// # Errors
///
/// Returns [`HexError`] for odd length, an out-of-range payload, or a
/// non-hexadecimal character.
pub fn parse_payload_hex(input: &str) -> (result: Result<Vec<u8>, HexError>)
    ensures
        match result {
            Ok(payload) => parsed_payload(input.spec_bytes()) == Ok::<Seq<u8>, HexError>(payload@),
            Err(error) => parsed_payload(input.spec_bytes()) == Err::<Seq<u8>, HexError>(error),
        },
{
    let source = input.as_bytes();
    let start: usize = prefix_len(source);
    let ghost digits = source@.skip(start as int);
    assert(source.len() == source@.len());
    let digit_count: usize = source.len() - start;
    if digit_count % 2 != 0 {
        return Err(HexError::OddLength { actual: digit_count });
    }
    let byte_len: usize = digit_count / 2;
    if byte_len < MIN_PAYLOAD_LEN || byte_len > MAX_PHY_FRAME_LEN {
        return Err(
            HexError::PayloadLength {
                minimum: MIN_PAYLOAD_LEN,
                maximum: MAX_PHY_FRAME_LEN,
                actual: byte_len,
            },
        );
    }
    let mut payload: Vec<u8> = Vec::new();
    let mut index: usize = 0;
    while index < byte_len
        invariant
            index <= byte_len,
            MIN_PAYLOAD_LEN <= byte_len <= MAX_PHY_FRAME_LEN,
            source@.len() <= usize::MAX,
            source@.len() - start == 2 * byte_len,
            start <= source@.len(),
            source@ == input.spec_bytes(),
            digits == source@.skip(start as int),
            digits == without_prefix(source@),
            digits.len() == 2 * byte_len,
            digits_fault(digits, 2 * index) is None,
            payload@.len() == index,
            forall|i: int| 0 <= i < index ==> #[trigger] payload@[i] == byte_at(digits, i),
        decreases byte_len - index,
    {
        match parse_byte(source, start, index) {
            Ok(byte) => {
                payload.push(byte);
            },
            Err(error) => {
                return Err(error);
            },
        }
        index = index + 1;
    }
    assert(payload@ =~= bytes_of(digits));
    Ok(payload)
}

/// What text decodes to as one version 1 frame.
pub open spec fn decoded_text(bytes: Seq<u8>) -> Result<TelemetryV1, TextDecodeError> {
    match parsed_frame(bytes) {
        Ok(frame) => match telemetry::decoded_v1(frame) {
            Ok(telemetry) => Ok(telemetry),
            Err(error) => Err(TextDecodeError::Protocol(error)),
        },
        Err(error) => Err(TextDecodeError::Hex(error)),
    }
}

/// Decode a hexadecimal representation of one telemetry frame.
///
/// # Errors
///
/// Returns [`TextDecodeError`] if the text is not exactly one frame or if the
/// decoded bytes fail protocol validation.
pub fn decode_hex(input: &str) -> (result: Result<TelemetryV1, TextDecodeError>)
    ensures
        result == decoded_text(input.spec_bytes()),
{
    match parse_frame_hex(input) {
        Ok(frame) => match TelemetryV1::decode(&frame) {
            Ok(telemetry) => Ok(telemetry),
            Err(error) => Err(TextDecodeError::Protocol(error)),
        },
        Err(error) => Err(TextDecodeError::Hex(error)),
    }
}

} // verus!
