//! The text of codec errors.

use vstd::prelude::*;
use vstd::string::StringExecFns;

use crate::text;
use crate::text::{one_number, push_debug, push_decimal, two_numbers};
use crate::v2::types::Error;

verus! {

/// The text of a codec error: its name and its fields.
pub open spec fn error_text(error: Error) -> Seq<char> {
    match error {
        Error::WrongLength { expected, actual } => "WrongLength { expected: "@ + text::decimal(
            expected as nat,
        ) + ", actual: "@ + text::decimal(actual as nat) + " }"@,
        Error::FrameTooLong(len) => "FrameTooLong("@ + text::decimal(len as nat) + ")"@,
        Error::InvalidMagic(found) => "InvalidMagic(["@ + text::decimal(found[0] as nat) + ", "@
            + text::decimal(found[1] as nat) + "])"@,
        Error::UnsupportedVersion(found) => "UnsupportedVersion("@ + text::decimal(found as nat)
            + ")"@,
        Error::InvalidHeaderLength(found) => "InvalidHeaderLength("@ + text::decimal(found as nat)
            + ")"@,
        Error::UnknownFrameType(found) => "UnknownFrameType("@ + text::decimal(found as nat)
            + ")"@,
        Error::InvalidFragmentCount(found) => "InvalidFragmentCount("@ + text::decimal(
            found as nat,
        ) + ")"@,
        Error::InvalidFragmentIndex { index, count } => "InvalidFragmentIndex { index: "@
            + text::decimal(index as nat) + ", count: "@ + text::decimal(count as nat) + " }"@,
        Error::InvalidField(field) => "InvalidField("@ + text::debug_of(field@) + ")"@,
        Error::UnknownFlags { field, bits } => "UnknownFlags { field: "@ + text::debug_of(field@)
            + ", bits: "@ + text::decimal(bits as nat) + " }"@,
        Error::ConfigIdMismatch { header, calculated } => "ConfigIdMismatch { header: "@
            + text::decimal(header as nat) + ", calculated: "@ + text::decimal(calculated as nat)
            + " }"@,
        Error::StepIndexOutOfBounds => "StepIndexOutOfBounds"@,
        Error::BufferExhausted => "BufferExhausted"@,
    }
}

impl Error {
    /// The text of this error: its name and its fields.
    #[must_use]
    pub fn message(&self) -> (message: String)
        ensures
            message@ == error_text(*self),
    {
        match *self {
            Error::WrongLength { expected, actual } => two_numbers(
                "WrongLength { expected: ",
                expected as u64,
                ", actual: ",
                actual as u64,
                " }",
            ),
            Error::FrameTooLong(len) => one_number("FrameTooLong(", len as u64, ")"),
            Error::InvalidMagic(found) => two_numbers(
                "InvalidMagic([",
                found[0] as u64,
                ", ",
                found[1] as u64,
                "])",
            ),
            Error::UnsupportedVersion(found) => one_number(
                "UnsupportedVersion(",
                found as u64,
                ")",
            ),
            Error::InvalidHeaderLength(found) => one_number(
                "InvalidHeaderLength(",
                found as u64,
                ")",
            ),
            Error::UnknownFrameType(found) => one_number("UnknownFrameType(", found as u64, ")"),
            Error::InvalidFragmentCount(found) => one_number(
                "InvalidFragmentCount(",
                found as u64,
                ")",
            ),
            Error::InvalidFragmentIndex { index, count } => two_numbers(
                "InvalidFragmentIndex { index: ",
                index as u64,
                ", count: ",
                count as u64,
                " }",
            ),
            Error::InvalidField(field) => {
                let mut out = String::from_str("InvalidField(");
                push_debug(&mut out, field);
                out.append(")");
                out
            },
            Error::UnknownFlags { field, bits } => {
                let mut out = String::from_str("UnknownFlags { field: ");
                push_debug(&mut out, field);
                out.append(", bits: ");
                push_decimal(&mut out, bits as u64);
                out.append(" }");
                out
            },
            Error::ConfigIdMismatch { header, calculated } => two_numbers(
                "ConfigIdMismatch { header: ",
                header,
                ", calculated: ",
                calculated,
                " }",
            ),
            Error::StepIndexOutOfBounds => String::from_str("StepIndexOutOfBounds"),
            Error::BufferExhausted => String::from_str("BufferExhausted"),
        }
    }
}

} // verus!
