//! What holds of the choice between versions and of the fixed-size frame as a whole.

use vstd::prelude::*;

use crate::telemetry;
use crate::telemetry::{DecodeError, ProtocolDecodeError, TelemetryModel, TelemetryV1};
use crate::text;
use crate::text::laws as text_laws;
use crate::v2::frame;
use crate::v2::message;
use crate::v2::types::Error;
use crate::wire;

verus! {

/// A version 1 frame decodes exactly if it is 48 bytes long and starts with `VS` and the
/// version, and then every value is the big-endian integer at its place.
pub proof fn law_v1_frame_decodes(bytes: Seq<u8>)
    ensures
        telemetry::decoded_v1(bytes) is Ok <==> bytes.len() == 48 && bytes[0] == 0x56 && bytes[1]
            == 0x53 && bytes[2] == 1,
        telemetry::decoded_v1(bytes) matches Ok(frame) ==> {
            &&& frame.sensor_status.value() == bytes[3]
            &&& frame.node_id == wire::be64(bytes, 4)
            &&& frame.sequence == wire::be32(bytes, 12)
            &&& frame.compensated.temperature.value() == wire::be_i16(bytes, 16)
            &&& frame.compensated.pressure.value() == wire::be32(bytes, 18)
            &&& frame.compensated.humidity.value() == wire::be32(bytes, 22)
            &&& frame.compensated.gas_resistance.value() == wire::be32(bytes, 26)
            &&& frame.raw.temperature_adc == wire::be32(bytes, 30)
            &&& frame.raw.pressure_adc == wire::be32(bytes, 34)
            &&& frame.raw.humidity_adc == wire::be16(bytes, 38)
            &&& frame.raw.gas_resistance_adc == wire::be16(bytes, 40)
            &&& frame.raw.gas_range == bytes[42]
            &&& frame.raw.gas_index == bytes[43]
            &&& frame.raw.measurement_index == bytes[44]
            &&& frame.raw.heater_resistance == bytes[45]
            &&& frame.raw.heater_current == bytes[46]
            &&& frame.raw.gas_wait == bytes[47]
        },
{
    if telemetry::decoded_v1(bytes) is Ok {
        telemetry::lemma_telemetry_values(bytes);
    }
}

/// An encoded version 1 frame is 48 bytes long, starts with `VS` and the version, and
/// holds every value at its place.
pub proof fn law_v1_frame_encodes(frame: TelemetryV1)
    ensures
        ({
            let bytes = telemetry::telemetry_bytes(frame);
            &&& bytes.len() == 48
            &&& bytes[0] == 0x56
            &&& bytes[1] == 0x53
            &&& bytes[2] == 1
            &&& bytes[3] == frame.sensor_status.value()
            &&& wire::be64(bytes, 4) == frame.node_id
            &&& wire::be32(bytes, 12) == frame.sequence
            &&& wire::be_i16(bytes, 16) == frame.compensated.temperature.value()
            &&& wire::be32(bytes, 18) == frame.compensated.pressure.value()
            &&& wire::be32(bytes, 22) == frame.compensated.humidity.value()
            &&& wire::be32(bytes, 26) == frame.compensated.gas_resistance.value()
            &&& wire::be32(bytes, 30) == frame.raw.temperature_adc
            &&& wire::be32(bytes, 34) == frame.raw.pressure_adc
            &&& wire::be16(bytes, 38) == frame.raw.humidity_adc
            &&& wire::be16(bytes, 40) == frame.raw.gas_resistance_adc
        }),
{
    telemetry::law_v1_round_trip(frame);
    law_v1_frame_decodes(telemetry::telemetry_bytes(frame));
}

/// A refused version 1 frame is refused for what is wrong with it, in this order: its
/// length, its discriminator, its version.
pub proof fn law_v1_errors_name_what_is_wrong(bytes: Seq<u8>)
    requires
        bytes.len() <= usize::MAX,
    ensures
        telemetry::decoded_v1(bytes) matches Err(DecodeError::WrongLength { expected, actual })
            ==> expected == 48 && actual == bytes.len() && actual != 48,
        telemetry::decoded_v1(bytes) matches Err(DecodeError::InvalidMagic { found })
            ==> bytes.len() == 48 && found[0] == bytes[0] && found[1] == bytes[1] && (found[0]
            != 0x56 || found[1] != 0x53),
        telemetry::decoded_v1(bytes) matches Err(DecodeError::UnsupportedVersion { found })
            ==> bytes.len() == 48 && bytes[0] == 0x56 && bytes[1] == 0x53 && found == bytes[2]
            && found != 1,
        bytes.len() != 48 ==> telemetry::decoded_v1(bytes) matches Err(
            DecodeError::WrongLength { .. },
        ),
{
}

/// Whatever its length, a frame is decoded as the version that its third byte names
/// once the first two are `VS`, and what decodes it decides. Of anything else the error
/// names the count of bytes, the discriminator or the version that was found.
pub proof fn law_version_is_never_guessed(bytes: Seq<u8>)
    requires
        bytes.len() <= usize::MAX,
    ensures
        ({
            let vesta = bytes.len() >= 3 && bytes[0] == 0x56 && bytes[1] == 0x53;
            &&& vesta && bytes[2] == 1 ==> match telemetry::decoded_v1(bytes) {
                Ok(frame) => telemetry::decoded_any(bytes) == Ok::<
                    TelemetryModel,
                    ProtocolDecodeError,
                >(TelemetryModel::V1(frame)),
                Err(error) => telemetry::decoded_any(bytes) == Err::<
                    TelemetryModel,
                    ProtocolDecodeError,
                >(ProtocolDecodeError::V1(error)),
            }
            &&& vesta && bytes[2] == 2 ==> match frame::decoded(bytes) {
                Ok(model) => telemetry::decoded_any(bytes) == Ok::<
                    TelemetryModel,
                    ProtocolDecodeError,
                >(TelemetryModel::V2(model)),
                Err(error) => telemetry::decoded_any(bytes) == Err::<
                    TelemetryModel,
                    ProtocolDecodeError,
                >(ProtocolDecodeError::V2(error)),
            }
            &&& vesta && bytes[2] != 1 && bytes[2] != 2 ==> telemetry::decoded_any(bytes) == Err::<
                TelemetryModel,
                ProtocolDecodeError,
            >(ProtocolDecodeError::UnsupportedVersion { found: bytes[2] })
            &&& bytes.len() < 3 ==> (telemetry::decoded_any(bytes) matches Err(
                ProtocolDecodeError::TruncatedDiscriminator { actual },
            ) && actual == bytes.len())
            &&& bytes.len() >= 3 && !vesta ==> (telemetry::decoded_any(bytes) matches Err(
                ProtocolDecodeError::InvalidMagic { found },
            ) && found[0] == bytes[0] && found[1] == bytes[1])
        }),
{
}

/// The messages of refused frames show the wanted value behind the word for it and the
/// found one behind the word for that.
#[verifier::spinoff_prover]
#[verifier::rlimit(30)]
pub proof fn law_messages_show_what_was_found(
    expected: usize,
    actual: usize,
    found: [u8; 2],
    version: u8,
    refused: DecodeError,
    fault: Error,
)
    ensures
        text_laws::shows(
            telemetry::decode_error_text(DecodeError::WrongLength { expected, actual }),
            "wrong frame length: expected "@ + text::decimal(expected as nat) + ", got "@,
        ),
        text_laws::shows(
            telemetry::decode_error_text(DecodeError::WrongLength { expected, actual }),
            ", got "@ + text::decimal(actual as nat),
        ),
        text_laws::shows(
            telemetry::decode_error_text(DecodeError::InvalidMagic { found }),
            "invalid frame magic: expected "@ + text::hex_digits(0x56u8 as nat, 2),
        ),
        text_laws::shows(
            telemetry::decode_error_text(DecodeError::InvalidMagic { found }),
            text::hex_digits(0x53u8 as nat, 2) + ", got "@,
        ),
        text_laws::shows(
            telemetry::decode_error_text(DecodeError::InvalidMagic { found }),
            ", got "@ + text::hex_digits(found[0] as nat, 2),
        ),
        text_laws::shows(
            telemetry::decode_error_text(DecodeError::InvalidMagic { found }),
            text::hex_digits(found[1] as nat, 2),
        ),
        text_laws::shows(
            telemetry::decode_error_text(DecodeError::UnsupportedVersion { found: version }),
            "unsupported frame version: "@ + text::decimal(version as nat),
        ),
        text_laws::shows(
            telemetry::protocol_error_text(ProtocolDecodeError::TruncatedDiscriminator { actual }),
            "truncated Vesta discriminator: got "@ + text::decimal(actual as nat) + " bytes"@,
        ),
        text_laws::shows(
            telemetry::protocol_error_text(ProtocolDecodeError::V1(refused)),
            "invalid protocol-v1 frame: "@ + telemetry::decode_error_text(refused),
        ),
        text_laws::shows(
            telemetry::protocol_error_text(ProtocolDecodeError::V2(fault)),
            "invalid protocol-v2 frame: "@ + message::error_text(fault),
        ),
{
    let parts = seq![
        "wrong frame length: expected "@,
        text::decimal(expected as nat),
        ", got "@,
        text::decimal(actual as nat),
    ];
    assert(Seq::<char>::empty() + parts[0] =~= parts[0]);
    let message = telemetry::decode_error_text(DecodeError::WrongLength { expected, actual });
    assert(message == text_laws::joined(Seq::empty(), parts, 4)) by {
        reveal_with_fuel(text_laws::joined, 5);
    }
    text_laws::lemma_labelled(Seq::empty(), parts, 4, 0);
    text_laws::lemma_labelled(Seq::empty(), parts, 4, 2);
    let parts = seq![
        "invalid frame magic: expected "@,
        text::hex_digits(0x56u8 as nat, 2),
        text::hex_digits(0x53u8 as nat, 2),
        ", got "@,
        text::hex_digits(found[0] as nat, 2),
        text::hex_digits(found[1] as nat, 2),
    ];
    assert(Seq::<char>::empty() + parts[0] =~= parts[0]);
    let message = telemetry::decode_error_text(DecodeError::InvalidMagic { found });
    assert(message == text_laws::joined(Seq::empty(), parts, 6)) by {
        reveal_with_fuel(text_laws::joined, 7);
    }
    text_laws::lemma_labelled(Seq::empty(), parts, 6, 0);
    text_laws::lemma_labelled(Seq::empty(), parts, 6, 2);
    text_laws::lemma_labelled(Seq::empty(), parts, 6, 3);
    text_laws::lemma_labelled(Seq::empty(), parts, 6, 5);
    let parts = seq!["unsupported frame version: "@, text::decimal(version as nat)];
    assert(Seq::<char>::empty() + parts[0] =~= parts[0]);
    let message = telemetry::decode_error_text(DecodeError::UnsupportedVersion { found: version });
    assert(message == text_laws::joined(Seq::empty(), parts, 2)) by {
        reveal_with_fuel(text_laws::joined, 3);
    }
    text_laws::lemma_labelled(Seq::empty(), parts, 2, 0);
    let parts = seq![
        "truncated Vesta discriminator: got "@,
        text::decimal(actual as nat),
        " bytes"@,
    ];
    assert(Seq::<char>::empty() + parts[0] =~= parts[0]);
    let message = telemetry::protocol_error_text(
        ProtocolDecodeError::TruncatedDiscriminator { actual },
    );
    assert(message == text_laws::joined(Seq::empty(), parts, 3)) by {
        reveal_with_fuel(text_laws::joined, 4);
    }
    text_laws::lemma_labelled(Seq::empty(), parts, 3, 0);
    let parts = seq!["invalid protocol-v1 frame: "@, telemetry::decode_error_text(refused)];
    assert(Seq::<char>::empty() + parts[0] =~= parts[0]);
    let message = telemetry::protocol_error_text(ProtocolDecodeError::V1(refused));
    assert(message == text_laws::joined(Seq::empty(), parts, 2)) by {
        reveal_with_fuel(text_laws::joined, 3);
    }
    text_laws::lemma_labelled(Seq::empty(), parts, 2, 0);
    let parts = seq!["invalid protocol-v2 frame: "@, message::error_text(fault)];
    assert(Seq::<char>::empty() + parts[0] =~= parts[0]);
    let message = telemetry::protocol_error_text(ProtocolDecodeError::V2(fault));
    assert(message == text_laws::joined(Seq::empty(), parts, 2)) by {
        reveal_with_fuel(text_laws::joined, 3);
    }
    text_laws::lemma_labelled(Seq::empty(), parts, 2, 0);
}

} // verus!
