//! What holds of rendered telemetry as a whole: each value of a document or text stands
//! under its own name and is the one at that value's place in the received frame.

use vstd::prelude::*;

use crate::convert;
use crate::convert::laws as convert_laws;
use crate::reassembly::ProfileKey;
use crate::render;
use crate::render::{JsonFrame, JsonFrameV2, JsonIdentity};
use crate::session;
use crate::sx1262::RadioMetadata;
use crate::telemetry;
use crate::text;
use crate::text::laws as text_laws;
use crate::v2::frame;
use crate::v2::types::HEADER_LEN;
use crate::wire;

verus! {

/// The document of a version 1 frame holds every value of the frame under its own name:
/// the status at byte 3, the node at 4, the sequence at 12, temperature, pressure,
/// humidity and gas resistance at 16, 18, 22 and 26, and the raw channels and registers
/// from 30 on. The node is sixteen hexadecimal digits that read back as the number.
pub proof fn law_document_is_read_from_the_frame(bytes: Seq<u8>, document: JsonFrame)
    requires
        telemetry::decoded_v1(bytes) is Ok,
        render::is_document_of(document, telemetry::decoded_v1(bytes)->Ok_0),
    ensures
        ({
            let status = document.status;
            let corrected = document.corrected;
            let raw = document.raw;
            &&& document.protocol_version == 1
            &&& document.node_id@.len() == 16
            &&& text_laws::number(document.node_id@, 16) == wire::be64(bytes, 4)
            &&& document.sequence == wire::be32(bytes, 12)
            &&& status.bits == bytes[3]
            &&& status.new_data == (bytes[3] & 0x80 != 0)
            &&& status.gas_valid == (bytes[3] & 0x20 != 0)
            &&& status.heater_stable == (bytes[3] & 0x10 != 0)
            &&& status.unknown_bits == bytes[3] & 0x4f
            &&& corrected.temperature_centi_celsius == wire::be_i16(bytes, 16)
            &&& corrected.pressure_pascal == wire::be32(bytes, 18)
            &&& corrected.humidity_milli_percent_rh == wire::be32(bytes, 22)
            &&& corrected.gas_resistance_ohm == wire::be32(bytes, 26)
            &&& raw.temperature_adc == wire::be32(bytes, 30)
            &&& raw.pressure_adc == wire::be32(bytes, 34)
            &&& raw.humidity_adc == wire::be16(bytes, 38)
            &&& raw.gas_resistance_adc == wire::be16(bytes, 40)
            &&& raw.gas_range == bytes[42]
            &&& raw.gas_index == bytes[43]
            &&& raw.measurement_index == bytes[44]
            &&& raw.heater_resistance == bytes[45]
            &&& raw.heater_current == bytes[46]
            &&& raw.gas_wait == bytes[47]
        }),
{
    telemetry::lemma_telemetry_values(bytes);
    text_laws::law_sixteen_digits_hold_64_bits(wire::be64(bytes, 4), 0);
    lemma_unknown_status();
}

proof fn lemma_unknown_status()
    ensures
        !0xb0u8 == 0x4fu8,
{
    assert(!0xb0u8 == 0x4fu8) by (bit_vector);
}

/// Frames with the same document are the same frame: a document loses nothing.
pub proof fn law_documents_lose_nothing(
    bytes: Seq<u8>,
    other: Seq<u8>,
    document: JsonFrame,
)
    requires
        telemetry::decoded_v1(bytes) is Ok,
        telemetry::decoded_v1(other) is Ok,
        render::is_document_of(document, telemetry::decoded_v1(bytes)->Ok_0),
        render::is_document_of(document, telemetry::decoded_v1(other)->Ok_0),
    ensures
        bytes == other,
{
    law_document_is_read_from_the_frame(bytes, document);
    law_document_is_read_from_the_frame(other, document);
    telemetry::law_v1_decoded_encodes_back(bytes);
    telemetry::law_v1_decoded_encodes_back(other);
    assert(telemetry::decoded_v1(bytes) == telemetry::decoded_v1(other));
}

/// The text for people shows every value of the frame behind its own label, with its
/// unit: the status flags, the corrected readings in exact and in display units, and
/// the raw channels and registers.
#[verifier::spinoff_prover]
#[verifier::rlimit(60)]
pub proof fn law_text_shows_each_value_of_the_frame(bytes: Seq<u8>)
    requires
        telemetry::decoded_v1(bytes) is Ok,
    ensures
        ({
            let whole = render::frame_text(telemetry::decoded_v1(bytes)->Ok_0);
            &&& text_laws::shows(
                whole,
                "\n  node_id: 0x"@ + text::hex_digits(wire::be64(bytes, 4) as nat, 16)
                    + "\n  sequence: "@,
            )
            &&& text_laws::shows(
                whole,
                "\n  sequence: "@ + text::decimal(wire::be32(bytes, 12) as nat) + "\n  status: 0x"@,
            )
            &&& text_laws::shows(
                whole,
                "\n  status: 0x"@ + text::hex_digits(bytes[3] as nat, 2) + "\n    new_data: "@,
            )
            &&& text_laws::shows(
                whole,
                "\n    new_data: "@ + text::truth(bytes[3] & 0x80 != 0) + "\n    gas_valid: "@,
            )
            &&& text_laws::shows(
                whole,
                "\n    gas_valid: "@ + text::truth(bytes[3] & 0x20 != 0) + "\n    heater_stable: "@,
            )
            &&& text_laws::shows(
                whole,
                "\n    heater_stable: "@ + text::truth(bytes[3] & 0x10 != 0)
                    + "\n    unknown_bits: 0x"@,
            )
            &&& text_laws::shows(
                whole,
                "\n    unknown_bits: 0x"@ + text::hex_digits((bytes[3] & 0x4f) as nat, 2),
            )
            &&& text_laws::shows(
                whole,
                "\n  corrected:\n    temperature: "@ + text::hundredths(wire::be_i16(bytes, 16) as int)
                    + " deg C ("@,
            )
            &&& text_laws::shows(
                whole,
                " deg C ("@ + text::signed_decimal(wire::be_i16(bytes, 16) as int)
                    + " centi-deg C)\n    pressure: "@,
            )
            &&& text_laws::shows(
                whole,
                " centi-deg C)\n    pressure: "@ + text::decimal(wire::be32(bytes, 18) as nat)
                    + " Pa ("@,
            )
            &&& text_laws::shows(
                whole,
                " Pa ("@ + text::hundredths(wire::be32(bytes, 18) as int)
                    + " hPa)\n    humidity: "@,
            )
            &&& text_laws::shows(
                whole,
                " hPa)\n    humidity: "@ + text::thousandths(wire::be32(bytes, 22) as nat)
                    + "% RH ("@,
            )
            &&& text_laws::shows(
                whole,
                "% RH ("@ + text::decimal(wire::be32(bytes, 22) as nat)
                    + " milli-% RH)\n    gas_resistance: "@,
            )
            &&& text_laws::shows(
                whole,
                " milli-% RH)\n    gas_resistance: "@ + text::decimal(wire::be32(bytes, 26) as nat)
                    + " ohm"@,
            )
            &&& text_laws::shows(
                whole,
                "\n  raw:\n    temperature_adc: "@
                    + text::decimal(wire::be32(bytes, 30) as nat) + "\n    pressure_adc: "@,
            )
            &&& text_laws::shows(
                whole,
                "\n    pressure_adc: "@ + text::decimal(wire::be32(bytes, 34) as nat)
                    + "\n    humidity_adc: "@,
            )
            &&& text_laws::shows(
                whole,
                "\n    humidity_adc: "@ + text::decimal(wire::be16(bytes, 38) as nat)
                    + "\n    gas_resistance_adc: "@,
            )
            &&& text_laws::shows(
                whole,
                "\n    gas_resistance_adc: "@ + text::decimal(wire::be16(bytes, 40) as nat)
                    + "\n    gas_range: "@,
            )
            &&& text_laws::shows(
                whole,
                "\n    gas_range: "@ + text::decimal(bytes[42] as nat) + "\n    gas_index: "@,
            )
            &&& text_laws::shows(
                whole,
                "\n    gas_index: "@ + text::decimal(bytes[43] as nat)
                    + "\n    measurement_index: "@,
            )
            &&& text_laws::shows(
                whole,
                "\n    measurement_index: "@ + text::decimal(bytes[44] as nat)
                    + "\n    heater_resistance: "@,
            )
            &&& text_laws::shows(
                whole,
                "\n    heater_resistance: "@ + text::decimal(bytes[45] as nat)
                    + "\n    heater_current: "@,
            )
            &&& text_laws::shows(
                whole,
                "\n    heater_current: "@ + text::decimal(bytes[46] as nat) + "\n    gas_wait: "@,
            )
            &&& text_laws::shows(whole, "\n    gas_wait: "@ + text::decimal(bytes[47] as nat))
        }),
{
    telemetry::lemma_telemetry_values(bytes);
    let frame = telemetry::decoded_v1(bytes)->Ok_0;
    lemma_unknown_status();
    let empty = Seq::<char>::empty();
    let status = render::with_status(empty, frame);
    let corrected = render::with_corrected(status, frame);
    let whole = render::with_raw(corrected, frame);
    assert(whole == render::frame_text(frame));
    let status_parts = seq![
        "Vesta telemetry v"@,
        text::decimal(1),
        "\n  node_id: 0x"@,
        text::hex_digits(wire::be64(bytes, 4) as nat, 16),
        "\n  sequence: "@,
        text::decimal(wire::be32(bytes, 12) as nat),
        "\n  status: 0x"@,
        text::hex_digits(bytes[3] as nat, 2),
        "\n    new_data: "@,
        text::truth(bytes[3] & 0x80 != 0),
        "\n    gas_valid: "@,
        text::truth(bytes[3] & 0x20 != 0),
        "\n    heater_stable: "@,
        text::truth(bytes[3] & 0x10 != 0),
        "\n    unknown_bits: 0x"@,
        text::hex_digits((bytes[3] & 0x4f) as nat, 2),
    ];
    assert(status == text_laws::joined(empty, status_parts, 16)) by {
        reveal_with_fuel(text_laws::joined, 17);
    }
    text_laws::lemma_labelled(empty, status_parts, 16, 2);
    text_laws::lemma_labelled(empty, status_parts, 16, 4);
    text_laws::lemma_labelled(empty, status_parts, 16, 6);
    text_laws::lemma_labelled(empty, status_parts, 16, 8);
    text_laws::lemma_labelled(empty, status_parts, 16, 10);
    text_laws::lemma_labelled(empty, status_parts, 16, 12);
    text_laws::lemma_labelled(empty, status_parts, 16, 14);
    let corrected_parts = seq![
        "\n  corrected:\n    temperature: "@,
        text::hundredths(wire::be_i16(bytes, 16) as int),
        " deg C ("@,
        text::signed_decimal(wire::be_i16(bytes, 16) as int),
        " centi-deg C)\n    pressure: "@,
        text::decimal(wire::be32(bytes, 18) as nat),
        " Pa ("@,
        text::hundredths(wire::be32(bytes, 18) as int),
        " hPa)\n    humidity: "@,
        text::thousandths(wire::be32(bytes, 22) as nat),
        "% RH ("@,
        text::decimal(wire::be32(bytes, 22) as nat),
        " milli-% RH)\n    gas_resistance: "@,
        text::decimal(wire::be32(bytes, 26) as nat),
        " ohm"@,
    ];
    assert(corrected == text_laws::joined(status, corrected_parts, 15)) by {
        reveal_with_fuel(text_laws::joined, 16);
    }
    text_laws::lemma_labelled(status, corrected_parts, 15, 0);
    text_laws::lemma_labelled(status, corrected_parts, 15, 2);
    text_laws::lemma_labelled(status, corrected_parts, 15, 4);
    text_laws::lemma_labelled(status, corrected_parts, 15, 6);
    text_laws::lemma_labelled(status, corrected_parts, 15, 8);
    text_laws::lemma_labelled(status, corrected_parts, 15, 10);
    text_laws::lemma_labelled(status, corrected_parts, 15, 12);
    let raw_parts = seq![
        "\n  raw:\n    temperature_adc: "@,
        text::decimal(wire::be32(bytes, 30) as nat),
        "\n    pressure_adc: "@,
        text::decimal(wire::be32(bytes, 34) as nat),
        "\n    humidity_adc: "@,
        text::decimal(wire::be16(bytes, 38) as nat),
        "\n    gas_resistance_adc: "@,
        text::decimal(wire::be16(bytes, 40) as nat),
        "\n    gas_range: "@,
        text::decimal(bytes[42] as nat),
        "\n    gas_index: "@,
        text::decimal(bytes[43] as nat),
        "\n    measurement_index: "@,
        text::decimal(bytes[44] as nat),
        "\n    heater_resistance: "@,
        text::decimal(bytes[45] as nat),
        "\n    heater_current: "@,
        text::decimal(bytes[46] as nat),
        "\n    gas_wait: "@,
        text::decimal(bytes[47] as nat),
    ];
    assert(whole == text_laws::joined(corrected, raw_parts, 20)) by {
        reveal_with_fuel(text_laws::joined, 21);
    }
    text_laws::lemma_labelled(corrected, raw_parts, 20, 0);
    text_laws::lemma_labelled(corrected, raw_parts, 20, 2);
    text_laws::lemma_labelled(corrected, raw_parts, 20, 4);
    text_laws::lemma_labelled(corrected, raw_parts, 20, 6);
    text_laws::lemma_labelled(corrected, raw_parts, 20, 8);
    text_laws::lemma_labelled(corrected, raw_parts, 20, 10);
    text_laws::lemma_labelled(corrected, raw_parts, 20, 12);
    text_laws::lemma_labelled(corrected, raw_parts, 20, 14);
    text_laws::lemma_labelled(corrected, raw_parts, 20, 16);
    text_laws::lemma_labelled(corrected, raw_parts, 20, 18);
    text_laws::lemma_continued(status, corrected_parts, 15);
    text_laws::lemma_continued(corrected, raw_parts, 20);
}


/// The text of a received frame continues that of the frame, and shows each measurement
/// of the radio behind its own label, in hundredths of its unit.
#[verifier::spinoff_prover]
#[verifier::rlimit(30)]
pub proof fn law_received_text_shows_the_radio(
    frame: telemetry::TelemetryV1,
    radio: RadioMetadata,
)
    ensures
        ({
            let whole = render::received_text(frame, radio);
            &&& render::frame_text(frame).is_prefix_of(whole)
            &&& text_laws::shows(
                whole,
                "\n  radio:\n    packet_rssi: "@ + text::hundredths(
                    radio.packet_rssi_centi_dbm as int,
                ) + " dBm\n    snr: "@ + text::hundredths(radio.snr_centi_db as int)
                    + " dB\n    signal_rssi: "@ + text::hundredths(
                    radio.signal_rssi_centi_dbm as int,
                ) + " dBm"@,
            )
        }),
{
    let whole = render::received_text(frame, radio);
    let passage = "\n  radio:\n    packet_rssi: "@ + text::hundredths(
        radio.packet_rssi_centi_dbm as int,
    ) + " dBm\n    snr: "@ + text::hundredths(radio.snr_centi_db as int)
        + " dB\n    signal_rssi: "@ + text::hundredths(radio.signal_rssi_centi_dbm as int)
        + " dBm"@;
    assert(whole =~= render::frame_text(frame) + passage + Seq::<char>::empty());
    assert(whole.take(render::frame_text(frame).len() as int) =~= render::frame_text(frame));
}

/// The document of an identity holds every value under its own name. The wide values
/// are text that reads back as the number.
pub proof fn law_identity_document_is_read_from_the_header(
    bytes: Seq<u8>,
    document: JsonIdentity,
)
    requires
        frame::decoded(bytes) is Ok,
        render::is_identity_of(
            document,
            convert::identity_of(frame::decoded(bytes)->Ok_0.header()),
        ),
    ensures
        document.common_flags == bytes[5],
        document.node_id@.len() == 16,
        text_laws::number(document.node_id@, 16) == wire::be64(bytes, 10),
        document.boot_id@.len() == 16,
        text_laws::number(document.boot_id@, 16) == wire::be64(bytes, 18),
        document.scan_sequence == wire::be32(bytes, 26),
        text_laws::number(document.uptime_ms@, 10) == wire::be64(bytes, 30),
        document.config_id@.len() == 16,
        text_laws::number(document.config_id@, 16) == wire::be64(bytes, 38),
        document.reset_cause_flags == wire::be16(bytes, 46),
{
    convert_laws::law_identity_is_read_from_the_header(bytes);
    text_laws::law_sixteen_digits_hold_64_bits(wire::be64(bytes, 10), 0);
    text_laws::law_sixteen_digits_hold_64_bits(wire::be64(bytes, 18), 0);
    text_laws::law_sixteen_digits_hold_64_bits(wire::be64(bytes, 38), 0);
    text_laws::law_decimal_digits_read_back(wire::be64(bytes, 30) as nat);
}

/// The document of a version 2 frame is of the frame's own kind, which the frame names
/// at byte 3, and holds what the frame's bytes say: a health report the counters of the
/// payload, a configuration its settings with the wide ones as text too, a fragment its
/// coordinates, summary and steps.
#[verifier::spinoff_prover]
#[verifier::rlimit(30)]
pub proof fn law_v2_document_is_read_from_the_frame(bytes: Seq<u8>, document: JsonFrameV2, k: int)
    requires
        frame::decoded(bytes) is Ok,
        render::is_document_of_v2(document, frame::decoded(bytes)->Ok_0),
    ensures
        ({
            let payload = bytes.skip(48);
            match document {
                JsonFrameV2::DeviceConfig {
                    record,
                    identity,
                    firmware_build_id,
                    calibration_hash,
                } => {
                    &&& bytes[3] == 1
                    &&& render::is_identity_of(identity, record.identity)
                    &&& record.identity.node_id == wire::be64(bytes, 10)
                    &&& record.identity.config_id == wire::be64(bytes, 38)
                    &&& firmware_build_id@.len() == 16
                    &&& text_laws::number(firmware_build_id@, 16) == wire::be64(payload, 6)
                    &&& calibration_hash@.len() == 16
                    &&& text_laws::number(calibration_hash@, 16) == wire::be64(payload, 47)
                    &&& record.profile_id == wire::be16(payload, 39)
                    &&& record.profile_version == wire::be16(payload, 41)
                    &&& record.heater_steps@.len() == payload[43]
                },
                JsonFrameV2::DeviceHealth { record, identity } => {
                    &&& bytes[3] == 3
                    &&& render::is_identity_of(identity, record.identity)
                    &&& record.identity.node_id == wire::be64(bytes, 10)
                    &&& record.successful_sensor_scans == wire::be32(payload, 6)
                    &&& record.failed_sensor_scans == wire::be32(payload, 10)
                    &&& record.incomplete_profiles == wire::be32(payload, 14)
                },
                JsonFrameV2::ProfileFragment(fragment) => {
                    &&& bytes[3] == 2
                    &&& fragment.fragment_index == bytes[6]
                    &&& fragment.fragment_count == bytes[7]
                    &&& fragment.step_window_start == payload[41]
                    &&& fragment.steps@.len() == payload[1]
                    &&& text_laws::number(fragment.identity.node_id@, 16) == wire::be64(bytes, 10)
                    &&& fragment.summary.profile_id == wire::be16(payload, 2)
                    &&& fragment.summary.profile_version == wire::be16(payload, 4)
                    &&& fragment.summary.expected_step_count == payload[6]
                    &&& fragment.summary.observed_unique_step_count == payload[7]
                    &&& fragment.summary.observed_field_count == wire::be16(payload, 8)
                    &&& fragment.summary.missing_steps_bitmap == wire::be16(payload, 10)
                    &&& fragment.summary.duplicate_steps_bitmap == wire::be16(payload, 12)
                    &&& fragment.summary.scan_duration_us == wire::be32(payload, 14)
                    &&& fragment.summary.collection_flags == wire::be32(payload, 18)
                    &&& fragment.summary.finish_reason == payload[22]
                    &&& fragment.summary.duplicate_count == wire::be16(payload, 23)
                    &&& fragment.summary.overwritten_field_count == wire::be16(payload, 25)
                    &&& fragment.summary.out_of_order_count == wire::be16(payload, 27)
                    &&& fragment.summary.ambiguous_index_jump_count == wire::be16(payload, 29)
                    &&& fragment.summary.invalid_gas_index_count == wire::be16(payload, 31)
                    &&& fragment.summary.intermediate_field_count == wire::be16(payload, 33)
                    &&& fragment.summary.profile_rollover_count == wire::be16(payload, 35)
                    &&& fragment.summary.fields_after_rollover_count == wire::be16(payload, 37)
                    &&& fragment.summary.poll_count == wire::be16(payload, 39)
                    &&& 0 <= k < fragment.steps@.len() ==> {
                        let step = fragment.steps@[k];
                        let at = 42 + 47 * k;
                        &&& step.step_index == payload[at]
                        &&& step.gas_index == payload[at + 1]
                        &&& step.measurement_index == payload[at + 2]
                        &&& step.status_bits == payload[at + 3]
                        &&& step.raw_measurement_status == payload[at + 4]
                        &&& step.raw_gas_status == payload[at + 5]
                        &&& step.target_temperature_celsius == wire::be16(payload, at + 6)
                        &&& step.configured_duration_us == wire::be32(payload, at + 8)
                        &&& step.relative_offset_us == wire::be32(payload, at + 12)
                        &&& step.temperature_centi_celsius == wire::be_i16(payload, at + 16)
                        &&& step.pressure_pascal == wire::be32(payload, at + 18)
                        &&& step.humidity_milli_percent_rh == wire::be32(payload, at + 22)
                        &&& step.gas_resistance_ohm == wire::be32(payload, at + 26)
                        &&& step.raw_temperature_adc == wire::be32(payload, at + 30)
                        &&& step.raw_pressure_adc == wire::be32(payload, at + 34)
                        &&& step.raw_humidity_adc == wire::be16(payload, at + 38)
                        &&& step.raw_gas_resistance_adc == wire::be16(payload, at + 40)
                        &&& step.raw_gas_range == payload[at + 42]
                        &&& step.repetition_multiplier == payload[at + 43]
                        &&& step.raw_heater_resistance == payload[at + 44]
                        &&& step.raw_heater_current == payload[at + 45]
                        &&& step.raw_gas_wait == payload[at + 46]
                    }
                },
            }
        }),
{
    let payload = bytes.subrange(HEADER_LEN as int, bytes.len() as int);
    assert(payload =~= bytes.skip(48));
    match document {
        JsonFrameV2::DeviceConfig { record, .. } => {
            convert_laws::law_configuration_is_read_from_the_payload(bytes, record);
            text_laws::law_sixteen_digits_hold_64_bits(wire::be64(payload, 6), 0);
            text_laws::law_sixteen_digits_hold_64_bits(wire::be64(payload, 47), 0);
        },
        JsonFrameV2::DeviceHealth { record, .. } => {
            convert_laws::law_health_record_is_read_from_the_payload(bytes, record);
        },
        JsonFrameV2::ProfileFragment(fragment) => {
            law_identity_document_is_read_from_the_header(bytes, fragment.identity);
            if 0 <= k < fragment.steps@.len() {
                convert_laws::law_step_records_are_read_from_the_payload(bytes, k);
            }
        },
    }
}

/// The text of a late conflict shows each part of the scan's key behind its own words,
/// and which fragment of which packet is in conflict.
#[verifier::spinoff_prover]
#[verifier::rlimit(30)]
pub proof fn law_integrity_update_shows_the_scan(
    key: ProfileKey,
    packet_id: i64,
    fragment_index: u8,
)
    ensures
        text_laws::shows(
            render::integrity_update_text(key, packet_id, fragment_index),
            "Vesta receiver integrity update: persisted profile "@
                + text::hex_digits(key.node_id as nat, 16) + "/"@,
        ),
        text_laws::shows(
            render::integrity_update_text(key, packet_id, fragment_index),
            "/"@ + text::hex_digits(key.boot_id as nat, 16) + "/"@,
        ),
        text_laws::shows(
            render::integrity_update_text(key, packet_id, fragment_index),
            "/"@ + text::decimal(key.scan_sequence as nat) + "/uptime="@,
        ),
        text_laws::shows(
            render::integrity_update_text(key, packet_id, fragment_index),
            "/uptime="@ + text::decimal(key.uptime_ms as nat) + "/config="@,
        ),
        text_laws::shows(
            render::integrity_update_text(key, packet_id, fragment_index),
            "/config="@ + text::hex_digits(key.config_id as nat, 16)
                + " invalidated by conflicting fragment "@,
        ),
        text_laws::shows(
            render::integrity_update_text(key, packet_id, fragment_index),
            " invalidated by conflicting fragment "@ + text::decimal(fragment_index as nat)
                + " in packet "@,
        ),
        text_laws::shows(
            render::integrity_update_text(key, packet_id, fragment_index),
            " in packet "@ + text::signed_decimal(packet_id as int),
        ),
{
    let parts = seq![
        "Vesta receiver integrity update: persisted profile "@,
        text::hex_digits(key.node_id as nat, 16),
        "/"@,
        text::hex_digits(key.boot_id as nat, 16),
        "/"@,
        text::decimal(key.scan_sequence as nat),
        "/uptime="@,
        text::decimal(key.uptime_ms as nat),
        "/config="@,
        text::hex_digits(key.config_id as nat, 16),
        " invalidated by conflicting fragment "@,
        text::decimal(fragment_index as nat),
        " in packet "@,
        text::signed_decimal(packet_id as int),
    ];
    assert(Seq::<char>::empty() + parts[0] =~= parts[0]);
    let message = render::integrity_update_text(key, packet_id, fragment_index);
    assert(message == text_laws::joined(Seq::empty(), parts, 14)) by {
        reveal_with_fuel(text_laws::joined, 15);
    }
    text_laws::lemma_labelled(Seq::empty(), parts, 14, 0);
    text_laws::lemma_labelled(Seq::empty(), parts, 14, 2);
    text_laws::lemma_labelled(Seq::empty(), parts, 14, 4);
    text_laws::lemma_labelled(Seq::empty(), parts, 14, 6);
    text_laws::lemma_labelled(Seq::empty(), parts, 14, 8);
    text_laws::lemma_labelled(Seq::empty(), parts, 14, 10);
    text_laws::lemma_labelled(Seq::empty(), parts, 14, 12);
}

/// A version 2 frame is named after its type, which stands at byte 3, and under the same
/// name in its document as in the archive.
pub proof fn law_frame_types_are_named(bytes: Seq<u8>)
    requires
        frame::decoded(bytes) is Ok,
    ensures
        ({
            let model = frame::decoded(bytes)->Ok_0;
            &&& bytes[3] == 1 ==> render::frame_type_name(model) == "device_config"@
            &&& bytes[3] == 2 ==> render::frame_type_name(model) == "profile_fragment"@
            &&& bytes[3] == 3 ==> render::frame_type_name(model) == "device_health"@
            &&& render::frame_type_name(model) == session::kind_of(model).column()
        }),
{
}

} // verus!
