//! Presentation of decoded telemetry.
//!
//! Human output is text. Machine output is a document of plain values: 64-bit
//! identities are fixed-width hexadecimal text, so a consumer cannot lose
//! precision by reading them as numbers.

pub mod laws;

use vstd::prelude::*;
use vstd::string::StringExecFns;

use crate::convert;
use crate::convert::{device_configuration, device_health, fragment_steps, record_identity};
use crate::reassembly::ProfileKey;
use crate::records::{DeviceConfiguration, DeviceHealth, ProfileStep, RecordIdentity};
use crate::sx1262::RadioMetadata;
use crate::telemetry::{TelemetryV1, VERSION};
use crate::text;
use crate::text::{
    decimal_u64, hex_u64, push_decimal, push_hex, push_hundredths, push_signed, push_thousandths,
    push_truth,
};
use crate::v2::frame::{DecodedFrame, FrameModel};
use crate::v2::profile::{FragmentModel, ProfileFragmentView, ScanSummary};
use crate::v2::types::{MAX_PROFILE_STEPS, VERSION_V2};

verus! {

/// Text representation emitted by the receiver.
#[derive(Clone, Copy, Debug, Eq, PartialEq, Structural)]
pub enum OutputFormat {
    /// Readable multi-line output with converted display units.
    Human,
    /// One compact JSON object per frame, preserving exact integer units.
    JsonLines,
}

/// Text, then the identity and status of a version 1 frame.
pub open spec fn with_status(out: Seq<char>, frame: TelemetryV1) -> Seq<char> {
    let bits = frame.sensor_status.value();
    out + "Vesta telemetry v"@ + text::decimal(VERSION as nat) + "\n  node_id: 0x"@
        + text::hex_digits(frame.node_id as nat, 16) + "\n  sequence: "@ + text::decimal(
        frame.sequence as nat,
    ) + "\n  status: 0x"@ + text::hex_digits(bits as nat, 2) + "\n    new_data: "@ + text::truth(
        bits & 0x80 != 0,
    ) + "\n    gas_valid: "@ + text::truth(bits & 0x20 != 0) + "\n    heater_stable: "@
        + text::truth(bits & 0x10 != 0) + "\n    unknown_bits: 0x"@ + text::hex_digits(
        (bits & !0xb0u8) as nat,
        2,
    )
}

/// Text, then the corrected readings of a version 1 frame.
pub open spec fn with_corrected(out: Seq<char>, frame: TelemetryV1) -> Seq<char> {
    let readings = frame.compensated;
    let temperature = readings.temperature.value() as int;
    let pressure = readings.pressure.value() as nat;
    let humidity = readings.humidity.value() as nat;
    out + "\n  corrected:\n    temperature: "@ + text::hundredths(temperature) + " deg C ("@
        + text::signed_decimal(temperature) + " centi-deg C)\n    pressure: "@ + text::decimal(
        pressure,
    ) + " Pa ("@ + text::hundredths(pressure as int) + " hPa)\n    humidity: "@ + text::thousandths(
        humidity,
    ) + "% RH ("@ + text::decimal(humidity) + " milli-% RH)\n    gas_resistance: "@ + text::decimal(
        readings.gas_resistance.value() as nat,
    ) + " ohm"@
}

/// Text, then the raw readings of a version 1 frame.
pub open spec fn with_raw(out: Seq<char>, frame: TelemetryV1) -> Seq<char> {
    out + "\n  raw:\n    temperature_adc: "@ + text::decimal(frame.raw.temperature_adc as nat)
        + "\n    pressure_adc: "@ + text::decimal(frame.raw.pressure_adc as nat)
        + "\n    humidity_adc: "@ + text::decimal(frame.raw.humidity_adc as nat)
        + "\n    gas_resistance_adc: "@ + text::decimal(frame.raw.gas_resistance_adc as nat)
        + "\n    gas_range: "@ + text::decimal(frame.raw.gas_range as nat) + "\n    gas_index: "@
        + text::decimal(frame.raw.gas_index as nat) + "\n    measurement_index: "@ + text::decimal(
        frame.raw.measurement_index as nat,
    ) + "\n    heater_resistance: "@ + text::decimal(frame.raw.heater_resistance as nat)
        + "\n    heater_current: "@ + text::decimal(frame.raw.heater_current as nat)
        + "\n    gas_wait: "@ + text::decimal(frame.raw.gas_wait as nat)
}

/// The human text of a version 1 frame.
pub open spec fn frame_text(frame: TelemetryV1) -> Seq<char> {
    with_raw(with_corrected(with_status(Seq::empty(), frame), frame), frame)
}

/// The human text of a version 1 frame and its signal measurements.
pub open spec fn received_text(frame: TelemetryV1, radio: RadioMetadata) -> Seq<char> {
    frame_text(frame) + "\n  radio:\n    packet_rssi: "@ + text::hundredths(
        radio.packet_rssi_centi_dbm as int,
    ) + " dBm\n    snr: "@ + text::hundredths(radio.snr_centi_db as int)
        + " dB\n    signal_rssi: "@ + text::hundredths(radio.signal_rssi_centi_dbm as int)
        + " dBm"@
}

/// Appends the identity and status of a version 1 frame.
fn push_status(out: &mut String, frame: &TelemetryV1)
    ensures
        final(out)@ == with_status(old(out)@, *frame),
{
    let status = frame.sensor_status;
    out.append("Vesta telemetry v");
    push_decimal(out, VERSION as u64);
    out.append("\n  node_id: 0x");
    push_hex(out, frame.node_id, 16);
    out.append("\n  sequence: ");
    push_decimal(out, frame.sequence as u64);
    out.append("\n  status: 0x");
    push_hex(out, status.bits() as u64, 2);
    out.append("\n    new_data: ");
    push_truth(out, status.is_new_data());
    out.append("\n    gas_valid: ");
    push_truth(out, status.is_gas_measurement_valid());
    out.append("\n    heater_stable: ");
    push_truth(out, status.is_heater_stable());
    out.append("\n    unknown_bits: 0x");
    push_hex(out, status.unknown_bits() as u64, 2);
}

/// Appends the corrected readings of a version 1 frame.
fn push_corrected(out: &mut String, frame: &TelemetryV1)
    ensures
        final(out)@ == with_corrected(old(out)@, *frame),
{
    let temperature: i16 = frame.compensated.temperature.centi_celsius();
    let pressure: u32 = frame.compensated.pressure.pascals();
    let humidity: u32 = frame.compensated.humidity.milli_percent_rh();
    out.append("\n  corrected:\n    temperature: ");
    push_hundredths(out, temperature as i64);
    out.append(" deg C (");
    push_signed(out, temperature as i64);
    out.append(" centi-deg C)\n    pressure: ");
    push_decimal(out, pressure as u64);
    out.append(" Pa (");
    push_hundredths(out, pressure as i64);
    out.append(" hPa)\n    humidity: ");
    push_thousandths(out, humidity as u64);
    out.append("% RH (");
    push_decimal(out, humidity as u64);
    out.append(" milli-% RH)\n    gas_resistance: ");
    push_decimal(out, frame.compensated.gas_resistance.ohms() as u64);
    out.append(" ohm");
}

/// Appends the raw readings of a version 1 frame.
fn push_raw(out: &mut String, frame: &TelemetryV1)
    ensures
        final(out)@ == with_raw(old(out)@, *frame),
{
    out.append("\n  raw:\n    temperature_adc: ");
    push_decimal(out, frame.raw.temperature_adc as u64);
    out.append("\n    pressure_adc: ");
    push_decimal(out, frame.raw.pressure_adc as u64);
    out.append("\n    humidity_adc: ");
    push_decimal(out, frame.raw.humidity_adc as u64);
    out.append("\n    gas_resistance_adc: ");
    push_decimal(out, frame.raw.gas_resistance_adc as u64);
    out.append("\n    gas_range: ");
    push_decimal(out, frame.raw.gas_range as u64);
    out.append("\n    gas_index: ");
    push_decimal(out, frame.raw.gas_index as u64);
    out.append("\n    measurement_index: ");
    push_decimal(out, frame.raw.measurement_index as u64);
    out.append("\n    heater_resistance: ");
    push_decimal(out, frame.raw.heater_resistance as u64);
    out.append("\n    heater_current: ");
    push_decimal(out, frame.raw.heater_current as u64);
    out.append("\n    gas_wait: ");
    push_decimal(out, frame.raw.gas_wait as u64);
}

/// Render one decoded frame for people.
#[must_use]
pub fn human_frame(frame: &TelemetryV1) -> (out: String)
    ensures
        out@ == frame_text(*frame),
{
    let mut out = String::new();
    assert(out@ =~= Seq::empty());
    push_status(&mut out, frame);
    push_corrected(&mut out, frame);
    push_raw(&mut out, frame);
    out
}

/// Render a decoded radio frame together with its SX1262 measurements for people.
#[must_use]
pub fn human_received_frame(frame: &TelemetryV1, radio: RadioMetadata) -> (out: String)
    ensures
        out@ == received_text(*frame, radio),
{
    let mut out = human_frame(frame);
    out.append("\n  radio:\n    packet_rssi: ");
    push_hundredths(&mut out, radio.packet_rssi_centi_dbm as i64);
    out.append(" dBm\n    snr: ");
    push_hundredths(&mut out, radio.snr_centi_db as i64);
    out.append(" dB\n    signal_rssi: ");
    push_hundredths(&mut out, radio.signal_rssi_centi_dbm as i64);
    out.append(" dBm");
    out
}

/// The machine document of a version 1 frame.
#[derive(Clone, Debug, Eq, PartialEq)]
pub struct JsonFrame {
    pub protocol_version: u8,
    pub node_id: String,
    pub sequence: u32,
    pub status: JsonStatus,
    pub corrected: JsonCorrected,
    pub raw: JsonRaw,
}

/// The status of a version 1 frame.
#[derive(Clone, Copy, Debug, Eq, PartialEq, Structural)]
pub struct JsonStatus {
    pub bits: u8,
    pub new_data: bool,
    pub gas_valid: bool,
    pub heater_stable: bool,
    pub unknown_bits: u8,
}

/// The corrected readings of a version 1 frame.
#[derive(Clone, Copy, Debug, Eq, PartialEq, Structural)]
pub struct JsonCorrected {
    pub temperature_centi_celsius: i16,
    pub pressure_pascal: u32,
    pub humidity_milli_percent_rh: u32,
    pub gas_resistance_ohm: u32,
}

/// The raw readings of a version 1 frame.
#[derive(Clone, Copy, Debug, Eq, PartialEq, Structural)]
pub struct JsonRaw {
    pub temperature_adc: u32,
    pub pressure_adc: u32,
    pub humidity_adc: u16,
    pub gas_resistance_adc: u16,
    pub gas_range: u8,
    pub gas_index: u8,
    pub measurement_index: u8,
    pub heater_resistance: u8,
    pub heater_current: u8,
    pub gas_wait: u8,
}

/// The status of a version 1 frame.
pub open spec fn json_status(bits: u8) -> JsonStatus {
    JsonStatus {
        bits,
        new_data: bits & 0x80 != 0,
        gas_valid: bits & 0x20 != 0,
        heater_stable: bits & 0x10 != 0,
        unknown_bits: bits & !0xb0u8,
    }
}

/// The raw readings of a version 1 frame.
pub open spec fn json_raw(frame: TelemetryV1) -> JsonRaw {
    JsonRaw {
        temperature_adc: frame.raw.temperature_adc,
        pressure_adc: frame.raw.pressure_adc,
        humidity_adc: frame.raw.humidity_adc,
        gas_resistance_adc: frame.raw.gas_resistance_adc,
        gas_range: frame.raw.gas_range,
        gas_index: frame.raw.gas_index,
        measurement_index: frame.raw.measurement_index,
        heater_resistance: frame.raw.heater_resistance,
        heater_current: frame.raw.heater_current,
        gas_wait: frame.raw.gas_wait,
    }
}

/// Whether a document is the one of a version 1 frame.
pub open spec fn is_document_of(document: JsonFrame, frame: TelemetryV1) -> bool {
    &&& document.protocol_version == VERSION
    &&& document.node_id@ == text::hex_digits(frame.node_id as nat, 16)
    &&& document.sequence == frame.sequence
    &&& document.status == json_status(frame.sensor_status.value())
    &&& document.corrected == (JsonCorrected {
        temperature_centi_celsius: frame.compensated.temperature.value(),
        pressure_pascal: frame.compensated.pressure.value(),
        humidity_milli_percent_rh: frame.compensated.humidity.value(),
        gas_resistance_ohm: frame.compensated.gas_resistance.value(),
    })
    &&& document.raw == json_raw(frame)
}

/// The machine document of a version 1 frame together with what the radio measured.
#[derive(Clone, Debug, Eq, PartialEq)]
pub struct JsonReceivedFrame {
    pub frame: JsonFrame,
    pub radio: RadioMetadata,
}

/// The machine document of one decoded frame together with what the radio measured.
#[must_use]
pub fn json_received_frame(frame: &TelemetryV1, radio: RadioMetadata) -> (document:
    JsonReceivedFrame)
    ensures
        is_document_of(document.frame, *frame),
        document.radio == radio,
{
    JsonReceivedFrame { frame: json_frame(frame), radio }
}

/// The machine document of one decoded frame, preserving exact integer units.
#[must_use]
pub fn json_frame(frame: &TelemetryV1) -> (document: JsonFrame)
    ensures
        is_document_of(document, *frame),
{
    let status = frame.sensor_status;
    JsonFrame {
        protocol_version: VERSION,
        node_id: hex_u64(frame.node_id),
        sequence: frame.sequence,
        status: JsonStatus {
            bits: status.bits(),
            new_data: status.is_new_data(),
            gas_valid: status.is_gas_measurement_valid(),
            heater_stable: status.is_heater_stable(),
            unknown_bits: status.unknown_bits(),
        },
        corrected: JsonCorrected {
            temperature_centi_celsius: frame.compensated.temperature.centi_celsius(),
            pressure_pascal: frame.compensated.pressure.pascals(),
            humidity_milli_percent_rh: frame.compensated.humidity.milli_percent_rh(),
            gas_resistance_ohm: frame.compensated.gas_resistance.ohms(),
        },
        raw: JsonRaw {
            temperature_adc: frame.raw.temperature_adc,
            pressure_adc: frame.raw.pressure_adc,
            humidity_adc: frame.raw.humidity_adc,
            gas_resistance_adc: frame.raw.gas_resistance_adc,
            gas_range: frame.raw.gas_range,
            gas_index: frame.raw.gas_index,
            measurement_index: frame.raw.measurement_index,
            heater_resistance: frame.raw.heater_resistance,
            heater_current: frame.raw.heater_current,
            gas_wait: frame.raw.gas_wait,
        },
    }
}

/// The machine document of an identity.
#[derive(Clone, Debug, Eq, PartialEq)]
pub struct JsonIdentity {
    pub common_flags: u8,
    pub node_id: String,
    pub boot_id: String,
    pub scan_sequence: u32,
    pub uptime_ms: String,
    pub config_id: String,
    pub reset_cause_flags: u16,
}

/// Whether a document is the one of an identity. No value in it is wider than
/// 32 bits: the wider ones are text.
pub open spec fn is_identity_of(document: JsonIdentity, identity: RecordIdentity) -> bool {
    &&& document.common_flags == identity.common_flags
    &&& document.node_id@ == text::hex_digits(identity.node_id as nat, 16)
    &&& document.boot_id@ == text::hex_digits(identity.boot_id as nat, 16)
    &&& document.scan_sequence == identity.scan_sequence
    &&& document.uptime_ms@ == text::decimal(identity.uptime_ms as nat)
    &&& document.config_id@ == text::hex_digits(identity.config_id as nat, 16)
    &&& document.reset_cause_flags == identity.reset_cause_flags
}

/// The machine document of an identity.
#[must_use]
pub fn identity_json(identity: RecordIdentity) -> (document: JsonIdentity)
    ensures
        is_identity_of(document, identity),
{
    JsonIdentity {
        common_flags: identity.common_flags,
        node_id: hex_u64(identity.node_id),
        boot_id: hex_u64(identity.boot_id),
        scan_sequence: identity.scan_sequence,
        uptime_ms: decimal_u64(identity.uptime_ms),
        config_id: hex_u64(identity.config_id),
        reset_cause_flags: identity.reset_cause_flags,
    }
}

/// The machine document of one profile fragment.
#[derive(Clone, Debug, Eq, PartialEq)]
pub struct JsonFragment {
    pub identity: JsonIdentity,
    pub fragment_index: u8,
    pub fragment_count: u8,
    /// What every fragment of the scan repeats.
    pub summary: ScanSummary,
    pub step_window_start: u8,
    pub steps: Vec<ProfileStep>,
}

/// Whether a document is the one of a profile fragment.
pub open spec fn is_fragment_document_of(document: JsonFragment, fragment: FragmentModel) -> bool {
    &&& is_identity_of(document.identity, convert::identity_of(fragment.header))
    &&& document.fragment_index == fragment.header.fragment_index
    &&& document.fragment_count == fragment.header.fragment_count
    &&& document.summary == fragment.summary
    &&& document.step_window_start == fragment.step_window_start
    &&& document.steps@ == convert::step_records(fragment.steps)
}

/// The machine document of one profile fragment.
fn fragment_json(fragment: ProfileFragmentView<'_>) -> (document: JsonFragment)
    requires
        fragment.valid(),
    ensures
        is_fragment_document_of(document, fragment.model()),
{
    JsonFragment {
        identity: identity_json(record_identity(fragment.header)),
        fragment_index: fragment.header.fragment_index,
        fragment_count: fragment.header.fragment_count,
        summary: ScanSummary {
            profile_id: fragment.profile_id,
            profile_version: fragment.profile_version,
            expected_step_count: fragment.expected_step_count,
            observed_unique_step_count: fragment.observed_unique_step_count,
            observed_field_count: fragment.observed_field_count,
            missing_steps_bitmap: fragment.missing_steps_bitmap,
            duplicate_steps_bitmap: fragment.duplicate_steps_bitmap,
            scan_duration_us: fragment.scan_duration_us,
            collection_flags: fragment.collection_flags,
            finish_reason: fragment.finish_reason,
            duplicate_count: fragment.duplicate_count,
            overwritten_field_count: fragment.overwritten_field_count,
            out_of_order_count: fragment.out_of_order_count,
            ambiguous_index_jump_count: fragment.ambiguous_index_jump_count,
            invalid_gas_index_count: fragment.invalid_gas_index_count,
            intermediate_field_count: fragment.intermediate_field_count,
            profile_rollover_count: fragment.profile_rollover_count,
            fields_after_rollover_count: fragment.fields_after_rollover_count,
            poll_count: fragment.poll_count,
        },
        step_window_start: fragment.step_window_start,
        steps: fragment_steps(fragment).unwrap(),
    }
}

/// The machine document of one version 2 frame.
#[derive(Clone, Debug, Eq, PartialEq)]
pub enum JsonFrameV2 {
    /// A configuration, with its identity and wide values as text.
    DeviceConfig {
        record: DeviceConfiguration,
        identity: JsonIdentity,
        firmware_build_id: String,
        calibration_hash: String,
    },
    /// A profile fragment.
    ProfileFragment(JsonFragment),
    /// A health report, with its identity as text.
    DeviceHealth { record: DeviceHealth, identity: JsonIdentity },
}

/// Whether a document is the one of a version 2 frame.
pub open spec fn is_document_of_v2(document: JsonFrameV2, frame: FrameModel) -> bool {
    match (document, frame) {
        (
            JsonFrameV2::DeviceConfig { record, identity, firmware_build_id, calibration_hash },
            FrameModel::DeviceConfig { header, config },
        ) => {
            &&& convert::is_configuration_of(record, header, config)
            &&& is_identity_of(identity, convert::identity_of(header))
            &&& firmware_build_id@ == text::hex_digits(config.firmware_build_id as nat, 16)
            &&& calibration_hash@ == text::hex_digits(config.calibration_hash as nat, 16)
        },
        (
            JsonFrameV2::ProfileFragment(fragment),
            FrameModel::ProfileFragment(model),
        ) => is_fragment_document_of(fragment, model),
        (
            JsonFrameV2::DeviceHealth { record, identity },
            FrameModel::DeviceHealth { header, health },
        ) => {
            &&& record == convert::health_record(header, health)
            &&& is_identity_of(identity, convert::identity_of(header))
        },
        _ => false,
    }
}

/// The machine document of one decoded version 2 frame, with what the radio measured
/// where it was received by one.
#[derive(Clone, Debug, Eq, PartialEq)]
pub struct JsonDocumentV2 {
    pub protocol_version: u8,
    pub frame_type: &'static str,
    pub frame: JsonFrameV2,
    pub radio: Option<RadioMetadata>,
}

/// The name of a version 2 frame's type.
pub open spec fn frame_type_name(frame: FrameModel) -> Seq<char> {
    match frame {
        FrameModel::DeviceConfig { .. } => "device_config"@,
        FrameModel::ProfileFragment(_) => "profile_fragment"@,
        FrameModel::DeviceHealth { .. } => "device_health"@,
    }
}

/// The machine document of one decoded version 2 frame.
#[must_use]
pub fn json_frame_v2(frame: DecodedFrame<'_>, radio: Option<RadioMetadata>) -> (document:
    JsonDocumentV2)
    requires
        match frame {
            DecodedFrame::DeviceConfig { config, .. } => config.expected_step_count
                <= MAX_PROFILE_STEPS,
            DecodedFrame::ProfileFragment(fragment) => fragment.valid(),
            DecodedFrame::DeviceHealth { .. } => true,
        },
    ensures
        document.protocol_version == VERSION_V2,
        document.frame_type@ == frame_type_name(frame.model()),
        is_document_of_v2(document.frame, frame.model()),
        document.radio == radio,
{
    let (frame_type, frame) = match frame {
        DecodedFrame::DeviceConfig { header, config } => {
            let record = device_configuration(header, config);
            (
                "device_config",
                JsonFrameV2::DeviceConfig {
                    identity: identity_json(record_identity(header)),
                    firmware_build_id: hex_u64(record.firmware_build_id),
                    calibration_hash: hex_u64(record.calibration_hash),
                    record,
                },
            )
        },
        DecodedFrame::ProfileFragment(fragment) => (
            "profile_fragment",
            JsonFrameV2::ProfileFragment(fragment_json(fragment)),
        ),
        DecodedFrame::DeviceHealth { header, health } => (
            "device_health",
            JsonFrameV2::DeviceHealth {
                record: device_health(header, health),
                identity: identity_json(record_identity(header)),
            },
        ),
    };
    JsonDocumentV2 { protocol_version: VERSION_V2, frame_type, frame, radio }
}

/// The human text of a late conflict with a persisted profile.
pub open spec fn integrity_update_text(
    key: ProfileKey,
    packet_id: i64,
    fragment_index: u8,
) -> Seq<char> {
    "Vesta receiver integrity update: persisted profile "@ + text::hex_digits(
        key.node_id as nat,
        16,
    ) + "/"@ + text::hex_digits(key.boot_id as nat, 16) + "/"@ + text::decimal(
        key.scan_sequence as nat,
    ) + "/uptime="@ + text::decimal(key.uptime_ms as nat) + "/config="@ + text::hex_digits(
        key.config_id as nat,
        16,
    ) + " invalidated by conflicting fragment "@ + text::decimal(fragment_index as nat)
        + " in packet "@ + text::signed_decimal(packet_id as int)
}

/// Tells people of a late conflict with a persisted profile.
#[must_use]
pub fn human_integrity_update(key: ProfileKey, packet_id: i64, fragment_index: u8) -> (out: String)
    ensures
        out@ == integrity_update_text(key, packet_id, fragment_index),
{
    let mut out = String::from_str("Vesta receiver integrity update: persisted profile ");
    push_hex(&mut out, key.node_id, 16);
    out.append("/");
    push_hex(&mut out, key.boot_id, 16);
    out.append("/");
    push_decimal(&mut out, key.scan_sequence as u64);
    out.append("/uptime=");
    push_decimal(&mut out, key.uptime_ms);
    out.append("/config=");
    push_hex(&mut out, key.config_id, 16);
    out.append(" invalidated by conflicting fragment ");
    push_decimal(&mut out, fragment_index as u64);
    out.append(" in packet ");
    push_signed(&mut out, packet_id);
    out
}

/// The machine document of a late conflict with a persisted profile.
#[derive(Clone, Debug, Eq, PartialEq)]
pub struct JsonIntegrityUpdate {
    pub protocol_version: u8,
    pub node_id: String,
    pub boot_id_valid: bool,
    pub boot_id: String,
    pub scan_sequence: u32,
    pub scan_start_uptime_ms: String,
    pub config_id: String,
    pub source_packet_id: i64,
    pub fragment_index: u8,
    pub usable_for_analysis: bool,
}

/// The machine document of a late conflict with a persisted profile.
#[must_use]
pub fn json_integrity_update(key: ProfileKey, packet_id: i64, fragment_index: u8) -> (update:
    JsonIntegrityUpdate)
    ensures
        update.protocol_version == 2,
        update.node_id@ == text::hex_digits(key.node_id as nat, 16),
        update.boot_id_valid == key.boot_id_valid,
        update.boot_id@ == text::hex_digits(key.boot_id as nat, 16),
        update.scan_sequence == key.scan_sequence,
        update.scan_start_uptime_ms@ == text::decimal(key.uptime_ms as nat),
        update.config_id@ == text::hex_digits(key.config_id as nat, 16),
        update.source_packet_id == packet_id,
        update.fragment_index == fragment_index,
        !update.usable_for_analysis,
{
    JsonIntegrityUpdate {
        protocol_version: VERSION_V2,
        node_id: hex_u64(key.node_id),
        boot_id_valid: key.boot_id_valid,
        boot_id: hex_u64(key.boot_id),
        scan_sequence: key.scan_sequence,
        scan_start_uptime_ms: decimal_u64(key.uptime_ms),
        config_id: hex_u64(key.config_id),
        source_packet_id: packet_id,
        fragment_index,
        usable_for_analysis: false,
    }
}

} // verus!
