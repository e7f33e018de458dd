//! The health record.

use vstd::prelude::*;

use crate::v2::checks;
use crate::v2::checks::ensure_known_u8;
use crate::v2::header;
use crate::v2::header::encode_header;
use crate::v2::types::{
    Common, DeviceHealth, EncodedFrame, Error, FrameType, Header, COMMON_FLAG_BOOT_ID_VALID,
    HEALTH_BASE_LEN, HEALTH_FLAGS_KNOWN, HEALTH_FLAG_BOOT_ID_UNAVAILABLE,
    HEALTH_FLAG_CONFIG_MISMATCH, HEALTH_SCHEMA_VERSION,
};
use crate::wire;
use crate::wire::{read_i16, read_u16, read_u32};

verus! {

/// The bytes of a health record without its extensions.
#[verifier::opaque]
pub open spec fn health_base_bytes(health: DeviceHealth, extension_len: u8) -> Seq<u8> {
    Seq::<u8>::empty()
        + wire::b8(HEALTH_SCHEMA_VERSION)
        + wire::b8(health.flags)
        + wire::b32(health.reset_cause_raw)
        + wire::b32(health.successful_sensor_scans)
        + wire::b32(health.failed_sensor_scans)
        + wire::b32(health.incomplete_profiles)
        + wire::b32(health.i2c_errors)
        + wire::b32(health.radio_tx_errors)
        + wire::b32(health.dropped_profiles)
        + wire::b32(health.dropped_fragments)
        + wire::b32(health.overwritten_fields)
        + wire::b32(health.current_sample_interval_ms)
        + wire::b8(health.firmware_version[0])
        + wire::b8(health.firmware_version[1])
        + wire::b8(health.firmware_version[2])
        + wire::b16(health.profile_id)
        + wire::b16(health.profile_version)
        + wire::b16(health.last_sensor_error)
        + wire::b16(health.last_radio_error)
        + wire::b8(extension_len)
}

/// The extension that carries the MCU temperature.
pub open spec fn temperature_bytes(value: Option<i16>) -> Seq<u8> {
    match value {
        Some(value) => Seq::<u8>::empty() + wire::b8(1) + wire::b8(2) + wire::b_i16(value),
        None => Seq::empty(),
    }
}

/// The extension that carries the supply voltage.
pub open spec fn voltage_bytes(value: Option<u16>) -> Seq<u8> {
    match value {
        Some(value) => Seq::<u8>::empty() + wire::b8(2) + wire::b8(2) + wire::b16(value),
        None => Seq::empty(),
    }
}

/// The length of a health record's extensions: four bytes for each that is present.
pub open spec fn extension_len_of(health: DeviceHealth) -> int {
    (if health.calibrated_mcu_temperature_centi_celsius is Some {
        4int
    } else {
        0int
    }) + (if health.calibrated_vdd_millivolt is Some {
        4int
    } else {
        0int
    })
}

/// The payload of a health record.
pub open spec fn health_bytes(health: DeviceHealth) -> Seq<u8> {
    health_base_bytes(health, extension_len_of(health) as u8) + temperature_bytes(
        health.calibrated_mcu_temperature_centi_celsius,
    ) + voltage_bytes(health.calibrated_vdd_millivolt)
}

/// Where the value of the extension of type `kind` stands, if there is one
/// from `offset` on.
pub open spec fn extension_at(payload: Seq<u8>, offset: int, kind: u8) -> Option<int>
    decreases payload.len() - offset,
{
    if offset + 4 > payload.len() {
        None
    } else if payload[offset] == kind {
        Some(offset + 2)
    } else {
        extension_at(payload, offset + 4, kind)
    }
}

/// The health record whose fields stand at their places in a payload.
pub open spec fn health_at(payload: Seq<u8>) -> DeviceHealth {
    DeviceHealth {
        flags: payload[1],
        reset_cause_raw: wire::be32(payload, 2),
        successful_sensor_scans: wire::be32(payload, 6),
        failed_sensor_scans: wire::be32(payload, 10),
        incomplete_profiles: wire::be32(payload, 14),
        i2c_errors: wire::be32(payload, 18),
        radio_tx_errors: wire::be32(payload, 22),
        dropped_profiles: wire::be32(payload, 26),
        dropped_fragments: wire::be32(payload, 30),
        overwritten_fields: wire::be32(payload, 34),
        current_sample_interval_ms: wire::be32(payload, 38),
        firmware_version: [payload[42], payload[43], payload[44]],
        profile_id: wire::be16(payload, 45),
        profile_version: wire::be16(payload, 47),
        last_sensor_error: wire::be16(payload, 49),
        last_radio_error: wire::be16(payload, 51),
        calibrated_mcu_temperature_centi_celsius: match extension_at(payload, 54, 1) {
            Some(at) => Some(wire::be_i16(payload, at)),
            None => None,
        },
        calibrated_vdd_millivolt: match extension_at(payload, 54, 2) {
            Some(at) => Some(wire::be16(payload, at)),
            None => None,
        },
    }
}

/// The fault of health flags that are unknown or contradict the header.
pub open spec fn health_flags_fault(common: Common, flags: u8) -> Option<Error> {
    if checks::unknown_flags_u8("health_flags", flags, HEALTH_FLAGS_KNOWN) is Some {
        checks::unknown_flags_u8("health_flags", flags, HEALTH_FLAGS_KNOWN)
    } else if (common.flags & COMMON_FLAG_BOOT_ID_VALID == 0) != (flags
        & HEALTH_FLAG_BOOT_ID_UNAVAILABLE != 0) {
        Some(Error::InvalidField("health_boot_id_status"))
    } else {
        None
    }
}

/// The fault of a profile identity that the configuration ID contradicts.
pub open spec fn health_identity_fault(common: Common, health: DeviceHealth) -> Option<Error> {
    if (health.profile_id == 0) != (health.profile_version == 0) {
        Some(Error::InvalidField("health_profile_identity"))
    } else if health.profile_id == 0 && common.config_id != 0 {
        Some(Error::InvalidField("health_config_id_status"))
    } else if health.profile_id != 0 && common.config_id == 0 && health.flags
        & HEALTH_FLAG_CONFIG_MISMATCH == 0 {
        Some(Error::InvalidField("health_config_id_status"))
    } else {
        None
    }
}

/// The header that a health record is sent with.
pub open spec fn health_header(common: Common, health: DeviceHealth) -> Header {
    Header {
        frame_type: FrameType::DeviceHealth,
        common,
        fragment_index: 0,
        fragment_count: 1,
        payload_len: (HEALTH_BASE_LEN + extension_len_of(health)) as u16,
    }
}

/// The frame of a health record, or the first rule that it breaks.
pub open spec fn encoded_health(common: Common, health: DeviceHealth) -> Result<Seq<u8>, Error> {
    match checks::first_fault(
        health_flags_fault(common, health.flags),
        checks::first_fault(health_identity_fault(common, health), header::common_fault(common)),
    ) {
        Some(error) => Err(error),
        None => Ok(header::header_bytes(health_header(common, health)) + health_bytes(health)),
    }
}

/// The first fault among the extensions from `offset` on, where the extension
/// before them has type `previous`: types must ascend, and only the types 1 and
/// 2 are known, each with a value of two bytes.
pub open spec fn extensions_fault(payload: Seq<u8>, offset: int, previous: u8) -> Option<Error>
    decreases payload.len() - offset,
{
    if offset >= payload.len() {
        None
    } else if payload.len() - offset < 2 {
        Some(Error::BufferExhausted)
    } else if payload[offset] <= previous {
        Some(Error::InvalidField("health_tlv_order"))
    } else if payload.len() - (offset + 2) < payload[offset + 1] {
        Some(Error::BufferExhausted)
    } else if payload[offset] != 1 && payload[offset] != 2 {
        Some(Error::InvalidField("health_tlv_type"))
    } else if payload[offset + 1] != 2 {
        Some(Error::InvalidField("health_tlv_length"))
    } else {
        extensions_fault(payload, offset + 4, payload[offset])
    }
}

/// The first rule of framing that a health payload breaks.
pub open spec fn health_payload_fault(header: Header, payload: Seq<u8>) -> Option<Error> {
    if header.fragment_index != 0 || header.fragment_count != 1 {
        Some(Error::InvalidField("unfragmented_record_coordinates"))
    } else if payload.len() < HEALTH_BASE_LEN {
        Some(Error::WrongLength { expected: HEALTH_BASE_LEN, actual: payload.len() as usize })
    } else if payload[0] != HEALTH_SCHEMA_VERSION {
        Some(Error::InvalidField("health_schema_version"))
    } else if health_flags_fault(header.common, payload[1]) is Some {
        health_flags_fault(header.common, payload[1])
    } else if payload.len() != HEALTH_BASE_LEN + payload[53] {
        Some(
            Error::WrongLength {
                expected: (HEALTH_BASE_LEN + payload[53]) as usize,
                actual: payload.len() as usize,
            },
        )
    } else {
        extensions_fault(payload, HEALTH_BASE_LEN as int, 0)
    }
}

/// The health record that a payload carries, or the first rule that it breaks.
pub open spec fn decoded_health(header: Header, payload: Seq<u8>) -> Result<DeviceHealth, Error> {
    match checks::first_fault(
        health_payload_fault(header, payload),
        health_identity_fault(header.common, health_at(payload)),
    ) {
        Some(error) => Err(error),
        None => Ok(health_at(payload)),
    }
}

#[verifier::spinoff_prover]
#[verifier::rlimit(60)]
proof fn lemma_health_base_layout(health: DeviceHealth, extension_len: u8, tail: Seq<u8>)
    ensures
        health_base_bytes(health, extension_len).len() == HEALTH_BASE_LEN,
        ({
            let s = health_base_bytes(health, extension_len) + tail;
            &&& s[0] == HEALTH_SCHEMA_VERSION
            &&& s[1] == health.flags
            &&& wire::be32(s, 2) == health.reset_cause_raw
            &&& wire::be32(s, 6) == health.successful_sensor_scans
            &&& wire::be32(s, 10) == health.failed_sensor_scans
            &&& wire::be32(s, 14) == health.incomplete_profiles
            &&& wire::be32(s, 18) == health.i2c_errors
            &&& wire::be32(s, 22) == health.radio_tx_errors
            &&& wire::be32(s, 26) == health.dropped_profiles
            &&& wire::be32(s, 30) == health.dropped_fragments
            &&& wire::be32(s, 34) == health.overwritten_fields
            &&& wire::be32(s, 38) == health.current_sample_interval_ms
            &&& s[42] == health.firmware_version[0]
            &&& s[43] == health.firmware_version[1]
            &&& s[44] == health.firmware_version[2]
            &&& wire::be16(s, 45) == health.profile_id
            &&& wire::be16(s, 47) == health.profile_version
            &&& wire::be16(s, 49) == health.last_sensor_error
            &&& wire::be16(s, 51) == health.last_radio_error
            &&& s[53] == extension_len
        }),
{
    reveal(health_base_bytes);
    let s0 = Seq::<u8>::empty();
    let s1 = s0 + wire::b8(HEALTH_SCHEMA_VERSION);
    wire::lemma_append8(s0, HEALTH_SCHEMA_VERSION);
    let s2 = s1 + wire::b8(health.flags);
    wire::lemma_append8(s1, health.flags);
    let s3 = s2 + wire::b32(health.reset_cause_raw);
    wire::lemma_append32(s2, health.reset_cause_raw);
    let s4 = s3 + wire::b32(health.successful_sensor_scans);
    wire::lemma_append32(s3, health.successful_sensor_scans);
    let s5 = s4 + wire::b32(health.failed_sensor_scans);
    wire::lemma_append32(s4, health.failed_sensor_scans);
    let s6 = s5 + wire::b32(health.incomplete_profiles);
    wire::lemma_append32(s5, health.incomplete_profiles);
    let s7 = s6 + wire::b32(health.i2c_errors);
    wire::lemma_append32(s6, health.i2c_errors);
    let s8 = s7 + wire::b32(health.radio_tx_errors);
    wire::lemma_append32(s7, health.radio_tx_errors);
    let s9 = s8 + wire::b32(health.dropped_profiles);
    wire::lemma_append32(s8, health.dropped_profiles);
    let s10 = s9 + wire::b32(health.dropped_fragments);
    wire::lemma_append32(s9, health.dropped_fragments);
    let s11 = s10 + wire::b32(health.overwritten_fields);
    wire::lemma_append32(s10, health.overwritten_fields);
    let s12 = s11 + wire::b32(health.current_sample_interval_ms);
    wire::lemma_append32(s11, health.current_sample_interval_ms);
    let s13 = s12 + wire::b8(health.firmware_version[0]);
    wire::lemma_append8(s12, health.firmware_version[0]);
    let s14 = s13 + wire::b8(health.firmware_version[1]);
    wire::lemma_append8(s13, health.firmware_version[1]);
    let s15 = s14 + wire::b8(health.firmware_version[2]);
    wire::lemma_append8(s14, health.firmware_version[2]);
    let s16 = s15 + wire::b16(health.profile_id);
    wire::lemma_append16(s15, health.profile_id);
    let s17 = s16 + wire::b16(health.profile_version);
    wire::lemma_append16(s16, health.profile_version);
    let s18 = s17 + wire::b16(health.last_sensor_error);
    wire::lemma_append16(s17, health.last_sensor_error);
    let s19 = s18 + wire::b16(health.last_radio_error);
    wire::lemma_append16(s18, health.last_radio_error);
    let s20 = s19 + wire::b8(extension_len);
    wire::lemma_append8(s19, extension_len);
    assert(s20 == health_base_bytes(health, extension_len));
    wire::lemma_kept_by_append(s20, tail);
}

proof fn lemma_temperature_layout(s: Seq<u8>, value: i16)
    ensures
        temperature_bytes(Some(value)).len() == 4,
        wire::kept(s, s + temperature_bytes(Some(value))),
        ({
            let t = s + temperature_bytes(Some(value));
            &&& t[s.len() as int] == 1
            &&& t[s.len() as int + 1] == 2
            &&& wire::be_i16(t, s.len() as int + 2) == value
        }),
{
    let s1 = s + wire::b8(1);
    wire::lemma_append8(s, 1);
    let s2 = s1 + wire::b8(2);
    wire::lemma_append8(s1, 2);
    let s3 = s2 + wire::b16(wire::unsigned16(value));
    wire::lemma_append16(s2, wire::unsigned16(value));
    assert(s3 =~= s + temperature_bytes(Some(value)));
    wire::lemma_kept_by_append(s, temperature_bytes(Some(value)));
}

proof fn lemma_voltage_layout(s: Seq<u8>, value: u16)
    ensures
        voltage_bytes(Some(value)).len() == 4,
        wire::kept(s, s + voltage_bytes(Some(value))),
        ({
            let t = s + voltage_bytes(Some(value));
            &&& t[s.len() as int] == 2
            &&& t[s.len() as int + 1] == 2
            &&& wire::be16(t, s.len() as int + 2) == value
        }),
{
    let s1 = s + wire::b8(2);
    wire::lemma_append8(s, 2);
    let s2 = s1 + wire::b8(2);
    wire::lemma_append8(s1, 2);
    let s3 = s2 + wire::b16(value);
    wire::lemma_append16(s2, value);
    assert(s3 =~= s + voltage_bytes(Some(value)));
    wire::lemma_kept_by_append(s, voltage_bytes(Some(value)));
}

/// A health record's payload has its length, breaks no rule of its extensions,
/// and has its fields at their places.
pub proof fn lemma_health_layout(health: DeviceHealth)
    ensures
        health_bytes(health).len() == HEALTH_BASE_LEN + extension_len_of(health),
        health_bytes(health)[0] == HEALTH_SCHEMA_VERSION,
        health_bytes(health)[53] == extension_len_of(health),
        extensions_fault(health_bytes(health), HEALTH_BASE_LEN as int, 0) is None,
        health_at(health_bytes(health)) == health,
{
    let temperature = temperature_bytes(health.calibrated_mcu_temperature_centi_celsius);
    let voltage = voltage_bytes(health.calibrated_vdd_millivolt);
    let base = health_base_bytes(health, extension_len_of(health) as u8);
    let s = health_bytes(health);
    lemma_health_base_layout(health, extension_len_of(health) as u8, temperature + voltage);
    assert(s =~= base + (temperature + voltage));
    assert(health_at(s).firmware_version =~= health.firmware_version);
    if let Some(value) = health.calibrated_mcu_temperature_centi_celsius {
        lemma_temperature_layout(base, value);
    }
    if let Some(value) = health.calibrated_vdd_millivolt {
        lemma_voltage_layout(base + temperature, value);
    }
    reveal_with_fuel(extensions_fault, 4);
    reveal_with_fuel(extension_at, 4);
}

proof fn lemma_health_base_same(s: Seq<u8>, t: Seq<u8>)
    requires
        s[0] == t[0],
        s[53] == t[53],
        health_at(s) == health_at(t),
    ensures
        forall|i: int| 0 <= i < HEALTH_BASE_LEN ==> #[trigger] s[i] == t[i],
{
    wire::lemma_same32(s, t, 2);
    wire::lemma_same32(s, t, 6);
    wire::lemma_same32(s, t, 10);
    wire::lemma_same32(s, t, 14);
    wire::lemma_same32(s, t, 18);
    wire::lemma_same32(s, t, 22);
    wire::lemma_same32(s, t, 26);
    wire::lemma_same32(s, t, 30);
    wire::lemma_same32(s, t, 34);
    wire::lemma_same32(s, t, 38);
    wire::lemma_same16(s, t, 45);
    wire::lemma_same16(s, t, 47);
    wire::lemma_same16(s, t, 49);
    wire::lemma_same16(s, t, 51);
    assert(health_at(s).firmware_version[0] == health_at(t).firmware_version[0]);
    assert(health_at(s).firmware_version[1] == health_at(t).firmware_version[1]);
    assert(health_at(s).firmware_version[2] == health_at(t).firmware_version[2]);
}

/// The extensions of a payload without a fault: none, one, or both in order.
pub proof fn lemma_extension_shapes(payload: Seq<u8>)
    requires
        payload.len() >= HEALTH_BASE_LEN,
        extensions_fault(payload, HEALTH_BASE_LEN as int, 0) is None,
    ensures
        ({
            let first = payload.len() > 54;
            let second = payload.len() > 58;
            &&& payload.len() == 54 || payload.len() == 58 || payload.len() == 62
            &&& first ==> payload[55] == 2 && (payload[54] == 1 || payload[54] == 2)
            &&& second ==> payload[54] == 1 && payload[58] == 2 && payload[59] == 2
            &&& extension_at(payload, 54, 1) == (if first && payload[54] == 1 {
                Some(56int)
            } else {
                None
            })
            &&& extension_at(payload, 54, 2) == (if first && payload[54] == 2 {
                Some(56int)
            } else if second {
                Some(60int)
            } else {
                None
            })
        }),
{
    reveal_with_fuel(extensions_fault, 4);
    reveal_with_fuel(extension_at, 4);
}

/// A payload that decodes is the canonical payload of what it decodes to.
pub proof fn lemma_health_canonical(header: Header, payload: Seq<u8>)
    requires
        decoded_health(header, payload) is Ok,
    ensures
        payload == health_bytes(health_at(payload)),
        payload.len() == HEALTH_BASE_LEN + extension_len_of(health_at(payload)),
{
    let health = health_at(payload);
    let s = health_bytes(health);
    lemma_extension_shapes(payload);
    lemma_health_layout(health);
    lemma_extension_shapes(s);
    lemma_health_base_same(s, payload);
    assert(s.len() == payload.len());
    if payload.len() > 54 {
        assert(s[54] == payload[54]);
        assert(wire::be16(s, 56) == wire::be16(payload, 56));
        wire::lemma_same16(s, payload, 56);
    }
    if payload.len() > 58 {
        assert(wire::be16(s, 60) == wire::be16(payload, 60));
        wire::lemma_same16(s, payload, 60);
    }
    assert(s =~= payload);
}

/// Rejects health flags that are unknown or contradict the header.
fn validate_health_flags(common: Common, flags: u8) -> (result: Result<(), Error>)
    ensures
        result == checks::verdict(health_flags_fault(common, flags)),
{
    ensure_known_u8("health_flags", flags, HEALTH_FLAGS_KNOWN)?;
    let header_says_unavailable = common.flags & COMMON_FLAG_BOOT_ID_VALID == 0;
    let health_says_unavailable = flags & HEALTH_FLAG_BOOT_ID_UNAVAILABLE != 0;
    if header_says_unavailable != health_says_unavailable {
        return Err(Error::InvalidField("health_boot_id_status"));
    }
    Ok(())
}

/// Rejects a profile identity that the configuration ID contradicts.
fn validate_health_config_identity(common: Common, health: &DeviceHealth) -> (result: Result<
    (),
    Error,
>)
    ensures
        result == checks::verdict(health_identity_fault(common, *health)),
{
    let profile_id_missing = health.profile_id == 0;
    let profile_version_missing = health.profile_version == 0;
    if profile_id_missing != profile_version_missing {
        return Err(Error::InvalidField("health_profile_identity"));
    }
    if profile_id_missing {
        if common.config_id != 0 {
            return Err(Error::InvalidField("health_config_id_status"));
        }
        return Ok(());
    }
    if common.config_id == 0 && health.flags & HEALTH_FLAG_CONFIG_MISMATCH == 0 {
        return Err(Error::InvalidField("health_config_id_status"));
    }
    Ok(())
}

/// Writes a health record without its extensions.
fn write_health_base(health: &DeviceHealth, extension_len: u8) -> (writer: EncodedFrame)
    ensures
        writer@ == health_base_bytes(*health, extension_len),
        writer@.len() == HEALTH_BASE_LEN,
{
    reveal(health_base_bytes);
    let mut writer = EncodedFrame::empty();
    writer.u8(HEALTH_SCHEMA_VERSION);
    writer.u8(health.flags);
    writer.u32(health.reset_cause_raw);
    writer.u32(health.successful_sensor_scans);
    writer.u32(health.failed_sensor_scans);
    writer.u32(health.incomplete_profiles);
    writer.u32(health.i2c_errors);
    writer.u32(health.radio_tx_errors);
    writer.u32(health.dropped_profiles);
    writer.u32(health.dropped_fragments);
    writer.u32(health.overwritten_fields);
    writer.u32(health.current_sample_interval_ms);
    writer.u8(health.firmware_version[0]);
    writer.u8(health.firmware_version[1]);
    writer.u8(health.firmware_version[2]);
    writer.u16(health.profile_id);
    writer.u16(health.profile_version);
    writer.u16(health.last_sensor_error);
    writer.u16(health.last_radio_error);
    writer.u8(extension_len);
    writer
}

/// Encode one periodic health snapshot. Calibrated internal measurements are
/// optional TLVs and are absent, not zero-filled, when unsupported.
///
/// # Errors
///
/// Returns an [`Error`] when flags, profile identity or common-header metadata
/// are invalid.
pub fn encode_device_health(common: Common, health: &DeviceHealth) -> (result: Result<
    EncodedFrame,
    Error,
>)
    ensures
        match encoded_health(common, *health) {
            Ok(bytes) => result is Ok && result->Ok_0@ == bytes,
            Err(error) => result == Err::<EncodedFrame, Error>(error),
        },
{
    validate_health_flags(common, health.flags)?;
    validate_health_config_identity(common, health)?;
    let mut extension_len: u8 = 0;
    if health.calibrated_mcu_temperature_centi_celsius.is_some() {
        extension_len = extension_len + 4;
    }
    if health.calibrated_vdd_millivolt.is_some() {
        extension_len = extension_len + 4;
    }
    let mut frame = encode_header(
        FrameType::DeviceHealth,
        common,
        0,
        1,
        HEALTH_BASE_LEN as u16 + extension_len as u16,
    )?;
    let mut payload = write_health_base(health, extension_len);
    if let Some(value) = health.calibrated_mcu_temperature_centi_celsius {
        let mut extension = EncodedFrame::empty();
        extension.u8(1);
        extension.u8(2);
        extension.i16(value);
        payload.append(&extension);
    } else {
        assert(payload@ =~= payload@ + temperature_bytes(None));
    }
    if let Some(value) = health.calibrated_vdd_millivolt {
        let mut extension = EncodedFrame::empty();
        extension.u8(2);
        extension.u8(2);
        extension.u16(value);
        payload.append(&extension);
    } else {
        assert(payload@ =~= payload@ + voltage_bytes(None));
    }
    proof {
        lemma_health_layout(*health);
        header::lemma_header_layout(health_header(common, *health), payload@);
    }
    frame.append(&payload);
    Ok(frame)
}

/// Checks the framing of a health payload.
fn validate_decoded_health(header: Header, payload: &[u8]) -> (result: Result<(), Error>)
    ensures
        result == checks::verdict(health_payload_fault(header, payload@)),
{
    if header.fragment_index != 0 || header.fragment_count != 1 {
        return Err(Error::InvalidField("unfragmented_record_coordinates"));
    }
    if payload.len() < HEALTH_BASE_LEN {
        return Err(Error::WrongLength { expected: HEALTH_BASE_LEN, actual: payload.len() });
    }
    if payload[0] != HEALTH_SCHEMA_VERSION {
        return Err(Error::InvalidField("health_schema_version"));
    }
    validate_health_flags(header.common, payload[1])?;
    let extension_len: usize = payload[53] as usize;
    let expected_len: usize = HEALTH_BASE_LEN + extension_len;
    if payload.len() != expected_len {
        return Err(Error::WrongLength { expected: expected_len, actual: payload.len() });
    }
    check_extensions(payload)
}

/// Checks the extensions of a health payload.
fn check_extensions(payload: &[u8]) -> (result: Result<(), Error>)
    requires
        HEALTH_BASE_LEN <= payload@.len() <= HEALTH_BASE_LEN + 255,
    ensures
        result == checks::verdict(extensions_fault(payload@, HEALTH_BASE_LEN as int, 0)),
{
    let mut offset: usize = HEALTH_BASE_LEN;
    let mut previous_type: u8 = 0;
    while offset < payload.len()
        invariant
            HEALTH_BASE_LEN <= offset <= payload@.len() <= HEALTH_BASE_LEN + 255,
            extensions_fault(payload@, HEALTH_BASE_LEN as int, 0) == extensions_fault(
                payload@,
                offset as int,
                previous_type,
            ),
        decreases payload@.len() - offset,
    {
        if payload.len() - offset < 2 {
            return Err(Error::BufferExhausted);
        }
        let kind: u8 = payload[offset];
        let len: usize = payload[offset + 1] as usize;
        if kind <= previous_type {
            return Err(Error::InvalidField("health_tlv_order"));
        }
        if payload.len() - (offset + 2) < len {
            return Err(Error::BufferExhausted);
        }
        if kind != 1 && kind != 2 {
            return Err(Error::InvalidField("health_tlv_type"));
        }
        if len != 2 {
            return Err(Error::InvalidField("health_tlv_length"));
        }
        previous_type = kind;
        offset = offset + 4;
    }
    Ok(())
}

/// Finds the value of the extension of type `kind`.
fn find_extension(payload: &[u8], kind: u8) -> (found: Option<usize>)
    requires
        payload@.len() >= HEALTH_BASE_LEN,
        extensions_fault(payload@, HEALTH_BASE_LEN as int, 0) is None,
    ensures
        match extension_at(payload@, 54, kind) {
            Some(at) => found is Some && found->0 == at && at + 2 <= payload@.len(),
            None => found is None,
        },
{
    let mut offset: usize = HEALTH_BASE_LEN;
    let ghost mut previous: u8 = 0;
    assert(payload.len() == payload@.len());
    while offset < payload.len()
        invariant
            offset <= payload@.len(),
            extensions_fault(payload@, offset as int, previous) is None,
            extension_at(payload@, 54, kind) == extension_at(payload@, offset as int, kind),
        decreases payload@.len() - offset,
    {
        if payload[offset] == kind {
            return Some(offset + 2);
        }
        proof {
            previous = payload@[offset as int];
        }
        offset = offset + 4;
    }
    None
}

/// Decodes and checks the payload of a health record.
pub(crate) fn decode_device_health(header: Header, payload: &[u8]) -> (result: Result<
    DeviceHealth,
    Error,
>)
    ensures
        result == decoded_health(header, payload@),
{
    validate_decoded_health(header, payload)?;
    let calibrated_mcu_temperature_centi_celsius = match find_extension(payload, 1) {
        Some(at) => Some(read_i16(payload, at)),
        None => None,
    };
    let calibrated_vdd_millivolt = match find_extension(payload, 2) {
        Some(at) => Some(read_u16(payload, at)),
        None => None,
    };
    let health = DeviceHealth {
        flags: payload[1],
        reset_cause_raw: read_u32(payload, 2),
        successful_sensor_scans: read_u32(payload, 6),
        failed_sensor_scans: read_u32(payload, 10),
        incomplete_profiles: read_u32(payload, 14),
        i2c_errors: read_u32(payload, 18),
        radio_tx_errors: read_u32(payload, 22),
        dropped_profiles: read_u32(payload, 26),
        dropped_fragments: read_u32(payload, 30),
        overwritten_fields: read_u32(payload, 34),
        current_sample_interval_ms: read_u32(payload, 38),
        firmware_version: [payload[42], payload[43], payload[44]],
        profile_id: read_u16(payload, 45),
        profile_version: read_u16(payload, 47),
        last_sensor_error: read_u16(payload, 49),
        last_radio_error: read_u16(payload, 51),
        calibrated_mcu_temperature_centi_celsius,
        calibrated_vdd_millivolt,
    };
    assert(health.firmware_version =~= health_at(payload@).firmware_version);
    validate_health_config_identity(header.common, &health)?;
    Ok(health)
}

} // verus!
