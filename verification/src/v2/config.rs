//! The configuration record.

use vstd::prelude::*;

use crate::v2::checks;
use crate::v2::checks::{ensure_known_u8, step_mask, test_bit};
use crate::v2::hash;
use crate::v2::hash::fnv1a64;
use crate::v2::header;
use crate::v2::header::encode_header;
use crate::v2::types;
use crate::v2::types::{
    Common, DeviceConfig, EncodedFrame, Error, FrameType, Header, HeaterStepConfig,
    BUILD_FLAGS_KNOWN, BUILD_FLAG_ID_VALID, COMMON_FLAG_CONFIG_REPEAT, CONFIG_BASE_LEN,
    CONFIG_FLAGS_KNOWN, CONFIG_FLAG_CALIBRATION_HASH_VALID, CONFIG_SCHEMA_VERSION, CONFIG_STEP_LEN,
    MAX_PROFILE_STEPS, MAX_PROFILE_STEPS_U8, MAX_V2_FRAME_LEN,
    OUTPUT_ROUTES_KNOWN, STEPS_PER_FRAGMENT_U8,
};
use crate::wire;
use crate::wire::{read_i8, read_u16, read_u32, read_u64};

verus! {

/// The bytes of one heater step.
pub open spec fn heater_step_bytes(step: HeaterStepConfig) -> Seq<u8> {
    Seq::<u8>::empty() + wire::b16(step.target_temperature_celsius) + wire::b32(
        step.configured_duration_us,
    ) + wire::b8(step.repetition_multiplier) + wire::b8(step.readback_heater_current) + wire::b8(
        step.programmed_heater_resistance,
    ) + wire::b8(step.programmed_gas_wait)
}

/// The bytes of the first `count` heater steps.
pub open spec fn heater_bytes(steps: Seq<HeaterStepConfig>, count: int) -> Seq<u8>
    decreases count,
{
    if count <= 0 {
        Seq::empty()
    } else {
        heater_bytes(steps, count - 1) + heater_step_bytes(steps[count - 1])
    }
}

/// The bytes of a configuration's device fields.
#[verifier::opaque]
pub open spec fn config_device_bytes(config: DeviceConfig) -> Seq<u8> {
    Seq::<u8>::empty()
        + wire::b8(CONFIG_SCHEMA_VERSION)
        + wire::b8(config.flags)
        + wire::b8(config.firmware_version[0])
        + wire::b8(config.firmware_version[1])
        + wire::b8(config.firmware_version[2])
        + wire::b8(config.firmware_build_flags)
        + wire::b64(config.firmware_build_id)
        + wire::b8(config.sensor_chip_id)
        + wire::b8(config.sensor_variant)
        + wire::b8(config.sensor_i2c_address)
        + wire::b8(config.temperature_oversampling)
        + wire::b8(config.humidity_oversampling)
        + wire::b8(config.pressure_oversampling)
        + wire::b8(config.iir_filter)
        + wire::b8(config.standby_time)
        + wire::b8(config.operation_mode)
        + wire::b8(config.heater_enabled)
}

/// The bytes of a configuration's profile fields.
#[verifier::opaque]
pub open spec fn config_profile_bytes(config: DeviceConfig) -> Seq<u8> {
    Seq::<u8>::empty()
        + wire::b16(config.parallel_requested_shared_wait_ms)
        + wire::b8(config.parallel_shared_wait_register)
        + wire::b32(config.parallel_quantized_shared_wait_us)
        + wire::b32(config.tphg_duration_us)
        + wire::b32(config.expected_profile_duration_us)
        + wire::b16(config.profile_id)
        + wire::b16(config.profile_version)
        + wire::b8(config.expected_step_count)
        + wire::b16(config.heater_readback_valid_bitmap)
        + wire::b8(config.calibration_hash_algorithm)
        + wire::b64(config.calibration_hash)
}

/// The bytes of a configuration's radio fields.
#[verifier::opaque]
pub open spec fn config_radio_bytes(config: DeviceConfig) -> Seq<u8> {
    Seq::<u8>::empty()
        + wire::b32(config.scan_interval_ms)
        + wire::b16(config.config_repeat_interval_scans)
        + wire::b8(config.output_routes)
        + wire::b32(config.radio_frequency_hz)
        + wire::b_i8(config.radio_tx_power_dbm)
        + wire::b8(config.radio_spreading_factor)
        + wire::b32(config.radio_bandwidth_hz)
        + wire::b8(config.radio_coding_rate_numerator)
        + wire::b8(config.radio_coding_rate_denominator)
        + wire::b16(config.radio_preamble_symbols)
        + wire::b8(config.radio_header_mode)
        + wire::b8(config.radio_phy_crc_enabled)
        + wire::b8(config.radio_iq_inverted)
        + wire::b16(config.radio_sync_word)
        + wire::b8(config.max_frame_len)
        + wire::b8(config.profile_steps_per_fragment)
}

/// The bytes of a configuration without its heater steps.
pub open spec fn config_base_bytes(config: DeviceConfig) -> Seq<u8> {
    config_device_bytes(config) + config_profile_bytes(config) + config_radio_bytes(config)
}

/// The canonical payload of a configuration record.
pub open spec fn config_bytes(config: DeviceConfig) -> Seq<u8> {
    config_base_bytes(config) + heater_bytes(config.steps@, config.expected_step_count as int)
}

/// The heater step at `at` in a payload.
pub open spec fn heater_step_at(payload: Seq<u8>, at: int) -> HeaterStepConfig {
    HeaterStepConfig {
        target_temperature_celsius: wire::be16(payload, at),
        configured_duration_us: wire::be32(payload, at + 2),
        repetition_multiplier: payload[at + 6],
        readback_heater_current: payload[at + 7],
        programmed_heater_resistance: payload[at + 8],
        programmed_gas_wait: payload[at + 9],
    }
}

/// Heater step `index` of a payload, which is unused from the step count on.
pub open spec fn heater_slot(payload: Seq<u8>, index: int) -> HeaterStepConfig {
    if index < payload[43] {
        heater_step_at(payload, CONFIG_BASE_LEN + CONFIG_STEP_LEN * index)
    } else {
        types::unused_heater_step()
    }
}

/// The configuration whose fields stand at their places in a payload.
pub open spec fn config_at(payload: Seq<u8>) -> DeviceConfig {
    DeviceConfig {
        flags: payload[1],
        firmware_version: [payload[2], payload[3], payload[4]],
        firmware_build_flags: payload[5],
        firmware_build_id: wire::be64(payload, 6),
        sensor_chip_id: payload[14],
        sensor_variant: payload[15],
        sensor_i2c_address: payload[16],
        temperature_oversampling: payload[17],
        humidity_oversampling: payload[18],
        pressure_oversampling: payload[19],
        iir_filter: payload[20],
        standby_time: payload[21],
        operation_mode: payload[22],
        heater_enabled: payload[23],
        parallel_requested_shared_wait_ms: wire::be16(payload, 24),
        parallel_shared_wait_register: payload[26],
        parallel_quantized_shared_wait_us: wire::be32(payload, 27),
        tphg_duration_us: wire::be32(payload, 31),
        expected_profile_duration_us: wire::be32(payload, 35),
        profile_id: wire::be16(payload, 39),
        profile_version: wire::be16(payload, 41),
        expected_step_count: payload[43],
        heater_readback_valid_bitmap: wire::be16(payload, 44),
        calibration_hash_algorithm: payload[46],
        calibration_hash: wire::be64(payload, 47),
        scan_interval_ms: wire::be32(payload, 55),
        config_repeat_interval_scans: wire::be16(payload, 59),
        output_routes: payload[61],
        radio_frequency_hz: wire::be32(payload, 62),
        radio_tx_power_dbm: wire::be_i8(payload, 66),
        radio_spreading_factor: payload[67],
        radio_bandwidth_hz: wire::be32(payload, 68),
        radio_coding_rate_numerator: payload[72],
        radio_coding_rate_denominator: payload[73],
        radio_preamble_symbols: wire::be16(payload, 74),
        radio_header_mode: payload[76],
        radio_phy_crc_enabled: payload[77],
        radio_iq_inverted: payload[78],
        radio_sync_word: wire::be16(payload, 79),
        max_frame_len: payload[81],
        profile_steps_per_fragment: payload[82],
        steps: [
            heater_slot(payload, 0),
            heater_slot(payload, 1),
            heater_slot(payload, 2),
            heater_slot(payload, 3),
            heater_slot(payload, 4),
            heater_slot(payload, 5),
            heater_slot(payload, 6),
            heater_slot(payload, 7),
            heater_slot(payload, 8),
            heater_slot(payload, 9),
        ],
    }
}

/// The fault of heater slot `index`: a slot beyond the step count must be
/// unused, and a slot without a verified readback must hold no readback.
pub open spec fn heater_fault(config: DeviceConfig, index: int) -> Option<Error> {
    let step = config.steps[index];
    if index >= config.expected_step_count && step != types::unused_heater_step() {
        Some(Error::InvalidField("unused_heater_step"))
    } else if index < config.expected_step_count && !checks::has_bit(
        config.heater_readback_valid_bitmap,
        index,
    ) && (step.readback_heater_current != 0 || step.programmed_heater_resistance != 0
        || step.programmed_gas_wait != 0) {
        Some(Error::InvalidField("unverified_heater_readback"))
    } else {
        None
    }
}

/// The first fault among the first `count` heater slots.
pub open spec fn heaters_fault(config: DeviceConfig, count: int) -> Option<Error>
    decreases count,
{
    if count <= 0 {
        None
    } else {
        checks::first_fault(heaters_fault(config, count - 1), heater_fault(config, count - 1))
    }
}

/// The first rule that a configuration breaks.
pub open spec fn config_fault(config: DeviceConfig) -> Option<Error> {
    let flags = checks::first_fault(
        checks::unknown_flags_u8("config_flags", config.flags, CONFIG_FLAGS_KNOWN),
        checks::first_fault(
            checks::unknown_flags_u8(
                "firmware_build_flags",
                config.firmware_build_flags,
                BUILD_FLAGS_KNOWN,
            ),
            checks::unknown_flags_u8("output_routes", config.output_routes, OUTPUT_ROUTES_KNOWN),
        ),
    );
    if flags is Some {
        flags
    } else if config.output_routes == 0 {
        Some(Error::InvalidField("output_routes"))
    } else if config.profile_id == 0 || config.profile_version == 0 {
        Some(Error::InvalidField("profile_identity"))
    } else if config.sensor_variant != 0 && config.sensor_variant != 1 && config.sensor_variant
        != 255 {
        Some(Error::InvalidField("sensor_variant"))
    } else if config.temperature_oversampling > 5 || config.humidity_oversampling > 5
        || config.pressure_oversampling > 5 {
        Some(Error::InvalidField("oversampling"))
    } else if config.iir_filter > 7 {
        Some(Error::InvalidField("iir_filter"))
    } else if config.standby_time > 8 {
        Some(Error::InvalidField("standby_time"))
    } else if !(1 <= config.operation_mode <= 3) {
        Some(Error::InvalidField("operation_mode"))
    } else if !(1 <= config.expected_step_count <= MAX_PROFILE_STEPS) {
        Some(Error::InvalidField("expected_step_count"))
    } else if config.heater_readback_valid_bitmap & !checks::step_mask_of(
        config.expected_step_count,
    ) != 0 {
        Some(Error::InvalidField("heater_readback_valid_bitmap"))
    } else if config.heater_enabled > 1 || config.radio_phy_crc_enabled > 1
        || config.radio_iq_inverted > 1 || config.radio_header_mode > 1 {
        Some(Error::InvalidField("boolean"))
    } else if config.profile_steps_per_fragment != STEPS_PER_FRAGMENT_U8 {
        Some(Error::InvalidField("profile_steps_per_fragment"))
    } else if config.max_frame_len != MAX_V2_FRAME_LEN {
        Some(Error::InvalidField("max_frame_len"))
    } else if config.flags & CONFIG_FLAG_CALIBRATION_HASH_VALID == 0 && (
    config.calibration_hash_algorithm != 0 || config.calibration_hash != 0) {
        Some(Error::InvalidField("calibration_hash"))
    } else if config.flags & CONFIG_FLAG_CALIBRATION_HASH_VALID != 0
        && config.calibration_hash_algorithm != 1 {
        Some(Error::InvalidField("calibration_hash_algorithm"))
    } else if config.firmware_build_flags & BUILD_FLAG_ID_VALID == 0 && config.firmware_build_id
        != 0 {
        Some(Error::InvalidField("firmware_build_id"))
    } else if !(5 <= config.radio_spreading_factor <= 12) {
        Some(Error::InvalidField("radio_spreading_factor"))
    } else if config.radio_bandwidth_hz == 0 {
        Some(Error::InvalidField("radio_bandwidth_hz"))
    } else if config.radio_coding_rate_numerator != 4 || !(5
        <= config.radio_coding_rate_denominator <= 8) {
        Some(Error::InvalidField("radio_coding_rate"))
    } else if config.radio_preamble_symbols == 0 {
        Some(Error::InvalidField("radio_preamble_symbols"))
    } else {
        heaters_fault(config, MAX_PROFILE_STEPS as int)
    }
}

/// The stable ID of a configuration: the FNV-1a-64 hash of its canonical
/// payload. The hash value zero is reserved.
pub open spec fn config_id_of(config: DeviceConfig) -> Result<u64, Error> {
    match config_fault(config) {
        Some(error) => Err(error),
        None => if hash::fnv1a64_of(config_bytes(config)) == 0 {
            Err(Error::InvalidField("reserved_config_id"))
        } else {
            Ok(hash::fnv1a64_of(config_bytes(config)))
        },
    }
}

/// The header that a configuration record is sent with: the common fields with
/// the configuration's own ID, and with the repeat flag where it is repeated.
pub open spec fn config_header(common: Common, config: DeviceConfig, repeated: bool) -> Header {
    Header {
        frame_type: FrameType::DeviceConfig,
        common: Common {
            flags: if repeated {
                common.flags | COMMON_FLAG_CONFIG_REPEAT
            } else {
                common.flags
            },
            config_id: hash::fnv1a64_of(config_bytes(config)),
            ..common
        },
        fragment_index: 0,
        fragment_count: 1,
        payload_len: (CONFIG_BASE_LEN + CONFIG_STEP_LEN * config.expected_step_count) as u16,
    }
}

/// The frame of a configuration record, or the first rule that it breaks.
pub open spec fn encoded_config(
    common: Common,
    config: DeviceConfig,
    repeated: bool,
) -> Result<Seq<u8>, Error> {
    match config_id_of(config) {
        Err(error) => Err(error),
        Ok(_) => {
            let header = config_header(common, config, repeated);
            match header::common_fault(header.common) {
                Some(error) => Err(error),
                None => Ok(header::header_bytes(header) + config_bytes(config)),
            }
        },
    }
}

/// The first rule of framing and identity that a configuration payload breaks.
pub open spec fn config_payload_fault(header: Header, payload: Seq<u8>) -> Option<Error> {
    if header.fragment_index != 0 || header.fragment_count != 1 {
        Some(Error::InvalidField("unfragmented_record_coordinates"))
    } else if payload.len() < CONFIG_BASE_LEN {
        Some(Error::WrongLength { expected: CONFIG_BASE_LEN, actual: payload.len() as usize })
    } else if payload[0] != CONFIG_SCHEMA_VERSION {
        Some(Error::InvalidField("config_schema_version"))
    } else if !(1 <= payload[43] <= MAX_PROFILE_STEPS) {
        Some(Error::InvalidField("expected_step_count"))
    } else if payload.len() != CONFIG_BASE_LEN + CONFIG_STEP_LEN * payload[43] {
        Some(
            Error::WrongLength {
                expected: (CONFIG_BASE_LEN + CONFIG_STEP_LEN * payload[43]) as usize,
                actual: payload.len() as usize,
            },
        )
    } else {
        let flags = checks::first_fault(
            checks::unknown_flags_u8("config_flags", payload[1], CONFIG_FLAGS_KNOWN),
            checks::unknown_flags_u8("firmware_build_flags", payload[5], BUILD_FLAGS_KNOWN),
        );
        if flags is Some {
            flags
        } else if header.common.config_id == 0 {
            Some(Error::InvalidField("reserved_config_id"))
        } else if hash::fnv1a64_of(payload) != header.common.config_id {
            Some(
                Error::ConfigIdMismatch {
                    header: header.common.config_id,
                    calculated: hash::fnv1a64_of(payload),
                },
            )
        } else {
            None
        }
    }
}

/// The configuration that a payload carries, or the first rule that it breaks.
pub open spec fn decoded_config(header: Header, payload: Seq<u8>) -> Result<DeviceConfig, Error> {
    match checks::first_fault(
        config_payload_fault(header, payload),
        config_fault(config_at(payload)),
    ) {
        Some(error) => Err(error),
        None => Ok(config_at(payload)),
    }
}

proof fn lemma_heater_step_layout(s: Seq<u8>, step: HeaterStepConfig)
    ensures
        heater_step_bytes(step).len() == CONFIG_STEP_LEN,
        wire::kept(s, s + heater_step_bytes(step)),
        heater_step_at(s + heater_step_bytes(step), s.len() as int) == step,
{
    let s1 = s + wire::b16(step.target_temperature_celsius);
    wire::lemma_append16(s, step.target_temperature_celsius);
    let s2 = s1 + wire::b32(step.configured_duration_us);
    wire::lemma_append32(s1, step.configured_duration_us);
    let s3 = s2 + wire::b8(step.repetition_multiplier);
    wire::lemma_append8(s2, step.repetition_multiplier);
    let s4 = s3 + wire::b8(step.readback_heater_current);
    wire::lemma_append8(s3, step.readback_heater_current);
    let s5 = s4 + wire::b8(step.programmed_heater_resistance);
    wire::lemma_append8(s4, step.programmed_heater_resistance);
    let s6 = s5 + wire::b8(step.programmed_gas_wait);
    wire::lemma_append8(s5, step.programmed_gas_wait);
    assert(s6 =~= s + heater_step_bytes(step));
    wire::lemma_kept_by_append(s, heater_step_bytes(step));
}

proof fn lemma_heaters_layout(s: Seq<u8>, steps: Seq<HeaterStepConfig>, count: int)
    requires
        0 <= count,
    ensures
        heater_bytes(steps, count).len() == CONFIG_STEP_LEN * count,
        wire::kept(s, s + heater_bytes(steps, count)),
        forall|i: int|
            0 <= i < count ==> #[trigger] heater_step_at(
                s + heater_bytes(steps, count),
                s.len() + CONFIG_STEP_LEN * i,
            ) == steps[i],
    decreases count,
{
    wire::lemma_kept_by_append(s, heater_bytes(steps, count));
    if count > 0 {
        lemma_heaters_layout(s, steps, count - 1);
        let before = s + heater_bytes(steps, count - 1);
        let after = s + heater_bytes(steps, count);
        lemma_heater_step_layout(before, steps[count - 1]);
        assert(after =~= before + heater_step_bytes(steps[count - 1]));
        assert forall|i: int| 0 <= i < count implies #[trigger] heater_step_at(
            after,
            s.len() + CONFIG_STEP_LEN * i,
        ) == steps[i] by {
            if i < count - 1 {
                assert(heater_step_at(before, s.len() + CONFIG_STEP_LEN * i) == steps[i]);
            }
        }
    }
}

#[verifier::spinoff_prover]
#[verifier::rlimit(60)]
proof fn lemma_config_device_layout(prefix: Seq<u8>, config: DeviceConfig, tail: Seq<u8>)
    ensures
        config_device_bytes(config).len() == 24,
        ({
            let s = prefix + config_device_bytes(config) + tail;
            let at = prefix.len() as int;
            &&& s[at] == CONFIG_SCHEMA_VERSION
            &&& s[at + 1] == config.flags
            &&& s[at + 2] == config.firmware_version[0]
            &&& s[at + 3] == config.firmware_version[1]
            &&& s[at + 4] == config.firmware_version[2]
            &&& s[at + 5] == config.firmware_build_flags
            &&& wire::be64(s, at + 6) == config.firmware_build_id
            &&& s[at + 14] == config.sensor_chip_id
            &&& s[at + 15] == config.sensor_variant
            &&& s[at + 16] == config.sensor_i2c_address
            &&& s[at + 17] == config.temperature_oversampling
            &&& s[at + 18] == config.humidity_oversampling
            &&& s[at + 19] == config.pressure_oversampling
            &&& s[at + 20] == config.iir_filter
            &&& s[at + 21] == config.standby_time
            &&& s[at + 22] == config.operation_mode
            &&& s[at + 23] == config.heater_enabled
        }),
{
    reveal(config_device_bytes);
    let s0 = prefix;
    let s1 = s0 + wire::b8(CONFIG_SCHEMA_VERSION);
    wire::lemma_append8(s0, CONFIG_SCHEMA_VERSION);
    let s2 = s1 + wire::b8(config.flags);
    wire::lemma_append8(s1, config.flags);
    let s3 = s2 + wire::b8(config.firmware_version[0]);
    wire::lemma_append8(s2, config.firmware_version[0]);
    let s4 = s3 + wire::b8(config.firmware_version[1]);
    wire::lemma_append8(s3, config.firmware_version[1]);
    let s5 = s4 + wire::b8(config.firmware_version[2]);
    wire::lemma_append8(s4, config.firmware_version[2]);
    let s6 = s5 + wire::b8(config.firmware_build_flags);
    wire::lemma_append8(s5, config.firmware_build_flags);
    let s7 = s6 + wire::b64(config.firmware_build_id);
    wire::lemma_append64(s6, config.firmware_build_id);
    let s8 = s7 + wire::b8(config.sensor_chip_id);
    wire::lemma_append8(s7, config.sensor_chip_id);
    let s9 = s8 + wire::b8(config.sensor_variant);
    wire::lemma_append8(s8, config.sensor_variant);
    let s10 = s9 + wire::b8(config.sensor_i2c_address);
    wire::lemma_append8(s9, config.sensor_i2c_address);
    let s11 = s10 + wire::b8(config.temperature_oversampling);
    wire::lemma_append8(s10, config.temperature_oversampling);
    let s12 = s11 + wire::b8(config.humidity_oversampling);
    wire::lemma_append8(s11, config.humidity_oversampling);
    let s13 = s12 + wire::b8(config.pressure_oversampling);
    wire::lemma_append8(s12, config.pressure_oversampling);
    let s14 = s13 + wire::b8(config.iir_filter);
    wire::lemma_append8(s13, config.iir_filter);
    let s15 = s14 + wire::b8(config.standby_time);
    wire::lemma_append8(s14, config.standby_time);
    let s16 = s15 + wire::b8(config.operation_mode);
    wire::lemma_append8(s15, config.operation_mode);
    let s17 = s16 + wire::b8(config.heater_enabled);
    wire::lemma_append8(s16, config.heater_enabled);
    assert(s17 =~= prefix + config_device_bytes(config));
    wire::lemma_kept_by_append(s17, tail);
}

#[verifier::spinoff_prover]
#[verifier::rlimit(60)]
proof fn lemma_config_profile_layout(prefix: Seq<u8>, config: DeviceConfig, tail: Seq<u8>)
    ensures
        config_profile_bytes(config).len() == 31,
        ({
            let s = prefix + config_profile_bytes(config) + tail;
            let at = prefix.len() as int;
            &&& wire::be16(s, at) == config.parallel_requested_shared_wait_ms
            &&& s[at + 2] == config.parallel_shared_wait_register
            &&& wire::be32(s, at + 3) == config.parallel_quantized_shared_wait_us
            &&& wire::be32(s, at + 7) == config.tphg_duration_us
            &&& wire::be32(s, at + 11) == config.expected_profile_duration_us
            &&& wire::be16(s, at + 15) == config.profile_id
            &&& wire::be16(s, at + 17) == config.profile_version
            &&& s[at + 19] == config.expected_step_count
            &&& wire::be16(s, at + 20) == config.heater_readback_valid_bitmap
            &&& s[at + 22] == config.calibration_hash_algorithm
            &&& wire::be64(s, at + 23) == config.calibration_hash
        }),
{
    reveal(config_profile_bytes);
    let s0 = prefix;
    let s1 = s0 + wire::b16(config.parallel_requested_shared_wait_ms);
    wire::lemma_append16(s0, config.parallel_requested_shared_wait_ms);
    let s2 = s1 + wire::b8(config.parallel_shared_wait_register);
    wire::lemma_append8(s1, config.parallel_shared_wait_register);
    let s3 = s2 + wire::b32(config.parallel_quantized_shared_wait_us);
    wire::lemma_append32(s2, config.parallel_quantized_shared_wait_us);
    let s4 = s3 + wire::b32(config.tphg_duration_us);
    wire::lemma_append32(s3, config.tphg_duration_us);
    let s5 = s4 + wire::b32(config.expected_profile_duration_us);
    wire::lemma_append32(s4, config.expected_profile_duration_us);
    let s6 = s5 + wire::b16(config.profile_id);
    wire::lemma_append16(s5, config.profile_id);
    let s7 = s6 + wire::b16(config.profile_version);
    wire::lemma_append16(s6, config.profile_version);
    let s8 = s7 + wire::b8(config.expected_step_count);
    wire::lemma_append8(s7, config.expected_step_count);
    let s9 = s8 + wire::b16(config.heater_readback_valid_bitmap);
    wire::lemma_append16(s8, config.heater_readback_valid_bitmap);
    let s10 = s9 + wire::b8(config.calibration_hash_algorithm);
    wire::lemma_append8(s9, config.calibration_hash_algorithm);
    let s11 = s10 + wire::b64(config.calibration_hash);
    wire::lemma_append64(s10, config.calibration_hash);
    assert(s11 =~= prefix + config_profile_bytes(config));
    wire::lemma_kept_by_append(s11, tail);
}

#[verifier::spinoff_prover]
#[verifier::rlimit(60)]
proof fn lemma_config_radio_layout(prefix: Seq<u8>, config: DeviceConfig, tail: Seq<u8>)
    ensures
        config_radio_bytes(config).len() == 28,
        ({
            let s = prefix + config_radio_bytes(config) + tail;
            let at = prefix.len() as int;
            &&& wire::be32(s, at) == config.scan_interval_ms
            &&& wire::be16(s, at + 4) == config.config_repeat_interval_scans
            &&& s[at + 6] == config.output_routes
            &&& wire::be32(s, at + 7) == config.radio_frequency_hz
            &&& wire::be_i8(s, at + 11) == config.radio_tx_power_dbm
            &&& s[at + 12] == config.radio_spreading_factor
            &&& wire::be32(s, at + 13) == config.radio_bandwidth_hz
            &&& s[at + 17] == config.radio_coding_rate_numerator
            &&& s[at + 18] == config.radio_coding_rate_denominator
            &&& wire::be16(s, at + 19) == config.radio_preamble_symbols
            &&& s[at + 21] == config.radio_header_mode
            &&& s[at + 22] == config.radio_phy_crc_enabled
            &&& s[at + 23] == config.radio_iq_inverted
            &&& wire::be16(s, at + 24) == config.radio_sync_word
            &&& s[at + 26] == config.max_frame_len
            &&& s[at + 27] == config.profile_steps_per_fragment
        }),
{
    reveal(config_radio_bytes);
    let s0 = prefix;
    let s1 = s0 + wire::b32(config.scan_interval_ms);
    wire::lemma_append32(s0, config.scan_interval_ms);
    let s2 = s1 + wire::b16(config.config_repeat_interval_scans);
    wire::lemma_append16(s1, config.config_repeat_interval_scans);
    let s3 = s2 + wire::b8(config.output_routes);
    wire::lemma_append8(s2, config.output_routes);
    let s4 = s3 + wire::b32(config.radio_frequency_hz);
    wire::lemma_append32(s3, config.radio_frequency_hz);
    let s5 = s4 + wire::b8(wire::unsigned8(config.radio_tx_power_dbm));
    wire::lemma_append8(s4, wire::unsigned8(config.radio_tx_power_dbm));
    let s6 = s5 + wire::b8(config.radio_spreading_factor);
    wire::lemma_append8(s5, config.radio_spreading_factor);
    let s7 = s6 + wire::b32(config.radio_bandwidth_hz);
    wire::lemma_append32(s6, config.radio_bandwidth_hz);
    let s8 = s7 + wire::b8(config.radio_coding_rate_numerator);
    wire::lemma_append8(s7, config.radio_coding_rate_numerator);
    let s9 = s8 + wire::b8(config.radio_coding_rate_denominator);
    wire::lemma_append8(s8, config.radio_coding_rate_denominator);
    let s10 = s9 + wire::b16(config.radio_preamble_symbols);
    wire::lemma_append16(s9, config.radio_preamble_symbols);
    let s11 = s10 + wire::b8(config.radio_header_mode);
    wire::lemma_append8(s10, config.radio_header_mode);
    let s12 = s11 + wire::b8(config.radio_phy_crc_enabled);
    wire::lemma_append8(s11, config.radio_phy_crc_enabled);
    let s13 = s12 + wire::b8(config.radio_iq_inverted);
    wire::lemma_append8(s12, config.radio_iq_inverted);
    let s14 = s13 + wire::b16(config.radio_sync_word);
    wire::lemma_append16(s13, config.radio_sync_word);
    let s15 = s14 + wire::b8(config.max_frame_len);
    wire::lemma_append8(s14, config.max_frame_len);
    let s16 = s15 + wire::b8(config.profile_steps_per_fragment);
    wire::lemma_append8(s15, config.profile_steps_per_fragment);
    assert(s16 =~= prefix + config_radio_bytes(config));
    wire::lemma_kept_by_append(s16, tail);
}

proof fn lemma_heaters_fault(config: DeviceConfig, count: int)
    requires
        heaters_fault(config, count) is None,
    ensures
        forall|i: int| 0 <= i < count ==> #[trigger] heater_fault(config, i) is None,
    decreases count,
{
    if count > 0 {
        lemma_heaters_fault(config, count - 1);
    }
}

/// A valid configuration has one to ten steps, and no faulty heater slot.
pub proof fn lemma_config_valid(config: DeviceConfig)
    requires
        config_fault(config) is None,
    ensures
        1 <= config.expected_step_count <= MAX_PROFILE_STEPS,
        forall|i: int|
            0 <= i < MAX_PROFILE_STEPS ==> #[trigger] heater_fault(config, i) is None,
{
    lemma_heaters_fault(config, MAX_PROFILE_STEPS as int);
}

proof fn lemma_heater_slots(config: DeviceConfig, base: Seq<u8>, s: Seq<u8>)
    requires
        1 <= config.expected_step_count <= MAX_PROFILE_STEPS,
        forall|i: int|
            0 <= i < MAX_PROFILE_STEPS ==> #[trigger] heater_fault(config, i) is None,
        base.len() == CONFIG_BASE_LEN,
        s == base + heater_bytes(config.steps@, config.expected_step_count as int),
        s[43] == config.expected_step_count,
    ensures
        s.len() == CONFIG_BASE_LEN + CONFIG_STEP_LEN * config.expected_step_count,
        forall|i: int|
            0 <= i < MAX_PROFILE_STEPS ==> #[trigger] heater_slot(s, i) == config.steps[i],
{
    let count = config.expected_step_count as int;
    lemma_heaters_layout(base, config.steps@, count);
    assert forall|i: int| 0 <= i < MAX_PROFILE_STEPS implies #[trigger] heater_slot(s, i)
        == config.steps[i] by {
        if i < count {
            assert(heater_step_at(s, base.len() + CONFIG_STEP_LEN * i) == config.steps@[i]);
        } else {
            assert(heater_fault(config, i) is None);
        }
    }
}

/// The base fields of a configuration stand at their places in a payload.
spec fn config_fields_at(s: Seq<u8>, config: DeviceConfig) -> bool {
    config_at(s) == (DeviceConfig { steps: config_at(s).steps, ..config })
}

proof fn lemma_config_fields(config: DeviceConfig, heaters: Seq<u8>)
    ensures
        config_base_bytes(config).len() == CONFIG_BASE_LEN,
        (config_base_bytes(config) + heaters)[0] == CONFIG_SCHEMA_VERSION,
        config_fields_at(config_base_bytes(config) + heaters, config),
{
    let device = config_device_bytes(config);
    let profile = config_profile_bytes(config);
    let radio = config_radio_bytes(config);
    let s = config_base_bytes(config) + heaters;
    lemma_config_device_layout(Seq::empty(), config, profile + radio + heaters);
    assert(s =~= Seq::<u8>::empty() + device + (profile + radio + heaters));
    lemma_config_profile_layout(device, config, radio + heaters);
    assert(s =~= device + profile + (radio + heaters));
    lemma_config_radio_layout(device + profile, config, heaters);
    assert(s =~= (device + profile) + radio + heaters);
    assert(config_at(s).firmware_version =~= config.firmware_version);
}

/// A valid configuration's payload has its length, and its fields at their places.
#[verifier::spinoff_prover]
#[verifier::rlimit(30)]
pub proof fn lemma_config_layout(config: DeviceConfig)
    requires
        1 <= config.expected_step_count <= MAX_PROFILE_STEPS,
        forall|i: int|
            0 <= i < MAX_PROFILE_STEPS ==> #[trigger] heater_fault(config, i) is None,
    ensures
        config_bytes(config).len() == CONFIG_BASE_LEN + CONFIG_STEP_LEN
            * config.expected_step_count,
        config_bytes(config)[0] == CONFIG_SCHEMA_VERSION,
        config_at(config_bytes(config)) == config,
{
    let s = config_bytes(config);
    let heaters = heater_bytes(config.steps@, config.expected_step_count as int);
    lemma_config_fields(config, heaters);
    assert(s[43] == config_at(s).expected_step_count);
    lemma_heater_slots(config, config_base_bytes(config), s);
    assert(config_at(s).steps =~= config.steps);
}

proof fn lemma_config_device_same(s: Seq<u8>, t: Seq<u8>)
    requires
        s[0] == t[0],
        config_at(s) == config_at(t),
    ensures
        forall|i: int| 0 <= i < 24 ==> #[trigger] s[i] == t[i],
{
    wire::lemma_same64(s, t, 6);
    assert(config_at(s).firmware_version[0] == config_at(t).firmware_version[0]);
    assert(config_at(s).firmware_version[1] == config_at(t).firmware_version[1]);
    assert(config_at(s).firmware_version[2] == config_at(t).firmware_version[2]);
}

proof fn lemma_config_profile_same(s: Seq<u8>, t: Seq<u8>)
    requires
        config_at(s) == config_at(t),
    ensures
        forall|i: int| 24 <= i < 55 ==> #[trigger] s[i] == t[i],
{
    wire::lemma_same16(s, t, 24);
    wire::lemma_same32(s, t, 27);
    wire::lemma_same32(s, t, 31);
    wire::lemma_same32(s, t, 35);
    wire::lemma_same16(s, t, 39);
    wire::lemma_same16(s, t, 41);
    wire::lemma_same16(s, t, 44);
    wire::lemma_same64(s, t, 47);
}

proof fn lemma_config_radio_same(s: Seq<u8>, t: Seq<u8>)
    requires
        config_at(s) == config_at(t),
    ensures
        forall|i: int| 55 <= i < 83 ==> #[trigger] s[i] == t[i],
{
    wire::lemma_same32(s, t, 55);
    wire::lemma_same16(s, t, 59);
    wire::lemma_same32(s, t, 62);
    wire::lemma_same32(s, t, 68);
    wire::lemma_same16(s, t, 74);
    wire::lemma_same16(s, t, 79);
    assert(wire::be_i8(s, 66) == wire::be_i8(t, 66));
}

proof fn lemma_heaters_same(s: Seq<u8>, t: Seq<u8>)
    requires
        config_at(s).steps == config_at(t).steps,
        s[43] == t[43],
        0 <= s[43] <= MAX_PROFILE_STEPS,
    ensures
        forall|i: int|
            CONFIG_BASE_LEN <= i < CONFIG_BASE_LEN + CONFIG_STEP_LEN * s[43] ==> #[trigger] s[i]
                == t[i],
{
    assert forall|i: int|
        CONFIG_BASE_LEN <= i < CONFIG_BASE_LEN + CONFIG_STEP_LEN * s[43] implies #[trigger] s[i]
        == t[i] by {
        let k = (i - CONFIG_BASE_LEN) / 10;
        let at = CONFIG_BASE_LEN + CONFIG_STEP_LEN * k;
        assert(config_at(s).steps[k] == heater_slot(s, k));
        assert(config_at(t).steps[k] == heater_slot(t, k));
        assert(heater_step_at(s, at) == heater_step_at(t, at));
        wire::lemma_same16(s, t, at);
        wire::lemma_same32(s, t, at + 2);
    }
}

/// A payload that decodes is the canonical payload of what it decodes to.
pub proof fn lemma_config_canonical(header: Header, payload: Seq<u8>)
    requires
        decoded_config(header, payload) is Ok,
    ensures
        payload == config_bytes(config_at(payload)),
{
    let config = config_at(payload);
    let s = config_bytes(config);
    lemma_config_valid(config);
    lemma_config_layout(config);
    assert(config_at(s) == config_at(payload));
    lemma_config_device_same(s, payload);
    lemma_config_profile_same(s, payload);
    lemma_config_radio_same(s, payload);
    lemma_heaters_same(s, payload);
    assert(s =~= payload);
}

/// Rejects a configuration that breaks a rule.
pub(crate) fn validate_config(config: &DeviceConfig) -> (result: Result<(), Error>)
    ensures
        result == checks::verdict(config_fault(*config)),
{
    ensure_known_u8("config_flags", config.flags, CONFIG_FLAGS_KNOWN)?;
    ensure_known_u8("firmware_build_flags", config.firmware_build_flags, BUILD_FLAGS_KNOWN)?;
    ensure_known_u8("output_routes", config.output_routes, OUTPUT_ROUTES_KNOWN)?;
    if config.output_routes == 0 {
        return Err(Error::InvalidField("output_routes"));
    }
    if config.profile_id == 0 || config.profile_version == 0 {
        return Err(Error::InvalidField("profile_identity"));
    }
    if config.sensor_variant != 0 && config.sensor_variant != 1 && config.sensor_variant
        != u8::MAX {
        return Err(Error::InvalidField("sensor_variant"));
    }
    if config.temperature_oversampling > 5 || config.humidity_oversampling > 5
        || config.pressure_oversampling > 5 {
        return Err(Error::InvalidField("oversampling"));
    }
    if config.iir_filter > 7 {
        return Err(Error::InvalidField("iir_filter"));
    }
    if config.standby_time > 8 {
        return Err(Error::InvalidField("standby_time"));
    }
    if config.operation_mode < 1 || config.operation_mode > 3 {
        return Err(Error::InvalidField("operation_mode"));
    }
    if config.expected_step_count < 1 || config.expected_step_count > MAX_PROFILE_STEPS_U8 {
        return Err(Error::InvalidField("expected_step_count"));
    }
    let valid_step_mask: u16 = step_mask(config.expected_step_count);
    if config.heater_readback_valid_bitmap & !valid_step_mask != 0 {
        return Err(Error::InvalidField("heater_readback_valid_bitmap"));
    }
    if config.heater_enabled > 1 || config.radio_phy_crc_enabled > 1 || config.radio_iq_inverted
        > 1 || config.radio_header_mode > 1 {
        return Err(Error::InvalidField("boolean"));
    }
    if config.profile_steps_per_fragment != STEPS_PER_FRAGMENT_U8 {
        return Err(Error::InvalidField("profile_steps_per_fragment"));
    }
    if config.max_frame_len as usize != MAX_V2_FRAME_LEN {
        return Err(Error::InvalidField("max_frame_len"));
    }
    if config.flags & CONFIG_FLAG_CALIBRATION_HASH_VALID == 0 {
        if config.calibration_hash_algorithm != 0 || config.calibration_hash != 0 {
            return Err(Error::InvalidField("calibration_hash"));
        }
    } else if config.calibration_hash_algorithm != 1 {
        return Err(Error::InvalidField("calibration_hash_algorithm"));
    }
    if config.firmware_build_flags & BUILD_FLAG_ID_VALID == 0 && config.firmware_build_id != 0 {
        return Err(Error::InvalidField("firmware_build_id"));
    }
    if config.radio_spreading_factor < 5 || config.radio_spreading_factor > 12 {
        return Err(Error::InvalidField("radio_spreading_factor"));
    }
    if config.radio_bandwidth_hz == 0 {
        return Err(Error::InvalidField("radio_bandwidth_hz"));
    }
    if config.radio_coding_rate_numerator != 4 || config.radio_coding_rate_denominator < 5
        || config.radio_coding_rate_denominator > 8 {
        return Err(Error::InvalidField("radio_coding_rate"));
    }
    if config.radio_preamble_symbols == 0 {
        return Err(Error::InvalidField("radio_preamble_symbols"));
    }
    check_heaters(config)
}

/// Rejects a configuration whose heater slots break a rule.
fn check_heaters(config: &DeviceConfig) -> (result: Result<(), Error>)
    ensures
        result == checks::verdict(heaters_fault(*config, MAX_PROFILE_STEPS as int)),
{
    let mut index: usize = 0;
    while index < MAX_PROFILE_STEPS
        invariant
            index <= MAX_PROFILE_STEPS,
            heaters_fault(*config, index as int) is None,
        decreases MAX_PROFILE_STEPS - index,
    {
        let step = config.steps[index];
        let fault = if index >= config.expected_step_count as usize && step
            != HeaterStepConfig::default() {
            Some(Error::InvalidField("unused_heater_step"))
        } else if index < config.expected_step_count as usize && !test_bit(
            config.heater_readback_valid_bitmap,
            index,
        ) && (step.readback_heater_current != 0 || step.programmed_heater_resistance != 0
            || step.programmed_gas_wait != 0) {
            Some(Error::InvalidField("unverified_heater_readback"))
        } else {
            None
        };
        assert(fault == heater_fault(*config, index as int));
        if let Some(error) = fault {
            proof {
                lemma_heaters_fault_stays(*config, index + 1, MAX_PROFILE_STEPS as int);
            }
            return Err(error);
        }
        index = index + 1;
    }
    Ok(())
}

proof fn lemma_heaters_fault_stays(config: DeviceConfig, from: int, to: int)
    requires
        0 <= from <= to,
        heaters_fault(config, from) is Some,
    ensures
        heaters_fault(config, to) == heaters_fault(config, from),
    decreases to,
{
    if from < to {
        lemma_heaters_fault_stays(config, from, to - 1);
    }
}

/// Writes one heater step.
fn write_heater_step(step: &HeaterStepConfig) -> (frame: EncodedFrame)
    ensures
        frame@ == heater_step_bytes(*step),
        frame@.len() == CONFIG_STEP_LEN,
{
    let mut writer = EncodedFrame::empty();
    writer.u16(step.target_temperature_celsius);
    writer.u32(step.configured_duration_us);
    writer.u8(step.repetition_multiplier);
    writer.u8(step.readback_heater_current);
    writer.u8(step.programmed_heater_resistance);
    writer.u8(step.programmed_gas_wait);
    writer
}

/// Writes the canonical payload of a configuration.
fn write_config_payload(config: &DeviceConfig) -> (payload: EncodedFrame)
    requires
        config.expected_step_count <= MAX_PROFILE_STEPS,
    ensures
        payload@ == config_bytes(*config),
        payload@.len() == CONFIG_BASE_LEN + CONFIG_STEP_LEN * config.expected_step_count,
{
    let mut writer = write_config_base(config);
    let ghost base = writer@;
    let mut index: usize = 0;
    while index < config.expected_step_count as usize
        invariant
            index <= config.expected_step_count <= MAX_PROFILE_STEPS,
            base == config_base_bytes(*config),
            base.len() == CONFIG_BASE_LEN,
            writer@ == base + heater_bytes(config.steps@, index as int),
            writer@.len() == CONFIG_BASE_LEN + CONFIG_STEP_LEN * index,
        decreases config.expected_step_count - index,
    {
        let step = write_heater_step(&config.steps[index]);
        let ghost before = writer@;
        writer.append(&step);
        index = index + 1;
        assert(writer@ =~= base + heater_bytes(config.steps@, index as int));
    }
    writer
}

/// Writes a configuration without its heater steps.
fn write_config_base(config: &DeviceConfig) -> (writer: EncodedFrame)
    ensures
        writer@ == config_base_bytes(*config),
        writer@.len() == CONFIG_BASE_LEN,
{
    let mut writer = write_config_device(config);
    writer.append(&write_config_profile(config));
    writer.append(&write_config_radio(config));
    writer
}

/// Writes a configuration's device fields.
fn write_config_device(config: &DeviceConfig) -> (writer: EncodedFrame)
    ensures
        writer@ == config_device_bytes(*config),
        writer@.len() == 24,
{
    reveal(config_device_bytes);
    let mut writer = EncodedFrame::empty();
    writer.u8(CONFIG_SCHEMA_VERSION);
    writer.u8(config.flags);
    writer.u8(config.firmware_version[0]);
    writer.u8(config.firmware_version[1]);
    writer.u8(config.firmware_version[2]);
    writer.u8(config.firmware_build_flags);
    writer.u64(config.firmware_build_id);
    writer.u8(config.sensor_chip_id);
    writer.u8(config.sensor_variant);
    writer.u8(config.sensor_i2c_address);
    writer.u8(config.temperature_oversampling);
    writer.u8(config.humidity_oversampling);
    writer.u8(config.pressure_oversampling);
    writer.u8(config.iir_filter);
    writer.u8(config.standby_time);
    writer.u8(config.operation_mode);
    writer.u8(config.heater_enabled);
    writer
}

/// Writes a configuration's profile fields.
fn write_config_profile(config: &DeviceConfig) -> (writer: EncodedFrame)
    ensures
        writer@ == config_profile_bytes(*config),
        writer@.len() == 31,
{
    reveal(config_profile_bytes);
    let mut writer = EncodedFrame::empty();
    writer.u16(config.parallel_requested_shared_wait_ms);
    writer.u8(config.parallel_shared_wait_register);
    writer.u32(config.parallel_quantized_shared_wait_us);
    writer.u32(config.tphg_duration_us);
    writer.u32(config.expected_profile_duration_us);
    writer.u16(config.profile_id);
    writer.u16(config.profile_version);
    writer.u8(config.expected_step_count);
    writer.u16(config.heater_readback_valid_bitmap);
    writer.u8(config.calibration_hash_algorithm);
    writer.u64(config.calibration_hash);
    writer
}

/// Writes a configuration's radio fields.
fn write_config_radio(config: &DeviceConfig) -> (writer: EncodedFrame)
    ensures
        writer@ == config_radio_bytes(*config),
        writer@.len() == 28,
{
    reveal(config_radio_bytes);
    let mut writer = EncodedFrame::empty();
    writer.u32(config.scan_interval_ms);
    writer.u16(config.config_repeat_interval_scans);
    writer.u8(config.output_routes);
    writer.u32(config.radio_frequency_hz);
    writer.i8(config.radio_tx_power_dbm);
    writer.u8(config.radio_spreading_factor);
    writer.u32(config.radio_bandwidth_hz);
    writer.u8(config.radio_coding_rate_numerator);
    writer.u8(config.radio_coding_rate_denominator);
    writer.u16(config.radio_preamble_symbols);
    writer.u8(config.radio_header_mode);
    writer.u8(config.radio_phy_crc_enabled);
    writer.u8(config.radio_iq_inverted);
    writer.u16(config.radio_sync_word);
    writer.u8(config.max_frame_len);
    writer.u8(config.profile_steps_per_fragment);
    writer
}

/// Calculate the stable ID used to associate profile and health records with
/// the exact canonical configuration payload.
///
/// # Errors
///
/// Returns an [`Error`] when the configuration is not canonically encodable.
pub fn device_config_id(config: &DeviceConfig) -> (result: Result<u64, Error>)
    ensures
        result == config_id_of(*config),
{
    validate_config(config)?;
    let payload = write_config_payload(config);
    let config_id: u64 = fnv1a64(payload.as_slice());
    if config_id == 0 {
        return Err(Error::InvalidField("reserved_config_id"));
    }
    Ok(config_id)
}

/// Encode a canonical one-frame configuration record. Its config ID is the
/// FNV-1a-64 hash of the canonical configuration payload, so volatile common
/// fields (boot ID, uptime, reset cause, repetition time) do not alter it.
///
/// # Errors
///
/// Returns an [`Error`] for unsupported flags, inconsistent optional fields,
/// an invalid step count, or common fields that no frame may carry.
pub fn encode_device_config(common: Common, config: &DeviceConfig, repeated: bool) -> (result: Result<
    EncodedFrame,
    Error,
>)
    ensures
        match encoded_config(common, *config, repeated) {
            Ok(bytes) => result is Ok && result->Ok_0@ == bytes,
            Err(error) => result == Err::<EncodedFrame, Error>(error),
        },
{
    let config_id: u64 = device_config_id(config)?;
    let payload = write_config_payload(config);
    let flags: u8 = if repeated {
        common.flags | COMMON_FLAG_CONFIG_REPEAT
    } else {
        common.flags
    };
    let mut frame = encode_header(
        FrameType::DeviceConfig,
        Common { flags, config_id, ..common },
        0,
        1,
        payload.len() as u16,
    )?;
    proof {
        header::lemma_header_layout(config_header(common, *config, repeated), payload@);
    }
    frame.append(&payload);
    Ok(frame)
}

/// Decodes and checks the payload of a configuration record.
pub(crate) fn decode_device_config(header: Header, payload: &[u8]) -> (result: Result<
    DeviceConfig,
    Error,
>)
    ensures
        result == decoded_config(header, payload@),
{
    validate_decoded_config(header, payload)?;
    let config = read_config(payload);
    validate_config(&config)?;
    Ok(config)
}

/// Checks the framing and the identity of a configuration payload.
fn validate_decoded_config(header: Header, payload: &[u8]) -> (result: Result<(), Error>)
    ensures
        result == checks::verdict(config_payload_fault(header, payload@)),
{
    if header.fragment_index != 0 || header.fragment_count != 1 {
        return Err(Error::InvalidField("unfragmented_record_coordinates"));
    }
    if payload.len() < CONFIG_BASE_LEN {
        return Err(Error::WrongLength { expected: CONFIG_BASE_LEN, actual: payload.len() });
    }
    if payload[0] != CONFIG_SCHEMA_VERSION {
        return Err(Error::InvalidField("config_schema_version"));
    }
    let step_count: u8 = payload[43];
    if step_count < 1 || step_count > MAX_PROFILE_STEPS_U8 {
        return Err(Error::InvalidField("expected_step_count"));
    }
    let expected_len: usize = CONFIG_BASE_LEN + CONFIG_STEP_LEN * step_count as usize;
    if payload.len() != expected_len {
        return Err(Error::WrongLength { expected: expected_len, actual: payload.len() });
    }
    ensure_known_u8("config_flags", payload[1], CONFIG_FLAGS_KNOWN)?;
    ensure_known_u8("firmware_build_flags", payload[5], BUILD_FLAGS_KNOWN)?;
    if header.common.config_id == 0 {
        return Err(Error::InvalidField("reserved_config_id"));
    }
    let calculated: u64 = fnv1a64(payload);
    if calculated != header.common.config_id {
        return Err(Error::ConfigIdMismatch { header: header.common.config_id, calculated });
    }
    Ok(())
}

/// Reads every field of a configuration payload.
fn read_config(payload: &[u8]) -> (config: DeviceConfig)
    requires
        1 <= payload@[43] <= MAX_PROFILE_STEPS,
        payload@.len() == CONFIG_BASE_LEN + CONFIG_STEP_LEN * payload@[43],
    ensures
        config == config_at(payload@),
{
    let step_count: usize = payload[43] as usize;
    let mut steps: [HeaterStepConfig; MAX_PROFILE_STEPS] = [
        HeaterStepConfig::default();
        MAX_PROFILE_STEPS
    ];
    let mut index: usize = 0;
    while index < step_count
        invariant
            index <= step_count <= MAX_PROFILE_STEPS,
            step_count == payload@[43],
            payload@.len() == CONFIG_BASE_LEN + CONFIG_STEP_LEN * step_count,
            forall|i: int| 0 <= i < index ==> #[trigger] steps[i] == heater_slot(payload@, i),
            forall|i: int|
                index <= i < MAX_PROFILE_STEPS ==> #[trigger] steps[i]
                    == types::unused_heater_step(),
        decreases step_count - index,
    {
        let at: usize = CONFIG_BASE_LEN + CONFIG_STEP_LEN * index;
        steps[index] = HeaterStepConfig {
            target_temperature_celsius: read_u16(payload, at),
            configured_duration_us: read_u32(payload, at + 2),
            repetition_multiplier: payload[at + 6],
            readback_heater_current: payload[at + 7],
            programmed_heater_resistance: payload[at + 8],
            programmed_gas_wait: payload[at + 9],
        };
        index = index + 1;
    }
    let config = DeviceConfig {
        flags: payload[1],
        firmware_version: [payload[2], payload[3], payload[4]],
        firmware_build_flags: payload[5],
        firmware_build_id: read_u64(payload, 6),
        sensor_chip_id: payload[14],
        sensor_variant: payload[15],
        sensor_i2c_address: payload[16],
        temperature_oversampling: payload[17],
        humidity_oversampling: payload[18],
        pressure_oversampling: payload[19],
        iir_filter: payload[20],
        standby_time: payload[21],
        operation_mode: payload[22],
        heater_enabled: payload[23],
        parallel_requested_shared_wait_ms: read_u16(payload, 24),
        parallel_shared_wait_register: payload[26],
        parallel_quantized_shared_wait_us: read_u32(payload, 27),
        tphg_duration_us: read_u32(payload, 31),
        expected_profile_duration_us: read_u32(payload, 35),
        profile_id: read_u16(payload, 39),
        profile_version: read_u16(payload, 41),
        expected_step_count: payload[43],
        heater_readback_valid_bitmap: read_u16(payload, 44),
        calibration_hash_algorithm: payload[46],
        calibration_hash: read_u64(payload, 47),
        scan_interval_ms: read_u32(payload, 55),
        config_repeat_interval_scans: read_u16(payload, 59),
        output_routes: payload[61],
        radio_frequency_hz: read_u32(payload, 62),
        radio_tx_power_dbm: read_i8(payload, 66),
        radio_spreading_factor: payload[67],
        radio_bandwidth_hz: read_u32(payload, 68),
        radio_coding_rate_numerator: payload[72],
        radio_coding_rate_denominator: payload[73],
        radio_preamble_symbols: read_u16(payload, 74),
        radio_header_mode: payload[76],
        radio_phy_crc_enabled: payload[77],
        radio_iq_inverted: payload[78],
        radio_sync_word: read_u16(payload, 79),
        max_frame_len: payload[81],
        profile_steps_per_fragment: payload[82],
        steps,
    };
    assert(config.steps =~= config_at(payload@).steps);
    assert(config.firmware_version =~= config_at(payload@).firmware_version);
    config
}

} // verus!
