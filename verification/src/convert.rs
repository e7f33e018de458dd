//! Decoded v2 frames as protocol-independent records.

pub mod laws;

use vstd::prelude::*;

use crate::records::{
    DeviceConfiguration, DeviceHealth, HeaterStepConfiguration, ProfileStep, RecordIdentity,
};
use crate::v2::frame::DecodedFrame;
use crate::v2::profile::ProfileFragmentView;
use crate::v2::types;
use crate::v2::types::{
    Error, Header, HeaterStepConfig, COMMON_FLAG_CONFIG_REPEAT, MAX_PROFILE_STEPS,
};

verus! {

/// The identity that a header carries.
pub open spec fn identity_of(header: Header) -> RecordIdentity {
    RecordIdentity {
        common_flags: header.common.flags,
        node_id: header.common.node_id,
        boot_id: header.common.boot_id,
        scan_sequence: header.common.scan_sequence,
        uptime_ms: header.common.uptime_ms,
        config_id: header.common.config_id,
        reset_cause_flags: header.common.reset_cause_flags,
    }
}

/// The record of a heater step.
pub open spec fn heater_record(step: HeaterStepConfig, index: int) -> HeaterStepConfiguration {
    HeaterStepConfiguration {
        step_index: index as u8,
        target_temperature_celsius: step.target_temperature_celsius,
        configured_duration_us: step.configured_duration_us,
        repetition_multiplier: step.repetition_multiplier,
        readback_heater_current: step.readback_heater_current,
        programmed_heater_resistance: step.programmed_heater_resistance,
        programmed_gas_wait: step.programmed_gas_wait,
    }
}

/// The records of a configuration's heater steps.
pub open spec fn heater_records(config: types::DeviceConfig) -> Seq<HeaterStepConfiguration> {
    Seq::new(config.expected_step_count as nat, |i: int| heater_record(config.steps[i], i))
}

/// Whether a record holds everything that a configuration frame says.
pub open spec fn is_configuration_of(
    record: DeviceConfiguration,
    header: Header,
    config: types::DeviceConfig,
) -> bool {
    &&& record.heater_steps@ == heater_records(config)
    &&& record == (DeviceConfiguration {
        identity: identity_of(header),
        repeated: header.common.flags & COMMON_FLAG_CONFIG_REPEAT != 0,
        config_flags: config.flags,
        firmware_version: config.firmware_version,
        firmware_build_flags: config.firmware_build_flags,
        firmware_build_id: config.firmware_build_id,
        sensor_chip_id: config.sensor_chip_id,
        sensor_variant: config.sensor_variant,
        sensor_i2c_address: config.sensor_i2c_address,
        temperature_oversampling: config.temperature_oversampling,
        humidity_oversampling: config.humidity_oversampling,
        pressure_oversampling: config.pressure_oversampling,
        iir_filter: config.iir_filter,
        standby_time: config.standby_time,
        operation_mode: config.operation_mode,
        heater_enabled: config.heater_enabled,
        parallel_requested_shared_wait_ms: config.parallel_requested_shared_wait_ms,
        parallel_shared_wait_register: config.parallel_shared_wait_register,
        parallel_quantized_shared_wait_us: config.parallel_quantized_shared_wait_us,
        tphg_duration_us: config.tphg_duration_us,
        expected_profile_duration_us: config.expected_profile_duration_us,
        profile_id: config.profile_id,
        profile_version: config.profile_version,
        expected_step_count: config.expected_step_count,
        heater_readback_valid_bitmap: config.heater_readback_valid_bitmap,
        calibration_hash_algorithm: config.calibration_hash_algorithm,
        calibration_hash: config.calibration_hash,
        scan_interval_ms: config.scan_interval_ms,
        config_repeat_interval_scans: config.config_repeat_interval_scans,
        output_routes: config.output_routes,
        radio_frequency_hz: config.radio_frequency_hz,
        radio_tx_power_dbm: config.radio_tx_power_dbm,
        radio_spreading_factor: config.radio_spreading_factor,
        radio_bandwidth_hz: config.radio_bandwidth_hz,
        radio_coding_rate_numerator: config.radio_coding_rate_numerator,
        radio_coding_rate_denominator: config.radio_coding_rate_denominator,
        radio_preamble_symbols: config.radio_preamble_symbols,
        radio_header_mode: config.radio_header_mode,
        radio_phy_crc_enabled: config.radio_phy_crc_enabled,
        radio_iq_inverted: config.radio_iq_inverted,
        radio_sync_word: config.radio_sync_word,
        max_frame_len: config.max_frame_len,
        profile_steps_per_fragment: config.profile_steps_per_fragment,
        heater_steps: record.heater_steps,
    })
}

/// The record of a health frame.
pub open spec fn health_record(header: Header, health: types::DeviceHealth) -> DeviceHealth {
    DeviceHealth {
        identity: identity_of(header),
        health_flags: health.flags,
        reset_cause_raw: health.reset_cause_raw,
        successful_sensor_scans: health.successful_sensor_scans,
        failed_sensor_scans: health.failed_sensor_scans,
        incomplete_profiles: health.incomplete_profiles,
        i2c_errors: health.i2c_errors,
        radio_tx_errors: health.radio_tx_errors,
        dropped_profiles: health.dropped_profiles,
        dropped_fragments: health.dropped_fragments,
        overwritten_fields: health.overwritten_fields,
        current_sample_interval_ms: health.current_sample_interval_ms,
        firmware_version: health.firmware_version,
        profile_id: health.profile_id,
        profile_version: health.profile_version,
        last_sensor_error: health.last_sensor_error,
        last_radio_error: health.last_radio_error,
        calibrated_mcu_temperature_centi_celsius: health.calibrated_mcu_temperature_centi_celsius,
        calibrated_vdd_millivolt: health.calibrated_vdd_millivolt,
    }
}

/// The record of a profile step.
pub open spec fn step_record(step: types::ProfileStep) -> ProfileStep {
    ProfileStep {
        step_index: step.step_index,
        gas_index: step.gas_index,
        measurement_index: step.measurement_index,
        status_bits: step.status,
        raw_measurement_status: step.raw_measurement_status,
        raw_gas_status: step.raw_gas_status,
        target_temperature_celsius: step.target_temperature_celsius,
        configured_duration_us: step.configured_duration_us,
        relative_offset_us: step.offset_us,
        temperature_centi_celsius: step.temperature_centi_celsius,
        pressure_pascal: step.pressure_pascal,
        humidity_milli_percent_rh: step.humidity_milli_percent_rh,
        gas_resistance_ohm: step.gas_resistance_ohm,
        raw_temperature_adc: step.temperature_adc,
        raw_pressure_adc: step.pressure_adc,
        raw_humidity_adc: step.humidity_adc,
        raw_gas_resistance_adc: step.gas_resistance_adc,
        raw_gas_range: step.gas_range,
        repetition_multiplier: step.repetition_multiplier,
        raw_heater_resistance: step.heater_resistance,
        raw_heater_current: step.heater_current,
        raw_gas_wait: step.gas_wait,
    }
}

/// The records of profile steps.
pub open spec fn step_records(steps: Seq<types::ProfileStep>) -> Seq<ProfileStep> {
    Seq::new(steps.len(), |i: int| step_record(steps[i]))
}

/// Convert a v2 common header into a protocol-independent identity record.
#[must_use]
pub fn record_identity(header: Header) -> (identity: RecordIdentity)
    ensures
        identity == identity_of(header),
{
    RecordIdentity {
        common_flags: header.common.flags,
        node_id: header.common.node_id,
        boot_id: header.common.boot_id,
        scan_sequence: header.common.scan_sequence,
        uptime_ms: header.common.uptime_ms,
        config_id: header.common.config_id,
        reset_cause_flags: header.common.reset_cause_flags,
    }
}

/// Convert one validated v2 configuration frame without losing units.
#[must_use]
pub fn device_configuration(header: Header, config: types::DeviceConfig) -> (record:
    DeviceConfiguration)
    requires
        config.expected_step_count <= MAX_PROFILE_STEPS,
    ensures
        is_configuration_of(record, header, config),
{
    let mut heater_steps: Vec<HeaterStepConfiguration> = Vec::new();
    let mut index: usize = 0;
    while index < config.expected_step_count as usize
        invariant
            index <= config.expected_step_count <= MAX_PROFILE_STEPS,
            heater_steps@.len() == index,
            forall|i: int|
                0 <= i < index ==> #[trigger] heater_steps@[i] == heater_record(config.steps[i], i),
        decreases config.expected_step_count - index,
    {
        let step = config.steps[index];
        heater_steps.push(
            HeaterStepConfiguration {
                step_index: index as u8,
                target_temperature_celsius: step.target_temperature_celsius,
                configured_duration_us: step.configured_duration_us,
                repetition_multiplier: step.repetition_multiplier,
                readback_heater_current: step.readback_heater_current,
                programmed_heater_resistance: step.programmed_heater_resistance,
                programmed_gas_wait: step.programmed_gas_wait,
            },
        );
        index = index + 1;
    }
    assert(heater_steps@ =~= heater_records(config));
    DeviceConfiguration {
        identity: record_identity(header),
        repeated: header.common.flags & COMMON_FLAG_CONFIG_REPEAT != 0,
        config_flags: config.flags,
        firmware_version: config.firmware_version,
        firmware_build_flags: config.firmware_build_flags,
        firmware_build_id: config.firmware_build_id,
        sensor_chip_id: config.sensor_chip_id,
        sensor_variant: config.sensor_variant,
        sensor_i2c_address: config.sensor_i2c_address,
        temperature_oversampling: config.temperature_oversampling,
        humidity_oversampling: config.humidity_oversampling,
        pressure_oversampling: config.pressure_oversampling,
        iir_filter: config.iir_filter,
        standby_time: config.standby_time,
        operation_mode: config.operation_mode,
        heater_enabled: config.heater_enabled,
        parallel_requested_shared_wait_ms: config.parallel_requested_shared_wait_ms,
        parallel_shared_wait_register: config.parallel_shared_wait_register,
        parallel_quantized_shared_wait_us: config.parallel_quantized_shared_wait_us,
        tphg_duration_us: config.tphg_duration_us,
        expected_profile_duration_us: config.expected_profile_duration_us,
        profile_id: config.profile_id,
        profile_version: config.profile_version,
        expected_step_count: config.expected_step_count,
        heater_readback_valid_bitmap: config.heater_readback_valid_bitmap,
        calibration_hash_algorithm: config.calibration_hash_algorithm,
        calibration_hash: config.calibration_hash,
        scan_interval_ms: config.scan_interval_ms,
        config_repeat_interval_scans: config.config_repeat_interval_scans,
        output_routes: config.output_routes,
        radio_frequency_hz: config.radio_frequency_hz,
        radio_tx_power_dbm: config.radio_tx_power_dbm,
        radio_spreading_factor: config.radio_spreading_factor,
        radio_bandwidth_hz: config.radio_bandwidth_hz,
        radio_coding_rate_numerator: config.radio_coding_rate_numerator,
        radio_coding_rate_denominator: config.radio_coding_rate_denominator,
        radio_preamble_symbols: config.radio_preamble_symbols,
        radio_header_mode: config.radio_header_mode,
        radio_phy_crc_enabled: config.radio_phy_crc_enabled,
        radio_iq_inverted: config.radio_iq_inverted,
        radio_sync_word: config.radio_sync_word,
        max_frame_len: config.max_frame_len,
        profile_steps_per_fragment: config.profile_steps_per_fragment,
        heater_steps,
    }
}

/// Convert one validated v2 health frame without inferring battery state.
#[must_use]
pub fn device_health(header: Header, health: types::DeviceHealth) -> (record: DeviceHealth)
    ensures
        record == health_record(header, health),
{
    DeviceHealth {
        identity: record_identity(header),
        health_flags: health.flags,
        reset_cause_raw: health.reset_cause_raw,
        successful_sensor_scans: health.successful_sensor_scans,
        failed_sensor_scans: health.failed_sensor_scans,
        incomplete_profiles: health.incomplete_profiles,
        i2c_errors: health.i2c_errors,
        radio_tx_errors: health.radio_tx_errors,
        dropped_profiles: health.dropped_profiles,
        dropped_fragments: health.dropped_fragments,
        overwritten_fields: health.overwritten_fields,
        current_sample_interval_ms: health.current_sample_interval_ms,
        firmware_version: health.firmware_version,
        profile_id: health.profile_id,
        profile_version: health.profile_version,
        last_sensor_error: health.last_sensor_error,
        last_radio_error: health.last_radio_error,
        calibrated_mcu_temperature_centi_celsius: health.calibrated_mcu_temperature_centi_celsius,
        calibrated_vdd_millivolt: health.calibrated_vdd_millivolt,
    }
}

/// Converts one profile step.
fn profile_step(step: types::ProfileStep) -> (record: ProfileStep)
    ensures
        record == step_record(step),
{
    ProfileStep {
        step_index: step.step_index,
        gas_index: step.gas_index,
        measurement_index: step.measurement_index,
        status_bits: step.status,
        raw_measurement_status: step.raw_measurement_status,
        raw_gas_status: step.raw_gas_status,
        target_temperature_celsius: step.target_temperature_celsius,
        configured_duration_us: step.configured_duration_us,
        relative_offset_us: step.offset_us,
        temperature_centi_celsius: step.temperature_centi_celsius,
        pressure_pascal: step.pressure_pascal,
        humidity_milli_percent_rh: step.humidity_milli_percent_rh,
        gas_resistance_ohm: step.gas_resistance_ohm,
        raw_temperature_adc: step.temperature_adc,
        raw_pressure_adc: step.pressure_adc,
        raw_humidity_adc: step.humidity_adc,
        raw_gas_resistance_adc: step.gas_resistance_adc,
        raw_gas_range: step.gas_range,
        repetition_multiplier: step.repetition_multiplier,
        raw_heater_resistance: step.heater_resistance,
        raw_heater_current: step.heater_current,
        raw_gas_wait: step.gas_wait,
    }
}

/// Decode every step carried by one validated fragment into owned records.
///
/// # Errors
///
/// Returns the codec's bounds error if a supposedly validated step cannot be
/// extracted. No sensor-quality condition is treated as an error.
pub fn fragment_steps(view: ProfileFragmentView<'_>) -> (result: Result<Vec<ProfileStep>, Error>)
    requires
        view.valid(),
    ensures
        result is Ok,
        result->Ok_0@ == step_records(view.model().steps),
{
    let mut steps: Vec<ProfileStep> = Vec::new();
    let mut local_index: usize = 0;
    while local_index < view.steps_in_fragment as usize
        invariant
            local_index <= view.steps_in_fragment,
            view.valid(),
            view.model().steps.len() == view.steps_in_fragment,
            steps@.len() == local_index,
            forall|i: int|
                0 <= i < local_index ==> #[trigger] steps@[i] == step_record(view.model().steps[i]),
        decreases view.steps_in_fragment - local_index,
    {
        let step = view.step(local_index)?;
        steps.push(profile_step(step));
        local_index = local_index + 1;
    }
    assert(steps@ =~= step_records(view.model().steps));
    Ok(steps)
}

/// Convert a non-profile v2 frame to its server record.
#[derive(Clone, Debug, Eq, PartialEq)]
pub enum ConvertedRecord {
    DeviceConfiguration(DeviceConfiguration),
    DeviceHealth(DeviceHealth),
}

/// Convert one non-profile decoded frame, leaving fragments for reassembly.
#[must_use]
pub fn convert_non_profile(frame: DecodedFrame<'_>) -> (record: Option<ConvertedRecord>)
    requires
        frame matches DecodedFrame::DeviceConfig { config, .. } ==> config.expected_step_count
            <= MAX_PROFILE_STEPS,
    ensures
        match frame {
            DecodedFrame::DeviceConfig { header, config } => record matches Some(
                ConvertedRecord::DeviceConfiguration(converted),
            ) && is_configuration_of(converted, header, config),
            DecodedFrame::DeviceHealth { header, health } => record == Some(
                ConvertedRecord::DeviceHealth(health_record(header, health)),
            ),
            DecodedFrame::ProfileFragment(_) => record is None,
        },
{
    match frame {
        DecodedFrame::DeviceConfig { header, config } => {
            Some(ConvertedRecord::DeviceConfiguration(device_configuration(header, config)))
        },
        DecodedFrame::DeviceHealth { header, health } => Some(
            ConvertedRecord::DeviceHealth(device_health(header, health)),
        ),
        DecodedFrame::ProfileFragment(_) => None,
    }
}

} // verus!
