//! What holds of records as a whole: each field of a record is the integer that stands
//! at that field's place in the received frame.

use vstd::prelude::*;

use crate::convert;
use crate::records;
use crate::v2::config;
use crate::v2::frame;
use crate::v2::frame::FrameModel;
use crate::v2::header;
use crate::v2::health;
use crate::v2::types::HEADER_LEN;
use crate::wire;

verus! {

/// The identity of a record holds the common fields at their places in the frame's
/// header: the flags at byte 5, the node at 10, the boot nonce at 18, the sequence at
/// 26, the uptime at 30, the configuration at 38 and the reset cause at 46.
pub proof fn law_identity_is_read_from_the_header(bytes: Seq<u8>)
    requires
        frame::decoded(bytes) is Ok,
    ensures
        ({
            let identity = convert::identity_of(frame::decoded(bytes)->Ok_0.header());
            &&& identity.common_flags == bytes[5]
            &&& identity.node_id == wire::be64(bytes, 10)
            &&& identity.boot_id == wire::be64(bytes, 18)
            &&& identity.scan_sequence == wire::be32(bytes, 26)
            &&& identity.uptime_ms == wire::be64(bytes, 30)
            &&& identity.config_id == wire::be64(bytes, 38)
            &&& identity.reset_cause_flags == wire::be16(bytes, 46)
        }),
{
}

/// The record of a health frame holds every counter, code and version at its place in
/// the frame's payload, and each optional reading where the frame carries it: the
/// temperature is the extension of type 1 and the supply voltage the one of type 2.
pub proof fn law_health_record_is_read_from_the_payload(
    bytes: Seq<u8>,
    record: records::DeviceHealth,
)
    requires
        frame::decoded(bytes) matches Ok(FrameModel::DeviceHealth { header, health }) && record
            == convert::health_record(header, health),
    ensures
        ({
            let payload = bytes.skip(48);
            let identity = record.identity;
            &&& identity.common_flags == bytes[5]
            &&& identity.node_id == wire::be64(bytes, 10)
            &&& identity.boot_id == wire::be64(bytes, 18)
            &&& identity.scan_sequence == wire::be32(bytes, 26)
            &&& identity.uptime_ms == wire::be64(bytes, 30)
            &&& identity.config_id == wire::be64(bytes, 38)
            &&& identity.reset_cause_flags == wire::be16(bytes, 46)
            &&& record.health_flags == payload[1]
            &&& record.reset_cause_raw == wire::be32(payload, 2)
            &&& record.successful_sensor_scans == wire::be32(payload, 6)
            &&& record.failed_sensor_scans == wire::be32(payload, 10)
            &&& record.incomplete_profiles == wire::be32(payload, 14)
            &&& record.i2c_errors == wire::be32(payload, 18)
            &&& record.radio_tx_errors == wire::be32(payload, 22)
            &&& record.dropped_profiles == wire::be32(payload, 26)
            &&& record.dropped_fragments == wire::be32(payload, 30)
            &&& record.overwritten_fields == wire::be32(payload, 34)
            &&& record.current_sample_interval_ms == wire::be32(payload, 38)
            &&& record.firmware_version[0] == payload[42]
            &&& record.firmware_version[1] == payload[43]
            &&& record.firmware_version[2] == payload[44]
            &&& record.profile_id == wire::be16(payload, 45)
            &&& record.profile_version == wire::be16(payload, 47)
            &&& record.last_sensor_error == wire::be16(payload, 49)
            &&& record.last_radio_error == wire::be16(payload, 51)
            &&& record.calibrated_mcu_temperature_centi_celsius == if payload.len() > 54
                && payload[54] == 1 {
                Some(wire::be_i16(payload, 56))
            } else {
                None
            }
            &&& record.calibrated_vdd_millivolt == if payload.len() > 54 && payload[54] == 2 {
                Some(wire::be16(payload, 56))
            } else if payload.len() > 58 {
                Some(wire::be16(payload, 60))
            } else {
                None
            }
            &&& payload.len() == 54 + payload[53]
        }),
{
    let header = header::decoded_header(bytes)->Ok_0;
    let payload = bytes.subrange(HEADER_LEN as int, bytes.len() as int);
    assert(payload =~= bytes.skip(48));
    assert(health::decoded_health(header, payload) is Ok);
    health::lemma_extension_shapes(payload);
}

/// The record of a configuration frame holds every setting at its place in the frame's
/// payload, and its heater steps in order, each at its place behind the settings.
#[verifier::spinoff_prover]
#[verifier::rlimit(30)]
pub proof fn law_configuration_is_read_from_the_payload(
    bytes: Seq<u8>,
    record: records::DeviceConfiguration,
)
    requires
        frame::decoded(bytes) matches Ok(FrameModel::DeviceConfig { header, config })
            && convert::is_configuration_of(record, header, config),
    ensures
        ({
            let payload = bytes.skip(48);
            let identity = record.identity;
            &&& identity.common_flags == bytes[5]
            &&& identity.node_id == wire::be64(bytes, 10)
            &&& identity.boot_id == wire::be64(bytes, 18)
            &&& identity.scan_sequence == wire::be32(bytes, 26)
            &&& identity.uptime_ms == wire::be64(bytes, 30)
            &&& identity.config_id == wire::be64(bytes, 38)
            &&& identity.reset_cause_flags == wire::be16(bytes, 46)
            &&& record.repeated == (bytes[5] & 0x04 != 0)
            &&& record.config_flags == payload[1]
            &&& record.firmware_version[0] == payload[2]
            &&& record.firmware_version[1] == payload[3]
            &&& record.firmware_version[2] == payload[4]
            &&& record.firmware_build_flags == payload[5]
            &&& record.firmware_build_id == wire::be64(payload, 6)
            &&& record.sensor_chip_id == payload[14]
            &&& record.sensor_variant == payload[15]
            &&& record.sensor_i2c_address == payload[16]
            &&& record.temperature_oversampling == payload[17]
            &&& record.humidity_oversampling == payload[18]
            &&& record.pressure_oversampling == payload[19]
            &&& record.iir_filter == payload[20]
            &&& record.standby_time == payload[21]
            &&& record.operation_mode == payload[22]
            &&& record.heater_enabled == payload[23]
            &&& record.parallel_requested_shared_wait_ms == wire::be16(payload, 24)
            &&& record.parallel_shared_wait_register == payload[26]
            &&& record.parallel_quantized_shared_wait_us == wire::be32(payload, 27)
            &&& record.tphg_duration_us == wire::be32(payload, 31)
            &&& record.expected_profile_duration_us == wire::be32(payload, 35)
            &&& record.profile_id == wire::be16(payload, 39)
            &&& record.profile_version == wire::be16(payload, 41)
            &&& record.expected_step_count == payload[43]
            &&& record.heater_readback_valid_bitmap == wire::be16(payload, 44)
            &&& record.calibration_hash_algorithm == payload[46]
            &&& record.calibration_hash == wire::be64(payload, 47)
            &&& record.scan_interval_ms == wire::be32(payload, 55)
            &&& record.config_repeat_interval_scans == wire::be16(payload, 59)
            &&& record.output_routes == payload[61]
            &&& record.radio_frequency_hz == wire::be32(payload, 62)
            &&& record.radio_tx_power_dbm == wire::be_i8(payload, 66)
            &&& record.radio_spreading_factor == payload[67]
            &&& record.radio_bandwidth_hz == wire::be32(payload, 68)
            &&& record.radio_coding_rate_numerator == payload[72]
            &&& record.radio_coding_rate_denominator == payload[73]
            &&& record.radio_preamble_symbols == wire::be16(payload, 74)
            &&& record.radio_header_mode == payload[76]
            &&& record.radio_phy_crc_enabled == payload[77]
            &&& record.radio_iq_inverted == payload[78]
            &&& record.radio_sync_word == wire::be16(payload, 79)
            &&& record.max_frame_len == payload[81]
            &&& record.profile_steps_per_fragment == payload[82]
            &&& record.heater_steps@.len() == payload[43]
            &&& payload.len() == 83 + 10 * payload[43]
        }),
        forall|k: int|
            0 <= k < record.heater_steps@.len() ==> ({
                let payload = bytes.skip(48);
                let step = #[trigger] record.heater_steps@[k];
                &&& step.step_index == k
                &&& step.target_temperature_celsius == wire::be16(payload, 83 + 10 * k)
                &&& step.configured_duration_us == wire::be32(payload, 83 + 10 * k + 2)
                &&& step.repetition_multiplier == payload[83 + 10 * k + 6]
                &&& step.readback_heater_current == payload[83 + 10 * k + 7]
                &&& step.programmed_heater_resistance == payload[83 + 10 * k + 8]
                &&& step.programmed_gas_wait == payload[83 + 10 * k + 9]
            }),
{
    let header = header::decoded_header(bytes)->Ok_0;
    let payload = bytes.subrange(HEADER_LEN as int, bytes.len() as int);
    assert(payload =~= bytes.skip(48));
    assert(config::decoded_config(header, payload) is Ok);
    let settings = config::config_at(payload);
    assert forall|k: int| 0 <= k < payload[43] implies settings.steps[k]
        == #[trigger] config::heater_step_at(payload, 83 + 10 * k) by {
        assert(settings.steps[k] == config::heater_slot(payload, k));
    }
    assert forall|k: int| 0 <= k < record.heater_steps@.len() implies (
    #[trigger] record.heater_steps@[k]) == convert::heater_record(
        config::heater_step_at(payload, 83 + 10 * k),
        k,
    ) by {
        assert(settings.steps[k] == config::heater_step_at(payload, 83 + 10 * k));
    }
}

/// The record of a fragment's step `k` holds every reading at its place in the frame's
/// payload: the steps stand one behind the other behind the scan's summary, 47 bytes
/// each.
pub proof fn law_step_records_are_read_from_the_payload(bytes: Seq<u8>, k: int)
    requires
        frame::decoded(bytes) matches Ok(FrameModel::ProfileFragment(fragment)) && 0 <= k
            < fragment.steps.len(),
    ensures
        frame::decoded(bytes) matches Ok(FrameModel::ProfileFragment(fragment)) && {
            let payload = bytes.skip(48);
            let records = convert::step_records(fragment.steps);
            let step = records[k];
            let at = 42 + 47 * k;
            &&& records.len() == payload[1]
            &&& step.step_index == payload[at]
            &&& step.gas_index == payload[at + 1]
            &&& step.measurement_index == payload[at + 2]
            &&& step.status_bits == payload[at + 3]
            &&& step.raw_measurement_status == payload[at + 4]
            &&& step.raw_gas_status == payload[at + 5]
            &&& step.target_temperature_celsius == wire::be16(payload, at + 6)
            &&& step.configured_duration_us == wire::be32(payload, at + 8)
            &&& step.relative_offset_us == wire::be32(payload, at + 12)
            &&& step.temperature_centi_celsius == wire::be_i16(payload, at + 16)
            &&& step.pressure_pascal == wire::be32(payload, at + 18)
            &&& step.humidity_milli_percent_rh == wire::be32(payload, at + 22)
            &&& step.gas_resistance_ohm == wire::be32(payload, at + 26)
            &&& step.raw_temperature_adc == wire::be32(payload, at + 30)
            &&& step.raw_pressure_adc == wire::be32(payload, at + 34)
            &&& step.raw_humidity_adc == wire::be16(payload, at + 38)
            &&& step.raw_gas_resistance_adc == wire::be16(payload, at + 40)
            &&& step.raw_gas_range == payload[at + 42]
            &&& step.repetition_multiplier == payload[at + 43]
            &&& step.raw_heater_resistance == payload[at + 44]
            &&& step.raw_heater_current == payload[at + 45]
            &&& step.raw_gas_wait == payload[at + 46]
        },
{
    let payload = bytes.subrange(HEADER_LEN as int, bytes.len() as int);
    assert(payload =~= bytes.skip(48));
}

} // verus!
