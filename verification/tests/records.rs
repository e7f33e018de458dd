use vesta::records::{
    DeviceConfiguration, HeaterStepConfiguration, ProfileScan, ProfileStep, RecordError,
    RecordIdentity,
};

const IDENTITY: RecordIdentity = RecordIdentity {
    common_flags: 0,
    node_id: 1,
    boot_id: 2,
    scan_sequence: 3,
    uptime_ms: 4,
    config_id: 0,
    reset_cause_flags: 0,
};

fn step(index: u8) -> ProfileStep {
    ProfileStep {
        step_index: index,
        gas_index: index,
        measurement_index: index,
        status_bits: 0xb0,
        raw_measurement_status: 0x80 | index,
        raw_gas_status: 0x35,
        target_temperature_celsius: 300,
        configured_duration_us: 100_000,
        relative_offset_us: u32::from(index) * 100_000,
        temperature_centi_celsius: 2_500,
        pressure_pascal: 101_325,
        humidity_milli_percent_rh: 40_000,
        gas_resistance_ohm: 20_000,
        raw_temperature_adc: 1,
        raw_pressure_adc: 2,
        raw_humidity_adc: 3,
        raw_gas_resistance_adc: 4,
        raw_gas_range: 5,
        repetition_multiplier: 1,
        raw_heater_resistance: 6,
        raw_heater_current: 7,
        raw_gas_wait: 8,
    }
}

fn scan(steps: Vec<ProfileStep>, reported_missing_steps: u16) -> ProfileScan {
    let observed = 3 - reported_missing_steps.count_ones() as u8;
    ProfileScan {
        identity: IDENTITY,
        profile_id: 5,
        profile_version: 6,
        expected_steps: 3,
        observed_unique_steps: observed,
        observed_field_count: u16::from(observed),
        reported_missing_steps,
        duplicate_steps: 0,
        duration_us: 300_000,
        collection_flags: 0,
        finish_reason: 0,
        duplicate_count: 0,
        overwritten_field_count: 0,
        out_of_order_count: 0,
        ambiguous_index_jump_count: 0,
        invalid_gas_index_count: 0,
        intermediate_field_count: 0,
        profile_rollover_count: 0,
        fields_after_rollover_count: 0,
        poll_count: 0,
        expected_fragment_count: 1,
        received_fragment_bitmap: 1,
        duplicate_fragment_count: 0,
        conflicting_fragment_count: 0,
        steps,
    }
}

fn heater_step(step_index: u8, target_temperature_celsius: u16) -> HeaterStepConfiguration {
    HeaterStepConfiguration {
        step_index,
        target_temperature_celsius,
        configured_duration_us: 100_000,
        repetition_multiplier: 1,
        readback_heater_current: 0,
        programmed_heater_resistance: 0,
        programmed_gas_wait: 0,
    }
}

fn configuration() -> DeviceConfiguration {
    DeviceConfiguration {
        identity: IDENTITY,
        repeated: false,
        config_flags: 0,
        firmware_version: [0, 0, 1],
        firmware_build_flags: 0,
        firmware_build_id: 0,
        sensor_chip_id: 0x61,
        sensor_variant: 1,
        sensor_i2c_address: 0x76,
        temperature_oversampling: 2,
        humidity_oversampling: 1,
        pressure_oversampling: 3,
        iir_filter: 0,
        standby_time: 0,
        operation_mode: 2,
        heater_enabled: 1,
        parallel_requested_shared_wait_ms: 0,
        parallel_shared_wait_register: 0,
        parallel_quantized_shared_wait_us: 0,
        tphg_duration_us: 0,
        expected_profile_duration_us: 0,
        profile_id: 7,
        profile_version: 1,
        expected_step_count: 2,
        heater_readback_valid_bitmap: 0,
        calibration_hash_algorithm: 0,
        calibration_hash: 0,
        scan_interval_ms: 60_000,
        config_repeat_interval_scans: 1,
        output_routes: 1,
        radio_frequency_hz: 868_100_000,
        radio_tx_power_dbm: 14,
        radio_spreading_factor: 7,
        radio_bandwidth_hz: 125_000,
        radio_coding_rate_numerator: 4,
        radio_coding_rate_denominator: 5,
        radio_preamble_symbols: 8,
        radio_header_mode: 0,
        radio_phy_crc_enabled: 1,
        radio_iq_inverted: 0,
        radio_sync_word: 0x1424,
        max_frame_len: 231,
        profile_steps_per_fragment: 3,
        heater_steps: vec![heater_step(0, 200), heater_step(1, 300)],
    }
}

#[test]
fn validates_complete_and_explicitly_incomplete_profiles() {
    let complete = scan(vec![step(0), step(1), step(2)], 0);
    assert_eq!(complete.computed_missing_steps(), 0);
    assert_eq!(complete.validate(), Ok(()));

    let incomplete = scan(vec![step(0), step(2)], 0b010);
    assert_eq!(incomplete.computed_missing_steps(), 0b010);
    assert_eq!(incomplete.validate(), Ok(()));
}

#[test]
fn rejects_duplicate_and_inconsistent_profile_metadata() {
    assert_eq!(
        scan(vec![step(0), step(0)], 0b110).validate(),
        Err(RecordError::DuplicateStepIndex(0))
    );
    assert_eq!(
        scan(vec![step(0), step(2)], 0).validate(),
        Err(RecordError::MissingBitmapMismatch {
            reported: 0,
            computed: 0b010,
        })
    );
}

#[test]
fn exposes_sensor_validity_without_rejecting_bad_quality() {
    let mut measurement = step(0);
    assert!(measurement.is_new_data());
    assert!(measurement.is_gas_valid());
    assert!(measurement.is_heater_stable());

    measurement.status_bits = 0;
    assert!(!measurement.is_new_data());
    assert!(!measurement.is_gas_valid());
    assert!(!measurement.is_heater_stable());
    assert_eq!(scan(vec![measurement], 0b110).validate(), Ok(()));
}

#[test]
fn configuration_requires_a_bounded_contiguous_profile() {
    let mut configuration = configuration();
    assert_eq!(configuration.validate(), Ok(()));

    configuration.heater_steps[1].step_index = 2;
    assert_eq!(
        configuration.validate(),
        Err(RecordError::ConfigurationStepOrder {
            position: 1,
            step_index: 2,
        })
    );
    configuration.heater_steps.clear();
    assert_eq!(
        configuration.validate(),
        Err(RecordError::InvalidExpectedSteps(0))
    );
}

#[test]
fn every_structural_fault_of_a_scan_has_its_own_error() {
    let complete = || scan(vec![step(0), step(1), step(2)], 0);

    let mut empty = complete();
    empty.expected_steps = 0;
    assert_eq!(empty.validate(), Err(RecordError::InvalidExpectedSteps(0)));

    let mut wide = complete();
    wide.reported_missing_steps = 0b1000;
    assert_eq!(
        wide.validate(),
        Err(RecordError::MissingBitmapOutOfRange { bitmap: 0b1000, expected_steps: 3 })
    );

    let mut fragments = complete();
    fragments.expected_fragment_count = 2;
    assert_eq!(
        fragments.validate(),
        Err(RecordError::InvalidFragmentCount { count: 2, expected_steps: 3 })
    );

    let mut bitmap = complete();
    bitmap.received_fragment_bitmap = 0b11;
    assert_eq!(
        bitmap.validate(),
        Err(RecordError::FragmentBitmapOutOfRange { bitmap: 0b11, expected_fragments: 1 })
    );

    assert_eq!(
        scan(vec![step(3)], 0b111).validate(),
        Err(RecordError::StepIndexOutOfRange { index: 3, expected_steps: 3 })
    );

    let mut unreceived = complete();
    unreceived.received_fragment_bitmap = 0;
    assert_eq!(
        unreceived.validate(),
        Err(RecordError::StepWithoutFragment { index: 0, fragment_index: 0 })
    );

    let mut observed = complete();
    observed.observed_unique_steps = 2;
    assert_eq!(
        observed.validate(),
        Err(RecordError::ObservedStepsMismatch { reported: 2, computed: 3 })
    );

    let mut fields = complete();
    fields.observed_field_count = 2;
    assert_eq!(
        fields.validate(),
        Err(RecordError::ObservedFieldsTooFew { fields: 2, unique_steps: 3 })
    );
}

#[test]
fn steps_of_missing_radio_fragments_are_unavailable_but_not_reported_missing() {
    let mut partial = scan(Vec::new(), 0);
    partial.expected_steps = 6;
    partial.expected_fragment_count = 2;
    partial.received_fragment_bitmap = 0b10;
    partial.observed_unique_steps = 6;
    partial.observed_field_count = 6;
    partial.steps = vec![step(3), step(4), step(5)];
    assert_eq!(partial.validate(), Ok(()));
    assert!(!partial.is_transport_complete());
    assert_eq!(partial.missing_fragment_bitmap(), 0b01);
    assert_eq!(partial.computed_missing_steps(), 0b000_111);
    assert_eq!(partial.computed_unavailable_steps(), 0b000_111);
}

#[test]
fn structural_faults_have_readable_messages() {
    assert_eq!(
        RecordError::InvalidExpectedSteps(11).message(),
        "invalid expected heater-step count 11"
    );
    assert_eq!(
        RecordError::MissingBitmapMismatch { reported: 0, computed: 2 }.message(),
        "reported missing-step bitmap 0x0000 differs from decoded bitmap 0x0002"
    );
    assert_eq!(
        RecordError::ConfigurationStepOrder { position: 1, step_index: 2 }.message(),
        "heater-step at profile position 1 declares index 2"
    );
}
