use vesta::analysis::{
    extract_profile_features, extract_profile_features_with_configuration, AnalysisSample,
    QualityFlags, TemporalFeatureExtractor, TemporalFeatures,
};
use vesta::decode_hex;
use vesta::records::{
    DeviceConfiguration, HeaterStepConfiguration, ProfileScan, ProfileStep, RecordIdentity,
};
use vesta::v2::{
    COLLECTION_FLAG_CONFIG_MISMATCH, COLLECTION_FLAG_DUPLICATE, COLLECTION_FLAG_I2C_ERROR,
    COLLECTION_FLAG_OVERWRITTEN, COLLECTION_FLAG_SENSOR_RECONFIGURED,
    COLLECTION_FLAG_STALE_PRE_SCAN_FIELDS, COMMON_FLAG_BOOT_ID_VALID,
    CONFIG_FLAG_SENSOR_CONFIG_READ_BACK, FINISH_REASON_COMPLETE, FINISH_REASON_TIMEOUT,
};

const FIXTURE: &str = "565301b001020304050607080a0b0c0dfb2e00018bcd0000b26e000f12060007eed00005902075300200080203040506";

fn celsius(features: &TemporalFeatures) -> f64 {
    f64::from(features.temperature_centi_celsius) / 100.0
}

fn percent_rh(features: &TemporalFeatures) -> f64 {
    f64::from(features.humidity_milli_percent_rh) / 1_000.0
}

fn per_minute(features: &TemporalFeatures, amount: f64) -> f64 {
    let elapsed = std::time::Duration::from_micros(features.elapsed_us.unwrap());
    amount / (elapsed.as_secs_f64() / 60.0)
}

fn temperature_rate(features: &TemporalFeatures) -> Option<f64> {
    let change = features.change?;
    Some(per_minute(features, f64::from(change.temperature_centi_celsius) / 100.0))
}

fn humidity_rate(features: &TemporalFeatures) -> Option<f64> {
    let change = features.change?;
    Some(per_minute(features, change.humidity_milli_percent_rh as f64 / 1_000.0))
}

fn gas_log_rate(features: &TemporalFeatures) -> Option<f64> {
    let change = features.change?;
    let current = f64::from(features.gas_resistance_ohm).ln();
    let prior = f64::from(change.prior_gas_resistance_ohm).ln();
    Some(per_minute(features, current - prior))
}

fn profile_step(index: u8, gas: u32, status_bits: u8) -> ProfileStep {
    ProfileStep {
        step_index: index,
        gas_index: index,
        measurement_index: index,
        status_bits,
        raw_measurement_status: (status_bits & 0x80) | index,
        raw_gas_status: (status_bits & 0x30) | 5,
        target_temperature_celsius: 200 + u16::from(index) * 50,
        configured_duration_us: 100_000,
        relative_offset_us: u32::from(index) * 100_000,
        temperature_centi_celsius: 2_500,
        pressure_pascal: 101_325,
        humidity_milli_percent_rh: 40_000,
        gas_resistance_ohm: gas,
        raw_temperature_adc: 1,
        raw_pressure_adc: 2,
        raw_humidity_adc: 3,
        raw_gas_resistance_adc: 4,
        raw_gas_range: 5,
        repetition_multiplier: 1,
        raw_heater_resistance: 6,
        raw_heater_current: 7,
        raw_gas_wait: 8,
    }
}

fn complete_profile_scan() -> ProfileScan {
    ProfileScan {
        identity: RecordIdentity {
            common_flags: COMMON_FLAG_BOOT_ID_VALID,
            node_id: 1,
            boot_id: 2,
            scan_sequence: 3,
            uptime_ms: 4,
            config_id: 7,
            reset_cause_flags: 0,
        },
        profile_id: 5,
        profile_version: 6,
        expected_steps: 3,
        observed_unique_steps: 3,
        observed_field_count: 3,
        reported_missing_steps: 0,
        duplicate_steps: 0,
        duration_us: 300_000,
        collection_flags: 0,
        finish_reason: FINISH_REASON_COMPLETE,
        duplicate_count: 0,
        overwritten_field_count: 0,
        out_of_order_count: 0,
        ambiguous_index_jump_count: 0,
        invalid_gas_index_count: 0,
        intermediate_field_count: 0,
        profile_rollover_count: 0,
        fields_after_rollover_count: 0,
        poll_count: 6,
        expected_fragment_count: 1,
        received_fragment_bitmap: 1,
        duplicate_fragment_count: 0,
        conflicting_fragment_count: 0,
        steps: vec![
            profile_step(2, 30_000, 0xb0),
            profile_step(0, 10_000, 0xb0),
            profile_step(1, 20_000, 0xb0),
        ],
    }
}

fn matching_configuration(scan: &ProfileScan) -> DeviceConfiguration {
    DeviceConfiguration {
        identity: scan.identity,
        repeated: true,
        config_flags: CONFIG_FLAG_SENSOR_CONFIG_READ_BACK,
        firmware_version: [2, 0, 0],
        firmware_build_flags: 0,
        firmware_build_id: 1,
        sensor_chip_id: 0x61,
        sensor_variant: 1,
        sensor_i2c_address: 0x76,
        temperature_oversampling: 2,
        humidity_oversampling: 1,
        pressure_oversampling: 16,
        iir_filter: 0,
        standby_time: 0,
        operation_mode: 2,
        heater_enabled: 1,
        parallel_requested_shared_wait_ms: 99,
        parallel_shared_wait_register: 0x73,
        parallel_quantized_shared_wait_us: 97_308,
        tphg_duration_us: 41_590,
        expected_profile_duration_us: scan.duration_us,
        profile_id: scan.profile_id,
        profile_version: scan.profile_version,
        expected_step_count: scan.expected_steps,
        heater_readback_valid_bitmap: (1_u16 << scan.expected_steps) - 1,
        calibration_hash_algorithm: 1,
        calibration_hash: 2,
        scan_interval_ms: 180_000,
        config_repeat_interval_scans: 6,
        output_routes: 1,
        radio_frequency_hz: 868_100_000,
        radio_tx_power_dbm: 5,
        radio_spreading_factor: 7,
        radio_bandwidth_hz: 125_000,
        radio_coding_rate_numerator: 4,
        radio_coding_rate_denominator: 5,
        radio_preamble_symbols: 8,
        radio_header_mode: 0,
        radio_phy_crc_enabled: 1,
        radio_iq_inverted: 0,
        radio_sync_word: 0x1424,
        max_frame_len: 231,
        profile_steps_per_fragment: 3,
        heater_steps: (0..scan.expected_steps)
            .map(|step_index| HeaterStepConfiguration {
                step_index,
                target_temperature_celsius: 200 + u16::from(step_index) * 50,
                configured_duration_us: 100_000,
                repetition_multiplier: 1,
                readback_heater_current: 7,
                programmed_heater_resistance: 6,
                programmed_gas_wait: 8,
            })
            .collect(),
    }
}

#[test]
fn v1_quality_and_temporal_features_preserve_exact_units() {
    let frame = decode_hex(FIXTURE).unwrap();
    let first = AnalysisSample::from_v1(&frame, 1_000);
    assert!(first.quality.is_empty());

    let mut extractor = TemporalFeatureExtractor::default();
    let first_features = extractor.ingest(first);
    assert!((celsius(&first_features) + 12.34).abs() < 1e-12);
    assert!((percent_rh(&first_features) - 45.678).abs() < 1e-12);
    assert_eq!(first_features.elapsed_ms, None);
    assert_eq!(first_features.elapsed_us, None);

    let mut second = first;
    second.sequence += 1;
    second.received_at_unix_ms += 60_000;
    second.temperature_centi_celsius += 100;
    second.humidity_milli_percent_rh -= 1_000;
    second.gas_resistance_ohm /= 2;
    let second_features = extractor.ingest(second);
    assert_eq!(second_features.elapsed_ms, Some(60_000));
    assert_eq!(second_features.elapsed_us, Some(60_000_000));
    assert_eq!(temperature_rate(&second_features), Some(1.0));
    assert_eq!(humidity_rate(&second_features), Some(-1.0));
    let gas_rate = gas_log_rate(&second_features).unwrap();
    assert!((gas_rate + core::f64::consts::LN_2).abs() < 1e-12);
}

#[test]
fn bad_quality_does_not_pollute_temporal_history() {
    let frame = decode_hex(FIXTURE).unwrap();
    let mut valid = AnalysisSample::from_v1(&frame, 1_000);
    let mut invalid = valid;
    invalid.received_at_unix_ms = 61_000;
    invalid.quality = QualityFlags::from_bits(QualityFlags::GAS_INVALID);
    valid.received_at_unix_ms = 121_000;

    let mut extractor = TemporalFeatureExtractor::default();
    let _ = extractor.ingest(AnalysisSample::from_v1(&frame, 1_000));
    assert_eq!(extractor.ingest(invalid).elapsed_ms, None);
    assert_eq!(extractor.ingest(valid).elapsed_ms, Some(120_000));
}

#[test]
fn profile_temporal_history_isolated_by_step_and_profile_definition() {
    let scan = complete_profile_scan();
    let step_zero = scan.steps.iter().find(|step| step.step_index == 0).unwrap();
    let step_one = scan.steps.iter().find(|step| step.step_index == 1).unwrap();
    let mut extractor = TemporalFeatureExtractor::default();

    let first = AnalysisSample::from_profile_step(&scan, step_zero, 1_000);
    assert_eq!(extractor.ingest(first).elapsed_ms, None);
    let other_step = AnalysisSample::from_profile_step(&scan, step_one, 61_000);
    assert_eq!(extractor.ingest(other_step).elapsed_ms, None);

    let mut other_profile = scan.clone();
    other_profile.identity.config_id += 1;
    other_profile.profile_version += 1;
    let other_profile_step = other_profile
        .steps
        .iter()
        .find(|step| step.step_index == 0)
        .unwrap();
    let changed_definition =
        AnalysisSample::from_profile_step(&other_profile, other_profile_step, 121_000);
    assert_eq!(extractor.ingest(changed_definition).elapsed_ms, None);

    let mut later_scan = scan.clone();
    later_scan.identity.scan_sequence += 1;
    later_scan.identity.uptime_ms += 180_000;
    let later_step = later_scan
        .steps
        .iter()
        .find(|step| step.step_index == 0)
        .unwrap();
    let same_series = AnalysisSample::from_profile_step(&later_scan, later_step, 181_000);
    assert_eq!(extractor.ingest(same_series).elapsed_ms, Some(180_000));
}

#[test]
fn unavailable_boot_nonce_never_builds_v2_temporal_history() {
    let mut scan = complete_profile_scan();
    scan.identity.common_flags &= !COMMON_FLAG_BOOT_ID_VALID;
    scan.identity.boot_id = 0;
    let step = scan.steps.iter().find(|step| step.step_index == 0).unwrap();
    let first = AnalysisSample::from_profile_step(&scan, step, 1_000);
    let second = AnalysisSample::from_profile_step(&scan, step, 61_000);
    assert_eq!(first.boot_id, None);
    assert_eq!(extract_profile_features(&scan).boot_id, None);

    let mut extractor = TemporalFeatureExtractor::default();
    assert_eq!(extractor.ingest(first).elapsed_ms, None);
    assert_eq!(extractor.ingest(second).elapsed_ms, None);
}

#[test]
fn profile_features_preserve_shape_and_gate_bad_steps() {
    let scan = complete_profile_scan();
    let features = extract_profile_features(&scan);
    assert!(features.profile_quality_usable);
    assert!(!features.configuration_resolved);
    assert!(!features.usable_for_analysis);
    let resolved =
        extract_profile_features_with_configuration(&scan, &matching_configuration(&scan));
    assert!(resolved.configuration_resolved);
    assert!(resolved.usable_for_analysis);
    let mut wrong_configuration = matching_configuration(&scan);
    wrong_configuration.identity.config_id ^= 1;
    let unresolved = extract_profile_features_with_configuration(&scan, &wrong_configuration);
    assert!(!unresolved.configuration_resolved);
    assert!(!unresolved.usable_for_analysis);
    for field in 0..6 {
        let mut mismatched = matching_configuration(&scan);
        match field {
            0 => mismatched.heater_steps[0].target_temperature_celsius += 1,
            1 => mismatched.heater_steps[0].configured_duration_us += 1,
            2 => mismatched.heater_steps[0].repetition_multiplier += 1,
            3 => mismatched.heater_steps[0].readback_heater_current += 1,
            4 => mismatched.heater_steps[0].programmed_heater_resistance += 1,
            5 => mismatched.heater_steps[0].programmed_gas_wait += 1,
            _ => unreachable!(),
        }
        let features = extract_profile_features_with_configuration(&scan, &mismatched);
        assert!(!features.configuration_resolved, "mismatched field {field}");
        assert!(!features.usable_for_analysis);
    }
    let mut missing_readback_flag = matching_configuration(&scan);
    missing_readback_flag.config_flags &= !CONFIG_FLAG_SENSOR_CONFIG_READ_BACK;
    assert!(missing_readback_flag.validate().is_ok());
    assert!(
        !extract_profile_features_with_configuration(&scan, &missing_readback_flag)
            .configuration_resolved
    );
    for bitmap in [0, 0b011] {
        let mut partial_readback = matching_configuration(&scan);
        partial_readback.heater_readback_valid_bitmap = bitmap;
        assert!(partial_readback.validate().is_ok());
        assert!(
            !extract_profile_features_with_configuration(&scan, &partial_readback)
                .configuration_resolved
        );
    }
    assert_eq!(features.config_id, scan.identity.config_id);
    assert_eq!(
        features
            .steps
            .iter()
            .map(|step| step.step_index)
            .collect::<Vec<_>>(),
        vec![0, 1, 2]
    );

    let mut invalid = scan;
    invalid.steps[1].status_bits = 0x80;
    let invalid_features = extract_profile_features(&invalid);
    assert!(!invalid_features.profile_quality_usable);
    assert_ne!(invalid_features.steps[0].quality_flags, 0);
}

#[test]
fn profile_analysis_rejects_noncomplete_and_collector_anomaly_scans() {
    let complete = complete_profile_scan();
    assert!(extract_profile_features(&complete).profile_quality_usable);

    let mut noncomplete = complete.clone();
    noncomplete.finish_reason = FINISH_REASON_TIMEOUT;
    assert!(!extract_profile_features(&noncomplete).profile_quality_usable);

    for flag in [
        COLLECTION_FLAG_CONFIG_MISMATCH,
        COLLECTION_FLAG_I2C_ERROR,
        COLLECTION_FLAG_OVERWRITTEN,
        COLLECTION_FLAG_STALE_PRE_SCAN_FIELDS,
        1 << 31,
    ] {
        let mut flagged = complete.clone();
        flagged.collection_flags = flag;
        assert!(!extract_profile_features(&flagged).profile_quality_usable);
    }

    let mut overwritten = complete.clone();
    overwritten.overwritten_field_count = 1;
    assert!(!extract_profile_features(&overwritten).profile_quality_usable);

    let mut out_of_order = complete.clone();
    out_of_order.out_of_order_count = 1;
    assert!(!extract_profile_features(&out_of_order).profile_quality_usable);

    let mut ambiguous_index = complete.clone();
    ambiguous_index.ambiguous_index_jump_count = 1;
    assert!(!extract_profile_features(&ambiguous_index).profile_quality_usable);

    let mut rollover = complete;
    rollover.profile_rollover_count = 1;
    assert!(!extract_profile_features(&rollover).profile_quality_usable);
}

#[test]
fn profile_without_a_valid_boot_nonce_is_never_analysis_ready() {
    let mut scan = complete_profile_scan();
    scan.identity.common_flags &= !COMMON_FLAG_BOOT_ID_VALID;
    scan.identity.boot_id = 0;
    let configuration = matching_configuration(&scan);

    let features = extract_profile_features_with_configuration(&scan, &configuration);
    assert!(!features.profile_quality_usable);
    assert!(features.configuration_resolved);
    assert!(!features.usable_for_analysis);
}

#[test]
fn complete_terminal_profile_allows_expected_polling_duplicates() {
    let mut scan = complete_profile_scan();
    scan.observed_field_count = 9;
    scan.duplicate_steps = 0b101;
    scan.duplicate_count = 4;
    scan.intermediate_field_count = 2;
    scan.collection_flags = COLLECTION_FLAG_DUPLICATE;
    assert!(extract_profile_features(&scan).profile_quality_usable);
}

#[test]
fn verified_sensor_reconfiguration_resets_only_the_exact_series_history() {
    let normal = complete_profile_scan();
    let normal_step = normal
        .steps
        .iter()
        .find(|step| step.step_index == 0)
        .unwrap();
    let mut extractor = TemporalFeatureExtractor::default();
    let first = AnalysisSample::from_profile_step(&normal, normal_step, 1_000);
    assert_eq!(extractor.ingest(first).elapsed_ms, None);

    let mut recovered = normal.clone();
    recovered.identity.scan_sequence += 1;
    recovered.identity.uptime_ms += 60_000;
    recovered.collection_flags = COLLECTION_FLAG_SENSOR_RECONFIGURED;
    let recovered_step = recovered
        .steps
        .iter()
        .find(|step| step.step_index == 0)
        .unwrap();
    assert!(extract_profile_features(&recovered).profile_quality_usable);
    let recovery = AnalysisSample::from_profile_step(&recovered, recovered_step, 61_000);
    assert!(recovery.reset_temporal_history);
    let recovery_features = extractor.ingest(recovery);
    assert!(recovery_features.temporal_history_reset);
    assert_eq!(recovery_features.elapsed_ms, None);

    let mut after = recovered.clone();
    after.identity.scan_sequence += 1;
    after.identity.uptime_ms += 60_000;
    after.collection_flags = 0;
    let after_step = after
        .steps
        .iter()
        .find(|step| step.step_index == 0)
        .unwrap();
    let after_sample = AnalysisSample::from_profile_step(&after, after_step, 121_000);
    assert_eq!(extractor.ingest(after_sample).elapsed_ms, Some(60_000));
}

#[test]
fn v2_rates_use_device_uptime_despite_delayed_and_out_of_order_delivery() {
    let first_scan = complete_profile_scan();
    let first_step = first_scan
        .steps
        .iter()
        .find(|step| step.step_index == 0)
        .unwrap();
    let first = AnalysisSample::from_profile_step(&first_scan, first_step, 500_000);

    let mut later_scan = first_scan.clone();
    later_scan.identity.scan_sequence += 1;
    later_scan.identity.uptime_ms += 60_000;
    later_scan.steps[1].temperature_centi_celsius += 100;
    let later_step = later_scan
        .steps
        .iter()
        .find(|step| step.step_index == 0)
        .unwrap();
    // This newer device sample arrived earlier according to the host clock.
    let later = AnalysisSample::from_profile_step(&later_scan, later_step, 100_000);

    let mut extractor = TemporalFeatureExtractor::default();
    assert_eq!(extractor.ingest(first).elapsed_us, None);
    let features = extractor.ingest(later);
    assert_eq!(features.received_at_unix_ms, 100_000);
    assert_eq!(features.elapsed_us, Some(60_000_000));
    assert_eq!(temperature_rate(&features), Some(1.0));

    let mut delayed_old_scan = first_scan.clone();
    delayed_old_scan.identity.uptime_ms += 30_000;
    delayed_old_scan.steps[1].temperature_centi_celsius += 500;
    let delayed_old_step = delayed_old_scan
        .steps
        .iter()
        .find(|step| step.step_index == 0)
        .unwrap();
    let delayed_old =
        AnalysisSample::from_profile_step(&delayed_old_scan, delayed_old_step, 900_000);
    let delayed_features = extractor.ingest(delayed_old);
    assert!(!delayed_features.temporal_history_reset);
    assert_eq!(delayed_features.elapsed_us, None);

    let mut newest_scan = later_scan.clone();
    newest_scan.identity.scan_sequence += 1;
    newest_scan.identity.uptime_ms += 60_000;
    newest_scan.steps[1].temperature_centi_celsius += 100;
    let newest_step = newest_scan
        .steps
        .iter()
        .find(|step| step.step_index == 0)
        .unwrap();
    let newest = AnalysisSample::from_profile_step(&newest_scan, newest_step, 200_000);
    let features = extractor.ingest(newest);
    assert_eq!(features.elapsed_us, Some(60_000_000));
    assert_eq!(temperature_rate(&features), Some(1.0));
}

#[test]
fn v2_step_offset_contributes_to_exact_elapsed_time() {
    let first_scan = complete_profile_scan();
    let first_step = first_scan
        .steps
        .iter()
        .find(|step| step.step_index == 0)
        .unwrap();
    let first = AnalysisSample::from_profile_step(&first_scan, first_step, 1_000);

    let mut second_scan = first_scan.clone();
    second_scan.identity.scan_sequence += 1;
    second_scan.identity.uptime_ms += 1_000;
    second_scan.steps[1].relative_offset_us += 500;
    let second_step = second_scan
        .steps
        .iter()
        .find(|step| step.step_index == 0)
        .unwrap();
    let second = AnalysisSample::from_profile_step(&second_scan, second_step, 2_000);

    let mut extractor = TemporalFeatureExtractor::default();
    let _ = extractor.ingest(first);
    let features = extractor.ingest(second);
    assert_eq!(features.elapsed_us, Some(1_000_500));
    assert_eq!(features.elapsed_ms, Some(1_000));
}

#[test]
fn lost_v2_scan_resets_history_instead_of_bridging_a_hidden_reconfiguration() {
    let first_scan = complete_profile_scan();
    let first_step = first_scan
        .steps
        .iter()
        .find(|step| step.step_index == 0)
        .unwrap();
    let first = AnalysisSample::from_profile_step(&first_scan, first_step, 1_000);

    // Sequence 4 could have carried SENSOR_RECONFIGURED but was lost in
    // transit. Sequence 5 must not derive a rate across that invisible gap.
    let mut after_gap_scan = first_scan.clone();
    after_gap_scan.identity.scan_sequence += 2;
    after_gap_scan.identity.uptime_ms += 120_000;
    let after_gap_step = after_gap_scan
        .steps
        .iter()
        .find(|step| step.step_index == 0)
        .unwrap();
    let after_gap = AnalysisSample::from_profile_step(&after_gap_scan, after_gap_step, 2_000);

    let mut extractor = TemporalFeatureExtractor::default();
    let _ = extractor.ingest(first);
    let reset = extractor.ingest(after_gap);
    assert!(reset.temporal_history_reset);
    assert_eq!(reset.elapsed_us, None);

    let mut next_scan = after_gap_scan.clone();
    next_scan.identity.scan_sequence += 1;
    next_scan.identity.uptime_ms += 60_000;
    let next_step = next_scan
        .steps
        .iter()
        .find(|step| step.step_index == 0)
        .unwrap();
    let next = AnalysisSample::from_profile_step(&next_scan, next_step, 3_000);
    let resumed = extractor.ingest(next);
    assert!(!resumed.temporal_history_reset);
    assert_eq!(resumed.elapsed_us, Some(60_000_000));
}

#[test]
fn v2_sequence_wrap_is_continuous() {
    let mut first_scan = complete_profile_scan();
    first_scan.identity.scan_sequence = u32::MAX;
    let first_step = first_scan
        .steps
        .iter()
        .find(|step| step.step_index == 0)
        .unwrap();
    let first = AnalysisSample::from_profile_step(&first_scan, first_step, 1_000);

    let mut wrapped_scan = first_scan.clone();
    wrapped_scan.identity.scan_sequence = 0;
    wrapped_scan.identity.uptime_ms += 60_000;
    let wrapped_step = wrapped_scan
        .steps
        .iter()
        .find(|step| step.step_index == 0)
        .unwrap();
    let wrapped = AnalysisSample::from_profile_step(&wrapped_scan, wrapped_step, 2_000);

    let mut extractor = TemporalFeatureExtractor::default();
    let _ = extractor.ingest(first);
    let features = extractor.ingest(wrapped);
    assert!(!features.temporal_history_reset);
    assert_eq!(features.elapsed_us, Some(60_000_000));
}

#[test]
fn delayed_older_reconfiguration_marker_does_not_erase_newer_history() {
    let first_scan = complete_profile_scan();
    let first_step = first_scan
        .steps
        .iter()
        .find(|step| step.step_index == 0)
        .unwrap();
    let first = AnalysisSample::from_profile_step(&first_scan, first_step, 1_000);

    let mut newer_scan = first_scan.clone();
    newer_scan.identity.scan_sequence += 1;
    newer_scan.identity.uptime_ms += 60_000;
    let newer_step = newer_scan
        .steps
        .iter()
        .find(|step| step.step_index == 0)
        .unwrap();
    let newer = AnalysisSample::from_profile_step(&newer_scan, newer_step, 2_000);

    let mut delayed_scan = first_scan.clone();
    delayed_scan.identity.uptime_ms += 30_000;
    delayed_scan.collection_flags = COLLECTION_FLAG_SENSOR_RECONFIGURED;
    let delayed_step = delayed_scan
        .steps
        .iter()
        .find(|step| step.step_index == 0)
        .unwrap();
    let delayed = AnalysisSample::from_profile_step(&delayed_scan, delayed_step, 9_000);
    assert!(delayed.reset_temporal_history);

    let mut next_scan = newer_scan.clone();
    next_scan.identity.scan_sequence += 1;
    next_scan.identity.uptime_ms += 60_000;
    let next_step = next_scan
        .steps
        .iter()
        .find(|step| step.step_index == 0)
        .unwrap();
    let next = AnalysisSample::from_profile_step(&next_scan, next_step, 3_000);

    let mut extractor = TemporalFeatureExtractor::default();
    let _ = extractor.ingest(first);
    assert_eq!(extractor.ingest(newer).elapsed_us, Some(60_000_000));
    let delayed_features = extractor.ingest(delayed);
    assert!(!delayed_features.temporal_history_reset);
    assert_eq!(delayed_features.elapsed_us, None);
    let next_features = extractor.ingest(next);
    assert!(!next_features.temporal_history_reset);
    assert_eq!(next_features.elapsed_us, Some(60_000_000));
}

#[test]
fn each_quality_problem_sets_its_own_flag() {
    let frame = decode_hex(FIXTURE).unwrap();
    let flags_of = |change: &dyn Fn(&mut ProfileStep)| {
        let mut scan = complete_profile_scan();
        change(&mut scan.steps[0]);
        AnalysisSample::from_profile_step(&scan, &scan.steps[0], 0).quality.bits()
    };
    assert_eq!(AnalysisSample::from_v1(&frame, 0).quality.bits(), 0);
    assert_eq!(flags_of(&|step| step.status_bits = 0x30), QualityFlags::NOT_NEW_DATA);
    assert_eq!(flags_of(&|step| step.status_bits = 0x90), QualityFlags::GAS_INVALID);
    assert_eq!(flags_of(&|step| step.status_bits = 0xa0), QualityFlags::HEATER_UNSTABLE);
    assert_eq!(flags_of(&|step| step.status_bits = 0xb1), QualityFlags::UNKNOWN_STATUS);
    for out_of_range in [-4_001, 8_501] {
        assert_eq!(
            flags_of(&|step| step.temperature_centi_celsius = out_of_range),
            QualityFlags::TEMPERATURE_OUT_OF_RANGE
        );
    }
    for in_range in [-4_000, 8_500] {
        assert_eq!(flags_of(&|step| step.temperature_centi_celsius = in_range), 0);
    }
    for out_of_range in [29_999, 110_001] {
        assert_eq!(
            flags_of(&|step| step.pressure_pascal = out_of_range),
            QualityFlags::PRESSURE_OUT_OF_RANGE
        );
    }
    assert_eq!(
        flags_of(&|step| step.humidity_milli_percent_rh = 100_001),
        QualityFlags::HUMIDITY_OUT_OF_RANGE
    );
    assert_eq!(
        flags_of(&|step| step.gas_resistance_ohm = 0),
        QualityFlags::GAS_RESISTANCE_ZERO
    );
    let mut unusable = complete_profile_scan();
    unusable.conflicting_fragment_count = 1;
    assert_eq!(
        AnalysisSample::from_profile_step(&unusable, &unusable.steps[0], 0)
            .quality
            .bits(),
        QualityFlags::PROFILE_SCAN_UNUSABLE
    );
}

#[test]
fn legacy_time_that_does_not_advance_has_no_elapsed_time() {
    let frame = decode_hex(FIXTURE).unwrap();
    let mut extractor = TemporalFeatureExtractor::default();
    let _ = extractor.ingest(AnalysisSample::from_v1(&frame, 5_000));
    assert_eq!(extractor.ingest(AnalysisSample::from_v1(&frame, 5_000)).elapsed_us, None);
    assert_eq!(extractor.ingest(AnalysisSample::from_v1(&frame, 4_000)).elapsed_us, None);
    assert_eq!(extractor.ingest(AnalysisSample::from_v1(&frame, i64::MIN)).elapsed_us, None);
    assert_eq!(
        extractor.ingest(AnalysisSample::from_v1(&frame, 5_001)).elapsed_us,
        Some(1_000)
    );
}

#[test]
fn changes_are_exact_in_the_units_of_the_wire() {
    let frame = decode_hex(FIXTURE).unwrap();
    let first = AnalysisSample::from_v1(&frame, 0);
    let mut second = AnalysisSample::from_v1(&frame, 1);
    second.pressure_pascal -= 325;
    let mut extractor = TemporalFeatureExtractor::default();
    let _ = extractor.ingest(first);
    let change = extractor.ingest(second).change.unwrap();
    assert_eq!(change.elapsed_us, 1_000);
    assert_eq!(change.pressure_pascal, -325);
    assert_eq!(change.temperature_centi_celsius, 0);
    assert_eq!(change.humidity_milli_percent_rh, 0);
    assert_eq!(change.prior_gas_resistance_ohm, 987_654);
}

#[test]
fn features_of_ascending_steps_keep_their_order() {
    let mut scan = complete_profile_scan();
    scan.steps.sort_by_key(|step| step.step_index);
    let features = extract_profile_features(&scan);
    let gas: Vec<Option<u32>> = features.steps.iter().map(|step| step.gas_resistance_ohm).collect();
    assert_eq!(gas, vec![Some(10_000), Some(20_000), Some(30_000)]);
    assert_eq!(features.missing_steps, 0);
    scan.steps.remove(1);
    assert_eq!(extract_profile_features(&scan).missing_steps, 0b010);
}
