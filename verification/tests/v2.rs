use vesta::v2::{
    BUILD_FLAG_ID_VALID, COLLECTION_FLAG_CONFIG_MISMATCH,
    COLLECTION_FLAG_STALE_PRE_SCAN_FIELDS, COLLECTION_FLAG_TIMEOUT,
    COMMON_FLAG_CONFIG_REPEAT, CONFIG_FLAG_CALIBRATION_HASH_VALID,
    CONFIG_FLAG_SENSOR_CONFIG_READ_BACK, Common, DecodedFrame, DeviceConfig, DeviceHealth,
    EncodedFrame, Error, FINISH_REASON_COMPLETE, FINISH_REASON_SENSOR_ERROR,
    FINISH_REASON_TIMEOUT, HEADER_LEN, HEALTH_FLAGS_KNOWN, HEALTH_FLAG_CONFIG_MISMATCH,
    HeaterStepConfig, MAX_PROFILE_FRAME_LEN, MAX_PROFILE_STEPS, MAX_V2_FRAME_LEN_U8,
    OUTPUT_ROUTE_LORA_P2P, OUTPUT_ROUTE_RTT, PROFILE_FRAGMENT_META_LEN, ProfileScan,
    ProfileStep, STEPS_PER_FRAGMENT_U8, V1_FRAME_LEN, decode, device_config_id,
    encode_device_config, encode_device_health, encode_profile, fnv1a64, lora_time_on_air_us, FrameType,
};

const CONFIG_HEX: &str = "565302013003000100b701020304050607081112131415161718ffffffff212223242526272896392f014bce77450005010302030401a0a1a2a3a4a5a6a76101760205010008030100637300017c1c0000a27600a331ea100100020a03ff01b0b1b2b3b4b5b6b70000ea6000100533be27a005070001e848040500080001001424e70300c800021e920120604000dc00043d240221614100f000065bb603226242010400087a48042363430118000a98da05246444012c000cb76c062565450140000ed5fe0726664601540010f4900827674701680013132209286848017c001531b40a296949";

const PROFILE0_HEX: &str = "565302023003000400b701020304050607081112131415161718ffffffff21222324252627289999aaaabbbbcccc00050103100100020a0a000a0000000000bc4b20000000000000000000000000000000000000000000000700000080b0803d00c800021e9200000000fc18000186a000009c40000027100007a120000493e04e2001f40d0160aa40010181b0813d00dc00043d24000f4240fc19000186a100009c41000027110007a121000493e14e2101f50d0261aa41020282b0823d00f000065bb6001e8480fc1a000186a200009c42000027120007a122000493e24e2201f60d0362aa42";

const PROFILE1_HEX: &str = "565302023003010400b701020304050607081112131415161718ffffffff21222324252627289999aaaabbbbcccc00050103100100020a0a000a0000000000bc4b20000000000000000000000000000000000000000000000703030383b0833d010400087a48002dc6c0fc1b000186a300009c43000027130007a123000493e34e2301f70d0463aa43040484b0843d0118000a98da003d0900fc1c000186a400009c44000027140007a124000493e44e2401f80d0564aa44050585b0853d012c000cb76c004c4b40fc1d000186a500009c45000027150007a125000493e54e2501f90d0665aa45";

const PROFILE2_HEX: &str = "565302023003020400b701020304050607081112131415161718ffffffff21222324252627289999aaaabbbbcccc00050103100100020a0a000a0000000000bc4b20000000000000000000000000000000000000000000000706060686b0863d0140000ed5fe005b8d80fc1e000186a600009c46000027160007a126000493e64e2601fa0d0766aa46070787b0873d01540010f490006acfc0fc1f000186a700009c47000027170007a127000493e74e2701fb0d0867aa47080888b0883d016800131322007a1200fc20000186a800009c48000027180007a128000493e84e2801fc0d0968aa48";

const PROFILE3_HEX: &str = "5653020230030304005901020304050607081112131415161718ffffffff21222324252627289999aaaabbbbcccc00050101100100020a0a000a0000000000bc4b20000000000000000000000000000000000000000000000709090989b0893d017c001531b400895440fc21000186a900009c49000027190007a129000493e94e2901fd0d0a69aa49";

const HEALTH_HEX: &str = "5653020330000001003601020304050607080000000000000000ffffffff21222324252627289999aaaabbbbcccc0005013f1234567800000064000000020000000300000004000000050000000600000007000000080000ea60020304100100020009000a00";

const V1_GOLDEN: [u8; V1_FRAME_LEN] = [
    0x56, 0x53, 0x01, 0xb0, 0x01, 0x02, 0x03, 0x04, 0x05, 0x06, 0x07, 0x08, 0x0a, 0x0b, 0x0c,
    0x0d, 0xfb, 0x2e, 0x00, 0x01, 0x8b, 0xcd, 0x00, 0x00, 0xb2, 0x6e, 0x00, 0x0f, 0x12, 0x06,
    0x00, 0x07, 0xee, 0xd0, 0x00, 0x05, 0x90, 0x20, 0x75, 0x30, 0x02, 0x00, 0x08, 0x02, 0x03,
    0x04, 0x05, 0x06,
];

fn common(config_id: u64) -> Common {
    Common::production(
        0x0102_0304_0506_0708,
        0x1112_1314_1516_1718,
        0xffff_ffff,
        0x2122_2324_2526_2728,
        config_id,
        0x0005,
    )
}

fn config() -> DeviceConfig {
    let mut steps = [HeaterStepConfig::default(); MAX_PROFILE_STEPS];
    for (index, step) in steps.iter_mut().enumerate() {
        *step = HeaterStepConfig {
            target_temperature_celsius: 200 + u16::try_from(index).unwrap() * 20,
            configured_duration_us: 138_898 * (u32::try_from(index).unwrap() + 1),
            repetition_multiplier: u8::try_from(index).unwrap() + 1,
            readback_heater_current: 0x20 + u8::try_from(index).unwrap(),
            programmed_heater_resistance: 0x60 + u8::try_from(index).unwrap(),
            programmed_gas_wait: 0x40 + u8::try_from(index).unwrap(),
        };
    }
    DeviceConfig {
        flags: CONFIG_FLAG_CALIBRATION_HASH_VALID | CONFIG_FLAG_SENSOR_CONFIG_READ_BACK,
        firmware_version: [2, 3, 4],
        firmware_build_flags: BUILD_FLAG_ID_VALID,
        firmware_build_id: 0xa0a1_a2a3_a4a5_a6a7,
        sensor_chip_id: 0x61,
        sensor_variant: 1,
        sensor_i2c_address: 0x76,
        temperature_oversampling: 2,
        humidity_oversampling: 5,
        pressure_oversampling: 1,
        iir_filter: 0,
        standby_time: 8,
        operation_mode: 3,
        heater_enabled: 1,
        parallel_requested_shared_wait_ms: 99,
        parallel_shared_wait_register: 0x73,
        parallel_quantized_shared_wait_us: 97_308,
        tphg_duration_us: 41_590,
        expected_profile_duration_us: 10_695_146,
        profile_id: 0x1001,
        profile_version: 2,
        expected_step_count: 10,
        heater_readback_valid_bitmap: 0x03ff,
        calibration_hash_algorithm: 1,
        calibration_hash: 0xb0b1_b2b3_b4b5_b6b7,
        scan_interval_ms: 60_000,
        config_repeat_interval_scans: 16,
        output_routes: OUTPUT_ROUTE_LORA_P2P | OUTPUT_ROUTE_RTT,
        radio_frequency_hz: 868_100_000,
        radio_tx_power_dbm: 5,
        radio_spreading_factor: 7,
        radio_bandwidth_hz: 125_000,
        radio_coding_rate_numerator: 4,
        radio_coding_rate_denominator: 5,
        radio_preamble_symbols: 8,
        radio_header_mode: 0,
        radio_phy_crc_enabled: 1,
        radio_iq_inverted: 0,
        radio_sync_word: 0x1424,
        max_frame_len: MAX_V2_FRAME_LEN_U8,
        profile_steps_per_fragment: STEPS_PER_FRAGMENT_U8,
        steps,
    }
}

fn step(index: u8) -> ProfileStep {
    ProfileStep {
        step_index: index,
        gas_index: index,
        measurement_index: 0x80_u8.wrapping_add(index),
        status: 0xb0,
        raw_measurement_status: 0x80 | index,
        raw_gas_status: 0x3d,
        target_temperature_celsius: 200 + u16::from(index) * 20,
        configured_duration_us: 138_898 * (u32::from(index) + 1),
        offset_us: 1_000_000 * u32::from(index),
        temperature_centi_celsius: -1_000 + i16::from(index),
        pressure_pascal: 100_000 + u32::from(index),
        humidity_milli_percent_rh: 40_000 + u32::from(index),
        gas_resistance_ohm: 10_000 + u32::from(index),
        temperature_adc: 500_000 + u32::from(index),
        pressure_adc: 300_000 + u32::from(index),
        humidity_adc: 20_000 + u16::from(index),
        gas_resistance_adc: 500 + u16::from(index),
        gas_range: 13,
        repetition_multiplier: index + 1,
        heater_resistance: 0x60 + index,
        heater_current: 0xaa,
        gas_wait: 0x40 + index,
    }
}

fn complete_scan() -> ProfileScan {
    let mut steps = [None; MAX_PROFILE_STEPS];
    for (index, item) in steps.iter_mut().enumerate() {
        *item = Some(step(u8::try_from(index).unwrap()));
    }
    ProfileScan {
        profile_id: 0x1001,
        profile_version: 2,
        expected_step_count: 10,
        observed_unique_step_count: 10,
        observed_field_count: 10,
        missing_steps_bitmap: 0,
        duplicate_steps_bitmap: 0,
        scan_duration_us: 12_340_000,
        collection_flags: 0,
        finish_reason: FINISH_REASON_COMPLETE,
        duplicate_count: 0,
        overwritten_field_count: 0,
        out_of_order_count: 0,
        ambiguous_index_jump_count: 0,
        invalid_gas_index_count: 0,
        intermediate_field_count: 0,
        profile_rollover_count: 0,
        fields_after_rollover_count: 0,
        poll_count: 7,
        steps,
    }
}

fn hex(bytes: &[u8]) -> String {
    bytes.iter().map(|byte| format!("{byte:02x}")).collect()
}

#[test]
fn deployed_v1_fixture_is_unchanged_and_not_v2() {
    assert_eq!(V1_GOLDEN.len(), 48);
    assert_eq!(V1_GOLDEN[0..3], [b'V', b'S', 1]);
    assert_eq!(decode(&V1_GOLDEN), Err(Error::UnsupportedVersion(1)));
    assert_eq!(
        hex(&V1_GOLDEN),
        "565301b001020304050607080a0b0c0dfb2e00018bcd0000b26e000f12060007eed00005902075300200080203040506"
    );
}

#[test]
fn ten_steps_encode_as_three_three_three_one_not_three_fields_total() {
    let encoded = encode_profile(common(0x9999_aaaa_bbbb_cccc), &complete_scan()).unwrap();
    assert_eq!(encoded.frames().len(), 4);
    assert_eq!(
        encoded
            .frames()
            .iter()
            .map(EncodedFrame::len)
            .collect::<Vec<_>>(),
        [231, 231, 231, 137]
    );

    let mut decoded_steps = 0;
    for (index, frame) in encoded.frames().iter().enumerate().rev() {
        let DecodedFrame::ProfileFragment(fragment) = decode(frame.as_slice()).unwrap() else {
            panic!("wrong record type");
        };
        assert_eq!(usize::from(fragment.header.fragment_index), index);
        assert_eq!(fragment.header.fragment_count, 4);
        decoded_steps += usize::from(fragment.steps_in_fragment);
        for local in 0..usize::from(fragment.steps_in_fragment) {
            let decoded = fragment.step(local).unwrap();
            assert_eq!(decoded.step_index as usize, index * 3 + local);
        }
    }
    assert_eq!(decoded_steps, 10);
}

#[test]
fn incomplete_scan_keeps_fixed_fragment_windows() {
    let mut scan = complete_scan();
    scan.steps[1] = None;
    scan.steps[8] = None;
    scan.observed_unique_step_count = 8;
    scan.observed_field_count = 9;
    scan.missing_steps_bitmap = (1 << 1) | (1 << 8);
    scan.duplicate_steps_bitmap = 1 << 4;
    scan.collection_flags = 1 << 2;
    let encoded = encode_profile(common(7), &scan).unwrap();
    assert_eq!(
        encoded
            .frames()
            .iter()
            .map(EncodedFrame::len)
            .collect::<Vec<_>>(),
        [184, 231, 184, 137]
    );

    let DecodedFrame::ProfileFragment(last) = decode(encoded.frames()[3].as_slice()).unwrap()
    else {
        panic!("wrong record type");
    };
    assert_eq!(last.step_window_start, 9);
    assert_eq!(last.steps_in_fragment, 1);
    assert_eq!(last.step(0).unwrap().step_index, 9);
    assert_eq!(last.missing_steps_bitmap, (1 << 1) | (1 << 8));
}

#[test]
fn stale_pre_scan_fields_are_counted_and_flagged_without_changing_layout() {
    let mut scan = complete_scan();
    scan.observed_field_count = 15;
    scan.intermediate_field_count = 5;
    scan.collection_flags = COLLECTION_FLAG_STALE_PRE_SCAN_FIELDS;

    let encoded = encode_profile(common(7), &scan).unwrap();
    assert_eq!(encoded.frames()[0].len(), MAX_PROFILE_FRAME_LEN);
    for frame in encoded.frames() {
        let DecodedFrame::ProfileFragment(fragment) = decode(frame.as_slice()).unwrap() else {
            panic!("wrong record type");
        };
        assert_eq!(fragment.intermediate_field_count, 5);
        assert_eq!(
            fragment.collection_flags,
            COLLECTION_FLAG_STALE_PRE_SCAN_FIELDS
        );
    }

    let mut invalid_scan = scan;
    invalid_scan.intermediate_field_count = 0;
    assert_eq!(
        encode_profile(common(7), &invalid_scan),
        Err(Error::InvalidField("stale_pre_scan_fields"))
    );

    let mut malformed = encoded.frames()[0].as_slice().to_vec();
    malformed[HEADER_LEN + 33..HEADER_LEN + 35].fill(0);
    assert_eq!(
        decode(malformed.as_slice()),
        Err(Error::InvalidField("stale_pre_scan_fields"))
    );
}

#[test]
fn wholly_missing_sensor_window_still_emits_empty_radio_fragment() {
    let mut scan = complete_scan();
    for index in 3..=5 {
        scan.steps[index] = None;
        scan.missing_steps_bitmap |= 1 << index;
    }
    scan.observed_unique_step_count = 7;
    scan.observed_field_count = 7;
    scan.finish_reason = FINISH_REASON_TIMEOUT;
    scan.collection_flags = COLLECTION_FLAG_TIMEOUT;

    let encoded = encode_profile(common(7), &scan).unwrap();
    assert_eq!(encoded.frames().len(), 4);
    assert_eq!(
        encoded.frames()[1].len(),
        HEADER_LEN + PROFILE_FRAGMENT_META_LEN
    );
    let DecodedFrame::ProfileFragment(fragment) =
        decode(encoded.frames()[1].as_slice()).unwrap()
    else {
        panic!("wrong record type");
    };
    assert_eq!(fragment.header.fragment_index, 1);
    assert_eq!(fragment.header.fragment_count, 4);
    assert_eq!(fragment.step_window_start, 3);
    assert_eq!(fragment.steps_in_fragment, 0);
    assert_eq!(fragment.missing_steps_bitmap & 0x0038, 0x0038);
}

#[test]
fn sequence_wrap_and_integer_boundaries_survive() {
    let mut scan = complete_scan();
    scan.expected_step_count = 1;
    scan.observed_unique_step_count = 1;
    scan.observed_field_count = u16::MAX;
    scan.steps[1..].fill(None);
    scan.steps[0] = Some(ProfileStep {
        status: u8::MAX,
        target_temperature_celsius: u16::MAX,
        configured_duration_us: u32::MAX,
        offset_us: u32::MAX,
        temperature_centi_celsius: i16::MIN,
        pressure_pascal: u32::MAX,
        humidity_milli_percent_rh: u32::MAX,
        gas_resistance_ohm: u32::MAX,
        temperature_adc: u32::MAX,
        pressure_adc: u32::MAX,
        humidity_adc: u16::MAX,
        gas_resistance_adc: u16::MAX,
        raw_gas_status: 0x3f,
        gas_range: 0x0f,
        heater_resistance: u8::MAX,
        heater_current: u8::MAX,
        gas_wait: u8::MAX,
        ..step(0)
    });
    let frame = encode_profile(common(u64::MAX), &scan).unwrap().frames()[0];
    let DecodedFrame::ProfileFragment(decoded) = decode(frame.as_slice()).unwrap() else {
        panic!("wrong record type");
    };
    assert_eq!(decoded.header.common.scan_sequence, u32::MAX);
    assert_eq!(decoded.header.common.config_id, u64::MAX);
    assert_eq!(decoded.step(0).unwrap().temperature_centi_celsius, i16::MIN);
    assert_eq!(decoded.step(0).unwrap().gas_resistance_ohm, u32::MAX);
}

#[test]
fn malformed_fragment_coordinates_and_lengths_are_rejected() {
    let encoded = encode_profile(common(7), &complete_scan()).unwrap();
    let intact = encoded.frames()[0];
    for length in 0..HEADER_LEN {
        assert!(decode(&intact.as_slice()[..length]).is_err());
    }

    let mut bad = intact.as_slice().to_vec();
    bad[7] = 0;
    assert_eq!(decode(bad.as_slice()), Err(Error::InvalidFragmentCount(0)));

    let mut bad = intact.as_slice().to_vec();
    bad[6] = 3;
    bad[7] = 3;
    assert_eq!(
        decode(bad.as_slice()),
        Err(Error::InvalidFragmentIndex { index: 3, count: 3 })
    );

    let truncated = &intact.as_slice()[..intact.len() - 1];
    assert_eq!(
        decode(truncated),
        Err(Error::WrongLength {
            expected: intact.len(),
            actual: intact.len() - 1,
        })
    );
}

#[test]
fn profile_steps_reject_decoded_raw_contradictions_on_encode_and_decode() {
    for (field, kind) in [
        ("step_status_raw", 0_usize),
        ("step_gas_index_raw", 1),
        ("step_gas_range_raw", 2),
        ("step_gas_index", 3),
    ] {
        let mut scan = complete_scan();
        let step = scan.steps[0].as_mut().unwrap();
        match kind {
            0 => step.raw_gas_status ^= 0x20,
            1 => step.raw_measurement_status ^= 1,
            2 => step.raw_gas_status ^= 1,
            3 => {
                step.gas_index = 1;
                step.raw_measurement_status =
                    (step.raw_measurement_status & 0xf0) | step.gas_index;
            }
            _ => unreachable!(),
        }
        assert_eq!(
            encode_profile(common(7), &scan),
            Err(Error::InvalidField(field))
        );

        let valid = encode_profile(common(7), &complete_scan()).unwrap();
        let mut malformed = valid.frames()[0].as_slice().to_vec();
        let step_offset = HEADER_LEN + PROFILE_FRAGMENT_META_LEN;
        match kind {
            0 => malformed[step_offset + 5] ^= 0x20,
            1 => malformed[step_offset + 4] ^= 1,
            2 => malformed[step_offset + 5] ^= 1,
            3 => {
                malformed[step_offset + 1] = 1;
                malformed[step_offset + 4] =
                    (malformed[step_offset + 4] & 0xf0) | 1;
            }
            _ => unreachable!(),
        }
        assert_eq!(
            decode(malformed.as_slice()),
            Err(Error::InvalidField(field))
        );
    }
}

#[test]
fn config_is_self_identifying_and_repetition_does_not_change_id() {
    let first = encode_device_config(common(0), &config(), false).unwrap();
    let repeated = encode_device_config(common(0), &config(), true).unwrap();
    let DecodedFrame::DeviceConfig {
        header: a,
        config: decoded_config,
    } = decode(first.as_slice()).unwrap()
    else {
        panic!("wrong record type");
    };
    let DecodedFrame::DeviceConfig { header: b, .. } = decode(repeated.as_slice()).unwrap()
    else {
        panic!("wrong record type");
    };
    assert_eq!(first.len(), 231);
    assert_eq!(decoded_config, config());
    assert_eq!(a.common.config_id, device_config_id(&config()).unwrap());
    assert_eq!(first.as_ref(), first.as_slice());
    assert_eq!(a.common.config_id, b.common.config_id);
    assert_eq!(
        b.common.flags & COMMON_FLAG_CONFIG_REPEAT,
        COMMON_FLAG_CONFIG_REPEAT
    );

    let mut corrupted = first.as_slice().to_vec();
    corrupted[HEADER_LEN + 69] ^= 1;
    assert!(matches!(
        decode(corrupted.as_slice()),
        Err(Error::ConfigIdMismatch { .. })
    ));

    let mut no_output = config();
    no_output.output_routes = 0;
    assert_eq!(
        encode_device_config(common(0), &no_output, false),
        Err(Error::InvalidField("output_routes"))
    );

    let mut unknown_output = config();
    unknown_output.output_routes = 0x80;
    assert_eq!(
        encode_device_config(common(0), &unknown_output, false),
        Err(Error::UnknownFlags {
            field: "output_routes",
            bits: 0x80,
        })
    );

    for (field, mutate) in [
        (
            "sensor_variant",
            (|config: &mut DeviceConfig| config.sensor_variant = 2) as fn(&mut DeviceConfig),
        ),
        (
            "oversampling",
            (|config: &mut DeviceConfig| config.temperature_oversampling = 6)
                as fn(&mut DeviceConfig),
        ),
        (
            "iir_filter",
            (|config: &mut DeviceConfig| config.iir_filter = 8) as fn(&mut DeviceConfig),
        ),
        (
            "standby_time",
            (|config: &mut DeviceConfig| config.standby_time = 9) as fn(&mut DeviceConfig),
        ),
        (
            "operation_mode",
            (|config: &mut DeviceConfig| config.operation_mode = 0) as fn(&mut DeviceConfig),
        ),
        (
            "radio_spreading_factor",
            (|config: &mut DeviceConfig| config.radio_spreading_factor = 13)
                as fn(&mut DeviceConfig),
        ),
        (
            "radio_bandwidth_hz",
            (|config: &mut DeviceConfig| config.radio_bandwidth_hz = 0)
                as fn(&mut DeviceConfig),
        ),
        (
            "radio_coding_rate",
            (|config: &mut DeviceConfig| config.radio_coding_rate_numerator = 3)
                as fn(&mut DeviceConfig),
        ),
        (
            "radio_preamble_symbols",
            (|config: &mut DeviceConfig| config.radio_preamble_symbols = 0)
                as fn(&mut DeviceConfig),
        ),
    ] {
        let mut malformed = config();
        mutate(&mut malformed);
        assert_eq!(
            encode_device_config(common(0), &malformed, false),
            Err(Error::InvalidField(field))
        );
    }

    let mut unknown_calibration_hash = config();
    unknown_calibration_hash.calibration_hash_algorithm = 2;
    assert_eq!(
        encode_device_config(common(0), &unknown_calibration_hash, false),
        Err(Error::InvalidField("calibration_hash_algorithm"))
    );
}

#[test]
fn health_omits_uncalibrated_internal_values() {
    let health = DeviceHealth {
        flags: 0,
        reset_cause_raw: 0x1234_5678,
        successful_sensor_scans: 100,
        failed_sensor_scans: 2,
        incomplete_profiles: 3,
        i2c_errors: 4,
        radio_tx_errors: 5,
        dropped_profiles: 6,
        dropped_fragments: 7,
        overwritten_fields: 8,
        current_sample_interval_ms: 60_000,
        firmware_version: [2, 3, 4],
        profile_id: 0x1001,
        profile_version: 2,
        last_sensor_error: 0,
        last_radio_error: 0,
        calibrated_mcu_temperature_centi_celsius: None,
        calibrated_vdd_millivolt: None,
    };
    let without = encode_device_health(common(7), &health).unwrap();
    assert_eq!(without.len(), 102);
    assert_eq!(without.as_slice()[HEADER_LEN + 53], 0);
    assert!(matches!(
        decode(without.as_slice()),
        Ok(DecodedFrame::DeviceHealth { .. })
    ));

    let with = encode_device_health(
        common(7),
        &DeviceHealth {
            calibrated_mcu_temperature_centi_celsius: Some(-1_234),
            calibrated_vdd_millivolt: Some(3_301),
            ..health
        },
    )
    .unwrap();
    assert_eq!(with.len(), 110);
    assert_eq!(with.as_slice()[HEADER_LEN + 53], 8);
    assert!(matches!(
        decode(with.as_slice()),
        Ok(DecodedFrame::DeviceHealth { .. })
    ));

    let mut unknown_flags = without.as_slice().to_vec();
    unknown_flags[HEADER_LEN + 1] = 0x80;
    assert!(matches!(
        decode(unknown_flags.as_slice()),
        Err(Error::UnknownFlags {
            field: "health_flags",
            bits: 0x80
        })
    ));
}

#[test]
fn zero_config_id_is_reserved_for_degraded_health_or_mismatch_profiles() {
    let normal_health = DeviceHealth {
        flags: 0,
        reset_cause_raw: 0,
        successful_sensor_scans: 0,
        failed_sensor_scans: 1,
        incomplete_profiles: 1,
        i2c_errors: 0,
        radio_tx_errors: 0,
        dropped_profiles: 0,
        dropped_fragments: 0,
        overwritten_fields: 0,
        current_sample_interval_ms: 180_000,
        firmware_version: [2, 0, 0],
        profile_id: 0x1001,
        profile_version: 2,
        last_sensor_error: 1,
        last_radio_error: 0,
        calibrated_mcu_temperature_centi_celsius: None,
        calibrated_vdd_millivolt: None,
    };

    assert_eq!(
        encode_device_health(common(0), &normal_health),
        Err(Error::InvalidField("health_config_id_status"))
    );
    let pre_config = DeviceHealth {
        profile_id: 0,
        profile_version: 0,
        ..normal_health
    };
    let pre_config_frame = encode_device_health(common(0), &pre_config).unwrap();
    let DecodedFrame::DeviceHealth {
        header,
        health: decoded_pre_config,
    } = decode(pre_config_frame.as_slice()).unwrap()
    else {
        panic!("wrong record type")
    };
    assert_eq!(header.common.config_id, 0);
    assert_eq!(decoded_pre_config.profile_id, 0);
    assert_eq!(decoded_pre_config.profile_version, 0);

    let mismatch_health = DeviceHealth {
        flags: HEALTH_FLAG_CONFIG_MISMATCH,
        ..normal_health
    };
    let mismatch_health_frame = encode_device_health(common(0), &mismatch_health).unwrap();
    let DecodedFrame::DeviceHealth {
        header,
        health: decoded_mismatch_health,
    } = decode(mismatch_health_frame.as_slice()).unwrap()
    else {
        panic!("wrong record type")
    };
    assert_eq!(header.common.config_id, 0);
    assert_eq!(decoded_mismatch_health.profile_id, normal_health.profile_id);

    let mut malformed_normal_health =
        encode_device_health(common(7), &normal_health).unwrap().as_slice().to_vec();
    malformed_normal_health[38..46].fill(0);
    assert_eq!(
        decode(malformed_normal_health.as_slice()),
        Err(Error::InvalidField("health_config_id_status"))
    );

    assert_eq!(
        encode_profile(common(0), &complete_scan()),
        Err(Error::InvalidField("profile_config_id_status"))
    );
    let mut mismatch_scan = complete_scan();
    mismatch_scan.collection_flags = COLLECTION_FLAG_CONFIG_MISMATCH;
    mismatch_scan.finish_reason = FINISH_REASON_SENSOR_ERROR;
    let mismatch_profile = encode_profile(common(0), &mismatch_scan).unwrap();
    let DecodedFrame::ProfileFragment(decoded_mismatch) =
        decode(mismatch_profile.frames()[0].as_slice()).unwrap()
    else {
        panic!("wrong record type")
    };
    assert_eq!(decoded_mismatch.header.common.config_id, 0);
    assert_eq!(decoded_mismatch.profile_id, mismatch_scan.profile_id);
    assert_eq!(
        decoded_mismatch.profile_version,
        mismatch_scan.profile_version
    );

    let mut zero_profile = config();
    zero_profile.profile_id = 0;
    assert_eq!(
        encode_device_config(common(1), &zero_profile, false),
        Err(Error::InvalidField("profile_identity"))
    );
    let mut config_frame =
        encode_device_config(common(1), &config(), false).unwrap().as_slice().to_vec();
    config_frame[38..46].fill(0);
    assert_eq!(
        decode(config_frame.as_slice()),
        Err(Error::InvalidField("reserved_config_id"))
    );
}

#[test]
fn airtime_matches_exact_sf7_bw125_cr45_values() {
    let toa = |len| lora_time_on_air_us(len, 7, 125_000, 5, 8, true, true).unwrap();
    assert_eq!(toa(48), 97_536);
    assert_eq!(toa(230), 363_776);
    assert_eq!(toa(231), 363_776);
    assert_eq!(toa(137), 225_536);
    assert_eq!(toa(102), 174_336);
    assert_eq!(toa(110), 184_576);
    assert_eq!(toa(231) * 3 + toa(137), 1_316_864);
}

#[test]
fn every_frame_size_has_its_airtime() {
    let toa = |len| lora_time_on_air_us(len, 7, 125_000, 5, 8, true, true).unwrap();
    assert_eq!(toa(90), 158_976);
    assert_eq!(toa(184), 297_216);
    assert_eq!(toa(106), 179_456);
}

#[test]
fn golden_frames_are_byte_exact() {
    let config_frame = encode_device_config(common(0), &config(), false).unwrap();
    let profile = encode_profile(common(0x9999_aaaa_bbbb_cccc), &complete_scan()).unwrap();
    let health = encode_device_health(
        Common::boot_id_unavailable(
            0x0102_0304_0506_0708,
            u32::MAX,
            0x2122_2324_2526_2728,
            0x9999_aaaa_bbbb_cccc,
            0x0005,
        ),
        &DeviceHealth {
            flags: HEALTH_FLAGS_KNOWN,
            reset_cause_raw: 0x1234_5678,
            successful_sensor_scans: 100,
            failed_sensor_scans: 2,
            incomplete_profiles: 3,
            i2c_errors: 4,
            radio_tx_errors: 5,
            dropped_profiles: 6,
            dropped_fragments: 7,
            overwritten_fields: 8,
            current_sample_interval_ms: 60_000,
            firmware_version: [2, 3, 4],
            profile_id: 0x1001,
            profile_version: 2,
            last_sensor_error: 9,
            last_radio_error: 10,
            calibrated_mcu_temperature_centi_celsius: None,
            calibrated_vdd_millivolt: None,
        },
    )
    .unwrap();

    assert_eq!(hex(config_frame.as_slice()), CONFIG_HEX);
    assert_eq!(hex(profile.frames()[0].as_slice()), PROFILE0_HEX);
    assert_eq!(hex(profile.frames()[1].as_slice()), PROFILE1_HEX);
    assert_eq!(hex(profile.frames()[2].as_slice()), PROFILE2_HEX);
    assert_eq!(hex(profile.frames()[3].as_slice()), PROFILE3_HEX);
    assert_eq!(hex(health.as_slice()), HEALTH_HEX);
}

#[test]
fn hashes_match_published_vectors() {
    assert_eq!(fnv1a64(b""), 0xcbf2_9ce4_8422_2325);
    assert_eq!(fnv1a64(b"a"), 0xaf63_dc4c_8601_ec8c);
    assert_eq!(fnv1a64(b"foobar"), 0x8594_4171_f739_67e8);
}

#[test]
fn airtime_refuses_impossible_parameters() {
    assert_eq!(
        lora_time_on_air_us(48, 13, 125_000, 5, 8, true, true),
        Err(Error::InvalidField("spreading_factor"))
    );
    assert_eq!(
        lora_time_on_air_us(48, 7, 0, 5, 8, true, true),
        Err(Error::InvalidField("bandwidth_hz"))
    );
    assert_eq!(
        lora_time_on_air_us(48, 7, 125_000, 4, 8, true, true),
        Err(Error::InvalidField("coding_rate_denominator"))
    );
    assert_eq!(
        lora_time_on_air_us(256, 7, 125_000, 5, 8, true, true),
        Err(Error::FrameTooLong(256))
    );
}

#[test]
fn frame_types_read_back_from_their_codes() {
    for (code, expected) in [
        (1, FrameType::DeviceConfig),
        (2, FrameType::ProfileFragment),
        (3, FrameType::DeviceHealth),
    ] {
        assert_eq!(FrameType::try_from(code), Ok(expected));
        assert_eq!(expected.wire_code(), code);
    }
    assert_eq!(FrameType::try_from(4), Err(Error::UnknownFrameType(4)));
}

#[test]
fn every_header_fault_has_its_own_error() {
    let frame = encode_profile(common(7), &complete_scan()).unwrap().frames()[0]
        .as_slice()
        .to_vec();
    let with = |position: usize, value: u8| {
        let mut bytes = frame.clone();
        bytes[position] = value;
        bytes
    };
    assert_eq!(decode(&with(0, b'N')).unwrap_err(), Error::InvalidMagic([b'N', b'S']));
    assert_eq!(decode(&with(2, 3)).unwrap_err(), Error::UnsupportedVersion(3));
    assert_eq!(decode(&with(3, 9)).unwrap_err(), Error::UnknownFrameType(9));
    assert_eq!(decode(&with(4, 47)).unwrap_err(), Error::InvalidHeaderLength(47));
    assert!(matches!(
        decode(&with(5, 0x83)),
        Err(Error::UnknownFlags { field: "common_flags", .. })
    ));
    let mut trailing = frame.clone();
    trailing.push(0);
    assert_eq!(
        decode(&trailing).unwrap_err(),
        Error::WrongLength { expected: frame.len(), actual: frame.len() + 1 }
    );
}

#[test]
fn steps_beyond_a_fragment_are_refused() {
    let encoded = encode_profile(common(7), &complete_scan()).unwrap();
    let DecodedFrame::ProfileFragment(last) = decode(encoded.frames()[3].as_slice()).unwrap()
    else {
        panic!("wrong record type");
    };
    assert_eq!(last.step(0), Ok(step(9)));
    assert_eq!(last.step(1), Err(Error::StepIndexOutOfBounds));
}

#[test]
fn every_record_decodes_to_what_was_encoded() {
    let encoded = encode_profile(common(7), &complete_scan()).unwrap();
    let mut steps = Vec::new();
    for frame in encoded.frames() {
        let DecodedFrame::ProfileFragment(fragment) = decode(frame.as_slice()).unwrap() else {
            panic!("wrong record type");
        };
        assert_eq!(fragment.header.common, common(7));
        assert_eq!(fragment.scan_duration_us, 12_340_000);
        assert_eq!(fragment.poll_count, 7);
        for local in 0..usize::from(fragment.steps_in_fragment) {
            steps.push(fragment.step(local).unwrap());
        }
    }
    let expected: Vec<ProfileStep> = (0..10).map(step).collect();
    assert_eq!(steps, expected);
}

#[test]
fn identity_of_a_configuration_covers_every_setting() {
    let id = device_config_id(&config()).unwrap();
    let mut changed = config();
    changed.scan_interval_ms += 1;
    assert_ne!(device_config_id(&changed).unwrap(), id);
    let mut changed = config();
    changed.steps[9].programmed_gas_wait ^= 1;
    assert_ne!(device_config_id(&changed).unwrap(), id);
}

#[test]
fn errors_render_as_their_names_and_fields() {
    assert_eq!(
        Error::WrongLength { expected: 2, actual: 1 }.message(),
        "WrongLength { expected: 2, actual: 1 }"
    );
    assert_eq!(Error::InvalidMagic([0x4e, 0x4f]).message(), "InvalidMagic([78, 79])");
    assert_eq!(Error::InvalidField("iir_filter").message(), "InvalidField(\"iir_filter\")");
    assert_eq!(
        Error::UnknownFlags { field: "health_flags", bits: 128 }.message(),
        "UnknownFlags { field: \"health_flags\", bits: 128 }"
    );
    assert_eq!(Error::BufferExhausted.message(), "BufferExhausted");
}
