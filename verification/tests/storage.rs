use vesta::convert::{device_configuration, device_health};
use vesta::reassembly::{
    FragmentEvent, ProfileReassembler, ReassembledProfile, SourceFragment,
};
use vesta::records::RecordError;
use vesta::storage::{
    check_marked, check_migrated, check_pending, classify_persisted, configuration_row,
    counters_after, decode_row, health_row, linked_time, merged_counters, plan_migration,
    profile_row, reading_row, replay_bound, semver_text, undecoded_packet_row, unix_ms, v1_packet_row, v2_packet_row,
    FragmentStorageStatus, Migration, PacketDisposition, PersistedFragment,
    PersistedFragmentMatch, StorageError, V2PacketKind,
};
use vesta::v2;
use vesta::v2::FrameType;
use vesta::{decode_hex, parse_frame_hex, parse_payload_hex, RadioMetadata};

const FIXTURE: &str = "565301b001020304050607080a0b0c0dfb2e00018bcd0000b26e000f12060007eed00005902075300200080203040506";

const CONFIG_V2: &str = "565302013003000100b701020304050607081112131415161718ffffffff212223242526272896392f014bce77450005010302030401a0a1a2a3a4a5a6a76101760205010008030100637300017c1c0000a27600a331ea100100020a03ff01b0b1b2b3b4b5b6b70000ea6000100533be27a005070001e848040500080001001424e70300c800021e920120604000dc00043d240221614100f000065bb603226242010400087a48042363430118000a98da05246444012c000cb76c062565450140000ed5fe0726664601540010f4900827674701680013132209286848017c001531b40a296949";

fn radio() -> RadioMetadata {
    RadioMetadata {
        packet_rssi_centi_dbm: -4_200,
        snr_centi_db: 1_250,
        signal_rssi_centi_dbm: -4_250,
    }
}

fn protocol_step(index: u8) -> v2::ProfileStep {
    v2::ProfileStep {
        step_index: index,
        gas_index: index,
        measurement_index: index,
        status: 0xb0,
        raw_measurement_status: 0x80 | index,
        raw_gas_status: 0x35,
        target_temperature_celsius: 200 + u16::from(index),
        configured_duration_us: 138_898,
        offset_us: u32::from(index) * 138_898,
        temperature_centi_celsius: 2_500,
        pressure_pascal: 101_325,
        humidity_milli_percent_rh: 40_000,
        gas_resistance_ohm: 20_000,
        temperature_adc: 1,
        pressure_adc: 2,
        humidity_adc: 3,
        gas_resistance_adc: 4,
        gas_range: 5,
        repetition_multiplier: 1,
        heater_resistance: 6,
        heater_current: 7,
        gas_wait: 8,
    }
}

fn protocol_profile(sequence: u32) -> v2::EncodedProfile {
    let mut steps = [None; v2::MAX_PROFILE_STEPS];
    for index in 0..10_u8 {
        steps[usize::from(index)] = Some(protocol_step(index));
    }
    v2::encode_profile(
        v2::Common::production(
            0x0102_0304_0506_0708,
            u64::MAX,
            sequence,
            u64::MAX,
            0x9639_2f01_4bce_7745,
            5,
        ),
        &v2::ProfileScan {
            profile_id: 0x1001,
            profile_version: 2,
            expected_step_count: 10,
            observed_unique_step_count: 10,
            observed_field_count: 10,
            missing_steps_bitmap: 0,
            duplicate_steps_bitmap: 0,
            scan_duration_us: 10_695_146,
            collection_flags: 0,
            finish_reason: v2::FINISH_REASON_COMPLETE,
            duplicate_count: 0,
            overwritten_field_count: 0,
            out_of_order_count: 0,
            ambiguous_index_jump_count: 0,
            invalid_gas_index_count: 0,
            intermediate_field_count: 0,
            profile_rollover_count: 0,
            fields_after_rollover_count: 0,
            poll_count: 120,
            steps,
        },
    )
    .unwrap()
}


fn fragment(payload: &[u8]) -> v2::ProfileFragmentView<'_> {
    let v2::DecodedFrame::ProfileFragment(fragment) = v2::decode(payload).unwrap() else {
        unreachable!()
    };
    fragment
}

fn source(packet_id: i64, fragment_index: u8) -> SourceFragment {
    SourceFragment {
        packet_id,
        fragment_index,
        received_at_unix_ms: 1_000 + packet_id,
        radio: radio(),
    }
}

fn complete_profile(encoded: &v2::EncodedProfile) -> ReassembledProfile {
    let mut reassembler = ProfileReassembler::default();
    for (packet_id, index) in [3_u8, 0, 2, 1].into_iter().enumerate() {
        let payload = encoded.frames()[usize::from(index)].as_slice();
        let result = reassembler
            .ingest(fragment(payload), source(packet_id as i64, index))
            .unwrap();
        if let FragmentEvent::Complete(profile) = result.event {
            return profile;
        }
    }
    unreachable!()
}

#[test]
fn stores_v1_fixture_byte_exact_and_links_live_packet() {
    let frame = decode_hex(FIXTURE).unwrap();
    let payload = parse_frame_hex(FIXTURE).unwrap();
    let packet = v1_packet_row(&payload, radio(), 5);
    assert_eq!(packet.disposition.database_value(), "v1");
    assert_eq!(packet.payload, payload.to_vec());
    assert_eq!(packet.protocol_version, Some(1));
    assert_eq!(packet.frame_type, None);
    let reading = reading_row(&frame, &payload, radio(), 5, Some(9));
    assert_eq!(reading.radio_packet_id, Some(9));
    assert_eq!(reading.payload, payload.to_vec());
    assert_eq!(reading.reading.node_id, "0102030405060708");
    assert_eq!(reading.reading.raw.gas_wait, 6);
}

#[test]
fn unsupported_packets_remain_byte_exact() {
    let payload = b"VS\x09future";
    let row = undecoded_packet_row(payload, radio(), 5, PacketDisposition::Unsupported, None);
    assert_eq!(row.payload, payload);
    assert_eq!(row.protocol_version, Some(9));
    assert_eq!(row.frame_type, Some(b'f'));
    assert_eq!(row.disposition.database_value(), "unsupported");
    let foreign = undecoded_packet_row(
        b"NO\x01",
        radio(),
        5,
        PacketDisposition::Invalid,
        Some("why".to_owned()),
    );
    assert_eq!(foreign.protocol_version, None);
    assert_eq!(foreign.frame_type, None);
    assert_eq!(foreign.decode_error.as_deref(), Some("why"));
    assert_eq!(foreign.disposition.database_value(), "invalid");
}

#[test]
fn stores_preconfiguration_health_with_zero_config_id_as_protocol_v2() {
    let common = v2::Common::boot_id_unavailable(1, 7, 12, 0, 0);
    let encoded = v2::encode_device_health(
        common,
        &v2::DeviceHealth {
            flags: v2::HEALTH_FLAG_BOOT_ID_UNAVAILABLE,
            reset_cause_raw: 0,
            successful_sensor_scans: 0,
            failed_sensor_scans: 1,
            incomplete_profiles: 0,
            i2c_errors: 1,
            radio_tx_errors: 0,
            dropped_profiles: 0,
            dropped_fragments: 0,
            overwritten_fields: 0,
            current_sample_interval_ms: 180_000,
            firmware_version: [2, 0, 0],
            profile_id: 0,
            profile_version: 0,
            last_sensor_error: 1,
            last_radio_error: 0,
            calibrated_mcu_temperature_centi_celsius: None,
            calibrated_vdd_millivolt: None,
        },
    )
    .unwrap();
    let v2::DecodedFrame::DeviceHealth { header, health } =
        v2::decode(encoded.as_slice()).unwrap()
    else {
        unreachable!()
    };
    let packet = v2_packet_row(encoded.as_slice(), radio(), 5, header);
    let record = device_health(header, health);
    let row = health_row(&record);
    assert_eq!(packet.disposition.database_value(), "v2");
    assert_eq!(packet.frame_type, Some(3));
    assert_eq!(row.identity.config_id, "0000000000000000");
    assert_eq!(row.firmware_version, "2.0.0");
    assert_eq!(record.profile_id, 0);
    assert_eq!(record.profile_version, 0);
    let decoded = decode_row(header, V2PacketKind::DeviceHealth);
    assert_eq!(decoded.record_kind, "device_health");
    assert_eq!(decoded.reassembly_status, "not_applicable");
    assert_eq!(decoded.identity.uptime_ms, "000000000000000c");
}

#[test]
fn stores_exact_v2_configuration_and_ten_step_profile() {
    let config_payload = parse_payload_hex(CONFIG_V2).unwrap();
    let v2::DecodedFrame::DeviceConfig { header, config } = v2::decode(&config_payload).unwrap()
    else {
        unreachable!()
    };
    assert_eq!(
        v2_packet_row(&config_payload, radio(), 5, header)
            .disposition
            .database_value(),
        "v2"
    );
    let configuration = device_configuration(header, config);
    let row = configuration_row(&configuration).unwrap();
    assert_eq!(row.identity.boot_id, "1112131415161718");
    assert_eq!(row.identity.config_id, "96392f014bce7745");
    assert_eq!(configuration.output_routes, 5);
    assert_eq!(configuration.heater_steps.len(), 10);
    assert_eq!(row.firmware_version, "2.3.4");
    assert_eq!(row.firmware_build_id, "a0a1a2a3a4a5a6a7");
    assert_eq!(row.calibration_hash, "b0b1b2b3b4b5b6b7");

    let encoded = protocol_profile(u32::MAX);
    let profile = complete_profile(&encoded);
    let row = profile_row(&profile).unwrap();
    assert_eq!(row.identity.boot_id, "ffffffffffffffff");
    assert_eq!(row.identity.uptime_ms, "ffffffffffffffff");
    assert!(row.transport_complete);
    assert_eq!(row.fragment_status, FragmentStorageStatus::Assembled);
    assert_eq!(row.first_received_at_unix_ms, 1_000);
    assert_eq!(row.last_received_at_unix_ms, 1_003);
    assert_eq!(profile.scan.steps.len(), 10);
    assert_eq!(profile.fragments.len(), 4);
    assert_eq!(profile.scan.steps[9].raw_measurement_status, 0x89);
}

#[test]
fn persisted_profile_detects_late_duplicate_and_conflict_without_cache() {
    let encoded = protocol_profile(11);
    let profile = complete_profile(&encoded);
    let duplicate_payload = encoded.frames()[0].as_slice();
    let persisted = vec![PersistedFragment {
        scan_id: 1,
        payload: duplicate_payload.to_vec(),
        duplicate_fragment_count: profile.scan.duplicate_fragment_count,
        conflicting_fragment_count: profile.scan.conflicting_fragment_count,
    }];
    assert_eq!(
        classify_persisted(&persisted, duplicate_payload),
        Some(PersistedFragmentMatch::Duplicate)
    );

    let mut conflict_payload = duplicate_payload.to_vec();
    let last = conflict_payload.len() - 1;
    conflict_payload[last] ^= 1;
    assert!(v2::decode(&conflict_payload).is_ok());
    assert_eq!(
        classify_persisted(&persisted, &conflict_payload),
        Some(PersistedFragmentMatch::Conflict)
    );
    assert_eq!(
        classify_persisted(&persisted, &duplicate_payload[..last]),
        Some(PersistedFragmentMatch::Conflict)
    );
    assert_eq!(classify_persisted(&Vec::new(), duplicate_payload), None);

    let (duplicates, conflicts) = counters_after(PersistedFragmentMatch::Duplicate, 0, 0);
    assert_eq!((duplicates, conflicts), (1, 0));
    let (duplicates, conflicts) =
        counters_after(PersistedFragmentMatch::Conflict, duplicates, conflicts);
    assert_eq!((duplicates, conflicts), (1, 1));
    assert_eq!(
        counters_after(PersistedFragmentMatch::Conflict, 0, u16::MAX),
        (0, u16::MAX)
    );
    assert_eq!(
        merged_counters(&vec![(1, 0), (0, 2), (3, u16::MAX)]),
        (4, u16::MAX)
    );
    assert_eq!(merged_counters(&Vec::new()), (0, 0));
    assert_eq!(
        PersistedFragmentMatch::Duplicate.storage_status().database_value(),
        "duplicate"
    );
    assert_eq!(
        PersistedFragmentMatch::Conflict.storage_status().database_value(),
        "conflict"
    );
}

#[test]
fn one_differing_copy_among_many_is_a_conflict() {
    let copy = |payload: &[u8]| PersistedFragment {
        scan_id: 1,
        payload: payload.to_vec(),
        duplicate_fragment_count: 0,
        conflicting_fragment_count: 0,
    };
    let persisted = vec![copy(b"same"), copy(b"same"), copy(b"diff")];
    assert_eq!(
        classify_persisted(&persisted, b"same"),
        Some(PersistedFragmentMatch::Conflict)
    );
}

#[test]
fn persists_receiver_missing_fragments_without_fabricating_link_metrics() {
    let encoded = protocol_profile(7);
    let mut reassembler = ProfileReassembler::default();
    reassembler
        .ingest(fragment(encoded.frames()[2].as_slice()), source(1, 2))
        .unwrap();
    let profile = reassembler.drain_incomplete().pop().unwrap();
    let row = profile_row(&profile).unwrap();
    assert_eq!(profile.scan.received_fragment_bitmap, 0b0100);
    assert_eq!(row.missing_fragment_bitmap, 0b1011);
    assert!(!row.transport_complete);
    assert_eq!(row.fragment_status.database_value(), "incomplete");
    assert_eq!(profile.fragments[0].radio.packet_rssi_centi_dbm, -4_200);
}

#[test]
fn pending_fragment_replay_is_exact_and_refuses_a_silent_prefix() {
    let encoded = protocol_profile(8);
    let mut archive = Vec::new();
    for (packet_id, index) in [2_usize, 0, 1].into_iter().enumerate() {
        let payload = encoded.frames()[index].as_slice();
        let v2::DecodedFrame::ProfileFragment(fragment) = v2::decode(payload).unwrap() else {
            unreachable!()
        };
        let packet = v2_packet_row(payload, radio(), 1_000, fragment.header);
        let decoded = decode_row(fragment.header, V2PacketKind::ProfileFragment);
        assert_eq!(decoded.reassembly_status, FragmentStorageStatus::Pending.database_value());
        archive.push((packet_id, packet, decoded.reassembly_status));
    }
    archive[1].2 = FragmentStorageStatus::Duplicate.database_value();
    let pending: Vec<_> = archive
        .iter()
        .filter(|row| row.2 == FragmentStorageStatus::Pending.database_value())
        .collect();
    assert_eq!(pending.len(), 2);
    assert_eq!(pending[0].0, archive[0].0);
    assert_eq!(pending[0].1.payload, encoded.frames()[2].as_slice());
    assert_eq!(pending[0].1.radio, radio());
    assert_eq!(pending[1].0, archive[2].0);

    assert_eq!(
        check_pending(2, 1),
        Err(StorageError::PendingReplayLimitExceeded { pending: 2, limit: 1 })
    );
    assert_eq!(check_pending(2, 0), Err(StorageError::InvalidPendingReplayLimit));
    assert_eq!(replay_bound(0), Err(StorageError::InvalidPendingReplayLimit));
    assert_eq!(check_pending(2, 2), Ok(2));
    assert_eq!(check_pending(0, 1_024), Ok(1_024));
}

#[test]
fn rejects_unknown_schema_version() {
    assert_eq!(
        plan_migration(99),
        Err(StorageError::UnsupportedSchemaVersion { found: 99 })
    );
    assert_eq!(plan_migration(0), Ok(Migration::Create));
    assert_eq!(plan_migration(1), Ok(Migration::AddArchive));
    assert_eq!(plan_migration(2), Ok(Migration::RebuildArchive));
    assert_eq!(plan_migration(3), Ok(Migration::Keep));
    assert!(plan_migration(-1).is_err());
}

#[test]
fn frame_type_values_match_wire_discriminants() {
    assert_eq!(FrameType::DeviceConfig.wire_code(), 1);
    assert_eq!(FrameType::ProfileFragment.wire_code(), 2);
    assert_eq!(FrameType::DeviceHealth.wire_code(), 3);
}

#[test]
fn invalid_profiles_are_not_stored() {
    let mut profile = complete_profile(&protocol_profile(9));
    profile.fragments.clear();
    assert_eq!(profile_row(&profile), Err(StorageError::ProfileWithoutFragments));
    profile.scan.expected_steps = 11;
    assert_eq!(
        profile_row(&profile),
        Err(StorageError::InvalidRecord(RecordError::InvalidExpectedSteps(11)))
    );
}

#[test]
fn storage_checks_report_their_own_errors() {
    assert_eq!(unix_ms(7), Ok(7));
    assert_eq!(
        unix_ms(u128::from(u64::MAX)),
        Err(StorageError::TimestampOutOfRange)
    );
    assert_eq!(linked_time(4, Some(9)), Ok(9));
    assert_eq!(linked_time(4, None), Err(StorageError::MissingV2Packet { packet_id: 4 }));
    assert_eq!(check_marked(1, 4), Ok(()));
    assert_eq!(check_marked(0, 4), Err(StorageError::MissingV2Packet { packet_id: 4 }));
    assert_eq!(check_migrated(0), Ok(()));
    assert_eq!(
        check_migrated(2),
        Err(StorageError::MigrationForeignKeyViolations { count: 2 })
    );
    assert_eq!(semver_text([2, 30, 255]), "2.30.255");
    assert_eq!(FragmentStorageStatus::Pending.database_value(), "pending");
}

#[test]
fn storage_errors_have_readable_messages() {
    assert_eq!(
        StorageError::UnsupportedSchemaVersion { found: 99 }.message(),
        "unsupported telemetry database schema version 99; expected 3"
    );
    assert_eq!(
        StorageError::PendingReplayLimitExceeded { pending: 2, limit: 1 }.message(),
        "2 pending profile fragments exceed startup replay limit 1"
    );
    assert_eq!(
        StorageError::MissingV2Packet { packet_id: -4 }.message(),
        "v2 source packet -4 does not exist"
    );
    assert_eq!(
        StorageError::InvalidRecord(RecordError::InvalidExpectedSteps(11)).message(),
        "invalid decoded record: invalid expected heater-step count 11"
    );
    assert_eq!(
        StorageError::MigrationForeignKeyViolations { count: 2 }.message(),
        "schema migration left 2 foreign-key violation(s)"
    );
}
