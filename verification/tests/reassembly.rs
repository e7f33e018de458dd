use vesta::convert::{convert_non_profile, record_identity, ConvertedRecord};
use vesta::reassembly::{
    profile_key, FragmentEvent, ProfileKey, ProfileReassembler, ReassemblyError, SourceFragment,
};
use vesta::records::RecordIdentity;
use vesta::{v2, RadioMetadata};

fn common(sequence: u32) -> v2::Common {
    v2::Common::production(1, u64::MAX, sequence, 1_000, 9, 2)
}

fn step(index: u8) -> v2::ProfileStep {
    v2::ProfileStep {
        step_index: index,
        gas_index: index,
        measurement_index: index,
        status: 0xb0,
        raw_measurement_status: 0x80 | index,
        raw_gas_status: 0x35,
        target_temperature_celsius: 200 + u16::from(index),
        configured_duration_us: 100_000,
        offset_us: u32::from(index) * 100_000,
        temperature_centi_celsius: 2_500,
        pressure_pascal: 101_325,
        humidity_milli_percent_rh: 40_000,
        gas_resistance_ohm: 20_000,
        temperature_adc: 1,
        pressure_adc: 2,
        humidity_adc: 3,
        gas_resistance_adc: 4,
        gas_range: 5,
        repetition_multiplier: 2,
        heater_resistance: 6,
        heater_current: 7,
        gas_wait: 8,
    }
}

fn encoded_profile(sequence: u32) -> v2::EncodedProfile {
    encoded_profile_with_common(common(sequence))
}

fn encoded_profile_with_common(common: v2::Common) -> v2::EncodedProfile {
    let mut steps = [None; v2::MAX_PROFILE_STEPS];
    for index in 0..10_u8 {
        steps[usize::from(index)] = Some(step(index));
    }
    v2::encode_profile(
        common,
        &v2::ProfileScan {
            profile_id: 1,
            profile_version: 1,
            expected_step_count: 10,
            observed_unique_step_count: 10,
            observed_field_count: 10,
            missing_steps_bitmap: 0,
            duplicate_steps_bitmap: 0,
            scan_duration_us: 1_000_000,
            collection_flags: 0,
            finish_reason: v2::FINISH_REASON_COMPLETE,
            duplicate_count: 0,
            overwritten_field_count: 0,
            out_of_order_count: 0,
            ambiguous_index_jump_count: 0,
            invalid_gas_index_count: 0,
            intermediate_field_count: 0,
            profile_rollover_count: 0,
            fields_after_rollover_count: 0,
            poll_count: 20,
            steps,
        },
    )
    .unwrap()
}

fn source(index: u8, received_at: i64) -> SourceFragment {
    SourceFragment {
        packet_id: i64::from(index) + 1,
        fragment_index: index,
        received_at_unix_ms: received_at,
        radio: RadioMetadata {
            packet_rssi_centi_dbm: -4_200,
            snr_centi_db: 1_250,
            signal_rssi_centi_dbm: -4_250,
        },
    }
}

fn fragment(bytes: &[u8]) -> v2::ProfileFragmentView<'_> {
    let v2::DecodedFrame::ProfileFragment(fragment) = v2::decode(bytes).unwrap() else {
        unreachable!()
    };
    fragment
}

#[test]
fn reassembles_ten_steps_out_of_order_without_truncating_to_three() {
    let encoded = encoded_profile(1);
    let frames = encoded.frames();
    let mut reassembler = ProfileReassembler::default();
    for index in [3_usize, 1, 0] {
        let result = reassembler
            .ingest(
                fragment(frames[index].as_slice()),
                source(u8::try_from(index).unwrap(), i64::try_from(index).unwrap()),
            )
            .unwrap();
        assert!(matches!(result.event, FragmentEvent::Pending(_)));
    }
    let result = reassembler
        .ingest(fragment(frames[2].as_slice()), source(2, 4))
        .unwrap();
    let FragmentEvent::Complete(profile) = result.event else {
        panic!("expected completion")
    };
    assert_eq!(profile.scan.steps.len(), 10);
    assert_eq!(profile.scan.received_fragment_bitmap, 0b1111);
    assert_eq!(profile.scan.validate(), Ok(()));
}

#[test]
fn unavailable_boot_quick_reboots_use_scan_uptime_as_reassembly_identity() {
    let first = encoded_profile_with_common(v2::Common::boot_id_unavailable(1, 0, 100, 9, 2));
    let second = encoded_profile_with_common(v2::Common::boot_id_unavailable(1, 0, 200, 9, 2));
    let mut reassembler = ProfileReassembler::default();

    let first_pending = reassembler
        .ingest(fragment(first.frames()[0].as_slice()), source(0, 1))
        .unwrap();
    let second_pending = reassembler
        .ingest(fragment(second.frames()[0].as_slice()), source(0, 2))
        .unwrap();
    let FragmentEvent::Pending(first_progress) = first_pending.event else {
        panic!("expected first pending scan")
    };
    let FragmentEvent::Pending(second_progress) = second_pending.event else {
        panic!("expected second pending scan")
    };
    assert!(!first_progress.key.boot_id_valid);
    assert_eq!(first_progress.key.uptime_ms, 100);
    assert_eq!(second_progress.key.uptime_ms, 200);
    assert_ne!(first_progress.key, second_progress.key);
    assert_eq!(reassembler.active_len(), 2);

    let mut completed_uptimes = Vec::new();
    for encoded in [&first, &second] {
        for index in 1..4_usize {
            let result = reassembler
                .ingest(
                    fragment(encoded.frames()[index].as_slice()),
                    source(
                        u8::try_from(index).unwrap(),
                        i64::try_from(index + 2).unwrap(),
                    ),
                )
                .unwrap();
            if let FragmentEvent::Complete(profile) = result.event {
                completed_uptimes.push(profile.scan.identity.uptime_ms);
            }
        }
    }
    assert_eq!(completed_uptimes, vec![100, 200]);
    assert_eq!(reassembler.active_len(), 0);
}

#[test]
fn boot_validity_bit_is_part_of_reassembly_identity() {
    let unavailable =
        encoded_profile_with_common(v2::Common::boot_id_unavailable(1, 7, 100, 9, 2));
    let valid_zero = encoded_profile_with_common(v2::Common::production(1, 0, 7, 100, 9, 2));
    let mut reassembler = ProfileReassembler::default();
    let unavailable_result = reassembler
        .ingest(fragment(unavailable.frames()[0].as_slice()), source(0, 1))
        .unwrap();
    let valid_result = reassembler
        .ingest(fragment(valid_zero.frames()[0].as_slice()), source(0, 2))
        .unwrap();
    let FragmentEvent::Pending(unavailable_progress) = unavailable_result.event else {
        panic!("expected unavailable pending scan")
    };
    let FragmentEvent::Pending(valid_progress) = valid_result.event else {
        panic!("expected valid pending scan")
    };
    assert!(!unavailable_progress.key.boot_id_valid);
    assert!(valid_progress.key.boot_id_valid);
    assert_ne!(unavailable_progress.key, valid_progress.key);
    assert_eq!(reassembler.active_len(), 2);
}

#[test]
fn detects_duplicates_before_and_after_completion() {
    let encoded = encoded_profile(2);
    let frames = encoded.frames();
    let mut reassembler = ProfileReassembler::default();
    reassembler
        .ingest(fragment(frames[0].as_slice()), source(0, 0))
        .unwrap();
    assert!(matches!(
        reassembler
            .ingest(fragment(frames[0].as_slice()), source(0, 1))
            .unwrap()
            .event,
        FragmentEvent::Duplicate {
            fragment_index: 0,
            ..
        }
    ));
    for (index, frame) in frames.iter().enumerate().take(4).skip(1) {
        reassembler
            .ingest(
                fragment(frame.as_slice()),
                source(u8::try_from(index).unwrap(), i64::try_from(index).unwrap()),
            )
            .unwrap();
    }
    assert!(matches!(
        reassembler
            .ingest(fragment(frames[3].as_slice()), source(3, 9))
            .unwrap()
            .event,
        FragmentEvent::Duplicate {
            fragment_index: 3,
            ..
        }
    ));
}

#[test]
fn rejects_a_conflicting_duplicate_without_overwriting_first_data() {
    let encoded = encoded_profile(22);
    let intact = encoded.frames()[0].as_slice();
    let mut altered = intact.to_vec();
    let last = altered.len() - 1;
    altered[last] ^= 1;
    let mut reassembler = ProfileReassembler::default();
    reassembler
        .ingest(fragment(intact), source(0, 0))
        .unwrap();
    assert!(matches!(
        reassembler
            .ingest(fragment(&altered), source(0, 1))
            .unwrap()
            .event,
        FragmentEvent::Conflict {
            fragment_index: 0,
            ..
        }
    ));
}

#[test]
fn monotonic_expiration_ignores_wall_clock_and_reports_missing_fragments() {
    let encoded = encoded_profile(3);
    let mut reassembler = ProfileReassembler::default();
    let observed_at = reassembler.now();
    reassembler
        .ingest_at(
            fragment(encoded.frames()[1].as_slice()),
            source(1, i64::MAX),
            observed_at,
        )
        .unwrap();
    let expired = reassembler.expire_before(observed_at + 1_000_000);
    assert_eq!(expired.len(), 1);
    assert_eq!(expired[0].scan.received_fragment_bitmap, 0b0010);
    assert_eq!(expired[0].scan.missing_fragment_bitmap(), 0b1101);
    assert_eq!(expired[0].scan.steps.len(), 3);
    assert_eq!(expired[0].scan.validate(), Ok(()));
}

#[test]
fn bounded_capacity_returns_evicted_profile() {
    let one = encoded_profile(4);
    let two = encoded_profile(5);
    let mut reassembler = ProfileReassembler::with_capacity(1).unwrap();
    reassembler
        .ingest(fragment(one.frames()[0].as_slice()), source(0, 10))
        .unwrap();
    let result = reassembler
        .ingest(fragment(two.frames()[0].as_slice()), source(0, 20))
        .unwrap();
    assert_eq!(result.evicted.unwrap().scan.identity.scan_sequence, 4);
    assert_eq!(reassembler.active_len(), 1);
}

#[test]
fn the_first_copy_of_a_conflicting_fragment_is_kept() {
    let encoded = encoded_profile(30);
    let mut altered = encoded.frames()[0].as_slice().to_vec();
    let last = altered.len() - 1;
    altered[last] ^= 1;
    let mut reassembler = ProfileReassembler::default();
    reassembler
        .ingest(fragment(encoded.frames()[0].as_slice()), source(0, 0))
        .unwrap();
    reassembler
        .ingest(fragment(&altered), source(0, 1))
        .unwrap();
    for index in 1..4_u8 {
        let result = reassembler
            .ingest(
                fragment(encoded.frames()[usize::from(index)].as_slice()),
                source(index, 2),
            )
            .unwrap();
        if let FragmentEvent::Complete(profile) = result.event {
            assert_eq!(profile.scan.steps[2].raw_gas_wait, 8);
            assert_eq!(profile.scan.conflicting_fragment_count, 1);
            assert_eq!(profile.first_received_at_unix_ms(), Some(0));
            assert_eq!(profile.last_received_at_unix_ms(), Some(2));
            return;
        }
    }
    panic!("expected completion");
}

#[test]
fn a_source_that_names_another_fragment_is_refused() {
    let encoded = encoded_profile(31);
    let mut reassembler = ProfileReassembler::default();
    assert_eq!(
        reassembler.ingest(fragment(encoded.frames()[1].as_slice()), source(0, 0)),
        Err(ReassemblyError::SourceFragmentIndex { source: 0, wire: 1 })
    );
    assert_eq!(reassembler.active_len(), 0);
    assert_eq!(
        ReassemblyError::SourceFragmentIndex { source: 0, wire: 1 }.message(),
        "SourceFragmentIndex { source: 0, wire: 1 }"
    );
}

#[test]
fn a_reassembler_needs_room() {
    assert!(matches!(
        ProfileReassembler::with_capacity(0),
        Err(ReassemblyError::InvalidCapacity)
    ));
    assert_eq!(
        ReassemblyError::from(v2::Error::BufferExhausted).message(),
        "Codec(BufferExhausted)"
    );
}

#[test]
fn draining_and_expiry_hand_out_each_scan_once() {
    let one = encoded_profile(32);
    let two = encoded_profile(33);
    let mut reassembler = ProfileReassembler::default();
    reassembler
        .ingest_at(fragment(one.frames()[0].as_slice()), source(0, 0), 1_000)
        .unwrap();
    reassembler
        .ingest_at(fragment(two.frames()[0].as_slice()), source(0, 0), 2_000)
        .unwrap();
    let expired = reassembler.expire_before(2_000);
    assert_eq!(expired.len(), 1);
    assert_eq!(expired[0].scan.identity.scan_sequence, 32);
    assert!(reassembler.expire_older_than(u128::MAX).is_empty());
    let drained = reassembler.drain_incomplete();
    assert_eq!(drained.len(), 1);
    assert_eq!(drained[0].scan.identity.scan_sequence, 33);
    assert_eq!(reassembler.active_len(), 0);
    assert!(reassembler.drain_incomplete().is_empty());
}

#[test]
fn the_order_of_arrival_shows_in_the_sources_alone() {
    let encoded = encoded_profile(40);
    let mut scans = Vec::new();
    for order in [[0_u8, 1, 2, 3], [3, 1, 0, 2]] {
        let mut reassembler = ProfileReassembler::default();
        for (position, index) in order.into_iter().enumerate() {
            let result = reassembler
                .ingest(
                    fragment(encoded.frames()[usize::from(index)].as_slice()),
                    source(index, i64::from(index)),
                )
                .unwrap();
            assert!(result.evicted.is_none());
            match result.event {
                FragmentEvent::Pending(_) => assert!(position < 3),
                FragmentEvent::Complete(profile) => {
                    assert_eq!(position, 3);
                    let arrived: Vec<u8> =
                        profile.fragments.iter().map(|source| source.fragment_index).collect();
                    assert_eq!(arrived, order);
                    scans.push(profile.scan);
                }
                other => panic!("unexpected {other:?}"),
            }
        }
        assert_eq!(reassembler.active_len(), 0);
    }
    assert_eq!(scans.len(), 2);
    assert_eq!(scans[0], scans[1]);
    assert_eq!(scans[0].received_fragment_bitmap, 0b1111);
}

#[test]
fn a_stored_identity_has_the_key_of_its_header() {
    let encoded = encoded_profile(41);
    let header = fragment(encoded.frames()[0].as_slice()).header;
    let identity = record_identity(header);
    assert_eq!(profile_key(identity), ProfileKey::from(&header));
    assert!(profile_key(identity).boot_id_valid);
    let unavailable = RecordIdentity { common_flags: 0x06, ..identity };
    assert!(!profile_key(unavailable).boot_id_valid);
}

#[test]
fn an_old_scan_leaves_and_a_young_one_stays() {
    let one = encoded_profile(36);
    let two = encoded_profile(37);
    let mut reassembler = ProfileReassembler::default();
    reassembler
        .ingest_at(fragment(one.frames()[0].as_slice()), source(0, 0), 1_000)
        .unwrap();
    reassembler
        .ingest_at(fragment(two.frames()[0].as_slice()), source(0, 0), 2_000)
        .unwrap();
    assert!(reassembler.expire_older_than_at(499, 500).is_empty());
    assert!(reassembler.expire_older_than_at(1_500, 500).is_empty());
    assert_eq!(reassembler.active_len(), 2);
    let expired = reassembler.expire_older_than_at(1_501, 500);
    assert_eq!(expired.len(), 1);
    assert_eq!(expired[0].scan.identity.scan_sequence, 36);
    assert_eq!(reassembler.active_len(), 1);
    assert!(reassembler.expire_older_than_at(2_500, 500).is_empty());
    let expired = reassembler.expire_older_than_at(2_501, 500);
    assert_eq!(expired.len(), 1);
    assert_eq!(expired[0].scan.identity.scan_sequence, 37);
    assert_eq!(reassembler.active_len(), 0);
}

#[test]
fn the_clock_expires_what_is_older_than_any_age() {
    let encoded = encoded_profile(38);
    let mut reassembler = ProfileReassembler::default();
    reassembler
        .ingest_at(fragment(encoded.frames()[0].as_slice()), source(0, 0), 0)
        .unwrap();
    let started = reassembler.now();
    while reassembler.now() <= started {}
    assert_eq!(reassembler.expire_older_than(0).len(), 1);
    assert_eq!(reassembler.active_len(), 0);
}

#[test]
fn repeated_fragments_are_only_counted() {
    let encoded = encoded_profile(39);
    let mut altered = encoded.frames()[0].as_slice().to_vec();
    let last = altered.len() - 1;
    altered[last] ^= 1;
    let mut plain = ProfileReassembler::default();
    let mut repeated = ProfileReassembler::default();
    for reassembler in [&mut plain, &mut repeated] {
        reassembler
            .ingest_at(fragment(encoded.frames()[0].as_slice()), source(0, 1), 10)
            .unwrap();
    }
    let same = repeated
        .ingest_at(fragment(encoded.frames()[0].as_slice()), source(0, 2), 20)
        .unwrap();
    assert!(matches!(same.event, FragmentEvent::Duplicate { fragment_index: 0, .. }));
    assert!(same.evicted.is_none());
    let other = repeated
        .ingest_at(fragment(&altered), source(0, 3), 30)
        .unwrap();
    assert!(matches!(other.event, FragmentEvent::Conflict { fragment_index: 0, .. }));
    assert!(other.evicted.is_none());
    assert_eq!(repeated.active_len(), 1);
    for index in 1..4_u8 {
        let frame = encoded.frames()[usize::from(index)].as_slice();
        let expected = plain.ingest_at(fragment(frame), source(index, 4), 40).unwrap();
        let found = repeated.ingest_at(fragment(frame), source(index, 4), 40).unwrap();
        match (expected.event, found.event) {
            (FragmentEvent::Complete(mut expected), FragmentEvent::Complete(found)) => {
                expected.scan.duplicate_fragment_count += 1;
                expected.scan.conflicting_fragment_count += 1;
                assert_eq!(found, expected);
            }
            (expected, found) => assert_eq!(found, expected),
        }
    }
    assert_eq!(repeated.active_len(), 0);
}

#[test]
fn profile_fragments_are_not_converted_on_their_own() {
    let encoded = encoded_profile(34);
    let decoded = v2::decode(encoded.frames()[0].as_slice()).unwrap();
    assert!(convert_non_profile(decoded).is_none());
    let health = v2::encode_device_health(
        common(35),
        &v2::DeviceHealth {
            flags: 0,
            reset_cause_raw: 1,
            successful_sensor_scans: 2,
            failed_sensor_scans: 3,
            incomplete_profiles: 4,
            i2c_errors: 5,
            radio_tx_errors: 6,
            dropped_profiles: 7,
            dropped_fragments: 8,
            overwritten_fields: 9,
            current_sample_interval_ms: 10,
            firmware_version: [1, 2, 3],
            profile_id: 1,
            profile_version: 1,
            last_sensor_error: 11,
            last_radio_error: 12,
            calibrated_mcu_temperature_centi_celsius: Some(-5),
            calibrated_vdd_millivolt: Some(3_300),
        },
    )
    .unwrap();
    match convert_non_profile(v2::decode(health.as_slice()).unwrap()) {
        Some(ConvertedRecord::DeviceHealth(record)) => {
            assert_eq!(record.identity.scan_sequence, 35);
            assert_eq!(record.overwritten_fields, 9);
            assert_eq!(record.calibrated_mcu_temperature_centi_celsius, Some(-5));
            assert_eq!(record.calibrated_vdd_millivolt, Some(3_300));
        }
        other => panic!("unexpected {other:?}"),
    }
}
