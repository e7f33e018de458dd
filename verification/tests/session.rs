use vesta::reassembly::{ProfileKey, ProfileReassembler, ReassemblyError, SourceFragment};
use vesta::session::{
    archived_source, event_diagnostic, ingest_archived_profile_fragment, read_frame_text, rehydrate,
    replay_pending, replay_time, route_packet, FragmentAction, LineOutcome, ListenCounters,
    ListenLimits, PacketOutcome, QuarantinedPacket, Rehydration, Replay, Route, StreamState,
    MAX_POLL_NANOS,
};
use vesta::storage::{
    FragmentStorageStatus, PacketDisposition, PartialScan, PendingProfileFragment,
    PersistedFragmentMatch, StoredSource, V2PacketKind,
};
use vesta::sx1262::ReceiveEvent;
use vesta::{v2, RadioMetadata};

const FIXTURE: &str = "565301b001020304050607080a0b0c0dfb2e00018bcd0000b26e000f12060007eed00005902075300200080203040506";

fn radio_metadata() -> RadioMetadata {
    RadioMetadata {
        packet_rssi_centi_dbm: -4_200,
        snr_centi_db: 1_250,
        signal_rssi_centi_dbm: -4_250,
    }
}

fn encoded_profile() -> v2::EncodedProfile {
    let mut steps = [None; v2::MAX_PROFILE_STEPS];
    for index in 0..4_u8 {
        steps[usize::from(index)] = Some(v2::ProfileStep {
            step_index: index,
            gas_index: index,
            measurement_index: index,
            status: 0xb0,
            raw_measurement_status: 0x80 | index,
            raw_gas_status: 0x35,
            target_temperature_celsius: 200 + u16::from(index),
            configured_duration_us: 100_000,
            offset_us: u32::from(index) * 100_000,
            temperature_centi_celsius: 2_500,
            pressure_pascal: 101_325,
            humidity_milli_percent_rh: 40_000,
            gas_resistance_ohm: 20_000,
            temperature_adc: 1,
            pressure_adc: 2,
            humidity_adc: 3,
            gas_resistance_adc: 4,
            gas_range: 5,
            repetition_multiplier: 1,
            heater_resistance: 6,
            heater_current: 7,
            gas_wait: 8,
        });
    }
    v2::encode_profile(
        v2::Common::production(1, 2, 3, 4, 5, 0),
        &v2::ProfileScan {
            profile_id: 6,
            profile_version: 1,
            expected_step_count: 4,
            observed_unique_step_count: 4,
            observed_field_count: 4,
            missing_steps_bitmap: 0,
            duplicate_steps_bitmap: 0,
            scan_duration_us: 400_000,
            collection_flags: 0,
            finish_reason: v2::FINISH_REASON_COMPLETE,
            duplicate_count: 0,
            overwritten_field_count: 0,
            out_of_order_count: 0,
            ambiguous_index_jump_count: 0,
            invalid_gas_index_count: 0,
            intermediate_field_count: 0,
            profile_rollover_count: 0,
            fields_after_rollover_count: 0,
            poll_count: 8,
            steps,
        },
    )
    .unwrap()
}

fn archived(packet_id: i64, payload: &[u8]) -> PendingProfileFragment {
    PendingProfileFragment {
        packet_id,
        received_at_unix_ms: 1_000 + packet_id,
        radio: radio_metadata(),
        payload: payload.to_vec(),
    }
}

#[test]
fn startup_reconciles_archived_pending_fragments_after_restart() {
    let encoded = encoded_profile();
    let pending = [
        archived(1, encoded.frames()[1].as_slice()),
        archived(2, encoded.frames()[0].as_slice()),
    ];
    let mut reassembler = ProfileReassembler::default();
    let started = reassembler.now();
    let mut persisted = Vec::new();
    for (ordinal, fragment) in pending.iter().enumerate() {
        let Replay::Fragment(view) = replay_pending(fragment) else {
            panic!("expected a fragment");
        };
        let actions = ingest_archived_profile_fragment(
            &mut reassembler,
            None,
            view,
            archived_source(fragment, view.header.fragment_index),
            replay_time(started, ordinal),
        )
        .unwrap();
        for action in actions {
            if let FragmentAction::Persist(profile) = action {
                persisted.push(profile);
            }
        }
    }
    assert_eq!(reassembler.active_len(), 0);
    assert_eq!(persisted.len(), 1);
    assert_eq!(persisted[0].scan.steps.len(), 4);
    assert_eq!(persisted[0].fragments[0].packet_id, 1);
    assert_eq!(persisted[0].fragments[1].packet_id, 2);
}

#[test]
fn packets_that_cannot_be_replayed_are_quarantined() {
    let encoded = encoded_profile();
    let mut poison = encoded.frames()[0].as_slice().to_vec();
    poison[3] = 9;
    assert_eq!(
        replay_pending(&archived(7, &poison)),
        Replay::Quarantine {
            error: "pending profile packet 7 no longer decodes: UnknownFrameType(9)".to_owned(),
        }
    );
    let health = v2::encode_device_health(
        v2::Common::production(1, 2, 3, 4, 5, 0),
        &v2::DeviceHealth {
            flags: 0,
            reset_cause_raw: 0,
            successful_sensor_scans: 0,
            failed_sensor_scans: 0,
            incomplete_profiles: 0,
            i2c_errors: 0,
            radio_tx_errors: 0,
            dropped_profiles: 0,
            dropped_fragments: 0,
            overwritten_fields: 0,
            current_sample_interval_ms: 1,
            firmware_version: [1, 0, 0],
            profile_id: 1,
            profile_version: 1,
            last_sensor_error: 0,
            last_radio_error: 0,
            calibrated_mcu_temperature_centi_celsius: None,
            calibrated_vdd_millivolt: None,
        },
    )
    .unwrap();
    assert_eq!(
        replay_pending(&archived(8, health.as_slice())),
        Replay::Quarantine {
            error: "pending profile packet 8 decodes as another frame type".to_owned(),
        }
    );
}

#[test]
fn replay_time_saturates_at_its_start() {
    assert_eq!(replay_time(10, 3), 13);
    assert_eq!(replay_time(u128::MAX, 1), u128::MAX);
}

#[test]
fn packets_are_routed_by_what_they_decode_to() {
    let v1 = vesta::parse_frame_hex(FIXTURE).unwrap();
    assert_eq!(route_packet(&v1).outcome(), PacketOutcome::ValidV1);
    let encoded = encoded_profile();
    match route_packet(encoded.frames()[1].as_slice()) {
        Route::V2 { header, kind, .. } => {
            assert_eq!(header.fragment_index, 1);
            assert_eq!(kind, V2PacketKind::ProfileFragment);
            assert_eq!(kind.database_value(), "profile_fragment");
            assert_eq!(kind.initial_reassembly_status(), "pending");
        }
        other => panic!("unexpected {other:?}"),
    }
    match route_packet(&v1[..40]) {
        Route::Undecodable { disposition, .. } => {
            assert_eq!(disposition, PacketDisposition::Invalid);
        }
        other => panic!("unexpected {other:?}"),
    }
    for unsupported in [&b"VS\x09future"[..], b"NO", b"HELLO"] {
        let route = route_packet(unsupported);
        assert_eq!(route.outcome(), PacketOutcome::Unsupported);
    }
}

#[test]
fn listening_stops_at_its_limits() {
    let counters = ListenCounters::default();
    let unlimited = ListenLimits { maximum_frames: None, duration_nanos: None };
    assert_eq!(counters.next_poll(unlimited, u128::MAX, false), Some(MAX_POLL_NANOS));
    assert_eq!(counters.next_poll(unlimited, 0, true), None);
    let timed = ListenLimits { maximum_frames: None, duration_nanos: Some(1_000_000_000) };
    assert_eq!(counters.next_poll(timed, 0, false), Some(250_000_000));
    assert_eq!(counters.next_poll(timed, 900_000_000, false), Some(100_000_000));
    assert_eq!(counters.next_poll(timed, 1_000_000_000, false), Some(0));
    assert_eq!(counters.next_poll(timed, 1_000_000_001, false), None);
    let counted = ListenLimits { maximum_frames: Some(2), duration_nanos: None };
    let mut counters = counters;
    counters.count_packet(PacketOutcome::ValidV1);
    assert!(counters.next_poll(counted, 0, false).is_some());
    counters.count_packet(PacketOutcome::ValidV2);
    assert_eq!(counters.next_poll(counted, 0, false), None);
}

#[test]
fn everything_seen_is_counted_and_reported() {
    let mut counters = ListenCounters::default();
    counters.count_packet(PacketOutcome::ValidV1);
    counters.count_packet(PacketOutcome::Unsupported);
    counters.count_packet(PacketOutcome::Unsupported);
    counters.count_packet(PacketOutcome::Invalid);
    for event in [
        ReceiveEvent::HeaderError { irq: 0x20 },
        ReceiveEvent::CrcError { irq: 0x42 },
        ReceiveEvent::CrcError { irq: 0x42 },
        ReceiveEvent::RadioTimeout { irq: 0x200 },
        ReceiveEvent::OtherIrq(1),
    ] {
        counters.count_event(&event);
    }
    assert_eq!(
        counters.summary(),
        "listen stopped: valid_frames=1, unsupported=2, header_errors=1, crc_errors=2, protocol_errors=1"
    );
    let mut full = ListenCounters { crc_errors: u64::MAX, ..counters };
    full.count_packet(PacketOutcome::ValidV2);
    full.count_event(&ReceiveEvent::HeaderError { irq: 0x20 });
    assert_eq!(
        full,
        ListenCounters { valid_frames: 2, header_errors: 2, crc_errors: u64::MAX, ..counters }
    );
    assert_eq!(
        event_diagnostic(&ReceiveEvent::HeaderError { irq: 0x20 }).unwrap(),
        "radio: rejected LoRa header (IRQ 0x0020)"
    );
    assert_eq!(
        event_diagnostic(&ReceiveEvent::CrcError { irq: 0x42 }).unwrap(),
        "radio: rejected PHY CRC (IRQ 0x0042)"
    );
    assert_eq!(
        event_diagnostic(&ReceiveEvent::RadioTimeout { irq: 0x200 }).unwrap(),
        "radio: unexpected RX timeout (IRQ 0x0200)"
    );
    assert_eq!(
        event_diagnostic(&ReceiveEvent::OtherIrq(1)).unwrap(),
        "radio: unexpected IRQ 0x0001"
    );
}

#[test]
fn fragments_lead_to_actions() {
    let encoded = encoded_profile();
    let v2::DecodedFrame::ProfileFragment(first) =
        v2::decode(encoded.frames()[0].as_slice()).unwrap()
    else {
        unreachable!()
    };
    let source = SourceFragment {
        packet_id: 11,
        fragment_index: 0,
        received_at_unix_ms: 1,
        radio: radio_metadata(),
    };
    let mut reassembler = ProfileReassembler::default();
    assert_eq!(
        ingest_archived_profile_fragment(&mut reassembler, None, first, source, 0).unwrap(),
        [FragmentAction::Report(
            "v2 profile 0000000000000001/valid=true/0000000000000002/3/uptime=4/config=0000000000000005 pending fragments 0x2".to_owned()
        )]
    );
    let actions =
        ingest_archived_profile_fragment(&mut reassembler, None, first, source, 0).unwrap();
    let snapshot = reassembler.snapshot(ProfileKey::from(&first.header));
    assert_eq!(snapshot.as_ref().unwrap().scan.duplicate_fragment_count, 1);
    assert_eq!(
        actions,
        [
            FragmentAction::Mark {
                packet_id: 11,
                status: FragmentStorageStatus::Duplicate,
                snapshot,
            },
            FragmentAction::Report("v2 profile duplicate fragment 0 in packet 11".to_owned()),
        ]
    );
    let mut altered = encoded.frames()[0].as_slice().to_vec();
    let last = altered.len() - 1;
    altered[last] ^= 1;
    let v2::DecodedFrame::ProfileFragment(conflicting) = v2::decode(&altered).unwrap() else {
        unreachable!()
    };
    let actions =
        ingest_archived_profile_fragment(&mut reassembler, None, conflicting, source, 0).unwrap();
    let snapshot = reassembler.snapshot(ProfileKey::from(&first.header));
    let scan = &snapshot.as_ref().unwrap().scan;
    assert_eq!(scan.duplicate_fragment_count, 1);
    assert_eq!(scan.conflicting_fragment_count, 1);
    assert_eq!(scan.received_fragment_bitmap, 0b01);
    assert_eq!(
        actions,
        [
            FragmentAction::Mark {
                packet_id: 11,
                status: FragmentStorageStatus::Conflict,
                snapshot,
            },
            FragmentAction::Report("v2 profile conflicting fragment 0 in packet 11".to_owned()),
        ]
    );
    let other = SourceFragment { fragment_index: 1, ..source };
    assert_eq!(
        ingest_archived_profile_fragment(&mut reassembler, None, first, other, 0),
        Err(ReassemblyError::SourceFragmentIndex { source: 1, wire: 0 })
    );
    assert_eq!(reassembler.active_len(), 1);
}

#[test]
fn evicted_profiles_are_persisted_before_anything_else() {
    let encoded = encoded_profile();
    let mut second = encoded.frames()[0].as_slice().to_vec();
    second[29] ^= 1;
    let v2::DecodedFrame::ProfileFragment(one) =
        v2::decode(encoded.frames()[0].as_slice()).unwrap()
    else {
        unreachable!()
    };
    let v2::DecodedFrame::ProfileFragment(two) = v2::decode(&second).unwrap() else {
        unreachable!()
    };
    let source = SourceFragment {
        packet_id: 1,
        fragment_index: 0,
        received_at_unix_ms: 1,
        radio: radio_metadata(),
    };
    let mut reassembler = ProfileReassembler::with_capacity(1).unwrap();
    ingest_archived_profile_fragment(&mut reassembler, None, one, source, 0).unwrap();
    let actions = ingest_archived_profile_fragment(&mut reassembler, None, two, source, 0).unwrap();
    assert_eq!(actions.len(), 2);
    match &actions[0] {
        FragmentAction::Persist(profile) => {
            assert_eq!(profile.scan.identity.scan_sequence, 3);
        }
        other => panic!("unexpected {other:?}"),
    }
    assert!(matches!(actions[1], FragmentAction::Report(_)));
}

#[test]
fn fragments_of_persisted_profiles_do_not_reach_the_reassembler() {
    let encoded = encoded_profile();
    let v2::DecodedFrame::ProfileFragment(first) =
        v2::decode(encoded.frames()[0].as_slice()).unwrap()
    else {
        unreachable!()
    };
    let source = SourceFragment {
        packet_id: 12,
        fragment_index: 0,
        received_at_unix_ms: 1,
        radio: radio_metadata(),
    };
    let mut reassembler = ProfileReassembler::default();
    assert_eq!(
        ingest_archived_profile_fragment(
            &mut reassembler,
            Some(PersistedFragmentMatch::Duplicate),
            first,
            source,
            0,
        )
        .unwrap(),
        [FragmentAction::Report(
            "v2 profile persisted duplicate fragment 0 in packet 12".to_owned()
        )]
    );
    let actions = ingest_archived_profile_fragment(
        &mut reassembler,
        Some(PersistedFragmentMatch::Conflict),
        first,
        source,
        0,
    )
    .unwrap();
    match &actions[0] {
        FragmentAction::IntegrityUpdate { key, packet_id, fragment_index } => {
            assert_eq!(key.scan_sequence, 3);
            assert_eq!(*packet_id, 12);
            assert_eq!(*fragment_index, 0);
        }
        other => panic!("unexpected {other:?}"),
    }
    assert_eq!(
        actions[1],
        FragmentAction::Report("v2 profile persisted conflict fragment 0 in packet 12".to_owned())
    );
    assert_eq!(reassembler.active_len(), 0);
}

fn partial(sources: Vec<StoredSource>, duplicates: u16, conflicts: u16) -> PartialScan {
    PartialScan {
        key: ProfileKey {
            node_id: 1,
            boot_id_valid: true,
            boot_id: 2,
            scan_sequence: 3,
            uptime_ms: 4,
            config_id: 5,
        },
        sources,
        duplicate_fragment_count: duplicates,
        conflicting_fragment_count: conflicts,
    }
}

fn stored(packet_id: i64, fragment_index: u8, payload: &[u8]) -> StoredSource {
    StoredSource { packet: archived(packet_id, payload), fragment_index }
}

#[test]
fn stored_scans_are_completed_after_a_restart() {
    let encoded = encoded_profile();
    let mut reassembler = ProfileReassembler::default();
    let stored_scan = partial(vec![stored(5, 0, encoded.frames()[0].as_slice())], 2, 1);
    assert_eq!(
        rehydrate(&mut reassembler, &stored_scan, 0),
        Rehydration::Restored(Vec::new())
    );
    assert_eq!(reassembler.active_len(), 1);
    assert_eq!(rehydrate(&mut reassembler, &stored_scan, 0), Rehydration::Known);

    let second = archived(9, encoded.frames()[1].as_slice());
    let Replay::Fragment(view) = replay_pending(&second) else {
        panic!("expected a fragment");
    };
    let actions = ingest_archived_profile_fragment(
        &mut reassembler,
        None,
        view,
        archived_source(&second, 1),
        1,
    )
    .unwrap();
    match &actions[..] {
        [FragmentAction::Persist(profile)] => {
            assert_eq!(profile.scan.steps.len(), 4);
            assert_eq!(profile.scan.received_fragment_bitmap, 0b11);
            assert_eq!(profile.scan.duplicate_fragment_count, 2);
            assert_eq!(profile.scan.conflicting_fragment_count, 1);
            assert_eq!(profile.fragments[0].packet_id, 5);
            assert_eq!(profile.fragments[1].packet_id, 9);
        }
        other => panic!("unexpected {other:?}"),
    }
    assert_eq!(rehydrate(&mut reassembler, &stored_scan, 2), Rehydration::Known);
}

#[test]
fn a_restart_makes_no_difference_to_an_untouched_scan() {
    let encoded = encoded_profile();
    let payload = encoded.frames()[1].as_slice();
    let mut restarted = ProfileReassembler::default();
    rehydrate(&mut restarted, &partial(vec![stored(5, 1, payload)], 0, 0), 7);
    let fragment = archived(5, payload);
    let Replay::Fragment(view) = replay_pending(&fragment) else {
        panic!("expected a fragment");
    };
    let mut continuous = ProfileReassembler::default();
    continuous
        .ingest_at(view, archived_source(&fragment, 1), 7)
        .unwrap();
    let key = ProfileKey::from(&view.header);
    assert!(restarted.snapshot(key).is_some());
    assert_eq!(restarted.snapshot(key), continuous.snapshot(key));
}

#[test]
fn a_restored_scan_may_be_complete_or_make_another_one_make_room() {
    let encoded = encoded_profile();
    let mut other = encoded.frames()[0].as_slice().to_vec();
    other[29] ^= 1;
    let v2::DecodedFrame::ProfileFragment(first) = v2::decode(&other).unwrap() else {
        unreachable!()
    };
    let mut reassembler = ProfileReassembler::with_capacity(1).unwrap();
    reassembler
        .ingest_at(first, archived_source(&archived(1, &other), 0), 0)
        .unwrap();
    let both = partial(
        vec![
            stored(2, 0, encoded.frames()[0].as_slice()),
            stored(3, 1, encoded.frames()[1].as_slice()),
        ],
        0,
        4,
    );
    match rehydrate(&mut reassembler, &both, 1) {
        Rehydration::Restored(profiles) => {
            assert_eq!(profiles.len(), 2);
            assert_eq!(profiles[0].scan.identity.scan_sequence, 2);
            assert_eq!(profiles[1].scan.identity.scan_sequence, 3);
            assert_eq!(profiles[1].scan.conflicting_fragment_count, 4);
            assert_eq!(profiles[1].scan.steps.len(), 4);
        }
        other => panic!("unexpected {other:?}"),
    }
    assert_eq!(reassembler.active_len(), 0);
}

#[test]
fn one_bad_source_takes_no_other_one_with_it() {
    let encoded = encoded_profile();
    let mut poison = encoded.frames()[0].as_slice().to_vec();
    poison[3] = 9;
    let mut foreign = encoded.frames()[0].as_slice().to_vec();
    foreign[29] ^= 1;
    let mut reassembler = ProfileReassembler::default();
    assert_eq!(
        rehydrate(
            &mut reassembler,
            &partial(
                vec![
                    stored(1, 0, &poison),
                    stored(2, 0, encoded.frames()[0].as_slice()),
                    stored(3, 0, &foreign),
                    stored(4, 0, encoded.frames()[1].as_slice()),
                    stored(5, 1, encoded.frames()[1].as_slice()),
                ],
                0,
                0,
            ),
            0,
        ),
        Rehydration::Contaminated {
            quarantined: vec![
                QuarantinedPacket {
                    packet_id: 1,
                    error: "pending profile packet 1 no longer decodes: UnknownFrameType(9)"
                        .to_owned(),
                },
                QuarantinedPacket {
                    packet_id: 3,
                    error: "pending profile packet 3 belongs to another scan".to_owned(),
                },
                QuarantinedPacket {
                    packet_id: 4,
                    error: "SourceFragmentIndex { source: 0, wire: 1 }".to_owned(),
                },
            ],
            released: vec![2, 5],
        }
    );
    assert_eq!(reassembler.active_len(), 0);
}

#[test]
fn late_fragments_of_a_restored_scan_are_counted_in_memory_too() {
    let encoded = encoded_profile();
    let payload = encoded.frames()[0].as_slice();
    let mut reassembler = ProfileReassembler::default();
    rehydrate(&mut reassembler, &partial(vec![stored(5, 0, payload)], 0, 0), 0);
    let late = archived(6, payload);
    let Replay::Fragment(view) = replay_pending(&late) else {
        panic!("expected a fragment");
    };
    for found in [PersistedFragmentMatch::Duplicate, PersistedFragmentMatch::Conflict] {
        ingest_archived_profile_fragment(
            &mut reassembler,
            Some(found),
            view,
            archived_source(&late, 0),
            0,
        )
        .unwrap();
    }
    let scan = reassembler
        .snapshot(ProfileKey::from(&view.header))
        .unwrap()
        .scan;
    assert_eq!(scan.duplicate_fragment_count, 1);
    assert_eq!(scan.conflicting_fragment_count, 1);
}

#[test]
fn streams_valid_frames_and_reports_bad_lines() {
    let mut state = StreamState::default();
    assert_eq!(
        state.next_line(FIXTURE),
        LineOutcome::Frame(vesta::parse_frame_hex(FIXTURE).unwrap().to_vec())
    );
    assert_eq!(state.next_line(""), LineOutcome::Blank);
    match state.next_line("not-hex") {
        LineOutcome::Failed(diagnostic) => {
            assert!(diagnostic.contains("line 3: wrong hexadecimal length"));
        }
        other => panic!("unexpected {other:?}"),
    }
    assert_eq!(
        state.failure().unwrap(),
        "1 input frame(s) could not be decoded"
    );
}

#[test]
fn white_space_around_a_line_is_ignored() {
    let mut state = StreamState::default();
    let padded = format!("\u{3000}\t {FIXTURE} \u{a0}\r\n");
    assert!(matches!(state.next_line(&padded), LineOutcome::Frame(_)));
    assert_eq!(state.next_line(" \t\u{2003}\r\n"), LineOutcome::Blank);
    assert!(matches!(state.next_line("\u{200b}"), LineOutcome::Failed(_)));
    assert_eq!(state.lines, 3);
    assert_eq!(state.failures, 1);
    assert_eq!(StreamState::default().failure(), None);
}

#[test]
fn frames_that_do_not_decode_are_reported_with_their_cause() {
    assert_eq!(
        read_frame_text("565309").unwrap_err().message(),
        "unsupported frame version: 9"
    );
    assert_eq!(
        read_frame_text("5653").unwrap_err().message(),
        "payload length must be 3..=255 bytes, got 2"
    );
    let mut state = StreamState::default();
    assert_eq!(
        state.next_line("565301"),
        LineOutcome::Failed(
            "line 1: invalid protocol-v1 frame: wrong frame length: expected 48, got 3".to_owned()
        )
    );
}
