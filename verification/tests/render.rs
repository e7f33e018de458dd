use vesta::render::{
    human_frame, human_received_frame, identity_json, json_frame, json_frame_v2,
    json_integrity_update, json_received_frame, human_integrity_update, JsonFrameV2,
};
use vesta::reassembly::ProfileKey;
use vesta::records::RecordIdentity;
use vesta::session::read_frame_text;
use vesta::v2;
use vesta::{
    decode_any, decode_hex, parse_frame_hex, parse_payload_hex, DecodedTelemetry, HexError,
    RadioMetadata, TextDecodeError, FRAME_HEX_LEN,
};

const FIXTURE: &str = "565301b001020304050607080a0b0c0dfb2e00018bcd0000b26e000f12060007eed00005902075300200080203040506";

const FIXTURE_TEXT: &str = "Vesta telemetry v1
  node_id: 0x0102030405060708
  sequence: 168496141
  status: 0xb0
    new_data: true
    gas_valid: true
    heater_stable: true
    unknown_bits: 0x00
  corrected:
    temperature: -12.34 deg C (-1234 centi-deg C)
    pressure: 101325 Pa (1013.25 hPa)
    humidity: 45.678% RH (45678 milli-% RH)
    gas_resistance: 987654 ohm
  raw:
    temperature_adc: 519888
    pressure_adc: 364576
    humidity_adc: 30000
    gas_resistance_adc: 512
    gas_range: 8
    gas_index: 2
    measurement_index: 3
    heater_resistance: 4
    heater_current: 5
    gas_wait: 6";

#[test]
fn accepts_lowercase_uppercase_and_prefix() {
    let expected = decode_hex(FIXTURE).unwrap();

    assert_eq!(decode_hex(&FIXTURE.to_uppercase()).unwrap(), expected);
    assert_eq!(decode_hex(&format!("0x{FIXTURE}")).unwrap(), expected);
    assert_eq!(
        decode_hex(&format!("0X{}", FIXTURE.to_uppercase())).unwrap(),
        expected
    );
}

#[test]
fn rejects_bad_hex_length_and_character() {
    assert_eq!(
        parse_frame_hex("1234"),
        Err(HexError::WrongLength {
            expected: FRAME_HEX_LEN,
            actual: 4,
        })
    );

    let mut invalid = FIXTURE.as_bytes().to_vec();
    invalid[17] = b'g';
    let invalid = String::from_utf8(invalid).unwrap();
    assert_eq!(
        parse_frame_hex(&invalid),
        Err(HexError::InvalidByte {
            index: 17,
            found: b'g',
        })
    );
}

#[test]
fn payload_text_of_any_length_is_checked() {
    assert_eq!(parse_payload_hex("0x565309"), Ok(vec![0x56, 0x53, 0x09]));
    assert_eq!(parse_payload_hex("abCDef"), Ok(vec![0xab, 0xcd, 0xef]));
    assert_eq!(parse_payload_hex("12345"), Err(HexError::OddLength { actual: 5 }));
    assert_eq!(
        parse_payload_hex("1234"),
        Err(HexError::PayloadLength { minimum: 3, maximum: 255, actual: 2 })
    );
    assert_eq!(
        parse_payload_hex(&"00".repeat(256)),
        Err(HexError::PayloadLength { minimum: 3, maximum: 255, actual: 256 })
    );
    assert_eq!(
        parse_payload_hex("00 0 0"),
        Err(HexError::InvalidByte { index: 2, found: b' ' })
    );
    assert_eq!(
        parse_payload_hex("0x0x00"),
        Err(HexError::PayloadLength { minimum: 3, maximum: 255, actual: 2 })
    );
    let bytes: Vec<u8> = (0..=254).collect();
    let text: String = bytes.iter().map(|byte| format!("{byte:02X}")).collect();
    assert_eq!(parse_payload_hex(&text), Ok(bytes));
}

#[test]
fn hex_errors_have_readable_messages() {
    assert_eq!(
        HexError::WrongLength { expected: 96, actual: 4 }.message(),
        "wrong hexadecimal length: expected 96 characters, got 4"
    );
    assert_eq!(
        HexError::OddLength { actual: 7 }.message(),
        "wrong hexadecimal length: expected an even count of characters, got 7"
    );
    assert_eq!(
        HexError::PayloadLength { minimum: 3, maximum: 255, actual: 2 }.message(),
        "payload length must be 3..=255 bytes, got 2"
    );
    assert_eq!(
        TextDecodeError::Hex(HexError::InvalidByte { index: 17, found: b'g' }).message(),
        "invalid hexadecimal byte 0x67 at position 17"
    );
    let mut unsupported = FIXTURE.as_bytes().to_vec();
    unsupported[5] = b'2';
    assert_eq!(
        decode_hex(&String::from_utf8(unsupported).unwrap()).unwrap_err().message(),
        "unsupported frame version: 2"
    );
}

#[test]
fn json_preserves_exact_units_and_node_identity() {
    let frame = decode_hex(FIXTURE).unwrap();
    let value = json_frame(&frame);

    assert_eq!(value.node_id, "0102030405060708");
    assert_eq!(value.sequence, 0x0a0b_0c0d_u32);
    assert_eq!(value.corrected.temperature_centi_celsius, -1_234);
    assert_eq!(value.corrected.pressure_pascal, 101_325);
    assert_eq!(value.raw.temperature_adc, 519_888);
    assert!(value.status.gas_valid);
}

#[test]
fn human_output_contains_corrected_raw_and_status_values() {
    let frame = decode_hex(FIXTURE).unwrap();
    let output = human_frame(&frame);

    assert!(output.contains("temperature: -12.34 deg C"));
    assert!(output.contains("pressure: 101325 Pa"));
    assert!(output.contains("gas_valid: true"));
    assert!(output.contains("temperature_adc: 519888"));
    assert!(output.contains("gas_wait: 6"));
    assert_eq!(output, FIXTURE_TEXT);
}

#[test]
fn received_output_includes_exact_radio_measurements() {
    let frame = decode_hex(FIXTURE).unwrap();
    let radio = RadioMetadata {
        packet_rssi_centi_dbm: -10_050,
        snr_centi_db: -125,
        signal_rssi_centi_dbm: -10_250,
    };

    let document = json_received_frame(&frame, radio);
    assert_eq!(document.radio.packet_rssi_centi_dbm, -10_050);
    assert_eq!(document.radio.snr_centi_db, -125);
    assert_eq!(document.radio.signal_rssi_centi_dbm, -10_250);
    assert_eq!(document.frame.node_id, "0102030405060708");

    let human = human_received_frame(&frame, radio);
    assert!(human.contains("packet_rssi: -100.50 dBm"));
    assert!(human.contains("snr: -1.25 dB"));
    assert!(human.contains("signal_rssi: -102.50 dBm"));
    assert_eq!(
        human,
        format!(
            "{FIXTURE_TEXT}\n  radio:\n    packet_rssi: -100.50 dBm\n    snr: -1.25 dB\n    signal_rssi: -102.50 dBm"
        )
    );
}

#[test]
fn fractions_keep_their_leading_zeros_and_sign() {
    let frame = decode_hex(FIXTURE).unwrap();
    let radio = RadioMetadata {
        packet_rssi_centi_dbm: -5,
        snr_centi_db: 0,
        signal_rssi_centi_dbm: i16::MIN,
    };
    let human = human_received_frame(&frame, radio);
    assert!(human.contains("packet_rssi: -0.05 dBm"));
    assert!(human.contains("snr: 0.00 dB"));
    assert!(human.contains("signal_rssi: -327.68 dBm"));
}

#[test]
fn renders_preconfiguration_health_without_a_configuration_record() {
    let encoded = v2::encode_device_health(
        v2::Common::boot_id_unavailable(1, 7, 12, 0, 0),
        &v2::DeviceHealth {
            flags: v2::HEALTH_FLAG_BOOT_ID_UNAVAILABLE,
            reset_cause_raw: 0,
            successful_sensor_scans: 0,
            failed_sensor_scans: 1,
            incomplete_profiles: 0,
            i2c_errors: 1,
            radio_tx_errors: 0,
            dropped_profiles: 0,
            dropped_fragments: 0,
            overwritten_fields: 0,
            current_sample_interval_ms: 180_000,
            firmware_version: [2, 0, 0],
            profile_id: 0,
            profile_version: 0,
            last_sensor_error: 1,
            last_radio_error: 0,
            calibrated_mcu_temperature_centi_celsius: None,
            calibrated_vdd_millivolt: None,
        },
    )
    .unwrap();
    let decoded = v2::decode(encoded.as_slice()).unwrap();
    let document = json_frame_v2(decoded, None);
    assert_eq!(document.protocol_version, 2);
    assert_eq!(document.frame_type, "device_health");
    assert!(document.radio.is_none());
    match document.frame {
        JsonFrameV2::DeviceHealth { record, identity } => {
            assert_eq!(identity.config_id, "0000000000000000");
            assert_eq!(identity.uptime_ms, "12");
            assert_eq!(record.profile_id, 0);
            assert_eq!(record.profile_version, 0);
        }
        other => panic!("unexpected {other:?}"),
    }
}

#[test]
fn wide_values_of_an_identity_become_text() {
    let document = identity_json(RecordIdentity {
        common_flags: 1,
        node_id: u64::MAX,
        boot_id: 0x0102,
        scan_sequence: u32::MAX,
        uptime_ms: u64::MAX,
        config_id: 0,
        reset_cause_flags: 5,
    });
    assert_eq!(document.node_id, "ffffffffffffffff");
    assert_eq!(document.boot_id, "0000000000000102");
    assert_eq!(document.uptime_ms, "18446744073709551615");
    assert_eq!(document.scan_sequence, u32::MAX);
    assert_eq!(document.reset_cause_flags, 5);
}

#[test]
fn late_conflict_emits_a_machine_readable_invalidation_event() {
    let key = ProfileKey {
        node_id: 1,
        boot_id_valid: true,
        boot_id: 2,
        scan_sequence: 3,
        uptime_ms: 4,
        config_id: 5,
    };
    let value = json_integrity_update(key, 6, 2);

    assert_eq!(value.node_id, "0000000000000001");
    assert!(value.boot_id_valid);
    assert_eq!(value.scan_start_uptime_ms, "4");
    assert_eq!(value.source_packet_id, 6);
    assert_eq!(value.fragment_index, 2);
    assert!(!value.usable_for_analysis);
    assert_eq!(
        human_integrity_update(key, 6, 2),
        "Vesta receiver integrity update: persisted profile 0000000000000001/0000000000000002/3/uptime=4/config=0000000000000005 invalidated by conflicting fragment 2 in packet 6"
    );
}

#[test]
fn decodes_one_frame_for_humans() {
    let payload = read_frame_text(FIXTURE).unwrap();
    let Ok(DecodedTelemetry::V1(frame)) = decode_any(&payload) else {
        panic!("wrong version");
    };
    let stdout = human_frame(&frame);
    assert!(stdout.contains("node_id: 0x0102030405060708"));
    assert!(stdout.contains("temperature: -12.34 deg C"));
    assert!(stdout.contains("temperature_adc: 519888"));
}

#[test]
fn emits_exact_jsonl_units() {
    let payload = read_frame_text(FIXTURE).unwrap();
    let Ok(DecodedTelemetry::V1(frame)) = decode_any(&payload) else {
        panic!("wrong version");
    };
    let value = json_frame(&frame);
    assert_eq!(value.node_id, "0102030405060708");
    assert_eq!(value.corrected.temperature_centi_celsius, -1_234);
    assert_eq!(value.raw.gas_resistance_adc, 512);
}
