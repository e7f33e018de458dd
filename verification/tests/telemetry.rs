use vesta::v2::Error;
use vesta::{
    decode_any, Bme68xStatus, CompensatedReadings, DecodeError, DecodedTelemetry, GasResistance,
    Pressure, ProtocolDecodeError, RawReadings, RelativeHumidity, TelemetryV1, Temperature,
    FRAME_LEN,
};

const FIXTURE: [u8; FRAME_LEN] = [
    0x56, 0x53, 0x01, 0xb0, 0x01, 0x02, 0x03, 0x04, 0x05, 0x06, 0x07, 0x08, 0x0a, 0x0b, 0x0c,
    0x0d, 0xfb, 0x2e, 0x00, 0x01, 0x8b, 0xcd, 0x00, 0x00, 0xb2, 0x6e, 0x00, 0x0f, 0x12, 0x06,
    0x00, 0x07, 0xee, 0xd0, 0x00, 0x05, 0x90, 0x20, 0x75, 0x30, 0x02, 0x00, 0x08, 0x02, 0x03,
    0x04, 0x05, 0x06,
];

#[test]
fn decodes_and_reencodes_interoperability_fixture_exactly() {
    let frame = TelemetryV1::decode(&FIXTURE).unwrap();

    assert_eq!(frame.sensor_status.bits(), 0xb0);
    assert_eq!(frame.node_id, 0x0102_0304_0506_0708);
    assert_eq!(frame.sequence, 0x0a0b_0c0d);
    assert_eq!(frame.compensated.temperature.centi_celsius(), -1_234);
    assert_eq!(frame.compensated.pressure.pascals(), 101_325);
    assert_eq!(frame.compensated.humidity.milli_percent_rh(), 45_678);
    assert_eq!(frame.compensated.gas_resistance.ohms(), 987_654);
    assert_eq!(frame.raw.temperature_adc, 519_888);
    assert_eq!(frame.raw.pressure_adc, 364_576);
    assert_eq!(frame.raw.humidity_adc, 30_000);
    assert_eq!(frame.raw.gas_resistance_adc, 512);
    assert_eq!(frame.raw.gas_range, 8);
    assert_eq!(frame.raw.gas_index, 2);
    assert_eq!(frame.raw.measurement_index, 3);
    assert_eq!(frame.raw.heater_resistance, 4);
    assert_eq!(frame.raw.heater_current, 5);
    assert_eq!(frame.raw.gas_wait, 6);
    assert_eq!(frame.encode(), FIXTURE);
}

#[test]
fn interprets_known_status_flags_and_preserves_unknown_bits() {
    let status = TelemetryV1::decode(&FIXTURE).unwrap().sensor_status;

    assert!(status.is_new_data());
    assert!(status.is_gas_measurement_valid());
    assert!(status.is_heater_stable());
    assert_eq!(status.unknown_bits(), 0);

    let status = Bme68xStatus::from_bits_retain(0xff);
    assert_eq!(status.bits(), 0xff);
    assert_eq!(status.unknown_bits(), 0x4f);
}

#[test]
fn rejects_every_truncated_length_and_trailing_data() {
    for length in 0..FRAME_LEN {
        assert_eq!(
            TelemetryV1::decode(&FIXTURE[..length]),
            Err(DecodeError::WrongLength {
                expected: FRAME_LEN,
                actual: length,
            })
        );
    }

    let mut with_trailing_byte = [0_u8; FRAME_LEN + 1];
    with_trailing_byte[..FRAME_LEN].copy_from_slice(&FIXTURE);
    assert_eq!(
        TelemetryV1::decode(&with_trailing_byte),
        Err(DecodeError::WrongLength {
            expected: FRAME_LEN,
            actual: FRAME_LEN + 1,
        })
    );
}

#[test]
fn rejects_bad_magic_before_examining_version() {
    let mut input = FIXTURE;
    input[..2].copy_from_slice(b"NO");
    input[2] = 99;

    assert_eq!(
        TelemetryV1::decode(&input),
        Err(DecodeError::InvalidMagic { found: *b"NO" })
    );
}

#[test]
fn rejects_unsupported_version() {
    let mut input = FIXTURE;
    input[2] = 2;

    assert_eq!(
        TelemetryV1::decode(&input),
        Err(DecodeError::UnsupportedVersion { found: 2 })
    );
}

#[test]
fn decodes_signed_temperature_boundaries() {
    let mut input = FIXTURE;

    input[16..18].copy_from_slice(&i16::MIN.to_be_bytes());
    assert_eq!(
        TelemetryV1::decode(&input)
            .unwrap()
            .compensated
            .temperature
            .centi_celsius(),
        i16::MIN
    );

    input[16..18].copy_from_slice(&i16::MAX.to_be_bytes());
    assert_eq!(
        TelemetryV1::decode(&input)
            .unwrap()
            .compensated
            .temperature
            .centi_celsius(),
        i16::MAX
    );
}

#[test]
fn decodes_big_endian_integer_boundaries() {
    let mut input = FIXTURE;
    input[4..12].copy_from_slice(&u64::MAX.to_be_bytes());
    input[12..16].copy_from_slice(&u32::MAX.to_be_bytes());
    input[18..22].copy_from_slice(&u32::MAX.to_be_bytes());
    input[38..40].copy_from_slice(&u16::MAX.to_be_bytes());

    let frame = TelemetryV1::decode(&input).unwrap();
    assert_eq!(frame.node_id, u64::MAX);
    assert_eq!(frame.sequence, u32::MAX);
    assert_eq!(frame.compensated.pressure.pascals(), u32::MAX);
    assert_eq!(frame.raw.humidity_adc, u16::MAX);
    assert_eq!(frame.encode(), input);
}

#[test]
fn array_and_slice_try_from_implementations_match_decode() {
    let expected = TelemetryV1::decode(&FIXTURE).unwrap();

    assert_eq!(TelemetryV1::try_from(&FIXTURE).unwrap(), expected);
    assert_eq!(TelemetryV1::try_from(FIXTURE.as_slice()).unwrap(), expected);
}

#[test]
fn errors_have_actionable_messages() {
    assert_eq!(
        DecodeError::WrongLength {
            expected: 48,
            actual: 7,
        }
        .message(),
        "wrong frame length: expected 48, got 7"
    );
    assert_eq!(
        DecodeError::InvalidMagic { found: *b"NO" }.message(),
        "invalid frame magic: expected 5653, got 4e4f"
    );
    assert_eq!(
        DecodeError::UnsupportedVersion { found: 2 }.message(),
        "unsupported frame version: 2"
    );
}

#[test]
fn decoded_frames_encode_back_to_their_bytes() {
    let mut bytes = FIXTURE;
    for (position, byte) in bytes.iter_mut().enumerate().skip(3) {
        *byte = (position * 37 + 11) as u8;
    }
    let frame = TelemetryV1::decode(&bytes).unwrap();
    assert_eq!(frame.encode(), bytes);
    assert_eq!(TelemetryV1::decode(&frame.encode()), Ok(frame));
}

#[test]
fn built_frames_decode_to_themselves() {
    let frame = TelemetryV1 {
        sensor_status: Bme68xStatus::from_bits_retain(0x30),
        node_id: 9,
        sequence: 8,
        compensated: CompensatedReadings {
            temperature: Temperature::from_centi_celsius(-1),
            pressure: Pressure::from_pascals(7),
            humidity: RelativeHumidity::from_milli_percent_rh(6),
            gas_resistance: GasResistance::from_ohms(5),
        },
        raw: RawReadings {
            temperature_adc: 1,
            pressure_adc: 2,
            humidity_adc: 3,
            gas_resistance_adc: 4,
            gas_range: 5,
            gas_index: 6,
            measurement_index: 7,
            heater_resistance: 8,
            heater_current: 9,
            gas_wait: 10,
        },
    };
    assert!(!frame.sensor_status.is_new_data());
    assert_eq!(frame.encode()[16..18], [0xff, 0xff]);
    assert_eq!(TelemetryV1::decode(&frame.encode()), Ok(frame));
}

#[test]
fn the_version_byte_selects_the_decoder() {
    match decode_any(&FIXTURE) {
        Ok(DecodedTelemetry::V1(frame)) => assert_eq!(frame.encode(), FIXTURE),
        other => panic!("unexpected {other:?}"),
    }
    let mut second = FIXTURE;
    second[2] = 2;
    assert!(matches!(decode_any(&second), Err(ProtocolDecodeError::V2(_))));
    let mut ninth = FIXTURE;
    ninth[2] = 9;
    assert_eq!(
        decode_any(&ninth).unwrap_err(),
        ProtocolDecodeError::UnsupportedVersion { found: 9 }
    );
    assert_eq!(
        decode_any(&FIXTURE[..2]).unwrap_err(),
        ProtocolDecodeError::TruncatedDiscriminator { actual: 2 }
    );
    assert_eq!(
        decode_any(b"NO!").unwrap_err(),
        ProtocolDecodeError::InvalidMagic { found: *b"NO" }
    );
    assert!(matches!(
        decode_any(&FIXTURE[..47]),
        Err(ProtocolDecodeError::V1(DecodeError::WrongLength { expected: 48, actual: 47 }))
    ));
}

#[test]
fn protocol_errors_name_the_version_and_the_cause() {
    assert_eq!(
        ProtocolDecodeError::UnsupportedVersion { found: 9 }.message(),
        "unsupported frame version: 9"
    );
    assert_eq!(
        ProtocolDecodeError::V1(DecodeError::WrongLength { expected: 48, actual: 47 }).message(),
        "invalid protocol-v1 frame: wrong frame length: expected 48, got 47"
    );
    assert_eq!(
        ProtocolDecodeError::V2(Error::InvalidField("sensor_variant")).message(),
        "invalid protocol-v2 frame: InvalidField(\"sensor_variant\")"
    );
}
