//! The fixed-size version 1 frame, and the choice between versions.
//!
//! Version 1 is a fixed-size, 48-byte, big-endian frame. Every transmitted
//! integer is preserved exactly, and compensated values are wrapped in
//! unit-bearing types so callers cannot accidentally confuse their scales.

pub mod laws;

use vstd::prelude::*;
use vstd::string::StringExecFns;

use crate::text;
use crate::text::{ending_number, ending_numbers, one_number, push_hex};
use crate::v2::frame;
use crate::v2::frame::{decode, DecodedFrame, FrameModel};
use crate::v2::message;
use crate::v2::types::{EncodedFrame, Error, VERSION_V2};
use crate::wire;
use crate::wire::{read_i16, read_u16, read_u32, read_u64};

verus! {

/// Number of bytes in a version 1 telemetry frame.
pub const FRAME_LEN: usize = 48;

/// Two-byte discriminator at the beginning of every Vesta telemetry frame: `VS`.
pub const MAGIC: [u8; 2] = [0x56, 0x53];

/// Wire-format version of the fixed-size frame.
pub const VERSION: u8 = 1;

/// One hundredth of a degree Celsius.
#[derive(Clone, Copy, Debug, Eq, Hash, Ord, PartialEq, PartialOrd, Structural)]
pub struct Temperature(i16);

impl Temperature {
    /// The temperature of so many hundredths of a degree.
    pub closed spec fn of(value: i16) -> Self {
        Temperature(value)
    }

    /// How many hundredths of a degree this temperature is.
    pub closed spec fn value(self) -> i16 {
        self.0
    }

    /// Creates a temperature from the exact wire representation.
    #[must_use]
    pub fn from_centi_celsius(value: i16) -> (temperature: Self)
        ensures
            temperature == Temperature::of(value),
            temperature.value() == value,
    {
        Temperature(value)
    }

    /// Returns the exact signed integer transmitted on the wire.
    #[must_use]
    pub fn centi_celsius(self) -> (value: i16)
        ensures
            value == self.value(),
            self == Temperature::of(value),
    {
        self.0
    }
}

/// Pressure in pascals.
#[derive(Clone, Copy, Debug, Eq, Hash, Ord, PartialEq, PartialOrd, Structural)]
pub struct Pressure(u32);

impl Pressure {
    /// The pressure of so many pascals.
    pub closed spec fn of(value: u32) -> Self {
        Pressure(value)
    }

    /// How many pascals this pressure is.
    pub closed spec fn value(self) -> u32 {
        self.0
    }

    /// Creates a pressure from the exact wire representation.
    #[must_use]
    pub fn from_pascals(value: u32) -> (pressure: Self)
        ensures
            pressure == Pressure::of(value),
            pressure.value() == value,
    {
        Pressure(value)
    }

    /// Returns pressure in pascals, exactly as transmitted.
    #[must_use]
    pub fn pascals(self) -> (value: u32)
        ensures
            value == self.value(),
            self == Pressure::of(value),
    {
        self.0
    }
}

/// Relative humidity in one thousandth of one percent RH.
#[derive(Clone, Copy, Debug, Eq, Hash, Ord, PartialEq, PartialOrd, Structural)]
pub struct RelativeHumidity(u32);

impl RelativeHumidity {
    /// The humidity of so many thousandths of a percent.
    pub closed spec fn of(value: u32) -> Self {
        RelativeHumidity(value)
    }

    /// How many thousandths of a percent this humidity is.
    pub closed spec fn value(self) -> u32 {
        self.0
    }

    /// Creates relative humidity from the exact wire representation.
    #[must_use]
    pub fn from_milli_percent_rh(value: u32) -> (humidity: Self)
        ensures
            humidity == RelativeHumidity::of(value),
            humidity.value() == value,
    {
        RelativeHumidity(value)
    }

    /// Returns milli-percent RH, exactly as transmitted.
    #[must_use]
    pub fn milli_percent_rh(self) -> (value: u32)
        ensures
            value == self.value(),
            self == RelativeHumidity::of(value),
    {
        self.0
    }
}

/// Gas-sensor resistance in ohms.
#[derive(Clone, Copy, Debug, Eq, Hash, Ord, PartialEq, PartialOrd, Structural)]
pub struct GasResistance(u32);

impl GasResistance {
    /// The resistance of so many ohms.
    pub closed spec fn of(value: u32) -> Self {
        GasResistance(value)
    }

    /// How many ohms this resistance is.
    pub closed spec fn value(self) -> u32 {
        self.0
    }

    /// Creates a gas resistance from the exact wire representation.
    #[must_use]
    pub fn from_ohms(value: u32) -> (resistance: Self)
        ensures
            resistance == GasResistance::of(value),
            resistance.value() == value,
    {
        GasResistance(value)
    }

    /// Returns resistance in ohms, exactly as transmitted.
    #[must_use]
    pub fn ohms(self) -> (value: u32)
        ensures
            value == self.value(),
            self == GasResistance::of(value),
    {
        self.0
    }
}

/// `BME68x` status byte, preserving both known and future flag bits.
#[derive(Clone, Copy, Debug, Eq, Hash, PartialEq, Structural)]
pub struct Bme68xStatus(u8);

impl Bme68xStatus {
    /// The sensor reports that this sample contains new data.
    pub const NEW_DATA: u8 = 0x80;

    /// The gas-resistance measurement is valid.
    pub const GAS_MEASUREMENT_VALID: u8 = 0x20;

    /// The heater reached a stable state for the gas measurement.
    pub const HEATER_STABLE: u8 = 0x10;

    /// Mask of the status bits with a known meaning.
    pub const KNOWN_MASK: u8 = 0xb0;

    /// The status with these bits.
    pub closed spec fn of(bits: u8) -> Self {
        Bme68xStatus(bits)
    }

    /// Every bit of this status.
    pub closed spec fn value(self) -> u8 {
        self.0
    }

    /// Creates a status value while preserving every transmitted bit.
    #[must_use]
    pub fn from_bits_retain(bits: u8) -> (status: Self)
        ensures
            status == Bme68xStatus::of(bits),
            status.value() == bits,
    {
        Bme68xStatus(bits)
    }

    /// Returns every transmitted status bit.
    #[must_use]
    pub fn bits(self) -> (bits: u8)
        ensures
            bits == self.value(),
            self == Bme68xStatus::of(bits),
    {
        self.0
    }

    /// Returns whether this sample contains new data.
    #[must_use]
    pub fn is_new_data(self) -> (set: bool)
        ensures
            set == (self.value() & 0x80 != 0),
    {
        self.0 & Self::NEW_DATA != 0
    }

    /// Returns whether the gas-resistance measurement is valid.
    #[must_use]
    pub fn is_gas_measurement_valid(self) -> (set: bool)
        ensures
            set == (self.value() & 0x20 != 0),
    {
        self.0 & Self::GAS_MEASUREMENT_VALID != 0
    }

    /// Returns whether the gas heater was stable.
    #[must_use]
    pub fn is_heater_stable(self) -> (set: bool)
        ensures
            set == (self.value() & 0x10 != 0),
    {
        self.0 & Self::HEATER_STABLE != 0
    }

    /// Returns the status bits without a known meaning.
    #[must_use]
    pub fn unknown_bits(self) -> (bits: u8)
        ensures
            bits == self.value() & !0xb0u8,
    {
        self.0 & !Self::KNOWN_MASK
    }
}

/// Compensated environmental values emitted by the sensor driver.
#[derive(Clone, Copy, Debug, Eq, PartialEq, Structural)]
pub struct CompensatedReadings {
    /// Ambient temperature.
    pub temperature: Temperature,
    /// Atmospheric pressure.
    pub pressure: Pressure,
    /// Relative humidity.
    pub humidity: RelativeHumidity,
    /// `BME68x` gas-sensing resistance.
    pub gas_resistance: GasResistance,
}

/// Uncompensated `BME68x` channels and measurement metadata.
#[derive(Clone, Copy, Debug, Eq, PartialEq, Structural)]
pub struct RawReadings {
    /// Raw temperature ADC channel.
    pub temperature_adc: u32,
    /// Raw pressure ADC channel.
    pub pressure_adc: u32,
    /// Raw humidity ADC channel.
    pub humidity_adc: u16,
    /// Raw gas-resistance ADC channel.
    pub gas_resistance_adc: u16,
    /// Gas range selected by the sensor.
    pub gas_range: u8,
    /// Gas-measurement slot index.
    pub gas_index: u8,
    /// Measurement index reported by the sensor.
    pub measurement_index: u8,
    /// Raw heater-resistance register value.
    pub heater_resistance: u8,
    /// Raw heater-current register value.
    pub heater_current: u8,
    /// Raw gas-wait register value.
    pub gas_wait: u8,
}

/// Fully decoded version 1 Vesta telemetry frame.
#[derive(Clone, Copy, Debug, Eq, PartialEq, Structural)]
pub struct TelemetryV1 {
    /// `BME68x` sample validity and heater-state flags.
    pub sensor_status: Bme68xStatus,
    /// Stable 64-bit identity assigned to the transmitting node.
    pub node_id: u64,
    /// Wrapping per-node transmission sequence number.
    pub sequence: u32,
    /// Compensated readings with explicit units.
    pub compensated: CompensatedReadings,
    /// Uncompensated channels and measurement metadata.
    pub raw: RawReadings,
}

/// Reason a byte slice could not be decoded as Vesta telemetry version 1.
#[derive(Clone, Copy, Debug, Eq, PartialEq)]
pub enum DecodeError {
    /// The input was truncated or had trailing bytes.
    WrongLength {
        /// Required version 1 frame length.
        expected: usize,
        /// Length supplied by the caller.
        actual: usize,
    },
    /// The first two bytes were not [`MAGIC`].
    InvalidMagic {
        /// Discriminator found in the input.
        found: [u8; 2],
    },
    /// The frame uses a version this decoder does not understand.
    UnsupportedVersion {
        /// Version byte found in the input.
        found: u8,
    },
}

/// The telemetry whose fields stand at their places in a frame.
pub open spec fn telemetry_at(bytes: Seq<u8>) -> TelemetryV1 {
    TelemetryV1 {
        sensor_status: Bme68xStatus::of(bytes[3]),
        node_id: wire::be64(bytes, 4),
        sequence: wire::be32(bytes, 12),
        compensated: CompensatedReadings {
            temperature: Temperature::of(wire::be_i16(bytes, 16)),
            pressure: Pressure::of(wire::be32(bytes, 18)),
            humidity: RelativeHumidity::of(wire::be32(bytes, 22)),
            gas_resistance: GasResistance::of(wire::be32(bytes, 26)),
        },
        raw: RawReadings {
            temperature_adc: wire::be32(bytes, 30),
            pressure_adc: wire::be32(bytes, 34),
            humidity_adc: wire::be16(bytes, 38),
            gas_resistance_adc: wire::be16(bytes, 40),
            gas_range: bytes[42],
            gas_index: bytes[43],
            measurement_index: bytes[44],
            heater_resistance: bytes[45],
            heater_current: bytes[46],
            gas_wait: bytes[47],
        },
    }
}

/// The telemetry that a version 1 frame carries, or the reason why it carries none.
pub open spec fn decoded_v1(bytes: Seq<u8>) -> Result<TelemetryV1, DecodeError> {
    if bytes.len() != FRAME_LEN {
        Err(DecodeError::WrongLength { expected: FRAME_LEN, actual: bytes.len() as usize })
    } else if bytes[0] != MAGIC[0] || bytes[1] != MAGIC[1] {
        Err(DecodeError::InvalidMagic { found: [bytes[0], bytes[1]] })
    } else if bytes[2] != VERSION {
        Err(DecodeError::UnsupportedVersion { found: bytes[2] })
    } else {
        Ok(telemetry_at(bytes))
    }
}

/// The values of decoded telemetry are the integers at their places in the frame.
pub proof fn lemma_telemetry_values(bytes: Seq<u8>)
    requires
        decoded_v1(bytes) is Ok,
    ensures
        ({
            let frame = decoded_v1(bytes)->Ok_0;
            &&& frame.sensor_status.value() == bytes[3]
            &&& frame.compensated.temperature.value() == wire::be_i16(bytes, 16)
            &&& frame.compensated.pressure.value() == wire::be32(bytes, 18)
            &&& frame.compensated.humidity.value() == wire::be32(bytes, 22)
            &&& frame.compensated.gas_resistance.value() == wire::be32(bytes, 26)
        }),
{
}

/// The bytes of a version 1 frame.
#[verifier::opaque]
pub open spec fn telemetry_bytes(frame: TelemetryV1) -> Seq<u8> {
    Seq::<u8>::empty() + wire::b8(MAGIC[0]) + wire::b8(MAGIC[1]) + wire::b8(VERSION) + wire::b8(
        frame.sensor_status.value(),
    ) + wire::b64(frame.node_id) + wire::b32(frame.sequence) + wire::b_i16(
        frame.compensated.temperature.value(),
    ) + wire::b32(frame.compensated.pressure.value()) + wire::b32(
        frame.compensated.humidity.value(),
    ) + wire::b32(frame.compensated.gas_resistance.value()) + wire::b32(frame.raw.temperature_adc)
        + wire::b32(frame.raw.pressure_adc) + wire::b16(frame.raw.humidity_adc) + wire::b16(
        frame.raw.gas_resistance_adc,
    ) + wire::b8(frame.raw.gas_range) + wire::b8(frame.raw.gas_index) + wire::b8(
        frame.raw.measurement_index,
    ) + wire::b8(frame.raw.heater_resistance) + wire::b8(frame.raw.heater_current) + wire::b8(
        frame.raw.gas_wait,
    )
}

#[verifier::spinoff_prover]
#[verifier::rlimit(60)]
proof fn lemma_telemetry_layout(frame: TelemetryV1)
    ensures
        telemetry_bytes(frame).len() == FRAME_LEN,
        telemetry_bytes(frame)[0] == MAGIC[0],
        telemetry_bytes(frame)[1] == MAGIC[1],
        telemetry_bytes(frame)[2] == VERSION,
        telemetry_at(telemetry_bytes(frame)) == frame,
{
    reveal(telemetry_bytes);
    let c = frame.compensated;
    let r = frame.raw;
    let s0 = Seq::<u8>::empty();
    let s1 = s0 + wire::b8(MAGIC[0]);
    wire::lemma_append8(s0, MAGIC[0]);
    let s2 = s1 + wire::b8(MAGIC[1]);
    wire::lemma_append8(s1, MAGIC[1]);
    let s3 = s2 + wire::b8(VERSION);
    wire::lemma_append8(s2, VERSION);
    let s4 = s3 + wire::b8(frame.sensor_status.value());
    wire::lemma_append8(s3, frame.sensor_status.value());
    let s5 = s4 + wire::b64(frame.node_id);
    wire::lemma_append64(s4, frame.node_id);
    let s6 = s5 + wire::b32(frame.sequence);
    wire::lemma_append32(s5, frame.sequence);
    let s7 = s6 + wire::b16(wire::unsigned16(c.temperature.value()));
    wire::lemma_append16(s6, wire::unsigned16(c.temperature.value()));
    let s8 = s7 + wire::b32(c.pressure.value());
    wire::lemma_append32(s7, c.pressure.value());
    let s9 = s8 + wire::b32(c.humidity.value());
    wire::lemma_append32(s8, c.humidity.value());
    let s10 = s9 + wire::b32(c.gas_resistance.value());
    wire::lemma_append32(s9, c.gas_resistance.value());
    let s11 = s10 + wire::b32(r.temperature_adc);
    wire::lemma_append32(s10, r.temperature_adc);
    let s12 = s11 + wire::b32(r.pressure_adc);
    wire::lemma_append32(s11, r.pressure_adc);
    let s13 = s12 + wire::b16(r.humidity_adc);
    wire::lemma_append16(s12, r.humidity_adc);
    let s14 = s13 + wire::b16(r.gas_resistance_adc);
    wire::lemma_append16(s13, r.gas_resistance_adc);
    let s15 = s14 + wire::b8(r.gas_range);
    wire::lemma_append8(s14, r.gas_range);
    let s16 = s15 + wire::b8(r.gas_index);
    wire::lemma_append8(s15, r.gas_index);
    let s17 = s16 + wire::b8(r.measurement_index);
    wire::lemma_append8(s16, r.measurement_index);
    let s18 = s17 + wire::b8(r.heater_resistance);
    wire::lemma_append8(s17, r.heater_resistance);
    let s19 = s18 + wire::b8(r.heater_current);
    wire::lemma_append8(s18, r.heater_current);
    let s20 = s19 + wire::b8(r.gas_wait);
    wire::lemma_append8(s19, r.gas_wait);
    assert(s20 == telemetry_bytes(frame));
}

/// Decoding an encoded version 1 frame gives the telemetry back.
pub proof fn law_v1_round_trip(frame: TelemetryV1)
    ensures
        decoded_v1(telemetry_bytes(frame)) == Ok::<TelemetryV1, DecodeError>(frame),
{
    lemma_telemetry_layout(frame);
}

/// Encoding decoded telemetry gives the frame back, byte for byte.
pub proof fn law_v1_decoded_encodes_back(bytes: Seq<u8>)
    requires
        decoded_v1(bytes) is Ok,
    ensures
        telemetry_bytes(decoded_v1(bytes)->Ok_0) == bytes,
{
    let frame = telemetry_at(bytes);
    let s = telemetry_bytes(frame);
    lemma_telemetry_layout(frame);
    assert(telemetry_at(s) == telemetry_at(bytes));
    assert(wire::be_i16(s, 16) == wire::be_i16(bytes, 16));
    wire::lemma_same64(s, bytes, 4);
    wire::lemma_same32(s, bytes, 12);
    wire::lemma_same16(s, bytes, 16);
    wire::lemma_same32(s, bytes, 18);
    wire::lemma_same32(s, bytes, 22);
    wire::lemma_same32(s, bytes, 26);
    wire::lemma_same32(s, bytes, 30);
    wire::lemma_same32(s, bytes, 34);
    wire::lemma_same16(s, bytes, 38);
    wire::lemma_same16(s, bytes, 40);
    assert(s =~= bytes);
}

impl TelemetryV1 {
    /// Decodes one complete version 1 frame.
    ///
    /// The decoder rejects trailing bytes as well as truncation. It validates
    /// the magic and version before interpreting any payload fields.
    ///
    /// # Errors
    ///
    /// Returns [`DecodeError`] when the frame length, magic, or version is not
    /// exactly the version 1 wire format.
    pub fn decode(bytes: &[u8]) -> (result: Result<Self, DecodeError>)
        ensures
            result == decoded_v1(bytes@),
    {
        if bytes.len() != FRAME_LEN {
            return Err(DecodeError::WrongLength { expected: FRAME_LEN, actual: bytes.len() });
        }
        if bytes[0] != MAGIC[0] || bytes[1] != MAGIC[1] {
            return Err(DecodeError::InvalidMagic { found: [bytes[0], bytes[1]] });
        }
        if bytes[2] != VERSION {
            return Err(DecodeError::UnsupportedVersion { found: bytes[2] });
        }
        Ok(
            TelemetryV1 {
                sensor_status: Bme68xStatus::from_bits_retain(bytes[3]),
                node_id: read_u64(bytes, 4),
                sequence: read_u32(bytes, 12),
                compensated: CompensatedReadings {
                    temperature: Temperature::from_centi_celsius(read_i16(bytes, 16)),
                    pressure: Pressure::from_pascals(read_u32(bytes, 18)),
                    humidity: RelativeHumidity::from_milli_percent_rh(read_u32(bytes, 22)),
                    gas_resistance: GasResistance::from_ohms(read_u32(bytes, 26)),
                },
                raw: RawReadings {
                    temperature_adc: read_u32(bytes, 30),
                    pressure_adc: read_u32(bytes, 34),
                    humidity_adc: read_u16(bytes, 38),
                    gas_resistance_adc: read_u16(bytes, 40),
                    gas_range: bytes[42],
                    gas_index: bytes[43],
                    measurement_index: bytes[44],
                    heater_resistance: bytes[45],
                    heater_current: bytes[46],
                    gas_wait: bytes[47],
                },
            },
        )
    }

    /// Encodes this value using the canonical version 1 representation.
    #[must_use]
    pub fn encode(self) -> (frame: [u8; FRAME_LEN])
        ensures
            frame@ == telemetry_bytes(self),
    {
        reveal(telemetry_bytes);
        let mut writer = EncodedFrame::empty();
        writer.u8(MAGIC[0]);
        writer.u8(MAGIC[1]);
        writer.u8(VERSION);
        writer.u8(self.sensor_status.bits());
        writer.u64(self.node_id);
        writer.u32(self.sequence);
        writer.i16(self.compensated.temperature.centi_celsius());
        writer.u32(self.compensated.pressure.pascals());
        writer.u32(self.compensated.humidity.milli_percent_rh());
        writer.u32(self.compensated.gas_resistance.ohms());
        writer.u32(self.raw.temperature_adc);
        writer.u32(self.raw.pressure_adc);
        writer.u16(self.raw.humidity_adc);
        writer.u16(self.raw.gas_resistance_adc);
        writer.u8(self.raw.gas_range);
        writer.u8(self.raw.gas_index);
        writer.u8(self.raw.measurement_index);
        writer.u8(self.raw.heater_resistance);
        writer.u8(self.raw.heater_current);
        writer.u8(self.raw.gas_wait);
        copy_frame(&writer)
    }
}

/// Copies the bytes of a version 1 frame.
fn copy_frame(writer: &EncodedFrame) -> (frame: [u8; FRAME_LEN])
    requires
        writer@.len() == FRAME_LEN,
    ensures
        frame@ == writer@,
{
    let bytes = writer.as_slice();
    let mut frame: [u8; FRAME_LEN] = [0; FRAME_LEN];
    let mut index: usize = 0;
    while index < FRAME_LEN
        invariant
            index <= FRAME_LEN,
            bytes@ == writer@,
            bytes@.len() == FRAME_LEN,
            forall|i: int| 0 <= i < index ==> #[trigger] frame[i] == bytes@[i],
        decreases FRAME_LEN - index,
    {
        frame[index] = bytes[index];
        index = index + 1;
    }
    assert(frame@ =~= writer@);
    frame
}

impl<'a> TryFrom<&'a [u8]> for TelemetryV1 {
    type Error = DecodeError;

    fn try_from(value: &'a [u8]) -> (result: Result<Self, Self::Error>) {
        TelemetryV1::decode(value)
    }
}

impl<'a> vstd::std_specs::convert::TryFromSpecImpl<&'a [u8]> for TelemetryV1 {
    open spec fn obeys_try_from_spec() -> bool {
        true
    }

    open spec fn try_from_spec(value: &'a [u8]) -> Result<Self, DecodeError> {
        decoded_v1(value@)
    }
}

impl<'a> TryFrom<&'a [u8; FRAME_LEN]> for TelemetryV1 {
    type Error = DecodeError;

    fn try_from(value: &'a [u8; FRAME_LEN]) -> (result: Result<Self, Self::Error>) {
        TelemetryV1::decode(value.as_slice())
    }
}

impl<'a> vstd::std_specs::convert::TryFromSpecImpl<&'a [u8; FRAME_LEN]> for TelemetryV1 {
    open spec fn obeys_try_from_spec() -> bool {
        true
    }

    open spec fn try_from_spec(value: &'a [u8; FRAME_LEN]) -> Result<Self, DecodeError> {
        decoded_v1(value@)
    }
}

/// The text of a failure to decode a version 1 frame.
pub open spec fn decode_error_text(error: DecodeError) -> Seq<char> {
    match error {
        DecodeError::WrongLength { expected, actual } => "wrong frame length: expected "@
            + text::decimal(expected as nat) + ", got "@ + text::decimal(actual as nat),
        DecodeError::InvalidMagic { found } => magic_text(found),
        DecodeError::UnsupportedVersion { found } => "unsupported frame version: "@
            + text::decimal(found as nat),
    }
}

/// The text of a failure to find the discriminator.
pub open spec fn magic_text(found: [u8; 2]) -> Seq<char> {
    "invalid frame magic: expected "@ + text::hex_digits(MAGIC[0] as nat, 2) + text::hex_digits(
        MAGIC[1] as nat,
        2,
    ) + ", got "@ + text::hex_digits(found[0] as nat, 2) + text::hex_digits(found[1] as nat, 2)
}

/// Writes the text of a failure to find the discriminator.
fn magic_message(found: [u8; 2]) -> (message: String)
    ensures
        message@ == magic_text(found),
{
    let mut message = String::from_str("invalid frame magic: expected ");
    push_hex(&mut message, MAGIC[0] as u64, 2);
    push_hex(&mut message, MAGIC[1] as u64, 2);
    message.append(", got ");
    push_hex(&mut message, found[0] as u64, 2);
    push_hex(&mut message, found[1] as u64, 2);
    message
}

impl DecodeError {
    /// The text of this error.
    #[must_use]
    pub fn message(&self) -> (message: String)
        ensures
            message@ == decode_error_text(*self),
    {
        match *self {
            DecodeError::WrongLength { expected, actual } => ending_numbers(
                "wrong frame length: expected ",
                expected as u64,
                ", got ",
                actual as u64,
            ),
            DecodeError::InvalidMagic { found } => magic_message(found),
            DecodeError::UnsupportedVersion { found } => ending_number(
                "unsupported frame version: ",
                found as u64,
            ),
        }
    }
}

/// A decoded Vesta frame selected by its on-wire version byte.
#[derive(Clone, Copy, Debug, Eq, PartialEq)]
pub enum DecodedTelemetry<'a> {
    /// Deployed fixed-size protocol-v1 telemetry.
    V1(TelemetryV1),
    /// A validated variable-size protocol-v2 record.
    V2(DecodedFrame<'a>),
}

/// What a frame of either version says.
pub enum TelemetryModel {
    V1(TelemetryV1),
    V2(FrameModel),
}

impl<'a> DecodedTelemetry<'a> {
    /// What this frame says.
    pub open spec fn model(self) -> TelemetryModel {
        match self {
            DecodedTelemetry::V1(frame) => TelemetryModel::V1(frame),
            DecodedTelemetry::V2(frame) => TelemetryModel::V2(frame.model()),
        }
    }

    /// Whether a version 2 record breaks no rule of the wire format.
    pub open spec fn valid(self) -> bool {
        match self {
            DecodedTelemetry::V1(_) => true,
            DecodedTelemetry::V2(frame) => frame.valid(),
        }
    }
}

/// Failure while selecting or decoding a versioned Vesta frame.
#[derive(Clone, Copy, Debug, Eq, PartialEq)]
pub enum ProtocolDecodeError {
    /// Fewer than the magic and version bytes were supplied.
    TruncatedDiscriminator {
        /// Number of supplied bytes.
        actual: usize,
    },
    /// The first two bytes were not [`MAGIC`].
    InvalidMagic {
        /// Discriminator found in the input.
        found: [u8; 2],
    },
    /// The version byte is not supported by this codec.
    UnsupportedVersion {
        /// Version byte found in the input.
        found: u8,
    },
    /// Protocol-v1 decoding failed.
    V1(DecodeError),
    /// Protocol-v2 decoding failed.
    V2(Error),
}

/// What a frame of either version says, or the reason why it says nothing.
pub open spec fn decoded_any(bytes: Seq<u8>) -> Result<TelemetryModel, ProtocolDecodeError> {
    if bytes.len() < 3 {
        Err(ProtocolDecodeError::TruncatedDiscriminator { actual: bytes.len() as usize })
    } else if bytes[0] != MAGIC[0] || bytes[1] != MAGIC[1] {
        Err(ProtocolDecodeError::InvalidMagic { found: [bytes[0], bytes[1]] })
    } else if bytes[2] == VERSION {
        match decoded_v1(bytes) {
            Ok(frame) => Ok(TelemetryModel::V1(frame)),
            Err(error) => Err(ProtocolDecodeError::V1(error)),
        }
    } else if bytes[2] == VERSION_V2 {
        match frame::decoded(bytes) {
            Ok(frame) => Ok(TelemetryModel::V2(frame)),
            Err(error) => Err(ProtocolDecodeError::V2(error)),
        }
    } else {
        Err(ProtocolDecodeError::UnsupportedVersion { found: bytes[2] })
    }
}

/// Decode either supported protocol version without guessing from length.
///
/// # Errors
///
/// Returns [`ProtocolDecodeError`] for a truncated discriminator, invalid
/// magic, unsupported version, or a version-specific structural error.
pub fn decode_any(bytes: &[u8]) -> (result: Result<DecodedTelemetry<'_>, ProtocolDecodeError>)
    ensures
        match decoded_any(bytes@) {
            Ok(model) => result is Ok && result->Ok_0.model() == model && result->Ok_0.valid(),
            Err(error) => result == Err::<DecodedTelemetry<'_>, ProtocolDecodeError>(error),
        },
{
    if bytes.len() < 3 {
        return Err(ProtocolDecodeError::TruncatedDiscriminator { actual: bytes.len() });
    }
    if bytes[0] != MAGIC[0] || bytes[1] != MAGIC[1] {
        return Err(ProtocolDecodeError::InvalidMagic { found: [bytes[0], bytes[1]] });
    }
    let version: u8 = bytes[2];
    if version == VERSION {
        match TelemetryV1::decode(bytes) {
            Ok(frame) => Ok(DecodedTelemetry::V1(frame)),
            Err(error) => Err(ProtocolDecodeError::V1(error)),
        }
    } else if version == VERSION_V2 {
        match decode(bytes) {
            Ok(frame) => Ok(DecodedTelemetry::V2(frame)),
            Err(error) => Err(ProtocolDecodeError::V2(error)),
        }
    } else {
        Err(ProtocolDecodeError::UnsupportedVersion { found: version })
    }
}

/// The text of a failure to decode a frame of either version.
pub open spec fn protocol_error_text(error: ProtocolDecodeError) -> Seq<char> {
    match error {
        ProtocolDecodeError::TruncatedDiscriminator { actual } =>
            "truncated Vesta discriminator: got "@ + text::decimal(actual as nat) + " bytes"@,
        ProtocolDecodeError::InvalidMagic { found } => magic_text(found),
        ProtocolDecodeError::UnsupportedVersion { found } => "unsupported frame version: "@
            + text::decimal(found as nat),
        ProtocolDecodeError::V1(error) => "invalid protocol-v1 frame: "@ + decode_error_text(
            error,
        ),
        ProtocolDecodeError::V2(error) => "invalid protocol-v2 frame: "@ + message::error_text(
            error,
        ),
    }
}

impl ProtocolDecodeError {
    /// The text of this error.
    #[must_use]
    pub fn message(&self) -> (message: String)
        ensures
            message@ == protocol_error_text(*self),
    {
        match *self {
            ProtocolDecodeError::TruncatedDiscriminator { actual } => one_number(
                "truncated Vesta discriminator: got ",
                actual as u64,
                " bytes",
            ),
            ProtocolDecodeError::InvalidMagic { found } => magic_message(found),
            ProtocolDecodeError::UnsupportedVersion { found } => ending_number(
                "unsupported frame version: ",
                found as u64,
            ),
            ProtocolDecodeError::V1(error) => {
                let mut out = String::from_str("invalid protocol-v1 frame: ");
                let detail = error.message();
                out.append(detail.as_str());
                out
            },
            ProtocolDecodeError::V2(error) => {
                let mut out = String::from_str("invalid protocol-v2 frame: ");
                let detail = error.message();
                out.append(detail.as_str());
                out
            },
        }
    }
}

/// A frame decodes as the version that its third byte names, and as no other.
pub proof fn law_version_byte_selects_the_decoder(bytes: Seq<u8>)
    requires
        decoded_any(bytes) is Ok,
    ensures
        decoded_any(bytes)->Ok_0 is V1 <==> bytes[2] == VERSION,
        decoded_any(bytes)->Ok_0 is V2 <==> bytes[2] == VERSION_V2,
{
}

} // verus!
