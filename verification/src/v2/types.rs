//! Constants, records and errors of protocol v2.

use vstd::prelude::*;

use crate::wire;

verus! {

/// Two-byte discriminator at the beginning of every frame: `VS`.
pub const MAGIC: [u8; 2] = [0x56, 0x53];

pub const VERSION_V1: u8 = 1;

pub const VERSION_V2: u8 = 2;

pub const V1_FRAME_LEN: usize = 48;

pub const HEADER_LEN: usize = 48;

pub const MAX_PHY_FRAME_LEN: usize = 255;

pub const MAX_PROFILE_STEPS: usize = 10;

pub const MAX_PROFILE_STEPS_U8: u8 = 10;

pub const STEPS_PER_FRAGMENT: usize = 3;

pub const STEPS_PER_FRAGMENT_U8: u8 = 3;

pub const MAX_PROFILE_FRAGMENTS: usize = 4;

pub const PROFILE_STEP_LEN: usize = 47;

pub const PROFILE_FRAGMENT_META_LEN: usize = 42;

pub const MAX_PROFILE_FRAME_LEN: usize = 231;

pub const MAX_PROFILE_FRAME_LEN_U8: u8 = 231;

pub const CONFIG_BASE_LEN: usize = 83;

pub const CONFIG_STEP_LEN: usize = 10;

pub const MAX_CONFIG_FRAME_LEN: usize = 231;

pub const MAX_V2_FRAME_LEN: usize = 231;

pub const MAX_V2_FRAME_LEN_U8: u8 = 231;

pub const HEALTH_BASE_LEN: usize = 54;

pub const MAX_HEALTH_EXTENSION_LEN: usize = 8;

pub const MAX_HEALTH_FRAME_LEN: usize = 110;

pub const COMMON_FLAG_BOOT_ID_VALID: u8 = 0x01;

pub const COMMON_FLAG_BOOT_ID_FROM_HW_RNG: u8 = 0x02;

pub const COMMON_FLAG_CONFIG_REPEAT: u8 = 0x04;

/// Every flag bit that a common header may carry.
pub const COMMON_FLAGS_KNOWN: u8 = 0x07;

pub const CONFIG_FLAG_CALIBRATION_HASH_VALID: u8 = 0x01;

pub const CONFIG_FLAG_SENSOR_CONFIG_READ_BACK: u8 = 0x02;

/// Every flag bit that a configuration may carry.
pub const CONFIG_FLAGS_KNOWN: u8 = 0x03;

/// Exact v2 frame bytes are emitted as `LoRa` P2P PHY payloads.
pub const OUTPUT_ROUTE_LORA_P2P: u8 = 0x01;

/// Exact v2 frame bytes are carried by the UART COBS + CRC32 stream envelope.
pub const OUTPUT_ROUTE_UART_COBS_CRC32: u8 = 0x02;

/// Exact v2 frame bytes are carried by the RTT length-delimited stream envelope.
pub const OUTPUT_ROUTE_RTT: u8 = 0x04;

/// Every output route that a configuration may name.
pub const OUTPUT_ROUTES_KNOWN: u8 = 0x07;

pub const BUILD_FLAG_ID_VALID: u8 = 0x01;

pub const BUILD_FLAG_DIRTY: u8 = 0x02;

pub const BUILD_FLAG_DEBUG_SLEEP: u8 = 0x04;

/// Every build flag that a configuration may carry.
pub const BUILD_FLAGS_KNOWN: u8 = 0x07;

pub const COLLECTION_FLAG_TIMEOUT: u32 = 0x0001;

pub const COLLECTION_FLAG_I2C_ERROR: u32 = 0x0002;

pub const COLLECTION_FLAG_DUPLICATE: u32 = 0x0004;

pub const COLLECTION_FLAG_OVERWRITTEN: u32 = 0x0008;

pub const COLLECTION_FLAG_GAS_INDEX_OUT_OF_RANGE: u32 = 0x0010;

pub const COLLECTION_FLAG_MEASUREMENT_DISCONTINUITY: u32 = 0x0020;

pub const COLLECTION_FLAG_NO_NEW_DATA: u32 = 0x0040;

pub const COLLECTION_FLAG_INVALID_GAS: u32 = 0x0080;

pub const COLLECTION_FLAG_HEATER_UNSTABLE: u32 = 0x0100;

pub const COLLECTION_FLAG_POLL_BUDGET_EXHAUSTED: u32 = 0x0200;

pub const COLLECTION_FLAG_OBSERVATION_OVERFLOW: u32 = 0x0400;

/// Firmware restored and read back the exact configuration before triggering
/// this scan. Receivers should reset temporal history, not reject the scan.
pub const COLLECTION_FLAG_SENSOR_RECONFIGURED: u32 = 0x0800;

pub const COLLECTION_FLAG_CONFIG_MISMATCH: u32 = 0x1000;

/// One or more `NEW_DATA` fields were drained before the configured scan
/// started. Their count is part of `intermediate_field_count`.
pub const COLLECTION_FLAG_STALE_PRE_SCAN_FIELDS: u32 = 0x2000;

/// Every collection flag that a scan may carry.
pub const COLLECTION_FLAGS_KNOWN: u32 = 0x0000_3fff;

pub const FINISH_REASON_COMPLETE: u8 = 0;

pub const FINISH_REASON_TIMEOUT: u8 = 1;

pub const FINISH_REASON_SENSOR_ERROR: u8 = 2;

pub const FINISH_REASON_POLL_BUDGET: u8 = 3;

pub const FINISH_REASON_PROFILE_ROLLOVER: u8 = 4;

/// Every reset-cause bit that a common header may carry.
pub const RESET_CAUSE_FLAGS_KNOWN: u16 = 0x00ff;

pub const HEALTH_FLAG_COUNTERS_SATURATED: u8 = 0x01;

pub const HEALTH_FLAG_BOOT_ID_UNAVAILABLE: u8 = 0x02;

pub const HEALTH_FLAG_CONFIG_MISMATCH: u8 = 0x04;

pub const HEALTH_FLAG_LAST_SCAN_INCOMPLETE: u8 = 0x08;

pub const HEALTH_FLAG_SENSOR_ERROR_SEEN: u8 = 0x10;

pub const HEALTH_FLAG_RADIO_ERROR_SEEN: u8 = 0x20;

/// Every flag bit that a health record may carry.
pub const HEALTH_FLAGS_KNOWN: u8 = 0x3f;

pub const CONFIG_SCHEMA_VERSION: u8 = 1;

pub const PROFILE_SCHEMA_VERSION: u8 = 1;

pub const HEALTH_SCHEMA_VERSION: u8 = 1;

/// Record discriminator in a v2 common header.
#[derive(Clone, Copy, Debug, Eq, PartialEq, Structural)]
pub enum FrameType {
    DeviceConfig,
    ProfileFragment,
    DeviceHealth,
}

impl FrameType {
    /// The byte that stands for this record type on the wire.
    pub open spec fn code(self) -> u8 {
        match self {
            FrameType::DeviceConfig => 1,
            FrameType::ProfileFragment => 2,
            FrameType::DeviceHealth => 3,
        }
    }

    /// Returns the byte that stands for this record type on the wire.
    pub fn wire_code(self) -> (code: u8)
        ensures
            code == self.code(),
    {
        match self {
            FrameType::DeviceConfig => 1,
            FrameType::ProfileFragment => 2,
            FrameType::DeviceHealth => 3,
        }
    }
}

/// The record type that a discriminator byte stands for.
pub open spec fn frame_type_of(value: u8) -> Result<FrameType, Error> {
    if value == 1 {
        Ok(FrameType::DeviceConfig)
    } else if value == 2 {
        Ok(FrameType::ProfileFragment)
    } else if value == 3 {
        Ok(FrameType::DeviceHealth)
    } else {
        Err(Error::UnknownFrameType(value))
    }
}

impl TryFrom<u8> for FrameType {
    type Error = Error;

    fn try_from(value: u8) -> (result: Result<Self, Self::Error>) {
        match value {
            1 => Ok(FrameType::DeviceConfig),
            2 => Ok(FrameType::ProfileFragment),
            3 => Ok(FrameType::DeviceHealth),
            found => Err(Error::UnknownFrameType(found)),
        }
    }
}

impl vstd::std_specs::convert::TryFromSpecImpl<u8> for FrameType {
    open spec fn obeys_try_from_spec() -> bool {
        true
    }

    open spec fn try_from_spec(value: u8) -> Result<Self, Error> {
        frame_type_of(value)
    }
}

/// Metadata repeated in every v2 radio frame.
#[derive(Clone, Copy, Debug, Eq, PartialEq, Structural)]
pub struct Common {
    pub flags: u8,
    pub node_id: u64,
    pub boot_id: u64,
    pub scan_sequence: u32,
    /// Profile frames use the uptime at scan start. Config/health records use
    /// the uptime when that record snapshot was created.
    pub uptime_ms: u64,
    /// Stable hash of the verified configuration. Zero is a degraded sentinel:
    /// it is forbidden for `DeviceConfig`, and is accepted for health/profile
    /// records only under the explicit pre-configuration/mismatch rules.
    pub config_id: u64,
    pub reset_cause_flags: u16,
}

impl Common {
    /// A header whose boot ID came from the hardware random-number generator.
    #[must_use]
    pub fn production(
        node_id: u64,
        boot_id: u64,
        scan_sequence: u32,
        uptime_ms: u64,
        config_id: u64,
        reset_cause_flags: u16,
    ) -> (common: Self)
        ensures
            common == (Common {
                flags: 0x03,
                node_id,
                boot_id,
                scan_sequence,
                uptime_ms,
                config_id,
                reset_cause_flags,
            }),
    {
        assert(0x01u8 | 0x02u8 == 0x03u8) by (bit_vector);
        Common {
            flags: COMMON_FLAG_BOOT_ID_VALID | COMMON_FLAG_BOOT_ID_FROM_HW_RNG,
            node_id,
            boot_id,
            scan_sequence,
            uptime_ms,
            config_id,
            reset_cause_flags,
        }
    }

    /// Construct a degraded header after a bounded hardware-RNG failure.
    /// `boot_id` is deliberately zero and both validity/source flags are clear.
    #[must_use]
    pub fn boot_id_unavailable(
        node_id: u64,
        scan_sequence: u32,
        uptime_ms: u64,
        config_id: u64,
        reset_cause_flags: u16,
    ) -> (common: Self)
        ensures
            common == (Common {
                flags: 0,
                node_id,
                boot_id: 0,
                scan_sequence,
                uptime_ms,
                config_id,
                reset_cause_flags,
            }),
    {
        Common {
            flags: 0,
            node_id,
            boot_id: 0,
            scan_sequence,
            uptime_ms,
            config_id,
            reset_cause_flags,
        }
    }
}

/// Parsed common header.
#[derive(Clone, Copy, Debug, Eq, PartialEq, Structural)]
pub struct Header {
    pub frame_type: FrameType,
    pub common: Common,
    pub fragment_index: u8,
    pub fragment_count: u8,
    pub payload_len: u16,
}

/// Fixed storage used by the encoder. Its contents are at most 255 bytes.
#[derive(Clone, Copy, Debug, Eq, PartialEq)]
pub struct EncodedFrame {
    bytes: [u8; MAX_PHY_FRAME_LEN],
    len: u8,
}

impl View for EncodedFrame {
    type V = Seq<u8>;

    closed spec fn view(&self) -> Seq<u8> {
        self.bytes@.subrange(0, self.len as int)
    }
}

impl EncodedFrame {
    /// A frame without bytes.
    pub fn empty() -> (frame: Self)
        ensures
            frame@ == Seq::<u8>::empty(),
    {
        EncodedFrame { bytes: [0; MAX_PHY_FRAME_LEN], len: 0 }
    }

    /// The frame's bytes.
    #[must_use]
    pub fn as_slice(&self) -> (slice: &[u8])
        ensures
            slice@ == self@,
    {
        &self.bytes[0..self.len as usize]
    }

    /// The number of bytes in the frame.
    #[must_use]
    pub fn len(&self) -> (len: usize)
        ensures
            len == self@.len(),
            len <= MAX_PHY_FRAME_LEN,
    {
        self.len as usize
    }

    /// Whether the frame has no bytes.
    #[must_use]
    pub fn is_empty(&self) -> (empty: bool)
        ensures
            empty == (self@.len() == 0),
    {
        self.len == 0
    }

    /// Appends one byte.
    pub(crate) fn u8(&mut self, value: u8)
        requires
            old(self)@.len() < MAX_PHY_FRAME_LEN,
        ensures
            final(self)@ == old(self)@ + wire::b8(value),
            final(self)@.len() == old(self)@.len() + 1,
    {
        self.bytes[self.len as usize] = value;
        self.len = self.len + 1;
    }

    /// Appends the byte of a signed integer.
    pub(crate) fn i8(&mut self, value: i8)
        requires
            old(self)@.len() < MAX_PHY_FRAME_LEN,
        ensures
            final(self)@ == old(self)@ + wire::b_i8(value),
            final(self)@.len() == old(self)@.len() + 1,
    {
        if value >= 0 {
            self.u8(value as u8);
        } else {
            self.u8((value as i16 + 0x100) as u8);
        }
    }

    /// Appends the big-endian bytes of an integer.
    pub(crate) fn u16(&mut self, value: u16)
        requires
            old(self)@.len() + 2 <= MAX_PHY_FRAME_LEN,
        ensures
            final(self)@ == old(self)@ + wire::b16(value),
            final(self)@.len() == old(self)@.len() + 2,
    {
        self.u8((value / 256) as u8);
        self.u8((value % 256) as u8);
    }

    /// Appends the big-endian bytes of a signed integer.
    pub(crate) fn i16(&mut self, value: i16)
        requires
            old(self)@.len() + 2 <= MAX_PHY_FRAME_LEN,
        ensures
            final(self)@ == old(self)@ + wire::b_i16(value),
            final(self)@.len() == old(self)@.len() + 2,
    {
        if value >= 0 {
            self.u16(value as u16);
        } else {
            self.u16((value as i32 + 0x1_0000) as u16);
        }
    }

    /// Appends the big-endian bytes of an integer.
    pub(crate) fn u32(&mut self, value: u32)
        requires
            old(self)@.len() + 4 <= MAX_PHY_FRAME_LEN,
        ensures
            final(self)@ == old(self)@ + wire::b32(value),
            final(self)@.len() == old(self)@.len() + 4,
    {
        self.u16((value / 0x1_0000) as u16);
        self.u16((value % 0x1_0000) as u16);
    }

    /// Appends the big-endian bytes of an integer.
    pub(crate) fn u64(&mut self, value: u64)
        requires
            old(self)@.len() + 8 <= MAX_PHY_FRAME_LEN,
        ensures
            final(self)@ == old(self)@ + wire::b64(value),
            final(self)@.len() == old(self)@.len() + 8,
    {
        self.u32((value / 0x1_0000_0000) as u32);
        self.u32((value % 0x1_0000_0000) as u32);
    }

    /// Appends every byte of another frame.
    pub(crate) fn append(&mut self, other: &EncodedFrame)
        requires
            old(self)@.len() + other@.len() <= MAX_PHY_FRAME_LEN,
        ensures
            final(self)@ == old(self)@ + other@,
    {
        let ghost before = self@;
        let count: u8 = other.len;
        let mut index: u8 = 0;
        while index < count
            invariant
                index <= count,
                count == other@.len(),
                count == other.len,
                before.len() + count <= MAX_PHY_FRAME_LEN,
                self@ == before + other@.subrange(0, index as int),
            decreases count - index,
        {
            self.u8(other.bytes[index as usize]);
            index = index + 1;
            assert(other@.subrange(0, index as int) == other@.subrange(0, index - 1) + wire::b8(
                other@[index - 1],
            ));
        }
        assert(other@.subrange(0, count as int) == other@);
    }
}

impl AsRef<[u8]> for EncodedFrame {
    fn as_ref(&self) -> (slice: &[u8])
        ensures
            slice@ == self@,
    {
        self.as_slice()
    }
}

/// One exact programmed heater step in the configuration record.
#[derive(Clone, Copy, Debug, Eq, PartialEq, Structural)]
pub struct HeaterStepConfig {
    pub target_temperature_celsius: u16,
    /// Effective configured duration. For Bosch parallel mode this is the
    /// repetition multiplier times `(quantized shared wait + TPHG duration)`.
    pub configured_duration_us: u32,
    /// Bosch parallel-mode TPHG repetition multiplier; zero outside parallel
    /// mode (and retains Bosch's special zero semantics if ever configured).
    pub repetition_multiplier: u8,
    /// Canonical `IDAC_HEATn` snapshot. This is read-only metadata, not an
    /// expected-value check; live profile-step readback may differ.
    pub readback_heater_current: u8,
    /// Read-back `RES_HEATn`; meaningful only when the corresponding bit in
    /// `heater_readback_valid_bitmap` is set.
    pub programmed_heater_resistance: u8,
    /// Read-back `GAS_WAITn`; meaningful only when the corresponding bit in
    /// `heater_readback_valid_bitmap` is set.
    pub programmed_gas_wait: u8,
}

/// The heater step whose every field is zero.
pub open spec fn unused_heater_step() -> HeaterStepConfig {
    HeaterStepConfig {
        target_temperature_celsius: 0,
        configured_duration_us: 0,
        repetition_multiplier: 0,
        readback_heater_current: 0,
        programmed_heater_resistance: 0,
        programmed_gas_wait: 0,
    }
}

impl Default for HeaterStepConfig {
    fn default() -> (step: Self)
        ensures
            step == unused_heater_step(),
    {
        HeaterStepConfig {
            target_temperature_celsius: 0,
            configured_duration_us: 0,
            repetition_multiplier: 0,
            readback_heater_current: 0,
            programmed_heater_resistance: 0,
            programmed_gas_wait: 0,
        }
    }
}

/// Device, BME688 profile, firmware, cadence, and radio configuration.
#[derive(Clone, Copy, Debug, Eq, PartialEq)]
pub struct DeviceConfig {
    pub flags: u8,
    pub firmware_version: [u8; 3],
    pub firmware_build_flags: u8,
    pub firmware_build_id: u64,
    pub sensor_chip_id: u8,
    pub sensor_variant: u8,
    pub sensor_i2c_address: u8,
    pub temperature_oversampling: u8,
    pub humidity_oversampling: u8,
    pub pressure_oversampling: u8,
    pub iir_filter: u8,
    pub standby_time: u8,
    pub operation_mode: u8,
    pub heater_enabled: u8,
    pub parallel_requested_shared_wait_ms: u16,
    pub parallel_shared_wait_register: u8,
    pub parallel_quantized_shared_wait_us: u32,
    pub tphg_duration_us: u32,
    pub expected_profile_duration_us: u32,
    pub profile_id: u16,
    pub profile_version: u16,
    pub expected_step_count: u8,
    /// A set bit means all three raw `IDAC/RES/GAS_WAIT` descriptor bytes were
    /// successfully read and transmitted. It does not mean IDAC matched a
    /// programmed expectation.
    pub heater_readback_valid_bitmap: u16,
    pub calibration_hash_algorithm: u8,
    pub calibration_hash: u64,
    pub scan_interval_ms: u32,
    pub config_repeat_interval_scans: u16,
    /// Bitmask of destinations that emit the exact v2 frame bytes. Multiple
    /// routes may be active in a laboratory build.
    pub output_routes: u8,
    pub radio_frequency_hz: u32,
    pub radio_tx_power_dbm: i8,
    pub radio_spreading_factor: u8,
    pub radio_bandwidth_hz: u32,
    pub radio_coding_rate_numerator: u8,
    pub radio_coding_rate_denominator: u8,
    pub radio_preamble_symbols: u16,
    /// `0` is explicit and `1` is implicit.
    pub radio_header_mode: u8,
    pub radio_phy_crc_enabled: u8,
    pub radio_iq_inverted: u8,
    pub radio_sync_word: u16,
    pub max_frame_len: u8,
    pub profile_steps_per_fragment: u8,
    pub steps: [HeaterStepConfig; MAX_PROFILE_STEPS],
}

/// Every raw and compensated value retained for one logical profile step.
#[derive(Clone, Copy, Debug, Eq, PartialEq, Structural)]
pub struct ProfileStep {
    pub step_index: u8,
    pub gas_index: u8,
    pub measurement_index: u8,
    /// Bosch-compatible combined flags. Current firmware emits only
    /// `NEW_DATA` (bit 7), `GAS_VALID` (bit 5), and `HEAT_STAB` (bit 4).
    /// Other bits remain representable for forward-compatible producers.
    pub status: u8,
    /// Unmodified BME688 `FIELDx[0]` byte. Physical measurement-index and
    /// reserved bits remain here instead of being folded into `status`.
    pub raw_measurement_status: u8,
    /// Unmodified variant-selected BME688 `FIELDx[14]` (Gas Low) or
    /// `FIELDx[16]` (Gas High) byte, with its gas-index/range-adjacent bits.
    pub raw_gas_status: u8,
    pub target_temperature_celsius: u16,
    pub configured_duration_us: u32,
    pub offset_us: u32,
    pub temperature_centi_celsius: i16,
    pub pressure_pascal: u32,
    pub humidity_milli_percent_rh: u32,
    pub gas_resistance_ohm: u32,
    pub temperature_adc: u32,
    pub pressure_adc: u32,
    pub humidity_adc: u16,
    pub gas_resistance_adc: u16,
    pub gas_range: u8,
    pub repetition_multiplier: u8,
    pub heater_resistance: u8,
    pub heater_current: u8,
    pub gas_wait: u8,
}

impl Default for ProfileStep {
    fn default() -> (step: Self)
        ensures
            step == (ProfileStep {
                step_index: 0,
                gas_index: 0,
                measurement_index: 0,
                status: 0,
                raw_measurement_status: 0,
                raw_gas_status: 0,
                target_temperature_celsius: 0,
                configured_duration_us: 0,
                offset_us: 0,
                temperature_centi_celsius: 0,
                pressure_pascal: 0,
                humidity_milli_percent_rh: 0,
                gas_resistance_ohm: 0,
                temperature_adc: 0,
                pressure_adc: 0,
                humidity_adc: 0,
                gas_resistance_adc: 0,
                gas_range: 0,
                repetition_multiplier: 0,
                heater_resistance: 0,
                heater_current: 0,
                gas_wait: 0,
            }),
    {
        ProfileStep {
            step_index: 0,
            gas_index: 0,
            measurement_index: 0,
            status: 0,
            raw_measurement_status: 0,
            raw_gas_status: 0,
            target_temperature_celsius: 0,
            configured_duration_us: 0,
            offset_us: 0,
            temperature_centi_celsius: 0,
            pressure_pascal: 0,
            humidity_milli_percent_rh: 0,
            gas_resistance_ohm: 0,
            temperature_adc: 0,
            pressure_adc: 0,
            humidity_adc: 0,
            gas_resistance_adc: 0,
            gas_range: 0,
            repetition_multiplier: 0,
            heater_resistance: 0,
            heater_current: 0,
            gas_wait: 0,
        }
    }
}

/// Complete bounded scan passed to the deterministic fragment encoder.
#[derive(Clone, Copy, Debug, Eq, PartialEq)]
pub struct ProfileScan {
    pub profile_id: u16,
    pub profile_version: u16,
    pub expected_step_count: u8,
    pub observed_unique_step_count: u8,
    /// Counts every new field observed, duplicates too. It saturates at
    /// `u16::MAX` and sets the observation-overflow collection flag.
    pub observed_field_count: u16,
    pub missing_steps_bitmap: u16,
    pub duplicate_steps_bitmap: u16,
    pub scan_duration_us: u32,
    pub collection_flags: u32,
    pub finish_reason: u8,
    pub duplicate_count: u16,
    pub overwritten_field_count: u16,
    pub out_of_order_count: u16,
    pub ambiguous_index_jump_count: u16,
    pub invalid_gas_index_count: u16,
    /// Total discarded nonterminal fields: in-scan intermediate/dummy fields
    /// plus stale `NEW_DATA` fields explicitly drained before scan start.
    pub intermediate_field_count: u16,
    pub profile_rollover_count: u16,
    pub fields_after_rollover_count: u16,
    pub poll_count: u16,
    /// A missing logical step is `None`; present steps must carry the matching
    /// `step_index`. This is intentionally not a compact vector.
    pub steps: [Option<ProfileStep>; MAX_PROFILE_STEPS],
}

/// Periodic counters and reset/diagnostic snapshot.
#[derive(Clone, Copy, Debug, Eq, PartialEq)]
pub struct DeviceHealth {
    pub flags: u8,
    /// Exact RCC reset-status register captured before it was cleared.
    pub reset_cause_raw: u32,
    pub successful_sensor_scans: u32,
    pub failed_sensor_scans: u32,
    pub incomplete_profiles: u32,
    pub i2c_errors: u32,
    pub radio_tx_errors: u32,
    pub dropped_profiles: u32,
    pub dropped_fragments: u32,
    pub overwritten_fields: u32,
    pub current_sample_interval_ms: u32,
    pub firmware_version: [u8; 3],
    /// Requested/current profile. Both identity fields are zero only for a
    /// pre-configuration health attempt whose common config ID is also zero.
    pub profile_id: u16,
    pub profile_version: u16,
    pub last_sensor_error: u16,
    pub last_radio_error: u16,
    /// Omitted from the wire when absent. Presence means firmware used the
    /// STM32 factory-calibration procedure, not an uncalibrated ADC guess.
    pub calibrated_mcu_temperature_centi_celsius: Option<i16>,
    /// This is regulated VDD, never battery voltage or state of charge.
    /// Omitted from the wire when factory-calibrated VREFINT is unavailable.
    pub calibrated_vdd_millivolt: Option<u16>,
}

/// Codec or structural validation failure.
#[derive(Clone, Copy, Debug, Eq, PartialEq)]
pub enum Error {
    WrongLength { expected: usize, actual: usize },
    FrameTooLong(usize),
    InvalidMagic([u8; 2]),
    UnsupportedVersion(u8),
    InvalidHeaderLength(u8),
    UnknownFrameType(u8),
    InvalidFragmentCount(u8),
    InvalidFragmentIndex { index: u8, count: u8 },
    InvalidField(&'static str),
    UnknownFlags { field: &'static str, bits: u32 },
    ConfigIdMismatch { header: u64, calculated: u64 },
    StepIndexOutOfBounds,
    BufferExhausted,
}

} // verus!
