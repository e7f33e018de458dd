//! Deterministic quality gates and feature extraction for server-side analysis.
//!
//! This module intentionally contains no fire classifier or alert thresholds.
//! It converts validated telemetry into reproducible features that a later rule
//! engine or trained model can consume. Every feature is an exact integer in the
//! unit of the wire; logarithms and rates are left to the caller.

pub mod laws;

use vstd::prelude::*;
use vstd::seq_lib;

use crate::records;
use crate::records::{DeviceConfiguration, HeaterStepConfiguration, ProfileScan, ProfileStep};
use crate::telemetry::TelemetryV1;
use crate::v2::checks;
use crate::v2::checks::step_mask;
use crate::v2::types::{
    COMMON_FLAG_BOOT_ID_VALID, COLLECTION_FLAG_SENSOR_RECONFIGURED,
    CONFIG_FLAG_SENSOR_CONFIG_READ_BACK, FINISH_REASON_COMPLETE,
};

verus! {

pub const MIN_TEMPERATURE_CENTI_CELSIUS: i16 = -4_000;

pub const MAX_TEMPERATURE_CENTI_CELSIUS: i16 = 8_500;

pub const MIN_PRESSURE_PASCAL: u32 = 30_000;

pub const MAX_PRESSURE_PASCAL: u32 = 110_000;

pub const MAX_HUMIDITY_MILLI_PERCENT_RH: u32 = 100_000;

/// The collection flags that do not keep a scan from analysis.
///
/// This is deliberately an allowlist: new/unknown collector flags fail closed.
/// Duplicate observations are expected while polling the BME688's three field
/// slots and are safe after deterministic terminal-step reassembly. A verified
/// pre-scan sensor recovery resets temporal history but remains usable because
/// firmware read back the exact configuration before triggering the scan. Every
/// other flag, stale pre-scan data too, is critical.
pub const ANALYSIS_ALLOWED_COLLECTION_FLAGS: u32 = 0x0804;

/// Bitset describing why one sensor sample should not feed analysis directly.
#[derive(Clone, Copy, Debug, Eq, PartialEq, Structural)]
pub struct QualityFlags(u16);

impl QualityFlags {
    /// The field did not carry the BME688 new-data flag.
    pub const NOT_NEW_DATA: u16 = 0x0001;

    /// The BME688 marked gas conversion invalid.
    pub const GAS_INVALID: u16 = 0x0002;

    /// The BME688 heater was not stable.
    pub const HEATER_UNSTABLE: u16 = 0x0004;

    /// Unknown status bits were present.
    pub const UNKNOWN_STATUS: u16 = 0x0008;

    /// Compensated temperature lies outside the BME688 operating range.
    pub const TEMPERATURE_OUT_OF_RANGE: u16 = 0x0010;

    /// Compensated pressure lies outside the BME688 operating range.
    pub const PRESSURE_OUT_OF_RANGE: u16 = 0x0020;

    /// Compensated humidity lies outside 0-100 percent RH.
    pub const HUMIDITY_OUT_OF_RANGE: u16 = 0x0040;

    /// Gas resistance was zero and therefore cannot be log transformed.
    pub const GAS_RESISTANCE_ZERO: u16 = 0x0080;

    /// The containing profile did not pass collector/transport integrity gates.
    pub const PROFILE_SCAN_UNUSABLE: u16 = 0x0100;

    /// The flags with these bits.
    pub closed spec fn of(bits: u16) -> Self {
        QualityFlags(bits)
    }

    /// Every bit of these flags.
    pub closed spec fn value(self) -> u16 {
        self.0
    }

    /// Flags with the given bits.
    #[must_use]
    pub fn from_bits(bits: u16) -> (flags: Self)
        ensures
            flags == QualityFlags::of(bits),
            flags.value() == bits,
    {
        QualityFlags(bits)
    }

    /// Raw integer representation suitable for storage and JSON output.
    #[must_use]
    pub fn bits(self) -> (bits: u16)
        ensures
            bits == self.value(),
            self == QualityFlags::of(bits),
    {
        self.0
    }

    /// Whether no quality problem was found.
    #[must_use]
    pub fn is_empty(self) -> (empty: bool)
        ensures
            empty == (self.value() == 0),
    {
        self.0 == 0
    }

    /// Adds bits.
    fn insert(&mut self, other: u16)
        ensures
            final(self).value() == old(self).value() | other,
    {
        self.0 = self.0 | other;
    }
}

impl Default for QualityFlags {
    fn default() -> (flags: Self)
        ensures
            flags.value() == 0,
    {
        QualityFlags(0)
    }
}

/// Flags hold the bits that they were made with.
pub proof fn lemma_value_of(bits: u16)
    ensures
        QualityFlags::of(bits).value() == bits,
{
}

/// A flag where a problem was found, and no flag otherwise.
pub open spec fn flag_if(found: bool, flag: u16) -> u16 {
    if found {
        flag
    } else {
        0
    }
}

/// The quality flags of one sensor sample.
pub open spec fn quality_of(
    status_bits: u8,
    temperature_centi_celsius: i16,
    pressure_pascal: u32,
    humidity_milli_percent_rh: u32,
    gas_resistance_ohm: u32,
) -> u16 {
    0 | flag_if(status_bits & 0x80 == 0, 0x0001) | flag_if(status_bits & 0x20 == 0, 0x0002)
        | flag_if(status_bits & 0x10 == 0, 0x0004) | flag_if(status_bits & !0xb0u8 != 0, 0x0008)
        | flag_if(
        !(MIN_TEMPERATURE_CENTI_CELSIUS <= temperature_centi_celsius
            <= MAX_TEMPERATURE_CENTI_CELSIUS),
        0x0010,
    ) | flag_if(!(MIN_PRESSURE_PASCAL <= pressure_pascal <= MAX_PRESSURE_PASCAL), 0x0020) | flag_if(
        humidity_milli_percent_rh > MAX_HUMIDITY_MILLI_PERCENT_RH,
        0x0040,
    ) | flag_if(gas_resistance_ohm == 0, 0x0080)
}

/// Calculates the quality flags of one sensor sample.
fn sample_quality(
    status_bits: u8,
    temperature_centi_celsius: i16,
    pressure_pascal: u32,
    humidity_milli_percent_rh: u32,
    gas_resistance_ohm: u32,
) -> (quality: QualityFlags)
    ensures
        quality.value() == quality_of(
            status_bits,
            temperature_centi_celsius,
            pressure_pascal,
            humidity_milli_percent_rh,
            gas_resistance_ohm,
        ),
{
    let mut quality = QualityFlags::default();
    insert_if(&mut quality, status_bits & 0x80 == 0, QualityFlags::NOT_NEW_DATA);
    insert_if(&mut quality, status_bits & 0x20 == 0, QualityFlags::GAS_INVALID);
    insert_if(&mut quality, status_bits & 0x10 == 0, QualityFlags::HEATER_UNSTABLE);
    insert_if(&mut quality, status_bits & !0xb0u8 != 0, QualityFlags::UNKNOWN_STATUS);
    insert_if(
        &mut quality,
        temperature_centi_celsius < MIN_TEMPERATURE_CENTI_CELSIUS || temperature_centi_celsius
            > MAX_TEMPERATURE_CENTI_CELSIUS,
        QualityFlags::TEMPERATURE_OUT_OF_RANGE,
    );
    insert_if(
        &mut quality,
        pressure_pascal < MIN_PRESSURE_PASCAL || pressure_pascal > MAX_PRESSURE_PASCAL,
        QualityFlags::PRESSURE_OUT_OF_RANGE,
    );
    insert_if(
        &mut quality,
        humidity_milli_percent_rh > MAX_HUMIDITY_MILLI_PERCENT_RH,
        QualityFlags::HUMIDITY_OUT_OF_RANGE,
    );
    insert_if(&mut quality, gas_resistance_ohm == 0, QualityFlags::GAS_RESISTANCE_ZERO);
    quality
}

/// Adds a flag where a problem was found.
fn insert_if(quality: &mut QualityFlags, found: bool, flag: u16)
    ensures
        final(quality).value() == old(quality).value() | flag_if(found, flag),
{
    if found {
        quality.insert(flag);
    } else {
        let ghost bits = quality.value();
        assert(bits | 0 == bits) by (bit_vector);
    }
}

/// Exact sensor channel represented by an analysis sample.
#[derive(Clone, Copy, Debug, Eq, Hash, PartialEq, Structural)]
pub enum AnalysisSeries {
    /// Legacy forced-mode v1 channel.
    LegacyV1,
    /// One exact heater step under one exact protocol-v2 profile definition.
    ProfileStep {
        /// Stable hash of the complete device/sensor/profile configuration.
        config_id: u64,
        /// Firmware-defined profile family.
        profile_id: u16,
        /// Revision of the profile family.
        profile_version: u16,
        /// Heater step within the profile.
        step_index: u8,
    },
}

/// What isolates one temporal history from another.
#[derive(Clone, Copy, Debug, Eq, Hash, PartialEq, Structural)]
pub struct HistoryKey {
    pub node_id: u64,
    pub boot_id: Option<u64>,
    pub series: AnalysisSeries,
}

/// Device-monotonic timestamp for one BME688 heater-step field observation.
///
/// The two wire fields remain separate so the full `u64` millisecond uptime is
/// retained without overflowing when converted to microseconds. The offset is
/// when the MCU observed/read the field and is not an exact sensor conversion
/// timestamp.
#[derive(Clone, Copy, Debug, Eq, PartialEq, Structural)]
pub struct DeviceSampleTime {
    /// Device uptime captured immediately before the profile scan was started.
    pub scan_start_uptime_ms: u64,
    /// MCU field-read/poll observation offset of this step within the scan.
    pub relative_offset_us: u32,
}

impl DeviceSampleTime {
    /// Microseconds since the device started.
    pub open spec fn micros(self) -> int {
        self.scan_start_uptime_ms * 1_000 + self.relative_offset_us
    }

    /// Microseconds since the device started.
    fn total_microseconds(self) -> (micros: u128)
        ensures
            micros == self.micros(),
    {
        self.scan_start_uptime_ms as u128 * 1_000 + self.relative_offset_us as u128
    }

    /// Microseconds since an earlier observation.
    fn elapsed_since(self, prior: Self) -> (elapsed: Option<u64>)
        ensures
            elapsed == positive_micros(self.micros() - prior.micros()),
    {
        let current: u128 = self.total_microseconds();
        let earlier: u128 = prior.total_microseconds();
        if current <= earlier {
            return None;
        }
        let elapsed: u128 = current - earlier;
        if elapsed <= u64::MAX as u128 {
            Some(elapsed as u64)
        } else {
            None
        }
    }
}

/// A number of microseconds if it is positive and 64 bits can hold it.
pub open spec fn positive_micros(micros: int) -> Option<u64> {
    if 0 < micros <= u64::MAX {
        Some(micros as u64)
    } else {
        None
    }
}

/// Exact server-side observation before derivative calculation.
#[derive(Clone, Copy, Debug, Eq, PartialEq, Structural)]
pub struct AnalysisSample {
    /// Stable device node identity.
    pub node_id: u64,
    /// Optional boot nonce, unavailable in v1 or after a reported RNG failure.
    pub boot_id: Option<u64>,
    /// Sequence within the protocol stream or profile stream.
    pub sequence: u32,
    /// Exact channel/profile identity used to isolate temporal history.
    pub series: AnalysisSeries,
    /// Host receive time in Unix milliseconds.
    pub received_at_unix_ms: i64,
    /// Device-monotonic field-observation time for v2. V1 has no device uptime
    /// and therefore deliberately falls back to host receive time.
    pub device_sample_time: Option<DeviceSampleTime>,
    /// Compensated temperature in hundredths of a degree Celsius.
    pub temperature_centi_celsius: i16,
    /// Compensated pressure in pascals.
    pub pressure_pascal: u32,
    /// Compensated humidity in thousandths of a percent RH.
    pub humidity_milli_percent_rh: u32,
    /// Compensated gas resistance in ohms.
    pub gas_resistance_ohm: u32,
    /// Quality flags calculated before feature extraction.
    pub quality: QualityFlags,
    /// Clear prior history for this exact series before considering this
    /// observation. Protocol v2 sets this after verified sensor recovery.
    pub reset_temporal_history: bool,
}

/// The boot nonce of a scan, if it is valid.
pub open spec fn boot_id_of(scan: ProfileScan) -> Option<u64> {
    if scan.identity.common_flags & COMMON_FLAG_BOOT_ID_VALID != 0 {
        Some(scan.identity.boot_id)
    } else {
        None
    }
}

/// Whether a scan passes every collector and transport integrity gate.
pub open spec fn allows_analysis(scan: ProfileScan) -> bool {
    &&& records::scan_fault(scan) is None
    &&& scan.identity.common_flags & COMMON_FLAG_BOOT_ID_VALID != 0
    &&& scan.received_fragment_bitmap == records::full_bitmap(scan.expected_fragment_count)
    &&& records::unavailable_steps(scan) == 0
    &&& scan.finish_reason == FINISH_REASON_COMPLETE
    &&& scan.collection_flags & !ANALYSIS_ALLOWED_COLLECTION_FLAGS == 0
    &&& scan.overwritten_field_count == 0
    &&& scan.out_of_order_count == 0
    &&& scan.ambiguous_index_jump_count == 0
    &&& scan.invalid_gas_index_count == 0
    &&& scan.profile_rollover_count == 0
    &&& scan.fields_after_rollover_count == 0
    &&& scan.conflicting_fragment_count == 0
}

/// The quality flags of one step of a scan.
pub open spec fn step_quality(scan: ProfileScan, step: ProfileStep) -> u16 {
    let quality = quality_of(
        step.status_bits,
        step.temperature_centi_celsius,
        step.pressure_pascal,
        step.humidity_milli_percent_rh,
        step.gas_resistance_ohm,
    );
    if allows_analysis(scan) {
        quality
    } else {
        quality | 0x0100
    }
}

/// Whether a scan passes every collector and transport integrity gate.
fn profile_scan_allows_analysis(scan: &ProfileScan) -> (allowed: bool)
    ensures
        allowed == allows_analysis(*scan),
{
    scan.validate().is_ok() && scan.identity.common_flags & COMMON_FLAG_BOOT_ID_VALID != 0
        && scan.is_transport_complete() && scan.computed_unavailable_steps() == 0
        && scan.finish_reason == FINISH_REASON_COMPLETE && scan.collection_flags
        & !ANALYSIS_ALLOWED_COLLECTION_FLAGS == 0 && scan.overwritten_field_count == 0
        && scan.out_of_order_count == 0 && scan.ambiguous_index_jump_count == 0
        && scan.invalid_gas_index_count == 0 && scan.profile_rollover_count == 0
        && scan.fields_after_rollover_count == 0 && scan.conflicting_fragment_count == 0
}

/// The boot nonce of a scan, if it is valid.
fn valid_boot_id(scan: &ProfileScan) -> (boot_id: Option<u64>)
    ensures
        boot_id == boot_id_of(*scan),
{
    if scan.identity.common_flags & COMMON_FLAG_BOOT_ID_VALID != 0 {
        Some(scan.identity.boot_id)
    } else {
        None
    }
}

/// Calculates the quality flags of one step of a scan.
fn profile_step_quality(step: &ProfileStep, scan_usable: bool, scan: &ProfileScan) -> (quality:
    QualityFlags)
    requires
        scan_usable == allows_analysis(*scan),
    ensures
        quality.value() == step_quality(*scan, *step),
{
    let mut quality = sample_quality(
        step.status_bits,
        step.temperature_centi_celsius,
        step.pressure_pascal,
        step.humidity_milli_percent_rh,
        step.gas_resistance_ohm,
    );
    if !scan_usable {
        quality.insert(QualityFlags::PROFILE_SCAN_UNUSABLE);
    }
    quality
}

/// The observation of a version 1 frame.
pub open spec fn v1_sample(frame: TelemetryV1, received_at_unix_ms: i64) -> AnalysisSample {
    let readings = frame.compensated;
    AnalysisSample {
        node_id: frame.node_id,
        boot_id: None,
        sequence: frame.sequence,
        series: AnalysisSeries::LegacyV1,
        received_at_unix_ms,
        device_sample_time: None,
        temperature_centi_celsius: readings.temperature.value(),
        pressure_pascal: readings.pressure.value(),
        humidity_milli_percent_rh: readings.humidity.value(),
        gas_resistance_ohm: readings.gas_resistance.value(),
        quality: QualityFlags::of(
            quality_of(
                frame.sensor_status.value(),
                readings.temperature.value(),
                readings.pressure.value(),
                readings.humidity.value(),
                readings.gas_resistance.value(),
            ),
        ),
        reset_temporal_history: false,
    }
}

/// The observation of one step of a scan.
pub open spec fn step_sample(
    scan: ProfileScan,
    step: ProfileStep,
    received_at_unix_ms: i64,
) -> AnalysisSample {
    AnalysisSample {
        node_id: scan.identity.node_id,
        boot_id: boot_id_of(scan),
        sequence: scan.identity.scan_sequence,
        series: AnalysisSeries::ProfileStep {
            config_id: scan.identity.config_id,
            profile_id: scan.profile_id,
            profile_version: scan.profile_version,
            step_index: step.step_index,
        },
        received_at_unix_ms,
        device_sample_time: Some(
            DeviceSampleTime {
                scan_start_uptime_ms: scan.identity.uptime_ms,
                relative_offset_us: step.relative_offset_us,
            },
        ),
        temperature_centi_celsius: step.temperature_centi_celsius,
        pressure_pascal: step.pressure_pascal,
        humidity_milli_percent_rh: step.humidity_milli_percent_rh,
        gas_resistance_ohm: step.gas_resistance_ohm,
        quality: QualityFlags::of(step_quality(scan, step)),
        reset_temporal_history: scan.collection_flags & COLLECTION_FLAG_SENSOR_RECONFIGURED != 0,
    }
}

impl AnalysisSample {
    /// The history that this observation belongs to. A v2 observation with an
    /// unavailable nonce belongs to none, because it must not build history
    /// across an undetectable reboot.
    pub open spec fn key(self) -> Option<HistoryKey> {
        if self.series is ProfileStep && self.boot_id is None {
            None
        } else {
            Some(
                HistoryKey { node_id: self.node_id, boot_id: self.boot_id, series: self.series },
            )
        }
    }

    /// Microseconds since an earlier observation of the same series: by the
    /// device's own clock for v2, and by the host's receive time for v1.
    pub open spec fn micros_since(self, prior: Self) -> Option<u64> {
        match self.series {
            AnalysisSeries::LegacyV1 => {
                let elapsed = self.received_at_unix_ms - prior.received_at_unix_ms;
                if elapsed <= i64::MAX {
                    positive_micros(elapsed * 1_000)
                } else {
                    None
                }
            },
            AnalysisSeries::ProfileStep { .. } => match (
                self.device_sample_time,
                prior.device_sample_time,
            ) {
                (Some(current), Some(earlier)) => positive_micros(
                    current.micros() - earlier.micros(),
                ),
                _ => None,
            },
        }
    }

    /// Construct an observation from one legacy protocol-v1 frame.
    #[must_use]
    pub fn from_v1(frame: &TelemetryV1, received_at_unix_ms: i64) -> (sample: Self)
        ensures
            sample == v1_sample(*frame, received_at_unix_ms),
    {
        let temperature: i16 = frame.compensated.temperature.centi_celsius();
        let pressure: u32 = frame.compensated.pressure.pascals();
        let humidity: u32 = frame.compensated.humidity.milli_percent_rh();
        let gas: u32 = frame.compensated.gas_resistance.ohms();
        AnalysisSample {
            node_id: frame.node_id,
            boot_id: None,
            sequence: frame.sequence,
            series: AnalysisSeries::LegacyV1,
            received_at_unix_ms,
            device_sample_time: None,
            temperature_centi_celsius: temperature,
            pressure_pascal: pressure,
            humidity_milli_percent_rh: humidity,
            gas_resistance_ohm: gas,
            quality: sample_quality(
                frame.sensor_status.bits(),
                temperature,
                pressure,
                humidity,
                gas,
            ),
            reset_temporal_history: false,
        }
    }

    /// Construct an observation from one step of a decoded profile scan.
    #[must_use]
    pub fn from_profile_step(
        scan: &ProfileScan,
        step: &ProfileStep,
        received_at_unix_ms: i64,
    ) -> (sample: Self)
        ensures
            sample == step_sample(*scan, *step, received_at_unix_ms),
    {
        let scan_usable = profile_scan_allows_analysis(scan);
        AnalysisSample {
            node_id: scan.identity.node_id,
            boot_id: valid_boot_id(scan),
            sequence: scan.identity.scan_sequence,
            series: AnalysisSeries::ProfileStep {
                config_id: scan.identity.config_id,
                profile_id: scan.profile_id,
                profile_version: scan.profile_version,
                step_index: step.step_index,
            },
            received_at_unix_ms,
            device_sample_time: Some(
                DeviceSampleTime {
                    scan_start_uptime_ms: scan.identity.uptime_ms,
                    relative_offset_us: step.relative_offset_us,
                },
            ),
            temperature_centi_celsius: step.temperature_centi_celsius,
            pressure_pascal: step.pressure_pascal,
            humidity_milli_percent_rh: step.humidity_milli_percent_rh,
            gas_resistance_ohm: step.gas_resistance_ohm,
            quality: profile_step_quality(step, scan_usable, scan),
            reset_temporal_history: scan.collection_flags & COLLECTION_FLAG_SENSOR_RECONFIGURED
                != 0,
        }
    }

    /// The history that this observation belongs to.
    fn history_key(self) -> (key: Option<HistoryKey>)
        ensures
            key == self.key(),
    {
        if self.is_profile_step() && self.boot_id.is_none() {
            return None;
        }
        Some(HistoryKey { node_id: self.node_id, boot_id: self.boot_id, series: self.series })
    }

    /// Whether this is an observation of a profile step.
    fn is_profile_step(self) -> (is_step: bool)
        ensures
            is_step == (self.series is ProfileStep),
    {
        match self.series {
            AnalysisSeries::LegacyV1 => false,
            AnalysisSeries::ProfileStep { .. } => true,
        }
    }

    /// Microseconds since an earlier observation of the same series.
    fn elapsed_since(self, prior: Self) -> (elapsed: Option<u64>)
        ensures
            elapsed == self.micros_since(prior),
    {
        match self.series {
            AnalysisSeries::LegacyV1 => {
                match self.received_at_unix_ms.checked_sub(prior.received_at_unix_ms) {
                    Some(elapsed_ms) => {
                        if elapsed_ms > 0 && elapsed_ms as u64 <= u64::MAX / 1_000 {
                            Some(elapsed_ms as u64 * 1_000)
                        } else {
                            None
                        }
                    },
                    None => None,
                }
            },
            AnalysisSeries::ProfileStep { .. } => {
                match (self.device_sample_time, prior.device_sample_time) {
                    (Some(current), Some(earlier)) => current.elapsed_since(earlier),
                    _ => None,
                }
            },
        }
    }
}

/// How an observation differs from the prior usable one of its series.
#[derive(Clone, Copy, Debug, Eq, PartialEq, Structural)]
pub struct SampleChange {
    /// Exact elapsed microseconds.
    pub elapsed_us: u64,
    /// Change of temperature in hundredths of a degree Celsius.
    pub temperature_centi_celsius: i32,
    /// Change of humidity in thousandths of a percent RH.
    pub humidity_milli_percent_rh: i64,
    /// Change of pressure in pascals.
    pub pressure_pascal: i64,
    /// Gas resistance of the prior observation in ohms.
    pub prior_gas_resistance_ohm: u32,
}

/// Exact features for one chronologically ingested observation.
#[derive(Clone, Copy, Debug, Eq, PartialEq, Structural)]
pub struct TemporalFeatures {
    /// Stable node identity.
    pub node_id: u64,
    /// Optional boot nonce.
    pub boot_id: Option<u64>,
    /// Device sequence.
    pub sequence: u32,
    /// Exact channel/profile identity used for this temporal series.
    pub series: AnalysisSeries,
    /// Host receive time in Unix milliseconds.
    pub received_at_unix_ms: i64,
    /// Device-monotonic field-observation time used for v2 ordering and rates.
    pub device_sample_time: Option<DeviceSampleTime>,
    /// Quality flags copied from the source sample.
    pub quality_flags: u16,
    /// Whether this observation cleared its exact series history because the
    /// sensor was reconfigured or a v2 scan sequence was discontinuous.
    pub temporal_history_reset: bool,
    /// Temperature in hundredths of a degree Celsius.
    pub temperature_centi_celsius: i16,
    /// Pressure in pascals.
    pub pressure_pascal: u32,
    /// Relative humidity in thousandths of a percent.
    pub humidity_milli_percent_rh: u32,
    /// Gas resistance in ohms.
    pub gas_resistance_ohm: u32,
    /// Elapsed time from the prior usable sample in the exact same series.
    pub elapsed_ms: Option<u64>,
    /// Exact elapsed microseconds used for derivative calculation.
    pub elapsed_us: Option<u64>,
    /// The change from which rates are calculated.
    pub change: Option<SampleChange>,
}

/// The prior observation of the series that an observation belongs to.
pub open spec fn prior_of(
    history: Map<HistoryKey, AnalysisSample>,
    sample: AnalysisSample,
) -> Option<AnalysisSample> {
    match sample.key() {
        Some(key) => if history.dom().contains(key) {
            Some(history[key])
        } else {
            None
        },
        None => None,
    }
}

/// Whether an observation is newer than the prior one, or there is none.
pub open spec fn is_newer(sample: AnalysisSample, prior: Option<AnalysisSample>) -> bool {
    match prior {
        Some(prior) => sample.micros_since(prior) is Some,
        None => true,
    }
}

/// Whether a v2 observation is newer than the prior one without following it in
/// sequence.
pub open spec fn skips_sequence(sample: AnalysisSample, prior: Option<AnalysisSample>) -> bool {
    match prior {
        Some(prior) => sample.series is ProfileStep && sample.micros_since(prior) is Some
            && sample.sequence != prior.sequence.wrapping_add(1),
        None => false,
    }
}

/// Whether an observation clears the history of its series.
pub open spec fn clears_history(
    history: Map<HistoryKey, AnalysisSample>,
    sample: AnalysisSample,
) -> bool {
    let prior = prior_of(history, sample);
    (sample.reset_temporal_history && is_newer(sample, prior)) || skips_sequence(sample, prior)
}

/// The prior observation that is left once the history was cleared where it must be.
pub open spec fn remaining_prior(
    history: Map<HistoryKey, AnalysisSample>,
    sample: AnalysisSample,
) -> Option<AnalysisSample> {
    if clears_history(history, sample) {
        None
    } else {
        prior_of(history, sample)
    }
}

/// How an observation differs from the prior usable one of its series.
pub open spec fn change_of(
    history: Map<HistoryKey, AnalysisSample>,
    sample: AnalysisSample,
) -> Option<SampleChange> {
    match remaining_prior(history, sample) {
        Some(prior) => if sample.quality.value() == 0 && prior.quality.value() == 0
            && sample.micros_since(prior) is Some {
            Some(
                SampleChange {
                    elapsed_us: sample.micros_since(prior)->0,
                    temperature_centi_celsius: (sample.temperature_centi_celsius
                        - prior.temperature_centi_celsius) as i32,
                    humidity_milli_percent_rh: (sample.humidity_milli_percent_rh
                        - prior.humidity_milli_percent_rh) as i64,
                    pressure_pascal: (sample.pressure_pascal - prior.pressure_pascal) as i64,
                    prior_gas_resistance_ohm: prior.gas_resistance_ohm,
                },
            )
        } else {
            None
        },
        None => None,
    }
}

/// The features of an observation.
pub open spec fn features_of(
    history: Map<HistoryKey, AnalysisSample>,
    sample: AnalysisSample,
) -> TemporalFeatures {
    let change = change_of(history, sample);
    TemporalFeatures {
        node_id: sample.node_id,
        boot_id: sample.boot_id,
        sequence: sample.sequence,
        series: sample.series,
        received_at_unix_ms: sample.received_at_unix_ms,
        device_sample_time: sample.device_sample_time,
        quality_flags: sample.quality.value(),
        temporal_history_reset: clears_history(history, sample),
        temperature_centi_celsius: sample.temperature_centi_celsius,
        pressure_pascal: sample.pressure_pascal,
        humidity_milli_percent_rh: sample.humidity_milli_percent_rh,
        gas_resistance_ohm: sample.gas_resistance_ohm,
        elapsed_ms: match change {
            Some(change) => Some(change.elapsed_us / 1_000),
            None => None,
        },
        elapsed_us: match change {
            Some(change) => Some(change.elapsed_us),
            None => None,
        },
        change,
    }
}

/// Whether an observation becomes the prior one of its series.
pub open spec fn enters_history(
    history: Map<HistoryKey, AnalysisSample>,
    sample: AnalysisSample,
) -> bool {
    &&& sample.quality.value() == 0
    &&& is_newer(sample, remaining_prior(history, sample))
    &&& sample.series is LegacyV1 || sample.device_sample_time is Some
}

/// The history after an observation.
pub open spec fn history_after(
    history: Map<HistoryKey, AnalysisSample>,
    sample: AnalysisSample,
) -> Map<HistoryKey, AnalysisSample> {
    match sample.key() {
        Some(key) => {
            let kept = if clears_history(history, sample) {
                history.remove(key)
            } else {
                history
            };
            if enters_history(history, sample) {
                kept.insert(key, sample)
            } else {
                kept
            }
        },
        None => history,
    }
}

/// The last usable observation of one series.
#[derive(Clone, Copy, Debug)]
struct HistoryEntry {
    key: HistoryKey,
    sample: AnalysisSample,
}

/// Stateful chronological feature extractor isolated by node, valid boot,
/// profile definition, and heater step.
#[derive(Debug)]
pub struct TemporalFeatureExtractor {
    previous: Vec<HistoryEntry>,
}

spec fn unique_keys(entries: Seq<HistoryEntry>) -> bool {
    forall|i: int, j: int|
        0 <= i < j < entries.len() ==> (#[trigger] entries[i]).key != (#[trigger] entries[j]).key
}

spec fn has_key(entries: Seq<HistoryEntry>, key: HistoryKey) -> bool {
    exists|i: int| 0 <= i < entries.len() && (#[trigger] entries[i]).key == key
}

spec fn place_of(entries: Seq<HistoryEntry>, key: HistoryKey) -> int {
    choose|i: int| 0 <= i < entries.len() && (#[trigger] entries[i]).key == key
}

spec fn history_of(entries: Seq<HistoryEntry>) -> Map<HistoryKey, AnalysisSample> {
    Map::new(
        |key: HistoryKey| has_key(entries, key),
        |key: HistoryKey| entries[place_of(entries, key)].sample,
    )
}

proof fn lemma_place(entries: Seq<HistoryEntry>, i: int)
    requires
        unique_keys(entries),
        0 <= i < entries.len(),
    ensures
        has_key(entries, entries[i].key),
        place_of(entries, entries[i].key) == i,
{
    let key = entries[i].key;
    assert(entries[i].key == key);
    let place = place_of(entries, key);
    assert(0 <= place < entries.len() && entries[place].key == key);
}

impl View for TemporalFeatureExtractor {
    type V = Map<HistoryKey, AnalysisSample>;

    closed spec fn view(&self) -> Map<HistoryKey, AnalysisSample> {
        history_of(self.previous@)
    }
}

impl Default for TemporalFeatureExtractor {
    fn default() -> (extractor: Self)
        ensures
            extractor.wf(),
            extractor@ == Map::<HistoryKey, AnalysisSample>::empty(),
    {
        let extractor = TemporalFeatureExtractor { previous: Vec::new() };
        assert(extractor@ =~= Map::<HistoryKey, AnalysisSample>::empty());
        extractor
    }
}

impl TemporalFeatureExtractor {
    /// Whether no series has two histories.
    pub closed spec fn wf(self) -> bool {
        unique_keys(self.previous@)
    }

    /// Finds the history of a series.
    fn find(&self, key: HistoryKey) -> (found: Option<usize>)
        requires
            self.wf(),
        ensures
            match found {
                Some(index) => {
                    &&& index < self.previous@.len()
                    &&& self.previous@[index as int].key == key
                    &&& self@.dom().contains(key)
                    &&& self@[key] == self.previous@[index as int].sample
                },
                None => !self@.dom().contains(key) && !has_key(self.previous@, key),
            },
    {
        let mut index: usize = 0;
        while index < self.previous.len()
            invariant
                index <= self.previous@.len(),
                unique_keys(self.previous@),
                forall|i: int| 0 <= i < index ==> (#[trigger] self.previous@[i]).key != key,
            decreases self.previous@.len() - index,
        {
            if self.previous[index].key == key {
                proof {
                    lemma_place(self.previous@, index as int);
                }
                return Some(index);
            }
            index = index + 1;
        }
        None
    }

    /// Clears the history of a series.
    fn forget(&mut self, key: HistoryKey)
        requires
            old(self).wf(),
        ensures
            final(self).wf(),
            final(self)@ == old(self)@.remove(key),
    {
        let ghost before = self.previous@;
        match self.find(key) {
            Some(index) => {
                let _removed = self.previous.remove(index);
                proof {
                    lemma_forgotten(before, index as int);
                }
            },
            None => {
                assert(self@ =~= old(self)@.remove(key));
            },
        }
    }

    /// Makes an observation the prior one of its series.
    fn remember(&mut self, key: HistoryKey, sample: AnalysisSample)
        requires
            old(self).wf(),
        ensures
            final(self).wf(),
            final(self)@ == old(self)@.insert(key, sample),
    {
        let ghost before = self.previous@;
        match self.find(key) {
            Some(index) => {
                self.previous.set(index, HistoryEntry { key, sample });
                proof {
                    lemma_replaced(before, index as int, sample);
                }
            },
            None => {
                self.previous.push(HistoryEntry { key, sample });
                proof {
                    lemma_added(before, key, sample);
                }
            },
        }
    }

    /// Extract features and update history only when the sample passes quality
    /// gates and is newer than the prior observation.
    pub fn ingest(&mut self, sample: AnalysisSample) -> (features: TemporalFeatures)
        requires
            old(self).wf(),
        ensures
            final(self).wf(),
            final(self)@ == history_after(old(self)@, sample),
            features == features_of(old(self)@, sample),
    {
        let key = sample.history_key();
        let prior: Option<AnalysisSample> = match key {
            Some(key) => match self.find(key) {
                Some(index) => Some(self.previous[index].sample),
                None => None,
            },
            None => None,
        };
        assert(prior == prior_of(self@, sample));
        let elapsed: Option<u64> = match prior {
            Some(prior) => sample.elapsed_since(prior),
            None => None,
        };
        let newer = prior.is_none() || elapsed.is_some();
        let explicit_reset = sample.reset_temporal_history && newer;
        let sequence_gap_reset = match prior {
            Some(prior) => sample.is_profile_step() && elapsed.is_some() && sample.sequence
                != prior.sequence.wrapping_add(1),
            None => false,
        };
        let temporal_history_reset = explicit_reset || sequence_gap_reset;
        assert(temporal_history_reset == clears_history(self@, sample));
        let change: Option<SampleChange> = match (prior, elapsed) {
            (Some(prior), Some(elapsed_us)) => if !temporal_history_reset
                && sample.quality.is_empty() && prior.quality.is_empty() {
                Some(change_between(sample, prior, elapsed_us))
            } else {
                None
            },
            _ => None,
        };
        assert(change == change_of(self@, sample));
        let enters = sample.quality.is_empty() && (temporal_history_reset || newer) && (
        !sample.is_profile_step() || sample.device_sample_time.is_some());
        assert(enters == enters_history(self@, sample));
        if let Some(key) = key {
            if temporal_history_reset {
                self.forget(key);
            }
            if enters {
                self.remember(key, sample);
            }
        }
        TemporalFeatures {
            node_id: sample.node_id,
            boot_id: sample.boot_id,
            sequence: sample.sequence,
            series: sample.series,
            received_at_unix_ms: sample.received_at_unix_ms,
            device_sample_time: sample.device_sample_time,
            quality_flags: sample.quality.bits(),
            temporal_history_reset,
            temperature_centi_celsius: sample.temperature_centi_celsius,
            pressure_pascal: sample.pressure_pascal,
            humidity_milli_percent_rh: sample.humidity_milli_percent_rh,
            gas_resistance_ohm: sample.gas_resistance_ohm,
            elapsed_ms: match change {
                Some(change) => Some(change.elapsed_us / 1_000),
                None => None,
            },
            elapsed_us: match change {
                Some(change) => Some(change.elapsed_us),
                None => None,
            },
            change,
        }
    }
}

/// How an observation differs from a prior one.
fn change_between(sample: AnalysisSample, prior: AnalysisSample, elapsed_us: u64) -> (change:
    SampleChange)
    ensures
        change == (SampleChange {
            elapsed_us,
            temperature_centi_celsius: (sample.temperature_centi_celsius
                - prior.temperature_centi_celsius) as i32,
            humidity_milli_percent_rh: (sample.humidity_milli_percent_rh
                - prior.humidity_milli_percent_rh) as i64,
            pressure_pascal: (sample.pressure_pascal - prior.pressure_pascal) as i64,
            prior_gas_resistance_ohm: prior.gas_resistance_ohm,
        }),
{
    SampleChange {
        elapsed_us,
        temperature_centi_celsius: sample.temperature_centi_celsius as i32
            - prior.temperature_centi_celsius as i32,
        humidity_milli_percent_rh: sample.humidity_milli_percent_rh as i64
            - prior.humidity_milli_percent_rh as i64,
        pressure_pascal: sample.pressure_pascal as i64 - prior.pressure_pascal as i64,
        prior_gas_resistance_ohm: prior.gas_resistance_ohm,
    }
}

proof fn lemma_forgotten(before: Seq<HistoryEntry>, index: int)
    requires
        unique_keys(before),
        0 <= index < before.len(),
    ensures
        unique_keys(before.remove(index)),
        history_of(before.remove(index)) == history_of(before).remove(before[index].key),
{
    let after = before.remove(index);
    let key = before[index].key;
    assert forall|i: int, j: int| 0 <= i < j < after.len() implies (#[trigger] after[i]).key != (
    #[trigger] after[j]).key by {
        assert(after[i] == before[if i < index {
            i
        } else {
            i + 1
        }]);
        assert(after[j] == before[if j < index {
            j
        } else {
            j + 1
        }]);
    }
    assert forall|k: HistoryKey| has_key(after, k) == (k != key && has_key(before, k)) by {
        if has_key(after, k) {
            let i = place_of(after, k);
            let at = if i < index {
                i
            } else {
                i + 1
            };
            assert(before[at] == after[i]);
            assert(before[at].key == k);
        }
        if k != key && has_key(before, k) {
            let i = place_of(before, k);
            assert(i != index);
            let at = if i < index {
                i
            } else {
                i - 1
            };
            assert(after[at] == before[i]);
            assert(after[at].key == k);
        }
    }
    assert forall|k: HistoryKey| has_key(after, k) implies history_of(after)[k] == history_of(
        before,
    )[k] by {
        let i = place_of(after, k);
        let at = if i < index {
            i
        } else {
            i + 1
        };
        assert(before[at] == after[i]);
        lemma_place(before, at);
    }
    assert(history_of(after) =~= history_of(before).remove(key));
}

proof fn lemma_replaced(before: Seq<HistoryEntry>, index: int, sample: AnalysisSample)
    requires
        unique_keys(before),
        0 <= index < before.len(),
    ensures
        ({
            let key = before[index].key;
            let after = before.update(index, HistoryEntry { key, sample });
            &&& unique_keys(after)
            &&& history_of(after) == history_of(before).insert(key, sample)
        }),
{
    let key = before[index].key;
    let after = before.update(index, HistoryEntry { key, sample });
    assert forall|i: int, j: int| 0 <= i < j < after.len() implies (#[trigger] after[i]).key != (
    #[trigger] after[j]).key by {
        assert(after[i].key == before[i].key);
        assert(after[j].key == before[j].key);
    }
    assert forall|k: HistoryKey| has_key(after, k) == has_key(before, k) by {
        if has_key(after, k) {
            let i = place_of(after, k);
            assert(before[i].key == k);
        }
        if has_key(before, k) {
            let i = place_of(before, k);
            assert(after[i].key == k);
        }
    }
    lemma_place(before, index);
    assert forall|k: HistoryKey| has_key(after, k) implies history_of(after)[k] == history_of(
        before,
    ).insert(key, sample)[k] by {
        let i = place_of(after, k);
        lemma_place(after, i);
        assert(before[i].key == k);
        lemma_place(before, i);
    }
    assert(history_of(after) =~= history_of(before).insert(key, sample));
}

proof fn lemma_added(before: Seq<HistoryEntry>, key: HistoryKey, sample: AnalysisSample)
    requires
        unique_keys(before),
        !has_key(before, key),
    ensures
        unique_keys(before.push(HistoryEntry { key, sample })),
        history_of(before.push(HistoryEntry { key, sample })) == history_of(before).insert(
            key,
            sample,
        ),
{
    let after = before.push(HistoryEntry { key, sample });
    assert forall|i: int, j: int| 0 <= i < j < after.len() implies (#[trigger] after[i]).key != (
    #[trigger] after[j]).key by {
        assert(after[i] == before[i]);
        if j < before.len() {
            assert(after[j] == before[j]);
        }
    }
    let last = before.len() as int;
    assert(after[last].key == key);
    assert forall|k: HistoryKey| has_key(after, k) == (k == key || has_key(before, k)) by {
        if has_key(after, k) {
            let i = place_of(after, k);
            if i < last {
                assert(before[i].key == k);
            }
        }
        if has_key(before, k) {
            let i = place_of(before, k);
            assert(after[i].key == k);
        }
    }
    assert forall|k: HistoryKey| has_key(after, k) implies history_of(after)[k] == history_of(
        before,
    ).insert(key, sample)[k] by {
        let i = place_of(after, k);
        if i < last {
            assert(before[i].key == k);
            lemma_place(before, i);
        }
    }
    assert(history_of(after) =~= history_of(before).insert(key, sample));
}

/// Per-step gas features from one heater profile, without temporal baselining.
#[derive(Clone, Debug, Eq, PartialEq)]
pub struct ProfileFeatures {
    /// Stable node identity.
    pub node_id: u64,
    /// Per-boot nonce, absent when the device reported RNG failure.
    pub boot_id: Option<u64>,
    /// Profile scan sequence.
    pub sequence: u32,
    /// Stable hash of the exact device/sensor/profile configuration.
    pub config_id: u64,
    /// Profile identifier.
    pub profile_id: u16,
    /// Profile revision.
    pub profile_revision: u16,
    /// Bitmap computed from decoded step positions.
    pub missing_steps: u16,
    /// Whether transport, collection, structure, and step quality gates pass.
    /// This is necessary but not sufficient for analysis until configuration
    /// metadata has been resolved.
    pub profile_quality_usable: bool,
    /// Whether a validated matching [`DeviceConfiguration`] was supplied.
    pub configuration_resolved: bool,
    /// Final analysis-ready gate: profile quality passed and exact
    /// configuration metadata is available.
    pub usable_for_analysis: bool,
    /// Ordered features for every decoded step.
    pub steps: Vec<ProfileStepFeatures>,
}

/// Exact features from one profile step.
#[derive(Clone, Copy, Debug, Eq, PartialEq, Structural)]
pub struct ProfileStepFeatures {
    /// Heater-profile position.
    pub step_index: u8,
    /// Target heater temperature in degrees Celsius.
    pub target_temperature_celsius: u16,
    /// Quality flags for this step. A step without flags counts towards the mean
    /// response of the profile, and has an offset from it.
    pub quality_flags: u16,
    /// Gas resistance in ohms, if non-zero.
    pub gas_resistance_ohm: Option<u32>,
}

/// The features of one step of a scan.
pub open spec fn step_features(scan: ProfileScan, step: ProfileStep) -> ProfileStepFeatures {
    ProfileStepFeatures {
        step_index: step.step_index,
        target_temperature_celsius: step.target_temperature_celsius,
        quality_flags: step_quality(scan, step),
        gas_resistance_ohm: if step.gas_resistance_ohm != 0 {
            Some(step.gas_resistance_ohm)
        } else {
            None
        },
    }
}

/// The features of every decoded step, in the order of the scan.
pub open spec fn all_step_features(scan: ProfileScan) -> Seq<ProfileStepFeatures> {
    Seq::new(scan.steps@.len(), |i: int| step_features(scan, scan.steps@[i]))
}

/// Whether features are in order of their step.
pub open spec fn in_step_order(steps: Seq<ProfileStepFeatures>) -> bool {
    forall|i: int, j: int|
        0 <= i < j < steps.len() ==> (#[trigger] steps[i]).step_index <= (
        #[trigger] steps[j]).step_index
}

/// Whether a scan and every step of it pass their quality gates.
pub open spec fn quality_usable(scan: ProfileScan) -> bool {
    allows_analysis(scan) && forall|i: int|
        0 <= i < scan.steps@.len() ==> step_quality(scan, #[trigger] scan.steps@[i]) == 0
}

/// Whether a heater step is the one that a decoded step was measured with.
pub open spec fn step_resolved(configured: HeaterStepConfiguration, step: ProfileStep) -> bool {
    &&& configured.step_index == step.step_index
    &&& configured.target_temperature_celsius == step.target_temperature_celsius
    &&& configured.configured_duration_us == step.configured_duration_us
    &&& configured.repetition_multiplier == step.repetition_multiplier
    &&& configured.readback_heater_current == step.raw_heater_current
    &&& configured.programmed_heater_resistance == step.raw_heater_resistance
    &&& configured.programmed_gas_wait == step.raw_gas_wait
}

/// Whether a configuration is valid, read back in full, and the one that a scan
/// was measured with.
pub open spec fn resolves(configuration: DeviceConfiguration, scan: ProfileScan) -> bool {
    &&& records::configuration_fault(configuration) is None
    &&& configuration.config_flags & CONFIG_FLAG_SENSOR_CONFIG_READ_BACK != 0
    &&& configuration.heater_readback_valid_bitmap == checks::step_mask_of(
        configuration.expected_step_count,
    )
    &&& configuration.identity.node_id == scan.identity.node_id
    &&& configuration.identity.config_id == scan.identity.config_id
    &&& configuration.profile_id == scan.profile_id
    &&& configuration.profile_version == scan.profile_version
    &&& configuration.expected_step_count == scan.expected_steps
    &&& forall|k: int| 0 <= k < scan.steps@.len() ==> #[trigger] scan_step_resolved(
        configuration,
        scan,
        k,
    )
}

/// Whether decoded step `k` of a scan is one of a configuration.
pub open spec fn scan_step_resolved(
    configuration: DeviceConfiguration,
    scan: ProfileScan,
    k: int,
) -> bool {
    let step = scan.steps@[k];
    step.step_index < configuration.heater_steps@.len() && step_resolved(
        configuration.heater_steps@[step.step_index as int],
        step,
    )
}

/// Whether features are those of a scan whose configuration is resolved or not.
pub open spec fn are_features_of(
    features: ProfileFeatures,
    scan: ProfileScan,
    configuration_resolved: bool,
) -> bool {
    &&& in_step_order(features.steps@)
    &&& features.steps@.to_multiset() == all_step_features(scan).to_multiset()
    &&& features == (ProfileFeatures {
        node_id: scan.identity.node_id,
        boot_id: boot_id_of(scan),
        sequence: scan.identity.scan_sequence,
        config_id: scan.identity.config_id,
        profile_id: scan.profile_id,
        profile_revision: scan.profile_version,
        missing_steps: records::unavailable_steps(scan),
        profile_quality_usable: quality_usable(scan),
        configuration_resolved,
        usable_for_analysis: quality_usable(scan) && configuration_resolved,
        steps: features.steps,
    })
}

/// Extract a shape-preserving gas feature vector from one profile scan.
///
/// This variant deliberately leaves configuration unresolved. Call
/// [`extract_profile_features_with_configuration`] after joining a matching
/// configuration record; repeated configuration packets may arrive later.
#[must_use]
pub fn extract_profile_features(scan: &ProfileScan) -> (features: ProfileFeatures)
    ensures
        are_features_of(features, *scan, false),
{
    extract_profile_features_inner(scan, false)
}

/// Extract a shape-preserving vector and resolve its exact sensor/profile
/// configuration when the supplied record validates and matches the scan.
#[must_use]
pub fn extract_profile_features_with_configuration(
    scan: &ProfileScan,
    configuration: &DeviceConfiguration,
) -> (features: ProfileFeatures)
    ensures
        are_features_of(features, *scan, resolves(*configuration, *scan)),
{
    let configuration_resolved = configuration_resolves(configuration, scan);
    extract_profile_features_inner(scan, configuration_resolved)
}

/// Whether a configuration is the one that a scan was measured with.
fn configuration_resolves(configuration: &DeviceConfiguration, scan: &ProfileScan) -> (resolved:
    bool)
    ensures
        resolved == resolves(*configuration, *scan),
{
    if configuration.validate().is_err() {
        return false;
    }
    proof {
        records::lemma_valid_configuration(*configuration);
    }
    configuration.config_flags & CONFIG_FLAG_SENSOR_CONFIG_READ_BACK != 0
        && configuration.heater_readback_valid_bitmap == step_mask(
        configuration.expected_step_count,
    ) && configuration.identity.node_id == scan.identity.node_id
        && configuration.identity.config_id == scan.identity.config_id && configuration.profile_id
        == scan.profile_id && configuration.profile_version == scan.profile_version
        && configuration.expected_step_count == scan.expected_steps && steps_resolved(
        configuration,
        scan,
    )
}

/// Whether every decoded step of a scan is one of a configuration.
fn steps_resolved(configuration: &DeviceConfiguration, scan: &ProfileScan) -> (resolved: bool)
    ensures
        resolved == (forall|k: int|
            0 <= k < scan.steps@.len() ==> #[trigger] scan_step_resolved(*configuration, *scan, k)),
{
    let mut k: usize = 0;
    while k < scan.steps.len()
        invariant
            k <= scan.steps@.len(),
            forall|i: int|
                0 <= i < k ==> #[trigger] scan_step_resolved(*configuration, *scan, i),
        decreases scan.steps@.len() - k,
    {
        let step = scan.steps[k];
        let index: usize = step.step_index as usize;
        if index >= configuration.heater_steps.len() {
            assert(!scan_step_resolved(*configuration, *scan, k as int));
            return false;
        }
        let configured = configuration.heater_steps[index];
        let descriptor_matches = configured.step_index == step.step_index
            && configured.target_temperature_celsius == step.target_temperature_celsius
            && configured.configured_duration_us == step.configured_duration_us
            && configured.repetition_multiplier == step.repetition_multiplier;
        let readback_matches = configured.readback_heater_current == step.raw_heater_current
            && configured.programmed_heater_resistance == step.raw_heater_resistance
            && configured.programmed_gas_wait == step.raw_gas_wait;
        if !(descriptor_matches && readback_matches) {
            assert(!scan_step_resolved(*configuration, *scan, k as int));
            return false;
        }
        assert(scan_step_resolved(*configuration, *scan, k as int));
        k = k + 1;
    }
    true
}

/// Extracts the features of a scan.
fn extract_profile_features_inner(scan: &ProfileScan, configuration_resolved: bool) -> (features:
    ProfileFeatures)
    ensures
        are_features_of(features, *scan, configuration_resolved),
{
    let scan_usable = profile_scan_allows_analysis(scan);
    let ghost all = all_step_features(*scan);
    let mut steps: Vec<ProfileStepFeatures> = Vec::new();
    let mut usable = scan_usable;
    let mut k: usize = 0;
    assert(all.take(0) =~= Seq::empty());
    assert(steps@ =~= Seq::empty());
    while k < scan.steps.len()
        invariant
            k <= scan.steps@.len(),
            scan_usable == allows_analysis(*scan),
            all == all_step_features(*scan),
            in_step_order(steps@),
            steps@.to_multiset() == all.take(k as int).to_multiset(),
            usable == (scan_usable && forall|i: int|
                0 <= i < k ==> step_quality(*scan, #[trigger] scan.steps@[i]) == 0),
        decreases scan.steps@.len() - k,
    {
        let step = scan.steps[k];
        let quality = profile_step_quality(&step, scan_usable, scan);
        let found = ProfileStepFeatures {
            step_index: step.step_index,
            target_temperature_celsius: step.target_temperature_celsius,
            quality_flags: quality.bits(),
            gas_resistance_ohm: if step.gas_resistance_ohm != 0 {
                Some(step.gas_resistance_ohm)
            } else {
                None
            },
        };
        if !quality.is_empty() {
            usable = false;
        }
        insert_in_order(&mut steps, found);
        proof {
            assert(found == all[k as int]);
            assert(all.take(k + 1) =~= all.take(k as int).push(all[k as int]));
            seq_lib::to_multiset_build(all.take(k as int), all[k as int]);
        }
        k = k + 1;
    }
    assert(all.take(scan.steps@.len() as int) =~= all);
    ProfileFeatures {
        node_id: scan.identity.node_id,
        boot_id: valid_boot_id(scan),
        sequence: scan.identity.scan_sequence,
        config_id: scan.identity.config_id,
        profile_id: scan.profile_id,
        profile_revision: scan.profile_version,
        missing_steps: scan.computed_unavailable_steps(),
        profile_quality_usable: usable,
        configuration_resolved,
        usable_for_analysis: usable && configuration_resolved,
        steps,
    }
}

/// Inserts features behind those of the same and of lower steps.
fn insert_in_order(steps: &mut Vec<ProfileStepFeatures>, found: ProfileStepFeatures)
    requires
        in_step_order(old(steps)@),
    ensures
        in_step_order(final(steps)@),
        final(steps)@.to_multiset() == old(steps)@.to_multiset().insert(found),
{
    let ghost before = steps@;
    let mut place: usize = 0;
    while place < steps.len() && steps[place].step_index <= found.step_index
        invariant
            place <= steps@.len(),
            steps@ == before,
            forall|i: int| 0 <= i < place ==> (#[trigger] before[i]).step_index <= found.step_index,
        decreases steps@.len() - place,
    {
        place = place + 1;
    }
    steps.insert(place, found);
    proof {
        let after = steps@;
        assert(after == before.insert(place as int, found));
        seq_lib::to_multiset_insert(before, place as int, found);
        assert forall|i: int, j: int| 0 <= i < j < after.len() implies (
        #[trigger] after[i]).step_index <= (#[trigger] after[j]).step_index by {
            if i < place {
                assert(after[i] == before[i]);
            } else if i > place {
                assert(after[i] == before[i - 1]);
            }
            if j < place {
                assert(after[j] == before[j]);
            } else if j > place {
                assert(after[j] == before[j - 1]);
                if i <= place {
                    assert(before[place as int].step_index <= before[j - 1].step_index);
                }
            }
        }
    }
}

} // verus!
