//! Protocol-independent records consumed by server storage and analytics.
//!
//! The on-air protocol decoder maps bytes into these types. Keeping these
//! records independent of a particular frame layout lets protocol v2 evolve
//! without coupling `SQLite` or analytical code to byte offsets.

pub mod laws;

use vstd::prelude::*;
use vstd::string::StringExecFns;

use crate::text;
use crate::text::{ending_number, ending_numbers, push_decimal, push_hex, two_numbers};
use crate::v2::checks;
use crate::v2::checks::{count_bits, step_mask, test_bit, with_bit};

verus! {

/// Maximum number of heater steps supported by the BME688.
pub const MAX_HEATER_STEPS: u8 = 10;

/// Stable identity and timing shared by records from one device boot.
#[derive(Clone, Copy, Debug, Eq, PartialEq, Structural)]
pub struct RecordIdentity {
    /// Common-header flags, which say whether the boot nonce is valid.
    pub common_flags: u8,
    /// Stable 64-bit node identity derived by the embedded firmware.
    pub node_id: u64,
    /// Random nonce generated once for this boot.
    pub boot_id: u64,
    /// Monotonic record sequence within the boot.
    pub scan_sequence: u32,
    /// Monotonic device uptime when acquisition began.
    pub uptime_ms: u64,
    /// Stable hash of the exact device configuration.
    pub config_id: u64,
    /// Reset-cause flags captured before firmware clears them.
    pub reset_cause_flags: u16,
}

/// One configured BME688 heater step.
#[derive(Clone, Copy, Debug, Eq, PartialEq, Structural)]
pub struct HeaterStepConfiguration {
    /// Zero-based position in the heater profile.
    pub step_index: u8,
    /// Requested heater temperature in degrees Celsius.
    pub target_temperature_celsius: u16,
    /// Effective configured heater duration in microseconds.
    pub configured_duration_us: u32,
    /// Parallel-mode repetition multiplier.
    pub repetition_multiplier: u8,
    /// Raw heater-current readback.
    pub readback_heater_current: u8,
    /// Read-back heater-resistance register.
    pub programmed_heater_resistance: u8,
    /// Read-back gas-wait register.
    pub programmed_gas_wait: u8,
}

/// Device and sensor configuration needed to reproduce a measurement profile.
#[derive(Clone, Debug, Eq, PartialEq)]
pub struct DeviceConfiguration {
    /// Identity of the configuration announcement.
    pub identity: RecordIdentity,
    /// Whether this announcement repeats an earlier one.
    pub repeated: bool,
    /// Raw configuration flags.
    pub config_flags: u8,
    /// Firmware version: major, minor, patch.
    pub firmware_version: [u8; 3],
    /// Raw firmware build flags.
    pub firmware_build_flags: u8,
    /// Firmware build identity.
    pub firmware_build_id: u64,
    /// Sensor chip identifier.
    pub sensor_chip_id: u8,
    /// BME688 variant identifier, preserved exactly from the firmware.
    pub sensor_variant: u8,
    /// Sensor bus address.
    pub sensor_i2c_address: u8,
    /// Raw temperature oversampling configuration value.
    pub temperature_oversampling: u8,
    /// Raw humidity oversampling configuration value.
    pub humidity_oversampling: u8,
    /// Raw pressure oversampling configuration value.
    pub pressure_oversampling: u8,
    /// Raw IIR filter configuration value.
    pub iir_filter: u8,
    /// Raw standby-time configuration value.
    pub standby_time: u8,
    /// Raw BME688 operation-mode value.
    pub operation_mode: u8,
    /// Whether the heater is enabled.
    pub heater_enabled: u8,
    /// Requested shared wait of parallel mode.
    pub parallel_requested_shared_wait_ms: u16,
    /// Shared-wait register of parallel mode.
    pub parallel_shared_wait_register: u8,
    /// Quantized shared wait of parallel mode.
    pub parallel_quantized_shared_wait_us: u32,
    /// Duration of one measurement cycle.
    pub tphg_duration_us: u32,
    /// Expected duration of one profile scan.
    pub expected_profile_duration_us: u32,
    /// Stable profile identifier assigned by firmware.
    pub profile_id: u16,
    /// Revision of the identified profile.
    pub profile_version: u16,
    /// Number of steps in the profile.
    pub expected_step_count: u8,
    /// Steps whose raw descriptor bytes were read back.
    pub heater_readback_valid_bitmap: u16,
    /// Algorithm of the calibration fingerprint.
    pub calibration_hash_algorithm: u8,
    /// Stable hash of the sensor calibration block.
    pub calibration_hash: u64,
    /// Requested interval between profile starts.
    pub scan_interval_ms: u32,
    /// Number of scans between configuration announcements.
    pub config_repeat_interval_scans: u16,
    /// Destinations that emit the exact frame bytes.
    pub output_routes: u8,
    /// Configured `LoRa` center frequency.
    pub radio_frequency_hz: u32,
    /// Configured transmitter power in dBm.
    pub radio_tx_power_dbm: i8,
    /// Configured `LoRa` spreading factor.
    pub radio_spreading_factor: u8,
    /// Configured `LoRa` bandwidth.
    pub radio_bandwidth_hz: u32,
    /// Configured `LoRa` coding-rate numerator.
    pub radio_coding_rate_numerator: u8,
    /// Configured `LoRa` coding-rate denominator.
    pub radio_coding_rate_denominator: u8,
    /// Configured `LoRa` preamble length.
    pub radio_preamble_symbols: u16,
    /// `0` is explicit and `1` is implicit.
    pub radio_header_mode: u8,
    /// Whether the PHY checksum is enabled.
    pub radio_phy_crc_enabled: u8,
    /// Whether I and Q are inverted.
    pub radio_iq_inverted: u8,
    /// Configured `LoRa` sync word.
    pub radio_sync_word: u16,
    /// Longest frame that the firmware sends.
    pub max_frame_len: u8,
    /// Steps that the firmware puts into one fragment.
    pub profile_steps_per_fragment: u8,
    /// Ordered heater steps used by this profile.
    pub heater_steps: Vec<HeaterStepConfiguration>,
}

/// The number of heater steps as far as a byte can count them.
pub open spec fn counted_steps(len: nat) -> u8 {
    if len <= 255 {
        len as u8
    } else {
        255
    }
}

/// The fault of the first of `count` heater steps that is not at its own index.
pub open spec fn step_order_fault(
    steps: Seq<HeaterStepConfiguration>,
    count: int,
) -> Option<RecordError>
    decreases count,
{
    if count <= 0 {
        None
    } else if step_order_fault(steps, count - 1) is Some {
        step_order_fault(steps, count - 1)
    } else if steps[count - 1].step_index != count - 1 {
        Some(
            RecordError::ConfigurationStepOrder {
                position: (count - 1) as u8,
                step_index: steps[count - 1].step_index,
            },
        )
    } else {
        None
    }
}

/// The first rule that a configuration breaks: it has one to ten heater steps, as
/// many as it says, in order from step zero.
pub open spec fn configuration_fault(configuration: DeviceConfiguration) -> Option<RecordError> {
    let steps = configuration.heater_steps@;
    let count = counted_steps(steps.len());
    if !(1 <= count <= MAX_HEATER_STEPS) {
        Some(RecordError::InvalidExpectedSteps(count))
    } else if configuration.expected_step_count != count {
        Some(RecordError::InvalidExpectedSteps(configuration.expected_step_count))
    } else {
        step_order_fault(steps, steps.len() as int)
    }
}

/// The result of a check that found `fault`, if it found one.
pub open spec fn verdict(fault: Option<RecordError>) -> Result<(), RecordError> {
    match fault {
        Some(error) => Err(error),
        None => Ok(()),
    }
}

impl DeviceConfiguration {
    /// Validate that the heater profile is bounded and ordered from step zero.
    ///
    /// # Errors
    ///
    /// Returns an error when the profile is empty, exceeds the BME688 limit, is
    /// not as long as it says, or does not contain the contiguous ordered
    /// indices `0..len`.
    pub fn validate(&self) -> (result: Result<(), RecordError>)
        ensures
            result == verdict(configuration_fault(*self)),
    {
        let step_count: u8 = if self.heater_steps.len() <= 255 {
            self.heater_steps.len() as u8
        } else {
            u8::MAX
        };
        if step_count < 1 || step_count > MAX_HEATER_STEPS {
            return Err(RecordError::InvalidExpectedSteps(step_count));
        }
        if self.expected_step_count != step_count {
            return Err(RecordError::InvalidExpectedSteps(self.expected_step_count));
        }
        let mut position: u8 = 0;
        while position < step_count
            invariant
                position <= step_count <= MAX_HEATER_STEPS,
                step_count == self.heater_steps@.len(),
                step_count >= 1,
                self.expected_step_count == step_count,
                step_order_fault(self.heater_steps@, position as int) is None,
            decreases step_count - position,
        {
            let step_index: u8 = self.heater_steps[position as usize].step_index;
            if step_index != position {
                proof {
                    lemma_step_order_fault_stays(
                        self.heater_steps@,
                        position + 1,
                        step_count as int,
                    );
                }
                return Err(RecordError::ConfigurationStepOrder { position, step_index });
            }
            position = position + 1;
        }
        Ok(())
    }
}

proof fn lemma_step_order_fault_stays(steps: Seq<HeaterStepConfiguration>, from: int, to: int)
    requires
        0 <= from <= to,
        step_order_fault(steps, from) is Some,
    ensures
        step_order_fault(steps, to) == step_order_fault(steps, from),
    decreases to,
{
    if from < to {
        lemma_step_order_fault_stays(steps, from, to - 1);
    }
}

/// Every heater step of a valid configuration is at its own index.
pub proof fn lemma_valid_configuration(configuration: DeviceConfiguration)
    requires
        configuration_fault(configuration) is None,
    ensures
        1 <= configuration.expected_step_count <= MAX_HEATER_STEPS,
        configuration.heater_steps@.len() == configuration.expected_step_count,
        forall|i: int|
            0 <= i < configuration.heater_steps@.len()
                ==> #[trigger] configuration.heater_steps@[i].step_index == i,
{
    lemma_steps_in_order(configuration.heater_steps@, configuration.heater_steps@.len() as int);
}

proof fn lemma_steps_in_order(steps: Seq<HeaterStepConfiguration>, count: int)
    requires
        0 <= count <= steps.len(),
        step_order_fault(steps, count) is None,
    ensures
        forall|i: int| 0 <= i < count ==> #[trigger] steps[i].step_index == i,
    decreases count,
{
    if count > 0 {
        lemma_steps_in_order(steps, count - 1);
    }
}

/// Exact sensor values captured for one heater step.
#[derive(Clone, Copy, Debug, Eq, PartialEq, Structural)]
pub struct ProfileStep {
    /// Zero-based position in the configured profile.
    pub step_index: u8,
    /// BME688 gas-index field.
    pub gas_index: u8,
    /// BME688 measurement-index field.
    pub measurement_index: u8,
    /// Complete BME688 status byte.
    pub status_bits: u8,
    /// Unmodified measurement-status register.
    pub raw_measurement_status: u8,
    /// Unmodified gas-status register.
    pub raw_gas_status: u8,
    /// Requested heater temperature in degrees Celsius.
    pub target_temperature_celsius: u16,
    /// Effective configured heater duration in microseconds.
    pub configured_duration_us: u32,
    /// Monotonic offset from the beginning of the profile.
    pub relative_offset_us: u32,
    /// Compensated temperature in hundredths of a degree Celsius.
    pub temperature_centi_celsius: i16,
    /// Compensated pressure in pascals.
    pub pressure_pascal: u32,
    /// Compensated relative humidity in thousandths of a percent.
    pub humidity_milli_percent_rh: u32,
    /// Compensated gas resistance in ohms.
    pub gas_resistance_ohm: u32,
    /// Raw temperature ADC value.
    pub raw_temperature_adc: u32,
    /// Raw pressure ADC value.
    pub raw_pressure_adc: u32,
    /// Raw humidity ADC value.
    pub raw_humidity_adc: u16,
    /// Raw gas-resistance ADC value.
    pub raw_gas_resistance_adc: u16,
    /// Raw gas-range field.
    pub raw_gas_range: u8,
    /// Parallel-mode repetition multiplier.
    pub repetition_multiplier: u8,
    /// Raw heater-resistance register.
    pub raw_heater_resistance: u8,
    /// Raw heater-current register.
    pub raw_heater_current: u8,
    /// Raw gas-wait register.
    pub raw_gas_wait: u8,
}

impl ProfileStep {
    /// Whether the sensor marked this field as new.
    #[must_use]
    pub fn is_new_data(self) -> (set: bool)
        ensures
            set == (self.status_bits & 0x80 != 0),
    {
        self.status_bits & 0x80 != 0
    }

    /// Whether the sensor marked the gas measurement as valid.
    #[must_use]
    pub fn is_gas_valid(self) -> (set: bool)
        ensures
            set == (self.status_bits & 0x20 != 0),
    {
        self.status_bits & 0x20 != 0
    }

    /// Whether the sensor heater reached its requested condition.
    #[must_use]
    pub fn is_heater_stable(self) -> (set: bool)
        ensures
            set == (self.status_bits & 0x10 != 0),
    {
        self.status_bits & 0x10 != 0
    }
}

/// One complete or explicitly incomplete BME688 heater-profile scan.
#[derive(Clone, Debug, Eq, PartialEq)]
pub struct ProfileScan {
    /// Device identity and monotonic acquisition time.
    pub identity: RecordIdentity,
    /// Heater-profile identifier.
    pub profile_id: u16,
    /// Heater-profile revision.
    pub profile_version: u16,
    /// Number of steps firmware expected to acquire.
    pub expected_steps: u8,
    /// Number of distinct steps that firmware acquired.
    pub observed_unique_steps: u8,
    /// Number of fields that firmware observed, duplicates too.
    pub observed_field_count: u16,
    /// Missing-step bitmap reported by firmware.
    pub reported_missing_steps: u16,
    /// Steps that firmware observed more than once.
    pub duplicate_steps: u16,
    /// Total acquisition duration.
    pub duration_us: u32,
    /// Raw collection flags.
    pub collection_flags: u32,
    /// Why firmware finished the scan.
    pub finish_reason: u8,
    /// Number of duplicate fields.
    pub duplicate_count: u16,
    /// Number of fields that the sensor overwrote.
    pub overwritten_field_count: u16,
    /// Number of fields out of order.
    pub out_of_order_count: u16,
    /// Number of ambiguous index jumps.
    pub ambiguous_index_jump_count: u16,
    /// Number of fields with an impossible gas index.
    pub invalid_gas_index_count: u16,
    /// Number of discarded nonterminal fields.
    pub intermediate_field_count: u16,
    /// Number of profile rollovers.
    pub profile_rollover_count: u16,
    /// Number of fields after a rollover.
    pub fields_after_rollover_count: u16,
    /// Number of polls.
    pub poll_count: u16,
    /// Number of radio fragments of this scan.
    pub expected_fragment_count: u8,
    /// Radio fragments that the receiver obtained.
    pub received_fragment_bitmap: u16,
    /// Number of duplicate radio fragments.
    pub duplicate_fragment_count: u16,
    /// Number of conflicting radio fragments.
    pub conflicting_fragment_count: u16,
    /// Steps that were actually recovered and decoded.
    pub steps: Vec<ProfileStep>,
}

/// Whether step `index` is among the steps.
pub open spec fn holds_step(steps: Seq<ProfileStep>, index: int) -> bool {
    exists|k: int| 0 <= k < steps.len() && (#[trigger] steps[k]).step_index == index
}

/// The positions below the expected count of which no step was decoded.
pub open spec fn unavailable_steps(scan: ProfileScan) -> u16 {
    checks::bitmap_where(
        |i: int| i < scan.expected_steps && !holds_step(scan.steps@, i),
        16,
    )
}

/// The bitmap that has the bits below `count` set.
pub open spec fn full_bitmap(count: u8) -> u16 {
    if count >= 16 {
        0xffff
    } else {
        checks::step_mask_of(count)
    }
}

/// The steps that firmware must have reported missing, given the decoded steps: a
/// step of an obtained fragment is missing if it was not decoded, and of any
/// other fragment the receiver knows what was reported.
pub open spec fn accountable_missing_steps(scan: ProfileScan) -> u16 {
    checks::bitmap_where(
        |i: int|
            i < scan.expected_steps && (if checks::has_bit(scan.received_fragment_bitmap, i / 3) {
                !holds_step(scan.steps@, i)
            } else {
                checks::has_bit(scan.reported_missing_steps, i)
            }),
        16,
    )
}

/// The fault of the decoded step at position `k`.
pub open spec fn measurement_fault(scan: ProfileScan, k: int) -> Option<RecordError> {
    let index = scan.steps@[k].step_index;
    if index >= scan.expected_steps {
        Some(RecordError::StepIndexOutOfRange { index, expected_steps: scan.expected_steps })
    } else if holds_step(scan.steps@.take(k), index as int) {
        Some(RecordError::DuplicateStepIndex(index))
    } else if !checks::has_bit(scan.received_fragment_bitmap, index as int / 3) {
        Some(RecordError::StepWithoutFragment { index, fragment_index: (index / 3) as u8 })
    } else {
        None
    }
}

/// The first fault among the first `count` decoded steps.
pub open spec fn measurements_fault(scan: ProfileScan, count: int) -> Option<RecordError>
    decreases count,
{
    if count <= 0 {
        None
    } else if measurements_fault(scan, count - 1) is Some {
        measurements_fault(scan, count - 1)
    } else {
        measurement_fault(scan, count - 1)
    }
}

/// How many steps firmware acquired by its missing bitmap.
pub open spec fn accountable_observed_steps(scan: ProfileScan) -> int {
    scan.expected_steps - checks::set_bits(scan.reported_missing_steps, scan.expected_steps as int)
}

/// The first rule that a scan breaks.
pub open spec fn scan_fault(scan: ProfileScan) -> Option<RecordError> {
    if !(1 <= scan.expected_steps <= MAX_HEATER_STEPS) {
        Some(RecordError::InvalidExpectedSteps(scan.expected_steps))
    } else if scan.reported_missing_steps & !checks::step_mask_of(scan.expected_steps) != 0 {
        Some(
            RecordError::MissingBitmapOutOfRange {
                bitmap: scan.reported_missing_steps,
                expected_steps: scan.expected_steps,
            },
        )
    } else if scan.expected_fragment_count != (scan.expected_steps + 2) / 3 {
        Some(
            RecordError::InvalidFragmentCount {
                count: scan.expected_fragment_count,
                expected_steps: scan.expected_steps,
            },
        )
    } else if scan.received_fragment_bitmap & !checks::step_mask_of(scan.expected_fragment_count)
        != 0 {
        Some(
            RecordError::FragmentBitmapOutOfRange {
                bitmap: scan.received_fragment_bitmap,
                expected_fragments: scan.expected_fragment_count,
            },
        )
    } else if measurements_fault(scan, scan.steps@.len() as int) is Some {
        measurements_fault(scan, scan.steps@.len() as int)
    } else if accountable_missing_steps(scan) != scan.reported_missing_steps {
        Some(
            RecordError::MissingBitmapMismatch {
                reported: scan.reported_missing_steps,
                computed: accountable_missing_steps(scan),
            },
        )
    } else if accountable_observed_steps(scan) != scan.observed_unique_steps {
        Some(
            RecordError::ObservedStepsMismatch {
                reported: scan.observed_unique_steps,
                computed: accountable_observed_steps(scan) as u8,
            },
        )
    } else if scan.observed_field_count < scan.observed_unique_steps {
        Some(
            RecordError::ObservedFieldsTooFew {
                fields: scan.observed_field_count,
                unique_steps: scan.observed_unique_steps,
            },
        )
    } else {
        None
    }
}

impl ProfileScan {
    /// Whether a step was decoded at position `index`.
    fn holds(&self, index: u8) -> (held: bool)
        ensures
            held == holds_step(self.steps@, index as int),
    {
        self.holds_before(index, self.steps.len())
    }

    /// Whether one of the first `count` decoded steps is at position `index`.
    fn holds_before(&self, index: u8, count: usize) -> (held: bool)
        requires
            count <= self.steps@.len(),
        ensures
            held == holds_step(self.steps@.take(count as int), index as int),
            count == self.steps@.len() ==> held == holds_step(self.steps@, index as int),
    {
        let ghost head = self.steps@.take(count as int);
        let mut k: usize = 0;
        while k < count
            invariant
                k <= count <= self.steps@.len(),
                head == self.steps@.take(count as int),
                forall|j: int| 0 <= j < k ==> (#[trigger] self.steps@[j]).step_index != index,
            decreases count - k,
        {
            if self.steps[k].step_index == index {
                assert(head[k as int].step_index == index);
                return true;
            }
            k = k + 1;
        }
        assert forall|j: int| 0 <= j < head.len() implies (#[trigger] head[j]).step_index
            != index by {
            assert(head[j] == self.steps@[j]);
        }
        false
    }

    /// Compute missing profile positions from the decoded steps.
    #[must_use]
    pub fn computed_missing_steps(&self) -> (bitmap: u16)
        ensures
            bitmap == unavailable_steps(*self),
            forall|i: int|
                0 <= i < 16 ==> #[trigger] checks::has_bit(bitmap, i) == (i < self.expected_steps
                    && !holds_step(self.steps@, i)),
    {
        let ghost missing = |i: int| i < self.expected_steps && !holds_step(self.steps@, i);
        let mut bitmap: u16 = 0;
        let mut index: u8 = 0;
        while index < 16
            invariant
                index <= 16,
                missing == (|i: int| i < self.expected_steps && !holds_step(self.steps@, i)),
                bitmap == checks::bitmap_where(missing, index as int),
            decreases 16 - index,
        {
            if index < self.expected_steps && !self.holds(index) {
                assert(missing(index as int));
                bitmap = with_bit(bitmap, index as usize);
            } else {
                assert(!missing(index as int));
                assert(bitmap | 0 == bitmap) by (bit_vector);
            }
            index = index + 1;
        }
        assert forall|i: int| 0 <= i < 16 implies #[trigger] checks::has_bit(bitmap, i) == (i
            < self.expected_steps && !holds_step(self.steps@, i)) by {
            checks::lemma_bitmap_where(missing, 16, i);
        }
        bitmap
    }

    /// Compute the positions without a decoded step, whether the sensor or the
    /// radio lost them.
    #[must_use]
    pub fn computed_unavailable_steps(&self) -> (bitmap: u16)
        ensures
            bitmap == unavailable_steps(*self),
    {
        self.computed_missing_steps()
    }

    /// The radio fragments that the receiver did not obtain.
    #[must_use]
    pub fn missing_fragment_bitmap(&self) -> (bitmap: u16)
        ensures
            bitmap == full_bitmap(self.expected_fragment_count) & !self.received_fragment_bitmap,
    {
        expected_step_mask(self.expected_fragment_count) & !self.received_fragment_bitmap
    }

    /// Whether the receiver obtained every radio fragment.
    #[must_use]
    pub fn is_transport_complete(&self) -> (complete: bool)
        ensures
            complete == (self.received_fragment_bitmap == full_bitmap(
                self.expected_fragment_count,
            )),
    {
        self.received_fragment_bitmap == expected_step_mask(self.expected_fragment_count)
    }

    /// Validate bounded structure and profile completeness metadata.
    ///
    /// Sensor-quality flags are deliberately not structural errors: invalid or
    /// unstable steps must remain storable for later quality analysis.
    ///
    /// # Errors
    ///
    /// Returns an error for impossible step or fragment counts,
    /// duplicate/out-of-range indices, a step of a fragment that was not
    /// obtained, a firmware missing bitmap that disagrees with decoded data, or
    /// counters that disagree with the missing bitmap.
    pub fn validate(&self) -> (result: Result<(), RecordError>)
        ensures
            result == verdict(scan_fault(*self)),
    {
        if self.expected_steps < 1 || self.expected_steps > MAX_HEATER_STEPS {
            return Err(RecordError::InvalidExpectedSteps(self.expected_steps));
        }
        if self.reported_missing_steps & !step_mask(self.expected_steps) != 0 {
            return Err(
                RecordError::MissingBitmapOutOfRange {
                    bitmap: self.reported_missing_steps,
                    expected_steps: self.expected_steps,
                },
            );
        }
        if self.expected_fragment_count != (self.expected_steps + 2) / 3 {
            return Err(
                RecordError::InvalidFragmentCount {
                    count: self.expected_fragment_count,
                    expected_steps: self.expected_steps,
                },
            );
        }
        if self.received_fragment_bitmap & !step_mask(self.expected_fragment_count) != 0 {
            return Err(
                RecordError::FragmentBitmapOutOfRange {
                    bitmap: self.received_fragment_bitmap,
                    expected_fragments: self.expected_fragment_count,
                },
            );
        }
        self.check_measurements()?;
        let computed: u16 = self.accountable_missing();
        if computed != self.reported_missing_steps {
            return Err(
                RecordError::MissingBitmapMismatch {
                    reported: self.reported_missing_steps,
                    computed,
                },
            );
        }
        let observed: u8 = self.expected_steps - count_bits(
            self.reported_missing_steps,
            self.expected_steps,
        );
        if observed != self.observed_unique_steps {
            return Err(
                RecordError::ObservedStepsMismatch {
                    reported: self.observed_unique_steps,
                    computed: observed,
                },
            );
        }
        if self.observed_field_count < self.observed_unique_steps as u16 {
            return Err(
                RecordError::ObservedFieldsTooFew {
                    fields: self.observed_field_count,
                    unique_steps: self.observed_unique_steps,
                },
            );
        }
        Ok(())
    }

    /// Rejects a decoded step that is out of range, duplicate, or of a fragment
    /// that was not obtained.
    fn check_measurements(&self) -> (result: Result<(), RecordError>)
        requires
            1 <= self.expected_steps <= MAX_HEATER_STEPS,
        ensures
            result == verdict(measurements_fault(*self, self.steps@.len() as int)),
    {
        let mut k: usize = 0;
        while k < self.steps.len()
            invariant
                k <= self.steps@.len(),
                1 <= self.expected_steps <= MAX_HEATER_STEPS,
                measurements_fault(*self, k as int) is None,
            decreases self.steps@.len() - k,
        {
            let index: u8 = self.steps[k].step_index;
            let fault = if index >= self.expected_steps {
                Some(
                    RecordError::StepIndexOutOfRange {
                        index,
                        expected_steps: self.expected_steps,
                    },
                )
            } else if self.holds_before(index, k) {
                Some(RecordError::DuplicateStepIndex(index))
            } else if !test_bit(self.received_fragment_bitmap, (index / 3) as usize) {
                Some(RecordError::StepWithoutFragment { index, fragment_index: index / 3 })
            } else {
                None
            };
            assert(fault == measurement_fault(*self, k as int));
            if let Some(error) = fault {
                proof {
                    lemma_measurements_fault_stays(*self, k + 1, self.steps@.len() as int);
                }
                return Err(error);
            }
            k = k + 1;
        }
        Ok(())
    }

    /// The steps that firmware must have reported missing.
    fn accountable_missing(&self) -> (bitmap: u16)
        requires
            1 <= self.expected_steps <= MAX_HEATER_STEPS,
        ensures
            bitmap == accountable_missing_steps(*self),
    {
        let ghost missing = |i: int|
            i < self.expected_steps && (if checks::has_bit(self.received_fragment_bitmap, i / 3) {
                !holds_step(self.steps@, i)
            } else {
                checks::has_bit(self.reported_missing_steps, i)
            });
        let mut bitmap: u16 = 0;
        let mut index: u8 = 0;
        while index < 16
            invariant
                index <= 16,
                1 <= self.expected_steps <= MAX_HEATER_STEPS,
                missing == (|i: int|
                    i < self.expected_steps && (if checks::has_bit(
                        self.received_fragment_bitmap,
                        i / 3,
                    ) {
                        !holds_step(self.steps@, i)
                    } else {
                        checks::has_bit(self.reported_missing_steps, i)
                    })),
                bitmap == checks::bitmap_where(missing, index as int),
            decreases 16 - index,
        {
            let is_missing = index < self.expected_steps && (if test_bit(
                self.received_fragment_bitmap,
                (index / 3) as usize,
            ) {
                !self.holds(index)
            } else {
                test_bit(self.reported_missing_steps, index as usize)
            });
            assert(is_missing == missing(index as int));
            if is_missing {
                bitmap = with_bit(bitmap, index as usize);
            } else {
                assert(bitmap | 0 == bitmap) by (bit_vector);
            }
            index = index + 1;
        }
        bitmap
    }
}

proof fn lemma_measurements_fault_stays(scan: ProfileScan, from: int, to: int)
    requires
        0 <= from <= to,
        measurements_fault(scan, from) is Some,
    ensures
        measurements_fault(scan, to) == measurements_fault(scan, from),
    decreases to,
{
    if from < to {
        lemma_measurements_fault_stays(scan, from, to - 1);
    }
}

/// The bitmap that has the bits below `expected_steps` set.
fn expected_step_mask(expected_steps: u8) -> (mask: u16)
    ensures
        mask == full_bitmap(expected_steps),
{
    if expected_steps >= 16 {
        u16::MAX
    } else {
        step_mask(expected_steps)
    }
}

/// Periodic health counters reported without interpreting fire risk.
#[derive(Clone, Copy, Debug, Eq, PartialEq)]
pub struct DeviceHealth {
    /// Device identity and monotonic report time.
    pub identity: RecordIdentity,
    /// Raw health flags.
    pub health_flags: u8,
    /// Exact reset-status register.
    pub reset_cause_raw: u32,
    /// Completed sensor scans.
    pub successful_sensor_scans: u32,
    /// Failed sensor scans.
    pub failed_sensor_scans: u32,
    /// Profiles reported incomplete.
    pub incomplete_profiles: u32,
    /// I2C transaction errors.
    pub i2c_errors: u32,
    /// Radio transmission errors.
    pub radio_tx_errors: u32,
    /// Profiles dropped before transmission.
    pub dropped_profiles: u32,
    /// Fragments dropped before transmission.
    pub dropped_fragments: u32,
    /// Fields that the sensor overwrote.
    pub overwritten_fields: u32,
    /// Current interval between samples.
    pub current_sample_interval_ms: u32,
    /// Firmware version: major, minor, patch.
    pub firmware_version: [u8; 3],
    /// Requested or current profile.
    pub profile_id: u16,
    /// Revision of that profile.
    pub profile_version: u16,
    /// Last sensor error.
    pub last_sensor_error: u16,
    /// Last radio error.
    pub last_radio_error: u16,
    /// Optional calibrated MCU temperature in hundredths of a degree Celsius.
    pub calibrated_mcu_temperature_centi_celsius: Option<i16>,
    /// Optional calibrated device supply estimate in millivolts.
    pub calibrated_vdd_millivolt: Option<u16>,
}

/// Structurally invalid decoded record.
#[derive(Clone, Copy, Debug, Eq, PartialEq)]
pub enum RecordError {
    /// Firmware declared an unsupported step count.
    InvalidExpectedSteps(u8),
    /// A reported missing bit lies beyond the configured profile.
    MissingBitmapOutOfRange {
        /// Firmware-provided bitmap.
        bitmap: u16,
        /// Expected number of steps.
        expected_steps: u8,
    },
    /// A decoded step index lies beyond the configured profile.
    StepIndexOutOfRange {
        /// Invalid step index.
        index: u8,
        /// Expected number of steps.
        expected_steps: u8,
    },
    /// Two decoded steps use the same profile index.
    DuplicateStepIndex(u8),
    /// A configured heater step is not in contiguous profile order.
    ConfigurationStepOrder {
        /// Position of the step in the configuration record.
        position: u8,
        /// Index declared by the step.
        step_index: u8,
    },
    /// Firmware and receiver disagree about which steps are missing.
    MissingBitmapMismatch {
        /// Firmware-provided bitmap.
        reported: u16,
        /// Bitmap derived from decoded steps.
        computed: u16,
    },
    /// The fragment count does not belong to the step count.
    InvalidFragmentCount {
        /// Declared number of radio fragments.
        count: u8,
        /// Expected number of steps.
        expected_steps: u8,
    },
    /// A received bit lies beyond the declared radio fragments.
    FragmentBitmapOutOfRange {
        /// Receiver-provided bitmap.
        bitmap: u16,
        /// Declared number of radio fragments.
        expected_fragments: u8,
    },
    /// A decoded step belongs to a radio fragment that was never obtained.
    StepWithoutFragment {
        /// Index of the step.
        index: u8,
        /// Radio fragment that carries the step.
        fragment_index: u8,
    },
    /// The number of observed steps disagrees with the missing bitmap.
    ObservedStepsMismatch {
        /// Firmware-provided count.
        reported: u8,
        /// Count derived from the missing bitmap.
        computed: u8,
    },
    /// Fewer fields than distinct steps were observed.
    ObservedFieldsTooFew {
        /// Firmware-provided field count.
        fields: u16,
        /// Firmware-provided count of distinct steps.
        unique_steps: u8,
    },
}

/// The text of a structural fault.
pub open spec fn record_error_text(error: RecordError) -> Seq<char> {
    match error {
        RecordError::InvalidExpectedSteps(count) => "invalid expected heater-step count "@
            + text::decimal(count as nat),
        RecordError::MissingBitmapOutOfRange { bitmap, expected_steps } =>
            "missing-step bitmap 0x"@ + text::hex_digits(bitmap as nat, 4) + " exceeds "@
            + text::decimal(expected_steps as nat) + " expected steps"@,
        RecordError::StepIndexOutOfRange { index, expected_steps } => "heater-step index "@
            + text::decimal(index as nat) + " exceeds "@ + text::decimal(expected_steps as nat)
            + " expected steps"@,
        RecordError::DuplicateStepIndex(index) => "duplicate heater-step index "@ + text::decimal(
            index as nat,
        ),
        RecordError::ConfigurationStepOrder { position, step_index } =>
            "heater-step at profile position "@ + text::decimal(position as nat)
            + " declares index "@ + text::decimal(step_index as nat),
        RecordError::MissingBitmapMismatch { reported, computed } =>
            "reported missing-step bitmap 0x"@ + text::hex_digits(reported as nat, 4)
            + " differs from decoded bitmap 0x"@ + text::hex_digits(computed as nat, 4),
        RecordError::InvalidFragmentCount { count, expected_steps } => "radio-fragment count "@
            + text::decimal(count as nat) + " does not carry "@ + text::decimal(
            expected_steps as nat,
        ) + " expected steps"@,
        RecordError::FragmentBitmapOutOfRange { bitmap, expected_fragments } =>
            "received-fragment bitmap 0x"@ + text::hex_digits(bitmap as nat, 4) + " exceeds "@
            + text::decimal(expected_fragments as nat) + " expected fragments"@,
        RecordError::StepWithoutFragment { index, fragment_index } => "heater-step index "@
            + text::decimal(index as nat) + " belongs to missing radio fragment "@
            + text::decimal(fragment_index as nat),
        RecordError::ObservedStepsMismatch { reported, computed } =>
            "reported observed-step count "@ + text::decimal(reported as nat) + " differs from "@
            + text::decimal(computed as nat),
        RecordError::ObservedFieldsTooFew { fields, unique_steps } => "observed-field count "@
            + text::decimal(fields as nat) + " is below the distinct-step count "@
            + text::decimal(unique_steps as nat),
    }
}

impl RecordError {
    /// The text of this fault.
    #[must_use]
    pub fn message(&self) -> (message: String)
        ensures
            message@ == record_error_text(*self),
    {
        match *self {
            RecordError::InvalidExpectedSteps(count) => ending_number(
                "invalid expected heater-step count ",
                count as u64,
            ),
            RecordError::MissingBitmapOutOfRange { bitmap, expected_steps } => bitmap_and_number(
                "missing-step bitmap 0x",
                bitmap,
                " exceeds ",
                expected_steps,
                " expected steps",
            ),
            RecordError::StepIndexOutOfRange { index, expected_steps } => two_numbers(
                "heater-step index ",
                index as u64,
                " exceeds ",
                expected_steps as u64,
                " expected steps",
            ),
            RecordError::DuplicateStepIndex(index) => ending_number(
                "duplicate heater-step index ",
                index as u64,
            ),
            RecordError::ConfigurationStepOrder { position, step_index } => ending_numbers(
                "heater-step at profile position ",
                position as u64,
                " declares index ",
                step_index as u64,
            ),
            RecordError::MissingBitmapMismatch { reported, computed } => {
                let mut out = String::from_str("reported missing-step bitmap 0x");
                push_hex(&mut out, reported as u64, 4);
                out.append(" differs from decoded bitmap 0x");
                push_hex(&mut out, computed as u64, 4);
                out
            },
            RecordError::InvalidFragmentCount { count, expected_steps } => two_numbers(
                "radio-fragment count ",
                count as u64,
                " does not carry ",
                expected_steps as u64,
                " expected steps",
            ),
            RecordError::FragmentBitmapOutOfRange { bitmap, expected_fragments } =>
                bitmap_and_number(
                "received-fragment bitmap 0x",
                bitmap,
                " exceeds ",
                expected_fragments,
                " expected fragments",
            ),
            RecordError::StepWithoutFragment { index, fragment_index } => ending_numbers(
                "heater-step index ",
                index as u64,
                " belongs to missing radio fragment ",
                fragment_index as u64,
            ),
            RecordError::ObservedStepsMismatch { reported, computed } => ending_numbers(
                "reported observed-step count ",
                reported as u64,
                " differs from ",
                computed as u64,
            ),
            RecordError::ObservedFieldsTooFew { fields, unique_steps } => ending_numbers(
                "observed-field count ",
                fields as u64,
                " is below the distinct-step count ",
                unique_steps as u64,
            ),
        }
    }
}

/// A bitmap and a number between three texts.
fn bitmap_and_number(before: &str, bitmap: u16, between: &str, number: u8, after: &str) -> (out:
    String)
    ensures
        out@ == before@ + text::hex_digits(bitmap as nat, 4) + between@ + text::decimal(
            number as nat,
        ) + after@,
{
    let mut out = String::from_str(before);
    push_hex(&mut out, bitmap as u64, 4);
    out.append(between);
    push_decimal(&mut out, number as u64);
    out.append(after);
    out
}

} // verus!
