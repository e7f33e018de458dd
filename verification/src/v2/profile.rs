//! The profile record: one scan, sent in up to four fragments.

use vstd::prelude::*;

use crate::v2::checks;
use crate::v2::checks::{count_bits, ensure_known_u32, step_mask, test_bit};
use crate::v2::header;
use crate::v2::header::encode_header;
use crate::v2::types::{
    Common, EncodedFrame, Error, FrameType, Header, ProfileScan, ProfileStep,
    COLLECTION_FLAGS_KNOWN, COLLECTION_FLAG_CONFIG_MISMATCH, COLLECTION_FLAG_STALE_PRE_SCAN_FIELDS,
    FINISH_REASON_COMPLETE, FINISH_REASON_PROFILE_ROLLOVER, MAX_PROFILE_FRAGMENTS,
    MAX_PROFILE_STEPS, MAX_PROFILE_STEPS_U8, PROFILE_FRAGMENT_META_LEN,
    PROFILE_SCHEMA_VERSION, PROFILE_STEP_LEN, STEPS_PER_FRAGMENT, STEPS_PER_FRAGMENT_U8,
};
use crate::wire;
use crate::wire::{read_i16, read_u16, read_u32};

verus! {

/// What every fragment of a scan repeats about the scan as a whole.
#[derive(Clone, Copy, Debug, Eq, PartialEq, Structural)]
pub struct ScanSummary {
    pub profile_id: u16,
    pub profile_version: u16,
    pub expected_step_count: u8,
    pub observed_unique_step_count: u8,
    pub observed_field_count: u16,
    pub missing_steps_bitmap: u16,
    pub duplicate_steps_bitmap: u16,
    pub scan_duration_us: u32,
    pub collection_flags: u32,
    pub finish_reason: u8,
    pub duplicate_count: u16,
    pub overwritten_field_count: u16,
    pub out_of_order_count: u16,
    pub ambiguous_index_jump_count: u16,
    pub invalid_gas_index_count: u16,
    pub intermediate_field_count: u16,
    pub profile_rollover_count: u16,
    pub fields_after_rollover_count: u16,
    pub poll_count: u16,
}

impl ProfileScan {
    /// What every fragment of this scan repeats.
    pub open spec fn summary(self) -> ScanSummary {
        ScanSummary {
            profile_id: self.profile_id,
            profile_version: self.profile_version,
            expected_step_count: self.expected_step_count,
            observed_unique_step_count: self.observed_unique_step_count,
            observed_field_count: self.observed_field_count,
            missing_steps_bitmap: self.missing_steps_bitmap,
            duplicate_steps_bitmap: self.duplicate_steps_bitmap,
            scan_duration_us: self.scan_duration_us,
            collection_flags: self.collection_flags,
            finish_reason: self.finish_reason,
            duplicate_count: self.duplicate_count,
            overwritten_field_count: self.overwritten_field_count,
            out_of_order_count: self.out_of_order_count,
            ambiguous_index_jump_count: self.ambiguous_index_jump_count,
            invalid_gas_index_count: self.invalid_gas_index_count,
            intermediate_field_count: self.intermediate_field_count,
            profile_rollover_count: self.profile_rollover_count,
            fields_after_rollover_count: self.fields_after_rollover_count,
            poll_count: self.poll_count,
        }
    }
}

/// Validated profile-fragment metadata and borrowed step bytes.
#[derive(Clone, Copy, Debug, Eq, PartialEq)]
pub struct ProfileFragmentView<'a> {
    pub header: Header,
    pub profile_id: u16,
    pub profile_version: u16,
    pub expected_step_count: u8,
    pub observed_unique_step_count: u8,
    pub observed_field_count: u16,
    pub missing_steps_bitmap: u16,
    pub duplicate_steps_bitmap: u16,
    pub scan_duration_us: u32,
    pub collection_flags: u32,
    pub finish_reason: u8,
    pub duplicate_count: u16,
    pub overwritten_field_count: u16,
    pub out_of_order_count: u16,
    pub ambiguous_index_jump_count: u16,
    pub invalid_gas_index_count: u16,
    /// Total discarded nonterminal fields, stale pre-scan fields too when
    /// `COLLECTION_FLAG_STALE_PRE_SCAN_FIELDS` is set.
    pub intermediate_field_count: u16,
    pub profile_rollover_count: u16,
    pub fields_after_rollover_count: u16,
    pub poll_count: u16,
    pub step_window_start: u8,
    pub steps_in_fragment: u8,
    pub step_bytes: &'a [u8],
}

/// What a profile fragment says.
#[verifier::ext_equal]
pub struct FragmentModel {
    pub header: Header,
    pub summary: ScanSummary,
    pub step_window_start: u8,
    /// The steps of this fragment's window that the scan holds, in order.
    pub steps: Seq<ProfileStep>,
}

/// The number of fragments of a scan: three steps each, the last one fewer.
pub open spec fn fragment_count_of(expected_step_count: u8) -> u8 {
    ((expected_step_count + 2) / 3) as u8
}

/// The first step of a fragment's window.
pub open spec fn window_start_of(fragment_index: u8) -> int {
    3 * fragment_index
}

/// One behind the last step of a fragment's window.
pub open spec fn window_end_of(fragment_index: u8, expected_step_count: u8) -> int {
    if 3 * fragment_index + 3 <= expected_step_count {
        3 * fragment_index + 3
    } else {
        expected_step_count as int
    }
}

/// How many of the steps `from..to` a scan with this missing bitmap holds.
pub open spec fn present_count(missing: u16, from: int, to: int) -> int
    decreases to - from,
{
    if to <= from {
        0
    } else {
        present_count(missing, from, to - 1) + if checks::has_bit(missing, to - 1) {
            0int
        } else {
            1int
        }
    }
}

/// The steps `from..to` that slots hold, in order.
pub open spec fn present_steps(
    slots: Seq<Option<ProfileStep>>,
    from: int,
    to: int,
) -> Seq<ProfileStep>
    decreases to - from,
{
    if to <= from {
        Seq::empty()
    } else {
        match slots[to - 1] {
            Some(step) => present_steps(slots, from, to - 1).push(step),
            None => present_steps(slots, from, to - 1),
        }
    }
}

/// The bytes of a profile step.
#[verifier::opaque]
pub open spec fn step_bytes_of(step: ProfileStep) -> Seq<u8> {
    Seq::<u8>::empty()
        + wire::b8(step.step_index)
        + wire::b8(step.gas_index)
        + wire::b8(step.measurement_index)
        + wire::b8(step.status)
        + wire::b8(step.raw_measurement_status)
        + wire::b8(step.raw_gas_status)
        + wire::b16(step.target_temperature_celsius)
        + wire::b32(step.configured_duration_us)
        + wire::b32(step.offset_us)
        + wire::b_i16(step.temperature_centi_celsius)
        + wire::b32(step.pressure_pascal)
        + wire::b32(step.humidity_milli_percent_rh)
        + wire::b32(step.gas_resistance_ohm)
        + wire::b32(step.temperature_adc)
        + wire::b32(step.pressure_adc)
        + wire::b16(step.humidity_adc)
        + wire::b16(step.gas_resistance_adc)
        + wire::b8(step.gas_range)
        + wire::b8(step.repetition_multiplier)
        + wire::b8(step.heater_resistance)
        + wire::b8(step.heater_current)
        + wire::b8(step.gas_wait)
}

/// The bytes of profile steps, one behind the other.
pub open spec fn steps_bytes_of(steps: Seq<ProfileStep>) -> Seq<u8>
    decreases steps.len(),
{
    if steps.len() == 0 {
        Seq::empty()
    } else {
        steps_bytes_of(steps.drop_last()) + step_bytes_of(steps.last())
    }
}

/// The profile step at `at`.
pub open spec fn step_at(s: Seq<u8>, at: int) -> ProfileStep {
    ProfileStep {
        step_index: s[at],
        gas_index: s[at + 1],
        measurement_index: s[at + 2],
        status: s[at + 3],
        raw_measurement_status: s[at + 4],
        raw_gas_status: s[at + 5],
        target_temperature_celsius: wire::be16(s, at + 6),
        configured_duration_us: wire::be32(s, at + 8),
        offset_us: wire::be32(s, at + 12),
        temperature_centi_celsius: wire::be_i16(s, at + 16),
        pressure_pascal: wire::be32(s, at + 18),
        humidity_milli_percent_rh: wire::be32(s, at + 22),
        gas_resistance_ohm: wire::be32(s, at + 26),
        temperature_adc: wire::be32(s, at + 30),
        pressure_adc: wire::be32(s, at + 34),
        humidity_adc: wire::be16(s, at + 38),
        gas_resistance_adc: wire::be16(s, at + 40),
        gas_range: s[at + 42],
        repetition_multiplier: s[at + 43],
        heater_resistance: s[at + 44],
        heater_current: s[at + 45],
        gas_wait: s[at + 46],
    }
}

/// `count` profile steps, the first of them at `at`.
pub open spec fn steps_at(s: Seq<u8>, at: int, count: int) -> Seq<ProfileStep> {
    Seq::new(count as nat, |k: int| step_at(s, at + 47 * k))
}

/// The bytes of a fragment without its steps.
#[verifier::opaque]
pub open spec fn fragment_meta_bytes(
    summary: ScanSummary,
    step_count: u8,
    window_start: u8,
) -> Seq<u8> {
    Seq::<u8>::empty()
        + wire::b8(PROFILE_SCHEMA_VERSION)
        + wire::b8(step_count)
        + wire::b16(summary.profile_id)
        + wire::b16(summary.profile_version)
        + wire::b8(summary.expected_step_count)
        + wire::b8(summary.observed_unique_step_count)
        + wire::b16(summary.observed_field_count)
        + wire::b16(summary.missing_steps_bitmap)
        + wire::b16(summary.duplicate_steps_bitmap)
        + wire::b32(summary.scan_duration_us)
        + wire::b32(summary.collection_flags)
        + wire::b8(summary.finish_reason)
        + wire::b16(summary.duplicate_count)
        + wire::b16(summary.overwritten_field_count)
        + wire::b16(summary.out_of_order_count)
        + wire::b16(summary.ambiguous_index_jump_count)
        + wire::b16(summary.invalid_gas_index_count)
        + wire::b16(summary.intermediate_field_count)
        + wire::b16(summary.profile_rollover_count)
        + wire::b16(summary.fields_after_rollover_count)
        + wire::b16(summary.poll_count)
        + wire::b8(window_start)
}

/// The summary at its place in a fragment's payload.
pub open spec fn summary_at(payload: Seq<u8>) -> ScanSummary {
    ScanSummary {
        profile_id: wire::be16(payload, 2),
        profile_version: wire::be16(payload, 4),
        expected_step_count: payload[6],
        observed_unique_step_count: payload[7],
        observed_field_count: wire::be16(payload, 8),
        missing_steps_bitmap: wire::be16(payload, 10),
        duplicate_steps_bitmap: wire::be16(payload, 12),
        scan_duration_us: wire::be32(payload, 14),
        collection_flags: wire::be32(payload, 18),
        finish_reason: payload[22],
        duplicate_count: wire::be16(payload, 23),
        overwritten_field_count: wire::be16(payload, 25),
        out_of_order_count: wire::be16(payload, 27),
        ambiguous_index_jump_count: wire::be16(payload, 29),
        invalid_gas_index_count: wire::be16(payload, 31),
        intermediate_field_count: wire::be16(payload, 33),
        profile_rollover_count: wire::be16(payload, 35),
        fields_after_rollover_count: wire::be16(payload, 37),
        poll_count: wire::be16(payload, 39),
    }
}

/// The payload of a fragment.
pub open spec fn fragment_bytes(model: FragmentModel) -> Seq<u8> {
    fragment_meta_bytes(model.summary, model.steps.len() as u8, model.step_window_start)
        + steps_bytes_of(model.steps)
}

/// The first contradiction between a step's decoded fields and its raw bytes.
pub open spec fn step_fault(step: ProfileStep) -> Option<Error> {
    if step.status & 0xb0 != (step.raw_measurement_status & 0x80) | (step.raw_gas_status & 0x30) {
        Some(Error::InvalidField("step_status_raw"))
    } else if step.gas_index != step.raw_measurement_status & 0x0f {
        Some(Error::InvalidField("step_gas_index_raw"))
    } else if step.gas_range != step.raw_gas_status & 0x0f {
        Some(Error::InvalidField("step_gas_range_raw"))
    } else if step.gas_index != step.step_index {
        Some(Error::InvalidField("step_gas_index"))
    } else {
        None
    }
}

/// The fault of a scan without a configuration ID that does not report the mismatch.
pub open spec fn config_identity_fault(
    config_id: u64,
    collection_flags: u32,
    finish_reason: u8,
) -> Option<Error> {
    if config_id == 0 && (collection_flags & COLLECTION_FLAG_CONFIG_MISMATCH == 0 || finish_reason
        == FINISH_REASON_COMPLETE) {
        Some(Error::InvalidField("profile_config_id_status"))
    } else {
        None
    }
}

/// Whether a scan is said to hold step `index`.
pub open spec fn expects_step(summary: ScanSummary, index: int) -> bool {
    index < summary.expected_step_count && !checks::has_bit(summary.missing_steps_bitmap, index)
}

/// Whether a bitmap names a step that the scan does not have.
pub open spec fn names_impossible_step(summary: ScanSummary) -> bool {
    ||| summary.missing_steps_bitmap & !checks::step_mask_of(summary.expected_step_count) != 0
    ||| summary.duplicate_steps_bitmap & !checks::step_mask_of(summary.expected_step_count) != 0
}

/// How many steps a scan holds by its missing bitmap.
pub open spec fn observed_of(summary: ScanSummary) -> int {
    summary.expected_step_count - checks::set_bits(
        summary.missing_steps_bitmap,
        summary.expected_step_count as int,
    )
}

/// The fault of step slot `index` of a scan.
pub open spec fn slot_fault(scan: ProfileScan, index: int) -> Option<Error> {
    match scan.steps[index] {
        Some(step) => if expects_step(scan.summary(), index) && step.step_index == index {
            step_fault(step)
        } else {
            Some(Error::InvalidField("profile_step_presence"))
        },
        None => if expects_step(scan.summary(), index) {
            Some(Error::InvalidField("profile_step_presence"))
        } else {
            None
        },
    }
}

/// The first fault among the first `count` step slots of a scan.
pub open spec fn slots_fault(scan: ProfileScan, count: int) -> Option<Error>
    decreases count,
{
    if count <= 0 {
        None
    } else {
        checks::first_fault(slots_fault(scan, count - 1), slot_fault(scan, count - 1))
    }
}

/// The first rule that a scan breaks.
pub open spec fn profile_fault(scan: ProfileScan) -> Option<Error> {
    if scan.profile_id == 0 || scan.profile_version == 0 {
        Some(Error::InvalidField("profile_identity"))
    } else if !(1 <= scan.expected_step_count <= MAX_PROFILE_STEPS) {
        Some(Error::InvalidField("expected_step_count"))
    } else if checks::unknown_flags_u32(
        "collection_flags",
        scan.collection_flags,
        COLLECTION_FLAGS_KNOWN,
    ) is Some {
        checks::unknown_flags_u32("collection_flags", scan.collection_flags, COLLECTION_FLAGS_KNOWN)
    } else if scan.finish_reason > FINISH_REASON_PROFILE_ROLLOVER {
        Some(Error::InvalidField("finish_reason"))
    } else if scan.collection_flags & COLLECTION_FLAG_STALE_PRE_SCAN_FIELDS != 0
        && scan.intermediate_field_count == 0 {
        Some(Error::InvalidField("stale_pre_scan_fields"))
    } else if names_impossible_step(scan.summary()) {
        Some(Error::InvalidField("step_bitmap"))
    } else if observed_of(scan.summary()) != scan.observed_unique_step_count {
        Some(Error::InvalidField("observed_unique_step_count"))
    } else if scan.observed_field_count < scan.observed_unique_step_count {
        Some(Error::InvalidField("observed_field_count"))
    } else {
        slots_fault(scan, MAX_PROFILE_STEPS as int)
    }
}

/// What fragment `fragment_index` of a scan says.
pub open spec fn fragment_of(
    common: Common,
    scan: ProfileScan,
    fragment_index: u8,
) -> FragmentModel {
    let steps = present_steps(
        scan.steps@,
        window_start_of(fragment_index),
        window_end_of(fragment_index, scan.expected_step_count),
    );
    FragmentModel {
        header: Header {
            frame_type: FrameType::ProfileFragment,
            common,
            fragment_index,
            fragment_count: fragment_count_of(scan.expected_step_count),
            payload_len: (PROFILE_FRAGMENT_META_LEN + PROFILE_STEP_LEN * steps.len()) as u16,
        },
        summary: scan.summary(),
        step_window_start: window_start_of(fragment_index) as u8,
        steps,
    }
}

/// The frame of a fragment.
pub open spec fn fragment_frame(model: FragmentModel) -> Seq<u8> {
    header::header_bytes(model.header) + fragment_bytes(model)
}

/// The first rule that a scan or the common fields of its frames break.
pub open spec fn encode_profile_fault(common: Common, scan: ProfileScan) -> Option<Error> {
    checks::first_fault(
        profile_fault(scan),
        checks::first_fault(
            config_identity_fault(common.config_id, scan.collection_flags, scan.finish_reason),
            header::common_fault(common),
        ),
    )
}

/// The first rule of its metadata that a fragment's payload breaks.
pub open spec fn fragment_meta_fault(header: Header, payload: Seq<u8>) -> Option<Error> {
    let summary = summary_at(payload);
    if payload.len() < PROFILE_FRAGMENT_META_LEN {
        Some(
            Error::WrongLength {
                expected: PROFILE_FRAGMENT_META_LEN,
                actual: payload.len() as usize,
            },
        )
    } else if payload[0] != PROFILE_SCHEMA_VERSION {
        Some(Error::InvalidField("profile_schema_version"))
    } else if !(1 <= summary.expected_step_count <= MAX_PROFILE_STEPS) {
        Some(Error::InvalidField("expected_step_count"))
    } else if checks::unknown_flags_u32(
        "collection_flags",
        summary.collection_flags,
        COLLECTION_FLAGS_KNOWN,
    ) is Some {
        checks::unknown_flags_u32(
            "collection_flags",
            summary.collection_flags,
            COLLECTION_FLAGS_KNOWN,
        )
    } else if summary.profile_id == 0 || summary.profile_version == 0 {
        Some(Error::InvalidField("profile_identity"))
    } else if config_identity_fault(
        header.common.config_id,
        summary.collection_flags,
        summary.finish_reason,
    ) is Some {
        config_identity_fault(
            header.common.config_id,
            summary.collection_flags,
            summary.finish_reason,
        )
    } else if summary.finish_reason > FINISH_REASON_PROFILE_ROLLOVER {
        Some(Error::InvalidField("finish_reason"))
    } else if summary.collection_flags & COLLECTION_FLAG_STALE_PRE_SCAN_FIELDS != 0
        && summary.intermediate_field_count == 0 {
        Some(Error::InvalidField("stale_pre_scan_fields"))
    } else if header.fragment_count != fragment_count_of(summary.expected_step_count) {
        Some(Error::InvalidFragmentCount(header.fragment_count))
    } else if payload[41] != window_start_of(header.fragment_index) {
        Some(Error::InvalidField("step_window_start"))
    } else if names_impossible_step(summary) {
        Some(Error::InvalidField("step_bitmap"))
    } else if summary.observed_unique_step_count != observed_of(summary)
        || summary.observed_field_count < observed_of(summary) {
        Some(Error::InvalidField("observed_counts"))
    } else if payload[1] != present_count(
        summary.missing_steps_bitmap,
        window_start_of(header.fragment_index),
        window_end_of(header.fragment_index, summary.expected_step_count),
    ) {
        Some(Error::InvalidField("steps_in_fragment"))
    } else if payload.len() != PROFILE_FRAGMENT_META_LEN + PROFILE_STEP_LEN * payload[1] {
        Some(
            Error::WrongLength {
                expected: (PROFILE_FRAGMENT_META_LEN + PROFILE_STEP_LEN * payload[1]) as usize,
                actual: payload.len() as usize,
            },
        )
    } else {
        None
    }
}

/// The fault of a step that is sent as step `index`.
pub open spec fn placed_step_fault(step: ProfileStep, index: int) -> Option<Error> {
    if step_fault(step) is Some {
        step_fault(step)
    } else if step.step_index != index {
        Some(Error::InvalidField("step_index"))
    } else {
        None
    }
}

/// The first fault among the steps `from..to` that a fragment sends.
pub open spec fn window_fault(
    steps: Seq<ProfileStep>,
    missing: u16,
    from: int,
    to: int,
) -> Option<Error>
    decreases to - from,
{
    if to <= from {
        None
    } else if checks::has_bit(missing, to - 1) {
        window_fault(steps, missing, from, to - 1)
    } else {
        checks::first_fault(
            window_fault(steps, missing, from, to - 1),
            placed_step_fault(steps[present_count(missing, from, to - 1)], to - 1),
        )
    }
}

/// What a fragment's payload says if it breaks no rule.
pub open spec fn fragment_at(header: Header, payload: Seq<u8>) -> FragmentModel {
    FragmentModel {
        header,
        summary: summary_at(payload),
        step_window_start: payload[41],
        steps: steps_at(payload, PROFILE_FRAGMENT_META_LEN as int, payload[1] as int),
    }
}

/// The first fault among a fragment's steps.
pub open spec fn fragment_steps_fault(model: FragmentModel) -> Option<Error> {
    window_fault(
        model.steps,
        model.summary.missing_steps_bitmap,
        window_start_of(model.header.fragment_index),
        window_end_of(model.header.fragment_index, model.summary.expected_step_count),
    )
}

/// What a fragment's payload says, or the first rule that it breaks.
pub open spec fn decoded_fragment(header: Header, payload: Seq<u8>) -> Result<
    FragmentModel,
    Error,
> {
    match checks::first_fault(
        fragment_meta_fault(header, payload),
        fragment_steps_fault(fragment_at(header, payload)),
    ) {
        Some(error) => Err(error),
        None => Ok(fragment_at(header, payload)),
    }
}

/// Whether a fragment breaks no rule of the wire format.
pub open spec fn fragment_valid(model: FragmentModel) -> bool {
    let summary = model.summary;
    let start = window_start_of(model.header.fragment_index);
    let end = window_end_of(model.header.fragment_index, summary.expected_step_count);
    &&& 1 <= summary.expected_step_count <= MAX_PROFILE_STEPS
    &&& model.header.fragment_index < model.header.fragment_count
    &&& model.header.fragment_count == fragment_count_of(summary.expected_step_count)
    &&& model.step_window_start == start
    &&& !names_impossible_step(summary)
    &&& summary.observed_unique_step_count == observed_of(summary)
    &&& summary.observed_field_count >= summary.observed_unique_step_count
    &&& model.steps.len() == present_count(summary.missing_steps_bitmap, start, end)
    &&& fragment_steps_fault(model) is None
}

impl<'a> ProfileFragmentView<'a> {
    /// What every fragment of the scan repeats.
    pub open spec fn scan_summary(self) -> ScanSummary {
        ScanSummary {
            profile_id: self.profile_id,
            profile_version: self.profile_version,
            expected_step_count: self.expected_step_count,
            observed_unique_step_count: self.observed_unique_step_count,
            observed_field_count: self.observed_field_count,
            missing_steps_bitmap: self.missing_steps_bitmap,
            duplicate_steps_bitmap: self.duplicate_steps_bitmap,
            scan_duration_us: self.scan_duration_us,
            collection_flags: self.collection_flags,
            finish_reason: self.finish_reason,
            duplicate_count: self.duplicate_count,
            overwritten_field_count: self.overwritten_field_count,
            out_of_order_count: self.out_of_order_count,
            ambiguous_index_jump_count: self.ambiguous_index_jump_count,
            invalid_gas_index_count: self.invalid_gas_index_count,
            intermediate_field_count: self.intermediate_field_count,
            profile_rollover_count: self.profile_rollover_count,
            fields_after_rollover_count: self.fields_after_rollover_count,
            poll_count: self.poll_count,
        }
    }

    /// What this fragment says.
    pub open spec fn model(self) -> FragmentModel {
        FragmentModel {
            header: self.header,
            summary: self.scan_summary(),
            step_window_start: self.step_window_start,
            steps: steps_at(self.step_bytes@, 0, self.steps_in_fragment as int),
        }
    }

    /// Whether the borrowed bytes are those of the steps that this fragment
    /// counts, and the fragment breaks no rule of the wire format.
    pub open spec fn valid(self) -> bool {
        &&& self.step_bytes@.len() == PROFILE_STEP_LEN * self.steps_in_fragment
        &&& fragment_valid(self.model())
    }

    /// What every fragment of the scan repeats.
    pub fn summary(&self) -> (summary: ScanSummary)
        ensures
            summary == self.scan_summary(),
    {
        ScanSummary {
            profile_id: self.profile_id,
            profile_version: self.profile_version,
            expected_step_count: self.expected_step_count,
            observed_unique_step_count: self.observed_unique_step_count,
            observed_field_count: self.observed_field_count,
            missing_steps_bitmap: self.missing_steps_bitmap,
            duplicate_steps_bitmap: self.duplicate_steps_bitmap,
            scan_duration_us: self.scan_duration_us,
            collection_flags: self.collection_flags,
            finish_reason: self.finish_reason,
            duplicate_count: self.duplicate_count,
            overwritten_field_count: self.overwritten_field_count,
            out_of_order_count: self.out_of_order_count,
            ambiguous_index_jump_count: self.ambiguous_index_jump_count,
            invalid_gas_index_count: self.invalid_gas_index_count,
            intermediate_field_count: self.intermediate_field_count,
            profile_rollover_count: self.profile_rollover_count,
            fields_after_rollover_count: self.fields_after_rollover_count,
            poll_count: self.poll_count,
        }
    }

    /// Return one step by its fragment-local index.
    ///
    /// # Errors
    ///
    /// Returns [`Error::StepIndexOutOfBounds`] when `local_index` is not
    /// present in this fragment.
    pub fn step(&self, local_index: usize) -> (result: Result<ProfileStep, Error>)
        requires
            self.valid(),
        ensures
            result == (if local_index < self.model().steps.len() {
                Ok(self.model().steps[local_index as int])
            } else {
                Err(Error::StepIndexOutOfBounds)
            }),
    {
        if local_index >= self.steps_in_fragment as usize {
            return Err(Error::StepIndexOutOfBounds);
        }
        proof {
            lemma_window_fault(
                self.model(),
                window_start_of(self.header.fragment_index),
                window_end_of(self.header.fragment_index, self.expected_step_count),
                local_index as int,
            );
        }
        decode_step(self.step_bytes, local_index * PROFILE_STEP_LEN)
    }
}

/// A step of a fragment without a faulty step has no fault.
proof fn lemma_window_fault(model: FragmentModel, from: int, to: int, local: int)
    requires
        window_fault(model.steps, model.summary.missing_steps_bitmap, from, to) is None,
        0 <= local < present_count(model.summary.missing_steps_bitmap, from, to),
    ensures
        step_fault(model.steps[local]) is None,
    decreases to - from,
{
    let missing = model.summary.missing_steps_bitmap;
    if !checks::has_bit(missing, to - 1) && local == present_count(missing, from, to - 1) {
    } else {
        lemma_window_fault(model, from, to - 1, local);
    }
}

pub proof fn lemma_present_count_range(missing: u16, from: int, to: int)
    requires
        from <= to,
    ensures
        0 <= present_count(missing, from, to) <= to - from,
    decreases to - from,
{
    if from < to {
        lemma_present_count_range(missing, from, to - 1);
    }
}

/// How many of the steps from `from` on are present grows with the end.
pub proof fn lemma_present_count_grows(missing: u16, from: int, mid: int, to: int)
    requires
        from <= mid <= to,
    ensures
        present_count(missing, from, mid) <= present_count(missing, from, to),
    decreases to - mid,
{
    if mid < to {
        lemma_present_count_grows(missing, from, mid, to - 1);
    }
}

#[verifier::spinoff_prover]
#[verifier::rlimit(60)]
proof fn lemma_step_layout(prefix: Seq<u8>, step: ProfileStep)
    ensures
        step_bytes_of(step).len() == PROFILE_STEP_LEN,
        wire::kept(prefix, prefix + step_bytes_of(step)),
        step_at(prefix + step_bytes_of(step), prefix.len() as int) == step,
{
    reveal(step_bytes_of);
    let s0 = prefix;
    let s1 = s0 + wire::b8(step.step_index);
    wire::lemma_append8(s0, step.step_index);
    let s2 = s1 + wire::b8(step.gas_index);
    wire::lemma_append8(s1, step.gas_index);
    let s3 = s2 + wire::b8(step.measurement_index);
    wire::lemma_append8(s2, step.measurement_index);
    let s4 = s3 + wire::b8(step.status);
    wire::lemma_append8(s3, step.status);
    let s5 = s4 + wire::b8(step.raw_measurement_status);
    wire::lemma_append8(s4, step.raw_measurement_status);
    let s6 = s5 + wire::b8(step.raw_gas_status);
    wire::lemma_append8(s5, step.raw_gas_status);
    let s7 = s6 + wire::b16(step.target_temperature_celsius);
    wire::lemma_append16(s6, step.target_temperature_celsius);
    let s8 = s7 + wire::b32(step.configured_duration_us);
    wire::lemma_append32(s7, step.configured_duration_us);
    let s9 = s8 + wire::b32(step.offset_us);
    wire::lemma_append32(s8, step.offset_us);
    let s10 = s9 + wire::b16(wire::unsigned16(step.temperature_centi_celsius));
    wire::lemma_append16(s9, wire::unsigned16(step.temperature_centi_celsius));
    let s11 = s10 + wire::b32(step.pressure_pascal);
    wire::lemma_append32(s10, step.pressure_pascal);
    let s12 = s11 + wire::b32(step.humidity_milli_percent_rh);
    wire::lemma_append32(s11, step.humidity_milli_percent_rh);
    let s13 = s12 + wire::b32(step.gas_resistance_ohm);
    wire::lemma_append32(s12, step.gas_resistance_ohm);
    let s14 = s13 + wire::b32(step.temperature_adc);
    wire::lemma_append32(s13, step.temperature_adc);
    let s15 = s14 + wire::b32(step.pressure_adc);
    wire::lemma_append32(s14, step.pressure_adc);
    let s16 = s15 + wire::b16(step.humidity_adc);
    wire::lemma_append16(s15, step.humidity_adc);
    let s17 = s16 + wire::b16(step.gas_resistance_adc);
    wire::lemma_append16(s16, step.gas_resistance_adc);
    let s18 = s17 + wire::b8(step.gas_range);
    wire::lemma_append8(s17, step.gas_range);
    let s19 = s18 + wire::b8(step.repetition_multiplier);
    wire::lemma_append8(s18, step.repetition_multiplier);
    let s20 = s19 + wire::b8(step.heater_resistance);
    wire::lemma_append8(s19, step.heater_resistance);
    let s21 = s20 + wire::b8(step.heater_current);
    wire::lemma_append8(s20, step.heater_current);
    let s22 = s21 + wire::b8(step.gas_wait);
    wire::lemma_append8(s21, step.gas_wait);
    assert(s22 =~= prefix + step_bytes_of(step));
    wire::lemma_kept_by_append(prefix, step_bytes_of(step));
}

proof fn lemma_steps_layout(prefix: Seq<u8>, steps: Seq<ProfileStep>)
    ensures
        steps_bytes_of(steps).len() == 47 * steps.len(),
        wire::kept(prefix, prefix + steps_bytes_of(steps)),
        steps_at(prefix + steps_bytes_of(steps), prefix.len() as int, steps.len() as int) == steps,
    decreases steps.len(),
{
    let after = prefix + steps_bytes_of(steps);
    wire::lemma_kept_by_append(prefix, steps_bytes_of(steps));
    if steps.len() > 0 {
        let rest = steps.drop_last();
        let before = prefix + steps_bytes_of(rest);
        lemma_steps_layout(prefix, rest);
        lemma_step_layout(before, steps.last());
        assert(after =~= before + step_bytes_of(steps.last()));
        assert forall|k: int| 0 <= k < steps.len() implies #[trigger] step_at(
            after,
            prefix.len() + 47 * k,
        ) == steps[k] by {
            if k < rest.len() {
                assert(steps_at(before, prefix.len() as int, rest.len() as int)[k] == step_at(
                    before,
                    prefix.len() + 47 * k,
                ));
                assert(step_at(after, prefix.len() + 47 * k) == step_at(
                    before,
                    prefix.len() + 47 * k,
                ));
            }
        }
    }
    assert(steps_at(after, prefix.len() as int, steps.len() as int) =~= steps);
}

proof fn lemma_step_same(s: Seq<u8>, t: Seq<u8>, at: int)
    requires
        step_at(s, at) == step_at(t, at),
    ensures
        forall|i: int| at <= i < at + 47 ==> #[trigger] s[i] == t[i],
{
    wire::lemma_same16(s, t, at + 6);
    wire::lemma_same32(s, t, at + 8);
    wire::lemma_same32(s, t, at + 12);
    wire::lemma_same16(s, t, at + 16);
    wire::lemma_same32(s, t, at + 18);
    wire::lemma_same32(s, t, at + 22);
    wire::lemma_same32(s, t, at + 26);
    wire::lemma_same32(s, t, at + 30);
    wire::lemma_same32(s, t, at + 34);
    wire::lemma_same16(s, t, at + 38);
    wire::lemma_same16(s, t, at + 40);
}

#[verifier::spinoff_prover]
#[verifier::rlimit(60)]
proof fn lemma_meta_layout(summary: ScanSummary, step_count: u8, window_start: u8, tail: Seq<u8>)
    ensures
        fragment_meta_bytes(summary, step_count, window_start).len() == PROFILE_FRAGMENT_META_LEN,
        ({
            let s = fragment_meta_bytes(summary, step_count, window_start) + tail;
            &&& s[0] == PROFILE_SCHEMA_VERSION
            &&& s[1] == step_count
            &&& s[41] == window_start
            &&& summary_at(s) == summary
        }),
{
    reveal(fragment_meta_bytes);
    let s0 = Seq::<u8>::empty();
    let s1 = s0 + wire::b8(PROFILE_SCHEMA_VERSION);
    wire::lemma_append8(s0, PROFILE_SCHEMA_VERSION);
    let s2 = s1 + wire::b8(step_count);
    wire::lemma_append8(s1, step_count);
    let s3 = s2 + wire::b16(summary.profile_id);
    wire::lemma_append16(s2, summary.profile_id);
    let s4 = s3 + wire::b16(summary.profile_version);
    wire::lemma_append16(s3, summary.profile_version);
    let s5 = s4 + wire::b8(summary.expected_step_count);
    wire::lemma_append8(s4, summary.expected_step_count);
    let s6 = s5 + wire::b8(summary.observed_unique_step_count);
    wire::lemma_append8(s5, summary.observed_unique_step_count);
    let s7 = s6 + wire::b16(summary.observed_field_count);
    wire::lemma_append16(s6, summary.observed_field_count);
    let s8 = s7 + wire::b16(summary.missing_steps_bitmap);
    wire::lemma_append16(s7, summary.missing_steps_bitmap);
    let s9 = s8 + wire::b16(summary.duplicate_steps_bitmap);
    wire::lemma_append16(s8, summary.duplicate_steps_bitmap);
    let s10 = s9 + wire::b32(summary.scan_duration_us);
    wire::lemma_append32(s9, summary.scan_duration_us);
    let s11 = s10 + wire::b32(summary.collection_flags);
    wire::lemma_append32(s10, summary.collection_flags);
    let s12 = s11 + wire::b8(summary.finish_reason);
    wire::lemma_append8(s11, summary.finish_reason);
    let s13 = s12 + wire::b16(summary.duplicate_count);
    wire::lemma_append16(s12, summary.duplicate_count);
    let s14 = s13 + wire::b16(summary.overwritten_field_count);
    wire::lemma_append16(s13, summary.overwritten_field_count);
    let s15 = s14 + wire::b16(summary.out_of_order_count);
    wire::lemma_append16(s14, summary.out_of_order_count);
    let s16 = s15 + wire::b16(summary.ambiguous_index_jump_count);
    wire::lemma_append16(s15, summary.ambiguous_index_jump_count);
    let s17 = s16 + wire::b16(summary.invalid_gas_index_count);
    wire::lemma_append16(s16, summary.invalid_gas_index_count);
    let s18 = s17 + wire::b16(summary.intermediate_field_count);
    wire::lemma_append16(s17, summary.intermediate_field_count);
    let s19 = s18 + wire::b16(summary.profile_rollover_count);
    wire::lemma_append16(s18, summary.profile_rollover_count);
    let s20 = s19 + wire::b16(summary.fields_after_rollover_count);
    wire::lemma_append16(s19, summary.fields_after_rollover_count);
    let s21 = s20 + wire::b16(summary.poll_count);
    wire::lemma_append16(s20, summary.poll_count);
    let s22 = s21 + wire::b8(window_start);
    wire::lemma_append8(s21, window_start);
    assert(s22 == fragment_meta_bytes(summary, step_count, window_start));
    wire::lemma_kept_by_append(s22, tail);
}

proof fn lemma_meta_same(s: Seq<u8>, t: Seq<u8>)
    requires
        s[0] == t[0],
        s[1] == t[1],
        s[41] == t[41],
        summary_at(s) == summary_at(t),
    ensures
        forall|i: int| 0 <= i < PROFILE_FRAGMENT_META_LEN ==> #[trigger] s[i] == t[i],
{
    wire::lemma_same16(s, t, 2);
    wire::lemma_same16(s, t, 4);
    wire::lemma_same16(s, t, 8);
    wire::lemma_same16(s, t, 10);
    wire::lemma_same16(s, t, 12);
    wire::lemma_same32(s, t, 14);
    wire::lemma_same32(s, t, 18);
    wire::lemma_same16(s, t, 23);
    wire::lemma_same16(s, t, 25);
    wire::lemma_same16(s, t, 27);
    wire::lemma_same16(s, t, 29);
    wire::lemma_same16(s, t, 31);
    wire::lemma_same16(s, t, 33);
    wire::lemma_same16(s, t, 35);
    wire::lemma_same16(s, t, 37);
    wire::lemma_same16(s, t, 39);
}

/// A fragment's payload says what the fragment says.
pub proof fn lemma_fragment_layout(model: FragmentModel)
    requires
        model.steps.len() <= 3,
    ensures
        fragment_bytes(model).len() == PROFILE_FRAGMENT_META_LEN + PROFILE_STEP_LEN
            * model.steps.len(),
        fragment_bytes(model)[0] == PROFILE_SCHEMA_VERSION,
        fragment_bytes(model)[1] == model.steps.len(),
        fragment_at(model.header, fragment_bytes(model)) == model,
{
    let count = model.steps.len() as u8;
    let meta = fragment_meta_bytes(model.summary, count, model.step_window_start);
    lemma_meta_layout(
        model.summary,
        count,
        model.step_window_start,
        steps_bytes_of(model.steps),
    );
    lemma_steps_layout(meta, model.steps);
    assert(fragment_at(model.header, fragment_bytes(model)).steps =~= model.steps);
}

/// A payload that decodes is the canonical payload of what it decodes to.
pub proof fn lemma_fragment_canonical(header: Header, payload: Seq<u8>)
    requires
        header.fragment_index < header.fragment_count,
        decoded_fragment(header, payload) is Ok,
    ensures
        payload == fragment_bytes(fragment_at(header, payload)),
        fragment_at(header, payload).steps.len() <= 3,
{
    let model = fragment_at(header, payload);
    let s = fragment_bytes(model);
    lemma_present_count_range(
        model.summary.missing_steps_bitmap,
        window_start_of(header.fragment_index),
        window_end_of(header.fragment_index, model.summary.expected_step_count),
    );
    lemma_fragment_layout(model);
    lemma_meta_same(s, payload);
    assert forall|i: int| PROFILE_FRAGMENT_META_LEN <= i < s.len() implies s[i] == payload[i] by {
        let k = (i - PROFILE_FRAGMENT_META_LEN) / 47;
        assert(fragment_at(header, s).steps[k] == step_at(s, 42 + 47 * k));
        assert(model.steps[k] == step_at(payload, 42 + 47 * k));
        lemma_step_same(s, payload, 42 + 47 * k);
    }
    assert(s =~= payload);
}

/// Rejects a step whose decoded fields contradict its raw bytes.
fn validate_profile_step(step: &ProfileStep) -> (result: Result<(), Error>)
    ensures
        result == checks::verdict(step_fault(*step)),
{
    let raw_known_status: u8 = (step.raw_measurement_status & 0x80) | (step.raw_gas_status & 0x30);
    if step.status & 0xb0 != raw_known_status {
        return Err(Error::InvalidField("step_status_raw"));
    }
    if step.gas_index != step.raw_measurement_status & 0x0f {
        return Err(Error::InvalidField("step_gas_index_raw"));
    }
    if step.gas_range != step.raw_gas_status & 0x0f {
        return Err(Error::InvalidField("step_gas_range_raw"));
    }
    if step.gas_index != step.step_index {
        return Err(Error::InvalidField("step_gas_index"));
    }
    Ok(())
}

/// Rejects a scan without a configuration ID that does not report the mismatch.
fn validate_profile_config_identity(
    common: Common,
    collection_flags: u32,
    finish_reason: u8,
) -> (result: Result<(), Error>)
    ensures
        result == checks::verdict(
            config_identity_fault(common.config_id, collection_flags, finish_reason),
        ),
{
    if common.config_id == 0 && (collection_flags & COLLECTION_FLAG_CONFIG_MISMATCH == 0
        || finish_reason == FINISH_REASON_COMPLETE) {
        return Err(Error::InvalidField("profile_config_id_status"));
    }
    Ok(())
}

/// The number of fragments of a scan.
fn profile_fragment_count(expected_step_count: u8) -> (count: u8)
    requires
        1 <= expected_step_count <= MAX_PROFILE_STEPS,
    ensures
        count == fragment_count_of(expected_step_count),
        1 <= count <= MAX_PROFILE_FRAGMENTS,
{
    (expected_step_count + (STEPS_PER_FRAGMENT_U8 - 1)) / STEPS_PER_FRAGMENT_U8
}

/// Rejects a scan that breaks a rule.
fn validate_profile(scan: &ProfileScan) -> (result: Result<(), Error>)
    ensures
        result == checks::verdict(profile_fault(*scan)),
{
    if scan.profile_id == 0 || scan.profile_version == 0 {
        return Err(Error::InvalidField("profile_identity"));
    }
    if scan.expected_step_count < 1 || scan.expected_step_count > MAX_PROFILE_STEPS_U8 {
        return Err(Error::InvalidField("expected_step_count"));
    }
    ensure_known_u32("collection_flags", scan.collection_flags, COLLECTION_FLAGS_KNOWN)?;
    if scan.finish_reason > FINISH_REASON_PROFILE_ROLLOVER {
        return Err(Error::InvalidField("finish_reason"));
    }
    if scan.collection_flags & COLLECTION_FLAG_STALE_PRE_SCAN_FIELDS != 0
        && scan.intermediate_field_count == 0 {
        return Err(Error::InvalidField("stale_pre_scan_fields"));
    }
    let valid_mask: u16 = step_mask(scan.expected_step_count);
    if scan.missing_steps_bitmap & !valid_mask != 0 || scan.duplicate_steps_bitmap & !valid_mask
        != 0 {
        return Err(Error::InvalidField("step_bitmap"));
    }
    let observed: u8 = scan.expected_step_count - count_bits(
        scan.missing_steps_bitmap,
        scan.expected_step_count,
    );
    if observed != scan.observed_unique_step_count {
        return Err(Error::InvalidField("observed_unique_step_count"));
    }
    if scan.observed_field_count < observed as u16 {
        return Err(Error::InvalidField("observed_field_count"));
    }
    check_slots(scan)
}

/// Rejects a scan whose step slots break a rule.
fn check_slots(scan: &ProfileScan) -> (result: Result<(), Error>)
    ensures
        result == checks::verdict(slots_fault(*scan, MAX_PROFILE_STEPS as int)),
{
    let mut index: usize = 0;
    while index < MAX_PROFILE_STEPS
        invariant
            index <= MAX_PROFILE_STEPS,
            slots_fault(*scan, index as int) is None,
        decreases MAX_PROFILE_STEPS - index,
    {
        let result = check_slot(scan, index);
        if result.is_err() {
            proof {
                lemma_slots_fault_stays(*scan, index + 1, MAX_PROFILE_STEPS as int);
            }
            return result;
        }
        index = index + 1;
    }
    Ok(())
}

/// Rejects a scan whose step slot `index` breaks a rule.
fn check_slot(scan: &ProfileScan, index: usize) -> (result: Result<(), Error>)
    requires
        index < MAX_PROFILE_STEPS,
    ensures
        result == checks::verdict(slot_fault(*scan, index as int)),
{
    let expected_present = index < scan.expected_step_count as usize && !test_bit(
        scan.missing_steps_bitmap,
        index,
    );
    match scan.steps[index] {
        Some(step) => {
            if expected_present && step.step_index as usize == index {
                validate_profile_step(&step)
            } else {
                Err(Error::InvalidField("profile_step_presence"))
            }
        },
        None => {
            if expected_present {
                Err(Error::InvalidField("profile_step_presence"))
            } else {
                Ok(())
            }
        },
    }
}

proof fn lemma_slots_fault_stays(scan: ProfileScan, from: int, to: int)
    requires
        0 <= from <= to,
        slots_fault(scan, from) is Some,
    ensures
        slots_fault(scan, to) == slots_fault(scan, from),
    decreases to,
{
    if from < to {
        lemma_slots_fault_stays(scan, from, to - 1);
    }
}

proof fn lemma_slots_fault(scan: ProfileScan, count: int)
    requires
        slots_fault(scan, count) is None,
    ensures
        forall|i: int| 0 <= i < count ==> #[trigger] slot_fault(scan, i) is None,
    decreases count,
{
    if count > 0 {
        lemma_slots_fault(scan, count - 1);
    }
}

/// A valid scan's window holds as many steps as its missing bitmap says, and
/// none of them has a fault.
proof fn lemma_window_of_scan(scan: ProfileScan, from: int, to: int, end: int)
    requires
        forall|i: int| 0 <= i < MAX_PROFILE_STEPS ==> #[trigger] slot_fault(scan, i) is None,
        0 <= from <= to <= end <= scan.expected_step_count <= MAX_PROFILE_STEPS,
    ensures
        present_steps(scan.steps@, from, to).len() == present_count(
            scan.missing_steps_bitmap,
            from,
            to,
        ),
        to - from >= present_count(scan.missing_steps_bitmap, from, to),
        present_steps(scan.steps@, from, to) == present_steps(scan.steps@, from, end).take(
            present_count(scan.missing_steps_bitmap, from, to),
        ),
        window_fault(
            present_steps(scan.steps@, from, end),
            scan.missing_steps_bitmap,
            from,
            to,
        ) is None,
    decreases to - from,
{
    lemma_present_count_range(scan.missing_steps_bitmap, from, to);
    lemma_present_prefix(scan, from, to, end);
    if from < to {
        lemma_window_of_scan(scan, from, to - 1, end);
        assert(slot_fault(scan, to - 1) is None);
        if !checks::has_bit(scan.missing_steps_bitmap, to - 1) {
            let all = present_steps(scan.steps@, from, end);
            let local = present_count(scan.missing_steps_bitmap, from, to - 1);
            let held = present_steps(scan.steps@, from, to);
            assert(held[local] == scan.steps@[to - 1]->0);
            assert(all.take(local + 1)[local] == all[local]);
        }
    }
}

proof fn lemma_present_prefix(scan: ProfileScan, from: int, to: int, end: int)
    requires
        forall|i: int| 0 <= i < MAX_PROFILE_STEPS ==> #[trigger] slot_fault(scan, i) is None,
        0 <= from <= to <= end <= scan.expected_step_count <= MAX_PROFILE_STEPS,
    ensures
        present_steps(scan.steps@, from, to).len() == present_count(
            scan.missing_steps_bitmap,
            from,
            to,
        ),
        present_count(scan.missing_steps_bitmap, from, to) <= present_steps(
            scan.steps@,
            from,
            end,
        ).len(),
        present_steps(scan.steps@, from, to) == present_steps(scan.steps@, from, end).take(
            present_count(scan.missing_steps_bitmap, from, to),
        ),
    decreases end - from, end - to,
{
    if to < end {
        assert(slot_fault(scan, to) is None);
        lemma_present_prefix(scan, from, to + 1, end);
        assert(present_steps(scan.steps@, from, to) =~= present_steps(scan.steps@, from, to + 1).take(
            present_count(scan.missing_steps_bitmap, from, to),
        ));
    } else {
        if from < to {
            assert(slot_fault(scan, to - 1) is None);
            lemma_present_prefix(scan, from, to - 1, to - 1);
        }
        assert(present_steps(scan.steps@, from, end).take(
            present_steps(scan.steps@, from, end).len() as int,
        ) =~= present_steps(scan.steps@, from, end));
    }
}

/// Reads and checks the step at `at`.
fn decode_step(bytes: &[u8], at: usize) -> (result: Result<ProfileStep, Error>)
    requires
        at + PROFILE_STEP_LEN <= bytes@.len(),
    ensures
        result == (match step_fault(step_at(bytes@, at as int)) {
            Some(error) => Err(error),
            None => Ok(step_at(bytes@, at as int)),
        }),
{
    assert(bytes.len() == bytes@.len());
    let step = ProfileStep {
        step_index: bytes[at],
        gas_index: bytes[at + 1],
        measurement_index: bytes[at + 2],
        status: bytes[at + 3],
        raw_measurement_status: bytes[at + 4],
        raw_gas_status: bytes[at + 5],
        target_temperature_celsius: read_u16(bytes, at + 6),
        configured_duration_us: read_u32(bytes, at + 8),
        offset_us: read_u32(bytes, at + 12),
        temperature_centi_celsius: read_i16(bytes, at + 16),
        pressure_pascal: read_u32(bytes, at + 18),
        humidity_milli_percent_rh: read_u32(bytes, at + 22),
        gas_resistance_ohm: read_u32(bytes, at + 26),
        temperature_adc: read_u32(bytes, at + 30),
        pressure_adc: read_u32(bytes, at + 34),
        humidity_adc: read_u16(bytes, at + 38),
        gas_resistance_adc: read_u16(bytes, at + 40),
        gas_range: bytes[at + 42],
        repetition_multiplier: bytes[at + 43],
        heater_resistance: bytes[at + 44],
        heater_current: bytes[at + 45],
        gas_wait: bytes[at + 46],
    };
    validate_profile_step(&step)?;
    Ok(step)
}

/// Writes one profile step.
fn write_step(step: &ProfileStep) -> (writer: EncodedFrame)
    ensures
        writer@ == step_bytes_of(*step),
        writer@.len() == PROFILE_STEP_LEN,
{
    reveal(step_bytes_of);
    let mut writer = EncodedFrame::empty();
    writer.u8(step.step_index);
    writer.u8(step.gas_index);
    writer.u8(step.measurement_index);
    writer.u8(step.status);
    writer.u8(step.raw_measurement_status);
    writer.u8(step.raw_gas_status);
    writer.u16(step.target_temperature_celsius);
    writer.u32(step.configured_duration_us);
    writer.u32(step.offset_us);
    writer.i16(step.temperature_centi_celsius);
    writer.u32(step.pressure_pascal);
    writer.u32(step.humidity_milli_percent_rh);
    writer.u32(step.gas_resistance_ohm);
    writer.u32(step.temperature_adc);
    writer.u32(step.pressure_adc);
    writer.u16(step.humidity_adc);
    writer.u16(step.gas_resistance_adc);
    writer.u8(step.gas_range);
    writer.u8(step.repetition_multiplier);
    writer.u8(step.heater_resistance);
    writer.u8(step.heater_current);
    writer.u8(step.gas_wait);
    writer
}

/// Writes a fragment without its steps.
fn write_fragment_meta(summary: &ScanSummary, step_count: u8, window_start: u8) -> (writer:
    EncodedFrame)
    ensures
        writer@ == fragment_meta_bytes(*summary, step_count, window_start),
        writer@.len() == PROFILE_FRAGMENT_META_LEN,
{
    reveal(fragment_meta_bytes);
    let mut writer = EncodedFrame::empty();
    writer.u8(PROFILE_SCHEMA_VERSION);
    writer.u8(step_count);
    writer.u16(summary.profile_id);
    writer.u16(summary.profile_version);
    writer.u8(summary.expected_step_count);
    writer.u8(summary.observed_unique_step_count);
    writer.u16(summary.observed_field_count);
    writer.u16(summary.missing_steps_bitmap);
    writer.u16(summary.duplicate_steps_bitmap);
    writer.u32(summary.scan_duration_us);
    writer.u32(summary.collection_flags);
    writer.u8(summary.finish_reason);
    writer.u16(summary.duplicate_count);
    writer.u16(summary.overwritten_field_count);
    writer.u16(summary.out_of_order_count);
    writer.u16(summary.ambiguous_index_jump_count);
    writer.u16(summary.invalid_gas_index_count);
    writer.u16(summary.intermediate_field_count);
    writer.u16(summary.profile_rollover_count);
    writer.u16(summary.fields_after_rollover_count);
    writer.u16(summary.poll_count);
    writer.u8(window_start);
    writer
}

/// One behind the last step of a fragment's window.
fn window_end(fragment_index: u8, expected_step_count: u8) -> (end: usize)
    ensures
        end == window_end_of(fragment_index, expected_step_count),
{
    let end: usize = fragment_index as usize * STEPS_PER_FRAGMENT + STEPS_PER_FRAGMENT;
    if end <= expected_step_count as usize {
        end
    } else {
        expected_step_count as usize
    }
}

/// Counts the steps `from..to` that a scan holds.
fn count_present(scan: &ProfileScan, from: usize, to: usize) -> (count: usize)
    requires
        from <= to <= MAX_PROFILE_STEPS,
    ensures
        count == present_steps(scan.steps@, from as int, to as int).len(),
        count <= to - from,
{
    let mut count: usize = 0;
    let mut index: usize = from;
    while index < to
        invariant
            from <= index <= to <= MAX_PROFILE_STEPS,
            count == present_steps(scan.steps@, from as int, index as int).len(),
            count <= index - from,
        decreases to - index,
    {
        if scan.steps[index].is_some() {
            count = count + 1;
        }
        index = index + 1;
    }
    count
}

impl ProfileScan {
    /// What every fragment of this scan repeats.
    fn repeated_summary(&self) -> (summary: ScanSummary)
        ensures
            summary == self.summary(),
    {
        ScanSummary {
            profile_id: self.profile_id,
            profile_version: self.profile_version,
            expected_step_count: self.expected_step_count,
            observed_unique_step_count: self.observed_unique_step_count,
            observed_field_count: self.observed_field_count,
            missing_steps_bitmap: self.missing_steps_bitmap,
            duplicate_steps_bitmap: self.duplicate_steps_bitmap,
            scan_duration_us: self.scan_duration_us,
            collection_flags: self.collection_flags,
            finish_reason: self.finish_reason,
            duplicate_count: self.duplicate_count,
            overwritten_field_count: self.overwritten_field_count,
            out_of_order_count: self.out_of_order_count,
            ambiguous_index_jump_count: self.ambiguous_index_jump_count,
            invalid_gas_index_count: self.invalid_gas_index_count,
            intermediate_field_count: self.intermediate_field_count,
            profile_rollover_count: self.profile_rollover_count,
            fields_after_rollover_count: self.fields_after_rollover_count,
            poll_count: self.poll_count,
        }
    }
}

/// Encodes one fragment of a valid scan.
fn encode_fragment(common: Common, scan: &ProfileScan, fragment_index: u8) -> (result: Result<
    EncodedFrame,
    Error,
>)
    requires
        1 <= scan.expected_step_count <= MAX_PROFILE_STEPS,
        fragment_index < fragment_count_of(scan.expected_step_count),
    ensures
        match header::common_fault(common) {
            Some(error) => result == Err::<EncodedFrame, Error>(error),
            None => result is Ok && result->Ok_0@ == fragment_frame(
                fragment_of(common, *scan, fragment_index),
            ),
        },
{
    let fragment_count: u8 = profile_fragment_count(scan.expected_step_count);
    let start: usize = fragment_index as usize * STEPS_PER_FRAGMENT;
    let end: usize = window_end(fragment_index, scan.expected_step_count);
    let step_count: usize = count_present(scan, start, end);
    let payload_len: usize = PROFILE_FRAGMENT_META_LEN + step_count * PROFILE_STEP_LEN;
    let mut frame = encode_header(
        FrameType::ProfileFragment,
        common,
        fragment_index,
        fragment_count,
        payload_len as u16,
    )?;
    let ghost model = fragment_of(common, *scan, fragment_index);
    let summary = scan.repeated_summary();
    let mut payload = write_fragment_meta(&summary, step_count as u8, start as u8);
    let ghost meta = payload@;
    let mut index: usize = start;
    assert(payload@ =~= meta + steps_bytes_of(present_steps(scan.steps@, start as int, start as int)));
    while index < end
        invariant
            start <= index <= end <= MAX_PROFILE_STEPS,
            end - start <= STEPS_PER_FRAGMENT,
            meta.len() == PROFILE_FRAGMENT_META_LEN,
            payload@ == meta + steps_bytes_of(
                present_steps(scan.steps@, start as int, index as int),
            ),
            payload@.len() <= PROFILE_FRAGMENT_META_LEN + PROFILE_STEP_LEN * (index - start),
        decreases end - index,
    {
        let ghost held = present_steps(scan.steps@, start as int, index as int);
        if let Some(step) = scan.steps[index] {
            payload.append(&write_step(&step));
            assert(held.push(step).drop_last() =~= held);
            assert(payload@ =~= meta + steps_bytes_of(held.push(step)));
        }
        index = index + 1;
    }
    proof {
        header::lemma_header_layout(model.header, payload@);
    }
    frame.append(&payload);
    Ok(frame)
}

/// Four fixed slots are enough for a 10-step scan at three steps per frame.
#[derive(Clone, Copy, Debug, Eq, PartialEq)]
pub struct EncodedProfile {
    frames: [EncodedFrame; MAX_PROFILE_FRAGMENTS],
    count: u8,
}

impl View for EncodedProfile {
    type V = Seq<Seq<u8>>;

    closed spec fn view(&self) -> Seq<Seq<u8>> {
        Seq::new(self.count as nat, |i: int| self.frames[i]@)
    }
}

impl EncodedProfile {
    #[verifier::type_invariant]
    spec fn well_formed(self) -> bool {
        self.count <= MAX_PROFILE_FRAGMENTS
    }

    /// The frames of the scan, in fragment order.
    #[must_use]
    pub fn frames(&self) -> (frames: &[EncodedFrame])
        ensures
            frames@.len() == self@.len(),
            forall|i: int| 0 <= i < frames@.len() ==> #[trigger] frames@[i]@ == self@[i],
    {
        proof {
            use_type_invariant(self);
        }
        &self.frames[0..self.count as usize]
    }
}

/// Encode all deterministic fragments for a logical profile. Logical steps
/// 0..2 always belong to fragment 0, 3..5 to fragment 1, 6..8 to fragment 2,
/// and 9 to fragment 3. Missing readings therefore cannot shift later
/// readings between packets.
///
/// # Errors
///
/// Returns an [`Error`] when scan metadata and fixed step slots disagree, a
/// bitmap references an impossible step, or the common header is invalid.
pub fn encode_profile(common: Common, scan: &ProfileScan) -> (result: Result<EncodedProfile, Error>)
    ensures
        match encode_profile_fault(common, *scan) {
            Some(error) => result == Err::<EncodedProfile, Error>(error),
            None => {
                &&& result is Ok
                &&& result->Ok_0@.len() == fragment_count_of(scan.expected_step_count)
                &&& forall|i: int|
                    0 <= i < fragment_count_of(scan.expected_step_count)
                        ==> #[trigger] result->Ok_0@[i] == fragment_frame(
                        fragment_of(common, *scan, i as u8),
                    )
            },
        },
{
    validate_profile(scan)?;
    validate_profile_config_identity(common, scan.collection_flags, scan.finish_reason)?;
    let count: u8 = profile_fragment_count(scan.expected_step_count);
    let mut frames: [EncodedFrame; MAX_PROFILE_FRAGMENTS] = [
        EncodedFrame::empty();
        MAX_PROFILE_FRAGMENTS
    ];
    let mut index: u8 = 0;
    while index < count
        invariant
            index <= count <= MAX_PROFILE_FRAGMENTS,
            count == fragment_count_of(scan.expected_step_count),
            1 <= scan.expected_step_count <= MAX_PROFILE_STEPS,
            profile_fault(*scan) is None,
            config_identity_fault(common.config_id, scan.collection_flags, scan.finish_reason)
                is None,
            index > 0 ==> header::common_fault(common) is None,
            forall|i: int|
                0 <= i < index ==> #[trigger] frames[i]@ == fragment_frame(
                    fragment_of(common, *scan, i as u8),
                ),
        decreases count - index,
    {
        frames[index as usize] = encode_fragment(common, scan, index)?;
        index = index + 1;
    }
    Ok(EncodedProfile { frames, count })
}

/// Decodes and checks the payload of a profile fragment.
pub(crate) fn decode_profile_fragment<'a>(header: Header, payload: &'a [u8]) -> (result: Result<
    ProfileFragmentView<'a>,
    Error,
>)
    requires
        header.fragment_index < header.fragment_count,
    ensures
        match decoded_fragment(header, payload@) {
            Ok(model) => result is Ok && result->Ok_0.model() == model && result->Ok_0.valid(),
            Err(error) => result == Err::<ProfileFragmentView<'a>, Error>(error),
        },
{
    check_fragment_meta(header, payload)?;
    check_fragment_steps(header, payload)?;
    let summary = read_summary(payload);
    let step_bytes = &payload[PROFILE_FRAGMENT_META_LEN..payload.len()];
    let view = ProfileFragmentView {
        header,
        profile_id: summary.profile_id,
        profile_version: summary.profile_version,
        expected_step_count: summary.expected_step_count,
        observed_unique_step_count: summary.observed_unique_step_count,
        observed_field_count: summary.observed_field_count,
        missing_steps_bitmap: summary.missing_steps_bitmap,
        duplicate_steps_bitmap: summary.duplicate_steps_bitmap,
        scan_duration_us: summary.scan_duration_us,
        collection_flags: summary.collection_flags,
        finish_reason: summary.finish_reason,
        duplicate_count: summary.duplicate_count,
        overwritten_field_count: summary.overwritten_field_count,
        out_of_order_count: summary.out_of_order_count,
        ambiguous_index_jump_count: summary.ambiguous_index_jump_count,
        invalid_gas_index_count: summary.invalid_gas_index_count,
        intermediate_field_count: summary.intermediate_field_count,
        profile_rollover_count: summary.profile_rollover_count,
        fields_after_rollover_count: summary.fields_after_rollover_count,
        poll_count: summary.poll_count,
        step_window_start: payload[41],
        steps_in_fragment: payload[1],
        step_bytes,
    };
    proof {
        wire::lemma_subrange(payload@, PROFILE_FRAGMENT_META_LEN as int, payload@.len() as int);
        assert forall|k: int| 0 <= k < payload@[1] implies #[trigger] step_at(step_bytes@, 47 * k)
            == step_at(payload@, 42 + 47 * k) by {}
        assert(view.model().steps =~= fragment_at(header, payload@).steps);
        assert(view.model() =~= fragment_at(header, payload@));
    }
    Ok(view)
}

/// Reads what every fragment of a scan repeats.
fn read_summary(payload: &[u8]) -> (summary: ScanSummary)
    requires
        payload@.len() >= PROFILE_FRAGMENT_META_LEN,
    ensures
        summary == summary_at(payload@),
{
    ScanSummary {
        profile_id: read_u16(payload, 2),
        profile_version: read_u16(payload, 4),
        expected_step_count: payload[6],
        observed_unique_step_count: payload[7],
        observed_field_count: read_u16(payload, 8),
        missing_steps_bitmap: read_u16(payload, 10),
        duplicate_steps_bitmap: read_u16(payload, 12),
        scan_duration_us: read_u32(payload, 14),
        collection_flags: read_u32(payload, 18),
        finish_reason: payload[22],
        duplicate_count: read_u16(payload, 23),
        overwritten_field_count: read_u16(payload, 25),
        out_of_order_count: read_u16(payload, 27),
        ambiguous_index_jump_count: read_u16(payload, 29),
        invalid_gas_index_count: read_u16(payload, 31),
        intermediate_field_count: read_u16(payload, 33),
        profile_rollover_count: read_u16(payload, 35),
        fields_after_rollover_count: read_u16(payload, 37),
        poll_count: read_u16(payload, 39),
    }
}

/// Checks the metadata of a fragment's payload.
fn check_fragment_meta(header: Header, payload: &[u8]) -> (result: Result<(), Error>)
    requires
        header.fragment_index < header.fragment_count,
    ensures
        result == checks::verdict(fragment_meta_fault(header, payload@)),
{
    if payload.len() < PROFILE_FRAGMENT_META_LEN {
        return Err(
            Error::WrongLength { expected: PROFILE_FRAGMENT_META_LEN, actual: payload.len() },
        );
    }
    if payload[0] != PROFILE_SCHEMA_VERSION {
        return Err(Error::InvalidField("profile_schema_version"));
    }
    let summary = read_summary(payload);
    let expected_step_count: u8 = summary.expected_step_count;
    if expected_step_count < 1 || expected_step_count > MAX_PROFILE_STEPS_U8 {
        return Err(Error::InvalidField("expected_step_count"));
    }
    ensure_known_u32("collection_flags", summary.collection_flags, COLLECTION_FLAGS_KNOWN)?;
    if summary.profile_id == 0 || summary.profile_version == 0 {
        return Err(Error::InvalidField("profile_identity"));
    }
    validate_profile_config_identity(
        header.common,
        summary.collection_flags,
        summary.finish_reason,
    )?;
    if summary.finish_reason > FINISH_REASON_PROFILE_ROLLOVER {
        return Err(Error::InvalidField("finish_reason"));
    }
    if summary.collection_flags & COLLECTION_FLAG_STALE_PRE_SCAN_FIELDS != 0
        && summary.intermediate_field_count == 0 {
        return Err(Error::InvalidField("stale_pre_scan_fields"));
    }
    if header.fragment_count != profile_fragment_count(expected_step_count) {
        return Err(Error::InvalidFragmentCount(header.fragment_count));
    }
    let window_start: usize = header.fragment_index as usize * STEPS_PER_FRAGMENT;
    if payload[41] as usize != window_start {
        return Err(Error::InvalidField("step_window_start"));
    }
    let valid_mask: u16 = step_mask(expected_step_count);
    if summary.missing_steps_bitmap & !valid_mask != 0 || summary.duplicate_steps_bitmap
        & !valid_mask != 0 {
        return Err(Error::InvalidField("step_bitmap"));
    }
    let observed: u8 = expected_step_count - count_bits(
        summary.missing_steps_bitmap,
        expected_step_count,
    );
    if summary.observed_unique_step_count != observed || summary.observed_field_count
        < observed as u16 {
        return Err(Error::InvalidField("observed_counts"));
    }
    let required_steps: u8 = count_window(
        summary.missing_steps_bitmap,
        window_start,
        window_end(header.fragment_index, expected_step_count),
    );
    if payload[1] != required_steps {
        return Err(Error::InvalidField("steps_in_fragment"));
    }
    let expected_len: usize = PROFILE_FRAGMENT_META_LEN + payload[1] as usize * PROFILE_STEP_LEN;
    if payload.len() != expected_len {
        return Err(Error::WrongLength { expected: expected_len, actual: payload.len() });
    }
    Ok(())
}

/// Counts the steps `from..to` that a missing bitmap leaves.
fn count_window(missing: u16, from: usize, to: usize) -> (count: u8)
    requires
        from <= to <= MAX_PROFILE_STEPS,
    ensures
        count == present_count(missing, from as int, to as int),
        count <= to - from,
{
    let mut count: u8 = 0;
    let mut index: usize = from;
    while index < to
        invariant
            from <= index <= to <= MAX_PROFILE_STEPS,
            count == present_count(missing, from as int, index as int),
            count <= index - from,
        decreases to - index,
    {
        if !test_bit(missing, index) {
            count = count + 1;
        }
        index = index + 1;
    }
    count
}

/// Checks the steps of a payload whose metadata breaks no rule.
fn check_fragment_steps(header: Header, payload: &[u8]) -> (result: Result<(), Error>)
    requires
        header.fragment_index < header.fragment_count,
        fragment_meta_fault(header, payload@) is None,
    ensures
        result == checks::verdict(fragment_steps_fault(fragment_at(header, payload@))),
{
    let missing: u16 = read_u16(payload, 10);
    let from: usize = header.fragment_index as usize * STEPS_PER_FRAGMENT;
    let to: usize = window_end(header.fragment_index, payload[6]);
    let ghost steps = fragment_at(header, payload@).steps;
    let mut local: usize = 0;
    let mut index: usize = from;
    while index < to
        invariant
            from <= index <= to <= MAX_PROFILE_STEPS,
            steps == steps_at(payload@, 42, payload@[1] as int),
            steps == fragment_at(header, payload@).steps,
            missing == summary_at(payload@).missing_steps_bitmap,
            from == window_start_of(header.fragment_index),
            to == window_end_of(
                header.fragment_index,
                summary_at(payload@).expected_step_count,
            ),
            payload@.len() == PROFILE_FRAGMENT_META_LEN + PROFILE_STEP_LEN * payload@[1],
            payload@[1] == present_count(missing, from as int, to as int),
            local == present_count(missing, from as int, index as int),
            local <= index - from,
            window_fault(steps, missing, from as int, index as int) is None,
        decreases to - index,
    {
        if !test_bit(missing, index) {
            proof {
                lemma_present_count_grows(missing, from as int, index + 1, to as int);
            }
            let checked = match decode_step(
                payload,
                PROFILE_FRAGMENT_META_LEN + local * PROFILE_STEP_LEN,
            ) {
                Err(error) => Err(error),
                Ok(step) => if step.step_index as usize != index {
                    Err(Error::InvalidField("step_index"))
                } else {
                    Ok(())
                },
            };
            assert(steps[local as int] == step_at(payload@, 42 + 47 * local));
            assert(checked == checks::verdict(
                placed_step_fault(steps[local as int], index as int),
            ));
            if checked.is_err() {
                proof {
                    lemma_window_fault_stays(
                        steps,
                        missing,
                        from as int,
                        index + 1,
                        to as int,
                    );
                }
                return checked;
            }
            local = local + 1;
        }
        index = index + 1;
    }
    Ok(())
}

proof fn lemma_window_fault_stays(
    steps: Seq<ProfileStep>,
    missing: u16,
    from: int,
    mid: int,
    to: int,
)
    requires
        from <= mid <= to,
        window_fault(steps, missing, from, mid) is Some,
    ensures
        window_fault(steps, missing, from, to) == window_fault(steps, missing, from, mid),
    decreases to - mid,
{
    if mid < to {
        lemma_window_fault_stays(steps, missing, from, mid, to - 1);
    }
}

/// A valid scan's window holds as many steps as its missing bitmap says, and
/// none of them has a fault.
pub proof fn lemma_window_of_valid_scan(scan: ProfileScan, from: int, to: int)
    requires
        profile_fault(scan) is None,
        0 <= from <= to <= scan.expected_step_count,
    ensures
        present_steps(scan.steps@, from, to).len() == present_count(
            scan.missing_steps_bitmap,
            from,
            to,
        ),
        window_fault(
            present_steps(scan.steps@, from, to),
            scan.missing_steps_bitmap,
            from,
            to,
        ) is None,
{
    lemma_slots_fault(scan, MAX_PROFILE_STEPS as int);
    lemma_window_of_scan(scan, from, to, to);
}

/// A step that a slot of the window holds is among the window's steps.
pub proof fn lemma_present_step_is_held(
    slots: Seq<Option<ProfileStep>>,
    from: int,
    index: int,
    to: int,
)
    requires
        from <= index < to,
        slots[index] is Some,
    ensures
        present_steps(slots, from, to).contains(slots[index]->0),
    decreases to - from,
{
    let before = present_steps(slots, from, to - 1);
    if index == to - 1 {
        assert(present_steps(slots, from, to)[before.len() as int] == slots[index]->0);
    } else {
        lemma_present_step_is_held(slots, from, index, to - 1);
        let k = choose|k: int| 0 <= k < before.len() && before[k] == slots[index]->0;
        assert(present_steps(slots, from, to)[k] == slots[index]->0);
    }
}

/// Every step among a window's steps has its index in the window.
pub proof fn lemma_held_steps_are_in_window(scan: ProfileScan, from: int, to: int, local: int)
    requires
        profile_fault(scan) is None,
        0 <= from <= to <= scan.expected_step_count,
        0 <= local < present_steps(scan.steps@, from, to).len(),
    ensures
        from <= present_steps(scan.steps@, from, to)[local].step_index < to,
    decreases to - from,
{
    lemma_slots_fault(scan, MAX_PROFILE_STEPS as int);
    assert(slot_fault(scan, to - 1) is None);
    if local < present_steps(scan.steps@, from, to - 1).len() {
        lemma_held_steps_are_in_window(scan, from, to - 1, local);
    }
}

/// A slot of a valid scan holds the step of its own index, and none where the scan
/// reports it missing.
pub proof fn lemma_valid_slot(scan: ProfileScan, index: int)
    requires
        profile_fault(scan) is None,
        0 <= index < scan.expected_step_count,
    ensures
        scan.steps[index] is None <==> checks::has_bit(scan.missing_steps_bitmap, index),
        scan.steps[index] matches Some(step) ==> step.step_index == index,
{
    lemma_slots_fault(scan, MAX_PROFILE_STEPS as int);
    assert(slot_fault(scan, index) is None);
}

/// Every step among a window's steps is the one in the slot of its index.
pub proof fn lemma_held_step_has_its_slot(scan: ProfileScan, from: int, to: int, local: int)
    requires
        profile_fault(scan) is None,
        0 <= from <= to <= scan.expected_step_count,
        0 <= local < present_steps(scan.steps@, from, to).len(),
    ensures
        ({
            let step = present_steps(scan.steps@, from, to)[local];
            scan.steps[step.step_index as int] == Some(step)
        }),
    decreases to - from,
{
    if from < to {
        lemma_valid_slot(scan, to - 1);
        if local < present_steps(scan.steps@, from, to - 1).len() {
            lemma_held_step_has_its_slot(scan, from, to - 1, local);
        }
    }
}

/// The steps of the first `count` fragments of a scan, put together in order.
pub open spec fn joined_steps(common: Common, scan: ProfileScan, count: int) -> Seq<ProfileStep>
    decreases count,
{
    if count <= 0 {
        Seq::empty()
    } else {
        joined_steps(common, scan, count - 1) + fragment_of(common, scan, (count - 1) as u8).steps
    }
}

proof fn lemma_present_steps_split(
    slots: Seq<Option<ProfileStep>>,
    from: int,
    mid: int,
    to: int,
)
    requires
        from <= mid <= to,
    ensures
        present_steps(slots, from, to) == present_steps(slots, from, mid) + present_steps(
            slots,
            mid,
            to,
        ),
    decreases to - mid,
{
    if mid < to {
        lemma_present_steps_split(slots, from, mid, to - 1);
    }
    assert(present_steps(slots, from, to) =~= present_steps(slots, from, mid) + present_steps(
        slots,
        mid,
        to,
    ));
}

/// The first `count` fragments hold the steps up to the end of the last one's window.
pub proof fn lemma_joined_steps(common: Common, scan: ProfileScan, count: int)
    requires
        1 <= scan.expected_step_count <= MAX_PROFILE_STEPS,
        0 <= count <= fragment_count_of(scan.expected_step_count),
    ensures
        joined_steps(common, scan, count) == present_steps(
            scan.steps@,
            0,
            if 3 * count <= scan.expected_step_count {
                3 * count
            } else {
                scan.expected_step_count as int
            },
        ),
    decreases count,
{
    if count > 0 {
        lemma_joined_steps(common, scan, count - 1);
        lemma_present_steps_split(
            scan.steps@,
            0,
            window_start_of((count - 1) as u8),
            window_end_of((count - 1) as u8, scan.expected_step_count),
        );
    }
}

} // verus!
