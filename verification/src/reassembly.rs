//! Deterministic protocol-v2 profile-fragment reassembly.

pub mod laws;
pub mod model;
pub mod outcomes;

use std::time::Instant;

use vstd::prelude::*;
use vstd::string::StringExecFns;

use crate::convert;
use crate::convert::{fragment_steps, record_identity};
use crate::records::{ProfileScan, ProfileStep};
use crate::text;
use crate::text::two_numbers;
use crate::v2::checks::{step_mask, with_bit};
use crate::v2::message;
use crate::v2::profile::ProfileFragmentView;
use crate::v2::types::Error;

pub use crate::reassembly::model::{
    profile_key, ActiveModel, CompletedModel, EventModel, IngestModel, ProfileKey,
    ProfileMetadata, ReassemblerModel, ReassemblyProgress, SourceFragment,
};

verus! {

/// Default number of incomplete scans retained concurrently.
pub const DEFAULT_MAX_ACTIVE_SCANS: usize = 128;

/// `std::time::Instant`, carried through and never looked into.
#[verifier::external_type_specification]
#[verifier::external_body]
pub struct ExInstant(std::time::Instant);

/// `std::time::Instant::now`. Nothing is claimed of the instant that it returns.
pub assume_specification[ std::time::Instant::now ]() -> std::time::Instant;

/// `std::time::Instant::elapsed`. Nothing is claimed of the time that has passed.
pub assume_specification[ std::time::Instant::elapsed ](
    instant: &std::time::Instant,
) -> std::time::Duration;

/// `std::time::Duration::as_nanos`. Nothing is claimed of the number, since
/// nothing is known of the duration that it is taken of.
pub assume_specification[ std::time::Duration::as_nanos ](
    duration: &std::time::Duration,
) -> u128;

/// Complete or explicitly incomplete logical profile plus packet provenance.
#[derive(Clone, Debug, Eq, PartialEq)]
pub struct ReassembledProfile {
    pub scan: ProfileScan,
    pub fragments: Vec<SourceFragment>,
}

/// The least number, if there is one.
pub open spec fn least(times: Seq<SourceFragment>) -> Option<i64>
    decreases times.len(),
{
    if times.len() == 0 {
        None
    } else {
        match least(times.drop_last()) {
            Some(time) if time <= times.last().received_at_unix_ms => Some(time),
            _ => Some(times.last().received_at_unix_ms),
        }
    }
}

/// The greatest number, if there is one.
pub open spec fn greatest(times: Seq<SourceFragment>) -> Option<i64>
    decreases times.len(),
{
    if times.len() == 0 {
        None
    } else {
        match greatest(times.drop_last()) {
            Some(time) if time > times.last().received_at_unix_ms => Some(time),
            _ => Some(times.last().received_at_unix_ms),
        }
    }
}

impl ReassembledProfile {
    /// Whether this profile says what is known of a scan.
    pub open spec fn reports(self, scan: ActiveModel) -> bool {
        &&& self.fragments@ == scan.sources
        &&& self.scan.steps@ == model::joined_fragments(
            scan.fragments,
            scan.fragments.len() as int,
        )
        &&& self.scan == (ProfileScan {
            identity: scan.metadata.identity,
            profile_id: scan.metadata.summary.profile_id,
            profile_version: scan.metadata.summary.profile_version,
            expected_steps: scan.metadata.summary.expected_step_count,
            observed_unique_steps: scan.metadata.summary.observed_unique_step_count,
            observed_field_count: scan.metadata.summary.observed_field_count,
            reported_missing_steps: scan.metadata.summary.missing_steps_bitmap,
            duplicate_steps: scan.metadata.summary.duplicate_steps_bitmap,
            duration_us: scan.metadata.summary.scan_duration_us,
            collection_flags: scan.metadata.summary.collection_flags,
            finish_reason: scan.metadata.summary.finish_reason,
            duplicate_count: scan.metadata.summary.duplicate_count,
            overwritten_field_count: scan.metadata.summary.overwritten_field_count,
            out_of_order_count: scan.metadata.summary.out_of_order_count,
            ambiguous_index_jump_count: scan.metadata.summary.ambiguous_index_jump_count,
            invalid_gas_index_count: scan.metadata.summary.invalid_gas_index_count,
            intermediate_field_count: scan.metadata.summary.intermediate_field_count,
            profile_rollover_count: scan.metadata.summary.profile_rollover_count,
            fields_after_rollover_count: scan.metadata.summary.fields_after_rollover_count,
            poll_count: scan.metadata.summary.poll_count,
            expected_fragment_count: scan.metadata.expected_fragment_count,
            received_fragment_bitmap: scan.received_fragment_bitmap,
            duplicate_fragment_count: scan.duplicate_fragment_count,
            conflicting_fragment_count: scan.conflicting_fragment_count,
            steps: self.scan.steps,
        })
    }

    /// When the first fragment was received.
    #[must_use]
    pub fn first_received_at_unix_ms(&self) -> (time: Option<i64>)
        ensures
            time == least(self.fragments@),
    {
        let mut time: Option<i64> = None;
        let mut index: usize = 0;
        assert(self.fragments@.take(0) =~= Seq::empty());
        while index < self.fragments.len()
            invariant
                index <= self.fragments@.len(),
                time == least(self.fragments@.take(index as int)),
            decreases self.fragments@.len() - index,
        {
            assert(self.fragments@.take(index + 1).drop_last() =~= self.fragments@.take(
                index as int,
            ));
            let found: i64 = self.fragments[index].received_at_unix_ms;
            time = match time {
                Some(known) if known <= found => Some(known),
                _ => Some(found),
            };
            index = index + 1;
        }
        assert(self.fragments@.take(self.fragments@.len() as int) =~= self.fragments@);
        time
    }

    /// When the last fragment was received.
    #[must_use]
    pub fn last_received_at_unix_ms(&self) -> (time: Option<i64>)
        ensures
            time == greatest(self.fragments@),
    {
        let mut time: Option<i64> = None;
        let mut index: usize = 0;
        assert(self.fragments@.take(0) =~= Seq::empty());
        while index < self.fragments.len()
            invariant
                index <= self.fragments@.len(),
                time == greatest(self.fragments@.take(index as int)),
            decreases self.fragments@.len() - index,
        {
            assert(self.fragments@.take(index + 1).drop_last() =~= self.fragments@.take(
                index as int,
            ));
            let found: i64 = self.fragments[index].received_at_unix_ms;
            time = match time {
                Some(known) if known > found => Some(known),
                _ => Some(found),
            };
            index = index + 1;
        }
        assert(self.fragments@.take(self.fragments@.len() as int) =~= self.fragments@);
        time
    }
}

/// Receiver-side result of ingesting one valid profile fragment.
#[derive(Clone, Debug, Eq, PartialEq)]
pub enum FragmentEvent {
    Pending(ReassemblyProgress),
    Complete(ReassembledProfile),
    Duplicate { key: ProfileKey, fragment_index: u8 },
    Conflict { key: ProfileKey, fragment_index: u8 },
}

impl FragmentEvent {
    /// Whether this event is what came of a fragment.
    pub open spec fn reports(self, event: EventModel) -> bool {
        match (self, event) {
            (FragmentEvent::Pending(progress), EventModel::Pending(expected)) => progress
                == expected,
            (FragmentEvent::Complete(profile), EventModel::Complete(scan)) => profile.reports(scan),
            (
                FragmentEvent::Duplicate { key, fragment_index },
                EventModel::Duplicate { key: expected_key, fragment_index: expected_index },
            ) => key == expected_key && fragment_index == expected_index,
            (
                FragmentEvent::Conflict { key, fragment_index },
                EventModel::Conflict { key: expected_key, fragment_index: expected_index },
            ) => key == expected_key && fragment_index == expected_index,
            _ => false,
        }
    }
}

/// One ingest result, with an incomplete scan evicted to enforce bounds.
#[derive(Clone, Debug, Eq, PartialEq)]
pub struct IngestResult {
    pub event: FragmentEvent,
    pub evicted: Option<ReassembledProfile>,
}

impl IngestResult {
    /// Whether this result says what one fragment did.
    pub open spec fn reports(self, outcome: IngestModel) -> bool {
        &&& self.event.reports(outcome.event)
        &&& match (self.evicted, outcome.evicted) {
            (Some(profile), Some(scan)) => profile.reports(scan),
            (None, None) => true,
            _ => false,
        }
    }
}

/// Failure before a fragment can be incorporated.
#[derive(Clone, Copy, Debug, Eq, PartialEq)]
pub enum ReassemblyError {
    InvalidCapacity,
    SourceFragmentIndex { source: u8, wire: u8 },
    Codec(Error),
    InternalState,
}

/// The text of a reassembly error: its name and its fields.
pub open spec fn reassembly_error_text(error: ReassemblyError) -> Seq<char> {
    match error {
        ReassemblyError::InvalidCapacity => "InvalidCapacity"@,
        ReassemblyError::SourceFragmentIndex { source, wire } => "SourceFragmentIndex { source: "@
            + text::decimal(source as nat) + ", wire: "@ + text::decimal(wire as nat) + " }"@,
        ReassemblyError::Codec(error) => "Codec("@ + message::error_text(error) + ")"@,
        ReassemblyError::InternalState => "InternalState"@,
    }
}

impl ReassemblyError {
    /// The text of this error: its name and its fields.
    #[must_use]
    pub fn message(&self) -> (message: String)
        ensures
            message@ == reassembly_error_text(*self),
    {
        match *self {
            ReassemblyError::InvalidCapacity => String::from_str("InvalidCapacity"),
            ReassemblyError::SourceFragmentIndex { source, wire } => two_numbers(
                "SourceFragmentIndex { source: ",
                source as u64,
                ", wire: ",
                wire as u64,
                " }",
            ),
            ReassemblyError::Codec(error) => {
                let mut out = String::from_str("Codec(");
                let detail = error.message();
                out.append(detail.as_str());
                out.append(")");
                out
            },
            ReassemblyError::InternalState => String::from_str("InternalState"),
        }
    }
}

impl From<Error> for ReassemblyError {
    fn from(error: Error) -> (result: Self) {
        ReassemblyError::Codec(error)
    }
}

impl vstd::std_specs::convert::FromSpecImpl<Error> for ReassemblyError {
    open spec fn obeys_from_spec() -> bool {
        true
    }

    open spec fn from_spec(error: Error) -> Self {
        ReassemblyError::Codec(error)
    }
}

/// The steps of each accepted fragment.
spec fn fragments_model(fragments: Seq<Option<Vec<ProfileStep>>>) -> Seq<
    Option<Seq<ProfileStep>>,
> {
    Seq::new(
        fragments.len(),
        |i: int|
            match fragments[i] {
                Some(steps) => Some(steps@),
                None => None,
            },
    )
}

/// A scan of which fragments are still missing.
#[derive(Debug)]
struct ActiveProfile {
    metadata: ProfileMetadata,
    fragments: Vec<Option<Vec<ProfileStep>>>,
    sources: Vec<SourceFragment>,
    received_fragment_bitmap: u16,
    duplicate_fragment_count: u16,
    conflicting_fragment_count: u16,
    last_observed_at: u128,
}

/// A scan that was completed, remembered to recognise late copies.
#[derive(Debug)]
struct CompletedProfile {
    metadata: ProfileMetadata,
    fragments: Vec<Option<Vec<ProfileStep>>>,
    completed_at: u128,
}

impl CompletedProfile {
    spec fn model(self) -> CompletedModel {
        CompletedModel {
            metadata: self.metadata,
            fragments: fragments_model(self.fragments@),
            completed_at: self.completed_at,
        }
    }
}

impl ActiveProfile {
    spec fn model(self) -> ActiveModel {
        ActiveModel {
            metadata: self.metadata,
            fragments: fragments_model(self.fragments@),
            sources: self.sources@,
            received_fragment_bitmap: self.received_fragment_bitmap,
            duplicate_fragment_count: self.duplicate_fragment_count,
            conflicting_fragment_count: self.conflicting_fragment_count,
            last_observed_at: self.last_observed_at,
        }
    }

    /// A scan without fragments.
    fn new(metadata: ProfileMetadata, observed_at: u128) -> (scan: Self)
        ensures
            scan.model() == model::new_active(metadata, observed_at),
    {
        let mut fragments: Vec<Option<Vec<ProfileStep>>> = Vec::new();
        let mut index: u8 = 0;
        while index < metadata.expected_fragment_count
            invariant
                index <= metadata.expected_fragment_count,
                fragments@.len() == index,
                forall|i: int| 0 <= i < index ==> (#[trigger] fragments@[i]) is None,
            decreases metadata.expected_fragment_count - index,
        {
            fragments.push(None);
            index = index + 1;
        }
        let scan = ActiveProfile {
            metadata,
            fragments,
            sources: Vec::new(),
            received_fragment_bitmap: 0,
            duplicate_fragment_count: 0,
            conflicting_fragment_count: 0,
            last_observed_at: observed_at,
        };
        assert(scan.model() =~= model::new_active(metadata, observed_at));
        scan
    }

    /// Counts a fragment that contradicts this scan.
    fn count_conflict(&mut self)
        ensures
            final(self).model() == model::with_conflict(old(self).model()),
    {
        self.conflicting_fragment_count = self.conflicting_fragment_count.saturating_add(1);
    }

    /// Counts another copy of a fragment.
    fn count_duplicate(&mut self)
        ensures
            final(self).model() == model::with_duplicate(old(self).model()),
    {
        self.duplicate_fragment_count = self.duplicate_fragment_count.saturating_add(1);
    }

    /// Adds copies and contradictions that were counted elsewhere.
    fn count_more(&mut self, duplicates: u16, conflicts: u16)
        ensures
            final(self).model() == model::with_counts(old(self).model(), duplicates, conflicts),
    {
        self.duplicate_fragment_count = self.duplicate_fragment_count.saturating_add(duplicates);
        self.conflicting_fragment_count = self.conflicting_fragment_count.saturating_add(conflicts);
    }

    /// Adds a fragment that this scan lacks.
    fn accept(
        &mut self,
        index: usize,
        steps: Vec<ProfileStep>,
        source: SourceFragment,
        observed_at: u128,
    )
        requires
            index < old(self).fragments@.len(),
            index < 16,
        ensures
            final(self).model() == model::with_fragment(
                old(self).model(),
                index as int,
                steps@,
                source,
                observed_at,
            ),
    {
        self.received_fragment_bitmap = with_bit(self.received_fragment_bitmap, index);
        if self.last_observed_at < observed_at {
            self.last_observed_at = observed_at;
        }
        self.sources.push(source);
        self.fragments.set(index, Some(steps));
        assert(self.model() =~= model::with_fragment(
            old(self).model(),
            index as int,
            steps@,
            source,
            observed_at,
        ));
    }

    /// Says what is known of this scan.
    fn report(&self) -> (profile: ReassembledProfile)
        ensures
            profile.reports(self.model()),
    {
        let steps = join_fragments(&self.fragments);
        let metadata = self.metadata;
        ReassembledProfile {
            scan: ProfileScan {
                identity: metadata.identity,
                profile_id: metadata.summary.profile_id,
                profile_version: metadata.summary.profile_version,
                expected_steps: metadata.summary.expected_step_count,
                observed_unique_steps: metadata.summary.observed_unique_step_count,
                observed_field_count: metadata.summary.observed_field_count,
                reported_missing_steps: metadata.summary.missing_steps_bitmap,
                duplicate_steps: metadata.summary.duplicate_steps_bitmap,
                duration_us: metadata.summary.scan_duration_us,
                collection_flags: metadata.summary.collection_flags,
                finish_reason: metadata.summary.finish_reason,
                duplicate_count: metadata.summary.duplicate_count,
                overwritten_field_count: metadata.summary.overwritten_field_count,
                out_of_order_count: metadata.summary.out_of_order_count,
                ambiguous_index_jump_count: metadata.summary.ambiguous_index_jump_count,
                invalid_gas_index_count: metadata.summary.invalid_gas_index_count,
                intermediate_field_count: metadata.summary.intermediate_field_count,
                profile_rollover_count: metadata.summary.profile_rollover_count,
                fields_after_rollover_count: metadata.summary.fields_after_rollover_count,
                poll_count: metadata.summary.poll_count,
                expected_fragment_count: metadata.expected_fragment_count,
                received_fragment_bitmap: self.received_fragment_bitmap,
                duplicate_fragment_count: self.duplicate_fragment_count,
                conflicting_fragment_count: self.conflicting_fragment_count,
                steps,
            },
            fragments: copy_sources(&self.sources),
        }
    }

    /// Hands this scan out as it is, and keeps what recognises late copies.
    fn finish_complete(self) -> (result: (ReassembledProfile, CompletedProfile))
        ensures
            result.0.reports(self.model()),
            result.1.model() == model::completed_of(self.model()),
    {
        let profile = self.report();
        (
            profile,
            CompletedProfile {
                metadata: self.metadata,
                fragments: self.fragments,
                completed_at: self.last_observed_at,
            },
        )
    }
}

/// Puts the steps of the accepted fragments together, one fragment behind the other.
fn join_fragments(fragments: &Vec<Option<Vec<ProfileStep>>>) -> (steps: Vec<ProfileStep>)
    ensures
        steps@ == model::joined_fragments(
            fragments_model(fragments@),
            fragments@.len() as int,
        ),
{
    let ghost parts = fragments_model(fragments@);
    let mut steps: Vec<ProfileStep> = Vec::new();
    let mut index: usize = 0;
    while index < fragments.len()
        invariant
            index <= fragments@.len(),
            parts == fragments_model(fragments@),
            steps@ == model::joined_fragments(parts, index as int),
        decreases fragments@.len() - index,
    {
        if let Some(part) = &fragments[index] {
            append_steps(&mut steps, part);
        } else {
            assert(steps@ =~= steps@ + Seq::<ProfileStep>::empty());
        }
        index = index + 1;
    }
    steps
}

/// Appends steps to others.
fn append_steps(steps: &mut Vec<ProfileStep>, part: &Vec<ProfileStep>)
    ensures
        final(steps)@ == old(steps)@ + part@,
{
    let ghost before = steps@;
    let mut index: usize = 0;
    assert(steps@ =~= before + part@.take(0));
    while index < part.len()
        invariant
            index <= part@.len(),
            steps@ == before + part@.take(index as int),
        decreases part@.len() - index,
    {
        steps.push(part[index]);
        index = index + 1;
        assert(part@.take(index as int) =~= part@.take(index - 1).push(part@[index - 1]));
        assert(steps@ =~= before + part@.take(index as int));
    }
    assert(part@.take(part@.len() as int) =~= part@);
}

/// Copies provenance.
fn copy_sources(sources: &Vec<SourceFragment>) -> (copy: Vec<SourceFragment>)
    ensures
        copy@ == sources@,
{
    let mut copy: Vec<SourceFragment> = Vec::new();
    let mut index: usize = 0;
    while index < sources.len()
        invariant
            index <= sources@.len(),
            copy@ == sources@.take(index as int),
        decreases sources@.len() - index,
    {
        copy.push(sources[index]);
        index = index + 1;
        assert(sources@.take(index as int) =~= sources@.take(index - 1).push(sources@[index - 1]));
    }
    assert(sources@.take(sources@.len() as int) =~= sources@);
    copy
}

/// Whether two lists of steps are equal.
fn same_steps(left: &Vec<ProfileStep>, right: &Vec<ProfileStep>) -> (same: bool)
    ensures
        same == (left@ == right@),
{
    if left.len() != right.len() {
        return false;
    }
    let mut index: usize = 0;
    while index < left.len()
        invariant
            index <= left@.len(),
            left@.len() == right@.len(),
            forall|i: int| 0 <= i < index ==> #[trigger] left@[i] == right@[i],
        decreases left@.len() - index,
    {
        if left[index] != right[index] {
            assert(left@[index as int] != right@[index as int]);
            return false;
        }
        index = index + 1;
    }
    assert(left@ =~= right@);
    true
}

/// The metadata of a fragment.
fn fragment_metadata(fragment: &ProfileFragmentView<'_>) -> (metadata: ProfileMetadata)
    ensures
        metadata == model::metadata_of(fragment.model()),
{
    ProfileMetadata {
        key: ProfileKey::from(&fragment.header),
        identity: record_identity(fragment.header),
        summary: fragment.summary(),
        expected_fragment_count: fragment.header.fragment_count,
    }
}

/// Bounded out-of-order profile-fragment reassembler.
///
/// Observation times are nanoseconds of a monotonic clock that starts with the
/// reassembler.
#[derive(Debug)]
pub struct ProfileReassembler {
    active: Vec<ActiveProfile>,
    completed: Vec<CompletedProfile>,
    max_active: usize,
    epoch: Instant,
}

spec fn active_models(active: Seq<ActiveProfile>) -> Seq<ActiveModel> {
    Seq::new(active.len(), |i: int| active[i].model())
}

spec fn completed_models(completed: Seq<CompletedProfile>) -> Seq<CompletedModel> {
    Seq::new(completed.len(), |i: int| completed[i].model())
}

impl View for ProfileReassembler {
    type V = ReassemblerModel;

    closed spec fn view(&self) -> ReassemblerModel {
        ReassemblerModel {
            active: active_models(self.active@),
            completed: completed_models(self.completed@),
            max_active: self.max_active,
        }
    }
}

impl Default for ProfileReassembler {
    fn default() -> (reassembler: Self)
        ensures
            reassembler.wf(),
            reassembler@ == (ReassemblerModel {
                active: Seq::empty(),
                completed: Seq::empty(),
                max_active: DEFAULT_MAX_ACTIVE_SCANS,
            }),
    {
        let reassembler = ProfileReassembler {
            active: Vec::new(),
            completed: Vec::new(),
            max_active: DEFAULT_MAX_ACTIVE_SCANS,
            epoch: Instant::now(),
        };
        assert(reassembler@.active =~= Seq::empty());
        assert(reassembler@.completed =~= Seq::empty());
        reassembler
    }
}

impl ProfileReassembler {
    /// Whether the state is well-formed.
    pub open spec fn wf(self) -> bool {
        model::state_valid(self@)
    }

    /// The instant that observation times count from. It never changes.
    pub closed spec fn clock(self) -> Instant {
        self.epoch
    }

    /// Construct a reassembler with a hard bound on incomplete scans.
    ///
    /// # Errors
    ///
    /// Returns [`ReassemblyError::InvalidCapacity`] when `max_active` is zero.
    pub fn with_capacity(max_active: usize) -> (result: Result<Self, ReassemblyError>)
        ensures
            max_active == 0 ==> result == Err::<Self, ReassemblyError>(
                ReassemblyError::InvalidCapacity,
            ),
            max_active > 0 ==> {
                &&& result is Ok
                &&& result->Ok_0.wf()
                &&& result->Ok_0@ == (ReassemblerModel {
                    active: Seq::empty(),
                    completed: Seq::empty(),
                    max_active,
                })
            },
    {
        if max_active == 0 {
            return Err(ReassemblyError::InvalidCapacity);
        }
        let reassembler = ProfileReassembler {
            active: Vec::new(),
            completed: Vec::new(),
            max_active,
            epoch: Instant::now(),
        };
        assert(reassembler@.active =~= Seq::empty());
        assert(reassembler@.completed =~= Seq::empty());
        Ok(reassembler)
    }

    /// Nanoseconds since this reassembler was made. How many rests on the monotonic
    /// clock, so no clause bounds them.
    pub fn now(&self) -> u128 {
        self.epoch.elapsed().as_nanos()
    }

    /// Finds the active scan with a key.
    fn find(&self, key: ProfileKey) -> (found: Option<usize>)
        ensures
            match model::find_active(self@.active, key) {
                Some(index) => found is Some && found->0 == index && model::first_active(
                    self@.active,
                    key,
                    index,
                ),
                None => found is None && forall|i: int|
                    0 <= i < self@.active.len() ==> (#[trigger] self@.active[i]).metadata.key
                        != key,
            },
    {
        let mut index: usize = 0;
        while index < self.active.len()
            invariant
                index <= self.active@.len(),
                self@.active.len() == self.active@.len(),
                forall|i: int|
                    0 <= i < index ==> (#[trigger] self@.active[i]).metadata.key != key,
            decreases self.active@.len() - index,
        {
            if self.active[index].metadata.key == key {
                proof {
                    assert(self@.active[index as int].metadata.key == key);
                    model::lemma_found(self@.active, key, index as int);
                }
                return Some(index);
            }
            assert(self@.active[index as int].metadata.key != key);
            index = index + 1;
        }
        proof {
            model::lemma_not_found(self@.active, key);
        }
        None
    }

    /// Finds the completed scan with a key.
    fn find_completed(&self, key: ProfileKey) -> (found: Option<usize>)
        ensures
            match model::find_completed(self@.completed, key) {
                Some(index) => found is Some && found->0 == index && 0 <= index
                    < self.completed@.len(),
                None => found is None,
            },
    {
        let mut index: usize = 0;
        while index < self.completed.len()
            invariant
                index <= self.completed@.len(),
                self@.completed.len() == self.completed@.len(),
                forall|i: int|
                    0 <= i < index ==> (#[trigger] self@.completed[i]).metadata.key != key,
            decreases self.completed@.len() - index,
        {
            if self.completed[index].metadata.key == key {
                proof {
                    assert(self@.completed[index as int].metadata.key == key);
                    model::lemma_found_completed(self@.completed, key, index as int);
                }
                return Some(index);
            }
            assert(self@.completed[index as int].metadata.key != key);
            index = index + 1;
        }
        None
    }

    /// Finds the first of the least recently updated scans.
    fn oldest(&self) -> (oldest: usize)
        requires
            self@.active.len() > 0,
        ensures
            oldest == model::oldest(self@.active),
            oldest < self@.active.len(),
    {
        let mut oldest: usize = 0;
        let mut index: usize = 1;
        while index < self.active.len()
            invariant
                oldest < index <= self.active@.len(),
                self@.active.len() == self.active@.len(),
                forall|j: int|
                    0 <= j < index ==> self@.active[oldest as int].last_observed_at <= (
                    #[trigger] self@.active[j]).last_observed_at,
                forall|j: int|
                    0 <= j < oldest ==> self@.active[oldest as int].last_observed_at < (
                    #[trigger] self@.active[j]).last_observed_at,
            decreases self.active@.len() - index,
        {
            assert(self@.active[index as int].last_observed_at
                == self.active@[index as int].last_observed_at);
            assert(self@.active[oldest as int].last_observed_at
                == self.active@[oldest as int].last_observed_at);
            if self.active[index].last_observed_at < self.active[oldest].last_observed_at {
                oldest = index;
            }
            index = index + 1;
        }
        proof {
            assert(model::first_oldest(self@.active, oldest as int));
            model::lemma_oldest(self@.active, oldest as int);
        }
        oldest
    }

    /// Makes room for a new scan where there is none.
    fn make_room(&mut self, key: ProfileKey) -> (evicted: Option<ReassembledProfile>)
        requires
            old(self).wf(),
        ensures
            final(self)@ == (ReassemblerModel {
                active: model::with_room(old(self)@, key),
                ..old(self)@
            }),
            final(self).clock() == old(self).clock(),
            match model::evicted_of(old(self)@, key) {
                Some(scan) => evicted is Some && evicted->0.reports(scan),
                None => evicted is None,
            },
    {
        if self.find(key).is_none() && self.active.len() >= self.max_active {
            let oldest: usize = self.oldest();
            let scan = self.active.remove(oldest);
            assert(self@.active =~= old(self)@.active.remove(oldest as int));
            assert(scan.model() == old(self)@.active[oldest as int]);
            Some(scan.report())
        } else {
            None
        }
    }

    /// Opens the scan that a fragment belongs to, where it is not active yet.
    fn open(&mut self, metadata: ProfileMetadata, observed_at: u128) -> (position: usize)
        ensures
            final(self)@ == (ReassemblerModel {
                active: model::opened(old(self)@.active, metadata, observed_at),
                ..old(self)@
            }),
            final(self).clock() == old(self).clock(),
            model::find_active(final(self)@.active, metadata.key) == Some(position as int),
            position < final(self).active@.len(),
    {
        match self.find(metadata.key) {
            Some(position) => position,
            None => {
                let position: usize = self.active.len();
                self.active.push(ActiveProfile::new(metadata, observed_at));
                proof {
                    assert(self@.active =~= old(self)@.active.push(
                        model::new_active(metadata, observed_at),
                    ));
                    assert forall|j: int| 0 <= j < position implies (
                    #[trigger] self@.active[j]).metadata.key != metadata.key by {
                        assert(self@.active[j] == old(self)@.active[j]);
                    }
                    model::lemma_found(self@.active, metadata.key, position as int);
                }
                position
            },
        }
    }

    /// Incorporate one structurally validated profile fragment.
    ///
    /// Fragments can arrive in any order. Byte-equivalent duplicates and
    /// conflicting duplicates are reported without replacing the first copy.
    /// When the active bound is reached, the least recently updated scan is
    /// returned explicitly as `evicted` rather than silently discarded.
    ///
    /// # Errors
    ///
    /// Returns an error if the source names another fragment than the frame.
    pub fn ingest(&mut self, fragment: ProfileFragmentView<'_>, source: SourceFragment) -> (result:
        Result<IngestResult, ReassemblyError>)
        requires
            old(self).wf(),
            fragment.valid(),
        ensures
            final(self).wf(),
            final(self).clock() == old(self).clock(),
            source.fragment_index != fragment.header.fragment_index ==> final(self)@ == old(
                self,
            )@ && result == Err::<IngestResult, ReassemblyError>(
                ReassemblyError::SourceFragmentIndex {
                    source: source.fragment_index,
                    wire: fragment.header.fragment_index,
                },
            ),
            source.fragment_index == fragment.header.fragment_index ==> exists|observed_at: u128|
                {
                    let outcome = #[trigger] model::ingested(
                        old(self)@,
                        fragment.model(),
                        source,
                        observed_at,
                    );
                    final(self)@ == outcome.state && result is Ok && result->Ok_0.reports(outcome)
                },
    {
        let observed_at: u128 = self.now();
        self.ingest_at(fragment, source, observed_at)
    }

    /// Incorporate one fragment using an explicit monotonic observation time.
    ///
    /// This is useful for deterministic tests and startup replay. Unix receive
    /// timestamps remain in [`SourceFragment`] solely as record provenance.
    ///
    /// # Errors
    ///
    /// Returns the same errors as [`Self::ingest`].
    pub fn ingest_at(
        &mut self,
        fragment: ProfileFragmentView<'_>,
        source: SourceFragment,
        observed_at: u128,
    ) -> (result: Result<IngestResult, ReassemblyError>)
        requires
            old(self).wf(),
            fragment.valid(),
        ensures
            final(self).wf(),
            final(self).clock() == old(self).clock(),
            source.fragment_index != fragment.header.fragment_index ==> final(self)@ == old(
                self,
            )@ && result == Err::<IngestResult, ReassemblyError>(
                ReassemblyError::SourceFragmentIndex {
                    source: source.fragment_index,
                    wire: fragment.header.fragment_index,
                },
            ),
            source.fragment_index == fragment.header.fragment_index ==> ({
                let outcome = model::ingested(old(self)@, fragment.model(), source, observed_at);
                final(self)@ == outcome.state && result is Ok && result->Ok_0.reports(outcome)
            }),
    {
        let steps = match fragment_steps(fragment) {
            Ok(steps) => steps,
            Err(error) => return Err(ReassemblyError::Codec(error)),
        };
        let metadata = fragment_metadata(&fragment);
        let fragment_index: u8 = fragment.header.fragment_index;
        if source.fragment_index != fragment_index {
            return Err(
                ReassemblyError::SourceFragmentIndex {
                    source: source.fragment_index,
                    wire: fragment_index,
                },
            );
        }
        let ghost before = self@;
        proof {
            model::lemma_valid_fragment(fragment.model());
            model::lemma_ingest_keeps_state(before, fragment.model(), source, observed_at);
        }
        let key = metadata.key;
        let index: usize = fragment_index as usize;
        if let Some(position) = self.find_completed(key) {
            let event = if self.remembers(position, &metadata, index, &steps) {
                FragmentEvent::Duplicate { key, fragment_index }
            } else {
                FragmentEvent::Conflict { key, fragment_index }
            };
            return Ok(IngestResult { event, evicted: None });
        }
        let evicted = self.make_room(key);
        let position: usize = self.open(metadata, observed_at);
        proof {
            model::lemma_opened_scan(before, metadata, observed_at);
        }
        let event = self.apply(position, metadata, fragment_index, steps, source, observed_at);
        Ok(IngestResult { event, evicted })
    }

    /// Whether a scan is active, or was completed and is remembered.
    #[must_use]
    pub fn knows(&self, key: ProfileKey) -> (known: bool)
        ensures
            known == (model::find_active(self@.active, key) is Some || model::find_completed(
                self@.completed,
                key,
            ) is Some),
    {
        self.find(key).is_some() || self.find_completed(key).is_some()
    }

    /// What is known of an active scan.
    #[must_use]
    pub fn snapshot(&self, key: ProfileKey) -> (profile: Option<ReassembledProfile>)
        ensures
            is_snapshot(profile, self@, key),
    {
        match self.find(key) {
            Some(position) => {
                assert(self@.active[position as int] == self.active@[position as int].model());
                Some(self.active[position].report())
            },
            None => None,
        }
    }

    /// Adds copies and contradictions that were counted elsewhere, where the scan is
    /// active.
    pub fn note(&mut self, key: ProfileKey, duplicates: u16, conflicts: u16)
        requires
            old(self).wf(),
        ensures
            final(self).wf(),
            final(self).clock() == old(self).clock(),
            final(self)@ == model::noted(old(self)@, key, duplicates, conflicts),
    {
        let ghost before = self@;
        proof {
            model::lemma_noting_keeps_state(before, key, duplicates, conflicts);
        }
        self.count_for(key, duplicates, conflicts);
    }

    /// Adds copies and contradictions to an active scan.
    fn count_for(&mut self, key: ProfileKey, duplicates: u16, conflicts: u16)
        ensures
            final(self)@ == model::noted(old(self)@, key, duplicates, conflicts),
            final(self).clock() == old(self).clock(),
    {
        let ghost before = self@;
        if let Some(position) = self.find(key) {
            let mut scan = self.active.remove(position);
            assert(scan.model() == before.active[position as int]);
            assert(self@.active =~= before.active.remove(position as int));
            scan.count_more(duplicates, conflicts);
            self.put_back(position, scan, Ghost(before));
        }
    }

    /// Opens the unknown scan that a fragment belongs to, with the copies and
    /// contradictions that were counted for it elsewhere. Hands out the scan that had
    /// to make room.
    pub fn resume(
        &mut self,
        fragment: &ProfileFragmentView<'_>,
        duplicates: u16,
        conflicts: u16,
        observed_at: u128,
    ) -> (evicted: Option<ReassembledProfile>)
        requires
            old(self).wf(),
            fragment.valid(),
            model::find_active(old(self)@.active, model::key_of(fragment.header)) is None,
            model::find_completed(old(self)@.completed, model::key_of(fragment.header)) is None,
        ensures
            final(self).wf(),
            final(self).clock() == old(self).clock(),
            final(self)@ == model::resumed(
                old(self)@,
                fragment.model(),
                duplicates,
                conflicts,
                observed_at,
            ),
            match model::evicted_of(old(self)@, model::key_of(fragment.header)) {
                Some(scan) => evicted is Some && evicted->0.reports(scan),
                None => evicted is None,
            },
    {
        let metadata = fragment_metadata(fragment);
        proof {
            model::lemma_resuming_keeps_state(
                self@,
                fragment.model(),
                duplicates,
                conflicts,
                observed_at,
            );
        }
        let evicted = self.make_room(metadata.key);
        self.open(metadata, observed_at);
        self.count_for(metadata.key, duplicates, conflicts);
        evicted
    }

    /// Gives a fragment to the active scan at `position`.
    fn apply(
        &mut self,
        position: usize,
        metadata: ProfileMetadata,
        fragment_index: u8,
        steps: Vec<ProfileStep>,
        source: SourceFragment,
        observed_at: u128,
    ) -> (event: FragmentEvent)
        requires
            position < old(self)@.active.len(),
            model::active_valid(old(self)@.active[position as int]),
            old(self)@.active[position as int].metadata.key == metadata.key,
            fragment_index < metadata.expected_fragment_count,
            model::metadata_valid(metadata),
            model::steps_fit(metadata, fragment_index as int, steps@),
            source.fragment_index == fragment_index,
            old(self)@.completed.len() <= old(self)@.max_active,
            1 <= old(self)@.max_active,
        ensures
            ({
                let outcome = model::applied(
                    old(self)@,
                    position as int,
                    metadata,
                    fragment_index,
                    steps@,
                    source,
                    observed_at,
                );
                final(self)@ == outcome.0 && event.reports(outcome.1)
            }),
            final(self).clock() == old(self).clock(),
    {
        let ghost before = self@;
        let key = metadata.key;
        let index: usize = fragment_index as usize;
        let mut scan = self.active.remove(position);
        let ghost taken = scan.model();
        assert(taken == before.active[position as int]);
        assert(self@.active =~= before.active.remove(position as int));
        if scan.metadata != metadata {
            scan.count_conflict();
            self.put_back(position, scan, Ghost(before));
            return FragmentEvent::Conflict { key, fragment_index };
        }
        if let Some(previous) = &scan.fragments[index] {
            assert(taken.fragments[index as int] == Some(previous@));
            if same_steps(previous, &steps) {
                scan.count_duplicate();
                self.put_back(position, scan, Ghost(before));
                return FragmentEvent::Duplicate { key, fragment_index };
            }
            scan.count_conflict();
            self.put_back(position, scan, Ghost(before));
            return FragmentEvent::Conflict { key, fragment_index };
        }
        assert(taken.fragments[index as int] is None);
        scan.accept(index, steps, source, observed_at);
        proof {
            model::lemma_with_fragment(taken, index as int, steps@, source, observed_at);
            model::lemma_full_bitmap(scan.model());
        }
        let expected_mask: u16 = step_mask(metadata.expected_fragment_count);
        if scan.received_fragment_bitmap == expected_mask {
            let (profile, remembered) = scan.finish_complete();
            self.remember(remembered);
            FragmentEvent::Complete(profile)
        } else {
            let progress = ReassemblyProgress {
                key,
                received_fragment_bitmap: scan.received_fragment_bitmap,
                missing_fragment_bitmap: expected_mask & !scan.received_fragment_bitmap,
            };
            self.put_back(position, scan, Ghost(before));
            FragmentEvent::Pending(progress)
        }
    }

    /// Puts a scan back where it was taken from.
    fn put_back(&mut self, position: usize, scan: ActiveProfile, before: Ghost<ReassemblerModel>)
        requires
            position <= old(self).active@.len(),
            position < before@.active.len(),
            old(self)@ == (ReassemblerModel {
                active: before@.active.remove(position as int),
                ..before@
            }),
        ensures
            final(self)@ == model::with_scan(before@, position as int, scan.model()),
            final(self).clock() == old(self).clock(),
    {
        let ghost raw = self.active@;
        let ghost rest = self@.active;
        assert(rest == before@.active.remove(position as int));
        let ghost put = before@.active.update(position as int, scan.model());
        self.active.insert(position, scan);
        assert forall|i: int| 0 <= i < put.len() implies #[trigger] self@.active[i] == put[i] by {
            if i < position {
                assert(self.active@[i] == raw[i]);
                assert(rest[i] == raw[i].model());
            } else if i > position {
                assert(self.active@[i] == raw[i - 1]);
                assert(rest[i - 1] == raw[i - 1].model());
            }
        }
        assert(self@.active.len() == put.len());
        assert(self@.active =~= put);
    }

    /// Whether a completed scan holds this very fragment.
    fn remembers(
        &self,
        position: usize,
        metadata: &ProfileMetadata,
        index: usize,
        steps: &Vec<ProfileStep>,
    ) -> (same: bool)
        requires
            self.wf(),
            position < self.completed@.len(),
            index < metadata.expected_fragment_count,
        ensures
            same == (self@.completed[position as int].metadata == *metadata
                && self@.completed[position as int].fragments[index as int] == Some(steps@)),
    {
        let completed = &self.completed[position];
        assert(self@.completed[position as int] == completed.model());
        if completed.metadata != *metadata {
            return false;
        }
        match &completed.fragments[index] {
            Some(previous) => same_steps(previous, steps),
            None => false,
        }
    }

    /// Remembers a completed scan, and forgets the oldest ones beyond the bound.
    fn remember(&mut self, remembered: CompletedProfile)
        requires
            old(self).completed@.len() <= old(self).max_active,
            1 <= old(self).max_active,
        ensures
            final(self)@ == (ReassemblerModel {
                completed: model::newest(
                    old(self)@.completed.push(remembered.model()),
                    old(self)@.max_active,
                ),
                ..old(self)@
            }),
            final(self).clock() == old(self).clock(),
    {
        let ghost all = self@.completed.push(remembered.model());
        if self.completed.len() >= self.max_active && self.completed.len() > 0 {
            let forgotten = self.completed.remove(0);
            self.completed.push(remembered);
            assert(self@.completed =~= all.skip(all.len() - self.max_active));
        } else {
            self.completed.push(remembered);
            assert(self@.completed =~= all);
        }
    }

    /// Remove and return scans not observed since a monotonic cutoff.
    #[must_use]
    pub fn expire_before(&mut self, cutoff: u128) -> (profiles: Vec<ReassembledProfile>)
        requires
            old(self).wf(),
        ensures
            final(self).wf(),
            final(self).clock() == old(self).clock(),
            final(self)@ == model::expired(old(self)@, cutoff),
            all_report(profiles@, model::expired_scans(old(self)@, cutoff)),
    {
        let ghost before = self@;
        proof {
            model::lemma_expiry_keeps_state(before, cutoff);
        }
        let profiles = self.expire_active(cutoff);
        self.forget_completed(cutoff);
        profiles
    }

    /// Removes and returns the active scans not observed since a cutoff.
    fn expire_active(&mut self, cutoff: u128) -> (profiles: Vec<ReassembledProfile>)
        ensures
            final(self)@ == (ReassemblerModel {
                active: model::expired(old(self)@, cutoff).active,
                ..old(self)@
            }),
            final(self).clock() == old(self).clock(),
            all_report(profiles@, model::expired_scans(old(self)@, cutoff)),
    {
        let ghost all = self@.active;
        let ghost keep = |scan: ActiveModel| scan.last_observed_at >= cutoff;
        let ghost drop = |scan: ActiveModel| scan.last_observed_at < cutoff;
        let mut rest: Vec<ActiveProfile> = Vec::new();
        core::mem::swap(&mut self.active, &mut rest);
        let mut kept: Vec<ActiveProfile> = Vec::new();
        let mut profiles: Vec<ReassembledProfile> = Vec::new();
        let ghost mut done: int = 0;
        proof {
            reveal(Seq::filter);
            assert(all.take(0) =~= Seq::empty());
            assert(active_models(kept@) =~= all.take(0).filter(keep));
            assert(all.skip(0) =~= all);
        }
        while rest.len() > 0
            invariant
                0 <= done <= all.len(),
                rest@.len() == all.len() - done,
                keep == (|scan: ActiveModel| scan.last_observed_at >= cutoff),
                drop == (|scan: ActiveModel| scan.last_observed_at < cutoff),
                active_models(rest@) == all.skip(done),
                active_models(kept@) == all.take(done).filter(keep),
                all_report(profiles@, all.take(done).filter(drop)),
            decreases rest@.len(),
        {
            let ghost rest_before = active_models(rest@);
            let ghost kept_before = active_models(kept@);
            let scan = rest.remove(0);
            proof {
                reveal(Seq::filter);
                assert(scan.model() == rest_before[0]);
                assert(rest_before[0] == all[done]);
                assert(active_models(rest@) =~= rest_before.skip(1));
                assert(rest_before.skip(1) =~= all.skip(done + 1));
                assert(all.take(done + 1).drop_last() =~= all.take(done));
                assert(all.take(done + 1).last() == all[done]);
            }
            if scan.last_observed_at < cutoff {
                assert(drop(scan.model()) && !keep(scan.model()));
                profiles.push(scan.report());
            } else {
                assert(!drop(scan.model()) && keep(scan.model()));
                kept.push(scan);
                assert(active_models(kept@) =~= kept_before.push(scan.model()));
            }
            proof {
                done = done + 1;
            }
        }
        assert(all.take(done) =~= all);
        self.active = kept;
        profiles
    }

    /// Forgets the completed scans not observed since a cutoff.
    fn forget_completed(&mut self, cutoff: u128)
        ensures
            final(self)@ == (ReassemblerModel {
                completed: model::expired(old(self)@, cutoff).completed,
                ..old(self)@
            }),
            final(self).clock() == old(self).clock(),
    {
        let ghost all = self@.completed;
        let ghost keep = |scan: CompletedModel| scan.completed_at >= cutoff;
        let mut rest: Vec<CompletedProfile> = Vec::new();
        core::mem::swap(&mut self.completed, &mut rest);
        let mut kept: Vec<CompletedProfile> = Vec::new();
        let ghost mut done: int = 0;
        proof {
            reveal(Seq::filter);
            assert(all.take(0) =~= Seq::empty());
            assert(completed_models(kept@) =~= all.take(0).filter(keep));
            assert(all.skip(0) =~= all);
        }
        while rest.len() > 0
            invariant
                0 <= done <= all.len(),
                rest@.len() == all.len() - done,
                keep == (|scan: CompletedModel| scan.completed_at >= cutoff),
                completed_models(rest@) == all.skip(done),
                completed_models(kept@) == all.take(done).filter(keep),
            decreases rest@.len(),
        {
            let ghost rest_before = completed_models(rest@);
            let ghost kept_before = completed_models(kept@);
            let scan = rest.remove(0);
            proof {
                reveal(Seq::filter);
                assert(scan.model() == rest_before[0]);
                assert(rest_before[0] == all[done]);
                assert(completed_models(rest@) =~= rest_before.skip(1));
                assert(rest_before.skip(1) =~= all.skip(done + 1));
                assert(all.take(done + 1).drop_last() =~= all.take(done));
                assert(all.take(done + 1).last() == all[done]);
            }
            if scan.completed_at >= cutoff {
                assert(keep(scan.model()));
                kept.push(scan);
                assert(completed_models(kept@) =~= kept_before.push(scan.model()));
            } else {
                assert(!keep(scan.model()));
            }
            proof {
                done = done + 1;
            }
        }
        assert(all.take(done) =~= all);
        self.completed = kept;
    }

    /// Expire scans older than `maximum_age_nanos` using only the monotonic clock.
    #[must_use]
    pub fn expire_older_than(&mut self, maximum_age_nanos: u128) -> (profiles: Vec<
        ReassembledProfile,
    >)
        requires
            old(self).wf(),
        ensures
            final(self).wf(),
            final(self).clock() == old(self).clock(),
            exists|now: u128| #[trigger]
                expires_at(old(self)@, final(self)@, profiles@, now, maximum_age_nanos),
    {
        let now: u128 = self.now();
        let profiles = self.expire_older_than_at(now, maximum_age_nanos);
        assert(expires_at(old(self)@, self@, profiles@, now, maximum_age_nanos));
        profiles
    }

    /// Expire scans older than `maximum_age_nanos` at an explicit monotonic time.
    ///
    /// Where the clock has not run that long yet, nothing is that old.
    #[must_use]
    pub fn expire_older_than_at(&mut self, now: u128, maximum_age_nanos: u128) -> (profiles: Vec<
        ReassembledProfile,
    >)
        requires
            old(self).wf(),
        ensures
            final(self).wf(),
            final(self).clock() == old(self).clock(),
            expires_at(old(self)@, final(self)@, profiles@, now, maximum_age_nanos),
    {
        if now < maximum_age_nanos {
            return Vec::new();
        }
        self.expire_before(now - maximum_age_nanos)
    }

    /// Drain all incomplete scans, for example during graceful shutdown.
    pub fn drain_incomplete(&mut self) -> (profiles: Vec<ReassembledProfile>)
        requires
            old(self).wf(),
        ensures
            final(self).wf(),
            final(self).clock() == old(self).clock(),
            final(self)@ == (ReassemblerModel { active: Seq::empty(), ..old(self)@ }),
            all_report(profiles@, old(self)@.active),
    {
        let ghost all = self@.active;
        let mut rest: Vec<ActiveProfile> = Vec::new();
        core::mem::swap(&mut self.active, &mut rest);
        let mut profiles: Vec<ReassembledProfile> = Vec::new();
        let ghost mut done: int = 0;
        assert(all.skip(0) =~= all);
        while rest.len() > 0
            invariant
                0 <= done <= all.len(),
                rest@.len() == all.len() - done,
                active_models(rest@) == all.skip(done),
                all_report(profiles@, all.take(done)),
            decreases rest@.len(),
        {
            let ghost rest_before = active_models(rest@);
            let scan = rest.remove(0);
            proof {
                assert(scan.model() == rest_before[0]);
                assert(rest_before[0] == all[done]);
                assert(active_models(rest@) =~= rest_before.skip(1));
                assert(rest_before.skip(1) =~= all.skip(done + 1));
            }
            profiles.push(scan.report());
            proof {
                done = done + 1;
            }
        }
        assert(all.take(done) =~= all);
        assert(self@.active =~= Seq::empty());
        profiles
    }

    /// How many scans are incomplete.
    #[must_use]
    pub fn active_len(&self) -> (len: usize)
        ensures
            len == self@.active.len(),
    {
        self.active.len()
    }
}

/// Whether a snapshot says what is known of the scan with a key, if it is active.
pub open spec fn is_snapshot(
    snapshot: Option<ReassembledProfile>,
    state: ReassemblerModel,
    key: ProfileKey,
) -> bool {
    match model::find_active(state.active, key) {
        Some(position) => snapshot is Some && snapshot->0.reports(state.active[position]),
        None => snapshot is None,
    }
}

/// Whether profiles say what is known of scans, one for each and in order.
pub open spec fn all_report(profiles: Seq<ReassembledProfile>, scans: Seq<ActiveModel>) -> bool {
    &&& profiles.len() == scans.len()
    &&& forall|i: int|
        0 <= i < profiles.len() ==> (#[trigger] profiles[i]).reports(scans[i])
}

/// Whether a state and the profiles handed out are those of an expiry at `now`:
/// of the scans older than the maximum age, or of none where the clock has not
/// run that long.
pub open spec fn expires_at(
    before: ReassemblerModel,
    after: ReassemblerModel,
    profiles: Seq<ReassembledProfile>,
    now: u128,
    maximum_age_nanos: u128,
) -> bool {
    if now < maximum_age_nanos {
        after == before && profiles.len() == 0
    } else {
        let cutoff = (now - maximum_age_nanos) as u128;
        after == model::expired(before, cutoff) && all_report(
            profiles,
            model::expired_scans(before, cutoff),
        )
    }
}

} // verus!
