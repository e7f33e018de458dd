//! What reassembly does, as functions on mathematical values.

use vstd::prelude::*;

use crate::convert;
use crate::records::{ProfileStep, RecordIdentity};
use crate::sx1262::RadioMetadata;
use crate::v2::checks;
use crate::v2::profile;
use crate::v2::profile::{FragmentModel, ScanSummary};
use crate::v2::types::{Header, COMMON_FLAG_BOOT_ID_VALID, MAX_PROFILE_STEPS};

verus! {

/// Stable key for one logical profile scan.
#[derive(Clone, Copy, Debug, Eq, Hash, PartialEq, Structural)]
pub struct ProfileKey {
    pub node_id: u64,
    /// Distinguishes a trustworthy nonce from the zero RNG-failure sentinel.
    pub boot_id_valid: bool,
    pub boot_id: u64,
    pub scan_sequence: u32,
    /// Scan-start uptime reduces quick-reboot ambiguity without a boot nonce.
    pub uptime_ms: u64,
    pub config_id: u64,
}

/// The key of the scan that a header belongs to.
pub open spec fn key_of(header: Header) -> ProfileKey {
    ProfileKey {
        node_id: header.common.node_id,
        boot_id_valid: header.common.flags & COMMON_FLAG_BOOT_ID_VALID != 0,
        boot_id: header.common.boot_id,
        scan_sequence: header.common.scan_sequence,
        uptime_ms: header.common.uptime_ms,
        config_id: header.common.config_id,
    }
}

/// The key of the scan that a record's identity belongs to.
pub open spec fn key_of_identity(identity: RecordIdentity) -> ProfileKey {
    ProfileKey {
        node_id: identity.node_id,
        boot_id_valid: identity.common_flags & COMMON_FLAG_BOOT_ID_VALID != 0,
        boot_id: identity.boot_id,
        scan_sequence: identity.scan_sequence,
        uptime_ms: identity.uptime_ms,
        config_id: identity.config_id,
    }
}

/// The key of the scan that a record's identity belongs to.
#[must_use]
pub fn profile_key(identity: RecordIdentity) -> (key: ProfileKey)
    ensures
        key == key_of_identity(identity),
{
    ProfileKey {
        node_id: identity.node_id,
        boot_id_valid: identity.common_flags & COMMON_FLAG_BOOT_ID_VALID != 0,
        boot_id: identity.boot_id,
        scan_sequence: identity.scan_sequence,
        uptime_ms: identity.uptime_ms,
        config_id: identity.config_id,
    }
}

impl<'a> From<&'a Header> for ProfileKey {
    fn from(header: &'a Header) -> (key: Self) {
        ProfileKey {
            node_id: header.common.node_id,
            boot_id_valid: header.common.flags & COMMON_FLAG_BOOT_ID_VALID != 0,
            boot_id: header.common.boot_id,
            scan_sequence: header.common.scan_sequence,
            uptime_ms: header.common.uptime_ms,
            config_id: header.common.config_id,
        }
    }
}

impl<'a> vstd::std_specs::convert::FromSpecImpl<&'a Header> for ProfileKey {
    open spec fn obeys_from_spec() -> bool {
        true
    }

    open spec fn from_spec(header: &'a Header) -> Self {
        key_of(*header)
    }
}

/// Receiver-owned provenance for one unique profile fragment.
#[derive(Clone, Copy, Debug, Eq, PartialEq, Structural)]
pub struct SourceFragment {
    pub packet_id: i64,
    pub fragment_index: u8,
    pub received_at_unix_ms: i64,
    pub radio: RadioMetadata,
}

/// Progress after accepting one unique fragment.
#[derive(Clone, Copy, Debug, Eq, PartialEq, Structural)]
pub struct ReassemblyProgress {
    pub key: ProfileKey,
    pub received_fragment_bitmap: u16,
    pub missing_fragment_bitmap: u16,
}

/// What every fragment of one scan must agree on.
#[derive(Clone, Copy, Debug, Eq, PartialEq, Structural)]
pub struct ProfileMetadata {
    pub key: ProfileKey,
    pub identity: RecordIdentity,
    pub summary: ScanSummary,
    pub expected_fragment_count: u8,
}

/// The metadata of a fragment.
pub open spec fn metadata_of(fragment: FragmentModel) -> ProfileMetadata {
    ProfileMetadata {
        key: key_of(fragment.header),
        identity: convert::identity_of(fragment.header),
        summary: fragment.summary,
        expected_fragment_count: fragment.header.fragment_count,
    }
}

/// A scan of which fragments are still missing.
#[verifier::ext_equal]
pub struct ActiveModel {
    pub metadata: ProfileMetadata,
    /// The steps of each fragment that was accepted.
    pub fragments: Seq<Option<Seq<ProfileStep>>>,
    /// Where the accepted fragments came from, in order of acceptance.
    pub sources: Seq<SourceFragment>,
    pub received_fragment_bitmap: u16,
    pub duplicate_fragment_count: u16,
    pub conflicting_fragment_count: u16,
    pub last_observed_at: u128,
}

/// A scan that was completed, remembered to recognise late copies.
#[verifier::ext_equal]
pub struct CompletedModel {
    pub metadata: ProfileMetadata,
    pub fragments: Seq<Option<Seq<ProfileStep>>>,
    pub completed_at: u128,
}

/// The state of a reassembler.
#[verifier::ext_equal]
pub struct ReassemblerModel {
    pub active: Seq<ActiveModel>,
    pub completed: Seq<CompletedModel>,
    pub max_active: usize,
}

/// What came of one fragment.
pub enum EventModel {
    Pending(ReassemblyProgress),
    Complete(ActiveModel),
    Duplicate { key: ProfileKey, fragment_index: u8 },
    Conflict { key: ProfileKey, fragment_index: u8 },
}

/// The state after one fragment, what came of it, and which scan had to make room.
pub struct IngestModel {
    pub state: ReassemblerModel,
    pub event: EventModel,
    pub evicted: Option<ActiveModel>,
}

/// Whether `index` is the first scan with this key.
pub open spec fn first_active(active: Seq<ActiveModel>, key: ProfileKey, index: int) -> bool {
    &&& 0 <= index < active.len()
    &&& active[index].metadata.key == key
    &&& forall|j: int| 0 <= j < index ==> (#[trigger] active[j]).metadata.key != key
}

/// Where the scan with this key stands, if it is active.
pub open spec fn find_active(active: Seq<ActiveModel>, key: ProfileKey) -> Option<int> {
    if exists|i: int| first_active(active, key, i) {
        Some(choose|i: int| first_active(active, key, i))
    } else {
        None
    }
}

/// Whether `index` is the first completed scan with this key.
pub open spec fn first_completed(
    completed: Seq<CompletedModel>,
    key: ProfileKey,
    index: int,
) -> bool {
    &&& 0 <= index < completed.len()
    &&& completed[index].metadata.key == key
    &&& forall|j: int| 0 <= j < index ==> (#[trigger] completed[j]).metadata.key != key
}

/// Where the scan with this key stands, if it was completed.
pub open spec fn find_completed(completed: Seq<CompletedModel>, key: ProfileKey) -> Option<int> {
    if exists|i: int| first_completed(completed, key, i) {
        Some(choose|i: int| first_completed(completed, key, i))
    } else {
        None
    }
}

/// Whether `index` is the first of the least recently updated scans.
pub open spec fn first_oldest(active: Seq<ActiveModel>, index: int) -> bool {
    &&& 0 <= index < active.len()
    &&& forall|j: int|
        0 <= j < active.len() ==> active[index].last_observed_at <= (
        #[trigger] active[j]).last_observed_at
    &&& forall|j: int|
        0 <= j < index ==> active[index].last_observed_at < (#[trigger] active[j]).last_observed_at
}

/// The first of the least recently updated scans.
pub open spec fn oldest(active: Seq<ActiveModel>) -> int {
    choose|i: int| first_oldest(active, i)
}

/// Whether a scan must make room for a new one.
pub open spec fn must_evict(state: ReassemblerModel, key: ProfileKey) -> bool {
    find_active(state.active, key) is None && state.active.len() >= state.max_active
}

/// The active scans once there is room.
pub open spec fn with_room(state: ReassemblerModel, key: ProfileKey) -> Seq<ActiveModel> {
    if must_evict(state, key) {
        state.active.remove(oldest(state.active))
    } else {
        state.active
    }
}

/// The scan that had to make room.
pub open spec fn evicted_of(state: ReassemblerModel, key: ProfileKey) -> Option<ActiveModel> {
    if must_evict(state, key) {
        Some(state.active[oldest(state.active)])
    } else {
        None
    }
}

/// A scan without fragments.
pub open spec fn new_active(metadata: ProfileMetadata, observed_at: u128) -> ActiveModel {
    ActiveModel {
        metadata,
        fragments: Seq::new(metadata.expected_fragment_count as nat, |i: int| None),
        sources: Seq::empty(),
        received_fragment_bitmap: 0,
        duplicate_fragment_count: 0,
        conflicting_fragment_count: 0,
        last_observed_at: observed_at,
    }
}

/// The active scans with one for this metadata's key.
pub open spec fn opened(
    active: Seq<ActiveModel>,
    metadata: ProfileMetadata,
    observed_at: u128,
) -> Seq<ActiveModel> {
    if find_active(active, metadata.key) is Some {
        active
    } else {
        active.push(new_active(metadata, observed_at))
    }
}

/// One more, up to the largest value of a counter.
pub open spec fn counted(count: u16) -> u16 {
    if count < 0xffff {
        (count + 1) as u16
    } else {
        count
    }
}

/// A scan after a fragment that contradicts it.
pub open spec fn with_conflict(scan: ActiveModel) -> ActiveModel {
    ActiveModel { conflicting_fragment_count: counted(scan.conflicting_fragment_count), ..scan }
}

/// A scan after another copy of a fragment.
pub open spec fn with_duplicate(scan: ActiveModel) -> ActiveModel {
    ActiveModel { duplicate_fragment_count: counted(scan.duplicate_fragment_count), ..scan }
}

/// Two counts together, up to the largest value of a counter.
pub open spec fn counted_together(count: u16, more: u16) -> u16 {
    if count + more <= 0xffff {
        (count + more) as u16
    } else {
        0xffff
    }
}

/// A scan with the copies and contradictions that were counted elsewhere.
pub open spec fn with_counts(scan: ActiveModel, duplicates: u16, conflicts: u16) -> ActiveModel {
    ActiveModel {
        duplicate_fragment_count: counted_together(scan.duplicate_fragment_count, duplicates),
        conflicting_fragment_count: counted_together(scan.conflicting_fragment_count, conflicts),
        ..scan
    }
}

/// A scan after a fragment that it lacked.
pub open spec fn with_fragment(
    scan: ActiveModel,
    index: int,
    steps: Seq<ProfileStep>,
    source: SourceFragment,
    observed_at: u128,
) -> ActiveModel {
    ActiveModel {
        fragments: scan.fragments.update(index, Some(steps)),
        sources: scan.sources.push(source),
        received_fragment_bitmap: scan.received_fragment_bitmap | (1u16 << (index as u16)),
        last_observed_at: if scan.last_observed_at >= observed_at {
            scan.last_observed_at
        } else {
            observed_at
        },
        ..scan
    }
}

/// Whether a scan lacks no fragment.
pub open spec fn is_complete(scan: ActiveModel) -> bool {
    forall|i: int| 0 <= i < scan.fragments.len() ==> (#[trigger] scan.fragments[i]) is Some
}

/// How far a scan has come.
pub open spec fn progress_of(scan: ActiveModel) -> ReassemblyProgress {
    ReassemblyProgress {
        key: scan.metadata.key,
        received_fragment_bitmap: scan.received_fragment_bitmap,
        missing_fragment_bitmap: checks::step_mask_of(scan.metadata.expected_fragment_count)
            & !scan.received_fragment_bitmap,
    }
}

/// What is remembered of a scan that was completed.
pub open spec fn completed_of(scan: ActiveModel) -> CompletedModel {
    CompletedModel {
        metadata: scan.metadata,
        fragments: scan.fragments,
        completed_at: scan.last_observed_at,
    }
}

/// The last `count` of the completed scans.
pub open spec fn newest(completed: Seq<CompletedModel>, count: usize) -> Seq<CompletedModel> {
    if completed.len() > count {
        completed.skip(completed.len() - count)
    } else {
        completed
    }
}

/// What one fragment does to the active scan at `position`: another copy of a
/// fragment, equal or contradicting, is counted and changes nothing else; a
/// fragment that the scan lacked is added to it; and the scan is handed out once
/// it lacks none.
pub open spec fn applied(
    state: ReassemblerModel,
    position: int,
    metadata: ProfileMetadata,
    fragment_index: u8,
    steps: Seq<ProfileStep>,
    source: SourceFragment,
    observed_at: u128,
) -> (ReassemblerModel, EventModel) {
    let key = metadata.key;
    let index = fragment_index as int;
    let scan = state.active[position];
    let duplicate = EventModel::Duplicate { key, fragment_index };
    let conflict = EventModel::Conflict { key, fragment_index };
    if scan.metadata != metadata {
        (with_scan(state, position, with_conflict(scan)), conflict)
    } else if scan.fragments[index] == Some(steps) {
        (with_scan(state, position, with_duplicate(scan)), duplicate)
    } else if scan.fragments[index] is Some {
        (with_scan(state, position, with_conflict(scan)), conflict)
    } else {
        let grown = with_fragment(scan, index, steps, source, observed_at);
        if is_complete(grown) {
            (
                ReassemblerModel {
                    active: state.active.remove(position),
                    completed: newest(state.completed.push(completed_of(grown)), state.max_active),
                    ..state
                },
                EventModel::Complete(grown),
            )
        } else {
            (with_scan(state, position, grown), EventModel::Pending(progress_of(grown)))
        }
    }
}

/// The state with another scan at `position`.
pub open spec fn with_scan(
    state: ReassemblerModel,
    position: int,
    scan: ActiveModel,
) -> ReassemblerModel {
    ReassemblerModel { active: state.active.update(position, scan), ..state }
}

/// What one fragment does. A copy of a fragment of a completed scan is reported
/// and changes nothing. Any other fragment goes to its active scan, which is
/// opened where there is none; where there is no room for it, the least recently
/// updated scan makes room and is handed out as it is.
pub open spec fn ingested(
    state: ReassemblerModel,
    fragment: FragmentModel,
    source: SourceFragment,
    observed_at: u128,
) -> IngestModel {
    let metadata = metadata_of(fragment);
    let key = metadata.key;
    let fragment_index = fragment.header.fragment_index;
    let steps = convert::step_records(fragment.steps);
    match find_completed(state.completed, key) {
        Some(position) => IngestModel {
            state,
            event: if state.completed[position].metadata == metadata
                && state.completed[position].fragments[fragment_index as int] == Some(steps) {
                EventModel::Duplicate { key, fragment_index }
            } else {
                EventModel::Conflict { key, fragment_index }
            },
            evicted: None,
        },
        None => {
            let active = opened(with_room(state, key), metadata, observed_at);
            let outcome = applied(
                ReassemblerModel { active, ..state },
                find_active(active, key)->0,
                metadata,
                fragment_index,
                steps,
                source,
                observed_at,
            );
            IngestModel { state: outcome.0, event: outcome.1, evicted: evicted_of(state, key) }
        },
    }
}

/// The state with copies and contradictions that were counted elsewhere, where the
/// scan is active.
pub open spec fn noted(
    state: ReassemblerModel,
    key: ProfileKey,
    duplicates: u16,
    conflicts: u16,
) -> ReassemblerModel {
    match find_active(state.active, key) {
        Some(position) => with_scan(
            state,
            position,
            with_counts(state.active[position], duplicates, conflicts),
        ),
        None => state,
    }
}

/// The state with the scan of a fragment open, and with the copies and
/// contradictions that were counted for it elsewhere. Where there is no room for
/// it, the least recently updated scan makes room.
pub open spec fn resumed(
    state: ReassemblerModel,
    fragment: FragmentModel,
    duplicates: u16,
    conflicts: u16,
    observed_at: u128,
) -> ReassemblerModel {
    let metadata = metadata_of(fragment);
    let active = opened(with_room(state, metadata.key), metadata, observed_at);
    noted(ReassemblerModel { active, ..state }, metadata.key, duplicates, conflicts)
}

/// The state once scans not observed since `cutoff` have been removed.
pub open spec fn expired(state: ReassemblerModel, cutoff: u128) -> ReassemblerModel {
    ReassemblerModel {
        active: state.active.filter(|scan: ActiveModel| scan.last_observed_at >= cutoff),
        completed: state.completed.filter(|scan: CompletedModel| scan.completed_at >= cutoff),
        ..state
    }
}

/// The scans not observed since `cutoff`, in order.
pub open spec fn expired_scans(state: ReassemblerModel, cutoff: u128) -> Seq<ActiveModel> {
    state.active.filter(|scan: ActiveModel| scan.last_observed_at < cutoff)
}

/// The steps of the first `count` fragments, one fragment behind the other.
pub open spec fn joined_fragments(
    fragments: Seq<Option<Seq<ProfileStep>>>,
    count: int,
) -> Seq<ProfileStep>
    decreases count,
{
    if count <= 0 {
        Seq::empty()
    } else {
        joined_fragments(fragments, count - 1) + (match fragments[count - 1] {
            Some(steps) => steps,
            None => Seq::empty(),
        })
    }
}

/// The indices below `to` and from `from` on that a missing bitmap leaves.
pub open spec fn present_indices(missing: u16, from: int, to: int) -> Seq<int>
    decreases to - from,
{
    if to <= from {
        Seq::empty()
    } else if checks::has_bit(missing, to - 1) {
        present_indices(missing, from, to - 1)
    } else {
        present_indices(missing, from, to - 1).push(to - 1)
    }
}

/// Whether steps are those of a fragment, by their indices.
pub open spec fn steps_fit(
    metadata: ProfileMetadata,
    fragment_index: int,
    steps: Seq<ProfileStep>,
) -> bool {
    let indices = present_indices(
        metadata.summary.missing_steps_bitmap,
        profile::window_start_of(fragment_index as u8),
        profile::window_end_of(fragment_index as u8, metadata.summary.expected_step_count),
    );
    &&& steps.len() == indices.len()
    &&& forall|k: int| 0 <= k < steps.len() ==> (#[trigger] steps[k]).step_index == indices[k]
}

/// Whether metadata is that of a valid fragment.
pub open spec fn metadata_valid(metadata: ProfileMetadata) -> bool {
    let summary = metadata.summary;
    &&& 1 <= summary.expected_step_count <= MAX_PROFILE_STEPS
    &&& metadata.expected_fragment_count == profile::fragment_count_of(
        summary.expected_step_count,
    )
    &&& !profile::names_impossible_step(summary)
    &&& summary.observed_unique_step_count == profile::observed_of(summary)
    &&& summary.observed_field_count >= summary.observed_unique_step_count
}

/// Whether an active scan is well-formed: its fragments fit their windows, and
/// its bitmap and its sources are those of its fragments.
pub open spec fn active_valid(scan: ActiveModel) -> bool {
    &&& metadata_valid(scan.metadata)
    &&& scan.fragments.len() == scan.metadata.expected_fragment_count
    &&& forall|i: int|
        0 <= i < scan.fragments.len() && (#[trigger] scan.fragments[i]) is Some ==> steps_fit(
            scan.metadata,
            i,
            scan.fragments[i]->0,
        )
    &&& forall|i: int|
        0 <= i < 16 ==> #[trigger] checks::has_bit(scan.received_fragment_bitmap, i) == (i
            < scan.fragments.len() && scan.fragments[i] is Some)
    &&& sources_fit(scan)
}

/// Whether every accepted fragment has exactly one source.
pub open spec fn sources_fit(scan: ActiveModel) -> bool {
    &&& forall|s: int|
        0 <= s < scan.sources.len() ==> (#[trigger] scan.sources[s]).fragment_index
            < scan.fragments.len() && scan.fragments[scan.sources[s].fragment_index as int] is Some
    &&& forall|s: int, t: int|
        0 <= s < t < scan.sources.len() ==> (#[trigger] scan.sources[s]).fragment_index != (
        #[trigger] scan.sources[t]).fragment_index
    &&& forall|i: int|
        0 <= i < scan.fragments.len() && (#[trigger] scan.fragments[i]) is Some ==> has_source(
            scan,
            i,
        )
}

/// Whether a fragment has a source.
pub open spec fn has_source(scan: ActiveModel, index: int) -> bool {
    exists|s: int| 0 <= s < scan.sources.len() && (#[trigger] scan.sources[s]).fragment_index
        == index
}

/// Whether a reassembler's state is well-formed: it is bounded, no two active
/// scans have the same key, no scan is both active and completed, and every active
/// scan is well-formed and incomplete.
pub open spec fn state_valid(state: ReassemblerModel) -> bool {
    &&& 1 <= state.max_active
    &&& state.active.len() <= state.max_active
    &&& state.completed.len() <= state.max_active
    &&& forall|i: int, j: int|
        0 <= i < j < state.active.len() ==> (#[trigger] state.active[i]).metadata.key != (
        #[trigger] state.active[j]).metadata.key
    &&& forall|i: int, j: int|
        0 <= i < state.active.len() && 0 <= j < state.completed.len() ==> (
        #[trigger] state.active[i]).metadata.key != (#[trigger] state.completed[j]).metadata.key
    &&& forall|i: int|
        0 <= i < state.active.len() ==> active_valid(#[trigger] state.active[i]) && !is_complete(
            state.active[i],
        )
    &&& forall|i: int|
        0 <= i < state.completed.len() ==> (#[trigger] state.completed[i]).fragments.len()
            == state.completed[i].metadata.expected_fragment_count
}

pub proof fn lemma_found(active: Seq<ActiveModel>, key: ProfileKey, index: int)
    requires
        first_active(active, key, index),
    ensures
        find_active(active, key) == Some(index),
{
    let found = choose|i: int| first_active(active, key, i);
    assert(first_active(active, key, found));
}

pub proof fn lemma_not_found(active: Seq<ActiveModel>, key: ProfileKey)
    requires
        forall|i: int| 0 <= i < active.len() ==> (#[trigger] active[i]).metadata.key != key,
    ensures
        find_active(active, key) is None,
{
}

pub proof fn lemma_found_completed(completed: Seq<CompletedModel>, key: ProfileKey, index: int)
    requires
        first_completed(completed, key, index),
    ensures
        find_completed(completed, key) == Some(index),
{
    let found = choose|i: int| first_completed(completed, key, i);
    assert(first_completed(completed, key, found));
}

/// A completed scan is found if there is one.
pub proof fn lemma_find_completed(completed: Seq<CompletedModel>, key: ProfileKey)
    ensures
        match find_completed(completed, key) {
            Some(i) => first_completed(completed, key, i),
            None => forall|i: int|
                0 <= i < completed.len() ==> (#[trigger] completed[i]).metadata.key != key,
        },
{
    if find_completed(completed, key) is None {
        assert forall|i: int| 0 <= i < completed.len() implies (
        #[trigger] completed[i]).metadata.key != key by {
            lemma_no_first_completed(completed, key, i);
        }
    }
}

proof fn lemma_no_first_completed(completed: Seq<CompletedModel>, key: ProfileKey, i: int)
    requires
        0 <= i < completed.len(),
        !exists|j: int| first_completed(completed, key, j),
    ensures
        completed[i].metadata.key != key,
    decreases i,
{
    assert forall|j: int| 0 <= j < i implies (#[trigger] completed[j]).metadata.key != key by {
        lemma_no_first_completed(completed, key, j);
    }
    assert(!first_completed(completed, key, i));
}

/// An active scan is found if there is one.
pub proof fn lemma_find_active(active: Seq<ActiveModel>, key: ProfileKey)
    ensures
        match find_active(active, key) {
            Some(i) => first_active(active, key, i),
            None => forall|i: int|
                0 <= i < active.len() ==> (#[trigger] active[i]).metadata.key != key,
        },
{
    if find_active(active, key) is None {
        assert forall|i: int| 0 <= i < active.len() implies (#[trigger] active[i]).metadata.key
            != key by {
            lemma_no_first(active, key, i);
        }
    }
}

proof fn lemma_no_first(active: Seq<ActiveModel>, key: ProfileKey, i: int)
    requires
        0 <= i < active.len(),
        !exists|j: int| first_active(active, key, j),
    ensures
        active[i].metadata.key != key,
    decreases i,
{
    assert forall|j: int| 0 <= j < i implies (#[trigger] active[j]).metadata.key != key by {
        lemma_no_first(active, key, j);
    }
    assert(!first_active(active, key, i));
}

pub proof fn lemma_oldest(active: Seq<ActiveModel>, index: int)
    requires
        first_oldest(active, index),
    ensures
        oldest(active) == index,
{
    let found = oldest(active);
    assert(first_oldest(active, found));
    assert(active[found].last_observed_at <= active[index].last_observed_at);
    assert(active[index].last_observed_at <= active[found].last_observed_at);
}

/// The bitmap of a well-formed scan is full exactly if the scan is complete.
pub proof fn lemma_full_bitmap(scan: ActiveModel)
    requires
        active_valid(scan),
    ensures
        (scan.received_fragment_bitmap == checks::step_mask_of(
            scan.metadata.expected_fragment_count,
        )) == is_complete(scan),
{
    let mask = checks::step_mask_of(scan.metadata.expected_fragment_count);
    let bitmap = scan.received_fragment_bitmap;
    assert forall|i: int| 0 <= i < 16 implies checks::has_bit(mask, i) == (i
        < scan.fragments.len()) by {
        checks::lemma_mask_bits(scan.metadata.expected_fragment_count, i);
    }
    if is_complete(scan) {
        assert forall|i: int| 0 <= i < 16 implies #[trigger] checks::has_bit(bitmap, i)
            == checks::has_bit(mask, i) by {}
        checks::lemma_bits_determine(bitmap, mask);
    } else if bitmap == mask {
        assert forall|i: int| 0 <= i < scan.fragments.len() implies (
        #[trigger] scan.fragments[i]) is Some by {
            assert(checks::has_bit(mask, i));
        }
    }
}

/// A new scan is well-formed and incomplete.
pub proof fn lemma_new_active(metadata: ProfileMetadata, observed_at: u128)
    requires
        metadata_valid(metadata),
    ensures
        active_valid(new_active(metadata, observed_at)),
        !is_complete(new_active(metadata, observed_at)),
{
    let scan = new_active(metadata, observed_at);
    assert forall|i: int| 0 <= i < 16 implies !#[trigger] checks::has_bit(
        scan.received_fragment_bitmap,
        i,
    ) by {
        let k = i as u16;
        assert(0u16 & (1u16 << k) == 0) by (bit_vector);
    }
    assert(scan.fragments[0] is None);
}

/// A well-formed scan stays so with a fragment that it lacked.
pub proof fn lemma_with_fragment(
    scan: ActiveModel,
    index: int,
    steps: Seq<ProfileStep>,
    source: SourceFragment,
    observed_at: u128,
)
    requires
        active_valid(scan),
        0 <= index < scan.fragments.len(),
        scan.fragments[index] is None,
        steps_fit(scan.metadata, index, steps),
        source.fragment_index == index,
    ensures
        active_valid(with_fragment(scan, index, steps, source, observed_at)),
{
    let grown = with_fragment(scan, index, steps, source, observed_at);
    assert forall|i: int| 0 <= i < 16 implies #[trigger] checks::has_bit(
        grown.received_fragment_bitmap,
        i,
    ) == (i < grown.fragments.len() && grown.fragments[i] is Some) by {
        checks::lemma_bit_of_or(scan.received_fragment_bitmap, index, i);
        assert(checks::has_bit(scan.received_fragment_bitmap, i) == (i < scan.fragments.len()
            && scan.fragments[i] is Some));
    }
    assert forall|i: int|
        0 <= i < grown.fragments.len() && (
        #[trigger] grown.fragments[i]) is Some implies has_source(grown, i) by {
        if i == index {
            assert(grown.sources[scan.sources.len() as int].fragment_index == i);
        } else {
            assert(scan.fragments[i] is Some);
            assert(has_source(scan, i));
            let s = choose|s: int|
                0 <= s < scan.sources.len() && (#[trigger] scan.sources[s]).fragment_index == i;
            assert(grown.sources[s].fragment_index == i);
        }
    }
    assert forall|i: int|
        0 <= i < grown.fragments.len() && (#[trigger] grown.fragments[i]) is Some implies steps_fit(
        grown.metadata,
        i,
        grown.fragments[i]->0,
    ) by {
        if i != index {
            assert(scan.fragments[i] is Some);
        }
    }
    assert forall|s: int| 0 <= s < grown.sources.len() implies (
    #[trigger] grown.sources[s]).fragment_index < grown.fragments.len()
        && grown.fragments[grown.sources[s].fragment_index as int] is Some by {
        if s < scan.sources.len() {
            assert(grown.sources[s] == scan.sources[s]);
            assert(scan.sources[s].fragment_index < scan.fragments.len());
        }
    }
    assert forall|s: int, t: int| 0 <= s < t < grown.sources.len() implies (
    #[trigger] grown.sources[s]).fragment_index != (
    #[trigger] grown.sources[t]).fragment_index by {
        assert(grown.sources[s] == scan.sources[s]);
        assert(scan.fragments[scan.sources[s].fragment_index as int] is Some);
        if t < scan.sources.len() {
            assert(grown.sources[t] == scan.sources[t]);
        }
    }
}

/// The steps of a valid fragment fit its window.
pub proof fn lemma_valid_fragment(fragment: FragmentModel)
    requires
        profile::fragment_valid(fragment),
    ensures
        metadata_valid(metadata_of(fragment)),
        fragment.header.fragment_index < fragment.header.fragment_count,
        steps_fit(
            metadata_of(fragment),
            fragment.header.fragment_index as int,
            convert::step_records(fragment.steps),
        ),
{
    lemma_window_indices(
        fragment.steps,
        fragment.summary.missing_steps_bitmap,
        profile::window_start_of(fragment.header.fragment_index),
        profile::window_end_of(
            fragment.header.fragment_index,
            fragment.summary.expected_step_count,
        ),
    );
}

proof fn lemma_window_indices(
    steps: Seq<crate::v2::types::ProfileStep>,
    missing: u16,
    from: int,
    to: int,
)
    requires
        profile::window_fault(steps, missing, from, to) is None,
    ensures
        present_indices(missing, from, to).len() == profile::present_count(missing, from, to),
        forall|k: int|
            0 <= k < profile::present_count(missing, from, to) ==> (#[trigger] steps[k]).step_index
                == present_indices(missing, from, to)[k],
    decreases to - from,
{
    if from < to {
        lemma_window_indices(steps, missing, from, to - 1);
    }
}

/// The scan that a fragment belongs to, once opened, is well-formed and stands
/// among well-formed scans with keys of their own.
pub proof fn lemma_opened_scan(
    state: ReassemblerModel,
    metadata: ProfileMetadata,
    observed_at: u128,
)
    requires
        state_valid(state),
        metadata_valid(metadata),
    ensures
        ({
            let active = opened(with_room(state, metadata.key), metadata, observed_at);
            let position = find_active(active, metadata.key);
            &&& position is Some
            &&& first_active(active, metadata.key, position->0)
            &&& active.len() <= state.max_active
            &&& with_room(state, metadata.key).len() <= state.active.len()
            &&& forall|i: int, j: int|
                0 <= i < j < active.len() ==> (#[trigger] active[i]).metadata.key != (
                #[trigger] active[j]).metadata.key
            &&& forall|i: int|
                0 <= i < active.len() ==> active_valid(#[trigger] active[i]) && !is_complete(
                    active[i],
                )
            &&& find_completed(state.completed, metadata.key) is None ==> forall|i: int, j: int|
                0 <= i < active.len() && 0 <= j < state.completed.len() ==> (
                #[trigger] active[i]).metadata.key != (
                #[trigger] state.completed[j]).metadata.key
        }),
{
    let key = metadata.key;
    let room = with_room(state, key);
    lemma_find_completed(state.completed, key);
    let active = opened(room, metadata, observed_at);
    lemma_find_active(state.active, key);
    if must_evict(state, key) {
        lemma_has_oldest(state.active);
    }
    let evictee = oldest(state.active);
    assert forall|i: int| 0 <= i < room.len() implies active_valid(#[trigger] room[i])
        && !is_complete(room[i]) && exists|k: int|
        0 <= k < state.active.len() && state.active[k] == room[i] by {
        if must_evict(state, key) && i >= evictee {
            assert(room[i] == state.active[i + 1]);
        } else {
            assert(room[i] == state.active[i]);
        }
    }
    assert forall|i: int, j: int| 0 <= i < j < room.len() implies (
    #[trigger] room[i]).metadata.key != (#[trigger] room[j]).metadata.key by {
        let k = if must_evict(state, key) && i >= evictee {
            i + 1
        } else {
            i
        };
        let l = if must_evict(state, key) && j >= evictee {
            j + 1
        } else {
            j
        };
        assert(room[i] == state.active[k]);
        assert(room[j] == state.active[l]);
    }
    if find_completed(state.completed, key) is None {
        assert forall|i: int, j: int|
            0 <= i < active.len() && 0 <= j < state.completed.len() implies (
        #[trigger] active[i]).metadata.key != (#[trigger] state.completed[j]).metadata.key by {
            if i < room.len() {
                assert(active[i] == room[i]);
                let k = choose|k: int| 0 <= k < state.active.len() && state.active[k] == room[i];
                assert(state.active[k].metadata.key != state.completed[j].metadata.key);
            }
        }
    }
    lemma_find_active(room, key);
    lemma_new_active(metadata, observed_at);
    if find_active(room, key) is None {
        let last = room.len() as int;
        assert forall|j: int| 0 <= j < last implies (#[trigger] active[j]).metadata.key != key by {
            assert(active[j] == room[j]);
        }
        lemma_found(active, key, last);
        assert forall|i: int, j: int| 0 <= i < j < active.len() implies (
        #[trigger] active[i]).metadata.key != (#[trigger] active[j]).metadata.key by {
            assert(active[i] == room[i]);
            if j < last {
                assert(active[j] == room[j]);
            }
        }
        assert forall|i: int| 0 <= i < active.len() implies active_valid(#[trigger] active[i])
            && !is_complete(active[i]) by {
            if i < last {
                assert(active[i] == room[i]);
            }
        }
        if !must_evict(state, key) {
            assert(state.active.len() < state.max_active);
        }
    }
}

/// Among active scans there is a least recently updated one.
pub proof fn lemma_has_oldest(active: Seq<ActiveModel>)
    requires
        active.len() > 0,
    ensures
        first_oldest(active, oldest(active)),
{
    let found = lemma_oldest_of(active, active.len() as int);
    assert(first_oldest(active, found));
}

proof fn lemma_oldest_of(active: Seq<ActiveModel>, count: int) -> (found: int)
    requires
        0 < count <= active.len(),
    ensures
        0 <= found < count,
        forall|j: int|
            0 <= j < count ==> active[found].last_observed_at <= (
            #[trigger] active[j]).last_observed_at,
        forall|j: int|
            0 <= j < found ==> active[found].last_observed_at < (
            #[trigger] active[j]).last_observed_at,
    decreases count,
{
    if count == 1 {
        0
    } else {
        let before = lemma_oldest_of(active, count - 1);
        if active[count - 1].last_observed_at < active[before].last_observed_at {
            count - 1
        } else {
            before
        }
    }
}

/// A fragment leaves a well-formed state well-formed.
pub proof fn lemma_ingest_keeps_state(
    state: ReassemblerModel,
    fragment: FragmentModel,
    source: SourceFragment,
    observed_at: u128,
)
    requires
        state_valid(state),
        profile::fragment_valid(fragment),
        source.fragment_index == fragment.header.fragment_index,
    ensures
        state_valid(ingested(state, fragment, source, observed_at).state),
{
    let metadata = metadata_of(fragment);
    let index = fragment.header.fragment_index as int;
    let steps = convert::step_records(fragment.steps);
    lemma_valid_fragment(fragment);
    lemma_opened_scan(state, metadata, observed_at);
    let active = opened(with_room(state, metadata.key), metadata, observed_at);
    let position = find_active(active, metadata.key)->0;
    let scan = active[position];
    let grown = with_fragment(scan, index, steps, source, observed_at);
    if scan.metadata == metadata && scan.fragments[index] is None {
        lemma_with_fragment(scan, index, steps, source, observed_at);
    }
    let after = ingested(state, fragment, source, observed_at).state;
    if find_completed(state.completed, metadata.key) is None {
        if scan.metadata == metadata && scan.fragments[index] is None && is_complete(grown) {
            let rest = active.remove(position);
            assert forall|i: int| 0 <= i < rest.len() implies active_valid(#[trigger] rest[i])
                && !is_complete(rest[i]) by {
                assert(rest[i] == active[if i < position {
                    i
                } else {
                    i + 1
                }]);
            }
            assert forall|i: int, j: int| 0 <= i < j < rest.len() implies (
            #[trigger] rest[i]).metadata.key != (#[trigger] rest[j]).metadata.key by {
                assert(rest[i] == active[if i < position {
                    i
                } else {
                    i + 1
                }]);
                assert(rest[j] == active[if j < position {
                    j
                } else {
                    j + 1
                }]);
            }
            let all = state.completed.push(completed_of(grown));
            assert forall|i: int| 0 <= i < after.completed.len() implies (
            #[trigger] after.completed[i]).fragments.len()
                == after.completed[i].metadata.expected_fragment_count by {
                assert(after.completed[i] == all[i + (all.len() - after.completed.len())]);
            }
            assert forall|i: int, j: int|
                0 <= i < after.active.len() && 0 <= j < after.completed.len() implies (
            #[trigger] after.active[i]).metadata.key != (
            #[trigger] after.completed[j]).metadata.key by {
                let k = if i < position {
                    i
                } else {
                    i + 1
                };
                let l = j + (all.len() - after.completed.len());
                assert(after.active[i] == active[k]);
                assert(after.completed[j] == all[l]);
                if l < state.completed.len() {
                    assert(all[l] == state.completed[l]);
                } else {
                    assert(active[k].metadata.key != active[position].metadata.key);
                }
            }
        } else {
            let changed = after.active[position];
            assert(changed.metadata == scan.metadata);
            assert(active_valid(changed) && !is_complete(changed)) by {
                lemma_counting_keeps_scan(scan);
            }
            assert forall|i: int| 0 <= i < after.active.len() implies active_valid(
                #[trigger] after.active[i],
            ) && !is_complete(after.active[i]) by {
                if i != position {
                    assert(after.active[i] == active[i]);
                }
            }
            assert forall|i: int, j: int| 0 <= i < j < after.active.len() implies (
            #[trigger] after.active[i]).metadata.key != (
            #[trigger] after.active[j]).metadata.key by {
                assert(after.active[i].metadata.key == active[i].metadata.key);
                assert(after.active[j].metadata.key == active[j].metadata.key);
            }
            assert forall|i: int, j: int|
                0 <= i < after.active.len() && 0 <= j < after.completed.len() implies (
            #[trigger] after.active[i]).metadata.key != (
            #[trigger] after.completed[j]).metadata.key by {
                assert(after.active[i].metadata.key == active[i].metadata.key);
                assert(after.completed[j] == state.completed[j]);
            }
        }
    }
}

/// Counting a copy or a contradiction leaves a scan well-formed and incomplete.
proof fn lemma_counting_keeps_scan(scan: ActiveModel)
    requires
        active_valid(scan),
        !is_complete(scan),
    ensures
        active_valid(with_conflict(scan)),
        !is_complete(with_conflict(scan)),
        active_valid(with_duplicate(scan)),
        !is_complete(with_duplicate(scan)),
{
    lemma_same_fragments(scan, with_conflict(scan));
    lemma_same_fragments(scan, with_duplicate(scan));
}

/// Counts from elsewhere leave well-formed scans well-formed.
pub proof fn lemma_noting_keeps_scans(
    state: ReassemblerModel,
    key: ProfileKey,
    duplicates: u16,
    conflicts: u16,
)
    requires
        forall|i: int, j: int|
            0 <= i < j < state.active.len() ==> (#[trigger] state.active[i]).metadata.key != (
            #[trigger] state.active[j]).metadata.key,
        forall|i: int|
            0 <= i < state.active.len() ==> active_valid(#[trigger] state.active[i])
                && !is_complete(state.active[i]),
    ensures
        ({
            let active = noted(state, key, duplicates, conflicts).active;
            &&& active.len() == state.active.len()
            &&& forall|i: int|
                0 <= i < active.len() ==> (#[trigger] active[i]).metadata.key
                    == state.active[i].metadata.key
            &&& forall|i: int, j: int|
                0 <= i < j < active.len() ==> (#[trigger] active[i]).metadata.key != (
                #[trigger] active[j]).metadata.key
            &&& forall|i: int|
                0 <= i < active.len() ==> active_valid(#[trigger] active[i]) && !is_complete(
                    active[i],
                )
        }),
{
    lemma_find_active(state.active, key);
    if let Some(position) = find_active(state.active, key) {
        let scan = state.active[position];
        let active = noted(state, key, duplicates, conflicts).active;
        lemma_same_fragments(scan, with_counts(scan, duplicates, conflicts));
        assert forall|i: int| 0 <= i < active.len() implies active_valid(#[trigger] active[i])
            && !is_complete(active[i]) by {
            if i != position {
                assert(active[i] == state.active[i]);
            }
        }
        assert forall|i: int, j: int| 0 <= i < j < active.len() implies (
        #[trigger] active[i]).metadata.key != (#[trigger] active[j]).metadata.key by {
            assert(active[i].metadata.key == state.active[i].metadata.key);
            assert(active[j].metadata.key == state.active[j].metadata.key);
        }
    }
}

/// Counts from elsewhere leave a well-formed state well-formed.
pub proof fn lemma_noting_keeps_state(
    state: ReassemblerModel,
    key: ProfileKey,
    duplicates: u16,
    conflicts: u16,
)
    requires
        state_valid(state),
    ensures
        state_valid(noted(state, key, duplicates, conflicts)),
{
    lemma_noting_keeps_scans(state, key, duplicates, conflicts);
    let after = noted(state, key, duplicates, conflicts);
    assert forall|i: int, j: int|
        0 <= i < after.active.len() && 0 <= j < after.completed.len() implies (
    #[trigger] after.active[i]).metadata.key != (#[trigger] after.completed[j]).metadata.key by {
        assert(after.active[i].metadata.key == state.active[i].metadata.key);
        assert(after.completed[j] == state.completed[j]);
    }
}

/// Resuming a scan that was not completed leaves a well-formed state well-formed.
pub proof fn lemma_resuming_keeps_state(
    state: ReassemblerModel,
    fragment: FragmentModel,
    duplicates: u16,
    conflicts: u16,
    observed_at: u128,
)
    requires
        state_valid(state),
        profile::fragment_valid(fragment),
        find_completed(state.completed, key_of(fragment.header)) is None,
    ensures
        state_valid(resumed(state, fragment, duplicates, conflicts, observed_at)),
{
    let metadata = metadata_of(fragment);
    lemma_valid_fragment(fragment);
    lemma_opened_scan(state, metadata, observed_at);
    let active = opened(with_room(state, metadata.key), metadata, observed_at);
    let open = ReassemblerModel { active, ..state };
    assert(state_valid(open));
    lemma_noting_keeps_state(open, metadata.key, duplicates, conflicts);
}

proof fn lemma_same_fragments(scan: ActiveModel, other: ActiveModel)
    requires
        active_valid(scan),
        !is_complete(scan),
        other.metadata == scan.metadata,
        other.fragments == scan.fragments,
        other.sources == scan.sources,
        other.received_fragment_bitmap == scan.received_fragment_bitmap,
    ensures
        active_valid(other),
        !is_complete(other),
{
    assert forall|i: int|
        0 <= i < other.fragments.len() && (
        #[trigger] other.fragments[i]) is Some implies has_source(other, i) by {
        assert(has_source(scan, i));
        let s = choose|s: int|
            0 <= s < scan.sources.len() && (#[trigger] scan.sources[s]).fragment_index == i;
        assert(other.sources[s].fragment_index == i);
    }
    let missing = choose|i: int|
        0 <= i < scan.fragments.len() && !((#[trigger] scan.fragments[i]) is Some);
    assert(!(other.fragments[missing] is Some));
}

/// What is kept of well-formed scans with keys of their own is so too.
pub proof fn lemma_kept_scans(active: Seq<ActiveModel>, keep: spec_fn(ActiveModel) -> bool)
    requires
        forall|i: int, j: int|
            0 <= i < j < active.len() ==> (#[trigger] active[i]).metadata.key != (
            #[trigger] active[j]).metadata.key,
        forall|i: int|
            0 <= i < active.len() ==> active_valid(#[trigger] active[i]) && !is_complete(
                active[i],
            ),
    ensures
        ({
            let kept = active.filter(keep);
            &&& kept.len() <= active.len()
            &&& forall|i: int|
                0 <= i < kept.len() ==> exists|k: int|
                    0 <= k < active.len() && #[trigger] kept[i] == #[trigger] active[k]
            &&& forall|i: int, j: int|
                0 <= i < j < kept.len() ==> (#[trigger] kept[i]).metadata.key != (
                #[trigger] kept[j]).metadata.key
            &&& forall|i: int|
                0 <= i < kept.len() ==> active_valid(#[trigger] kept[i]) && !is_complete(kept[i])
        }),
    decreases active.len(),
{
    reveal(Seq::filter);
    if active.len() > 0 {
        let rest = active.drop_last();
        lemma_kept_scans(rest, keep);
        let kept_rest = rest.filter(keep);
        let kept = active.filter(keep);
        assert forall|i: int| 0 <= i < kept.len() implies exists|k: int|
            0 <= k < active.len() && #[trigger] kept[i] == #[trigger] active[k] by {
            if i < kept_rest.len() {
                assert(kept[i] == kept_rest[i]);
                let k = choose|k: int| 0 <= k < rest.len() && kept_rest[i] == rest[k];
                assert(kept[i] == active[k]);
            } else {
                assert(kept[i] == active[active.len() - 1]);
            }
        }
        assert forall|i: int, j: int| 0 <= i < j < kept.len() implies (
        #[trigger] kept[i]).metadata.key != (#[trigger] kept[j]).metadata.key by {
            assert(kept[i] == kept_rest[i]);
            if j < kept_rest.len() {
                assert(kept[j] == kept_rest[j]);
            } else {
                let k = choose|k: int| 0 <= k < rest.len() && kept_rest[i] == rest[k];
                assert(kept[i] == active[k]);
                assert(kept[j] == active[active.len() - 1]);
            }
        }
    }
}

/// What is kept of completed scans was among them.
proof fn lemma_kept_completed(
    completed: Seq<CompletedModel>,
    keep: spec_fn(CompletedModel) -> bool,
)
    requires
        forall|i: int|
            0 <= i < completed.len() ==> (#[trigger] completed[i]).fragments.len()
                == completed[i].metadata.expected_fragment_count,
    ensures
        completed.filter(keep).len() <= completed.len(),
        forall|i: int|
            0 <= i < completed.filter(keep).len() ==> (#[trigger] completed.filter(
                keep,
            )[i]).fragments.len() == completed.filter(keep)[i].metadata.expected_fragment_count,
        forall|i: int|
            0 <= i < completed.filter(keep).len() ==> exists|k: int|
                0 <= k < completed.len() && #[trigger] completed.filter(keep)[i]
                    == #[trigger] completed[k],
    decreases completed.len(),
{
    reveal(Seq::filter);
    if completed.len() > 0 {
        let rest = completed.drop_last();
        lemma_kept_completed(rest, keep);
        let kept_rest = rest.filter(keep);
        let kept = completed.filter(keep);
        assert forall|i: int| 0 <= i < kept.len() implies exists|k: int|
            0 <= k < completed.len() && #[trigger] kept[i] == #[trigger] completed[k] by {
            if i < kept_rest.len() {
                assert(kept[i] == kept_rest[i]);
                let k = choose|k: int| 0 <= k < rest.len() && kept_rest[i] == rest[k];
                assert(kept[i] == completed[k]);
            } else {
                assert(kept[i] == completed[completed.len() - 1]);
            }
        }
    }
}

/// Expiry leaves a well-formed state well-formed.
pub proof fn lemma_expiry_keeps_state(state: ReassemblerModel, cutoff: u128)
    requires
        state_valid(state),
    ensures
        state_valid(expired(state, cutoff)),
{
    lemma_kept_scans(state.active, |scan: ActiveModel| scan.last_observed_at >= cutoff);
    lemma_kept_completed(state.completed, |scan: CompletedModel| scan.completed_at >= cutoff);
    let after = expired(state, cutoff);
    assert forall|i: int, j: int|
        0 <= i < after.active.len() && 0 <= j < after.completed.len() implies (
    #[trigger] after.active[i]).metadata.key != (#[trigger] after.completed[j]).metadata.key by {
        let k = choose|k: int| 0 <= k < state.active.len() && after.active[i] == state.active[k];
        let l = choose|l: int|
            0 <= l < state.completed.len() && after.completed[j] == state.completed[l];
        assert(state.active[k].metadata.key != state.completed[l].metadata.key);
    }
}

/// A new scan's key is among the active scans neither before nor after room was made.
pub proof fn lemma_room_of_new(state: ReassemblerModel, key: ProfileKey)
    requires
        state_valid(state),
        find_active(state.active, key) is None,
    ensures
        find_active(with_room(state, key), key) is None,
{
    let room = with_room(state, key);
    lemma_find_active(state.active, key);
    if must_evict(state, key) {
        lemma_has_oldest(state.active);
    }
    assert forall|i: int| 0 <= i < room.len() implies (#[trigger] room[i]).metadata.key != key by {
        assert(room[i] == state.active[if must_evict(state, key) && i >= oldest(state.active) {
            i + 1
        } else {
            i
        }]);
    }
    lemma_not_found(room, key);
}

/// Where an active scan stood before room was made and the fragment's scan opened.
pub proof fn lemma_opened_origin(
    state: ReassemblerModel,
    metadata: ProfileMetadata,
    observed_at: u128,
    at: int,
)
    requires
        state_valid(state),
        0 <= at < with_room(state, metadata.key).len(),
    ensures
        ({
            let active = opened(with_room(state, metadata.key), metadata, observed_at);
            let k = if must_evict(state, metadata.key) && at >= oldest(state.active) {
                at + 1
            } else {
                at
            };
            0 <= k < state.active.len() && active[at] == state.active[k]
        }),
{
    if must_evict(state, metadata.key) {
        lemma_has_oldest(state.active);
    }
}

} // verus!
