//! What holds of sessions as a whole.

use vstd::prelude::*;

use crate::hex;
use crate::hex::laws as hex_laws;
use crate::hex::HexError;
use crate::reassembly::laws as reassembly_laws;
use crate::reassembly::model;
use crate::reassembly::{
    FragmentEvent, IngestResult, ProfileKey, ReassembledProfile, ReassemblyProgress,
    SourceFragment,
};
use crate::session;
use crate::session::{
    FragmentAction, FrameTextError, LineOutcome, ListenCounters, ListenLimits, PacketOutcome,
    Rehydration,
};
use crate::storage;
use crate::storage::{
    FragmentStorageStatus, PacketDisposition, PartialScan, PersistedFragmentMatch, StoredSource,
    V2PacketKind,
};
use crate::sx1262::ReceiveEvent;
use crate::telemetry;
use crate::text;
use crate::text::laws as text_laws;
use crate::v2::frame;
use crate::v2::frame::FrameModel;
use crate::v2::laws;
use crate::v2::profile;
use crate::v2::profile::FragmentModel;
use crate::wire;

verus! {

/// A session never waits past its deadline nor longer than the poll bound, and
/// never waits for a frame that it does not want.
pub proof fn law_sessions_end_in_time(
    counters: ListenCounters,
    limits: ListenLimits,
    elapsed_nanos: u128,
    stopping: bool,
)
    ensures
        match session::poll_of(counters, limits, elapsed_nanos, stopping) {
            Some(poll) => {
                &&& !stopping
                &&& poll <= session::MAX_POLL_NANOS
                &&& limits.duration_nanos matches Some(duration) ==> elapsed_nanos + poll
                    <= duration
                &&& limits.maximum_frames matches Some(maximum) ==> counters.valid_frames < maximum
            },
            None => {
                ||| stopping
                ||| limits.maximum_frames matches Some(maximum) && counters.valid_frames >= maximum
                ||| limits.duration_nanos matches Some(duration) && elapsed_nanos > duration
            },
        },
{
}

/// Everything that a session has counted.
pub open spec fn total(counters: ListenCounters) -> int {
    counters.valid_frames + counters.unsupported_packets + counters.header_errors
        + counters.crc_errors + counters.protocol_errors
}

/// Every packet is counted exactly once, under what came of it, and of the other
/// events only rejected headers and rejected CRCs are counted.
pub proof fn law_everything_is_counted_once(
    counters: ListenCounters,
    outcome: PacketOutcome,
    event: ReceiveEvent,
)
    requires
        counters.has_room_for_packet(outcome),
        counters.has_room_for_event(event),
    ensures
        total(session::counted_packet(counters, outcome)) == total(counters) + 1,
        session::counted_packet(counters, outcome).valid_frames != counters.valid_frames <==> (
        outcome == PacketOutcome::ValidV1 || outcome == PacketOutcome::ValidV2),
        total(session::counted_event(counters, event)) == total(counters) + if event is HeaderError
            || event is CrcError {
            1int
        } else {
            0
        },
{
}

/// A packet counts as valid exactly if it decodes, and as unsupported exactly if
/// it is no Vesta frame of a known version.
pub proof fn law_only_decoded_packets_are_valid(route: session::Route<'_>, payload: Seq<u8>)
    requires
        route.is_route_of(payload),
    ensures
        (session::outcome_of(route) == PacketOutcome::ValidV1 || session::outcome_of(route)
            == PacketOutcome::ValidV2) <==> telemetry::decoded_any(payload) is Ok,
        session::outcome_of(route) == PacketOutcome::Unsupported <==> (telemetry::decoded_any(
            payload,
        ) matches Err(error) && session::disposition_of(error) == PacketDisposition::Unsupported),
{
}

/// No fragment is dropped silently: whatever comes of it, there is something to
/// do, and it ends with the profile or a report.
pub proof fn law_every_fragment_has_consequences(
    actions: Seq<FragmentAction>,
    result: IngestResult,
    packet_id: i64,
    snapshot: Option<ReassembledProfile>,
)
    requires
        session::are_actions_for(actions, result, packet_id, snapshot),
    ensures
        actions.len() > 0,
        actions.last() is Persist || actions.last() is Report,
{
}

/// Every scan that reassembly hands out is persisted: a completed one, and one
/// that had to make room.
pub proof fn law_handed_out_scans_are_persisted(
    actions: Seq<FragmentAction>,
    outcome: model::IngestModel,
    packet_id: i64,
)
    requires
        session::come_of(actions, outcome, packet_id),
    ensures
        outcome.evicted matches Some(scan) ==> actions.len() > 0 && (actions[0] matches
            FragmentAction::Persist(profile) && profile.reports(scan)),
        outcome.event matches model::EventModel::Complete(scan) ==> actions.len() > 0 && (
        actions.last() matches FragmentAction::Persist(profile) && profile.reports(scan)),
{
    let (result, snapshot) = choose|result: IngestResult, snapshot: Option<ReassembledProfile>|
        result.reports(outcome) && session::is_snapshot_for(snapshot, outcome)
            && #[trigger] session::are_actions_for(actions, result, packet_id, snapshot);
    assert(result.reports(outcome));
    assert(session::are_actions_for(actions, result, packet_id, snapshot));
}

/// A conflict that is counted for an active scan is stored together with the state of
/// the packet that it came in.
pub proof fn law_counted_conflicts_are_stored(
    actions: Seq<FragmentAction>,
    state: model::ReassemblerModel,
    fragment: FragmentModel,
    source: SourceFragment,
    observed_at: u128,
)
    requires
        model::state_valid(state),
        profile::fragment_valid(fragment),
        model::find_completed(state.completed, model::key_of(fragment.header)) is None,
        session::come_of(
            actions,
            model::ingested(state, fragment, source, observed_at),
            source.packet_id,
        ),
        model::ingested(state, fragment, source, observed_at).event is Conflict,
    ensures
        actions.len() >= 2,
        actions[actions.len() - 2] matches FragmentAction::Mark { packet_id, status, snapshot }
            && packet_id == source.packet_id && status == FragmentStorageStatus::Conflict && (
        snapshot matches Some(profile) && profile.scan.conflicting_fragment_count > 0),
{
    let outcome = model::ingested(state, fragment, source, observed_at);
    let metadata = model::metadata_of(fragment);
    model::lemma_valid_fragment(fragment);
    model::lemma_opened_scan(state, metadata, observed_at);
    let active = model::opened(model::with_room(state, metadata.key), metadata, observed_at);
    let position = model::find_active(active, metadata.key)->0;
    assert(outcome.state.active[position] == model::with_conflict(active[position]));
    assert(model::first_active(outcome.state.active, metadata.key, position)) by {
        assert forall|j: int| 0 <= j < position implies (
        #[trigger] outcome.state.active[j]).metadata.key != metadata.key by {
            assert(outcome.state.active[j] == active[j]);
        }
    }
    model::lemma_found(outcome.state.active, metadata.key, position);
    let (result, snapshot) = choose|result: IngestResult, snapshot: Option<ReassembledProfile>|
        result.reports(outcome) && session::is_snapshot_for(snapshot, outcome)
            && #[trigger] session::are_actions_for(actions, result, source.packet_id, snapshot);
    assert(result.reports(outcome));
    assert(session::is_snapshot_for(snapshot, outcome));
    assert(session::are_actions_for(actions, result, source.packet_id, snapshot));
}

/// A restart makes no difference to a scan of which nothing was counted: bringing it
/// back from what was stored has the effect that its fragments had.
pub proof fn law_restart_makes_no_difference(
    state: model::ReassemblerModel,
    partial: PartialScan,
    observed_at: u128,
)
    requires
        model::state_valid(state),
        !session::is_known(state, partial.key),
        session::faulty(partial.key, partial.sources@, partial.sources@.len() as int).len() == 0,
        partial.duplicate_fragment_count == 0,
        partial.conflicting_fragment_count == 0,
    ensures
        session::restored(state, partial, observed_at).0 == session::replayed(
            state,
            partial.sources@,
            partial.sources@.len() as int,
            observed_at,
        ).0,
{
    let sources = partial.sources@;
    if sources.len() > 0 {
        lemma_first_is_sound(partial.key, sources, sources.len() as int);
        let first = session::fragment_of(sources[0].packet.payload@);
        laws::law_decoded_fragments_are_valid(sources[0].packet.payload@, first);
        let source = session::source_of(sources[0].packet, sources[0].fragment_index);
        reassembly_laws::law_resuming_leaves_no_trace(state, first, source, observed_at);
        lemma_same_after_first(
            state,
            model::resumed(state, first, 0, 0, observed_at),
            sources,
            sources.len() as int,
            observed_at,
        );
    } else {
        reveal(session::replayed);
    }
}

proof fn lemma_first_is_sound(key: ProfileKey, sources: Seq<StoredSource>, count: int)
    requires
        0 < count <= sources.len(),
        session::faulty(key, sources, count).len() == 0,
    ensures
        session::source_fault(key, sources[0]) is None,
    decreases count,
{
    if count > 1 {
        lemma_first_is_sound(key, sources, count - 1);
    }
}

proof fn lemma_same_after_first(
    state: model::ReassemblerModel,
    other: model::ReassemblerModel,
    sources: Seq<StoredSource>,
    count: int,
    observed_at: u128,
)
    requires
        0 < count <= sources.len(),
        ({
            let fragment = session::fragment_of(sources[0].packet.payload@);
            let source = session::source_of(sources[0].packet, sources[0].fragment_index);
            model::ingested(state, fragment, source, observed_at).state == model::ingested(
                other,
                fragment,
                source,
                observed_at,
            ).state
        }),
    ensures
        session::replayed(state, sources, count, observed_at).0 == session::replayed(
            other,
            sources,
            count,
            observed_at,
        ).0,
    decreases count,
{
    reveal_with_fuel(session::replayed, 2);
    if count > 1 {
        lemma_same_after_first(state, other, sources, count - 1, observed_at);
    }
}

/// Whether a scan with a key counts at least so many copies and conflicts.
pub open spec fn counts_at_least(
    scan: model::ActiveModel,
    key: ProfileKey,
    duplicates: u16,
    conflicts: u16,
) -> bool {
    &&& scan.metadata.key == key
    &&& scan.duplicate_fragment_count >= duplicates
    &&& scan.conflicting_fragment_count >= conflicts
}

/// Whether one of some scans has a key and counts at least so many copies and
/// conflicts.
pub open spec fn one_counts_at_least(
    scans: Seq<model::ActiveModel>,
    key: ProfileKey,
    duplicates: u16,
    conflicts: u16,
) -> bool {
    exists|i: int|
        0 <= i < scans.len() && counts_at_least(#[trigger] scans[i], key, duplicates, conflicts)
}

/// The copies and the conflicts that were stored with an incomplete scan survive a
/// restart: whether the scan is active again, made room or was completed, it counts no
/// fewer of either.
pub proof fn law_stored_counts_survive_a_restart(
    state: model::ReassemblerModel,
    partial: PartialScan,
    observed_at: u128,
)
    requires
        model::state_valid(state),
        !session::is_known(state, partial.key),
        partial.sources@.len() > 0,
        session::faulty(partial.key, partial.sources@, partial.sources@.len() as int).len() == 0,
    ensures
        ({
            let end = session::restored(state, partial, observed_at);
            let duplicates = partial.duplicate_fragment_count;
            let conflicts = partial.conflicting_fragment_count;
            ||| one_counts_at_least(end.0.active, partial.key, duplicates, conflicts)
            ||| one_counts_at_least(end.1, partial.key, duplicates, conflicts)
        }),
{
    let sources = partial.sources@;
    let count = sources.len() as int;
    let key = partial.key;
    let duplicates = partial.duplicate_fragment_count;
    let conflicts = partial.conflicting_fragment_count;
    lemma_first_is_sound(key, sources, count);
    let first = session::fragment_of(sources[0].packet.payload@);
    laws::law_decoded_fragments_are_valid(sources[0].packet.payload@, first);
    let resumed = model::resumed(state, first, duplicates, conflicts, observed_at);
    reassembly_laws::law_resumed_scans_keep_their_counts(
        state,
        first,
        duplicates,
        conflicts,
        observed_at,
    );
    model::lemma_resuming_keeps_state(state, first, duplicates, conflicts, observed_at);
    let start = choose|i: int|
        0 <= i < resumed.active.len() && (#[trigger] resumed.active[i]).metadata.key == key
            && resumed.active[i].duplicate_fragment_count >= duplicates
            && resumed.active[i].conflicting_fragment_count >= conflicts;
    assert(counts_at_least(resumed.active[start], key, duplicates, conflicts));
    lemma_replay_keeps_counts(resumed, key, sources, count, duplicates, conflicts, observed_at);
    let end = session::replayed(resumed, sources, count, observed_at);
    let whole = session::restored(state, partial, observed_at);
    if one_counts_at_least(end.1, key, duplicates, conflicts) {
        let i = choose|i: int|
            0 <= i < end.1.len() && counts_at_least(
                #[trigger] end.1[i],
                key,
                duplicates,
                conflicts,
            );
        assert(whole.1[i + whole.1.len() - end.1.len()] == end.1[i]);
    }
}

#[verifier::spinoff_prover]
proof fn lemma_replay_keeps_counts(
    state: model::ReassemblerModel,
    key: ProfileKey,
    sources: Seq<StoredSource>,
    count: int,
    duplicates: u16,
    conflicts: u16,
    observed_at: u128,
)
    requires
        model::state_valid(state),
        0 <= count <= sources.len(),
        session::faulty(key, sources, count).len() == 0,
        one_counts_at_least(state.active, key, duplicates, conflicts),
    ensures
        ({
            let end = session::replayed(state, sources, count, observed_at);
            &&& model::state_valid(end.0)
            &&& {
                ||| one_counts_at_least(end.0.active, key, duplicates, conflicts)
                ||| one_counts_at_least(end.1, key, duplicates, conflicts)
            }
        }),
    decreases count,
{
    reveal(session::replayed);
    if count > 0 {
        lemma_replay_keeps_counts(
            state,
            key,
            sources,
            count - 1,
            duplicates,
            conflicts,
            observed_at,
        );
        let before = session::replayed(state, sources, count - 1, observed_at);
        let after = session::replayed(state, sources, count, observed_at);
        let stored = sources[count - 1];
        let fragment = session::fragment_of(stored.packet.payload@);
        let source = session::source_of(stored.packet, stored.fragment_index);
        let outcome = model::ingested(before.0, fragment, source, observed_at);
        laws::law_decoded_fragments_are_valid(stored.packet.payload@, fragment);
        model::lemma_ingest_keeps_state(before.0, fragment, source, observed_at);
        if one_counts_at_least(before.1, key, duplicates, conflicts) {
            let i = choose|i: int|
                0 <= i < before.1.len() && counts_at_least(
                    #[trigger] before.1[i],
                    key,
                    duplicates,
                    conflicts,
                );
            assert(after.1[i] == before.1[i]);
        } else {
            lemma_step_keeps_counts(
                before.0,
                key,
                fragment,
                source,
                duplicates,
                conflicts,
                observed_at,
            );
            let handed = session::handed_out(outcome);
            if one_counts_at_least(handed, key, duplicates, conflicts) {
                let i = choose|i: int|
                    0 <= i < handed.len() && counts_at_least(
                        #[trigger] handed[i],
                        key,
                        duplicates,
                        conflicts,
                    );
                assert(after.1[before.1.len() + i] == handed[i]);
            }
        }
    }
}

#[verifier::spinoff_prover]
proof fn lemma_step_keeps_counts(
    state: model::ReassemblerModel,
    key: ProfileKey,
    fragment: FragmentModel,
    source: SourceFragment,
    duplicates: u16,
    conflicts: u16,
    observed_at: u128,
)
    requires
        model::state_valid(state),
        profile::fragment_valid(fragment),
        source.fragment_index == fragment.header.fragment_index,
        one_counts_at_least(state.active, key, duplicates, conflicts),
    ensures
        ({
            let outcome = model::ingested(state, fragment, source, observed_at);
            ||| one_counts_at_least(outcome.state.active, key, duplicates, conflicts)
            ||| one_counts_at_least(session::handed_out(outcome), key, duplicates, conflicts)
        }),
{
    let outcome = model::ingested(state, fragment, source, observed_at);
    let handed = session::handed_out(outcome);
    let i = choose|i: int|
        0 <= i < state.active.len() && counts_at_least(
            #[trigger] state.active[i],
            key,
            duplicates,
            conflicts,
        );
    let scan = state.active[i];
    reassembly_laws::law_conflicts_are_not_forgotten(state, fragment, source, observed_at, i);
    if outcome.evicted == Some(scan) {
        assert(handed[0] == scan);
    } else if exists|j: int|
        0 <= j < outcome.state.active.len() && reassembly_laws::counts_no_less(
            #[trigger] outcome.state.active[j],
            scan,
        ) {
        let j = choose|j: int|
            0 <= j < outcome.state.active.len() && reassembly_laws::counts_no_less(
                #[trigger] outcome.state.active[j],
                scan,
            );
        assert(counts_at_least(outcome.state.active[j], key, duplicates, conflicts));
    } else {
        let last = handed.len() - 1;
        assert(counts_at_least(handed[last], key, duplicates, conflicts));
    }
}

/// A late fragment of a persisted scan that is active again is counted there as in
/// the database.
pub proof fn law_late_fragments_are_counted_alike(
    state: model::ReassemblerModel,
    key: ProfileKey,
    found: PersistedFragmentMatch,
)
    requires
        model::find_active(state.active, key) is Some,
    ensures
        ({
            let counts = session::late_counts(found);
            let position = model::find_active(state.active, key)->0;
            let before = state.active[position];
            let after = model::noted(state, key, counts.0, counts.1).active[position];
            (after.duplicate_fragment_count, after.conflicting_fragment_count)
                == storage::counters_of(
                found,
                before.duplicate_fragment_count,
                before.conflicting_fragment_count,
            )
        }),
{
    model::lemma_find_active(state.active, key);
}

/// Of the sources of an incomplete profile, each one is either set aside with its
/// error or released, so that one bad packet takes no other one with it.
pub proof fn law_no_source_is_orphaned(key: ProfileKey, sources: Seq<StoredSource>, i: int)
    requires
        0 <= i < sources.len(),
    ensures
        ({
            let packet_id = sources[i].packet.packet_id;
            let count = sources.len() as int;
            match session::source_fault(key, sources[i]) {
                Some(fault) => session::faulty(key, sources, count).contains((packet_id, fault)),
                None => session::sound(key, sources, count).contains(packet_id),
            }
        }),
        session::faulty(key, sources, sources.len() as int).len() + session::sound(
            key,
            sources,
            sources.len() as int,
        ).len() == sources.len(),
{
    lemma_accounted(key, sources, sources.len() as int, i);
}

proof fn lemma_accounted(key: ProfileKey, sources: Seq<StoredSource>, count: int, i: int)
    requires
        0 <= i < count <= sources.len(),
    ensures
        ({
            let packet_id = sources[i].packet.packet_id;
            match session::source_fault(key, sources[i]) {
                Some(fault) => session::faulty(key, sources, count).contains((packet_id, fault)),
                None => session::sound(key, sources, count).contains(packet_id),
            }
        }),
        session::faulty(key, sources, count).len() + session::sound(key, sources, count).len()
            == count,
    decreases count,
{
    let packet_id = sources[i].packet.packet_id;
    let faulty_before = session::faulty(key, sources, count - 1);
    let sound_before = session::sound(key, sources, count - 1);
    if i < count - 1 {
        lemma_accounted(key, sources, count - 1, i);
        match session::source_fault(key, sources[i]) {
            Some(fault) => {
                let k = faulty_before.index_of((packet_id, fault));
                assert(session::faulty(key, sources, count)[k] == (packet_id, fault));
            },
            None => {
                let k = sound_before.index_of(packet_id);
                assert(session::sound(key, sources, count)[k] == packet_id);
            },
        }
    } else {
        if i > 0 {
            lemma_accounted(key, sources, count - 1, i - 1);
        }
        match session::source_fault(key, sources[i]) {
            Some(fault) => {
                assert(session::faulty(key, sources, count)[faulty_before.len() as int] == (
                    packet_id,
                    fault,
                ));
            },
            None => {
                assert(session::sound(key, sources, count)[sound_before.len() as int] == packet_id);
            },
        }
    }
}

/// A late conflict with a persisted profile is announced before anything else, and
/// a late duplicate is not.
pub proof fn law_late_conflicts_are_announced(
    actions: Seq<FragmentAction>,
    found: PersistedFragmentMatch,
    key: ProfileKey,
    source: SourceFragment,
)
    requires
        session::are_persisted_actions(actions, found, key, source),
    ensures
        actions.len() > 0,
        actions[0] is IntegrityUpdate <==> found == PersistedFragmentMatch::Conflict,
{
}

/// Replay keeps the order of the archive.
pub proof fn law_replay_keeps_order(started: u128, earlier: usize, later: usize)
    requires
        earlier < later,
        started + later <= u128::MAX,
    ensures
        started <= session::replay_time_of(started, earlier) < session::replay_time_of(
            started,
            later,
        ),
{
}

/// White space around a frame does not matter, and a line of white space alone is
/// blank.
pub proof fn law_white_space_does_not_matter(
    before: Seq<char>,
    line: Seq<char>,
    after: Seq<char>,
)
    requires
        forall|i: int| 0 <= i < before.len() ==> session::is_white(#[trigger] before[i]),
        forall|i: int| 0 <= i < after.len() ==> session::is_white(#[trigger] after[i]),
    ensures
        session::trimmed(before + line + after) == session::trimmed(line),
        session::trimmed(before).len() == 0,
{
    assert(before + line + after =~= before + (line + after));
    lemma_leading(before, line + after);
    lemma_both_ends(line, after);
    lemma_leading(before, Seq::empty());
    assert(before + Seq::<char>::empty() =~= before);
}

proof fn lemma_leading(before: Seq<char>, rest: Seq<char>)
    requires
        forall|i: int| 0 <= i < before.len() ==> session::is_white(#[trigger] before[i]),
    ensures
        session::without_leading(before + rest) == session::without_leading(rest),
    decreases before.len(),
{
    if before.len() > 0 {
        assert((before + rest)[0] == before[0]);
        assert((before + rest).drop_first() =~= before.drop_first() + rest);
        lemma_leading(before.drop_first(), rest);
    } else {
        assert(before + rest =~= rest);
    }
}

proof fn lemma_trailing(rest: Seq<char>, after: Seq<char>)
    requires
        forall|i: int| 0 <= i < after.len() ==> session::is_white(#[trigger] after[i]),
    ensures
        session::without_trailing(rest + after) == session::without_trailing(rest),
    decreases after.len(),
{
    if after.len() > 0 {
        assert((rest + after).last() == after.last());
        assert((rest + after).drop_last() =~= rest + after.drop_last());
        lemma_trailing(rest, after.drop_last());
    } else {
        assert(rest + after =~= rest);
    }
}

proof fn lemma_both_ends(line: Seq<char>, after: Seq<char>)
    requires
        forall|i: int| 0 <= i < after.len() ==> session::is_white(#[trigger] after[i]),
    ensures
        session::trimmed(line + after) == session::trimmed(line),
    decreases line.len(),
{
    if line.len() > 0 && session::is_white(line[0]) {
        assert((line + after)[0] == line[0]);
        assert((line + after).drop_first() =~= line.drop_first() + after);
        lemma_both_ends(line.drop_first(), after);
    } else if line.len() > 0 {
        assert((line + after)[0] == line[0]);
        lemma_trailing(line, after);
    } else {
        assert(line + after =~= after);
        lemma_leading(after, Seq::empty());
        assert(after + Seq::<char>::empty() =~= after);
    }
}

/// A session waits for 250 milliseconds, or for what is left of its time where that is
/// less, and it goes on as long as it was not told to stop, has time left and wants
/// another frame.
pub proof fn law_sessions_wait_as_long_as_they_may(
    counters: ListenCounters,
    limits: ListenLimits,
    elapsed_nanos: u128,
    stopping: bool,
)
    ensures
        session::poll_of(counters, limits, elapsed_nanos, stopping) is Some <==> {
            &&& !stopping
            &&& limits.maximum_frames matches Some(maximum) ==> counters.valid_frames < maximum
            &&& limits.duration_nanos matches Some(duration) ==> elapsed_nanos <= duration
        },
        session::poll_of(counters, limits, elapsed_nanos, stopping) matches Some(poll) ==> {
            ||| poll == 250_000_000 && (limits.duration_nanos matches Some(duration)
                ==> elapsed_nanos + 250_000_000 <= duration)
            ||| poll < 250_000_000 && (limits.duration_nanos matches Some(duration)
                && elapsed_nanos + poll == duration)
        },
{
}

/// A packet raises the one counter that is named after what came of it, an event that
/// of its own error, and neither touches another counter.
pub proof fn law_each_outcome_has_its_counter(
    counters: ListenCounters,
    outcome: PacketOutcome,
    event: ReceiveEvent,
)
    requires
        counters.has_room_for_packet(outcome),
        counters.has_room_for_event(event),
    ensures
        ({
            let after = session::counted_packet(counters, outcome);
            let valid = outcome == PacketOutcome::ValidV1 || outcome == PacketOutcome::ValidV2;
            &&& after.valid_frames == counters.valid_frames + if valid {
                1int
            } else {
                0
            }
            &&& after.unsupported_packets == counters.unsupported_packets + if outcome
                == PacketOutcome::Unsupported {
                1int
            } else {
                0
            }
            &&& after.protocol_errors == counters.protocol_errors + if outcome
                == PacketOutcome::Invalid {
                1int
            } else {
                0
            }
            &&& after.header_errors == counters.header_errors
            &&& after.crc_errors == counters.crc_errors
        }),
        ({
            let after = session::counted_event(counters, event);
            &&& after.header_errors == counters.header_errors + if event is HeaderError {
                1int
            } else {
                0
            }
            &&& after.crc_errors == counters.crc_errors + if event is CrcError {
                1int
            } else {
                0
            }
            &&& after.valid_frames == counters.valid_frames
            &&& after.unsupported_packets == counters.unsupported_packets
            &&& after.protocol_errors == counters.protocol_errors
        }),
{
}

/// Where a packet goes is decided by its bytes: what does not start with `VS` and a
/// known version is unsupported, what does but breaks its rules is invalid, and what
/// decodes is handled as the version and the type that the bytes name.
pub proof fn law_packets_are_routed_by_their_bytes(route: session::Route<'_>, payload: Seq<u8>)
    requires
        route.is_route_of(payload),
    ensures
        ({
            let known = payload.len() >= 3 && payload[0] == 0x56 && payload[1] == 0x53 && (
            payload[2] == 1 || payload[2] == 2);
            &&& session::outcome_of(route) == PacketOutcome::Unsupported <==> !known
            &&& session::outcome_of(route) == PacketOutcome::Invalid ==> known
            &&& session::outcome_of(route) == PacketOutcome::ValidV1 ==> payload[2] == 1
                && payload.len() == 48
            &&& session::outcome_of(route) == PacketOutcome::ValidV2 ==> payload[2] == 2
                && payload.len() >= 48
            &&& match route {
                session::Route::Undecodable { disposition, error } => {
                    &&& telemetry::decoded_any(payload) matches Err(found) && found == error
                    &&& disposition == if known {
                        PacketDisposition::Invalid
                    } else {
                        PacketDisposition::Unsupported
                    }
                },
                session::Route::V1(reading) => {
                    &&& session::outcome_of(route) == PacketOutcome::ValidV1
                    &&& reading.node_id == wire::be64(payload, 4)
                    &&& reading.sequence == wire::be32(payload, 12)
                },
                session::Route::V2 { header, kind, frame } => {
                    &&& session::outcome_of(route) == PacketOutcome::ValidV2
                    &&& header == frame.model().header()
                    &&& header.common.node_id == wire::be64(payload, 10)
                    &&& header.fragment_index == payload[6]
                    &&& kind == V2PacketKind::DeviceConfig <==> payload[3] == 1
                    &&& kind == V2PacketKind::ProfileFragment <==> payload[3] == 2
                    &&& kind == V2PacketKind::DeviceHealth <==> payload[3] == 3
                },
            }
        }),
{
}

/// A stored source is a fragment of a scan exactly if its bytes decode as a profile
/// fragment with the scan's key at the index that it was stored under. Its provenance is
/// that of its packet.
pub proof fn law_sources_are_checked_against_their_bytes(
    key: ProfileKey,
    source: StoredSource,
)
    ensures
        session::source_fault(key, source) is None <==> (frame::decoded(
            source.packet.payload@,
        ) matches Ok(FrameModel::ProfileFragment(fragment)) && model::key_of(fragment.header) == key
            && fragment.header.fragment_index == source.fragment_index),
        ({
            let provenance = session::source_of(source.packet, source.fragment_index);
            &&& provenance.packet_id == source.packet.packet_id
            &&& provenance.received_at_unix_ms == source.packet.received_at_unix_ms
            &&& provenance.radio == source.packet.radio
            &&& provenance.fragment_index == source.fragment_index
        }),
{
}

/// Replay takes place one nanosecond after another from the start on.
pub proof fn law_replay_time_is_one_nanosecond_each(started: u128, ordinal: usize)
    requires
        started + ordinal < 0xffff_ffff_ffff_ffff_ffff_ffff_ffff_ffff,
        ordinal < usize::MAX,
    ensures
        session::replay_time_of(started, 0) == started,
        session::replay_time_of(started, (ordinal + 1) as usize) == session::replay_time_of(
            started,
            ordinal,
        ) + 1,
{
}

/// What a fragment leads to is told apart by the marks: a duplicate is marked as one and
/// a conflict as one, each under the packet that it came in, and nothing else is marked.
pub proof fn law_marks_say_what_came_of_the_fragment(
    actions: Seq<FragmentAction>,
    result: IngestResult,
    packet_id: i64,
    snapshot: Option<ReassembledProfile>,
    i: int,
)
    requires
        session::are_actions_for(actions, result, packet_id, snapshot),
        0 <= i < actions.len(),
    ensures
        actions[i] matches FragmentAction::Mark { packet_id: marked, status, snapshot: stored } ==> {
            &&& marked == packet_id
            &&& stored == snapshot
            &&& result.event is Duplicate || result.event is Conflict
            &&& status == FragmentStorageStatus::Duplicate <==> result.event is Duplicate
            &&& status == FragmentStorageStatus::Conflict <==> result.event is Conflict
        },
        actions[i] matches FragmentAction::Persist(profile) ==> result.evicted == Some(profile)
            || result.event == FragmentEvent::Complete(profile),
        !(actions[i] is IntegrityUpdate),
        result.event is Duplicate || result.event is Conflict ==> exists|j: int|
            0 <= j < actions.len() && (#[trigger] actions[j]) is Mark,
{
    let first: int = if result.evicted is Some {
        1
    } else {
        0
    };
    if result.event is Duplicate || result.event is Conflict {
        assert(actions[first] is Mark);
    }
}

/// A frame that decodes can be passed on as text: its digits, in either case and with or
/// without a prefix, read back as its bytes.
pub proof fn law_frames_read_back_from_text(
    bytes: Seq<u8>,
    upper_case: bool,
    upper_case_prefix: bool,
)
    requires
        telemetry::decoded_any(bytes) is Ok,
        bytes.len() <= 255,
    ensures
        session::payload_of(hex_laws::digits_of(bytes, upper_case)) == Ok::<
            Seq<u8>,
            FrameTextError,
        >(bytes),
        session::payload_of(
            hex_laws::prefixed(hex_laws::digits_of(bytes, upper_case), upper_case_prefix),
        ) == Ok::<Seq<u8>, FrameTextError>(bytes),
{
    hex_laws::law_written_digits_parse(bytes, upper_case, upper_case_prefix);
}

/// Text is read only as a frame that decodes, and what does not decode is refused with
/// the reason.
pub proof fn law_text_is_read_only_as_a_frame(encoded: Seq<u8>)
    ensures
        match session::payload_of(encoded) {
            Ok(payload) => telemetry::decoded_any(payload) is Ok && hex::parsed_payload(encoded)
                == Ok::<Seq<u8>, HexError>(payload),
            Err(FrameTextError::Hex(error)) => hex::parsed_payload(encoded) == Err::<
                Seq<u8>,
                HexError,
            >(error),
            Err(FrameTextError::Protocol(error)) => hex::parsed_payload(encoded) matches Ok(payload)
                && telemetry::decoded_any(payload) == Err::<
                telemetry::TelemetryModel,
                telemetry::ProtocolDecodeError,
            >(error),
        },
{
}

/// The report of a pending profile shows each part of the scan's key behind its own words,
/// and the fragments that are missing. That of a repeated fragment shows which fragment it
/// is and which packet it came in, and that of a radio event the whole bitmap.
#[verifier::spinoff_prover]
#[verifier::rlimit(30)]
pub proof fn law_reports_show_the_scan(
    progress: ReassemblyProgress,
    how: Seq<char>,
    fragment_index: u8,
    packet_id: i64,
    irq: u16,
)
    ensures
        text_laws::shows(
            session::pending_text(progress),
            "v2 profile "@ + text::hex_digits(progress.key.node_id as nat, 16) + "/valid="@,
        ),
        text_laws::shows(
            session::pending_text(progress),
            "/valid="@ + text::truth(progress.key.boot_id_valid) + "/"@,
        ),
        text_laws::shows(
            session::pending_text(progress),
            "/"@ + text::hex_digits(progress.key.boot_id as nat, 16) + "/"@,
        ),
        text_laws::shows(
            session::pending_text(progress),
            "/"@ + text::decimal(progress.key.scan_sequence as nat) + "/uptime="@,
        ),
        text_laws::shows(
            session::pending_text(progress),
            "/uptime="@ + text::decimal(progress.key.uptime_ms as nat) + "/config="@,
        ),
        text_laws::shows(
            session::pending_text(progress),
            "/config="@ + text::hex_digits(progress.key.config_id as nat, 16)
                + " pending fragments 0x"@,
        ),
        text_laws::shows(
            session::pending_text(progress),
            " pending fragments 0x"@ + text::hexadecimal(progress.missing_fragment_bitmap as nat),
        ),
        text_laws::shows(session::repeated_text(how, fragment_index, packet_id), how),
        text_laws::shows(
            session::repeated_text(how, fragment_index, packet_id),
            text::decimal(fragment_index as nat) + " in packet "@,
        ),
        text_laws::shows(
            session::repeated_text(how, fragment_index, packet_id),
            " in packet "@ + text::signed_decimal(packet_id as int),
        ),
        text_laws::shows(
            session::event_text(ReceiveEvent::HeaderError { irq })->0,
            "radio: rejected LoRa header (IRQ 0x"@ + text::hex_digits(irq as nat, 4) + ")"@,
        ),
        text_laws::shows(
            session::event_text(ReceiveEvent::CrcError { irq })->0,
            "radio: rejected PHY CRC (IRQ 0x"@ + text::hex_digits(irq as nat, 4) + ")"@,
        ),
        text_laws::shows(
            session::event_text(ReceiveEvent::RadioTimeout { irq })->0,
            "radio: unexpected RX timeout (IRQ 0x"@ + text::hex_digits(irq as nat, 4) + ")"@,
        ),
        text_laws::shows(
            session::event_text(ReceiveEvent::OtherIrq(irq))->0,
            "radio: unexpected IRQ 0x"@ + text::hex_digits(irq as nat, 4),
        ),
{
    let parts = seq![
        "v2 profile "@,
        text::hex_digits(progress.key.node_id as nat, 16),
        "/valid="@,
        text::truth(progress.key.boot_id_valid),
        "/"@,
        text::hex_digits(progress.key.boot_id as nat, 16),
        "/"@,
        text::decimal(progress.key.scan_sequence as nat),
        "/uptime="@,
        text::decimal(progress.key.uptime_ms as nat),
        "/config="@,
        text::hex_digits(progress.key.config_id as nat, 16),
        " pending fragments 0x"@,
        text::hexadecimal(progress.missing_fragment_bitmap as nat),
    ];
    assert(Seq::<char>::empty() + parts[0] =~= parts[0]);
    let message = session::pending_text(progress);
    assert(message == text_laws::joined(Seq::empty(), parts, 14)) by {
        reveal_with_fuel(text_laws::joined, 15);
    }
    text_laws::lemma_labelled(Seq::empty(), parts, 14, 0);
    text_laws::lemma_labelled(Seq::empty(), parts, 14, 2);
    text_laws::lemma_labelled(Seq::empty(), parts, 14, 4);
    text_laws::lemma_labelled(Seq::empty(), parts, 14, 6);
    text_laws::lemma_labelled(Seq::empty(), parts, 14, 8);
    text_laws::lemma_labelled(Seq::empty(), parts, 14, 10);
    text_laws::lemma_labelled(Seq::empty(), parts, 14, 12);
    let parts = seq![
        how,
        text::decimal(fragment_index as nat),
        " in packet "@,
        text::signed_decimal(packet_id as int),
    ];
    assert(Seq::<char>::empty() + parts[0] =~= parts[0]);
    let message = session::repeated_text(how, fragment_index, packet_id);
    assert(message == text_laws::joined(Seq::empty(), parts, 4)) by {
        reveal_with_fuel(text_laws::joined, 5);
    }
    text_laws::lemma_labelled(Seq::empty(), parts, 4, 0);
    text_laws::lemma_labelled(Seq::empty(), parts, 4, 1);
    text_laws::lemma_labelled(Seq::empty(), parts, 4, 2);
    let parts = seq!["radio: rejected LoRa header (IRQ 0x"@, text::hex_digits(irq as nat, 4), ")"@];
    assert(Seq::<char>::empty() + parts[0] =~= parts[0]);
    let message = session::event_text(ReceiveEvent::HeaderError { irq })->0;
    assert(message == text_laws::joined(Seq::empty(), parts, 3)) by {
        reveal_with_fuel(text_laws::joined, 4);
    }
    text_laws::lemma_labelled(Seq::empty(), parts, 3, 0);
    let parts = seq!["radio: rejected PHY CRC (IRQ 0x"@, text::hex_digits(irq as nat, 4), ")"@];
    assert(Seq::<char>::empty() + parts[0] =~= parts[0]);
    let message = session::event_text(ReceiveEvent::CrcError { irq })->0;
    assert(message == text_laws::joined(Seq::empty(), parts, 3)) by {
        reveal_with_fuel(text_laws::joined, 4);
    }
    text_laws::lemma_labelled(Seq::empty(), parts, 3, 0);
    let parts = seq![
        "radio: unexpected RX timeout (IRQ 0x"@,
        text::hex_digits(irq as nat, 4),
        ")"@,
    ];
    assert(Seq::<char>::empty() + parts[0] =~= parts[0]);
    let message = session::event_text(ReceiveEvent::RadioTimeout { irq })->0;
    assert(message == text_laws::joined(Seq::empty(), parts, 3)) by {
        reveal_with_fuel(text_laws::joined, 4);
    }
    text_laws::lemma_labelled(Seq::empty(), parts, 3, 0);
    let parts = seq!["radio: unexpected IRQ 0x"@, text::hex_digits(irq as nat, 4)];
    assert(Seq::<char>::empty() + parts[0] =~= parts[0]);
    let message = session::event_text(ReceiveEvent::OtherIrq(irq))->0;
    assert(message == text_laws::joined(Seq::empty(), parts, 2)) by {
        reveal_with_fuel(text_laws::joined, 3);
    }
    text_laws::lemma_labelled(Seq::empty(), parts, 2, 0);
}

/// A fragment of a persisted profile is always reported, and a persisted profile is
/// announced as invalidated exactly if the fragment is in conflict with it, under the
/// scan, the packet and the fragment that are concerned.
pub proof fn law_persisted_profiles_are_invalidated_by_conflicts(
    actions: Seq<FragmentAction>,
    found: PersistedFragmentMatch,
    key: ProfileKey,
    source: SourceFragment,
    i: int,
)
    requires
        session::are_persisted_actions(actions, found, key, source),
        0 <= i < actions.len(),
    ensures
        actions[i] is Report || actions[i] is IntegrityUpdate,
        actions.last() is Report,
        actions[i] matches FragmentAction::IntegrityUpdate {
            key: named,
            packet_id,
            fragment_index,
        } ==> {
            &&& found == PersistedFragmentMatch::Conflict
            &&& named == key
            &&& packet_id == source.packet_id
            &&& fragment_index == source.fragment_index
        },
        found == PersistedFragmentMatch::Conflict ==> actions[0] is IntegrityUpdate,
{
}

/// One fragment hands out the scan that made room, if one did, and then the scan that it
/// completed, if it did, and no other.
pub proof fn law_one_fragment_hands_out_at_most_two(outcome: model::IngestModel)
    ensures
        ({
            let scans = session::handed_out(outcome);
            let evicted: int = if outcome.evicted is Some {
                1
            } else {
                0
            };
            let completed: int = if outcome.event is Complete {
                1
            } else {
                0
            };
            &&& scans.len() == evicted + completed
            &&& outcome.evicted matches Some(scan) ==> scans[0] == scan
            &&& outcome.event matches model::EventModel::Complete(scan) ==> scans[evicted] == scan
        }),
{
}

/// A scan that is known is left alone, one with a source that is no fragment of it is
/// not restored, and every other one is: its sound sources are released only where there
/// is a faulty one to quarantine.
pub proof fn law_only_sound_scans_are_restored(
    outcome: Rehydration,
    before: model::ReassemblerModel,
    after: model::ReassemblerModel,
    partial: PartialScan,
    observed_at: u128,
    i: int,
)
    requires
        session::is_rehydration(outcome, before, after, partial, observed_at),
        0 <= i < partial.sources@.len(),
    ensures
        outcome is Known <==> session::is_known(before, partial.key),
        !(outcome is Restored) ==> after == before,
        outcome is Restored ==> session::source_fault(partial.key, partial.sources@[i]) is None,
        !session::is_known(before, partial.key) && session::source_fault(
            partial.key,
            partial.sources@[i],
        ) is Some ==> outcome is Contaminated,
        outcome matches Rehydration::Contaminated { quarantined, .. } ==> quarantined@.len() > 0,
{
    let count = partial.sources@.len() as int;
    lemma_faults_are_found(partial.key, partial.sources@, count, i);
}

proof fn lemma_faults_are_found(key: ProfileKey, sources: Seq<StoredSource>, count: int, i: int)
    requires
        0 <= i < count <= sources.len(),
    ensures
        session::source_fault(key, sources[i]) is Some ==> session::faulty(
            key,
            sources,
            count,
        ).len() > 0,
    decreases count,
{
    if i < count - 1 {
        lemma_faults_are_found(key, sources, count - 1, i);
    }
}

/// A line of a stream is blank exactly if it holds white space only. Otherwise it is the
/// frame that its text stands for, which decodes, or it is reported under its number with
/// the reason why it is none.
pub proof fn law_lines_are_frames_or_reported(
    outcome: LineOutcome,
    line_number: usize,
    line: Seq<char>,
)
    requires
        session::is_outcome_of(outcome, line_number, line),
    ensures
        outcome is Blank <==> forall|i: int| 0 <= i < line.len() ==> session::is_white(
            #[trigger] line[i],
        ),
        outcome matches LineOutcome::Frame(payload) ==> telemetry::decoded_any(payload@) is Ok
            && session::payload_of(session::bytes_of(session::trimmed(line))) == Ok::<
            Seq<u8>,
            FrameTextError,
        >(payload@),
        outcome matches LineOutcome::Failed(report) ==> {
            &&& session::payload_of(session::bytes_of(session::trimmed(line))) is Err
            &&& text_laws::shows(report@, "line "@ + text::decimal(line_number as nat) + ": "@)
        },
{
    lemma_only_white(line);
    if let LineOutcome::Failed(report) = outcome {
        let error = session::payload_of(session::bytes_of(session::trimmed(line)))->Err_0;
        let passage = "line "@ + text::decimal(line_number as nat) + ": "@;
        assert(report@ =~= Seq::<char>::empty() + passage + session::frame_text_error_text(error));
    }
}

proof fn lemma_only_white(line: Seq<char>)
    ensures
        session::trimmed(line).len() == 0 <==> forall|i: int|
            0 <= i < line.len() ==> session::is_white(#[trigger] line[i]),
    decreases line.len(),
{
    let rest = session::without_leading(line);
    if line.len() > 0 && session::is_white(line[0]) {
        let tail = line.drop_first();
        lemma_only_white(tail);
        assert forall|i: int| 0 < i < line.len() implies (#[trigger] line[i]) == tail[i - 1] by {}
        if forall|i: int| 0 <= i < tail.len() ==> session::is_white(#[trigger] tail[i]) {
            assert forall|i: int| 0 <= i < line.len() implies session::is_white(
                #[trigger] line[i],
            ) by {
                if i > 0 {
                    assert(line[i] == tail[i - 1]);
                }
            }
        }
        if forall|i: int| 0 <= i < line.len() ==> session::is_white(#[trigger] line[i]) {
            assert forall|i: int| 0 <= i < tail.len() implies session::is_white(
                #[trigger] tail[i],
            ) by {
                assert(tail[i] == line[i + 1]);
            }
        }
    } else if line.len() > 0 {
        lemma_first_stays(line);
    }
}

proof fn lemma_first_stays(line: Seq<char>)
    requires
        line.len() > 0,
        !session::is_white(line[0]),
    ensures
        session::without_trailing(line).len() > 0,
    decreases line.len(),
{
    if session::is_white(line.last()) {
        assert(line.drop_last()[0] == line[0]);
        lemma_first_stays(line.drop_last());
    }
}

} // verus!
