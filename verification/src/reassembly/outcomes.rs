//! What comes of single fragments: which scan they belong to, what they add to it, and
//! what is remembered of it.

use vstd::prelude::*;

use crate::convert;
use crate::reassembly;
use crate::reassembly::laws as reassembly_laws;
use crate::reassembly::model;
use crate::reassembly::model::{
    ActiveModel, CompletedModel, EventModel, ProfileKey, ReassemblerModel, SourceFragment,
};
use crate::reassembly::{ReassembledProfile, ReassemblyError};
use crate::text;
use crate::text::laws as text_laws;
use crate::v2::checks;
use crate::v2::profile;
use crate::v2::profile::FragmentModel;
use crate::v2::types::Header;

verus! {

/// Two headers belong to the same scan exactly if node, boot nonce and its validity,
/// sequence, uptime and configuration all agree. Nothing else in them matters.
pub proof fn law_scans_are_told_apart(first: Header, second: Header)
    ensures
        model::key_of(first) == model::key_of(second) <==> {
            &&& first.common.node_id == second.common.node_id
            &&& (first.common.flags & 0x01 != 0) == (second.common.flags & 0x01 != 0)
            &&& first.common.boot_id == second.common.boot_id
            &&& first.common.scan_sequence == second.common.scan_sequence
            &&& first.common.uptime_ms == second.common.uptime_ms
            &&& first.common.config_id == second.common.config_id
        },
        ({
            let key = model::key_of(first);
            &&& key.node_id == first.common.node_id
            &&& key.boot_id_valid == (first.common.flags & 0x01 != 0)
            &&& key.boot_id == first.common.boot_id
            &&& key.scan_sequence == first.common.scan_sequence
            &&& key.uptime_ms == first.common.uptime_ms
            &&& key.config_id == first.common.config_id
        }),
{
}

/// Counters grow by what is counted and stay at 65535.
pub proof fn law_counters_stay_at_their_greatest_value(count: u16, more: u16)
    ensures
        model::counted(count) == if count + 1 <= 65535 {
            count + 1
        } else {
            65535
        },
        model::counted_together(count, more) == if count + more <= 65535 {
            count + more
        } else {
            65535
        },
{
}

/// Room is made only where it is needed, and by the scan that was observed least
/// recently: one is evicted exactly if the fragment's scan is neither active nor
/// completed and there is no room for another, no other active scan was observed before
/// the evicted one, and the evicted one is active no more.
pub proof fn law_least_recent_scan_makes_room(
    state: ReassemblerModel,
    fragment: FragmentModel,
    source: SourceFragment,
    observed_at: u128,
)
    requires
        model::state_valid(state),
        profile::fragment_valid(fragment),
        source.fragment_index == fragment.header.fragment_index,
    ensures
        ({
            let key = model::key_of(fragment.header);
            let outcome = model::ingested(state, fragment, source, observed_at);
            let active = exists|i: int|
                0 <= i < state.active.len() && (#[trigger] state.active[i]).metadata.key == key;
            let completed = exists|i: int|
                0 <= i < state.completed.len() && (#[trigger] state.completed[i]).metadata.key
                    == key;
            &&& outcome.evicted is Some <==> !active && !completed && state.active.len()
                == state.max_active
            &&& outcome.evicted matches Some(scan) ==> {
                &&& state.active.contains(scan)
                &&& forall|i: int|
                    0 <= i < state.active.len() ==> scan.last_observed_at <= (
                    #[trigger] state.active[i]).last_observed_at
                &&& scan.metadata.key != key
                &&& forall|j: int|
                    0 <= j < outcome.state.active.len() ==> (
                    #[trigger] outcome.state.active[j]).metadata.key != scan.metadata.key
            }
        }),
{
    let metadata = model::metadata_of(fragment);
    let key = metadata.key;
    let outcome = model::ingested(state, fragment, source, observed_at);
    model::lemma_valid_fragment(fragment);
    model::lemma_find_completed(state.completed, key);
    model::lemma_find_active(state.active, key);
    if model::find_completed(state.completed, key) is None && model::must_evict(state, key) {
        model::lemma_has_oldest(state.active);
        let evictee = model::oldest(state.active);
        let scan = state.active[evictee];
        assert(state.active.contains(scan));
        model::lemma_opened_scan(state, metadata, observed_at);
        let room = model::with_room(state, key);
        let active = model::opened(room, metadata, observed_at);
        assert forall|j: int| 0 <= j < active.len() implies (#[trigger] active[j]).metadata.key
            != scan.metadata.key by {
            if j < room.len() {
                assert(active[j] == room[j]);
                if j >= evictee {
                    assert(room[j] == state.active[j + 1]);
                    assert(state.active[evictee].metadata.key != state.active[j + 1].metadata.key);
                } else {
                    assert(room[j] == state.active[j]);
                    assert(state.active[j].metadata.key != state.active[evictee].metadata.key);
                }
            }
        }
        let position = model::find_active(active, key)->0;
        assert forall|j: int| 0 <= j < outcome.state.active.len() implies (
        #[trigger] outcome.state.active[j]).metadata.key != scan.metadata.key by {
            let at = if outcome.state.active.len() < active.len() && j >= position {
                j + 1
            } else {
                j
            };
            assert(outcome.state.active[j].metadata.key == active[at].metadata.key);
        }
    }
}

/// A fragment that its active scan lacks is added to it and changes nothing else: the
/// scan then holds the fragment's steps at the fragment's place and one more source,
/// its bitmap has one more bit, it counts as observed at the later of the two times,
/// and its counts are as before. As long as another fragment is missing the scan stays
/// where it is, and the progress names the scan and exactly the missing fragments.
/// Otherwise the scan is handed out.
#[verifier::spinoff_prover]
pub proof fn law_lacking_fragment_is_added(
    state: ReassemblerModel,
    i: int,
    fragment: FragmentModel,
    source: SourceFragment,
    observed_at: u128,
)
    requires
        model::state_valid(state),
        profile::fragment_valid(fragment),
        source.fragment_index == fragment.header.fragment_index,
        0 <= i < state.active.len(),
        state.active[i].metadata == model::metadata_of(fragment),
        state.active[i].fragments[fragment.header.fragment_index as int] is None,
    ensures
        ({
            let index = fragment.header.fragment_index as int;
            let before = state.active[i];
            let outcome = model::ingested(state, fragment, source, observed_at);
            let last = forall|k: int|
                0 <= k < before.fragments.len() && k != index
                    ==> (#[trigger] before.fragments[k]) is Some;
            let after = if last {
                outcome.event->Complete_0
            } else {
                outcome.state.active[i]
            };
            &&& outcome.evicted is None
            &&& outcome.event is Complete <==> last
            &&& outcome.event is Pending <==> !last
            &&& after.metadata == before.metadata
            &&& after.fragments.len() == before.fragments.len()
            &&& after.fragments[index] == Some(convert::step_records(fragment.steps))
            &&& forall|k: int|
                0 <= k < before.fragments.len() && k != index
                    ==> #[trigger] after.fragments[k] == before.fragments[k]
            &&& after.sources == before.sources.push(source)
            &&& forall|k: int|
                0 <= k < 16 ==> #[trigger] checks::has_bit(after.received_fragment_bitmap, k) == (
                k == index || checks::has_bit(before.received_fragment_bitmap, k))
            &&& after.duplicate_fragment_count == before.duplicate_fragment_count
            &&& after.conflicting_fragment_count == before.conflicting_fragment_count
            &&& after.last_observed_at >= before.last_observed_at
            &&& after.last_observed_at >= observed_at
            &&& after.last_observed_at == before.last_observed_at || after.last_observed_at
                == observed_at
            &&& forall|j: int|
                0 <= j < state.active.len() && j != i && !last ==> (
                #[trigger] outcome.state.active[j]) == state.active[j]
            &&& last ==> outcome.state.active == state.active.remove(i)
            &&& outcome.event matches EventModel::Pending(progress) ==> {
                &&& progress.key == model::key_of(fragment.header)
                &&& progress.received_fragment_bitmap == after.received_fragment_bitmap
                &&& forall|k: int|
                    0 <= k < 16 ==> #[trigger] checks::has_bit(progress.missing_fragment_bitmap, k)
                        == (k < after.fragments.len() && after.fragments[k] is None)
            }
        }),
{
    let metadata = model::metadata_of(fragment);
    let key = metadata.key;
    let index = fragment.header.fragment_index as int;
    let before = state.active[i];
    let steps = convert::step_records(fragment.steps);
    let outcome = model::ingested(state, fragment, source, observed_at);
    model::lemma_valid_fragment(fragment);
    lemma_stays_open(state, i, fragment, observed_at);
    let grown = model::with_fragment(before, index, steps, source, observed_at);
    model::lemma_with_fragment(before, index, steps, source, observed_at);
    assert forall|k: int| 0 <= k < 16 implies #[trigger] checks::has_bit(
        grown.received_fragment_bitmap,
        k,
    ) == (k == index || checks::has_bit(before.received_fragment_bitmap, k)) by {
        checks::lemma_bit_of_or(before.received_fragment_bitmap, index, k);
    }
    let last = forall|k: int|
        0 <= k < before.fragments.len() && k != index ==> (#[trigger] before.fragments[k]) is Some;
    assert(model::is_complete(grown) == last) by {
        if last {
            assert forall|k: int| 0 <= k < grown.fragments.len() implies (
            #[trigger] grown.fragments[k]) is Some by {
                if k != index {
                    assert(before.fragments[k] is Some);
                }
            }
        } else {
            let k = choose|k: int|
                0 <= k < before.fragments.len() && k != index && !((
                #[trigger] before.fragments[k]) is Some);
            assert(grown.fragments[k] == before.fragments[k]);
        }
    }
    if !last {
        assert forall|k: int| 0 <= k < 16 implies #[trigger] checks::has_bit(
            model::progress_of(grown).missing_fragment_bitmap,
            k,
        ) == (k < grown.fragments.len() && grown.fragments[k] is None) by {
            checks::lemma_mask_without(
                grown.received_fragment_bitmap,
                grown.metadata.expected_fragment_count,
                k,
            );
            assert(checks::has_bit(grown.received_fragment_bitmap, k) == (k
                < grown.fragments.len() && grown.fragments[k] is Some));
        }
    }
}

proof fn lemma_stays_open(
    state: ReassemblerModel,
    i: int,
    fragment: FragmentModel,
    observed_at: u128,
)
    requires
        model::state_valid(state),
        0 <= i < state.active.len(),
        state.active[i].metadata.key == model::key_of(fragment.header),
    ensures
        ({
            let metadata = model::metadata_of(fragment);
            &&& model::find_completed(state.completed, metadata.key) is None
            &&& model::opened(
                model::with_room(state, metadata.key),
                metadata,
                observed_at,
            ) == state.active
            &&& model::find_active(state.active, metadata.key) == Some(i)
            &&& model::evicted_of(state, metadata.key) is None
        }),
{
    let key = model::key_of(fragment.header);
    model::lemma_find_completed(state.completed, key);
    if let Some(j) = model::find_completed(state.completed, key) {
        assert(state.active[i].metadata.key != state.completed[j].metadata.key);
    }
    assert(model::first_active(state.active, key, i)) by {
        assert forall|j: int| 0 <= j < i implies (#[trigger] state.active[j]).metadata.key
            != key by {
            assert(state.active[j].metadata.key != state.active[i].metadata.key);
        }
    }
    model::lemma_found(state.active, key, i);
}

/// The first fragment of a scan opens it: the scan takes everything that its fragments
/// agree on from that fragment, holds the fragment's steps and no others, has it as its
/// only source, counts nothing, and counts as observed when the fragment was. If it is
/// the only one of the scan, the scan is handed out, and otherwise it stands behind the
/// scans that were active before.
#[verifier::spinoff_prover]
pub proof fn law_first_fragment_opens_the_scan(
    state: ReassemblerModel,
    fragment: FragmentModel,
    source: SourceFragment,
    observed_at: u128,
)
    requires
        model::state_valid(state),
        profile::fragment_valid(fragment),
        source.fragment_index == fragment.header.fragment_index,
        state.active.len() < state.max_active,
        forall|i: int|
            0 <= i < state.active.len() ==> (#[trigger] state.active[i]).metadata.key
                != model::key_of(fragment.header),
        forall|i: int|
            0 <= i < state.completed.len() ==> (#[trigger] state.completed[i]).metadata.key
                != model::key_of(fragment.header),
    ensures
        ({
            let index = fragment.header.fragment_index as int;
            let outcome = model::ingested(state, fragment, source, observed_at);
            let alone = fragment.header.fragment_count == 1;
            let scan = if alone {
                outcome.event->Complete_0
            } else {
                outcome.state.active[state.active.len() as int]
            };
            &&& outcome.evicted is None
            &&& outcome.event is Complete <==> alone
            &&& outcome.event is Pending <==> !alone
            &&& alone ==> outcome.state.active =~= state.active
            &&& !alone ==> outcome.state.active =~= state.active.push(scan)
            &&& scan.metadata.key == model::key_of(fragment.header)
            &&& scan.metadata.identity == convert::identity_of(fragment.header)
            &&& scan.metadata.summary == fragment.summary
            &&& scan.metadata.expected_fragment_count == fragment.header.fragment_count
            &&& scan.fragments.len() == fragment.header.fragment_count
            &&& scan.fragments[index] == Some(convert::step_records(fragment.steps))
            &&& forall|k: int|
                0 <= k < scan.fragments.len() && k != index ==> (
                #[trigger] scan.fragments[k]) is None
            &&& scan.sources =~= seq![source]
            &&& scan.duplicate_fragment_count == 0
            &&& scan.conflicting_fragment_count == 0
            &&& scan.last_observed_at == observed_at
            &&& forall|k: int|
                0 <= k < 16 ==> #[trigger] checks::has_bit(scan.received_fragment_bitmap, k) == (k
                    == index)
        }),
{
    let metadata = model::metadata_of(fragment);
    let key = metadata.key;
    let index = fragment.header.fragment_index as int;
    let steps = convert::step_records(fragment.steps);
    let outcome = model::ingested(state, fragment, source, observed_at);
    model::lemma_valid_fragment(fragment);
    model::lemma_find_completed(state.completed, key);
    model::lemma_find_active(state.active, key);
    let opened = model::new_active(metadata, observed_at);
    let active = state.active.push(opened);
    assert(model::opened(model::with_room(state, key), metadata, observed_at) == active);
    let last = state.active.len() as int;
    assert(model::first_active(active, key, last)) by {
        assert forall|j: int| 0 <= j < last implies (#[trigger] active[j]).metadata.key != key by {
            assert(active[j] == state.active[j]);
        }
    }
    model::lemma_found(active, key, last);
    let grown = model::with_fragment(opened, index, steps, source, observed_at);
    assert forall|k: int| 0 <= k < 16 implies #[trigger] checks::has_bit(
        grown.received_fragment_bitmap,
        k,
    ) == (k == index) by {
        checks::lemma_bit_of_or(0, index, k);
        checks::lemma_no_bits_of_zero(k);
    }
    if fragment.header.fragment_count == 1 {
        assert(model::is_complete(grown));
        assert(active.remove(last) =~= state.active);
    } else {
        let other: int = if index == 0 {
            1
        } else {
            0
        };
        assert(grown.fragments[other] is None);
        assert(!model::is_complete(grown));
        assert(active.update(last, grown) =~= state.active.push(grown));
    }
}

/// A fragment that its active scan holds already, or whose header or summary
/// contradicts the scan, is only counted: as a duplicate if everything agrees and as a
/// conflict otherwise. One counter of that scan grows by one, up to 65535, the event
/// names the scan and the fragment, and everything else stays as it was.
#[verifier::spinoff_prover]
pub proof fn law_repeated_or_contradicting_fragment_is_counted(
    state: ReassemblerModel,
    i: int,
    fragment: FragmentModel,
    source: SourceFragment,
    observed_at: u128,
)
    requires
        model::state_valid(state),
        profile::fragment_valid(fragment),
        source.fragment_index == fragment.header.fragment_index,
        0 <= i < state.active.len(),
        state.active[i].metadata.key == model::key_of(fragment.header),
        state.active[i].metadata != model::metadata_of(fragment)
            || state.active[i].fragments[fragment.header.fragment_index as int] is Some,
    ensures
        ({
            let index = fragment.header.fragment_index as int;
            let before = state.active[i];
            let outcome = model::ingested(state, fragment, source, observed_at);
            let after = outcome.state.active[i];
            let agrees = before.metadata == model::metadata_of(fragment) && before.fragments[index]
                == Some(convert::step_records(fragment.steps));
            &&& outcome.evicted is None
            &&& agrees ==> {
                &&& outcome.event matches EventModel::Duplicate { key, fragment_index } && key
                    == before.metadata.key && fragment_index == index
                &&& after.duplicate_fragment_count == if before.duplicate_fragment_count < 65535 {
                    before.duplicate_fragment_count + 1
                } else {
                    65535
                }
                &&& after.conflicting_fragment_count == before.conflicting_fragment_count
            }
            &&& !agrees ==> {
                &&& outcome.event matches EventModel::Conflict { key, fragment_index } && key
                    == before.metadata.key && fragment_index == index
                &&& after.conflicting_fragment_count == if before.conflicting_fragment_count
                    < 65535 {
                    before.conflicting_fragment_count + 1
                } else {
                    65535
                }
                &&& after.duplicate_fragment_count == before.duplicate_fragment_count
            }
            &&& after.metadata == before.metadata
            &&& after.fragments == before.fragments
            &&& after.sources == before.sources
            &&& after.received_fragment_bitmap == before.received_fragment_bitmap
            &&& after.last_observed_at == before.last_observed_at
            &&& outcome.state.active == state.active.update(i, after)
            &&& outcome.state.completed == state.completed
        }),
{
    model::lemma_valid_fragment(fragment);
    lemma_stays_open(state, i, fragment, observed_at);
}

/// A scan that was completed is remembered: it is active no more, and any later copy of
/// one of its fragments changes nothing at all. The copy is a duplicate if header,
/// summary and steps are those that completed the scan, and a conflict otherwise.
#[verifier::spinoff_prover]
pub proof fn law_completed_scans_are_remembered(
    state: ReassemblerModel,
    fragment: FragmentModel,
    source: SourceFragment,
    observed_at: u128,
    copy: FragmentModel,
    copy_source: SourceFragment,
    copy_observed_at: u128,
)
    requires
        model::state_valid(state),
        profile::fragment_valid(fragment),
        source.fragment_index == fragment.header.fragment_index,
        model::ingested(state, fragment, source, observed_at).event is Complete,
        model::key_of(copy.header) == model::key_of(fragment.header),
    ensures
        ({
            let outcome = model::ingested(state, fragment, source, observed_at);
            let scan = outcome.event->Complete_0;
            let again = model::ingested(outcome.state, copy, copy_source, copy_observed_at);
            let agrees = model::metadata_of(copy) == scan.metadata
                && scan.fragments[copy.header.fragment_index as int] == Some(
                convert::step_records(copy.steps),
            );
            &&& forall|j: int|
                0 <= j < outcome.state.active.len() ==> (
                #[trigger] outcome.state.active[j]).metadata.key != model::key_of(fragment.header)
            &&& again.state == outcome.state
            &&& again.evicted is None
            &&& agrees ==> again.event == (EventModel::Duplicate {
                key: model::key_of(copy.header),
                fragment_index: copy.header.fragment_index,
            })
            &&& !agrees ==> again.event == (EventModel::Conflict {
                key: model::key_of(copy.header),
                fragment_index: copy.header.fragment_index,
            })
        }),
{
    let metadata = model::metadata_of(fragment);
    let key = metadata.key;
    let outcome = model::ingested(state, fragment, source, observed_at);
    let scan = outcome.event->Complete_0;
    model::lemma_valid_fragment(fragment);
    model::lemma_find_completed(state.completed, key);
    model::lemma_opened_scan(state, metadata, observed_at);
    let active = model::opened(model::with_room(state, key), metadata, observed_at);
    let position = model::find_active(active, key)->0;
    assert(outcome.state.active == active.remove(position));
    assert forall|j: int| 0 <= j < outcome.state.active.len() implies (
    #[trigger] outcome.state.active[j]).metadata.key != key by {
        let at = if j >= position {
            j + 1
        } else {
            j
        };
        assert(outcome.state.active[j] == active[at]);
        if at < position {
            assert(active[at].metadata.key != active[position].metadata.key);
        } else {
            assert(active[position].metadata.key != active[at].metadata.key);
        }
    }
    let pushed = state.completed.push(model::completed_of(scan));
    let completed = outcome.state.completed;
    assert(completed == model::newest(pushed, state.max_active));
    let last = completed.len() - 1;
    let skipped = pushed.len() - completed.len();
    assert forall|j: int| 0 <= j < completed.len() implies (#[trigger] completed[j])
        == pushed[j + skipped] by {}
    assert(completed[last] == model::completed_of(scan));
    assert(model::first_completed(completed, key, last)) by {
        assert forall|j: int| 0 <= j < last implies (#[trigger] completed[j]).metadata.key
            != key by {
            assert(completed[j] == state.completed[j + skipped]);
        }
    }
    model::lemma_found_completed(completed, key, last);
}

/// Expiry forgets a completed scan exactly if it was completed before the cutoff.
pub proof fn law_completed_scans_expire(
    state: ReassemblerModel,
    cutoff: u128,
    scan: CompletedModel,
)
    ensures
        model::expired(state, cutoff).completed.contains(scan) <==> state.completed.contains(scan)
            && scan.completed_at >= cutoff,
        model::expired(state, cutoff).max_active == state.max_active,
{
    lemma_filtered(state.completed, |scan: CompletedModel| scan.completed_at >= cutoff, scan);
}

proof fn lemma_filtered(
    scans: Seq<CompletedModel>,
    keep: spec_fn(CompletedModel) -> bool,
    scan: CompletedModel,
)
    ensures
        scans.filter(keep).contains(scan) <==> scans.contains(scan) && keep(scan),
    decreases scans.len(),
{
    reveal(Seq::filter);
    if scans.len() > 0 {
        let rest = scans.drop_last();
        let last = scans.last();
        lemma_filtered(rest, keep, scan);
        let kept = rest.filter(keep);
        if keep(last) {
            assert(scans.filter(keep) == kept.push(last));
            if kept.contains(scan) {
                let k = choose|k: int| 0 <= k < kept.len() && kept[k] == scan;
                assert(kept.push(last)[k] == scan);
            }
            if scan == last {
                assert(kept.push(last)[kept.len() as int] == scan);
            }
        }
        if rest.contains(scan) {
            let k = choose|k: int| 0 <= k < rest.len() && rest[k] == scan;
            assert(scans[k] == scan);
        }
        if scan == last {
            assert(scans[scans.len() - 1] == scan);
        }
    }
}

/// A profile that is handed out, complete or not, says of its scan what every fragment
/// said and what was counted, and holds exactly the steps of the accepted fragments:
/// every step of each of them, and no other.
#[verifier::spinoff_prover]
pub proof fn law_profiles_hold_the_accepted_steps(
    profile: ReassembledProfile,
    scan: ActiveModel,
    fragment: int,
    local: int,
    k: int,
)
    requires
        profile.reports(scan),
    ensures
        ({
            let summary = scan.metadata.summary;
            let record = profile.scan;
            &&& record.identity == scan.metadata.identity
            &&& record.profile_id == summary.profile_id
            &&& record.profile_version == summary.profile_version
            &&& record.expected_steps == summary.expected_step_count
            &&& record.observed_unique_steps == summary.observed_unique_step_count
            &&& record.observed_field_count == summary.observed_field_count
            &&& record.reported_missing_steps == summary.missing_steps_bitmap
            &&& record.duplicate_steps == summary.duplicate_steps_bitmap
            &&& record.duration_us == summary.scan_duration_us
            &&& record.collection_flags == summary.collection_flags
            &&& record.finish_reason == summary.finish_reason
            &&& record.duplicate_count == summary.duplicate_count
            &&& record.overwritten_field_count == summary.overwritten_field_count
            &&& record.out_of_order_count == summary.out_of_order_count
            &&& record.ambiguous_index_jump_count == summary.ambiguous_index_jump_count
            &&& record.invalid_gas_index_count == summary.invalid_gas_index_count
            &&& record.intermediate_field_count == summary.intermediate_field_count
            &&& record.profile_rollover_count == summary.profile_rollover_count
            &&& record.fields_after_rollover_count == summary.fields_after_rollover_count
            &&& record.poll_count == summary.poll_count
            &&& record.expected_fragment_count == scan.metadata.expected_fragment_count
            &&& record.received_fragment_bitmap == scan.received_fragment_bitmap
            &&& record.duplicate_fragment_count == scan.duplicate_fragment_count
            &&& record.conflicting_fragment_count == scan.conflicting_fragment_count
        }),
        profile.fragments@ == scan.sources,
        0 <= fragment < scan.fragments.len() && scan.fragments[fragment] is Some && 0 <= local
            < scan.fragments[fragment]->0.len() ==> profile.scan.steps@.contains(
            scan.fragments[fragment]->0[local],
        ),
        0 <= k < profile.scan.steps@.len() ==> exists|f: int|
            0 <= f < scan.fragments.len() && (#[trigger] scan.fragments[f]) is Some
                && scan.fragments[f]->0.contains(profile.scan.steps@[k]),
{
    let count = scan.fragments.len() as int;
    if 0 <= fragment < count && scan.fragments[fragment] is Some && 0 <= local
        < scan.fragments[fragment]->0.len() {
        lemma_joined_holds(scan, count, fragment, local);
    }
    if 0 <= k < profile.scan.steps@.len() {
        lemma_joined_comes_of(scan, count, k);
    }
}

proof fn lemma_joined_holds(scan: ActiveModel, count: int, fragment: int, local: int)
    requires
        0 <= fragment < count <= scan.fragments.len(),
        scan.fragments[fragment] is Some,
        0 <= local < scan.fragments[fragment]->0.len(),
    ensures
        model::joined_fragments(scan.fragments, count).contains(scan.fragments[fragment]->0[local]),
    decreases count,
{
    let before = model::joined_fragments(scan.fragments, count - 1);
    let whole = model::joined_fragments(scan.fragments, count);
    let step = scan.fragments[fragment]->0[local];
    if fragment == count - 1 {
        assert(whole[before.len() + local] == step);
    } else {
        lemma_joined_holds(scan, count - 1, fragment, local);
        let k = choose|k: int| 0 <= k < before.len() && before[k] == step;
        assert(whole[k] == step);
    }
}

proof fn lemma_joined_comes_of(scan: ActiveModel, count: int, k: int)
    requires
        0 <= count <= scan.fragments.len(),
        0 <= k < model::joined_fragments(scan.fragments, count).len(),
    ensures
        exists|f: int|
            0 <= f < scan.fragments.len() && (#[trigger] scan.fragments[f]) is Some
                && scan.fragments[f]->0.contains(
                model::joined_fragments(scan.fragments, count)[k],
            ),
    decreases count,
{
    let before = model::joined_fragments(scan.fragments, count - 1);
    let whole = model::joined_fragments(scan.fragments, count);
    if k < before.len() {
        assert(whole[k] == before[k]);
        lemma_joined_comes_of(scan, count - 1, k);
    } else {
        assert(scan.fragments[count - 1] is Some);
        assert(scan.fragments[count - 1]->0[k - before.len()] == whole[k]);
    }
}

/// The first and the last time of a profile are among those of its sources, and no
/// source was received before the one or after the other. Without sources there are
/// none.
pub proof fn law_first_and_last_time(sources: Seq<SourceFragment>)
    ensures
        reassembly::least(sources) is None <==> sources.len() == 0,
        reassembly::greatest(sources) is None <==> sources.len() == 0,
        reassembly::least(sources) matches Some(time) ==> {
            &&& exists|i: int|
                0 <= i < sources.len() && (#[trigger] sources[i]).received_at_unix_ms == time
            &&& forall|i: int|
                0 <= i < sources.len() ==> time <= (#[trigger] sources[i]).received_at_unix_ms
        },
        reassembly::greatest(sources) matches Some(time) ==> {
            &&& exists|i: int|
                0 <= i < sources.len() && (#[trigger] sources[i]).received_at_unix_ms == time
            &&& forall|i: int|
                0 <= i < sources.len() ==> (#[trigger] sources[i]).received_at_unix_ms <= time
        },
    decreases sources.len(),
{
    if sources.len() > 0 {
        let rest = sources.drop_last();
        law_first_and_last_time(rest);
        let last = sources.len() - 1;
        assert(sources[last] == sources.last());
        assert forall|i: int| 0 <= i < last implies (#[trigger] sources[i]) == rest[i] by {}
        if rest.len() > 0 {
            let first = choose|i: int|
                0 <= i < rest.len() && (#[trigger] rest[i]).received_at_unix_ms
                    == reassembly::least(rest)->0;
            assert(sources[first] == rest[first]);
            let final_one = choose|i: int|
                0 <= i < rest.len() && (#[trigger] rest[i]).received_at_unix_ms
                    == reassembly::greatest(rest)->0;
            assert(sources[final_one] == rest[final_one]);
        }
    }
}

/// The message of a source that names another fragment than the wire shows which names
/// which.
#[verifier::spinoff_prover]
#[verifier::rlimit(30)]
pub proof fn law_messages_show_what_was_found(
    source: u8,
    wire: u8,
)
    ensures
        text_laws::shows(
            reassembly::reassembly_error_text(
                ReassemblyError::SourceFragmentIndex { source, wire },
            ),
            "SourceFragmentIndex { source: "@ + text::decimal(source as nat) + ", wire: "@,
        ),
        text_laws::shows(
            reassembly::reassembly_error_text(
                ReassemblyError::SourceFragmentIndex { source, wire },
            ),
            ", wire: "@ + text::decimal(wire as nat) + " }"@,
        ),
{
    let parts = seq![
        "SourceFragmentIndex { source: "@,
        text::decimal(source as nat),
        ", wire: "@,
        text::decimal(wire as nat),
        " }"@,
    ];
    assert(Seq::<char>::empty() + parts[0] =~= parts[0]);
    let message = reassembly::reassembly_error_text(
        ReassemblyError::SourceFragmentIndex { source, wire },
    );
    assert(message == text_laws::joined(Seq::empty(), parts, 5)) by {
        reveal_with_fuel(text_laws::joined, 6);
    }
    text_laws::lemma_labelled(Seq::empty(), parts, 5, 0);
    text_laws::lemma_labelled(Seq::empty(), parts, 5, 2);
}

/// Expiry goes by age: of the active scans exactly those are handed out that were last
/// observed longer ago than the maximum age, each as it stands, and exactly the others
/// stay.
pub proof fn law_expiry_goes_by_age(
    before: ReassemblerModel,
    after: ReassemblerModel,
    profiles: Seq<ReassembledProfile>,
    now: u128,
    maximum_age_nanos: u128,
    scan: ActiveModel,
    i: int,
)
    requires
        reassembly::expires_at(before, after, profiles, now, maximum_age_nanos),
        before.active.contains(scan),
    ensures
        after.active.contains(scan) <==> now <= scan.last_observed_at + maximum_age_nanos,
        now > scan.last_observed_at + maximum_age_nanos ==> exists|k: int|
            0 <= k < profiles.len() && (#[trigger] profiles[k]).reports(scan),
        0 <= i < profiles.len() ==> exists|old: ActiveModel| #[trigger]
            before.active.contains(old) && profiles[i].reports(old) && now > old.last_observed_at
                + maximum_age_nanos,
        profiles.len() + after.active.len() == before.active.len(),
{
    if now >= maximum_age_nanos {
        let cutoff = (now - maximum_age_nanos) as u128;
        reassembly_laws::law_expiry_goes_by_observation(before, cutoff, scan);
        let expired = model::expired_scans(before, cutoff);
        if scan.last_observed_at < cutoff {
            assert(expired.contains(scan));
            let k = choose|k: int| 0 <= k < expired.len() && expired[k] == scan;
            assert(profiles[k].reports(expired[k]));
        }
        if 0 <= i < profiles.len() {
            assert(profiles[i].reports(expired[i]));
            assert(expired.contains(expired[i]));
            reassembly_laws::law_expiry_goes_by_observation(before, cutoff, expired[i]);
        }
        lemma_parted(
            before.active,
            |scan: ActiveModel| scan.last_observed_at >= cutoff,
            |scan: ActiveModel| scan.last_observed_at < cutoff,
        );
    }
}

proof fn lemma_parted(
    scans: Seq<ActiveModel>,
    keep: spec_fn(ActiveModel) -> bool,
    part: spec_fn(ActiveModel) -> bool,
)
    requires
        forall|scan: ActiveModel| #[trigger] keep(scan) != part(scan),
    ensures
        scans.filter(keep).len() + scans.filter(part).len() == scans.len(),
    decreases scans.len(),
{
    reveal(Seq::filter);
    if scans.len() > 0 {
        lemma_parted(scans.drop_last(), keep, part);
        assert(keep(scans.last()) != part(scans.last()));
    }
}

/// A snapshot is taken of the active scan with the asked key, and there is none exactly
/// if no active scan has it.
pub proof fn law_snapshots_are_of_the_asked_scan(
    snapshot: Option<ReassembledProfile>,
    state: ReassemblerModel,
    key: ProfileKey,
)
    requires
        reassembly::is_snapshot(snapshot, state, key),
    ensures
        snapshot is Some <==> exists|i: int|
            0 <= i < state.active.len() && (#[trigger] state.active[i]).metadata.key == key,
        snapshot matches Some(profile) ==> exists|i: int|
            0 <= i < state.active.len() && (#[trigger] state.active[i]).metadata.key == key
                && profile.reports(state.active[i]),
{
    model::lemma_find_active(state.active, key);
}

} // verus!
