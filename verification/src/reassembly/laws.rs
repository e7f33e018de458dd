//! What holds of reassembly as a whole.

use vstd::prelude::*;

use crate::convert;
use crate::reassembly::model;
use crate::reassembly::model::{
    ActiveModel, EventModel, IngestModel, ProfileKey, ProfileMetadata, ReassemblerModel,
    SourceFragment,
};
use crate::reassembly::ReassembledProfile;
use crate::records;
use crate::records::ProfileStep;
use crate::v2::checks;
use crate::v2::frame;
use crate::v2::frame::FrameModel;
use crate::v2::laws;
use crate::v2::profile;
use crate::v2::profile::FragmentModel;
use crate::v2::types::{Common, Error, Header, ProfileScan};

verus! {

/// A fragment changes no active scan but the one it belongs to, and of that one
/// it replaces no fragment that was accepted before.
pub proof fn law_first_copy_is_kept(
    state: ReassemblerModel,
    fragment: FragmentModel,
    source: SourceFragment,
    observed_at: u128,
    i: int,
    j: int,
)
    requires
        model::state_valid(state),
        profile::fragment_valid(fragment),
        source.fragment_index == fragment.header.fragment_index,
        0 <= i < state.active.len(),
        0 <= j < model::ingested(state, fragment, source, observed_at).state.active.len(),
        state.active[i].metadata.key == model::ingested(
            state,
            fragment,
            source,
            observed_at,
        ).state.active[j].metadata.key,
    ensures
        ({
            let before = state.active[i];
            let after = model::ingested(state, fragment, source, observed_at).state.active[j];
            &&& before.metadata.key != model::key_of(fragment.header) ==> after == before
            &&& after.metadata == before.metadata
            &&& forall|k: int|
                0 <= k < before.fragments.len() && (#[trigger] before.fragments[k]) is Some
                    ==> after.fragments[k] == before.fragments[k]
        }),
{
    let metadata = model::metadata_of(fragment);
    let key = metadata.key;
    let outcome = model::ingested(state, fragment, source, observed_at).state;
    if model::find_completed(state.completed, key) is Some {
        assert(i == j);
    } else {
        let room = model::with_room(state, key);
        let active = model::opened(room, metadata, observed_at);
        let position = model::find_active(active, key)->0;
        model::lemma_valid_fragment(fragment);
        model::lemma_opened_scan(state, metadata, observed_at);
        // Where the scan after the fragment stood before the fragment was applied.
        let at = if outcome.active.len() < active.len() && j >= position {
            j + 1
        } else {
            j
        };
        assert(outcome.active[j].metadata == active[at].metadata);
        assert(at != position ==> outcome.active[j] == active[at]);
        if at < room.len() {
            model::lemma_opened_origin(state, metadata, observed_at, at);
            let k = if model::must_evict(state, key) && at >= model::oldest(state.active) {
                at + 1
            } else {
                at
            };
            assert(active[at] == state.active[k]);
            assert(k == i);
        } else {
            model::lemma_find_active(room, key);
            model::lemma_find_active(state.active, key);
        }
    }
}

/// No scan is lost: a scan that is active before a fragment is afterwards still
/// active, or is handed out because it made room or was completed.
pub proof fn law_no_scan_is_lost(
    state: ReassemblerModel,
    fragment: FragmentModel,
    source: SourceFragment,
    observed_at: u128,
    i: int,
)
    requires
        model::state_valid(state),
        profile::fragment_valid(fragment),
        source.fragment_index == fragment.header.fragment_index,
        0 <= i < state.active.len(),
    ensures
        ({
            let key = state.active[i].metadata.key;
            let outcome = model::ingested(state, fragment, source, observed_at);
            ||| model::find_active(outcome.state.active, key) is Some
            ||| outcome.evicted == Some(state.active[i])
            ||| (outcome.event matches EventModel::Complete(scan) && scan.metadata.key == key)
        }),
{
    let metadata = model::metadata_of(fragment);
    let key = metadata.key;
    let own = state.active[i].metadata.key;
    let outcome = model::ingested(state, fragment, source, observed_at);
    model::lemma_find_active(outcome.state.active, own);
    if model::find_completed(state.completed, key) is Some {
        assert(outcome.state.active[i].metadata.key == own);
    } else {
        let room = model::with_room(state, key);
        let active = model::opened(room, metadata, observed_at);
        let position = model::find_active(active, key)->0;
        model::lemma_valid_fragment(fragment);
        model::lemma_opened_scan(state, metadata, observed_at);
        let evictee = model::oldest(state.active);
        let evicts = model::must_evict(state, key);
        if evicts {
            model::lemma_has_oldest(state.active);
        }
        if !(evicts && i == evictee) {
            let at = if evicts && i > evictee {
                i - 1
            } else {
                i
            };
            assert(room[at] == state.active[i]);
            assert(active[at] == state.active[i]);
            if outcome.state.active.len() == active.len() {
                assert(outcome.state.active[at].metadata.key == own);
            } else if at != position {
                let after = if at > position {
                    at - 1
                } else {
                    at
                };
                assert(outcome.state.active[after] == active[at]);
            }
        }
    }
}

/// The fragments of two frames of one scan with one index agree in what a reassembler
/// compares exactly if the frames are the same, byte for byte.
proof fn lemma_same_frame(
    held: Seq<u8>,
    repeated: Seq<u8>,
    first: FragmentModel,
    second: FragmentModel,
)
    requires
        frame::decoded(held) == Ok::<FrameModel, Error>(FrameModel::ProfileFragment(first)),
        frame::decoded(repeated) == Ok::<FrameModel, Error>(FrameModel::ProfileFragment(second)),
        first.header.fragment_index == second.header.fragment_index,
    ensures
        (model::metadata_of(first) == model::metadata_of(second) && convert::step_records(
            first.steps,
        ) == convert::step_records(second.steps)) <==> held == repeated,
{
    let one = convert::step_records(first.steps);
    let two = convert::step_records(second.steps);
    if model::metadata_of(first) == model::metadata_of(second) && one == two {
        assert(first.steps.len() == one.len());
        assert(second.steps.len() == two.len());
        assert forall|i: int| 0 <= i < first.steps.len() implies first.steps[i]
            == second.steps[i] by {
            assert(one[i] == convert::step_record(first.steps[i]));
            assert(two[i] == convert::step_record(second.steps[i]));
        }
        assert(first.steps =~= second.steps);
        assert(first.header == second.header);
        assert(first == second);
        laws::law_decoding_is_injective(held, repeated);
    }
}

/// A repeated fragment of an active scan is a duplicate if its frame is the same, byte
/// for byte, as the one that the scan holds, and a conflict otherwise. Either way no
/// scan makes room, and all that changes is that the scan counts one more.
pub proof fn law_repeated_fragments_are_only_counted(
    state: ReassemblerModel,
    i: int,
    held: Seq<u8>,
    repeated: Seq<u8>,
    first: FragmentModel,
    second: FragmentModel,
    source: SourceFragment,
    observed_at: u128,
)
    requires
        model::state_valid(state),
        0 <= i < state.active.len(),
        frame::decoded(held) == Ok::<FrameModel, Error>(FrameModel::ProfileFragment(first)),
        frame::decoded(repeated) == Ok::<FrameModel, Error>(FrameModel::ProfileFragment(second)),
        model::key_of(second.header) == model::key_of(first.header),
        second.header.fragment_index == first.header.fragment_index,
        source.fragment_index == second.header.fragment_index,
        state.active[i].metadata == model::metadata_of(first),
        state.active[i].fragments[first.header.fragment_index as int] == Some(
            convert::step_records(first.steps),
        ),
    ensures
        ({
            let key = model::key_of(first.header);
            let fragment_index = first.header.fragment_index;
            let outcome = model::ingested(state, second, source, observed_at);
            &&& outcome.evicted is None
            &&& outcome.state.active.len() == state.active.len()
            &&& repeated == held ==> outcome.event == (EventModel::Duplicate {
                key,
                fragment_index,
            }) && outcome.state == model::noted(state, key, 1, 0)
            &&& repeated != held ==> outcome.event == (EventModel::Conflict {
                key,
                fragment_index,
            }) && outcome.state == model::noted(state, key, 0, 1)
        }),
{
    let metadata = model::metadata_of(second);
    let key = metadata.key;
    let scan = state.active[i];
    let outcome = model::ingested(state, second, source, observed_at);
    lemma_same_frame(held, repeated, first, second);
    laws::law_decoded_fragments_are_valid(repeated, second);
    model::lemma_valid_fragment(second);
    model::lemma_find_completed(state.completed, key);
    if let Some(j) = model::find_completed(state.completed, key) {
        assert(state.active[i].metadata.key != state.completed[j].metadata.key);
    }
    assert(model::first_active(state.active, key, i)) by {
        assert forall|j: int| 0 <= j < i implies (#[trigger] state.active[j]).metadata.key
            != key by {
            assert(state.active[j].metadata.key != state.active[i].metadata.key);
        }
    }
    model::lemma_found(state.active, key, i);
    assert(model::opened(model::with_room(state, key), metadata, observed_at) == state.active);
    assert(model::with_counts(scan, 1, 0) == model::with_duplicate(scan));
    assert(model::with_counts(scan, 0, 1) == model::with_conflict(scan));
}

/// A scan with copies and contradictions that were counted elsewhere for one key.
pub open spec fn scan_with_counts(
    scan: ActiveModel,
    key: ProfileKey,
    duplicates: u16,
    conflicts: u16,
) -> ActiveModel {
    if scan.metadata.key == key {
        model::with_counts(scan, duplicates, conflicts)
    } else {
        scan
    }
}

/// Scans with copies and contradictions that were counted elsewhere for one key.
pub open spec fn scans_with_counts(
    scans: Seq<ActiveModel>,
    key: ProfileKey,
    duplicates: u16,
    conflicts: u16,
) -> Seq<ActiveModel> {
    Seq::new(scans.len(), |i: int| scan_with_counts(scans[i], key, duplicates, conflicts))
}

/// What came of a fragment, with copies and contradictions that were counted elsewhere
/// for one key.
pub open spec fn event_with_counts(
    event: EventModel,
    key: ProfileKey,
    duplicates: u16,
    conflicts: u16,
) -> EventModel {
    match event {
        EventModel::Complete(scan) => EventModel::Complete(
            scan_with_counts(scan, key, duplicates, conflicts),
        ),
        event => event,
    }
}

/// Counting for a scan adds to every active scan with its key.
proof fn lemma_noted_scans(
    state: ReassemblerModel,
    key: ProfileKey,
    duplicates: u16,
    conflicts: u16,
)
    requires
        forall|i: int, j: int|
            0 <= i < j < state.active.len() ==> (#[trigger] state.active[i]).metadata.key != (
            #[trigger] state.active[j]).metadata.key,
    ensures
        model::noted(state, key, duplicates, conflicts) == (ReassemblerModel {
            active: scans_with_counts(state.active, key, duplicates, conflicts),
            ..state
        }),
{
    let marked = scans_with_counts(state.active, key, duplicates, conflicts);
    let noted = model::noted(state, key, duplicates, conflicts);
    model::lemma_find_active(state.active, key);
    assert forall|i: int| 0 <= i < marked.len() implies #[trigger] noted.active[i] == marked[i] by {
        if let Some(position) = model::find_active(state.active, key) {
            if i < position {
                assert(state.active[i].metadata.key != state.active[position].metadata.key);
            } else if i > position {
                assert(state.active[position].metadata.key != state.active[i].metadata.key);
            }
        }
    }
    assert(noted.active =~= marked);
}

/// Counts move no scan.
proof fn lemma_counts_move_nothing(
    scans: Seq<ActiveModel>,
    key: ProfileKey,
    duplicates: u16,
    conflicts: u16,
    sought: ProfileKey,
)
    ensures
        ({
            let marked = scans_with_counts(scans, key, duplicates, conflicts);
            &&& model::find_active(marked, sought) == model::find_active(scans, sought)
            &&& scans.len() > 0 ==> model::oldest(marked) == model::oldest(scans)
        }),
{
    let marked = scans_with_counts(scans, key, duplicates, conflicts);
    assert forall|i: int| 0 <= i < scans.len() implies (#[trigger] marked[i]).metadata
        == scans[i].metadata && marked[i].last_observed_at == scans[i].last_observed_at by {}
    model::lemma_find_active(scans, sought);
    match model::find_active(scans, sought) {
        Some(i) => {
            assert(model::first_active(marked, sought, i));
            model::lemma_found(marked, sought, i);
        },
        None => {
            model::lemma_not_found(marked, sought);
        },
    }
    if scans.len() > 0 {
        model::lemma_has_oldest(scans);
        let found = model::oldest(scans);
        assert(model::first_oldest(marked, found));
        model::lemma_oldest(marked, found);
    }
}

/// Counts change neither which scan makes room nor which scan is opened.
#[verifier::spinoff_prover]
proof fn lemma_counts_open_the_same(
    state: ReassemblerModel,
    key: ProfileKey,
    duplicates: u16,
    conflicts: u16,
    metadata: ProfileMetadata,
    observed_at: u128,
)
    requires
        model::state_valid(state),
        model::find_active(state.active, key) is Some,
    ensures
        ({
            let own = metadata.key;
            let marked = ReassemblerModel {
                active: scans_with_counts(state.active, key, duplicates, conflicts),
                ..state
            };
            &&& model::opened(model::with_room(marked, own), metadata, observed_at)
                == scans_with_counts(
                model::opened(model::with_room(state, own), metadata, observed_at),
                key,
                duplicates,
                conflicts,
            )
            &&& model::evicted_of(marked, own) == match model::evicted_of(state, own) {
                Some(scan) => Some(scan_with_counts(scan, key, duplicates, conflicts)),
                None => None,
            }
        }),
{
    let own = metadata.key;
    let marked = ReassemblerModel {
        active: scans_with_counts(state.active, key, duplicates, conflicts),
        ..state
    };
    lemma_counts_move_nothing(state.active, key, duplicates, conflicts, own);
    model::lemma_find_active(state.active, key);
    model::lemma_find_active(state.active, own);
    if model::must_evict(state, own) {
        model::lemma_has_oldest(state.active);
    }
    let room = model::with_room(state, own);
    let marked_room = model::with_room(marked, own);
    assert(marked_room =~= scans_with_counts(room, key, duplicates, conflicts));
    lemma_counts_move_nothing(room, key, duplicates, conflicts, own);
    if own == key {
        assert(room == state.active);
    }
    let active = model::opened(room, metadata, observed_at);
    assert(model::opened(marked_room, metadata, observed_at) =~= scans_with_counts(
        active,
        key,
        duplicates,
        conflicts,
    ));
}

/// Counts of a scan add up in any order, and no fragment touches them.
#[verifier::spinoff_prover]
proof fn lemma_counts_add_up(
    scan: ActiveModel,
    key: ProfileKey,
    duplicates: u16,
    conflicts: u16,
    index: int,
    steps: Seq<ProfileStep>,
    source: SourceFragment,
    observed_at: u128,
)
    ensures
        ({
            let marked = scan_with_counts(scan, key, duplicates, conflicts);
            let grown = model::with_fragment(scan, index, steps, source, observed_at);
            let marked_grown = model::with_fragment(marked, index, steps, source, observed_at);
            &&& model::with_conflict(marked) == scan_with_counts(
                model::with_conflict(scan),
                key,
                duplicates,
                conflicts,
            )
            &&& model::with_duplicate(marked) == scan_with_counts(
                model::with_duplicate(scan),
                key,
                duplicates,
                conflicts,
            )
            &&& marked_grown == scan_with_counts(grown, key, duplicates, conflicts)
            &&& model::is_complete(marked_grown) == model::is_complete(grown)
            &&& model::completed_of(marked_grown) == model::completed_of(grown)
            &&& model::progress_of(marked_grown) == model::progress_of(grown)
        }),
{
    let marked = scan_with_counts(scan, key, duplicates, conflicts);
    let grown = model::with_fragment(scan, index, steps, source, observed_at);
    let marked_grown = model::with_fragment(marked, index, steps, source, observed_at);
    assert(marked_grown.fragments == grown.fragments);
}

/// Counts change nothing else of what a fragment does to its scan.
#[verifier::spinoff_prover]
proof fn lemma_counts_apply_the_same(
    state: ReassemblerModel,
    key: ProfileKey,
    duplicates: u16,
    conflicts: u16,
    position: int,
    metadata: ProfileMetadata,
    fragment_index: u8,
    steps: Seq<ProfileStep>,
    source: SourceFragment,
    observed_at: u128,
)
    requires
        0 <= position < state.active.len(),
    ensures
        ({
            let marked = ReassemblerModel {
                active: scans_with_counts(state.active, key, duplicates, conflicts),
                ..state
            };
            let plain = model::applied(
                state,
                position,
                metadata,
                fragment_index,
                steps,
                source,
                observed_at,
            );
            let counted = model::applied(
                marked,
                position,
                metadata,
                fragment_index,
                steps,
                source,
                observed_at,
            );
            &&& counted.0 == (ReassemblerModel {
                active: scans_with_counts(plain.0.active, key, duplicates, conflicts),
                ..plain.0
            })
            &&& counted.1 == event_with_counts(plain.1, key, duplicates, conflicts)
        }),
{
    let scan = state.active[position];
    lemma_counts_add_up(
        scan,
        key,
        duplicates,
        conflicts,
        fragment_index as int,
        steps,
        source,
        observed_at,
    );
    let marked = ReassemblerModel {
        active: scans_with_counts(state.active, key, duplicates, conflicts),
        ..state
    };
    let plain = model::applied(
        state,
        position,
        metadata,
        fragment_index,
        steps,
        source,
        observed_at,
    );
    let counted = model::applied(
        marked,
        position,
        metadata,
        fragment_index,
        steps,
        source,
        observed_at,
    );
    assert(marked.active[position] == scan_with_counts(scan, key, duplicates, conflicts));
    assert(counted.0.active =~= scans_with_counts(
        plain.0.active,
        key,
        duplicates,
        conflicts,
    ));
}

/// What is counted for an active scan changes nothing else, now or later: whatever
/// fragment comes, the same comes of it, and the scan, whether it stays active, makes
/// room or is completed, holds the same steps and sources and counts so many more.
#[verifier::spinoff_prover]
pub proof fn law_counts_change_nothing_else(
    state: ReassemblerModel,
    key: ProfileKey,
    duplicates: u16,
    conflicts: u16,
    fragment: FragmentModel,
    source: SourceFragment,
    observed_at: u128,
)
    requires
        model::state_valid(state),
        model::find_active(state.active, key) is Some,
        profile::fragment_valid(fragment),
        source.fragment_index == fragment.header.fragment_index,
    ensures
        ({
            let plain = model::ingested(state, fragment, source, observed_at);
            let counted = model::ingested(
                model::noted(state, key, duplicates, conflicts),
                fragment,
                source,
                observed_at,
            );
            &&& counted.state == model::noted(plain.state, key, duplicates, conflicts)
            &&& counted.event == event_with_counts(plain.event, key, duplicates, conflicts)
            &&& counted.evicted == match plain.evicted {
                Some(scan) => Some(scan_with_counts(scan, key, duplicates, conflicts)),
                None => None,
            }
        }),
{
    let metadata = model::metadata_of(fragment);
    let own = metadata.key;
    let steps = convert::step_records(fragment.steps);
    let plain = model::ingested(state, fragment, source, observed_at);
    model::lemma_valid_fragment(fragment);
    model::lemma_ingest_keeps_state(state, fragment, source, observed_at);
    lemma_noted_scans(state, key, duplicates, conflicts);
    lemma_noted_scans(plain.state, key, duplicates, conflicts);
    if model::find_completed(state.completed, own) is None {
        lemma_counts_open_the_same(state, key, duplicates, conflicts, metadata, observed_at);
        model::lemma_opened_scan(state, metadata, observed_at);
        let active = model::opened(model::with_room(state, own), metadata, observed_at);
        lemma_counts_move_nothing(active, key, duplicates, conflicts, own);
        lemma_counts_apply_the_same(
            ReassemblerModel { active, ..state },
            key,
            duplicates,
            conflicts,
            model::find_active(active, own)->0,
            metadata,
            fragment.header.fragment_index,
            steps,
            source,
            observed_at,
        );
    }
}

/// What is counted for an active scan changes nothing else at expiry or on shutdown:
/// the same scans expire, and each holds the same steps and sources.
pub proof fn law_counts_do_not_change_expiry(
    state: ReassemblerModel,
    key: ProfileKey,
    duplicates: u16,
    conflicts: u16,
    cutoff: u128,
)
    requires
        model::state_valid(state),
    ensures
        ({
            let noted = model::noted(state, key, duplicates, conflicts);
            &&& model::expired(noted, cutoff) == model::noted(
                model::expired(state, cutoff),
                key,
                duplicates,
                conflicts,
            )
            &&& model::expired_scans(noted, cutoff) == scans_with_counts(
                model::expired_scans(state, cutoff),
                key,
                duplicates,
                conflicts,
            )
            &&& noted.active == scans_with_counts(state.active, key, duplicates, conflicts)
        }),
{
    lemma_noted_scans(state, key, duplicates, conflicts);
    model::lemma_expiry_keeps_state(state, cutoff);
    lemma_noted_scans(model::expired(state, cutoff), key, duplicates, conflicts);
    lemma_counts_do_not_change_filter(
        state.active,
        key,
        duplicates,
        conflicts,
        |scan: ActiveModel| scan.last_observed_at >= cutoff,
    );
    lemma_counts_do_not_change_filter(
        state.active,
        key,
        duplicates,
        conflicts,
        |scan: ActiveModel| scan.last_observed_at < cutoff,
    );
}

proof fn lemma_counts_do_not_change_filter(
    scans: Seq<ActiveModel>,
    key: ProfileKey,
    duplicates: u16,
    conflicts: u16,
    keep: spec_fn(ActiveModel) -> bool,
)
    requires
        forall|scan: ActiveModel| #[trigger]
            keep(scan_with_counts(scan, key, duplicates, conflicts)) == keep(scan),
    ensures
        scans_with_counts(scans, key, duplicates, conflicts).filter(keep) == scans_with_counts(
            scans.filter(keep),
            key,
            duplicates,
            conflicts,
        ),
    decreases scans.len(),
{
    reveal(Seq::filter);
    let marked = scans_with_counts(scans, key, duplicates, conflicts);
    if scans.len() > 0 {
        let rest = scans.drop_last();
        lemma_counts_do_not_change_filter(rest, key, duplicates, conflicts, keep);
        assert(marked.drop_last() =~= scans_with_counts(rest, key, duplicates, conflicts));
        assert(marked.last() == scan_with_counts(scans.last(), key, duplicates, conflicts));
        assert(keep(marked.last()) == keep(scans.last()));
    }
    assert(marked.filter(keep) =~= scans_with_counts(
        scans.filter(keep),
        key,
        duplicates,
        conflicts,
    ));
}

/// No conflict is forgotten: whatever fragment comes, an active scan counts no fewer
/// conflicts and no fewer copies afterwards, and neither does the profile that it is
/// handed out as.
pub proof fn law_conflicts_are_not_forgotten(
    state: ReassemblerModel,
    fragment: FragmentModel,
    source: SourceFragment,
    observed_at: u128,
    i: int,
)
    requires
        model::state_valid(state),
        profile::fragment_valid(fragment),
        source.fragment_index == fragment.header.fragment_index,
        0 <= i < state.active.len(),
    ensures
        ({
            let before = state.active[i];
            let outcome = model::ingested(state, fragment, source, observed_at);
            ||| exists|j: int|
                0 <= j < outcome.state.active.len() && counts_no_less(
                    #[trigger] outcome.state.active[j],
                    before,
                )
            ||| outcome.evicted == Some(before)
            ||| (outcome.event matches EventModel::Complete(scan) && counts_no_less(scan, before))
        }),
{
    let metadata = model::metadata_of(fragment);
    let key = metadata.key;
    let before = state.active[i];
    let outcome = model::ingested(state, fragment, source, observed_at);
    if model::find_completed(state.completed, key) is Some {
        assert(counts_no_less(outcome.state.active[i], before));
    } else {
        let room = model::with_room(state, key);
        let active = model::opened(room, metadata, observed_at);
        let position = model::find_active(active, key)->0;
        model::lemma_valid_fragment(fragment);
        model::lemma_opened_scan(state, metadata, observed_at);
        let evictee = model::oldest(state.active);
        let evicts = model::must_evict(state, key);
        if evicts {
            model::lemma_has_oldest(state.active);
        }
        if !(evicts && i == evictee) {
            let at = if evicts && i > evictee {
                i - 1
            } else {
                i
            };
            assert(room[at] == before);
            assert(active[at] == before);
            if outcome.state.active.len() == active.len() {
                assert(counts_no_less(outcome.state.active[at], before));
            } else if at != position {
                let after = if at > position {
                    at - 1
                } else {
                    at
                };
                assert(outcome.state.active[after] == active[at]);
                assert(counts_no_less(outcome.state.active[after], before));
            }
        }
    }
}

/// Whether a scan is another one with at least its counts.
pub open spec fn counts_no_less(scan: ActiveModel, before: ActiveModel) -> bool {
    &&& scan.metadata.key == before.metadata.key
    &&& scan.duplicate_fragment_count >= before.duplicate_fragment_count
    &&& scan.conflicting_fragment_count >= before.conflicting_fragment_count
}

/// A scan that is resumed has at least the counts that it is resumed with.
pub proof fn law_resumed_scans_keep_their_counts(
    state: ReassemblerModel,
    fragment: FragmentModel,
    duplicates: u16,
    conflicts: u16,
    observed_at: u128,
)
    requires
        model::state_valid(state),
        profile::fragment_valid(fragment),
    ensures
        ({
            let after = model::resumed(state, fragment, duplicates, conflicts, observed_at);
            exists|j: int|
                0 <= j < after.active.len() && (#[trigger] after.active[j]).metadata.key
                    == model::key_of(fragment.header) && after.active[j].duplicate_fragment_count
                    >= duplicates && after.active[j].conflicting_fragment_count >= conflicts
        }),
{
    let metadata = model::metadata_of(fragment);
    model::lemma_valid_fragment(fragment);
    model::lemma_opened_scan(state, metadata, observed_at);
    let active = model::opened(model::with_room(state, metadata.key), metadata, observed_at);
    let position = model::find_active(active, metadata.key)->0;
    let after = model::resumed(state, fragment, duplicates, conflicts, observed_at);
    assert(after.active[position].metadata.key == metadata.key);
}

/// Resuming a scan of which nothing was counted leaves no trace: the fragment that
/// follows has the effect that it has by itself.
pub proof fn law_resuming_leaves_no_trace(
    state: ReassemblerModel,
    fragment: FragmentModel,
    source: SourceFragment,
    observed_at: u128,
)
    requires
        model::state_valid(state),
        profile::fragment_valid(fragment),
        model::find_completed(state.completed, model::key_of(fragment.header)) is None,
    ensures
        ({
            let resumed = model::resumed(state, fragment, 0, 0, observed_at);
            let outcome = model::ingested(state, fragment, source, observed_at);
            let after = model::ingested(resumed, fragment, source, observed_at);
            &&& after.state == outcome.state
            &&& after.event == outcome.event
            &&& after.evicted is None
        }),
{
    let metadata = model::metadata_of(fragment);
    let key = metadata.key;
    model::lemma_valid_fragment(fragment);
    model::lemma_opened_scan(state, metadata, observed_at);
    let active = model::opened(model::with_room(state, key), metadata, observed_at);
    let position = model::find_active(active, key)->0;
    let resumed = model::resumed(state, fragment, 0, 0, observed_at);
    assert(model::with_counts(active[position], 0, 0) == active[position]);
    assert(resumed.active =~= active);
    assert(resumed == (ReassemblerModel { active, ..state }));
}

proof fn lemma_indices(missing: u16, from: int, to: int)
    requires
        0 <= from,
    ensures
        forall|k: int|
            0 <= k < model::present_indices(missing, from, to).len() ==> from
                <= #[trigger] model::present_indices(missing, from, to)[k] < to,
        forall|k: int, l: int|
            0 <= k < l < model::present_indices(missing, from, to).len()
                ==> #[trigger] model::present_indices(missing, from, to)[k]
                < #[trigger] model::present_indices(missing, from, to)[l],
        forall|i: int|
            from <= i < to && !#[trigger] checks::has_bit(missing, i) ==> model::present_indices(
                missing,
                from,
                to,
            ).contains(i),
        forall|k: int|
            0 <= k < model::present_indices(missing, from, to).len() ==> !checks::has_bit(
                missing,
                #[trigger] model::present_indices(missing, from, to)[k],
            ),
    decreases to - from,
{
    if from < to {
        lemma_indices(missing, from, to - 1);
        let before = model::present_indices(missing, from, to - 1);
        let all = model::present_indices(missing, from, to);
        assert forall|i: int| from <= i < to && !#[trigger] checks::has_bit(
            missing,
            i,
        ) implies all.contains(i) by {
            if i < to - 1 {
                assert(before.contains(i));
                let k = choose|k: int| 0 <= k < before.len() && before[k] == i;
                assert(all[k] == i);
            } else {
                assert(all[before.len() as int] == i);
            }
        }
    }
}

/// The joined steps of the first `count` fragments: ascending, below the end of
/// the last window, and exactly those that an accepted fragment carries.
proof fn lemma_joined(scan: ActiveModel, count: int)
    requires
        model::active_valid(scan),
        0 <= count <= scan.fragments.len(),
    ensures
        ({
            let steps = model::joined_fragments(scan.fragments, count);
            let expected = scan.metadata.summary.expected_step_count;
            let missing = scan.metadata.summary.missing_steps_bitmap;
            &&& forall|k: int|
                0 <= k < steps.len() ==> (#[trigger] steps[k]).step_index < 3 * count
                    && steps[k].step_index < expected && scan.fragments[steps[k].step_index as int
                    / 3] is Some && !checks::has_bit(missing, steps[k].step_index as int)
            &&& forall|k: int, l: int|
                0 <= k < l < steps.len() ==> (#[trigger] steps[k]).step_index < (
                #[trigger] steps[l]).step_index
            &&& forall|i: int|
                0 <= i < 3 * count && i < expected && scan.fragments[i / 3] is Some
                    && !#[trigger] checks::has_bit(missing, i) ==> records::holds_step(steps, i)
        }),
    decreases count,
{
    let expected = scan.metadata.summary.expected_step_count;
    let missing = scan.metadata.summary.missing_steps_bitmap;
    if count > 0 {
        lemma_joined(scan, count - 1);
        let before = model::joined_fragments(scan.fragments, count - 1);
        let steps = model::joined_fragments(scan.fragments, count);
        let from = profile::window_start_of((count - 1) as u8);
        let to = profile::window_end_of((count - 1) as u8, expected);
        match scan.fragments[count - 1] {
            None => {
                assert(steps =~= before);
                assert forall|i: int|
                    0 <= i < 3 * count && i < expected && scan.fragments[i / 3] is Some
                        && !#[trigger] checks::has_bit(missing, i) implies records::holds_step(
                    steps,
                    i,
                ) by {
                    assert(i / 3 != count - 1);
                }
            },
            Some(part) => {
                let indices = model::present_indices(missing, from, to);
                assert(model::steps_fit(scan.metadata, count - 1, part));
                lemma_indices(missing, from, to);
                assert forall|k: int| 0 <= k < steps.len() implies (
                #[trigger] steps[k]).step_index < 3 * count && steps[k].step_index < expected
                    && scan.fragments[steps[k].step_index as int / 3] is Some && !checks::has_bit(
                    missing,
                    steps[k].step_index as int,
                ) by {
                    if k < before.len() {
                        assert(steps[k] == before[k]);
                    } else {
                        assert(steps[k] == part[k - before.len()]);
                        assert(part[k - before.len()].step_index == indices[k - before.len()]);
                    }
                }
                assert forall|k: int, l: int| 0 <= k < l < steps.len() implies (
                #[trigger] steps[k]).step_index < (#[trigger] steps[l]).step_index by {
                    if l < before.len() {
                        assert(steps[k] == before[k] && steps[l] == before[l]);
                    } else {
                        assert(steps[l] == part[l - before.len()]);
                        assert(part[l - before.len()].step_index == indices[l - before.len()]);
                        if k < before.len() {
                            assert(steps[k] == before[k]);
                        } else {
                            assert(steps[k] == part[k - before.len()]);
                            assert(part[k - before.len()].step_index == indices[k
                                - before.len()]);
                        }
                    }
                }
                assert forall|i: int|
                    0 <= i < 3 * count && i < expected && scan.fragments[i / 3] is Some
                        && !#[trigger] checks::has_bit(missing, i) implies records::holds_step(
                    steps,
                    i,
                ) by {
                    if i < from {
                        assert(records::holds_step(before, i));
                        let k = choose|k: int|
                            0 <= k < before.len() && (#[trigger] before[k]).step_index == i;
                        assert(steps[k].step_index == i);
                    } else {
                        assert(indices.contains(i));
                        let k = choose|k: int| 0 <= k < indices.len() && indices[k] == i;
                        assert(part[k].step_index == i);
                        assert(steps[before.len() + k] == part[k]);
                    }
                }
            },
        }
    }
}

/// A profile that is handed out, complete or not, has its steps in ascending
/// order, each once.
pub proof fn law_reassembled_steps_ascend(profile: ReassembledProfile, scan: ActiveModel)
    requires
        model::active_valid(scan),
        profile.reports(scan),
    ensures
        forall|k: int, l: int|
            0 <= k < l < profile.scan.steps@.len() ==> (
            #[trigger] profile.scan.steps@[k]).step_index < (
            #[trigger] profile.scan.steps@[l]).step_index,
{
    lemma_joined(scan, scan.fragments.len() as int);
}

/// A profile that is handed out, complete or not, passes structural validation.
pub proof fn law_reassembled_profiles_validate(profile: ReassembledProfile, scan: ActiveModel)
    requires
        model::active_valid(scan),
        profile.reports(scan),
    ensures
        records::scan_fault(profile.scan) is None,
{
    let record = profile.scan;
    let steps = record.steps@;
    let expected = record.expected_steps;
    let missing = record.reported_missing_steps;
    let received = record.received_fragment_bitmap;
    let count = scan.fragments.len() as int;
    lemma_joined(scan, count);
    assert forall|i: int| 0 <= i < 16 && #[trigger] checks::has_bit(received, i) implies i
        < record.expected_fragment_count by {}
    checks::lemma_mask_covers(received, record.expected_fragment_count);
    lemma_measurements(record, scan, steps.len() as int);
    let accountable = |i: int|
        i < record.expected_steps && (if checks::has_bit(record.received_fragment_bitmap, i / 3) {
            !records::holds_step(record.steps@, i)
        } else {
            checks::has_bit(record.reported_missing_steps, i)
        });
    let computed = checks::bitmap_where(accountable, 16);
    assert(computed == records::accountable_missing_steps(record));
    assert forall|i: int| 0 <= i < 16 implies #[trigger] checks::has_bit(computed, i)
        == checks::has_bit(missing, i) by {
        checks::lemma_bitmap_where(accountable, 16, i);
        if checks::has_bit(missing, i) {
            checks::lemma_within_mask(missing, expected, i);
        }
        if i < expected {
            assert(checks::has_bit(received, i / 3) == (scan.fragments[i / 3] is Some));
            if scan.fragments[i / 3] is Some {
                if checks::has_bit(missing, i) {
                    assert(!records::holds_step(steps, i)) by {
                        if records::holds_step(steps, i) {
                            let k = choose|k: int|
                                0 <= k < steps.len() && (#[trigger] steps[k]).step_index == i;
                            assert(!checks::has_bit(missing, steps[k].step_index as int));
                        }
                    }
                } else {
                    assert(records::holds_step(steps, i));
                }
            }
        }
    }
    checks::lemma_bits_determine(computed, missing);
}

proof fn lemma_measurements(record: records::ProfileScan, scan: ActiveModel, count: int)
    requires
        model::active_valid(scan),
        record.steps@ == model::joined_fragments(scan.fragments, scan.fragments.len() as int),
        record.expected_steps == scan.metadata.summary.expected_step_count,
        record.received_fragment_bitmap == scan.received_fragment_bitmap,
        0 <= count <= record.steps@.len(),
    ensures
        records::measurements_fault(record, count) is None,
    decreases count,
{
    if count > 0 {
        lemma_measurements(record, scan, count - 1);
        lemma_joined(scan, scan.fragments.len() as int);
        let steps = record.steps@;
        let index = steps[count - 1].step_index as int;
        let head = steps.take(count - 1);
        assert(scan.fragments[index / 3] is Some);
        assert(checks::has_bit(scan.received_fragment_bitmap, index / 3));
        assert(!records::holds_step(head, index)) by {
            if records::holds_step(head, index) {
                let k = choose|k: int|
                    0 <= k < head.len() && (#[trigger] head[k]).step_index == index;
                assert(head[k] == steps[k]);
                assert(steps[k].step_index < steps[count - 1].step_index);
            }
        }
    }
}

/// The state after the first `count` of the fragments that `order` names.
pub open spec fn after_run(
    state: ReassemblerModel,
    fragments: Seq<FragmentModel>,
    sources: Seq<SourceFragment>,
    times: Seq<u128>,
    order: Seq<int>,
    count: int,
) -> ReassemblerModel
    decreases count,
{
    if count <= 0 {
        state
    } else {
        model::ingested(
            after_run(state, fragments, sources, times, order, count - 1),
            fragments[order[count - 1]],
            sources[order[count - 1]],
            times[count - 1],
        ).state
    }
}

/// What fragment number `number` in the order does.
pub open spec fn outcome_of_run(
    state: ReassemblerModel,
    fragments: Seq<FragmentModel>,
    sources: Seq<SourceFragment>,
    times: Seq<u128>,
    order: Seq<int>,
    number: int,
) -> IngestModel {
    model::ingested(
        after_run(state, fragments, sources, times, order, number),
        fragments[order[number]],
        sources[order[number]],
        times[number],
    )
}

/// What comes of fragment number `number` in the order.
pub open spec fn event_of_run(
    state: ReassemblerModel,
    fragments: Seq<FragmentModel>,
    sources: Seq<SourceFragment>,
    times: Seq<u128>,
    order: Seq<int>,
    number: int,
) -> EventModel {
    outcome_of_run(state, fragments, sources, times, order, number).event
}

/// The sources of the first `count` fragments, in order of arrival.
pub open spec fn arrived(sources: Seq<SourceFragment>, order: Seq<int>, count: int) -> Seq<
    SourceFragment,
> {
    Seq::new(count as nat, |k: int| sources[order[k]])
}

/// Whether a reassembler has room for one more scan.
pub open spec fn has_room(state: ReassemblerModel) -> bool {
    state.active.len() < state.max_active
}

/// Whether the scan at `position` is the only one besides those that were active
/// before, and stands behind them.
pub open spec fn stands_behind(
    active: Seq<ActiveModel>,
    position: int,
    before: Seq<ActiveModel>,
) -> bool {
    &&& position == before.len()
    &&& active.len() == before.len() + 1
    &&& active.take(position) =~= before
}

/// Whether `fragments` are all the fragments of one scan, in order, each with a
/// source of its own, and `order` names each of them once.
pub open spec fn whole_scan(
    metadata: ProfileMetadata,
    fragments: Seq<FragmentModel>,
    sources: Seq<SourceFragment>,
    times: Seq<u128>,
    order: Seq<int>,
) -> bool {
    &&& fragments.len() == metadata.expected_fragment_count
    &&& sources.len() == fragments.len()
    &&& times.len() == fragments.len()
    &&& order.len() == fragments.len()
    &&& forall|i: int|
        0 <= i < fragments.len() ==> {
            &&& profile::fragment_valid(#[trigger] fragments[i])
            &&& model::metadata_of(fragments[i]) == metadata
            &&& fragments[i].header.fragment_index == i
        }
    &&& forall|i: int| 0 <= i < sources.len() ==> (#[trigger] sources[i]).fragment_index == i
    &&& forall|k: int| 0 <= k < order.len() ==> 0 <= #[trigger] order[k] < fragments.len()
    &&& forall|k: int, l: int|
        0 <= k < l < order.len() ==> #[trigger] order[k] != #[trigger] order[l]
    &&& forall|i: int| 0 <= i < fragments.len() ==> #[trigger] order.contains(i)
}

/// Whether fragment `i` is among the first `count` of the order.
pub open spec fn named_before(order: Seq<int>, i: int, count: int) -> bool {
    exists|k: int| 0 <= k < count && #[trigger] order[k] == i
}

/// Whether an active scan holds exactly the fragments among the first `count` of
/// the order, with their sources in order of arrival.
pub open spec fn holds_named(
    scan: ActiveModel,
    metadata: ProfileMetadata,
    fragments: Seq<FragmentModel>,
    sources: Seq<SourceFragment>,
    order: Seq<int>,
    count: int,
) -> bool {
    &&& scan.metadata == metadata
    &&& scan.sources =~= arrived(sources, order, count)
    &&& scan.fragments.len() == fragments.len()
    &&& scan.duplicate_fragment_count == 0
    &&& scan.conflicting_fragment_count == 0
    &&& forall|i: int|
        0 <= i < fragments.len() ==> #[trigger] scan.fragments[i] == (if named_before(
            order,
            i,
            count,
        ) {
            Some(convert::step_records(fragments[i].steps))
        } else {
            None
        })
}

proof fn lemma_run(
    state: ReassemblerModel,
    metadata: ProfileMetadata,
    fragments: Seq<FragmentModel>,
    sources: Seq<SourceFragment>,
    times: Seq<u128>,
    order: Seq<int>,
    count: int,
)
    requires
        model::state_valid(state),
        whole_scan(metadata, fragments, sources, times, order),
        model::find_completed(state.completed, metadata.key) is None,
        model::find_active(state.active, metadata.key) is None,
        0 <= count < order.len(),
    ensures
        ({
            let before = after_run(state, fragments, sources, times, order, count);
            let position = model::find_active(before.active, metadata.key);
            &&& model::state_valid(before)
            &&& model::find_completed(before.completed, metadata.key) is None
            &&& count == 0 ==> position is None && before == state
            &&& count > 0 ==> {
                &&& position is Some
                &&& 0 <= position->0 < before.active.len()
                &&& holds_named(
                    before.active[position->0],
                    metadata,
                    fragments,
                    sources,
                    order,
                    count,
                )
                &&& has_room(state) ==> stands_behind(before.active, position->0, state.active)
            }
        }),
    decreases count,
{
    if count > 0 {
        lemma_run(state, metadata, fragments, sources, times, order, count - 1);
        lemma_step_of_run(state, metadata, fragments, sources, times, order, count - 1);
    }
}

/// One step of a run: the named fragment is accepted, and the scan is handed out
/// if and only if it was the last one.
proof fn lemma_step_of_run(
    state: ReassemblerModel,
    metadata: ProfileMetadata,
    fragments: Seq<FragmentModel>,
    sources: Seq<SourceFragment>,
    times: Seq<u128>,
    order: Seq<int>,
    number: int,
)
    requires
        whole_scan(metadata, fragments, sources, times, order),
        0 <= number < order.len(),
        ({
            let before = after_run(state, fragments, sources, times, order, number);
            let position = model::find_active(before.active, metadata.key);
            &&& model::state_valid(before)
            &&& model::find_completed(before.completed, metadata.key) is None
            &&& number == 0 ==> position is None && before == state
            &&& number > 0 ==> {
                &&& position is Some
                &&& 0 <= position->0 < before.active.len()
                &&& holds_named(
                    before.active[position->0],
                    metadata,
                    fragments,
                    sources,
                    order,
                    number,
                )
                &&& has_room(state) ==> stands_behind(before.active, position->0, state.active)
            }
        }),
    ensures
        ({
            let event = event_of_run(state, fragments, sources, times, order, number);
            let after = after_run(state, fragments, sources, times, order, number + 1);
            let position = model::find_active(after.active, metadata.key);
            &&& model::state_valid(after)
            &&& number + 1 < order.len() ==> {
                &&& event is Pending
                &&& model::find_completed(after.completed, metadata.key) is None
                &&& position is Some
                &&& 0 <= position->0 < after.active.len()
                &&& holds_named(
                    after.active[position->0],
                    metadata,
                    fragments,
                    sources,
                    order,
                    number + 1,
                )
                &&& has_room(state) ==> stands_behind(after.active, position->0, state.active)
            }
            &&& number + 1 == order.len() ==> {
                &&& event is Complete
                &&& model::active_valid(event->Complete_0)
                &&& holds_named(
                    event->Complete_0,
                    metadata,
                    fragments,
                    sources,
                    order,
                    number + 1,
                )
                &&& has_room(state) ==> after.active =~= state.active
            }
            &&& number > 0 || has_room(state) ==> outcome_of_run(
                state,
                fragments,
                sources,
                times,
                order,
                number,
            ).evicted is None
        }),
{
    let before = after_run(state, fragments, sources, times, order, number);
    let index = order[number];
    let fragment = fragments[index];
    let source = sources[index];
    let time = times[number];
    let key = metadata.key;
    model::lemma_valid_fragment(fragment);
    model::lemma_ingest_keeps_state(before, fragment, source, time);
    model::lemma_opened_scan(before, metadata, time);
    let room = model::with_room(before, key);
    let active = model::opened(room, metadata, time);
    let position = model::find_active(active, key)->0;
    let scan = active[position];
    if number == 0 {
        model::lemma_find_active(before.active, key);
        model::lemma_find_active(room, key);
        model::lemma_room_of_new(before, key);
        assert(scan == model::new_active(metadata, time));
    } else {
        assert(room == before.active);
        assert(active == room);
    }
    assert forall|i: int| 0 <= i < fragments.len() implies #[trigger] scan.fragments[i] == (
    if named_before(order, i, number) {
        Some(convert::step_records(fragments[i].steps))
    } else {
        None
    }) by {}
    assert(!named_before(order, index, number));
    let steps = convert::step_records(fragment.steps);
    let grown = model::with_fragment(scan, index, steps, source, time);
    model::lemma_with_fragment(scan, index, steps, source, time);
    assert forall|i: int| 0 <= i < fragments.len() implies #[trigger] grown.fragments[i] == (
    if named_before(order, i, number + 1) {
        Some(convert::step_records(fragments[i].steps))
    } else {
        None
    }) by {
        if i == index {
            assert(order[number] == i);
        } else {
            assert(grown.fragments[i] == scan.fragments[i]);
            if named_before(order, i, number + 1) {
                let k = choose|k: int| 0 <= k < number + 1 && #[trigger] order[k] == i;
                assert(k < number);
            }
        }
    }
    assert(grown.sources =~= arrived(sources, order, number + 1));
    if has_room(state) {
        assert(stands_behind(active, position, state.active));
        assert(active.update(position, grown).take(position) =~= state.active);
        assert(active.remove(position) =~= state.active);
    }
    if number + 1 < order.len() {
        let last = order[order.len() - 1];
        assert(!named_before(order, last, number + 1));
        assert(!(grown.fragments[last] is Some));
        let after = after_run(state, fragments, sources, times, order, number + 1);
        assert(after.active == active.update(position, grown));
        assert forall|j: int| 0 <= j < position implies (
        #[trigger] after.active[j]).metadata.key != key by {
            assert(after.active[j] == active[j]);
        }
        model::lemma_found(after.active, key, position);
    } else {
        assert forall|i: int| 0 <= i < grown.fragments.len() implies (
        #[trigger] grown.fragments[i]) is Some by {
            assert(order.contains(i));
            let k = choose|k: int| 0 <= k < order.len() && order[k] == i;
            assert(named_before(order, i, number + 1));
        }
    }
}

/// Fragments can arrive in any order: whichever it is, the scan stays pending
/// until its last fragment, and then is complete and holds every fragment, with their
/// sources in order of arrival. Where there is room for the scan, no other one makes
/// room on the way, and the same scans as before are active at the end.
pub proof fn law_any_order_completes(
    state: ReassemblerModel,
    metadata: ProfileMetadata,
    fragments: Seq<FragmentModel>,
    sources: Seq<SourceFragment>,
    times: Seq<u128>,
    order: Seq<int>,
    number: int,
)
    requires
        model::state_valid(state),
        whole_scan(metadata, fragments, sources, times, order),
        model::find_completed(state.completed, metadata.key) is None,
        model::find_active(state.active, metadata.key) is None,
        0 <= number < order.len(),
    ensures
        ({
            let event = event_of_run(state, fragments, sources, times, order, number);
            &&& number > 0 || has_room(state) ==> outcome_of_run(
                state,
                fragments,
                sources,
                times,
                order,
                number,
            ).evicted is None
            &&& number + 1 < order.len() ==> event is Pending
            &&& number + 1 == order.len() ==> {
                &&& event is Complete
                &&& has_room(state) ==> after_run(
                    state,
                    fragments,
                    sources,
                    times,
                    order,
                    number + 1,
                ).active =~= state.active
                &&& model::active_valid(event->Complete_0)
                &&& event->Complete_0.sources =~= arrived(sources, order, order.len() as int)
                &&& event->Complete_0.metadata == metadata
                &&& event->Complete_0.duplicate_fragment_count == 0
                &&& event->Complete_0.conflicting_fragment_count == 0
                &&& event->Complete_0.fragments =~= Seq::new(
                    fragments.len(),
                    |i: int| Some(convert::step_records(fragments[i].steps)),
                )
            }
        }),
{
    lemma_run(state, metadata, fragments, sources, times, order, number);
    lemma_step_of_run(state, metadata, fragments, sources, times, order, number);
    if number + 1 == order.len() {
        let scan = event_of_run(
            state,
            fragments,
            sources,
            times,
            order,
            number,
        )->Complete_0;
        assert forall|i: int| 0 <= i < fragments.len() implies #[trigger] scan.fragments[i]
            == Some(convert::step_records(fragments[i].steps)) by {
            assert(order.contains(i));
            let k = choose|k: int| 0 <= k < order.len() && order[k] == i;
            assert(named_before(order, i, number + 1));
        }
    }
}

/// Until the last fragment of a scan nothing is handed out on its account.
#[verifier::spinoff_prover]
proof fn lemma_on_the_way(
    state: ReassemblerModel,
    metadata: ProfileMetadata,
    fragments: Seq<FragmentModel>,
    sources: Seq<SourceFragment>,
    times: Seq<u128>,
    order: Seq<int>,
)
    requires
        model::state_valid(state),
        whole_scan(metadata, fragments, sources, times, order),
        model::find_completed(state.completed, metadata.key) is None,
        model::find_active(state.active, metadata.key) is None,
    ensures
        forall|number: int|
            0 <= number < order.len() - 1 ==> (#[trigger] event_of_run(
                state,
                fragments,
                sources,
                times,
                order,
                number,
            )) is Pending,
        forall|number: int|
            0 <= number < order.len() && (number > 0 || has_room(state)) ==> (
            #[trigger] outcome_of_run(
                state,
                fragments,
                sources,
                times,
                order,
                number,
            )).evicted is None,
{
    assert forall|number: int| 0 <= number < order.len() - 1 implies (#[trigger] event_of_run(
        state,
        fragments,
        sources,
        times,
        order,
        number,
    )) is Pending by {
        law_any_order_completes(state, metadata, fragments, sources, times, order, number);
    }
    assert forall|number: int|
        0 <= number < order.len() && (number > 0 || has_room(state)) implies (
    #[trigger] outcome_of_run(state, fragments, sources, times, order, number)).evicted is None by {
        law_any_order_completes(state, metadata, fragments, sources, times, order, number);
    }
}

/// The fragments that a scan is sent in.
pub open spec fn sent_fragments(common: Common, scan: ProfileScan) -> Seq<FragmentModel> {
    Seq::new(
        profile::fragment_count_of(scan.expected_step_count) as nat,
        |i: int| profile::fragment_of(common, scan, i as u8),
    )
}

/// Whether the fragments of an encoded scan arrive once each, in some order, at a
/// reassembler that does not know the scan, and the profile is what it hands out.
pub open spec fn is_received(
    common: Common,
    scan: ProfileScan,
    state: ReassemblerModel,
    sources: Seq<SourceFragment>,
    times: Seq<u128>,
    order: Seq<int>,
    profile: ReassembledProfile,
) -> bool {
    let fragments = sent_fragments(common, scan);
    let metadata = model::metadata_of(fragments[0]);
    let last = order.len() - 1;
    let event = event_of_run(state, fragments, sources, times, order, last);
    &&& model::state_valid(state)
    &&& sources.len() == fragments.len()
    &&& times.len() == fragments.len()
    &&& order.len() == fragments.len()
    &&& forall|i: int| 0 <= i < sources.len() ==> (#[trigger] sources[i]).fragment_index == i
    &&& forall|k: int| 0 <= k < order.len() ==> 0 <= #[trigger] order[k] < fragments.len()
    &&& forall|k: int, l: int|
        0 <= k < l < order.len() ==> #[trigger] order[k] != #[trigger] order[l]
    &&& forall|i: int| 0 <= i < fragments.len() ==> #[trigger] order.contains(i)
    &&& model::find_completed(state.completed, metadata.key) is None
    &&& model::find_active(state.active, metadata.key) is None
    &&& event is Complete ==> profile.reports(event->Complete_0)
}

/// What goes in at one end comes out at the other: the frames of an encoded scan decode
/// to its fragments, and these, received in any order, stay pending until the last one
/// and then complete a profile. It has the scan's identity and summary, every step of
/// the scan in ascending order, and its sources in order of arrival, and it passes
/// validation. Where there is room for the scan, no other one makes room on the way,
/// and the same scans as before are active at the end.
#[verifier::spinoff_prover]
#[verifier::rlimit(30)]
pub proof fn law_scan_survives_the_radio(
    common: Common,
    scan: ProfileScan,
    state: ReassemblerModel,
    sources: Seq<SourceFragment>,
    times: Seq<u128>,
    order: Seq<int>,
    profile: ReassembledProfile,
)
    requires
        profile::encode_profile_fault(common, scan) is None,
        is_received(common, scan, state, sources, times, order, profile),
    ensures
        forall|i: int|
            0 <= i < order.len() ==> frame::decoded(
                profile::fragment_frame(#[trigger] sent_fragments(common, scan)[i]),
            ) == Ok::<FrameModel, Error>(
                FrameModel::ProfileFragment(sent_fragments(common, scan)[i]),
            ),
        event_of_run(
            state,
            sent_fragments(common, scan),
            sources,
            times,
            order,
            order.len() - 1,
        ) is Complete,
        forall|number: int|
            0 <= number < order.len() - 1 ==> (#[trigger] event_of_run(
                state,
                sent_fragments(common, scan),
                sources,
                times,
                order,
                number,
            )) is Pending,
        forall|number: int|
            0 <= number < order.len() && (number > 0 || has_room(state)) ==> (
            #[trigger] outcome_of_run(
                state,
                sent_fragments(common, scan),
                sources,
                times,
                order,
                number,
            )).evicted is None,
        has_room(state) ==> after_run(
            state,
            sent_fragments(common, scan),
            sources,
            times,
            order,
            order.len() as int,
        ).active =~= state.active,
        profile.fragments@ =~= arrived(sources, order, order.len() as int),
        forall|k: int, l: int|
            0 <= k < l < profile.scan.steps@.len() ==> (#[trigger] profile.scan.steps@[k]).step_index
                < (#[trigger] profile.scan.steps@[l]).step_index,
        profile.scan.identity == convert::identity_of(
            profile::fragment_of(common, scan, 0).header,
        ),
        profile.scan.steps@ == convert::step_records(
            profile::present_steps(scan.steps@, 0, scan.expected_step_count as int),
        ),
        profile.scan == (records::ProfileScan {
            identity: profile.scan.identity,
            profile_id: scan.profile_id,
            profile_version: scan.profile_version,
            expected_steps: scan.expected_step_count,
            observed_unique_steps: scan.observed_unique_step_count,
            observed_field_count: scan.observed_field_count,
            reported_missing_steps: scan.missing_steps_bitmap,
            duplicate_steps: scan.duplicate_steps_bitmap,
            duration_us: scan.scan_duration_us,
            collection_flags: scan.collection_flags,
            finish_reason: scan.finish_reason,
            duplicate_count: scan.duplicate_count,
            overwritten_field_count: scan.overwritten_field_count,
            out_of_order_count: scan.out_of_order_count,
            ambiguous_index_jump_count: scan.ambiguous_index_jump_count,
            invalid_gas_index_count: scan.invalid_gas_index_count,
            intermediate_field_count: scan.intermediate_field_count,
            profile_rollover_count: scan.profile_rollover_count,
            fields_after_rollover_count: scan.fields_after_rollover_count,
            poll_count: scan.poll_count,
            expected_fragment_count: profile::fragment_count_of(scan.expected_step_count),
            received_fragment_bitmap: records::full_bitmap(
                profile::fragment_count_of(scan.expected_step_count),
            ),
            duplicate_fragment_count: 0,
            conflicting_fragment_count: 0,
            steps: profile.scan.steps,
        }),
        records::scan_fault(profile.scan) is None,
{
    let fragments = sent_fragments(common, scan);
    let metadata = model::metadata_of(fragments[0]);
    let count = fragments.len() as int;
    assert forall|i: int| 0 <= i < fragments.len() implies {
        &&& profile::fragment_valid(#[trigger] fragments[i])
        &&& model::metadata_of(fragments[i]) == metadata
        &&& fragments[i].header.fragment_index == i
    } by {
        lemma_sent_fragment_valid(common, scan, i as u8);
    }
    assert forall|i: int| 0 <= i < order.len() implies frame::decoded(
        profile::fragment_frame(#[trigger] fragments[i]),
    ) == Ok::<FrameModel, Error>(FrameModel::ProfileFragment(fragments[i])) by {
        laws::law_profile_round_trip(common, scan, i as u8);
    }
    law_any_order_completes(
        state,
        metadata,
        fragments,
        sources,
        times,
        order,
        order.len() - 1,
    );
    let complete = event_of_run(
        state,
        fragments,
        sources,
        times,
        order,
        order.len() - 1,
    )->Complete_0;
    lemma_on_the_way(state, metadata, fragments, sources, times, order);
    law_reassembled_steps_ascend(profile, complete);
    law_reassembled_profiles_validate(profile, complete);
    model::lemma_full_bitmap(complete);
    lemma_joined_records(common, scan, complete, count);
    profile::lemma_joined_steps(common, scan, count);
}

/// Every measurement survives the radio unchanged: for each step that an encoded scan
/// holds, the completed profile has a record at that step with every reading, raw
/// channel and register equal to the encoded one, and it has a record at no other
/// step. The record's identity is that of the frames' common fields.
pub proof fn law_every_measurement_survives_the_radio(
    common: Common,
    scan: ProfileScan,
    state: ReassemblerModel,
    sources: Seq<SourceFragment>,
    times: Seq<u128>,
    order: Seq<int>,
    profile: ReassembledProfile,
    index: int,
)
    requires
        profile::encode_profile_fault(common, scan) is None,
        is_received(common, scan, state, sources, times, order, profile),
        0 <= index < scan.expected_step_count,
    ensures
        match scan.steps[index] {
            Some(step) => exists|k: int| {
                &&& 0 <= k < profile.scan.steps@.len()
                &&& profile.scan.steps@[k].step_index == index
                &&& (#[trigger] profile.scan.steps@[k]).step_index == step.step_index
                &&& profile.scan.steps@[k].gas_index == step.gas_index
                &&& profile.scan.steps@[k].measurement_index == step.measurement_index
                &&& profile.scan.steps@[k].status_bits == step.status
                &&& profile.scan.steps@[k].raw_measurement_status == step.raw_measurement_status
                &&& profile.scan.steps@[k].raw_gas_status == step.raw_gas_status
                &&& profile.scan.steps@[k].target_temperature_celsius == step.target_temperature_celsius
                &&& profile.scan.steps@[k].configured_duration_us == step.configured_duration_us
                &&& profile.scan.steps@[k].relative_offset_us == step.offset_us
                &&& profile.scan.steps@[k].temperature_centi_celsius == step.temperature_centi_celsius
                &&& profile.scan.steps@[k].pressure_pascal == step.pressure_pascal
                &&& profile.scan.steps@[k].humidity_milli_percent_rh == step.humidity_milli_percent_rh
                &&& profile.scan.steps@[k].gas_resistance_ohm == step.gas_resistance_ohm
                &&& profile.scan.steps@[k].raw_temperature_adc == step.temperature_adc
                &&& profile.scan.steps@[k].raw_pressure_adc == step.pressure_adc
                &&& profile.scan.steps@[k].raw_humidity_adc == step.humidity_adc
                &&& profile.scan.steps@[k].raw_gas_resistance_adc == step.gas_resistance_adc
                &&& profile.scan.steps@[k].raw_gas_range == step.gas_range
                &&& profile.scan.steps@[k].repetition_multiplier == step.repetition_multiplier
                &&& profile.scan.steps@[k].raw_heater_resistance == step.heater_resistance
                &&& profile.scan.steps@[k].raw_heater_current == step.heater_current
                &&& profile.scan.steps@[k].raw_gas_wait == step.gas_wait
            },
            None => forall|k: int|
                0 <= k < profile.scan.steps@.len() ==> (
                #[trigger] profile.scan.steps@[k]).step_index != index,
        },
        profile.scan.identity.common_flags == common.flags,
        profile.scan.identity.node_id == common.node_id,
        profile.scan.identity.boot_id == common.boot_id,
        profile.scan.identity.scan_sequence == common.scan_sequence,
        profile.scan.identity.uptime_ms == common.uptime_ms,
        profile.scan.identity.config_id == common.config_id,
        profile.scan.identity.reset_cause_flags == common.reset_cause_flags,
        profile.scan.expected_fragment_count == (scan.expected_step_count + 2) / 3,
        forall|i: int|
            0 <= i < 16 ==> #[trigger] checks::has_bit(profile.scan.received_fragment_bitmap, i)
                == (3 * i < scan.expected_step_count),
{
    law_scan_survives_the_radio(common, scan, state, sources, times, order, profile);
    let held = profile::present_steps(scan.steps@, 0, scan.expected_step_count as int);
    assert forall|i: int| 0 <= i < 16 implies #[trigger] checks::has_bit(
        profile.scan.received_fragment_bitmap,
        i,
    ) == (3 * i < scan.expected_step_count) by {
        checks::lemma_mask_bits(profile::fragment_count_of(scan.expected_step_count), i);
    }
    profile::lemma_valid_slot(scan, index);
    match scan.steps[index] {
        Some(step) => {
            profile::lemma_present_step_is_held(
                scan.steps@,
                0,
                index,
                scan.expected_step_count as int,
            );
            let k = choose|k: int| 0 <= k < held.len() && held[k] == step;
            assert(profile.scan.steps@[k] == convert::step_record(step));
        },
        None => {
            assert forall|k: int| 0 <= k < profile.scan.steps@.len() implies (
            #[trigger] profile.scan.steps@[k]).step_index != index by {
                profile::lemma_held_step_has_its_slot(
                    scan,
                    0,
                    scan.expected_step_count as int,
                    k,
                );
                assert(profile.scan.steps@[k] == convert::step_record(held[k]));
            }
        },
    }
}

/// What is reassembled does not depend on the order of arrival, nor on what else the
/// reassembler was doing.
pub proof fn law_order_of_arrival_does_not_matter(
    common: Common,
    scan: ProfileScan,
    first_state: ReassemblerModel,
    first_sources: Seq<SourceFragment>,
    first_times: Seq<u128>,
    first_order: Seq<int>,
    first: ReassembledProfile,
    second_state: ReassemblerModel,
    second_sources: Seq<SourceFragment>,
    second_times: Seq<u128>,
    second_order: Seq<int>,
    second: ReassembledProfile,
)
    requires
        profile::encode_profile_fault(common, scan) is None,
        is_received(
            common,
            scan,
            first_state,
            first_sources,
            first_times,
            first_order,
            first,
        ),
        is_received(
            common,
            scan,
            second_state,
            second_sources,
            second_times,
            second_order,
            second,
        ),
    ensures
        first.scan.steps@ == second.scan.steps@,
        first.scan == (records::ProfileScan { steps: first.scan.steps, ..second.scan }),
{
    law_scan_survives_the_radio(
        common,
        scan,
        first_state,
        first_sources,
        first_times,
        first_order,
        first,
    );
    law_scan_survives_the_radio(
        common,
        scan,
        second_state,
        second_sources,
        second_times,
        second_order,
        second,
    );
}

/// A stored identity and a received header name a scan by the same key.
pub proof fn law_stored_key_is_the_received_one(header: Header)
    ensures
        model::key_of_identity(convert::identity_of(header)) == model::key_of(header),
{
}

proof fn lemma_sent_fragment_valid(common: Common, scan: ProfileScan, fragment_index: u8)
    requires
        profile::encode_profile_fault(common, scan) is None,
        fragment_index < profile::fragment_count_of(scan.expected_step_count),
    ensures
        profile::fragment_valid(profile::fragment_of(common, scan, fragment_index)),
{
    profile::lemma_window_of_valid_scan(
        scan,
        profile::window_start_of(fragment_index),
        profile::window_end_of(fragment_index, scan.expected_step_count),
    );
}

proof fn lemma_joined_records(common: Common, scan: ProfileScan, complete: ActiveModel, count: int)
    requires
        0 <= count <= profile::fragment_count_of(scan.expected_step_count),
        complete.fragments.len() == profile::fragment_count_of(scan.expected_step_count),
        forall|i: int|
            0 <= i < complete.fragments.len() ==> #[trigger] complete.fragments[i] == Some(
                convert::step_records(profile::fragment_of(common, scan, i as u8).steps),
            ),
    ensures
        model::joined_fragments(complete.fragments, count) == convert::step_records(
            profile::joined_steps(common, scan, count),
        ),
    decreases count,
{
    if count > 0 {
        lemma_joined_records(common, scan, complete, count - 1);
        assert(complete.fragments[count - 1] == Some(
            convert::step_records(profile::fragment_of(common, scan, (count - 1) as u8).steps),
        ));
    }
    assert(model::joined_fragments(complete.fragments, count) =~= convert::step_records(
        profile::joined_steps(common, scan, count),
    ));
}

/// A scan is complete only once every fragment was obtained, and pending only
/// while one is missing.
pub proof fn law_complete_means_every_fragment(
    state: ReassemblerModel,
    fragment: FragmentModel,
    source: SourceFragment,
    observed_at: u128,
)
    requires
        model::state_valid(state),
        profile::fragment_valid(fragment),
        source.fragment_index == fragment.header.fragment_index,
    ensures
        match model::ingested(state, fragment, source, observed_at).event {
            EventModel::Complete(scan) => {
                &&& model::is_complete(scan)
                &&& scan.fragments.len() == scan.metadata.expected_fragment_count
                &&& scan.metadata == model::metadata_of(fragment)
            },
            EventModel::Pending(progress) => progress.missing_fragment_bitmap != 0
                && progress.key == model::key_of(fragment.header),
            EventModel::Duplicate { key, fragment_index } => key == model::key_of(fragment.header)
                && fragment_index == fragment.header.fragment_index,
            EventModel::Conflict { key, fragment_index } => key == model::key_of(fragment.header)
                && fragment_index == fragment.header.fragment_index,
        },
{
    let metadata = model::metadata_of(fragment);
    let steps = convert::step_records(fragment.steps);
    let index = fragment.header.fragment_index as int;
    model::lemma_valid_fragment(fragment);
    model::lemma_opened_scan(state, metadata, observed_at);
    let active = model::opened(model::with_room(state, metadata.key), metadata, observed_at);
    let scan = active[model::find_active(active, metadata.key)->0];
    if scan.metadata == metadata && scan.fragments[index] is None {
        let grown = model::with_fragment(scan, index, steps, source, observed_at);
        model::lemma_with_fragment(scan, index, steps, source, observed_at);
        if !model::is_complete(grown) {
            lemma_something_missing(grown);
        }
    }
}

proof fn lemma_something_missing(scan: ActiveModel)
    requires
        model::active_valid(scan),
        !model::is_complete(scan),
    ensures
        model::progress_of(scan).missing_fragment_bitmap != 0,
{
    let count = scan.metadata.expected_fragment_count;
    let i = choose|i: int| 0 <= i < scan.fragments.len() && !((#[trigger] scan.fragments[i]) is Some);
    checks::lemma_mask_without(scan.received_fragment_bitmap, count, i);
    assert(!checks::has_bit(scan.received_fragment_bitmap, i));
    let k = i as u16;
    assert(0u16 & (1u16 << k) == 0) by (bit_vector);
}

/// Memory is bounded: whatever is ingested, no more scans are kept than there is
/// room for.
pub proof fn law_memory_is_bounded(
    state: ReassemblerModel,
    fragment: FragmentModel,
    source: SourceFragment,
    observed_at: u128,
    cutoff: u128,
)
    requires
        model::state_valid(state),
        profile::fragment_valid(fragment),
        source.fragment_index == fragment.header.fragment_index,
    ensures
        ({
            let after = model::ingested(state, fragment, source, observed_at).state;
            &&& model::state_valid(after)
            &&& after.active.len() <= state.max_active
            &&& after.completed.len() <= state.max_active
        }),
        model::expired(state, cutoff).active.len() <= state.active.len(),
{
    model::lemma_ingest_keeps_state(state, fragment, source, observed_at);
    state.active.lemma_filter_len(|scan: ActiveModel| scan.last_observed_at >= cutoff);
}

/// Expiry goes by when a scan was last observed and by nothing else: it hands out
/// exactly the scans not observed since the cutoff and keeps the others.
pub proof fn law_expiry_goes_by_observation(state: ReassemblerModel, cutoff: u128, scan: ActiveModel)
    ensures
        model::expired(state, cutoff).active.contains(scan) <==> state.active.contains(scan)
            && scan.last_observed_at >= cutoff,
        model::expired_scans(state, cutoff).contains(scan) <==> state.active.contains(scan)
            && scan.last_observed_at < cutoff,
{
    lemma_filtered(state.active, |scan: ActiveModel| scan.last_observed_at >= cutoff, scan);
    lemma_filtered(state.active, |scan: ActiveModel| scan.last_observed_at < cutoff, scan);
}

proof fn lemma_filtered(scans: Seq<ActiveModel>, keep: spec_fn(ActiveModel) -> bool, scan: ActiveModel)
    ensures
        scans.filter(keep).contains(scan) <==> scans.contains(scan) && keep(scan),
{
    if scans.filter(keep).contains(scan) {
        let i = choose|i: int| 0 <= i < scans.filter(keep).len() && scans.filter(keep)[i] == scan;
        scans.lemma_filter_pred(keep, i);
        scans.lemma_filter_contains_rev(keep, scan);
    }
    if scans.contains(scan) && keep(scan) {
        let i = choose|i: int| 0 <= i < scans.len() && scans[i] == scan;
        scans.lemma_filter_contains(keep, i);
    }
}

} // verus!
