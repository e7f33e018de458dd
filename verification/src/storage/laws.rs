//! What holds of stored telemetry as a whole.

use vstd::prelude::*;

use crate::analysis;
use crate::convert;
use crate::convert::laws as convert_laws;
use crate::reassembly::outcomes;
use crate::reassembly::ReassembledProfile;
use crate::records;
use crate::records::laws as records_laws;
use crate::records::{DeviceConfiguration, ProfileScan, RecordIdentity};
use crate::storage;
use crate::storage::{
    FragmentStorageStatus, IdentityColumns, Migration, PacketDisposition, PersistedFragment,
    PersistedFragmentMatch, ProfileRow, V2PacketKind,
};
use crate::telemetry;
use crate::telemetry::TelemetryModel;
use crate::text;
use crate::text::laws as text_laws;
use crate::v2::checks;
use crate::v2::config;
use crate::v2::frame;
use crate::v2::types::{DeviceConfig, Header, MAX_PROFILE_STEPS};
use crate::wire;

verus! {

/// A persisted scan once a late fragment was matched with it.
pub open spec fn scan_after(scan: ProfileScan, found: PersistedFragmentMatch) -> ProfileScan {
    let counters = storage::counters_of(
        found,
        scan.duplicate_fragment_count,
        scan.conflicting_fragment_count,
    );
    ProfileScan {
        duplicate_fragment_count: counters.0,
        conflicting_fragment_count: counters.1,
        ..scan
    }
}

/// A late conflict invalidates a persisted scan: it fails the analysis gate, and
/// no later fragment makes it pass again.
pub proof fn law_late_conflict_invalidates_the_scan(
    scan: ProfileScan,
    later: PersistedFragmentMatch,
)
    ensures
        !analysis::allows_analysis(scan_after(scan, PersistedFragmentMatch::Conflict)),
        !analysis::allows_analysis(
            scan_after(scan_after(scan, PersistedFragmentMatch::Conflict), later),
        ),
{
}

/// A late duplicate changes nothing but a counter: the scan passes the analysis
/// gate exactly if it did before.
pub proof fn law_late_duplicate_is_harmless(scan: ProfileScan)
    ensures
        analysis::allows_analysis(scan_after(scan, PersistedFragmentMatch::Duplicate))
            == analysis::allows_analysis(scan),
        scan_after(scan, PersistedFragmentMatch::Duplicate).conflicting_fragment_count
            == scan.conflicting_fragment_count,
        records::scan_fault(scan_after(scan, PersistedFragmentMatch::Duplicate))
            == records::scan_fault(scan),
{
    let after = scan_after(scan, PersistedFragmentMatch::Duplicate);
    lemma_same_measurements(scan, after, scan.steps@.len() as int);
}

proof fn lemma_same_measurements(scan: ProfileScan, after: ProfileScan, count: int)
    requires
        after == scan_after(scan, PersistedFragmentMatch::Duplicate),
    ensures
        records::measurements_fault(after, count) == records::measurements_fault(scan, count),
    decreases count,
{
    if count > 0 {
        lemma_same_measurements(scan, after, count - 1);
    }
}

/// A fragment is in conflict exactly if one persisted fragment differs from it, so
/// of two different payloads at most one is a duplicate.
pub proof fn law_duplicates_are_exact(
    persisted: Seq<PersistedFragment>,
    first: Seq<u8>,
    second: Seq<u8>,
)
    requires
        storage::match_of(persisted, first) == Some(PersistedFragmentMatch::Duplicate),
        first != second,
    ensures
        storage::match_of(persisted, second) == Some(PersistedFragmentMatch::Conflict),
{
    assert(persisted[0].payload@ == first);
}

/// No conflict is lost when profiles are put together, and none is made up.
pub proof fn law_merging_keeps_conflicts(counters: Seq<(u16, u16)>)
    ensures
        storage::capped(storage::counter_sums(counters).1) > 0 <==> exists|i: int|
            0 <= i < counters.len() && (#[trigger] counters[i]).1 > 0,
    decreases counters.len(),
{
    if counters.len() > 0 {
        let rest = counters.drop_last();
        law_merging_keeps_conflicts(rest);
        let last = counters.len() - 1;
        if counters[last].1 == 0 {
            if exists|i: int| 0 <= i < counters.len() && (#[trigger] counters[i]).1 > 0 {
                let i = choose|i: int| 0 <= i < counters.len() && (#[trigger] counters[i]).1 > 0;
                assert(rest[i].1 > 0);
            }
            if exists|i: int| 0 <= i < rest.len() && (#[trigger] rest[i]).1 > 0 {
                let i = choose|i: int| 0 <= i < rest.len() && (#[trigger] rest[i]).1 > 0;
                assert(counters[i].1 > 0);
            }
        }
    }
}

/// Every source fragment of a complete profile is marked assembled, and every one
/// of an incomplete profile is marked incomplete.
pub proof fn law_stored_fragments_are_accounted_for(row: ProfileRow, profile: ReassembledProfile)
    requires
        storage::is_row_of(row, profile),
    ensures
        row.fragment_status == FragmentStorageStatus::Assembled
            <==> profile.scan.received_fragment_bitmap == records::full_bitmap(
            profile.scan.expected_fragment_count,
        ),
        row.fragment_status != FragmentStorageStatus::Assembled ==> row.fragment_status
            == FragmentStorageStatus::Incomplete,
{
}

/// Every configuration that decodes can be stored, so its packet is never lost with
/// it.
pub proof fn law_decoded_configurations_are_storable(
    record: DeviceConfiguration,
    header: Header,
    config: DeviceConfig,
)
    requires
        config::config_fault(config) is None,
        convert::is_configuration_of(record, header, config),
    ensures
        records::configuration_fault(record) is None,
{
    lemma_steps_in_order(record, config, record.heater_steps@.len() as int);
}

proof fn lemma_steps_in_order(record: DeviceConfiguration, config: DeviceConfig, count: int)
    requires
        record.heater_steps@ == convert::heater_records(config),
        config.expected_step_count <= MAX_PROFILE_STEPS,
        0 <= count <= record.heater_steps@.len(),
    ensures
        records::step_order_fault(record.heater_steps@, count) is None,
    decreases count,
{
    if count > 0 {
        lemma_steps_in_order(record, config, count - 1);
    }
}

/// Every schema version up to the current one can be brought to the current one,
/// and no other.
pub proof fn law_known_schemas_migrate(version: i64)
    ensures
        storage::migration_of(version) is Ok <==> 0 <= version <= storage::SCHEMA_VERSION,
        storage::migration_of(version) == Ok::<Migration, storage::StorageError>(Migration::Keep)
            <==> version == storage::SCHEMA_VERSION,
{
}

/// The columns of an identity hold every value under its own name. The wide ones are
/// sixteen hexadecimal digits that read back as the integer in the frame's header.
pub proof fn law_columns_are_read_from_the_header(bytes: Seq<u8>, columns: IdentityColumns)
    requires
        frame::decoded(bytes) is Ok,
        storage::are_columns_of(
            columns,
            convert::identity_of(frame::decoded(bytes)->Ok_0.header()),
        ),
    ensures
        columns.node_id@.len() == 16,
        text_laws::number(columns.node_id@, 16) == wire::be64(bytes, 10),
        columns.boot_id@.len() == 16,
        text_laws::number(columns.boot_id@, 16) == wire::be64(bytes, 18),
        columns.scan_sequence == wire::be32(bytes, 26),
        columns.uptime_ms@.len() == 16,
        text_laws::number(columns.uptime_ms@, 16) == wire::be64(bytes, 30),
        columns.config_id@.len() == 16,
        text_laws::number(columns.config_id@, 16) == wire::be64(bytes, 38),
        columns.common_flags == bytes[5],
        columns.reset_cause_flags == wire::be16(bytes, 46),
{
    convert_laws::law_identity_is_read_from_the_header(bytes);
    text_laws::law_sixteen_digits_hold_64_bits(wire::be64(bytes, 10), 0);
    text_laws::law_sixteen_digits_hold_64_bits(wire::be64(bytes, 18), 0);
    text_laws::law_sixteen_digits_hold_64_bits(wire::be64(bytes, 30), 0);
    text_laws::law_sixteen_digits_hold_64_bits(wire::be64(bytes, 38), 0);
}

/// Identities with the same columns are the same: no column loses anything.
pub proof fn law_columns_determine_the_identity(
    columns: IdentityColumns,
    first: RecordIdentity,
    second: RecordIdentity,
)
    requires
        storage::are_columns_of(columns, first),
        storage::are_columns_of(columns, second),
    ensures
        first == second,
{
    text_laws::law_sixteen_digits_hold_64_bits(first.node_id, second.node_id);
    text_laws::law_sixteen_digits_hold_64_bits(first.boot_id, second.boot_id);
    text_laws::law_sixteen_digits_hold_64_bits(first.uptime_ms, second.uptime_ms);
    text_laws::law_sixteen_digits_hold_64_bits(first.config_id, second.config_id);
}

/// The row of a profile starts with the earliest and ends with the latest of its
/// sources, names the fragments that were not obtained, and is complete exactly if
/// every expected one was.
pub proof fn law_row_spans_the_sources(row: ProfileRow, profile: ReassembledProfile)
    requires
        storage::is_row_of(row, profile),
        records::scan_fault(profile.scan) is None,
    ensures
        forall|i: int|
            0 <= i < profile.fragments@.len() ==> row.first_received_at_unix_ms <= (
            #[trigger] profile.fragments@[i]).received_at_unix_ms
                <= row.last_received_at_unix_ms,
        exists|i: int|
            0 <= i < profile.fragments@.len() && (
            #[trigger] profile.fragments@[i]).received_at_unix_ms == row.first_received_at_unix_ms,
        exists|i: int|
            0 <= i < profile.fragments@.len() && (
            #[trigger] profile.fragments@[i]).received_at_unix_ms == row.last_received_at_unix_ms,
        forall|i: int|
            0 <= i < 16 ==> #[trigger] checks::has_bit(row.missing_fragment_bitmap, i) == (i
                < profile.scan.expected_fragment_count && !checks::has_bit(
                profile.scan.received_fragment_bitmap,
                i,
            )),
        row.transport_complete <==> forall|i: int|
            0 <= i < profile.scan.expected_fragment_count ==> #[trigger] checks::has_bit(
                profile.scan.received_fragment_bitmap,
                i,
            ),
        row.fragment_status == FragmentStorageStatus::Assembled <==> row.transport_complete,
        row.fragment_status == FragmentStorageStatus::Incomplete <==> !row.transport_complete,
{
    let scan = profile.scan;
    outcomes::law_first_and_last_time(profile.fragments@);
    records_laws::law_missing_fragments_are_those_not_obtained(scan);
    records_laws::law_full_bitmap_has_the_bits_below_the_count(
        scan.expected_fragment_count,
        scan.received_fragment_bitmap,
    );
    records_laws::law_scan_is_valid(scan);
    if forall|i: int|
        0 <= i < scan.expected_fragment_count ==> #[trigger] checks::has_bit(
            scan.received_fragment_bitmap,
            i,
        ) {
        assert forall|i: int| 0 <= i < 16 implies #[trigger] checks::has_bit(
            scan.received_fragment_bitmap,
            i,
        ) == (i < scan.expected_fragment_count) by {
            if checks::has_bit(scan.received_fragment_bitmap, i) {
                assert(3 * i < scan.expected_steps);
            }
        }
    }
}

/// A late fragment of persisted profiles is a conflict exactly if one of them holds
/// other bytes, a duplicate exactly if all hold the same, and neither without any. Its
/// packet is marked as what it is.
pub proof fn law_late_fragments_are_told_apart(
    persisted: Seq<PersistedFragment>,
    payload: Seq<u8>,
)
    ensures
        storage::match_of(persisted, payload) is None <==> persisted.len() == 0,
        storage::match_of(persisted, payload) == Some(PersistedFragmentMatch::Conflict)
            <==> exists|i: int|
            0 <= i < persisted.len() && (#[trigger] persisted[i]).payload@ != payload,
        storage::match_of(persisted, payload) == Some(PersistedFragmentMatch::Duplicate)
            <==> persisted.len() > 0 && forall|i: int|
            0 <= i < persisted.len() ==> (#[trigger] persisted[i]).payload@ == payload,
        PersistedFragmentMatch::Conflict.status() == FragmentStorageStatus::Conflict,
        PersistedFragmentMatch::Duplicate.status() == FragmentStorageStatus::Duplicate,
{
}

/// A late fragment raises one counter by one, up to 65535: a duplicate the first and a
/// conflict the second.
pub proof fn law_late_fragments_raise_one_counter(duplicates: u16, conflicts: u16)
    ensures
        ({
            let after = storage::counters_of(
                PersistedFragmentMatch::Duplicate,
                duplicates,
                conflicts,
            );
            &&& after.0 == if duplicates < 65535 {
                duplicates + 1
            } else {
                65535
            }
            &&& after.1 == conflicts
        }),
        ({
            let after = storage::counters_of(
                PersistedFragmentMatch::Conflict,
                duplicates,
                conflicts,
            );
            &&& after.0 == duplicates
            &&& after.1 == if conflicts < 65535 {
                conflicts + 1
            } else {
                65535
            }
        }),
{
}

/// Profiles put together count what each of them counted: adding one more adds its own
/// counters, and the sums are capped at 65535 only at the end.
pub proof fn law_merging_adds_up(counters: Seq<(u16, u16)>, more: (u16, u16))
    ensures
        storage::counter_sums(Seq::empty()) == (0nat, 0nat),
        storage::counter_sums(counters.push(more)).0 == storage::counter_sums(counters).0 + more.0,
        storage::counter_sums(counters.push(more)).1 == storage::counter_sums(counters).1 + more.1,
        storage::capped(storage::counter_sums(counters).0) == if storage::counter_sums(counters).0
            <= 65535 {
            storage::counter_sums(counters).0
        } else {
            65535
        },
{
    assert(counters.push(more).drop_last() =~= counters);
}

/// What a payload names of itself is archived: a frame that decodes names the version
/// that it is decoded as, and a version 2 frame its type.
pub proof fn law_named_version_is_the_decoded_one(payload: Seq<u8>)
    ensures
        telemetry::decoded_any(payload) matches Ok(TelemetryModel::V1(_)) ==> {
            &&& storage::named_version(payload) == Some(1u8)
        },
        telemetry::decoded_any(payload) matches Ok(TelemetryModel::V2(model)) ==> {
            &&& storage::named_version(payload) == Some(2u8)
            &&& storage::named_frame_type(payload) == Some(model.header().frame_type.code())
        },
        storage::named_version(payload) is Some <==> payload.len() >= 3 && payload[0] == 0x56
            && payload[1] == 0x53,
        storage::named_version(payload) matches Some(version) ==> version == payload[2],
        storage::named_frame_type(payload) is Some <==> payload.len() >= 4,
        storage::named_frame_type(payload) matches Some(frame_type) ==> frame_type == payload[3],
{
}

/// A version as text is its three numbers in order, with a point between them.
pub proof fn law_version_text_reads_back(version: [u8; 3])
    ensures
        ({
            let shown = storage::semver_of(version);
            exists|first: int, second: int|
                0 < first < second < shown.len() && shown[first] == '.' && shown[second] == '.'
                    && text_laws::number(#[trigger] shown.take(first), 10) == version[0]
                    && text_laws::number(shown.subrange(first + 1, second), 10) == version[1]
                    && text_laws::number(#[trigger] shown.skip(second + 1), 10) == version[2]
        }),
{
    reveal_strlit(".");
    let shown = storage::semver_of(version);
    let major = text::decimal(version[0] as nat);
    let minor = text::decimal(version[1] as nat);
    let patch = text::decimal(version[2] as nat);
    text_laws::law_decimal_digits_read_back(version[0] as nat);
    text_laws::law_decimal_digits_read_back(version[1] as nat);
    text_laws::law_decimal_digits_read_back(version[2] as nat);
    let first = major.len() as int;
    let second = first + 1 + minor.len() as int;
    assert(shown.take(first) =~= major);
    assert(shown.subrange(first + 1, second) =~= minor);
    assert(shown.skip(second + 1) =~= patch);
    assert(shown[first] == '.' && shown[second] == '.');
}

/// The archive tells kinds, states and dispositions apart, and a packet waits for
/// reassembly exactly if it holds a profile fragment.
pub proof fn law_columns_tell_apart(
    kind: V2PacketKind,
    other_kind: V2PacketKind,
    status: FragmentStorageStatus,
    other_status: FragmentStorageStatus,
    disposition: PacketDisposition,
    other_disposition: PacketDisposition,
)
    ensures
        kind.column() == other_kind.column() ==> kind == other_kind,
        status.column() == other_status.column() ==> status == other_status,
        disposition.column() == other_disposition.column() ==> disposition == other_disposition,
        kind.initial_column() == FragmentStorageStatus::Pending.column() <==> kind
            == V2PacketKind::ProfileFragment,
{
    reveal_strlit("device_config");
    reveal_strlit("profile_fragment");
    reveal_strlit("device_health");
    reveal_strlit("not_applicable");
    reveal_strlit("pending");
    reveal_strlit("assembled");
    reveal_strlit("duplicate");
    reveal_strlit("conflict");
    reveal_strlit("incomplete");
    reveal_strlit("v1");
    reveal_strlit("v2");
    reveal_strlit("unsupported");
    reveal_strlit("invalid");
    assert("device_config"@.len() == 13 && "profile_fragment"@.len() == 16 && "device_health"@.len()
        == 13);
    assert("device_config"@[7] == 'c' && "device_health"@[7] == 'h');
    assert("assembled"@[0] == 'a' && "duplicate"@[0] == 'd');
    assert("pending"@.len() == 7 && "assembled"@.len() == 9 && "duplicate"@.len() == 9
        && "conflict"@.len() == 8 && "incomplete"@.len() == 10 && "not_applicable"@.len() == 14);
    assert("v1"@[1] == '1' && "v2"@[1] == '2');
    assert("v1"@.len() == 2 && "v2"@.len() == 2 && "unsupported"@.len() == 11 && "invalid"@.len()
        == 7);
}

/// A database of schema version 0 is created, of version 1 gets the archive, of the
/// draft version 2 has it rebuilt, and of version 3 is kept. Of any other version the
/// error names what was found.
pub proof fn law_each_schema_has_its_migration(version: i64)
    ensures
        storage::migration_of(version) matches Ok(migration) ==> version == match migration {
            Migration::Create => 0int,
            Migration::AddArchive => 1,
            Migration::RebuildArchive => 2,
            Migration::Keep => 3,
        },
        storage::migration_of(version) matches Err(error) ==> error
            == (storage::StorageError::UnsupportedSchemaVersion { found: version }) && !(0
            <= version <= 3),
{
}

/// A profile is refused for the fault of its scan, or for having no sources, and for
/// nothing else.
pub proof fn law_profiles_are_refused(profile: ReassembledProfile)
    ensures
        storage::profile_fault(profile) is None <==> records::scan_fault(profile.scan) is None
            && profile.fragments@.len() > 0,
        storage::profile_fault(profile) matches Some(
            storage::StorageError::InvalidRecord(error),
        ) ==> records::scan_fault(profile.scan) == Some(error),
{
}

/// The messages of storage failures show each value beside its own words.
#[verifier::spinoff_prover]
#[verifier::rlimit(30)]
pub proof fn law_messages_show_what_was_found(
    pending: i64,
    limit: usize,
    fault: records::RecordError,
)
    ensures
        text_laws::shows(
            storage::storage_error_text(storage::StorageError::InvalidRecord(fault)),
            "invalid decoded record: "@ + records::record_error_text(fault),
        ),
        text_laws::shows(
            storage::storage_error_text(
                storage::StorageError::MissingV2Packet { packet_id: pending },
            ),
            "v2 source packet "@ + text::signed_decimal(pending as int) + " does not exist"@,
        ),
        text_laws::shows(
            storage::storage_error_text(
                storage::StorageError::PendingReplayLimitExceeded { pending, limit },
            ),
            text::signed_decimal(pending as int)
                + " pending profile fragments exceed startup replay limit "@,
        ),
        text_laws::shows(
            storage::storage_error_text(
                storage::StorageError::PendingReplayLimitExceeded { pending, limit },
            ),
            " pending profile fragments exceed startup replay limit "@
                + text::decimal(limit as nat),
        ),
        text_laws::shows(
            storage::storage_error_text(
                storage::StorageError::MigrationForeignKeyViolations { count: pending },
            ),
            "schema migration left "@ + text::signed_decimal(pending as int)
                + " foreign-key violation(s)"@,
        ),
        text_laws::shows(
            storage::storage_error_text(
                storage::StorageError::UnsupportedSchemaVersion { found: pending },
            ),
            "unsupported telemetry database schema version "@
                + text::signed_decimal(pending as int) + "; expected "@,
        ),
        text_laws::shows(
            storage::storage_error_text(
                storage::StorageError::UnsupportedSchemaVersion { found: pending },
            ),
            "; expected "@ + text::signed_decimal(3int as int),
        ),
{
    let parts = seq!["invalid decoded record: "@, records::record_error_text(fault)];
    assert(Seq::<char>::empty() + parts[0] =~= parts[0]);
    let message = storage::storage_error_text(storage::StorageError::InvalidRecord(fault));
    assert(message == text_laws::joined(Seq::empty(), parts, 2)) by {
        reveal_with_fuel(text_laws::joined, 3);
    }
    text_laws::lemma_labelled(Seq::empty(), parts, 2, 0);
    let parts = seq![
        "v2 source packet "@,
        text::signed_decimal(pending as int),
        " does not exist"@,
    ];
    assert(Seq::<char>::empty() + parts[0] =~= parts[0]);
    let message = storage::storage_error_text(
        storage::StorageError::MissingV2Packet { packet_id: pending },
    );
    assert(message == text_laws::joined(Seq::empty(), parts, 3)) by {
        reveal_with_fuel(text_laws::joined, 4);
    }
    text_laws::lemma_labelled(Seq::empty(), parts, 3, 0);
    let parts = seq![
        text::signed_decimal(pending as int),
        " pending profile fragments exceed startup replay limit "@,
        text::decimal(limit as nat),
    ];
    assert(Seq::<char>::empty() + parts[0] =~= parts[0]);
    let message = storage::storage_error_text(
        storage::StorageError::PendingReplayLimitExceeded { pending, limit },
    );
    assert(message == text_laws::joined(Seq::empty(), parts, 3)) by {
        reveal_with_fuel(text_laws::joined, 4);
    }
    text_laws::lemma_labelled(Seq::empty(), parts, 3, 0);
    text_laws::lemma_labelled(Seq::empty(), parts, 3, 1);
    let parts = seq![
        "schema migration left "@,
        text::signed_decimal(pending as int),
        " foreign-key violation(s)"@,
    ];
    assert(Seq::<char>::empty() + parts[0] =~= parts[0]);
    let message = storage::storage_error_text(
        storage::StorageError::MigrationForeignKeyViolations { count: pending },
    );
    assert(message == text_laws::joined(Seq::empty(), parts, 3)) by {
        reveal_with_fuel(text_laws::joined, 4);
    }
    text_laws::lemma_labelled(Seq::empty(), parts, 3, 0);
    let parts = seq![
        "unsupported telemetry database schema version "@,
        text::signed_decimal(pending as int),
        "; expected "@,
        text::signed_decimal(3int as int),
    ];
    assert(Seq::<char>::empty() + parts[0] =~= parts[0]);
    let message = storage::storage_error_text(
        storage::StorageError::UnsupportedSchemaVersion { found: pending },
    );
    assert(message == text_laws::joined(Seq::empty(), parts, 4)) by {
        reveal_with_fuel(text_laws::joined, 5);
    }
    text_laws::lemma_labelled(Seq::empty(), parts, 4, 0);
    text_laws::lemma_labelled(Seq::empty(), parts, 4, 2);
}

} // verus!
