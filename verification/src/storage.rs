//! What a telemetry database holds, and when.
//!
//! Every PHY-valid packet is archived byte for byte before anything else happens
//! to it. Decoded records are linked to their packet. This module decides what
//! the rows are, how a schema is migrated, and how a late fragment relates to the
//! profiles that are already there; the queries themselves are the caller's.

pub mod laws;

use vstd::prelude::*;
use vstd::string::StringExecFns;

use crate::convert;
use crate::convert::record_identity;
use crate::reassembly;
use crate::reassembly::{ProfileKey, ReassembledProfile};
use crate::records;
use crate::records::{DeviceConfiguration, DeviceHealth, RecordError, RecordIdentity};
use crate::render;
use crate::render::{json_frame, JsonFrame};
use crate::sx1262::RadioMetadata;
use crate::telemetry::{TelemetryV1, MAGIC, VERSION};
use crate::text;
use crate::text::{hex_u64, push_decimal, push_signed};
use crate::v2::types::{Header, VERSION_V2};

verus! {

/// The schema that this library writes.
pub const SCHEMA_VERSION: i64 = 3;

/// Identity assigned to one durable legacy reading.
#[derive(Clone, Copy, Debug, Eq, PartialEq, Structural)]
pub struct StoredReading {
    pub id: i64,
    pub received_at_unix_ms: i64,
    pub radio_packet_id: Option<i64>,
}

/// Identity assigned to one archived PHY-valid packet.
#[derive(Clone, Copy, Debug, Eq, PartialEq, Structural)]
pub struct StoredPacket {
    pub id: i64,
    pub received_at_unix_ms: i64,
}

/// One previously archived profile fragment awaiting startup reconciliation.
#[derive(Clone, Debug, Eq, PartialEq)]
pub struct PendingProfileFragment {
    pub packet_id: i64,
    pub received_at_unix_ms: i64,
    pub radio: RadioMetadata,
    pub payload: Vec<u8>,
}

/// Identity assigned to one logical protocol-v2 record.
#[derive(Clone, Copy, Debug, Eq, PartialEq, Structural)]
pub struct StoredRecord {
    pub id: i64,
    pub received_at_unix_ms: i64,
}

/// Receiver interpretation of one archived application payload.
#[derive(Clone, Copy, Debug, Eq, PartialEq, Structural)]
pub enum PacketDisposition {
    /// Successfully decoded protocol-v1 telemetry.
    LegacyV1,
    /// Successfully decoded protocol-v2 telemetry.
    ProtocolV2,
    /// PHY-valid payload awaiting or unsupported by an application decoder.
    Unsupported,
    /// Payload recognized as Vesta data but rejected by its decoder.
    Invalid,
}

impl PacketDisposition {
    /// The column value of this disposition.
    pub open spec fn column(self) -> Seq<char> {
        match self {
            PacketDisposition::LegacyV1 => "v1"@,
            PacketDisposition::ProtocolV2 => "v2"@,
            PacketDisposition::Unsupported => "unsupported"@,
            PacketDisposition::Invalid => "invalid"@,
        }
    }

    /// The column value of this disposition.
    #[must_use]
    pub fn database_value(self) -> (value: &'static str)
        ensures
            value@ == self.column(),
    {
        match self {
            PacketDisposition::LegacyV1 => "v1",
            PacketDisposition::ProtocolV2 => "v2",
            PacketDisposition::Unsupported => "unsupported",
            PacketDisposition::Invalid => "invalid",
        }
    }
}

/// Exact kind of a successfully decoded protocol-v2 frame.
#[derive(Clone, Copy, Debug, Eq, PartialEq, Structural)]
pub enum V2PacketKind {
    DeviceConfig,
    ProfileFragment,
    DeviceHealth,
}

impl V2PacketKind {
    /// The column value of this kind.
    pub open spec fn column(self) -> Seq<char> {
        match self {
            V2PacketKind::DeviceConfig => "device_config"@,
            V2PacketKind::ProfileFragment => "profile_fragment"@,
            V2PacketKind::DeviceHealth => "device_health"@,
        }
    }

    /// The reassembly state that a packet of this kind starts in.
    pub open spec fn initial_column(self) -> Seq<char> {
        match self {
            V2PacketKind::ProfileFragment => "pending"@,
            _ => "not_applicable"@,
        }
    }

    /// The column value of this kind.
    #[must_use]
    pub fn database_value(self) -> (value: &'static str)
        ensures
            value@ == self.column(),
    {
        match self {
            V2PacketKind::DeviceConfig => "device_config",
            V2PacketKind::ProfileFragment => "profile_fragment",
            V2PacketKind::DeviceHealth => "device_health",
        }
    }

    /// The reassembly state that a packet of this kind starts in.
    #[must_use]
    pub fn initial_reassembly_status(self) -> (value: &'static str)
        ensures
            value@ == self.initial_column(),
    {
        match self {
            V2PacketKind::ProfileFragment => "pending",
            V2PacketKind::DeviceConfig => "not_applicable",
            V2PacketKind::DeviceHealth => "not_applicable",
        }
    }
}

/// Receiver-side state for one decoded v2 profile-fragment packet.
#[derive(Clone, Copy, Debug, Eq, PartialEq, Structural)]
pub enum FragmentStorageStatus {
    Pending,
    Assembled,
    Duplicate,
    Conflict,
    Incomplete,
}

impl FragmentStorageStatus {
    /// The column value of this state.
    pub open spec fn column(self) -> Seq<char> {
        match self {
            FragmentStorageStatus::Pending => "pending"@,
            FragmentStorageStatus::Assembled => "assembled"@,
            FragmentStorageStatus::Duplicate => "duplicate"@,
            FragmentStorageStatus::Conflict => "conflict"@,
            FragmentStorageStatus::Incomplete => "incomplete"@,
        }
    }

    /// The column value of this state.
    #[must_use]
    pub fn database_value(self) -> (value: &'static str)
        ensures
            value@ == self.column(),
    {
        match self {
            FragmentStorageStatus::Pending => "pending",
            FragmentStorageStatus::Assembled => "assembled",
            FragmentStorageStatus::Duplicate => "duplicate",
            FragmentStorageStatus::Conflict => "conflict",
            FragmentStorageStatus::Incomplete => "incomplete",
        }
    }
}

/// A newly archived fragment matched an already persisted complete profile.
#[derive(Clone, Copy, Debug, Eq, PartialEq, Structural)]
pub enum PersistedFragmentMatch {
    /// Its exact payload matches the persisted fragment at this index.
    Duplicate,
    /// Its payload differs from at least one persisted fragment at this index.
    Conflict,
}

impl PersistedFragmentMatch {
    /// The state of the newly archived fragment.
    pub open spec fn status(self) -> FragmentStorageStatus {
        match self {
            PersistedFragmentMatch::Duplicate => FragmentStorageStatus::Duplicate,
            PersistedFragmentMatch::Conflict => FragmentStorageStatus::Conflict,
        }
    }

    /// The state of the newly archived fragment.
    #[must_use]
    pub fn storage_status(self) -> (status: FragmentStorageStatus)
        ensures
            status == self.status(),
    {
        match self {
            PersistedFragmentMatch::Duplicate => FragmentStorageStatus::Duplicate,
            PersistedFragmentMatch::Conflict => FragmentStorageStatus::Conflict,
        }
    }
}

/// Failure while creating, migrating, or writing the telemetry database.
#[derive(Clone, Copy, Debug, Eq, PartialEq)]
pub enum StorageError {
    TimestampOutOfRange,
    InvalidRecord(RecordError),
    MissingV2Packet { packet_id: i64 },
    ProfileWithoutFragments,
    InvalidPendingReplayLimit,
    PendingReplayLimitExceeded { pending: i64, limit: usize },
    MigrationForeignKeyViolations { count: i64 },
    UnsupportedSchemaVersion { found: i64 },
}

/// The text of a storage failure.
pub open spec fn storage_error_text(error: StorageError) -> Seq<char> {
    match error {
        StorageError::TimestampOutOfRange => "timestamp does not fit SQLite"@,
        StorageError::InvalidRecord(error) => "invalid decoded record: "@
            + records::record_error_text(error),
        StorageError::MissingV2Packet { packet_id } => "v2 source packet "@ + text::signed_decimal(
            packet_id as int,
        ) + " does not exist"@,
        StorageError::ProfileWithoutFragments => "reassembled profile has no source fragments"@,
        StorageError::InvalidPendingReplayLimit =>
            "pending-fragment replay limit must be positive"@,
        StorageError::PendingReplayLimitExceeded { pending, limit } => Seq::<char>::empty()
            + text::signed_decimal(pending as int)
            + " pending profile fragments exceed startup replay limit "@ + text::decimal(
            limit as nat,
        ),
        StorageError::MigrationForeignKeyViolations { count } => "schema migration left "@
            + text::signed_decimal(count as int) + " foreign-key violation(s)"@,
        StorageError::UnsupportedSchemaVersion { found } =>
            "unsupported telemetry database schema version "@ + text::signed_decimal(found as int)
            + "; expected "@ + text::signed_decimal(SCHEMA_VERSION as int),
    }
}

/// A number, which may be negative, between two texts.
fn signed_between(before: &str, value: i64, after: &str) -> (out: String)
    ensures
        out@ == before@ + text::signed_decimal(value as int) + after@,
{
    let mut out = String::from_str(before);
    push_signed(&mut out, value);
    out.append(after);
    out
}

impl StorageError {
    /// A readable description.
    #[must_use]
    pub fn message(&self) -> (message: String)
        ensures
            message@ == storage_error_text(*self),
    {
        match *self {
            StorageError::TimestampOutOfRange => String::from_str("timestamp does not fit SQLite"),
            StorageError::InvalidRecord(error) => {
                let mut message = String::from_str("invalid decoded record: ");
                message.append(error.message().as_str());
                message
            },
            StorageError::MissingV2Packet { packet_id } => signed_between(
                "v2 source packet ",
                packet_id,
                " does not exist",
            ),
            StorageError::ProfileWithoutFragments => String::from_str(
                "reassembled profile has no source fragments",
            ),
            StorageError::InvalidPendingReplayLimit => String::from_str(
                "pending-fragment replay limit must be positive",
            ),
            StorageError::PendingReplayLimitExceeded { pending, limit } => {
                let mut message = String::new();
                assert(message@ =~= Seq::<char>::empty());
                push_signed(&mut message, pending);
                message.append(" pending profile fragments exceed startup replay limit ");
                push_decimal(&mut message, limit as u64);
                message
            },
            StorageError::MigrationForeignKeyViolations { count } => signed_between(
                "schema migration left ",
                count,
                " foreign-key violation(s)",
            ),
            StorageError::UnsupportedSchemaVersion { found } => {
                let mut message = signed_between(
                    "unsupported telemetry database schema version ",
                    found,
                    "; expected ",
                );
                push_signed(&mut message, SCHEMA_VERSION);
                message
            },
        }
    }
}

/// How a database reaches the current schema. No migration loses archived bytes.
#[derive(Clone, Copy, Debug, Eq, PartialEq, Structural)]
pub enum Migration {
    /// An empty database: create every table.
    Create,
    /// Schema version 1: add the packet archive and the record tables.
    AddArchive,
    /// The draft schema version 2: rebuild the packet archive with foreign keys
    /// off, add the record tables, and check every foreign key.
    RebuildArchive,
    /// The current schema: nothing is to be done.
    Keep,
}

/// How a database of some schema version reaches the current one.
pub open spec fn migration_of(version: i64) -> Result<Migration, StorageError> {
    if version == 0 {
        Ok(Migration::Create)
    } else if version == 1 {
        Ok(Migration::AddArchive)
    } else if version == 2 {
        Ok(Migration::RebuildArchive)
    } else if version == SCHEMA_VERSION {
        Ok(Migration::Keep)
    } else {
        Err(StorageError::UnsupportedSchemaVersion { found: version })
    }
}

/// Decides how a database of some schema version reaches the current one.
///
/// # Errors
///
/// Returns an error for a version that no migration starts from.
pub fn plan_migration(version: i64) -> (result: Result<Migration, StorageError>)
    ensures
        result == migration_of(version),
{
    if version == 0 {
        Ok(Migration::Create)
    } else if version == 1 {
        Ok(Migration::AddArchive)
    } else if version == 2 {
        Ok(Migration::RebuildArchive)
    } else if version == SCHEMA_VERSION {
        Ok(Migration::Keep)
    } else {
        Err(StorageError::UnsupportedSchemaVersion { found: version })
    }
}

/// Checks that a migration left no foreign-key violation.
///
/// # Errors
///
/// Returns an error with the count of violations.
pub fn check_migrated(violations: i64) -> (result: Result<(), StorageError>)
    ensures
        result == if violations == 0 {
            Ok(())
        } else {
            Err(StorageError::MigrationForeignKeyViolations { count: violations })
        },
{
    if violations != 0 {
        return Err(StorageError::MigrationForeignKeyViolations { count: violations });
    }
    Ok(())
}

/// A time in Unix milliseconds as a column value.
///
/// # Errors
///
/// Returns an error if the column cannot hold it.
pub fn unix_ms(elapsed_ms: u128) -> (result: Result<i64, StorageError>)
    ensures
        match result {
            Ok(time) => time == elapsed_ms,
            Err(error) => elapsed_ms > i64::MAX && error == StorageError::TimestampOutOfRange,
        },
{
    if elapsed_ms <= i64::MAX as u128 {
        Ok(elapsed_ms as i64)
    } else {
        Err(StorageError::TimestampOutOfRange)
    }
}

/// A version as text.
pub open spec fn semver_of(version: [u8; 3]) -> Seq<char> {
    Seq::<char>::empty() + text::decimal(version[0] as nat) + "."@ + text::decimal(
        version[1] as nat,
    ) + "."@ + text::decimal(version[2] as nat)
}

/// A version as text.
#[must_use]
pub fn semver_text(version: [u8; 3]) -> (out: String)
    ensures
        out@ == semver_of(version),
{
    let mut out = String::new();
    assert(out@ =~= Seq::<char>::empty());
    push_decimal(&mut out, version[0] as u64);
    out.append(".");
    push_decimal(&mut out, version[1] as u64);
    out.append(".");
    push_decimal(&mut out, version[2] as u64);
    out
}

/// One row of the packet archive.
#[derive(Clone, Debug, Eq, PartialEq)]
pub struct PacketRow {
    pub received_at_unix_ms: i64,
    pub radio: RadioMetadata,
    pub protocol_version: Option<u8>,
    pub frame_type: Option<u8>,
    pub disposition: PacketDisposition,
    pub decode_error: Option<String>,
    pub payload: Vec<u8>,
}

/// The protocol version that a payload names: the byte behind the magic.
pub open spec fn named_version(payload: Seq<u8>) -> Option<u8> {
    if payload.len() > 2 && payload[0] == MAGIC[0] && payload[1] == MAGIC[1] {
        Some(payload[2])
    } else {
        None
    }
}

/// The frame type that a payload names, whatever its version.
pub open spec fn named_frame_type(payload: Seq<u8>) -> Option<u8> {
    if payload.len() > 3 {
        Some(payload[3])
    } else {
        None
    }
}

/// An exact copy of a payload.
fn copied(payload: &[u8]) -> (copy: Vec<u8>)
    ensures
        copy@ == payload@,
{
    let mut copy: Vec<u8> = Vec::new();
    copy.extend_from_slice(payload);
    assert(copy@ =~= payload@);
    copy
}

/// The archive row of an unsupported or malformed application payload.
#[must_use]
pub fn undecoded_packet_row(
    payload: &[u8],
    radio: RadioMetadata,
    received_at_unix_ms: i64,
    disposition: PacketDisposition,
    decode_error: Option<String>,
) -> (row: PacketRow)
    ensures
        row.payload@ == payload@,
        row == (PacketRow {
            received_at_unix_ms,
            radio,
            protocol_version: named_version(payload@),
            frame_type: named_frame_type(payload@),
            disposition,
            decode_error,
            payload: row.payload,
        }),
{
    let protocol_version: Option<u8> = if payload.len() > 2 && payload[0] == MAGIC[0] && payload[1]
        == MAGIC[1] {
        Some(payload[2])
    } else {
        None
    };
    let frame_type: Option<u8> = if payload.len() > 3 {
        Some(payload[3])
    } else {
        None
    };
    PacketRow {
        received_at_unix_ms,
        radio,
        protocol_version,
        frame_type,
        disposition,
        decode_error,
        payload: copied(payload),
    }
}

/// The archive row of a decoded v1 packet.
#[must_use]
pub fn v1_packet_row(payload: &[u8], radio: RadioMetadata, received_at_unix_ms: i64) -> (row:
    PacketRow)
    ensures
        row.payload@ == payload@,
        row == (PacketRow {
            received_at_unix_ms,
            radio,
            protocol_version: Some(VERSION),
            frame_type: None,
            disposition: PacketDisposition::LegacyV1,
            decode_error: None,
            payload: row.payload,
        }),
{
    PacketRow {
        received_at_unix_ms,
        radio,
        protocol_version: Some(VERSION),
        frame_type: None,
        disposition: PacketDisposition::LegacyV1,
        decode_error: None,
        payload: copied(payload),
    }
}

/// The archive row of a decoded v2 packet.
#[must_use]
pub fn v2_packet_row(
    payload: &[u8],
    radio: RadioMetadata,
    received_at_unix_ms: i64,
    header: Header,
) -> (row: PacketRow)
    ensures
        row.payload@ == payload@,
        row == (PacketRow {
            received_at_unix_ms,
            radio,
            protocol_version: Some(VERSION_V2),
            frame_type: Some(header.frame_type.code()),
            disposition: PacketDisposition::ProtocolV2,
            decode_error: None,
            payload: row.payload,
        }),
{
    PacketRow {
        received_at_unix_ms,
        radio,
        protocol_version: Some(VERSION_V2),
        frame_type: Some(header.frame_type.wire_code()),
        disposition: PacketDisposition::ProtocolV2,
        decode_error: None,
        payload: copied(payload),
    }
}

/// The columns of an identity. Values of 64 bits are fixed-width hexadecimal text.
#[derive(Clone, Debug, Eq, PartialEq)]
pub struct IdentityColumns {
    pub node_id: String,
    pub boot_id: String,
    pub scan_sequence: u32,
    pub uptime_ms: String,
    pub config_id: String,
    pub common_flags: u8,
    pub reset_cause_flags: u16,
}

/// Whether columns are those of an identity.
pub open spec fn are_columns_of(columns: IdentityColumns, identity: RecordIdentity) -> bool {
    &&& columns.node_id@ == text::hex_digits(identity.node_id as nat, 16)
    &&& columns.boot_id@ == text::hex_digits(identity.boot_id as nat, 16)
    &&& columns.scan_sequence == identity.scan_sequence
    &&& columns.uptime_ms@ == text::hex_digits(identity.uptime_ms as nat, 16)
    &&& columns.config_id@ == text::hex_digits(identity.config_id as nat, 16)
    &&& columns.common_flags == identity.common_flags
    &&& columns.reset_cause_flags == identity.reset_cause_flags
}

/// The columns of an identity.
#[must_use]
pub fn identity_columns(identity: RecordIdentity) -> (columns: IdentityColumns)
    ensures
        are_columns_of(columns, identity),
{
    IdentityColumns {
        node_id: hex_u64(identity.node_id),
        boot_id: hex_u64(identity.boot_id),
        scan_sequence: identity.scan_sequence,
        uptime_ms: hex_u64(identity.uptime_ms),
        config_id: hex_u64(identity.config_id),
        common_flags: identity.common_flags,
        reset_cause_flags: identity.reset_cause_flags,
    }
}

/// The row of a decoded v2 packet that links it to its logical key.
#[derive(Clone, Debug, Eq, PartialEq)]
pub struct DecodeRow {
    pub frame_type: u8,
    pub record_kind: &'static str,
    pub reassembly_status: &'static str,
    pub identity: IdentityColumns,
    pub fragment_index: u8,
    pub fragment_count: u8,
}

/// The row of a decoded v2 packet that links it to its logical key.
#[must_use]
pub fn decode_row(header: Header, kind: V2PacketKind) -> (row: DecodeRow)
    ensures
        row.frame_type == header.frame_type.code(),
        row.record_kind@ == kind.column(),
        row.reassembly_status@ == kind.initial_column(),
        are_columns_of(row.identity, convert::identity_of(header)),
        row.fragment_index == header.fragment_index,
        row.fragment_count == header.fragment_count,
{
    DecodeRow {
        frame_type: header.frame_type.wire_code(),
        record_kind: kind.database_value(),
        reassembly_status: kind.initial_reassembly_status(),
        identity: identity_columns(record_identity(header)),
        fragment_index: header.fragment_index,
        fragment_count: header.fragment_count,
    }
}

/// The row of one legacy reading.
#[derive(Clone, Debug, Eq, PartialEq)]
pub struct ReadingRow {
    pub received_at_unix_ms: i64,
    /// Version, identity, status, corrected and raw readings in exact units.
    pub reading: JsonFrame,
    pub radio: RadioMetadata,
    pub payload: Vec<u8>,
    pub radio_packet_id: Option<i64>,
}

/// The row of one legacy reading.
#[must_use]
pub fn reading_row(
    frame: &TelemetryV1,
    payload: &[u8],
    radio: RadioMetadata,
    received_at_unix_ms: i64,
    radio_packet_id: Option<i64>,
) -> (row: ReadingRow)
    ensures
        row.received_at_unix_ms == received_at_unix_ms,
        render::is_document_of(row.reading, *frame),
        row.radio == radio,
        row.payload@ == payload@,
        row.radio_packet_id == radio_packet_id,
{
    ReadingRow {
        received_at_unix_ms,
        reading: json_frame(frame),
        radio,
        payload: copied(payload),
        radio_packet_id,
    }
}

/// The computed columns of a configuration. The others are its own fields.
#[derive(Clone, Debug, Eq, PartialEq)]
pub struct ConfigurationRow {
    pub identity: IdentityColumns,
    pub firmware_version: String,
    pub firmware_build_id: String,
    pub calibration_hash: String,
}

/// The computed columns of a configuration.
///
/// # Errors
///
/// Returns an error if the configuration is structurally invalid.
pub fn configuration_row(configuration: &DeviceConfiguration) -> (result: Result<
    ConfigurationRow,
    StorageError,
>)
    ensures
        match result {
            Ok(row) => {
                &&& records::configuration_fault(*configuration) is None
                &&& are_columns_of(row.identity, configuration.identity)
                &&& row.firmware_version@ == semver_of(configuration.firmware_version)
                &&& row.firmware_build_id@ == text::hex_digits(
                    configuration.firmware_build_id as nat,
                    16,
                )
                &&& row.calibration_hash@ == text::hex_digits(
                    configuration.calibration_hash as nat,
                    16,
                )
            },
            Err(error) => records::configuration_fault(*configuration) is Some && error
                == StorageError::InvalidRecord(records::configuration_fault(*configuration)->0),
        },
{
    match configuration.validate() {
        Err(error) => Err(StorageError::InvalidRecord(error)),
        Ok(()) => Ok(
            ConfigurationRow {
                identity: identity_columns(configuration.identity),
                firmware_version: semver_text(configuration.firmware_version),
                firmware_build_id: hex_u64(configuration.firmware_build_id),
                calibration_hash: hex_u64(configuration.calibration_hash),
            },
        ),
    }
}

/// The computed columns of a health report. The others are its own fields.
#[derive(Clone, Debug, Eq, PartialEq)]
pub struct HealthRow {
    pub identity: IdentityColumns,
    pub firmware_version: String,
}

/// The computed columns of a health report.
#[must_use]
pub fn health_row(health: &DeviceHealth) -> (row: HealthRow)
    ensures
        are_columns_of(row.identity, health.identity),
        row.firmware_version@ == semver_of(health.firmware_version),
{
    HealthRow {
        identity: identity_columns(health.identity),
        firmware_version: semver_text(health.firmware_version),
    }
}

/// The computed columns of a profile scan. The others are the fields of the scan;
/// each of its steps and of its source fragments is a row of its own.
#[derive(Clone, Debug, Eq, PartialEq)]
pub struct ProfileRow {
    pub first_received_at_unix_ms: i64,
    pub last_received_at_unix_ms: i64,
    pub identity: IdentityColumns,
    pub missing_fragment_bitmap: u16,
    pub transport_complete: bool,
    /// The new state of every source fragment.
    pub fragment_status: FragmentStorageStatus,
}

/// Why a profile cannot be stored.
pub open spec fn profile_fault(profile: ReassembledProfile) -> Option<StorageError> {
    if records::scan_fault(profile.scan) is Some {
        Some(StorageError::InvalidRecord(records::scan_fault(profile.scan)->0))
    } else if profile.fragments@.len() == 0 {
        Some(StorageError::ProfileWithoutFragments)
    } else {
        None
    }
}

/// Whether a row is the one of a profile.
pub open spec fn is_row_of(row: ProfileRow, profile: ReassembledProfile) -> bool {
    let scan = profile.scan;
    let full = records::full_bitmap(scan.expected_fragment_count);
    &&& reassembly::least(profile.fragments@) == Some(row.first_received_at_unix_ms)
    &&& reassembly::greatest(profile.fragments@) == Some(row.last_received_at_unix_ms)
    &&& are_columns_of(row.identity, scan.identity)
    &&& row.missing_fragment_bitmap == full & !scan.received_fragment_bitmap
    &&& row.transport_complete == (scan.received_fragment_bitmap == full)
    &&& row.fragment_status == if row.transport_complete {
        FragmentStorageStatus::Assembled
    } else {
        FragmentStorageStatus::Incomplete
    }
}

/// The computed columns of a complete or transport-incomplete profile.
///
/// Every unique source fragment retains its own receiver timestamp and RSSI/SNR
/// values; no synthetic scan-level link metric is created.
///
/// # Errors
///
/// Returns an error for invalid structure or absent sources.
pub fn profile_row(profile: &ReassembledProfile) -> (result: Result<ProfileRow, StorageError>)
    ensures
        match result {
            Ok(row) => profile_fault(*profile) is None && is_row_of(row, *profile),
            Err(error) => profile_fault(*profile) == Some(error),
        },
{
    if let Err(error) = profile.scan.validate() {
        return Err(StorageError::InvalidRecord(error));
    }
    let transport_complete = profile.scan.is_transport_complete();
    match (profile.first_received_at_unix_ms(), profile.last_received_at_unix_ms()) {
        (Some(first_received_at_unix_ms), Some(last_received_at_unix_ms)) => Ok(
            ProfileRow {
                first_received_at_unix_ms,
                last_received_at_unix_ms,
                identity: identity_columns(profile.scan.identity),
                missing_fragment_bitmap: profile.scan.missing_fragment_bitmap(),
                transport_complete,
                fragment_status: if transport_complete {
                    FragmentStorageStatus::Assembled
                } else {
                    FragmentStorageStatus::Incomplete
                },
            },
        ),
        _ => Err(StorageError::ProfileWithoutFragments),
    }
}

/// The time of a record that is linked to an archived packet.
///
/// # Errors
///
/// Returns an error if the archive does not hold the packet.
pub fn linked_time(packet_id: i64, found: Option<i64>) -> (result: Result<i64, StorageError>)
    ensures
        result == match found {
            Some(time) => Ok(time),
            None => Err(StorageError::MissingV2Packet { packet_id }),
        },
{
    match found {
        Some(time) => Ok(time),
        None => Err(StorageError::MissingV2Packet { packet_id }),
    }
}

/// Checks that exactly one fragment changed its state.
///
/// # Errors
///
/// Returns an error if the packet does not identify a profile fragment.
pub fn check_marked(changed: usize, packet_id: i64) -> (result: Result<(), StorageError>)
    ensures
        result == if changed == 1 {
            Ok(())
        } else {
            Err(StorageError::MissingV2Packet { packet_id })
        },
{
    if changed == 1 {
        Ok(())
    } else {
        Err(StorageError::MissingV2Packet { packet_id })
    }
}

/// A startup replay limit as a query bound.
///
/// # Errors
///
/// Returns an error for a zero or unrepresentable limit.
pub fn replay_bound(limit: usize) -> (result: Result<i64, StorageError>)
    ensures
        match result {
            Ok(bound) => bound == limit && bound > 0,
            Err(error) => (limit == 0 || limit > i64::MAX) && error
                == StorageError::InvalidPendingReplayLimit,
        },
{
    if limit == 0 || limit as u128 > i64::MAX as u128 {
        Err(StorageError::InvalidPendingReplayLimit)
    } else {
        Ok(limit as i64)
    }
}

/// Checks the count of pending fragments before any payload is read, so callers
/// never reconcile a silent prefix while abandoning the remainder.
///
/// # Errors
///
/// Returns an error for an invalid limit or an exceeded one.
pub fn check_pending(pending: i64, limit: usize) -> (result: Result<i64, StorageError>)
    ensures
        match result {
            Ok(bound) => bound == limit && 0 < bound && pending <= bound,
            Err(StorageError::InvalidPendingReplayLimit) => limit == 0 || limit > i64::MAX,
            Err(error) => 0 < limit <= i64::MAX && pending > limit && error
                == (StorageError::PendingReplayLimitExceeded { pending, limit }),
        },
{
    match replay_bound(limit) {
        Err(error) => Err(error),
        Ok(bound) => {
            if pending > bound {
                Err(StorageError::PendingReplayLimitExceeded { pending, limit })
            } else {
                Ok(bound)
            }
        },
    }
}

/// A fragment of a persisted profile, complete or incomplete, at the index and with
/// the full logical key of a newly archived one.
#[derive(Clone, Debug, Eq, PartialEq)]
pub struct PersistedFragment {
    pub scan_id: i64,
    pub payload: Vec<u8>,
    pub duplicate_fragment_count: u16,
    pub conflicting_fragment_count: u16,
}

/// How a newly archived fragment relates to persisted ones: a duplicate of all, or
/// in conflict with at least one.
pub open spec fn match_of(persisted: Seq<PersistedFragment>, payload: Seq<u8>) -> Option<
    PersistedFragmentMatch,
> {
    if persisted.len() == 0 {
        None
    } else if forall|i: int| 0 <= i < persisted.len() ==> (#[trigger] persisted[i]).payload@ == payload {
        Some(PersistedFragmentMatch::Duplicate)
    } else {
        Some(PersistedFragmentMatch::Conflict)
    }
}

/// Whether two payloads are the same, byte for byte.
fn same_bytes(first: &[u8], second: &[u8]) -> (same: bool)
    ensures
        same == (first@ == second@),
{
    if first.len() != second.len() {
        return false;
    }
    let mut index: usize = 0;
    while index < first.len()
        invariant
            index <= first@.len(),
            first@.len() == second@.len(),
            forall|i: int| 0 <= i < index ==> first@[i] == second@[i],
        decreases first@.len() - index,
    {
        if first[index] != second[index] {
            return false;
        }
        index = index + 1;
    }
    assert(first@ =~= second@);
    true
}

/// Classifies a newly archived fragment against those of every persisted profile
/// with the same full logical key.
#[must_use]
pub fn classify_persisted(persisted: &Vec<PersistedFragment>, payload: &[u8]) -> (found: Option<
    PersistedFragmentMatch,
>)
    ensures
        found == match_of(persisted@, payload@),
{
    if persisted.len() == 0 {
        return None;
    }
    let mut index: usize = 0;
    while index < persisted.len()
        invariant
            index <= persisted@.len(),
            persisted@.len() > 0,
            forall|i: int| 0 <= i < index ==> (#[trigger] persisted@[i]).payload@ == payload@,
        decreases persisted@.len() - index,
    {
        if !same_bytes(persisted[index].payload.as_slice(), payload) {
            assert(persisted@[index as int].payload@ != payload@);
            return Some(PersistedFragmentMatch::Conflict);
        }
        index = index + 1;
    }
    Some(PersistedFragmentMatch::Duplicate)
}

/// A counter one higher, which stays at its greatest value.
pub open spec fn counted(count: u16) -> u16 {
    if count == u16::MAX {
        u16::MAX
    } else {
        (count + 1) as u16
    }
}

/// The duplicate and conflict counters of a persisted profile once a late fragment
/// was matched with it.
pub open spec fn counters_of(
    found: PersistedFragmentMatch,
    duplicate_fragment_count: u16,
    conflicting_fragment_count: u16,
) -> (u16, u16) {
    match found {
        PersistedFragmentMatch::Duplicate => (
            counted(duplicate_fragment_count),
            conflicting_fragment_count,
        ),
        PersistedFragmentMatch::Conflict => (
            duplicate_fragment_count,
            counted(conflicting_fragment_count),
        ),
    }
}

/// The duplicate and conflict counters of a persisted profile once a late fragment
/// was matched with it.
#[must_use]
pub fn counters_after(
    found: PersistedFragmentMatch,
    duplicate_fragment_count: u16,
    conflicting_fragment_count: u16,
) -> (counters: (u16, u16))
    ensures
        counters == counters_of(found, duplicate_fragment_count, conflicting_fragment_count),
{
    match found {
        PersistedFragmentMatch::Duplicate => (
            duplicate_fragment_count.saturating_add(1),
            conflicting_fragment_count,
        ),
        PersistedFragmentMatch::Conflict => (
            duplicate_fragment_count,
            conflicting_fragment_count.saturating_add(1),
        ),
    }
}

/// One source fragment of a persisted incomplete profile.
#[derive(Clone, Debug, Eq, PartialEq)]
pub struct StoredSource {
    pub packet: PendingProfileFragment,
    /// The index that the fragment was stored under.
    pub fragment_index: u8,
}

/// What the persisted incomplete profiles with one full logical key hold.
#[derive(Clone, Debug, Eq, PartialEq)]
pub struct PartialScan {
    pub key: ProfileKey,
    pub sources: Vec<StoredSource>,
    pub duplicate_fragment_count: u16,
    pub conflicting_fragment_count: u16,
}

/// The sum of the duplicate counters and the sum of the conflict counters.
pub open spec fn counter_sums(counters: Seq<(u16, u16)>) -> (nat, nat)
    decreases counters.len(),
{
    if counters.len() == 0 {
        (0, 0)
    } else {
        let before = counter_sums(counters.drop_last());
        (before.0 + counters.last().0 as nat, before.1 + counters.last().1 as nat)
    }
}

/// A number as a counter, which stays at its greatest value.
pub open spec fn capped(count: nat) -> u16 {
    if count <= u16::MAX {
        count as u16
    } else {
        u16::MAX
    }
}

/// The duplicate and conflict counters of one profile that takes the place of
/// several with the same full logical key.
#[must_use]
pub fn merged_counters(counters: &Vec<(u16, u16)>) -> (merged: (u16, u16))
    ensures
        merged.0 == capped(counter_sums(counters@).0),
        merged.1 == capped(counter_sums(counters@).1),
{
    let mut duplicates: u16 = 0;
    let mut conflicts: u16 = 0;
    let mut index: usize = 0;
    while index < counters.len()
        invariant
            index <= counters@.len(),
            duplicates == capped(counter_sums(counters@.take(index as int)).0),
            conflicts == capped(counter_sums(counters@.take(index as int)).1),
        decreases counters@.len() - index,
    {
        assert(counters@.take(index + 1).drop_last() =~= counters@.take(index as int));
        duplicates = duplicates.saturating_add(counters[index].0);
        conflicts = conflicts.saturating_add(counters[index].1);
        index = index + 1;
    }
    assert(counters@.take(counters@.len() as int) =~= counters@);
    (duplicates, conflicts)
}

} // verus!
