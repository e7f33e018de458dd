//! Decisions of a listening or decoding session.
//!
//! A session is driven by its caller, who owns the radio, the database and the
//! output: the caller reports what happened, and this module says what to do.

pub mod laws;

use vstd::prelude::*;
use vstd::string::StringExecFns;
use vstd::string::StringSliceAdditionalSpecFns;

use crate::hex;
use crate::hex::{parse_payload_hex, HexError};
use crate::reassembly;
use crate::reassembly::{
    model, FragmentEvent, IngestResult, ProfileKey, ProfileReassembler, ReassembledProfile,
    ReassemblyError, ReassemblyProgress, SourceFragment,
};
use crate::storage::{
    FragmentStorageStatus, PacketDisposition, PartialScan, PendingProfileFragment,
    PersistedFragmentMatch, StoredSource, V2PacketKind,
};
use crate::sx1262::ReceiveEvent;
use crate::telemetry;
use crate::telemetry::{
    decode_any, DecodedTelemetry, ProtocolDecodeError, TelemetryModel, TelemetryV1,
};
use crate::text;
use crate::text::{push_decimal, push_hex, push_hexadecimal, push_signed, push_truth};
use crate::v2::frame;
use crate::v2::frame::{decode, DecodedFrame, FrameModel};
use crate::v2::message;
use crate::v2::profile::{FragmentModel, ProfileFragmentView};
use crate::v2::types::{Error, Header};

verus! {

/// How long an incomplete profile is kept without a new fragment.
pub const PROFILE_REASSEMBLY_TIMEOUT_NANOS: u128 = 120_000_000_000;

/// How many archived pending fragments are replayed at startup.
pub const MAX_STARTUP_PENDING_FRAGMENTS: usize = 1_024;

/// The longest single wait for the radio.
pub const MAX_POLL_NANOS: u128 = 250_000_000;

/// What came of one received packet.
#[derive(Clone, Copy, Debug, Eq, PartialEq, Structural)]
pub enum PacketOutcome {
    ValidV1,
    ValidV2,
    Unsupported,
    Invalid,
}

/// What a listening session has seen.
#[derive(Clone, Copy, Debug, Eq, PartialEq, Structural)]
pub struct ListenCounters {
    pub valid_frames: u64,
    pub unsupported_packets: u64,
    pub header_errors: u64,
    pub crc_errors: u64,
    pub protocol_errors: u64,
}

/// When a listening session ends by itself.
#[derive(Clone, Copy, Debug, Eq, PartialEq, Structural)]
pub struct ListenLimits {
    /// After this many valid frames.
    pub maximum_frames: Option<u64>,
    /// After this much time.
    pub duration_nanos: Option<u128>,
}

/// How long to wait for the radio, or nothing where the session is over: on a
/// request to stop, after the last wanted frame, or past the deadline.
pub open spec fn poll_of(
    counters: ListenCounters,
    limits: ListenLimits,
    elapsed_nanos: u128,
    stopping: bool,
) -> Option<u128> {
    let counted_out = match limits.maximum_frames {
        Some(maximum) => counters.valid_frames >= maximum,
        None => false,
    };
    if stopping || counted_out {
        None
    } else {
        match limits.duration_nanos {
            None => Some(MAX_POLL_NANOS),
            Some(duration) => if elapsed_nanos > duration {
                None
            } else if duration - elapsed_nanos < MAX_POLL_NANOS {
                Some((duration - elapsed_nanos) as u128)
            } else {
                Some(MAX_POLL_NANOS)
            },
        }
    }
}

/// The counters after a packet.
pub open spec fn counted_packet(counters: ListenCounters, outcome: PacketOutcome) -> ListenCounters {
    match outcome {
        PacketOutcome::ValidV1 | PacketOutcome::ValidV2 => ListenCounters {
            valid_frames: (counters.valid_frames + 1) as u64,
            ..counters
        },
        PacketOutcome::Unsupported => ListenCounters {
            unsupported_packets: (counters.unsupported_packets + 1) as u64,
            ..counters
        },
        PacketOutcome::Invalid => ListenCounters {
            protocol_errors: (counters.protocol_errors + 1) as u64,
            ..counters
        },
    }
}

/// The counters after a receive event without a packet.
pub open spec fn counted_event(counters: ListenCounters, event: ReceiveEvent) -> ListenCounters {
    match event {
        ReceiveEvent::HeaderError { .. } => ListenCounters {
            header_errors: (counters.header_errors + 1) as u64,
            ..counters
        },
        ReceiveEvent::CrcError { .. } => ListenCounters {
            crc_errors: (counters.crc_errors + 1) as u64,
            ..counters
        },
        _ => counters,
    }
}

impl ListenCounters {
    /// Whether the counter that a packet raises can still grow.
    pub open spec fn has_room_for_packet(self, outcome: PacketOutcome) -> bool {
        match outcome {
            PacketOutcome::ValidV1 | PacketOutcome::ValidV2 => self.valid_frames < u64::MAX,
            PacketOutcome::Unsupported => self.unsupported_packets < u64::MAX,
            PacketOutcome::Invalid => self.protocol_errors < u64::MAX,
        }
    }

    /// Whether the counter that an event raises, if it raises one, can still grow.
    pub open spec fn has_room_for_event(self, event: ReceiveEvent) -> bool {
        match event {
            ReceiveEvent::HeaderError { .. } => self.header_errors < u64::MAX,
            ReceiveEvent::CrcError { .. } => self.crc_errors < u64::MAX,
            _ => true,
        }
    }

    /// How long to wait for the radio, or nothing where the session is over.
    #[must_use]
    pub fn next_poll(&self, limits: ListenLimits, elapsed_nanos: u128, stopping: bool) -> (poll:
        Option<u128>)
        ensures
            poll == poll_of(*self, limits, elapsed_nanos, stopping),
    {
        if stopping {
            return None;
        }
        if let Some(maximum) = limits.maximum_frames {
            if self.valid_frames >= maximum {
                return None;
            }
        }
        match limits.duration_nanos {
            None => Some(MAX_POLL_NANOS),
            Some(duration) => {
                if elapsed_nanos > duration {
                    None
                } else if duration - elapsed_nanos < MAX_POLL_NANOS {
                    Some(duration - elapsed_nanos)
                } else {
                    Some(MAX_POLL_NANOS)
                }
            },
        }
    }

    /// Counts a packet.
    pub fn count_packet(&mut self, outcome: PacketOutcome)
        requires
            old(self).has_room_for_packet(outcome),
        ensures
            *final(self) == counted_packet(*old(self), outcome),
    {
        match outcome {
            PacketOutcome::ValidV1 => {
                self.valid_frames = self.valid_frames + 1;
            },
            PacketOutcome::ValidV2 => {
                self.valid_frames = self.valid_frames + 1;
            },
            PacketOutcome::Unsupported => {
                self.unsupported_packets = self.unsupported_packets + 1;
            },
            PacketOutcome::Invalid => {
                self.protocol_errors = self.protocol_errors + 1;
            },
        }
    }

    /// Counts a receive event without a packet.
    pub fn count_event(&mut self, event: &ReceiveEvent)
        requires
            old(self).has_room_for_event(*event),
        ensures
            *final(self) == counted_event(*old(self), *event),
    {
        match event {
            ReceiveEvent::HeaderError { .. } => {
                self.header_errors = self.header_errors + 1;
            },
            ReceiveEvent::CrcError { .. } => {
                self.crc_errors = self.crc_errors + 1;
            },
            _ => {},
        }
    }

    /// A summary of the session.
    #[must_use]
    pub fn summary(&self) -> (out: String)
        ensures
            out@ == "listen stopped: valid_frames="@ + text::decimal(self.valid_frames as nat)
                + ", unsupported="@ + text::decimal(self.unsupported_packets as nat)
                + ", header_errors="@ + text::decimal(self.header_errors as nat) + ", crc_errors="@
                + text::decimal(self.crc_errors as nat) + ", protocol_errors="@ + text::decimal(
                self.protocol_errors as nat,
            ),
    {
        let mut out = String::from_str("listen stopped: valid_frames=");
        push_decimal(&mut out, self.valid_frames);
        out.append(", unsupported=");
        push_decimal(&mut out, self.unsupported_packets);
        out.append(", header_errors=");
        push_decimal(&mut out, self.header_errors);
        out.append(", crc_errors=");
        push_decimal(&mut out, self.crc_errors);
        out.append(", protocol_errors=");
        push_decimal(&mut out, self.protocol_errors);
        out
    }
}

impl Default for ListenCounters {
    fn default() -> (counters: Self)
        ensures
            counters == (ListenCounters {
                valid_frames: 0,
                unsupported_packets: 0,
                header_errors: 0,
                crc_errors: 0,
                protocol_errors: 0,
            }),
    {
        ListenCounters {
            valid_frames: 0,
            unsupported_packets: 0,
            header_errors: 0,
            crc_errors: 0,
            protocol_errors: 0,
        }
    }
}

/// What is reported of a receive event without a packet.
pub open spec fn event_text(event: ReceiveEvent) -> Option<Seq<char>> {
    match event {
        ReceiveEvent::Packet(_) => None,
        ReceiveEvent::HeaderError { irq } => Some(
            "radio: rejected LoRa header (IRQ 0x"@ + text::hex_digits(irq as nat, 4) + ")"@,
        ),
        ReceiveEvent::CrcError { irq } => Some(
            "radio: rejected PHY CRC (IRQ 0x"@ + text::hex_digits(irq as nat, 4) + ")"@,
        ),
        ReceiveEvent::RadioTimeout { irq } => Some(
            "radio: unexpected RX timeout (IRQ 0x"@ + text::hex_digits(irq as nat, 4) + ")"@,
        ),
        ReceiveEvent::OtherIrq(irq) => Some(
            "radio: unexpected IRQ 0x"@ + text::hex_digits(irq as nat, 4),
        ),
    }
}

/// An interrupt bitmap behind a text.
fn irq_after(before: &str, irq: u16) -> (out: String)
    ensures
        out@ == before@ + text::hex_digits(irq as nat, 4),
{
    let mut out = String::from_str(before);
    push_hex(&mut out, irq as u64, 4);
    out
}

/// An interrupt bitmap between two texts.
fn irq_between(before: &str, irq: u16, after: &str) -> (out: String)
    ensures
        out@ == before@ + text::hex_digits(irq as nat, 4) + after@,
{
    let mut out = irq_after(before, irq);
    out.append(after);
    out
}

/// What is reported of a receive event without a packet.
#[must_use]
pub fn event_diagnostic(event: &ReceiveEvent) -> (out: Option<String>)
    ensures
        match out {
            Some(out) => event_text(*event) == Some(out@),
            None => event_text(*event) is None,
        },
{
    match event {
        ReceiveEvent::Packet(_) => None,
        ReceiveEvent::HeaderError { irq } => Some(
            irq_between("radio: rejected LoRa header (IRQ 0x", *irq, ")"),
        ),
        ReceiveEvent::CrcError { irq } => Some(
            irq_between("radio: rejected PHY CRC (IRQ 0x", *irq, ")"),
        ),
        ReceiveEvent::RadioTimeout { irq } => Some(
            irq_between("radio: unexpected RX timeout (IRQ 0x", *irq, ")"),
        ),
        ReceiveEvent::OtherIrq(irq) => Some(irq_after("radio: unexpected IRQ 0x", *irq)),
    }
}

/// How a payload that does not decode is archived: what is no Vesta frame of a
/// known version is unsupported, and what is one but breaks its rules is invalid.
pub open spec fn disposition_of(error: ProtocolDecodeError) -> PacketDisposition {
    match error {
        ProtocolDecodeError::V1(_) => PacketDisposition::Invalid,
        ProtocolDecodeError::V2(_) => PacketDisposition::Invalid,
        _ => PacketDisposition::Unsupported,
    }
}

/// What to do with a received packet. Whatever it is, it is archived.
#[derive(Clone, Debug, Eq, PartialEq)]
pub enum Route<'a> {
    /// Archive it as undecodable.
    Undecodable { disposition: PacketDisposition, error: ProtocolDecodeError },
    /// Archive it and store its reading.
    V1(TelemetryV1),
    /// Archive it with its header, then handle what it holds.
    V2 { header: Header, kind: V2PacketKind, frame: DecodedFrame<'a> },
}

/// The kind of a version 2 frame.
pub open spec fn kind_of(model: FrameModel) -> V2PacketKind {
    match model {
        FrameModel::DeviceConfig { .. } => V2PacketKind::DeviceConfig,
        FrameModel::ProfileFragment(_) => V2PacketKind::ProfileFragment,
        FrameModel::DeviceHealth { .. } => V2PacketKind::DeviceHealth,
    }
}

/// What came of a packet that takes a route.
pub open spec fn outcome_of(route: Route<'_>) -> PacketOutcome {
    match route {
        Route::Undecodable { disposition, .. } => if disposition == PacketDisposition::Unsupported {
            PacketOutcome::Unsupported
        } else {
            PacketOutcome::Invalid
        },
        Route::V1(_) => PacketOutcome::ValidV1,
        Route::V2 { .. } => PacketOutcome::ValidV2,
    }
}

impl<'a> Route<'a> {
    /// Whether this is what to do with a payload.
    pub open spec fn is_route_of(self, payload: Seq<u8>) -> bool {
        match telemetry::decoded_any(payload) {
            Err(error) => self == (Route::Undecodable { disposition: disposition_of(error), error }),
            Ok(TelemetryModel::V1(frame)) => self == Route::V1(frame),
            Ok(TelemetryModel::V2(model)) => {
                &&& self matches Route::V2 { header, kind, frame }
                &&& header == model.header()
                &&& kind == kind_of(model)
                &&& frame.model() == model
                &&& frame.valid()
            },
        }
    }

    /// What came of a packet that takes this route.
    #[must_use]
    pub fn outcome(&self) -> (outcome: PacketOutcome)
        ensures
            outcome == outcome_of(*self),
    {
        match self {
            Route::Undecodable { disposition, .. } => {
                if *disposition == PacketDisposition::Unsupported {
                    PacketOutcome::Unsupported
                } else {
                    PacketOutcome::Invalid
                }
            },
            Route::V1(_) => PacketOutcome::ValidV1,
            Route::V2 { .. } => PacketOutcome::ValidV2,
        }
    }
}

/// Decides what to do with a received packet.
#[must_use]
pub fn route_packet(payload: &[u8]) -> (route: Route<'_>)
    ensures
        route.is_route_of(payload@),
{
    match decode_any(payload) {
        Err(error) => {
            let disposition = match error {
                ProtocolDecodeError::V1(_) => PacketDisposition::Invalid,
                ProtocolDecodeError::V2(_) => PacketDisposition::Invalid,
                _ => PacketDisposition::Unsupported,
            };
            Route::Undecodable { disposition, error }
        },
        Ok(DecodedTelemetry::V1(frame)) => Route::V1(frame),
        Ok(DecodedTelemetry::V2(frame)) => {
            let (header, kind) = match frame {
                DecodedFrame::DeviceConfig { header, .. } => (header, V2PacketKind::DeviceConfig),
                DecodedFrame::ProfileFragment(fragment) => (
                    fragment.header,
                    V2PacketKind::ProfileFragment,
                ),
                DecodedFrame::DeviceHealth { header, .. } => (header, V2PacketKind::DeviceHealth),
            };
            Route::V2 { header, kind, frame }
        },
    }
}

/// One thing to do because of a profile fragment.
#[derive(Clone, Debug, Eq, PartialEq)]
pub enum FragmentAction {
    /// Store and emit a profile.
    Persist(ReassembledProfile),
    /// Set the state of an archived fragment, and with it store what is known of its
    /// scan, so that what was counted outlives the process.
    Mark {
        packet_id: i64,
        status: FragmentStorageStatus,
        snapshot: Option<ReassembledProfile>,
    },
    /// Emit that a persisted profile is no longer to be trusted.
    IntegrityUpdate { key: ProfileKey, packet_id: i64, fragment_index: u8 },
    /// Report a diagnostic.
    Report(String),
}

impl FragmentAction {
    /// Whether this action reports a text.
    pub open spec fn reports(self, text: Seq<char>) -> bool {
        self matches FragmentAction::Report(out) && out@ == text
    }
}

/// The report of a profile of which fragments are missing.
pub open spec fn pending_text(progress: ReassemblyProgress) -> Seq<char> {
    let key = progress.key;
    "v2 profile "@ + text::hex_digits(key.node_id as nat, 16) + "/valid="@ + text::truth(
        key.boot_id_valid,
    ) + "/"@ + text::hex_digits(key.boot_id as nat, 16) + "/"@ + text::decimal(
        key.scan_sequence as nat,
    ) + "/uptime="@ + text::decimal(key.uptime_ms as nat) + "/config="@ + text::hex_digits(
        key.config_id as nat,
        16,
    ) + " pending fragments 0x"@ + text::hexadecimal(progress.missing_fragment_bitmap as nat)
}

/// The report of a fragment that was received before.
pub open spec fn repeated_text(how: Seq<char>, fragment_index: u8, packet_id: i64) -> Seq<char> {
    how + text::decimal(fragment_index as nat) + " in packet "@ + text::signed_decimal(
        packet_id as int,
    )
}

/// Reports a profile of which fragments are missing.
fn pending_report(progress: &ReassemblyProgress) -> (out: String)
    ensures
        out@ == pending_text(*progress),
{
    let mut out = String::from_str("v2 profile ");
    push_hex(&mut out, progress.key.node_id, 16);
    out.append("/valid=");
    push_truth(&mut out, progress.key.boot_id_valid);
    out.append("/");
    push_hex(&mut out, progress.key.boot_id, 16);
    out.append("/");
    push_decimal(&mut out, progress.key.scan_sequence as u64);
    out.append("/uptime=");
    push_decimal(&mut out, progress.key.uptime_ms);
    out.append("/config=");
    push_hex(&mut out, progress.key.config_id, 16);
    out.append(" pending fragments 0x");
    push_hexadecimal(&mut out, progress.missing_fragment_bitmap as u64);
    out
}

/// Reports a fragment that was received before.
fn repeated_report(how: &str, fragment_index: u8, packet_id: i64) -> (out: String)
    ensures
        out@ == repeated_text(how@, fragment_index, packet_id),
{
    let mut out = String::from_str(how);
    push_decimal(&mut out, fragment_index as u64);
    out.append(" in packet ");
    push_signed(&mut out, packet_id);
    out
}

/// Whether actions are those for a reassembly result: an evicted profile is
/// persisted first, then comes what the fragment itself led to.
pub open spec fn are_actions_for(
    actions: Seq<FragmentAction>,
    result: IngestResult,
    packet_id: i64,
    snapshot: Option<ReassembledProfile>,
) -> bool {
    let first: int = if result.evicted is Some {
        1
    } else {
        0
    };
    &&& result.evicted is Some ==> actions.len() > 0 && actions[0] == FragmentAction::Persist(
        result.evicted->0,
    )
    &&& match result.event {
        FragmentEvent::Pending(progress) => {
            &&& actions.len() == first + 1
            &&& actions[first].reports(pending_text(progress))
        },
        FragmentEvent::Complete(profile) => {
            &&& actions.len() == first + 1
            &&& actions[first] == FragmentAction::Persist(profile)
        },
        FragmentEvent::Duplicate { fragment_index, .. } => {
            &&& actions.len() == first + 2
            &&& actions[first] == (FragmentAction::Mark {
                packet_id,
                status: FragmentStorageStatus::Duplicate,
                snapshot,
            })
            &&& actions[first + 1].reports(
                repeated_text("v2 profile duplicate fragment "@, fragment_index, packet_id),
            )
        },
        FragmentEvent::Conflict { fragment_index, .. } => {
            &&& actions.len() == first + 2
            &&& actions[first] == (FragmentAction::Mark {
                packet_id,
                status: FragmentStorageStatus::Conflict,
                snapshot,
            })
            &&& actions[first + 1].reports(
                repeated_text("v2 profile conflicting fragment "@, fragment_index, packet_id),
            )
        },
    }
}

/// Decides what a reassembly result leads to.
#[must_use]
pub fn fragment_actions(
    result: IngestResult,
    packet_id: i64,
    snapshot: Option<ReassembledProfile>,
) -> (actions: Vec<FragmentAction>)
    ensures
        are_actions_for(actions@, result, packet_id, snapshot),
{
    let mut actions: Vec<FragmentAction> = Vec::new();
    if let Some(evicted) = result.evicted {
        actions.push(FragmentAction::Persist(evicted));
    }
    match result.event {
        FragmentEvent::Pending(progress) => {
            actions.push(FragmentAction::Report(pending_report(&progress)));
        },
        FragmentEvent::Complete(profile) => {
            actions.push(FragmentAction::Persist(profile));
        },
        FragmentEvent::Duplicate { fragment_index, .. } => {
            actions.push(
                FragmentAction::Mark {
                    packet_id,
                    status: FragmentStorageStatus::Duplicate,
                    snapshot,
                },
            );
            actions.push(
                FragmentAction::Report(
                    repeated_report("v2 profile duplicate fragment ", fragment_index, packet_id),
                ),
            );
        },
        FragmentEvent::Conflict { fragment_index, .. } => {
            actions.push(
                FragmentAction::Mark {
                    packet_id,
                    status: FragmentStorageStatus::Conflict,
                    snapshot,
                },
            );
            actions.push(
                FragmentAction::Report(
                    repeated_report("v2 profile conflicting fragment ", fragment_index, packet_id),
                ),
            );
        },
    }
    actions
}

/// Whether actions are those for a fragment of an already persisted profile: a
/// conflict is emitted, and either way it is reported.
pub open spec fn are_persisted_actions(
    actions: Seq<FragmentAction>,
    found: PersistedFragmentMatch,
    key: ProfileKey,
    source: SourceFragment,
) -> bool {
    match found {
        PersistedFragmentMatch::Duplicate => {
            &&& actions.len() == 1
            &&& actions[0].reports(
                repeated_text(
                    "v2 profile persisted duplicate fragment "@,
                    source.fragment_index,
                    source.packet_id,
                ),
            )
        },
        PersistedFragmentMatch::Conflict => {
            &&& actions.len() == 2
            &&& actions[0] == (FragmentAction::IntegrityUpdate {
                key,
                packet_id: source.packet_id,
                fragment_index: source.fragment_index,
            })
            &&& actions[1].reports(
                repeated_text(
                    "v2 profile persisted conflict fragment "@,
                    source.fragment_index,
                    source.packet_id,
                ),
            )
        },
    }
}

/// Decides what a fragment of an already persisted profile leads to.
fn persisted_actions(found: PersistedFragmentMatch, key: ProfileKey, source: SourceFragment) -> (actions:
    Vec<FragmentAction>)
    ensures
        are_persisted_actions(actions@, found, key, source),
{
    let mut actions: Vec<FragmentAction> = Vec::new();
    let how = match found {
        PersistedFragmentMatch::Duplicate => "v2 profile persisted duplicate fragment ",
        PersistedFragmentMatch::Conflict => {
            actions.push(
                FragmentAction::IntegrityUpdate {
                    key,
                    packet_id: source.packet_id,
                    fragment_index: source.fragment_index,
                },
            );
            "v2 profile persisted conflict fragment "
        },
    };
    actions.push(
        FragmentAction::Report(repeated_report(how, source.fragment_index, source.packet_id)),
    );
    actions
}

/// Whether a snapshot is the one to store with what came of a fragment: that of its
/// scan where another copy of it was counted there, and none otherwise.
pub open spec fn is_snapshot_for(
    snapshot: Option<ReassembledProfile>,
    outcome: model::IngestModel,
) -> bool {
    match outcome.event {
        model::EventModel::Duplicate { key, .. } => reassembly::is_snapshot(
            snapshot,
            outcome.state,
            key,
        ),
        model::EventModel::Conflict { key, .. } => reassembly::is_snapshot(
            snapshot,
            outcome.state,
            key,
        ),
        _ => snapshot is None,
    }
}

/// Whether actions come of a reassembly outcome.
pub open spec fn come_of(
    actions: Seq<FragmentAction>,
    outcome: model::IngestModel,
    packet_id: i64,
) -> bool {
    exists|result: IngestResult, snapshot: Option<ReassembledProfile>|
        result.reports(outcome) && is_snapshot_for(snapshot, outcome) && #[trigger] are_actions_for(
            actions,
            result,
            packet_id,
            snapshot,
        )
}

/// The copies and the contradictions that a late fragment of a persisted profile
/// adds.
pub open spec fn late_counts(found: PersistedFragmentMatch) -> (u16, u16) {
    match found {
        PersistedFragmentMatch::Duplicate => (1, 0),
        PersistedFragmentMatch::Conflict => (0, 1),
    }
}

/// Handles one archived profile fragment. One that an already persisted profile
/// holds is only counted, also where the scan is active; any other one goes to the
/// reassembler.
///
/// # Errors
///
/// Returns an error if the source names another fragment than the wire does.
pub fn ingest_archived_profile_fragment(
    reassembler: &mut ProfileReassembler,
    persisted: Option<PersistedFragmentMatch>,
    fragment: ProfileFragmentView<'_>,
    source: SourceFragment,
    observed_at: u128,
) -> (result: Result<Vec<FragmentAction>, ReassemblyError>)
    requires
        old(reassembler).wf(),
        fragment.valid(),
    ensures
        final(reassembler).wf(),
        final(reassembler).clock() == old(reassembler).clock(),
        persisted matches Some(found) ==> {
            &&& final(reassembler)@ == model::noted(
                old(reassembler)@,
                model::key_of(fragment.header),
                late_counts(found).0,
                late_counts(found).1,
            )
            &&& result is Ok
            &&& are_persisted_actions(
                result->Ok_0@,
                found,
                model::key_of(fragment.header),
                source,
            )
        },
        persisted is None && source.fragment_index != fragment.header.fragment_index ==> {
            &&& final(reassembler)@ == old(reassembler)@
            &&& result == Err::<Vec<FragmentAction>, ReassemblyError>(
                ReassemblyError::SourceFragmentIndex {
                    source: source.fragment_index,
                    wire: fragment.header.fragment_index,
                },
            )
        },
        persisted is None && source.fragment_index == fragment.header.fragment_index ==> {
            let outcome = model::ingested(
                old(reassembler)@,
                fragment.model(),
                source,
                observed_at,
            );
            &&& final(reassembler)@ == outcome.state
            &&& result is Ok
            &&& come_of(result->Ok_0@, outcome, source.packet_id)
        },
{
    if let Some(found) = persisted {
        let key = ProfileKey::from(&fragment.header);
        match found {
            PersistedFragmentMatch::Duplicate => reassembler.note(key, 1, 0),
            PersistedFragmentMatch::Conflict => reassembler.note(key, 0, 1),
        }
        return Ok(persisted_actions(found, key, source));
    }
    match reassembler.ingest_at(fragment, source, observed_at) {
        Ok(ingested) => {
            let snapshot = match &ingested.event {
                FragmentEvent::Duplicate { key, .. } => reassembler.snapshot(*key),
                FragmentEvent::Conflict { key, .. } => reassembler.snapshot(*key),
                _ => None,
            };
            let ghost reported = ingested;
            let ghost stored = snapshot;
            let actions = fragment_actions(ingested, source.packet_id, snapshot);
            assert(are_actions_for(actions@, reported, source.packet_id, stored));
            Ok(actions)
        },
        Err(error) => Err(error),
    }
}

/// What to do with an archived pending fragment at startup.
#[derive(Clone, Debug, Eq, PartialEq)]
pub enum Replay<'a> {
    /// Reassemble it.
    Fragment(ProfileFragmentView<'a>),
    /// Mark its packet invalid and keep this error with it, so that one packet
    /// cannot prevent startup.
    Quarantine { error: String },
}

/// Why an archived pending fragment cannot be replayed.
pub open spec fn replay_fault(packet_id: i64, payload: Seq<u8>) -> Option<Seq<char>> {
    match frame::decoded(payload) {
        Err(error) => Some(
            "pending profile packet "@ + text::signed_decimal(packet_id as int)
                + " no longer decodes: "@ + message::error_text(error),
        ),
        Ok(FrameModel::ProfileFragment(_)) => None,
        Ok(_) => Some(
            "pending profile packet "@ + text::signed_decimal(packet_id as int)
                + " decodes as another frame type"@,
        ),
    }
}

/// Decides what to do with an archived pending fragment at startup.
#[must_use]
pub fn replay_pending(archived: &PendingProfileFragment) -> (replay: Replay<'_>)
    ensures
        match replay {
            Replay::Fragment(fragment) => {
                &&& frame::decoded(archived.payload@) == Ok::<FrameModel, Error>(
                    FrameModel::ProfileFragment(fragment.model()),
                )
                &&& fragment.valid()
            },
            Replay::Quarantine { error } => replay_fault(archived.packet_id, archived.payload@)
                == Some(error@),
        },
{
    match decode(archived.payload.as_slice()) {
        Ok(DecodedFrame::ProfileFragment(fragment)) => Replay::Fragment(fragment),
        Ok(_) => {
            let mut error = String::from_str("pending profile packet ");
            push_signed(&mut error, archived.packet_id);
            error.append(" decodes as another frame type");
            Replay::Quarantine { error }
        },
        Err(fault) => {
            let mut error = String::from_str("pending profile packet ");
            push_signed(&mut error, archived.packet_id);
            error.append(" no longer decodes: ");
            error.append(fault.message().as_str());
            Replay::Quarantine { error }
        },
    }
}

/// The provenance of an archived fragment.
pub open spec fn source_of(archived: PendingProfileFragment, fragment_index: u8) -> SourceFragment {
    SourceFragment {
        packet_id: archived.packet_id,
        fragment_index,
        received_at_unix_ms: archived.received_at_unix_ms,
        radio: archived.radio,
    }
}

/// The provenance of an archived fragment.
#[must_use]
pub fn archived_source(archived: &PendingProfileFragment, fragment_index: u8) -> (source:
    SourceFragment)
    ensures
        source == source_of(*archived, fragment_index),
{
    SourceFragment {
        packet_id: archived.packet_id,
        fragment_index,
        received_at_unix_ms: archived.received_at_unix_ms,
        radio: archived.radio,
    }
}

/// A packet to mark invalid, and the error to keep with it.
#[derive(Clone, Debug, Eq, PartialEq)]
pub struct QuarantinedPacket {
    pub packet_id: i64,
    pub error: String,
}

/// What became of persisted incomplete profiles with one full logical key.
#[derive(Clone, Debug, Eq, PartialEq)]
pub enum Rehydration {
    /// The scan is active or completed already, and nothing was done.
    Known,
    /// The scan is active again, or was completed. These profiles are to be stored
    /// and emitted.
    Restored(Vec<ReassembledProfile>),
    /// Some sources are no fragments of the scan. Their packets are to be marked
    /// invalid, the incomplete profiles are to be removed, and the packets of the
    /// other sources are pending again.
    Contaminated { quarantined: Vec<QuarantinedPacket>, released: Vec<i64> },
}

/// The fragment in an archived payload.
pub open spec fn fragment_of(payload: Seq<u8>) -> FragmentModel {
    frame::decoded(payload)->Ok_0->ProfileFragment_0
}

/// Why a source of a persisted incomplete profile is no fragment of its scan.
pub open spec fn source_fault(key: ProfileKey, source: StoredSource) -> Option<Seq<char>> {
    let packet_id = source.packet.packet_id;
    let header = fragment_of(source.packet.payload@).header;
    match replay_fault(packet_id, source.packet.payload@) {
        Some(fault) => Some(fault),
        None => if model::key_of(header) != key {
            Some(
                "pending profile packet "@ + text::signed_decimal(packet_id as int)
                    + " belongs to another scan"@,
            )
        } else if source.fragment_index != header.fragment_index {
            Some(
                reassembly::reassembly_error_text(
                    ReassemblyError::SourceFragmentIndex {
                        source: source.fragment_index,
                        wire: header.fragment_index,
                    },
                ),
            )
        } else {
            None
        },
    }
}

/// Decides whether a source of a persisted incomplete profile is a fragment of its
/// scan.
fn check_source(key: ProfileKey, source: &StoredSource) -> (fault: Option<String>)
    ensures
        match fault {
            Some(error) => source_fault(key, *source) == Some(error@),
            None => source_fault(key, *source) is None,
        },
{
    match replay_pending(&source.packet) {
        Replay::Quarantine { error } => Some(error),
        Replay::Fragment(fragment) => {
            if ProfileKey::from(&fragment.header) != key {
                let mut error = String::from_str("pending profile packet ");
                push_signed(&mut error, source.packet.packet_id);
                error.append(" belongs to another scan");
                Some(error)
            } else if source.fragment_index != fragment.header.fragment_index {
                let error = ReassemblyError::SourceFragmentIndex {
                    source: source.fragment_index,
                    wire: fragment.header.fragment_index,
                };
                Some(error.message())
            } else {
                None
            }
        },
    }
}

/// The packets of the first `count` sources that are no fragments of their scan.
pub open spec fn faulty(key: ProfileKey, sources: Seq<StoredSource>, count: int) -> Seq<
    (i64, Seq<char>),
>
    decreases count,
{
    if count <= 0 {
        Seq::empty()
    } else {
        match source_fault(key, sources[count - 1]) {
            Some(fault) => faulty(key, sources, count - 1).push(
                (sources[count - 1].packet.packet_id, fault),
            ),
            None => faulty(key, sources, count - 1),
        }
    }
}

/// The packets of the first `count` sources that are fragments of their scan.
pub open spec fn sound(key: ProfileKey, sources: Seq<StoredSource>, count: int) -> Seq<i64>
    decreases count,
{
    if count <= 0 {
        Seq::empty()
    } else {
        match source_fault(key, sources[count - 1]) {
            Some(_) => sound(key, sources, count - 1),
            None => sound(key, sources, count - 1).push(sources[count - 1].packet.packet_id),
        }
    }
}

/// Whether packets are those to mark invalid.
pub open spec fn are_quarantined(
    quarantined: Seq<QuarantinedPacket>,
    expected: Seq<(i64, Seq<char>)>,
) -> bool {
    &&& quarantined.len() == expected.len()
    &&& forall|i: int|
        0 <= i < quarantined.len() ==> (#[trigger] quarantined[i]).packet_id == expected[i].0
            && quarantined[i].error@ == expected[i].1
}

/// The scans that one fragment makes a reassembler hand out.
pub open spec fn handed_out(outcome: model::IngestModel) -> Seq<model::ActiveModel> {
    let evicted = match outcome.evicted {
        Some(scan) => seq![scan],
        None => Seq::empty(),
    };
    match outcome.event {
        model::EventModel::Complete(scan) => evicted.push(scan),
        _ => evicted,
    }
}

/// The state after the first `count` sources, and the scans handed out on the way.
#[verifier::opaque]
pub open spec fn replayed(
    state: model::ReassemblerModel,
    sources: Seq<StoredSource>,
    count: int,
    observed_at: u128,
) -> (model::ReassemblerModel, Seq<model::ActiveModel>)
    decreases count,
{
    if count <= 0 {
        (state, Seq::empty())
    } else {
        let before = replayed(state, sources, count - 1, observed_at);
        let outcome = model::ingested(
            before.0,
            fragment_of(sources[count - 1].packet.payload@),
            source_of(sources[count - 1].packet, sources[count - 1].fragment_index),
            observed_at,
        );
        (outcome.state, before.1 + handed_out(outcome))
    }
}

/// The scan that makes room for one with a key, if one has to.
pub open spec fn made_room(state: model::ReassemblerModel, key: ProfileKey) -> Seq<
    model::ActiveModel,
> {
    match model::evicted_of(state, key) {
        Some(scan) => seq![scan],
        None => Seq::empty(),
    }
}

/// The state with a persisted incomplete scan active again, and the scans handed out
/// on the way: the scan is resumed with what was counted for it, and then its
/// sources are replayed.
pub open spec fn restored(
    state: model::ReassemblerModel,
    partial: PartialScan,
    observed_at: u128,
) -> (model::ReassemblerModel, Seq<model::ActiveModel>) {
    let sources = partial.sources@;
    if sources.len() == 0 {
        (state, Seq::empty())
    } else {
        let resumed = model::resumed(
            state,
            fragment_of(sources[0].packet.payload@),
            partial.duplicate_fragment_count,
            partial.conflicting_fragment_count,
            observed_at,
        );
        let end = replayed(resumed, sources, sources.len() as int, observed_at);
        (end.0, made_room(state, partial.key) + end.1)
    }
}

/// Whether a reassembler has a scan active, or remembers that it was completed.
pub open spec fn is_known(state: model::ReassemblerModel, key: ProfileKey) -> bool {
    model::find_active(state.active, key) is Some || model::find_completed(
        state.completed,
        key,
    ) is Some
}

/// Whether an outcome is that of persisted incomplete profiles with one key.
pub open spec fn is_rehydration(
    outcome: Rehydration,
    before: model::ReassemblerModel,
    after: model::ReassemblerModel,
    partial: PartialScan,
    observed_at: u128,
) -> bool {
    let sources = partial.sources@;
    let faults = faulty(partial.key, sources, sources.len() as int);
    if is_known(before, partial.key) {
        outcome is Known && after == before
    } else if faults.len() > 0 {
        &&& after == before
        &&& outcome matches Rehydration::Contaminated { quarantined, released }
            && are_quarantined(quarantined@, faults) && released@ == sound(
            partial.key,
            sources,
            sources.len() as int,
        )
    } else {
        &&& after == restored(before, partial, observed_at).0
        &&& outcome matches Rehydration::Restored(profiles) && reassembly::all_report(
            profiles@,
            restored(before, partial, observed_at).1,
        )
    }
}

/// Brings persisted incomplete profiles with one full logical key back into a
/// reassembler that does not know their scan, so that fragments that are still to
/// come complete it.
pub fn rehydrate(
    reassembler: &mut ProfileReassembler,
    partial: &PartialScan,
    observed_at: u128,
) -> (outcome: Rehydration)
    requires
        old(reassembler).wf(),
    ensures
        final(reassembler).wf(),
        final(reassembler).clock() == old(reassembler).clock(),
        is_rehydration(
            outcome,
            old(reassembler)@,
            final(reassembler)@,
            *partial,
            observed_at,
        ),
{
    if reassembler.knows(partial.key) {
        return Rehydration::Known;
    }
    let mut quarantined: Vec<QuarantinedPacket> = Vec::new();
    let mut released: Vec<i64> = Vec::new();
    let mut index: usize = 0;
    while index < partial.sources.len()
        invariant
            index <= partial.sources@.len(),
            are_quarantined(quarantined@, faulty(partial.key, partial.sources@, index as int)),
            released@ == sound(partial.key, partial.sources@, index as int),
        decreases partial.sources@.len() - index,
    {
        let source = &partial.sources[index];
        match check_source(partial.key, source) {
            Some(error) => {
                quarantined.push(QuarantinedPacket { packet_id: source.packet.packet_id, error });
            },
            None => {
                released.push(source.packet.packet_id);
            },
        }
        index = index + 1;
    }
    if quarantined.len() > 0 {
        return Rehydration::Contaminated { quarantined, released };
    }
    Rehydration::Restored(restore(reassembler, partial, observed_at))
}

/// Every source of an incomplete profile without faults is a fragment of its scan.
#[verifier::spinoff_prover]
proof fn lemma_no_faults(key: ProfileKey, sources: Seq<StoredSource>, count: int, i: int)
    requires
        0 <= i < count <= sources.len(),
        faulty(key, sources, count).len() == 0,
    ensures
        source_fault(key, sources[i]) is None,
    decreases count,
{
    assert(source_fault(key, sources[count - 1]) is None);
    if i < count - 1 {
        lemma_no_faults(key, sources, count - 1, i);
    }
}

/// Replays one source, and hands out the scans that the reassembler hands out for it.
#[verifier::spinoff_prover]
fn replay_source(
    reassembler: &mut ProfileReassembler,
    key: ProfileKey,
    stored: &StoredSource,
    observed_at: u128,
) -> (profiles: Vec<ReassembledProfile>)
    requires
        old(reassembler).wf(),
        source_fault(key, *stored) is None,
    ensures
        final(reassembler).wf(),
        final(reassembler).clock() == old(reassembler).clock(),
        ({
            let outcome = model::ingested(
                old(reassembler)@,
                fragment_of(stored.packet.payload@),
                source_of(stored.packet, stored.fragment_index),
                observed_at,
            );
            &&& final(reassembler)@ == outcome.state
            &&& reassembly::all_report(profiles@, handed_out(outcome))
        }),
{
    let mut profiles: Vec<ReassembledProfile> = Vec::new();
    if let Replay::Fragment(fragment) = replay_pending(&stored.packet) {
        let source = archived_source(&stored.packet, stored.fragment_index);
        if let Ok(result) = reassembler.ingest_at(fragment, source, observed_at) {
            if let Some(profile) = result.evicted {
                profiles.push(profile);
            }
            if let FragmentEvent::Complete(profile) = result.event {
                profiles.push(profile);
            }
        }
    }
    profiles
}

/// Opens the scan of an incomplete profile with what was counted for it, and hands out
/// the scan that had to make room.
#[verifier::spinoff_prover]
fn reopen(reassembler: &mut ProfileReassembler, partial: &PartialScan, observed_at: u128) -> (profiles:
    Vec<ReassembledProfile>)
    requires
        old(reassembler).wf(),
        !is_known(old(reassembler)@, partial.key),
        partial.sources@.len() > 0,
        source_fault(partial.key, partial.sources@[0]) is None,
    ensures
        final(reassembler).wf(),
        final(reassembler).clock() == old(reassembler).clock(),
        final(reassembler)@ == model::resumed(
            old(reassembler)@,
            fragment_of(partial.sources@[0].packet.payload@),
            partial.duplicate_fragment_count,
            partial.conflicting_fragment_count,
            observed_at,
        ),
        reassembly::all_report(profiles@, made_room(old(reassembler)@, partial.key)),
{
    let mut profiles: Vec<ReassembledProfile> = Vec::new();
    if let Replay::Fragment(first) = replay_pending(&partial.sources[0].packet) {
        if let Some(evicted) = reassembler.resume(
            &first,
            partial.duplicate_fragment_count,
            partial.conflicting_fragment_count,
            observed_at,
        ) {
            profiles.push(evicted);
        }
    }
    profiles
}

/// Whether a state and the profiles handed out on the way are those after a replay.
spec fn has_replayed(
    end: (model::ReassemblerModel, Seq<model::ActiveModel>),
    evicted: Seq<model::ActiveModel>,
    state: model::ReassemblerModel,
    profiles: Seq<ReassembledProfile>,
) -> bool {
    state == end.0 && reassembly::all_report(profiles, evicted + end.1)
}

/// Nothing was replayed yet.
#[verifier::spinoff_prover]
proof fn lemma_replay_begins(
    resumed: model::ReassemblerModel,
    sources: Seq<StoredSource>,
    evicted: Seq<model::ActiveModel>,
    profiles: Seq<ReassembledProfile>,
    observed_at: u128,
)
    requires
        reassembly::all_report(profiles, evicted),
    ensures
        has_replayed(replayed(resumed, sources, 0, observed_at), evicted, resumed, profiles),
{
    reveal(replayed);
    assert(evicted + Seq::<model::ActiveModel>::empty() =~= evicted);
}

/// One more source was replayed.
#[verifier::spinoff_prover]
proof fn lemma_replay_continues(
    resumed: model::ReassemblerModel,
    sources: Seq<StoredSource>,
    index: int,
    evicted: Seq<model::ActiveModel>,
    before: Seq<ReassembledProfile>,
    outcome: model::IngestModel,
    handed: Seq<ReassembledProfile>,
    observed_at: u128,
)
    requires
        0 <= index < sources.len(),
        reassembly::all_report(
            before,
            evicted + replayed(resumed, sources, index, observed_at).1,
        ),
        outcome == model::ingested(
            replayed(resumed, sources, index, observed_at).0,
            fragment_of(sources[index].packet.payload@),
            source_of(sources[index].packet, sources[index].fragment_index),
            observed_at,
        ),
        reassembly::all_report(handed, handed_out(outcome)),
    ensures
        has_replayed(
            replayed(resumed, sources, index + 1, observed_at),
            evicted,
            outcome.state,
            before + handed,
        ),
{
    reveal(replayed);
    let end = replayed(resumed, sources, index, observed_at);
    let scans = evicted + end.1;
    assert(evicted + (end.1 + handed_out(outcome)) =~= scans + handed_out(outcome));
    assert forall|i: int| 0 <= i < (before + handed).len() implies (#[trigger] (before
        + handed)[i]).reports((scans + handed_out(outcome))[i]) by {
        if i < before.len() {
            assert(before[i].reports(scans[i]));
        } else {
            assert(handed[i - before.len()].reports(handed_out(outcome)[i - before.len()]));
        }
    }
}

/// Replays every source, and hands out the scans that the reassembler hands out for
/// them, behind those that it handed out before.
#[verifier::spinoff_prover]
fn replay_sources(
    reassembler: &mut ProfileReassembler,
    partial: &PartialScan,
    before: Vec<ReassembledProfile>,
    observed_at: u128,
    evicted: Ghost<Seq<model::ActiveModel>>,
) -> (profiles: Vec<ReassembledProfile>)
    requires
        old(reassembler).wf(),
        faulty(partial.key, partial.sources@, partial.sources@.len() as int).len() == 0,
        reassembly::all_report(before@, evicted@),
    ensures
        final(reassembler).wf(),
        final(reassembler).clock() == old(reassembler).clock(),
        has_replayed(
            replayed(
                old(reassembler)@,
                partial.sources@,
                partial.sources@.len() as int,
                observed_at,
            ),
            evicted@,
            final(reassembler)@,
            profiles@,
        ),
{
    let ghost sources = partial.sources@;
    let ghost resumed = reassembler@;
    let ghost clock = reassembler.clock();
    let mut profiles = before;
    proof {
        lemma_replay_begins(resumed, sources, evicted@, profiles@, observed_at);
    }
    let mut index: usize = 0;
    while index < partial.sources.len()
        invariant
            index <= partial.sources@.len(),
            sources == partial.sources@,
            faulty(partial.key, sources, sources.len() as int).len() == 0,
            reassembler.wf(),
            reassembler.clock() == clock,
            has_replayed(
                replayed(resumed, sources, index as int, observed_at),
                evicted@,
                reassembler@,
                profiles@,
            ),
        decreases partial.sources@.len() - index,
    {
        let ghost known = profiles@;
        let ghost outcome = model::ingested(
            reassembler@,
            fragment_of(sources[index as int].packet.payload@),
            source_of(sources[index as int].packet, sources[index as int].fragment_index),
            observed_at,
        );
        proof {
            lemma_no_faults(partial.key, sources, sources.len() as int, index as int);
        }
        let mut handed = replay_source(
            reassembler,
            partial.key,
            &partial.sources[index],
            observed_at,
        );
        proof {
            lemma_replay_continues(
                resumed,
                sources,
                index as int,
                evicted@,
                known,
                outcome,
                handed@,
                observed_at,
            );
        }
        profiles.append(&mut handed);
        index = index + 1;
    }
    profiles
}

/// Resumes a scan and replays its sources.
#[verifier::spinoff_prover]
fn restore(reassembler: &mut ProfileReassembler, partial: &PartialScan, observed_at: u128) -> (profiles:
    Vec<ReassembledProfile>)
    requires
        old(reassembler).wf(),
        !is_known(old(reassembler)@, partial.key),
        faulty(partial.key, partial.sources@, partial.sources@.len() as int).len() == 0,
    ensures
        final(reassembler).wf(),
        final(reassembler).clock() == old(reassembler).clock(),
        final(reassembler)@ == restored(old(reassembler)@, *partial, observed_at).0,
        reassembly::all_report(
            profiles@,
            restored(old(reassembler)@, *partial, observed_at).1,
        ),
{
    if partial.sources.len() == 0 {
        return Vec::new();
    }
    proof {
        lemma_no_faults(partial.key, partial.sources@, partial.sources@.len() as int, 0);
    }
    let ghost evicted = made_room(reassembler@, partial.key);
    let profiles = reopen(reassembler, partial, observed_at);
    replay_sources(reassembler, partial, profiles, observed_at, Ghost(evicted))
}

/// When the pending fragment of some ordinal counts as observed: one nanosecond
/// after another, so that replay keeps the order of the archive.
pub open spec fn replay_time_of(started: u128, ordinal: usize) -> u128 {
    if started + ordinal <= u128::MAX {
        (started + ordinal) as u128
    } else {
        started
    }
}

/// When the pending fragment of some ordinal counts as observed.
#[must_use]
pub fn replay_time(started: u128, ordinal: usize) -> (time: u128)
    ensures
        time == replay_time_of(started, ordinal),
{
    match started.checked_add(ordinal as u128) {
        Some(time) => time,
        None => started,
    }
}

/// Why text is no frame.
#[derive(Clone, Copy, Debug, Eq, PartialEq)]
pub enum FrameTextError {
    /// The hexadecimal representation is malformed.
    Hex(HexError),
    /// The bytes are no frame of a known version.
    Protocol(ProtocolDecodeError),
}

/// The text of a failure to read a frame.
pub open spec fn frame_text_error_text(error: FrameTextError) -> Seq<char> {
    match error {
        FrameTextError::Hex(error) => hex::hex_error_text(error),
        FrameTextError::Protocol(error) => telemetry::protocol_error_text(error),
    }
}

impl FrameTextError {
    /// A readable description.
    #[must_use]
    pub fn message(&self) -> (message: String)
        ensures
            message@ == frame_text_error_text(*self),
    {
        match self {
            FrameTextError::Hex(error) => error.message(),
            FrameTextError::Protocol(error) => error.message(),
        }
    }
}

/// The payload that text stands for, if it is a frame of a known version.
pub open spec fn payload_of(bytes: Seq<u8>) -> Result<Seq<u8>, FrameTextError> {
    match hex::parsed_payload(bytes) {
        Err(error) => Err(FrameTextError::Hex(error)),
        Ok(payload) => match telemetry::decoded_any(payload) {
            Err(error) => Err(FrameTextError::Protocol(error)),
            Ok(_) => Ok(payload),
        },
    }
}

/// Reads the payload of a frame from hexadecimal text.
///
/// # Errors
///
/// Returns an error if the text is malformed or its bytes do not decode.
pub fn read_frame_text(encoded: &str) -> (result: Result<Vec<u8>, FrameTextError>)
    ensures
        match result {
            Ok(payload) => payload_of(encoded.spec_bytes()) == Ok::<Seq<u8>, FrameTextError>(
                payload@,
            ),
            Err(error) => payload_of(encoded.spec_bytes()) == Err::<Seq<u8>, FrameTextError>(error),
        },
{
    match parse_payload_hex(encoded) {
        Err(error) => Err(FrameTextError::Hex(error)),
        Ok(payload) => {
            if let Err(error) = decode_any(payload.as_slice()) {
                return Err(FrameTextError::Protocol(error));
            }
            Ok(payload)
        },
    }
}

/// Whether a character has the Unicode property White_Space.
pub open spec fn is_white(c: char) -> bool {
    let code = c as u32;
    ||| 0x09 <= code <= 0x0d
    ||| code == 0x20
    ||| code == 0x85
    ||| code == 0xa0
    ||| code == 0x1680
    ||| 0x2000 <= code <= 0x200a
    ||| code == 0x2028
    ||| code == 0x2029
    ||| code == 0x202f
    ||| code == 0x205f
    ||| code == 0x3000
}

/// Text without leading white space.
pub open spec fn without_leading(text: Seq<char>) -> Seq<char>
    decreases text.len(),
{
    if text.len() > 0 && is_white(text[0]) {
        without_leading(text.drop_first())
    } else {
        text
    }
}

/// Text without trailing white space.
pub open spec fn without_trailing(text: Seq<char>) -> Seq<char>
    decreases text.len(),
{
    if text.len() > 0 && is_white(text.last()) {
        without_trailing(text.drop_last())
    } else {
        text
    }
}

/// Text without white space at either end.
pub open spec fn trimmed(text: Seq<char>) -> Seq<char> {
    without_trailing(without_leading(text))
}

/// `str::trim` of std. It is claimed to remove the characters with the Unicode
/// property White_Space from both ends and nothing else.
pub assume_specification[ str::trim ](s: &str) -> (out: &str)
    ensures
        out@ == trimmed(s@),
;

/// What came of one line of a stream.
#[derive(Clone, Debug, Eq, PartialEq)]
pub enum LineOutcome {
    /// The line holds nothing.
    Blank,
    /// The line holds a frame.
    Frame(Vec<u8>),
    /// The line holds no frame, and this is to be reported.
    Failed(String),
}

/// The bytes of text.
pub open spec fn bytes_of(text: Seq<char>) -> Seq<u8> {
    vstd::utf8::encode_utf8(text)
}

/// The report of a line that failed.
pub open spec fn failed_line_text(line_number: usize, error: Seq<char>) -> Seq<char> {
    "line "@ + text::decimal(line_number as nat) + ": "@ + error
}

/// Whether this is what came of a line.
pub open spec fn is_outcome_of(outcome: LineOutcome, line_number: usize, line: Seq<char>) -> bool {
    let encoded = trimmed(line);
    if encoded.len() == 0 {
        outcome == LineOutcome::Blank
    } else {
        match payload_of(bytes_of(encoded)) {
            Ok(payload) => outcome matches LineOutcome::Frame(found) && found@ == payload,
            Err(error) => outcome matches LineOutcome::Failed(out) && out@ == failed_line_text(
                line_number,
                frame_text_error_text(error),
            ),
        }
    }
}

/// How far a stream of hexadecimal lines has come.
#[derive(Clone, Copy, Debug, Eq, PartialEq, Structural)]
pub struct StreamState {
    /// How many lines were read.
    pub lines: usize,
    /// How many of them failed.
    pub failures: usize,
}

impl Default for StreamState {
    fn default() -> (state: Self)
        ensures
            state == (StreamState { lines: 0, failures: 0 }),
    {
        StreamState { lines: 0, failures: 0 }
    }
}

impl StreamState {
    /// Whether no more lines failed than were read.
    pub open spec fn wf(self) -> bool {
        self.failures <= self.lines
    }

    /// Reads the next line. A line that failed does not end the stream.
    pub fn next_line(&mut self, line: &str) -> (outcome: LineOutcome)
        requires
            old(self).wf(),
            old(self).lines < usize::MAX,
        ensures
            final(self).wf(),
            final(self).lines == old(self).lines + 1,
            is_outcome_of(outcome, final(self).lines, line@),
            final(self).failures == old(self).failures + if outcome is Failed {
                1int
            } else {
                0
            },
    {
        self.lines = self.lines + 1;
        let encoded = line.trim();
        if encoded.is_empty() {
            return LineOutcome::Blank;
        }
        match read_frame_text(encoded) {
            Ok(payload) => LineOutcome::Frame(payload),
            Err(error) => {
                self.failures = self.failures + 1;
                let mut out = String::from_str("line ");
                push_decimal(&mut out, self.lines as u64);
                out.append(": ");
                out.append(error.message().as_str());
                LineOutcome::Failed(out)
            },
        }
    }

    /// What the whole stream is reported to have failed with, if any line did.
    #[must_use]
    pub fn failure(&self) -> (failure: Option<String>)
        ensures
            match failure {
                Some(out) => self.failures > 0 && out@ == Seq::<char>::empty() + text::decimal(
                    self.failures as nat,
                ) + " input frame(s) could not be decoded"@,
                None => self.failures == 0,
            },
    {
        if self.failures == 0 {
            return None;
        }
        let mut out = String::new();
        assert(out@ =~= Seq::<char>::empty());
        push_decimal(&mut out, self.failures as u64);
        out.append(" input frame(s) could not be decoded");
        Some(out)
    }
}

} // verus!
