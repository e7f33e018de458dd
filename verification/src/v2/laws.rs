//! What holds of the v2 codec as a whole.

use vstd::prelude::*;

use crate::v2::checks;
use crate::v2::config;
use crate::v2::frame;
use crate::v2::frame::FrameModel;
use crate::v2::hash;
use crate::v2::header;
use crate::v2::health;
use crate::v2::profile;
use crate::v2::profile::FragmentModel;
use crate::v2::types::{
    Common, DeviceConfig, DeviceHealth, Error, FrameType, Header, ProfileScan, ProfileStep,
    COLLECTION_FLAG_CONFIG_MISMATCH, COMMON_FLAG_BOOT_ID_FROM_HW_RNG, COMMON_FLAG_BOOT_ID_VALID,
    FINISH_REASON_COMPLETE, HEADER_LEN, HEALTH_FLAG_BOOT_ID_UNAVAILABLE,
    HEALTH_FLAG_CONFIG_MISMATCH, MAX_CONFIG_FRAME_LEN, MAX_HEALTH_FRAME_LEN,
    MAX_PROFILE_FRAME_LEN,
};
use crate::wire;

verus! {

/// Decoding an encoded configuration gives back its header and the
/// configuration, and the frame is never longer than 231 bytes.
#[verifier::spinoff_prover]
#[verifier::rlimit(60)]
pub proof fn law_config_round_trip(common: Common, config: DeviceConfig, repeated: bool)
    requires
        config::encoded_config(common, config, repeated) is Ok,
    ensures
        frame::decoded(config::encoded_config(common, config, repeated)->Ok_0) == Ok::<
            FrameModel,
            Error,
        >(
            FrameModel::DeviceConfig {
                header: config::config_header(common, config, repeated),
                config,
            },
        ),
        config::encoded_config(common, config, repeated)->Ok_0.len() <= MAX_CONFIG_FRAME_LEN,
{
    let header = config::config_header(common, config, repeated);
    let payload = config::config_bytes(config);
    config::lemma_config_valid(config);
    config::lemma_config_layout(config);
    header::lemma_header_round_trip(header, payload);
    header::lemma_header_layout(header, payload);
    assert(payload[43] == config::config_at(payload).expected_step_count);
    assert(payload[1] == config::config_at(payload).flags);
    assert(payload[5] == config::config_at(payload).firmware_build_flags);
}

/// Decoding a fragment of an encoded scan gives back what the fragment says:
/// the header, the scan's summary, and the steps of its window. No fragment's
/// frame is longer than 231 bytes.
#[verifier::spinoff_prover]
#[verifier::rlimit(60)]
pub proof fn law_profile_round_trip(common: Common, scan: ProfileScan, fragment_index: u8)
    requires
        profile::encode_profile_fault(common, scan) is None,
        fragment_index < profile::fragment_count_of(scan.expected_step_count),
    ensures
        frame::decoded(
            profile::fragment_frame(profile::fragment_of(common, scan, fragment_index)),
        ) == Ok::<FrameModel, Error>(
            FrameModel::ProfileFragment(profile::fragment_of(common, scan, fragment_index)),
        ),
        profile::fragment_frame(profile::fragment_of(common, scan, fragment_index)).len()
            <= MAX_PROFILE_FRAME_LEN,
{
    let model = profile::fragment_of(common, scan, fragment_index);
    let payload = profile::fragment_bytes(model);
    let start = profile::window_start_of(fragment_index);
    let end = profile::window_end_of(fragment_index, scan.expected_step_count);
    profile::lemma_window_of_valid_scan(scan, start, end);
    profile::lemma_present_count_range(scan.missing_steps_bitmap, start, end);
    profile::lemma_fragment_layout(model);
    header::lemma_header_round_trip(model.header, payload);
    header::lemma_header_layout(model.header, payload);
    assert(profile::summary_at(payload) == scan.summary());
    assert(profile::fragment_meta_fault(model.header, payload) is None);
}

/// Decoding an encoded health record gives back its header and the record, and
/// the frame is never longer than 110 bytes.
#[verifier::spinoff_prover]
#[verifier::rlimit(60)]
pub proof fn law_health_round_trip(common: Common, health: DeviceHealth)
    requires
        health::encoded_health(common, health) is Ok,
    ensures
        frame::decoded(health::encoded_health(common, health)->Ok_0) == Ok::<FrameModel, Error>(
            FrameModel::DeviceHealth { header: health::health_header(common, health), health },
        ),
        health::encoded_health(common, health)->Ok_0.len() <= MAX_HEALTH_FRAME_LEN,
{
    let header = health::health_header(common, health);
    let payload = health::health_bytes(health);
    health::lemma_health_layout(health);
    header::lemma_header_round_trip(header, payload);
    header::lemma_header_layout(header, payload);
    assert(payload[1] == health::health_at(payload).flags);
}

/// Only canonical frames decode: a frame that decodes is exactly the bytes of
/// what it says.
#[verifier::spinoff_prover]
#[verifier::rlimit(60)]
pub proof fn law_decoded_frames_are_canonical(bytes: Seq<u8>)
    requires
        frame::decoded(bytes) is Ok,
    ensures
        bytes == frame::frame_bytes(frame::decoded(bytes)->Ok_0),
{
    let header = header::decoded_header(bytes)->Ok_0;
    let payload = bytes.subrange(HEADER_LEN as int, bytes.len() as int);
    header::lemma_header_canonical(bytes, header);
    match header.frame_type {
        FrameType::DeviceConfig => {
            config::lemma_config_canonical(header, payload);
        },
        FrameType::ProfileFragment => {
            profile::lemma_fragment_canonical(header, payload);
        },
        FrameType::DeviceHealth => {
            health::lemma_health_canonical(header, payload);
        },
    }
}

/// Two frames that say the same are the same bytes.
pub proof fn law_decoding_is_injective(a: Seq<u8>, b: Seq<u8>)
    requires
        frame::decoded(a) is Ok,
        frame::decoded(a) == frame::decoded(b),
    ensures
        a == b,
{
    law_decoded_frames_are_canonical(a);
    law_decoded_frames_are_canonical(b);
}

/// Encoding what a configuration frame said gives the frame back.
#[verifier::spinoff_prover]
#[verifier::rlimit(60)]
pub proof fn law_decoded_config_encodes_back(bytes: Seq<u8>)
    requires
        frame::decoded(bytes) matches Ok(FrameModel::DeviceConfig { .. }),
    ensures
        frame::decoded(bytes) matches Ok(FrameModel::DeviceConfig { header, config })
            && config::encoded_config(header.common, config, false) == Ok::<Seq<u8>, Error>(bytes),
{
    let header = header::decoded_header(bytes)->Ok_0;
    let payload = bytes.subrange(HEADER_LEN as int, bytes.len() as int);
    let config = config::config_at(payload);
    law_decoded_frames_are_canonical(bytes);
    header::lemma_header_canonical(bytes, header);
    config::lemma_config_canonical(header, payload);
    config::lemma_config_valid(config);
    config::lemma_config_layout(config);
    assert(config::config_header(header.common, config, false) == header);
}

/// Encoding what a health frame said gives the frame back.
#[verifier::spinoff_prover]
#[verifier::rlimit(60)]
pub proof fn law_decoded_health_encodes_back(bytes: Seq<u8>)
    requires
        frame::decoded(bytes) matches Ok(FrameModel::DeviceHealth { .. }),
    ensures
        frame::decoded(bytes) matches Ok(FrameModel::DeviceHealth { header, health })
            && health::encoded_health(header.common, health) == Ok::<Seq<u8>, Error>(bytes),
{
    let header = header::decoded_header(bytes)->Ok_0;
    let payload = bytes.subrange(HEADER_LEN as int, bytes.len() as int);
    let health = health::health_at(payload);
    law_decoded_frames_are_canonical(bytes);
    header::lemma_header_canonical(bytes, header);
    health::lemma_health_canonical(header, payload);
    health::lemma_health_layout(health);
    assert(health::health_header(header.common, health) == header);
}

/// A frame that decodes does so at its full length only: cut short or followed
/// by anything, it is rejected for its length, and the error names the length that
/// it should have and the one that it has.
pub proof fn law_truncation_and_trailing_bytes_are_rejected(
    bytes: Seq<u8>,
    cut: int,
    tail: Seq<u8>,
)
    requires
        frame::decoded(bytes) is Ok,
        0 <= cut < bytes.len(),
        tail.len() > 0,
    ensures
        frame::decoded(bytes.take(cut)) == Err::<FrameModel, Error>(
            Error::WrongLength {
                expected: if cut < HEADER_LEN {
                    HEADER_LEN
                } else {
                    bytes.len() as usize
                },
                actual: cut as usize,
            },
        ),
        frame::decoded(bytes + tail) == Err::<FrameModel, Error>(
            Error::WrongLength {
                expected: bytes.len() as usize,
                actual: (bytes.len() + tail.len()) as usize,
            },
        ),
{
    if cut >= HEADER_LEN {
        lemma_length_decides(bytes, bytes.take(cut));
    }
    lemma_length_decides(bytes, bytes + tail);
}

/// Bytes that begin with the header of a decoded frame are rejected if they are of
/// another length.
proof fn lemma_length_decides(bytes: Seq<u8>, other: Seq<u8>)
    requires
        header::decoded_header(bytes) is Ok,
        other.len() >= HEADER_LEN,
        other.len() != bytes.len(),
        other.take(HEADER_LEN as int) =~= bytes.take(HEADER_LEN as int),
    ensures
        header::decoded_header(other) == Err::<Header, Error>(
            Error::WrongLength {
                expected: bytes.len() as usize,
                actual: other.len() as usize,
            },
        ),
{
    let head = bytes.take(HEADER_LEN as int);
    wire::lemma_kept_by_append(head, bytes.skip(HEADER_LEN as int));
    wire::lemma_kept_by_append(head, other.skip(HEADER_LEN as int));
    assert(head + bytes.skip(HEADER_LEN as int) =~= bytes);
    assert(head + other.skip(HEADER_LEN as int) =~= other);
    assert(header::common_at(bytes) == header::common_at(other));
    assert(wire::be16(bytes, 8) == wire::be16(other, 8));
    assert forall|i: int| 0 <= i < HEADER_LEN implies bytes[i] == other[i] by {
        assert(bytes[i] == head[i]);
    }
}

/// A configuration's ID depends on the configuration alone: not on the common
/// fields that it is sent with, nor on whether it is repeated.
pub proof fn law_config_id_ignores_volatile_fields(
    config: DeviceConfig,
    first: Common,
    second: Common,
    first_repeated: bool,
    second_repeated: bool,
)
    requires
        config::config_id_of(config) is Ok,
    ensures
        config::config_header(first, config, first_repeated).common.config_id
            == config::config_header(second, config, second_repeated).common.config_id,
        config::config_id_of(config) == Ok::<u64, Error>(
            config::config_header(first, config, first_repeated).common.config_id,
        ),
{
}

/// A decoded configuration carries its own ID, which is never zero.
pub proof fn law_decoded_config_identifies_itself(bytes: Seq<u8>)
    requires
        frame::decoded(bytes) matches Ok(FrameModel::DeviceConfig { .. }),
    ensures
        frame::decoded(bytes) matches Ok(FrameModel::DeviceConfig { header, config })
            && header.common.config_id != 0 && config::config_id_of(config) == Ok::<u64, Error>(
            header.common.config_id,
        ),
{
    let header = header::decoded_header(bytes)->Ok_0;
    let payload = bytes.subrange(HEADER_LEN as int, bytes.len() as int);
    config::lemma_config_canonical(header, payload);
    assert(config::config_payload_fault(header, payload) is None);
    assert(hash::fnv1a64_of(payload) == header.common.config_id);
}

/// Step `index` of a scan, where the scan holds it, is sent in fragment
/// `index / 3`, whichever other steps are missing.
pub proof fn law_steps_keep_their_fragment(common: Common, scan: ProfileScan, index: u8)
    requires
        profile::encode_profile_fault(common, scan) is None,
        index < scan.expected_step_count,
        scan.steps[index as int] is Some,
    ensures
        index / 3 < profile::fragment_count_of(scan.expected_step_count),
        profile::fragment_of(common, scan, index / 3).steps.contains(
            scan.steps[index as int]->0,
        ),
        forall|fragment: u8, local: int|
            fragment < profile::fragment_count_of(scan.expected_step_count) && 0 <= local
                < profile::fragment_of(common, scan, fragment).steps.len()
                ==> #[trigger] profile::fragment_of(common, scan, fragment).steps[local].step_index
                / 3 == fragment,
{
    let slots = scan.steps@;
    let start = profile::window_start_of(index / 3);
    let end = profile::window_end_of(index / 3, scan.expected_step_count);
    profile::lemma_present_step_is_held(slots, start, index as int, end);
    assert forall|fragment: u8, local: int|
        fragment < profile::fragment_count_of(scan.expected_step_count) && 0 <= local
            < profile::fragment_of(
            common,
            scan,
            fragment,
        ).steps.len() implies #[trigger] profile::fragment_of(
        common,
        scan,
        fragment,
    ).steps[local].step_index / 3 == fragment by {
        let from = profile::window_start_of(fragment);
        let to = profile::window_end_of(fragment, scan.expected_step_count);
        profile::lemma_held_steps_are_in_window(scan, from, to, local);
    }
}

/// The fragments of a scan, put together in order, hold every step of the scan
/// in order.
pub proof fn law_fragments_cover_the_scan(common: Common, scan: ProfileScan)
    requires
        profile::encode_profile_fault(common, scan) is None,
    ensures
        profile::joined_steps(
            common,
            scan,
            profile::fragment_count_of(scan.expected_step_count) as int,
        ) == profile::present_steps(scan.steps@, 0, scan.expected_step_count as int),
{
    profile::lemma_joined_steps(
        common,
        scan,
        profile::fragment_count_of(scan.expected_step_count) as int,
    );
}

/// Configuration ID zero never passes for a verified configuration: no
/// configuration has it, a profile with it reports the mismatch and did not
/// finish, and a health record with it reports the mismatch or names no profile.
pub proof fn law_zero_config_id_is_degraded(bytes: Seq<u8>)
    requires
        frame::decoded(bytes) is Ok,
    ensures
        match frame::decoded(bytes)->Ok_0 {
            FrameModel::DeviceConfig { header, .. } => header.common.config_id != 0,
            FrameModel::ProfileFragment(fragment) => fragment.header.common.config_id == 0 ==> {
                &&& fragment.summary.collection_flags & COLLECTION_FLAG_CONFIG_MISMATCH != 0
                &&& fragment.summary.finish_reason != FINISH_REASON_COMPLETE
            },
            FrameModel::DeviceHealth { header, health } => header.common.config_id == 0 ==> {
                ||| health.flags & HEALTH_FLAG_CONFIG_MISMATCH != 0
                ||| health.profile_id == 0 && health.profile_version == 0
            },
        },
{
    let header = header::decoded_header(bytes)->Ok_0;
    let payload = bytes.subrange(HEADER_LEN as int, bytes.len() as int);
    match header.frame_type {
        FrameType::DeviceConfig => {
            law_decoded_config_identifies_itself(bytes);
        },
        FrameType::ProfileFragment => {
            assert(profile::fragment_meta_fault(header, payload) is None);
        },
        FrameType::DeviceHealth => {
            assert(health::health_identity_fault(header.common, health::health_at(payload))
                is None);
        },
    }
}

/// A boot nonce is never fabricated: without the flag that it is valid it is zero
/// and claims no source, and a health record says the same.
pub proof fn law_unavailable_boot_id_is_zero(bytes: Seq<u8>)
    requires
        frame::decoded(bytes) is Ok,
        frame::decoded(bytes)->Ok_0.header().common.flags & COMMON_FLAG_BOOT_ID_VALID == 0,
    ensures
        frame::decoded(bytes)->Ok_0.header().common.boot_id == 0,
        frame::decoded(bytes)->Ok_0.header().common.flags & COMMON_FLAG_BOOT_ID_FROM_HW_RNG == 0,
        frame::decoded(bytes)->Ok_0 matches FrameModel::DeviceHealth { health, .. } ==> health.flags
            & HEALTH_FLAG_BOOT_ID_UNAVAILABLE != 0,
{
    let header = header::decoded_header(bytes)->Ok_0;
    let payload = bytes.subrange(HEADER_LEN as int, bytes.len() as int);
    assert(header::common_fault(header.common) is None);
    assert(header::boot_id_fault(header.common.flags, header.common.boot_id) is None);
    if header.frame_type == FrameType::DeviceHealth {
        health::lemma_health_canonical(header, payload);
        health::lemma_health_layout(health::health_at(payload));
        assert(payload[1] == health::health_at(payload).flags);
    }
}

/// How long a frame is follows from what it says: 131 bytes and ten for each
/// heater step, 90 bytes and 47 for each measured step, or 102 bytes and four for
/// each calibrated value.
pub proof fn law_frame_lengths(bytes: Seq<u8>)
    requires
        frame::decoded(bytes) is Ok,
    ensures
        match frame::decoded(bytes)->Ok_0 {
            FrameModel::DeviceConfig { config, .. } => bytes.len() == 131 + 10
                * config.expected_step_count,
            FrameModel::ProfileFragment(fragment) => fragment.steps.len() <= 3 && bytes.len() == 90
                + 47 * fragment.steps.len(),
            FrameModel::DeviceHealth { health, .. } => bytes.len() == 102 + (
            if health.calibrated_mcu_temperature_centi_celsius is Some {
                4int
            } else {
                0
            }) + (if health.calibrated_vdd_millivolt is Some {
                4int
            } else {
                0
            }),
        },
{
    let header = header::decoded_header(bytes)->Ok_0;
    let payload = bytes.subrange(HEADER_LEN as int, bytes.len() as int);
    assert(payload.len() == bytes.len() - HEADER_LEN);
    match header.frame_type {
        FrameType::DeviceConfig => {
            config::lemma_config_canonical(header, payload);
            config::lemma_config_valid(config::config_at(payload));
            config::lemma_config_layout(config::config_at(payload));
        },
        FrameType::ProfileFragment => {
            profile::lemma_fragment_canonical(header, payload);
            profile::lemma_fragment_layout(profile::fragment_at(header, payload));
        },
        FrameType::DeviceHealth => {
            health::lemma_health_canonical(header, payload);
        },
    }
}

/// Every decoded step agrees with its raw register bytes: the status flags, the
/// gas index and the gas range are those of the raw bytes, and the gas index is
/// the step's own.
pub proof fn law_decoded_steps_agree_with_raw_bytes(bytes: Seq<u8>, local: int)
    requires
        frame::decoded(bytes) matches Ok(FrameModel::ProfileFragment(fragment)) && 0 <= local
            < fragment.steps.len(),
    ensures
        frame::decoded(bytes) matches Ok(FrameModel::ProfileFragment(fragment)) && {
            let step = fragment.steps[local];
            &&& step.status & 0xb0 == (step.raw_measurement_status & 0x80) | (step.raw_gas_status
                & 0x30)
            &&& step.gas_index == step.raw_measurement_status & 0x0f
            &&& step.gas_range == step.raw_gas_status & 0x0f
            &&& step.gas_index == step.step_index
        },
{
    let header = header::decoded_header(bytes)->Ok_0;
    let payload = bytes.subrange(HEADER_LEN as int, bytes.len() as int);
    let model = profile::fragment_at(header, payload);
    assert(profile::fragment_meta_fault(header, payload) is None);
    let from = profile::window_start_of(header.fragment_index);
    let to = profile::window_end_of(header.fragment_index, model.summary.expected_step_count);
    assert(model.steps.len() == profile::present_count(
        model.summary.missing_steps_bitmap,
        from,
        to,
    ));
    lemma_window_steps(model.steps, model.summary.missing_steps_bitmap, from, to, local);
}

proof fn lemma_window_steps(
    steps: Seq<ProfileStep>,
    missing: u16,
    from: int,
    to: int,
    local: int,
)
    requires
        profile::window_fault(steps, missing, from, to) is None,
        0 <= local < profile::present_count(missing, from, to),
    ensures
        profile::step_fault(steps[local]) is None,
    decreases to - from,
{
    if to > from {
        if checks::has_bit(missing, to - 1) {
            lemma_window_steps(steps, missing, from, to - 1, local);
        } else if local < profile::present_count(missing, from, to - 1) {
            lemma_window_steps(steps, missing, from, to - 1, local);
        }
    }
}

/// A profile fragment that decodes is in its fixed window: it carries exactly the
/// steps of the window that the scan does not report missing.
pub proof fn law_decoded_fragments_are_valid(bytes: Seq<u8>, fragment: FragmentModel)
    requires
        frame::decoded(bytes) == Ok::<FrameModel, Error>(FrameModel::ProfileFragment(fragment)),
    ensures
        profile::fragment_valid(fragment),
{
}

} // verus!
