//! The rules of the wire format, in terms of the bytes and fields themselves: what every
//! record that is accepted obeys, and that a record that obeys them is accepted.

use vstd::arithmetic::power2;
use vstd::prelude::*;

use crate::text;
use crate::text::laws as text_laws;
use crate::v2::airtime;
use crate::v2::checks;
use crate::v2::config;
use crate::v2::hash;
use crate::v2::header;
use crate::v2::health;
use crate::v2::message;
use crate::v2::profile;
use crate::v2::profile::FragmentModel;
use crate::v2::types::{
    Common, DeviceConfig, DeviceHealth, Error, Header, ProfileScan, ProfileStep,
};
use crate::wire;

verus! {

proof fn lemma_unknown_bits()
    ensures
        !0x07u8 == 0xf8u8,
        !0x03u8 == 0xfcu8,
        !0x3fu8 == 0xc0u8,
        !0x00ffu16 == 0xff00u16,
        !0x0000_3fffu32 == 0xffff_c000u32,
{
    assert(!0x07u8 == 0xf8u8 && !0x03u8 == 0xfcu8 && !0x3fu8 == 0xc0u8 && !0x00ffu16 == 0xff00u16
        && !0x0000_3fffu32 == 0xffff_c000u32) by (bit_vector);
}

/// A header decodes exactly if the frame starts with `VS`, the version and a known type,
/// is as long as it says, has known flags only and possible fragment coordinates, and
/// claims a boot nonce only where it is valid. Its fields are then those at their places.
pub proof fn law_header_decodes(bytes: Seq<u8>)
    ensures
        header::decoded_header(bytes) is Ok <==> {
            &&& bytes.len() >= 48
            &&& bytes[0] == 0x56
            &&& bytes[1] == 0x53
            &&& bytes[2] == 2
            &&& 1 <= bytes[3] <= 3
            &&& bytes[4] == 48
            &&& bytes[5] & 0xf8 == 0
            &&& bytes[6] < bytes[7]
            &&& wire::be16(bytes, 46) & 0xff00 == 0
            &&& bytes[5] & 0x02 != 0 ==> bytes[5] & 0x01 != 0
            &&& bytes[5] & 0x01 == 0 ==> wire::be64(bytes, 18) == 0
            &&& bytes.len() == 48 + wire::be16(bytes, 8)
        },
        header::decoded_header(bytes) matches Ok(decoded) ==> {
            &&& decoded.frame_type is DeviceConfig <==> bytes[3] == 1
            &&& decoded.frame_type is ProfileFragment <==> bytes[3] == 2
            &&& decoded.frame_type is DeviceHealth <==> bytes[3] == 3
            &&& decoded.common.flags == bytes[5]
            &&& decoded.fragment_index == bytes[6]
            &&& decoded.fragment_count == bytes[7]
            &&& decoded.payload_len == wire::be16(bytes, 8)
            &&& decoded.common.node_id == wire::be64(bytes, 10)
            &&& decoded.common.boot_id == wire::be64(bytes, 18)
            &&& decoded.common.scan_sequence == wire::be32(bytes, 26)
            &&& decoded.common.uptime_ms == wire::be64(bytes, 30)
            &&& decoded.common.config_id == wire::be64(bytes, 38)
            &&& decoded.common.reset_cause_flags == wire::be16(bytes, 46)
        },
{
    lemma_unknown_bits();
}

/// A refused header is refused for what is wrong with it: the error names the bytes,
/// the length, the flags or the coordinates that break the rule.
pub proof fn law_header_errors_name_what_is_wrong(bytes: Seq<u8>)
    requires
        bytes.len() <= usize::MAX,
    ensures
        header::decoded_header(bytes) matches Err(Error::InvalidMagic(found)) ==> {
            &&& found[0] == bytes[0]
            &&& found[1] == bytes[1]
            &&& bytes[0] != 0x56 || bytes[1] != 0x53
        },
        header::decoded_header(bytes) matches Err(Error::UnsupportedVersion(found)) ==> found
            == bytes[2] && found != 2,
        header::decoded_header(bytes) matches Err(Error::UnknownFrameType(found)) ==> found
            == bytes[3] && !(1 <= found <= 3),
        header::decoded_header(bytes) matches Err(Error::InvalidHeaderLength(found)) ==> found
            == bytes[4] && found != 48,
        header::decoded_header(bytes) matches Err(Error::InvalidFragmentCount(found)) ==> found
            == bytes[7] && found == 0,
        header::decoded_header(bytes) matches Err(Error::InvalidFragmentIndex { index, count })
            ==> index == bytes[6] && count == bytes[7] && index >= count,
        header::decoded_header(bytes) matches Err(Error::WrongLength { expected, actual })
            ==> actual == bytes.len() && actual != expected && (expected == 48 || expected == 48
            + wire::be16(bytes, 8)),
        header::decoded_header(bytes) matches Err(Error::UnknownFlags { field, bits }) ==> bits
            == bytes[5] & 0xf8 || bits == wire::be16(bytes, 46) & 0xff00,
{
    lemma_unknown_bits();
}

/// Common fields are sent exactly if their flags are known and claim a boot nonce only
/// where it is valid.
pub proof fn law_common_fields_are_sent(common: Common)
    ensures
        header::common_fault(common) is None <==> {
            &&& common.flags & 0xf8 == 0
            &&& common.flags & 0x02 != 0 ==> common.flags & 0x01 != 0
            &&& common.flags & 0x01 == 0 ==> common.boot_id == 0
            &&& common.reset_cause_flags & 0xff00 == 0
        },
{
    lemma_unknown_bits();
}

/// A health report decodes exactly if it is unfragmented, of the known schema, as long
/// as it says, with known flags that agree with the header on the boot nonce, with its
/// extensions in order of their types and two bytes long each, and with a profile
/// identity that agrees with the configuration.
#[verifier::spinoff_prover]
pub proof fn law_health_decodes(header: Header, payload: Seq<u8>)
    ensures
        health::decoded_health(header, payload) is Ok <==> {
            let extensions = payload.len() - 54;
            let profile_id = wire::be16(payload, 45);
            let profile_version = wire::be16(payload, 47);
            &&& header.fragment_index == 0
            &&& header.fragment_count == 1
            &&& extensions == 0 || extensions == 4 || extensions == 8
            &&& payload[53] == extensions
            &&& payload[0] == 1
            &&& payload[1] & 0xc0 == 0
            &&& payload[1] & 0x02 != 0 <==> header.common.flags & 0x01 == 0
            &&& extensions == 4 ==> (payload[54] == 1 || payload[54] == 2) && payload[55] == 2
            &&& extensions == 8 ==> payload[54] == 1 && payload[55] == 2 && payload[58] == 2
                && payload[59] == 2
            &&& profile_id == 0 <==> profile_version == 0
            &&& profile_id == 0 ==> header.common.config_id == 0
            &&& profile_id != 0 && header.common.config_id == 0 ==> payload[1] & 0x04 != 0
        },
{
    lemma_unknown_bits();
    reveal_with_fuel(health::extensions_fault, 4);
}

/// A configuration is accepted exactly if every setting is in its range.
#[verifier::spinoff_prover]
pub proof fn law_configuration_is_accepted(config: DeviceConfig)
    ensures
        config::config_fault(config) is None <==> {
            &&& config.flags & 0xfc == 0
            &&& config.firmware_build_flags & 0xf8 == 0
            &&& config.output_routes & 0xf8 == 0
            &&& config.output_routes != 0
            &&& config.profile_id != 0
            &&& config.profile_version != 0
            &&& config.sensor_variant == 0 || config.sensor_variant == 1 || config.sensor_variant
                == 255
            &&& config.temperature_oversampling <= 5
            &&& config.humidity_oversampling <= 5
            &&& config.pressure_oversampling <= 5
            &&& config.iir_filter <= 7
            &&& config.standby_time <= 8
            &&& 1 <= config.operation_mode <= 3
            &&& 1 <= config.expected_step_count <= 10
            &&& forall|i: int|
                0 <= i < 16 && #[trigger] checks::has_bit(config.heater_readback_valid_bitmap, i)
                    ==> i < config.expected_step_count
            &&& config.heater_enabled <= 1
            &&& config.radio_phy_crc_enabled <= 1
            &&& config.radio_iq_inverted <= 1
            &&& config.radio_header_mode <= 1
            &&& config.profile_steps_per_fragment == 3
            &&& config.max_frame_len == 231
            &&& config.flags & 0x01 == 0 ==> config.calibration_hash_algorithm == 0
                && config.calibration_hash == 0
            &&& config.flags & 0x01 != 0 ==> config.calibration_hash_algorithm == 1
            &&& config.firmware_build_flags & 0x01 == 0 ==> config.firmware_build_id == 0
            &&& 5 <= config.radio_spreading_factor <= 12
            &&& config.radio_bandwidth_hz > 0
            &&& config.radio_coding_rate_numerator == 4
            &&& 5 <= config.radio_coding_rate_denominator <= 8
            &&& config.radio_preamble_symbols > 0
            &&& forall|i: int| 0 <= i < 10 ==> #[trigger] slot_is_accepted(config, i)
        },
{
    lemma_unknown_bits();
    lemma_slots(config, 10);
    if 1 <= config.expected_step_count <= 10 {
        let bitmap = config.heater_readback_valid_bitmap;
        let count = config.expected_step_count;
        if bitmap & !checks::step_mask_of(count) == 0 {
            assert forall|i: int| 0 <= i < 16 && #[trigger] checks::has_bit(bitmap, i) implies i
                < count by {
                checks::lemma_within_mask(bitmap, count, i);
            }
        }
        if forall|i: int| 0 <= i < 16 && #[trigger] checks::has_bit(bitmap, i) ==> i < count {
            checks::lemma_mask_covers(bitmap, count);
        }
    }
}

/// Whether heater slot `index` is all zero beyond the step count, and holds no readback
/// where none was verified.
pub open spec fn slot_is_accepted(config: DeviceConfig, index: int) -> bool {
    let step = config.steps[index];
    &&& index >= config.expected_step_count ==> step.target_temperature_celsius == 0
        && step.configured_duration_us == 0 && step.repetition_multiplier == 0
        && step.readback_heater_current == 0 && step.programmed_heater_resistance == 0
        && step.programmed_gas_wait == 0
    &&& !checks::has_bit(config.heater_readback_valid_bitmap, index)
        ==> step.readback_heater_current == 0 && step.programmed_heater_resistance == 0
        && step.programmed_gas_wait == 0
}

proof fn lemma_slots(config: DeviceConfig, count: int)
    requires
        0 <= count <= 10,
    ensures
        config::heaters_fault(config, count) is None <==> forall|i: int|
            0 <= i < count ==> #[trigger] slot_is_accepted(config, i),
    decreases count,
{
    if count > 0 {
        lemma_slots(config, count - 1);
        assert(config::heater_fault(config, count - 1) is None <==> slot_is_accepted(
            config,
            count - 1,
        ));
    }
}

/// A configuration frame decodes exactly if it is unfragmented, of the known schema, as
/// long as its step count says, named by the hash of its own payload, and its settings
/// are accepted.
#[verifier::spinoff_prover]
pub proof fn law_configuration_decodes(header: Header, payload: Seq<u8>)
    ensures
        config::decoded_config(header, payload) is Ok <==> {
            &&& header.fragment_index == 0
            &&& header.fragment_count == 1
            &&& payload.len() >= 83
            &&& payload[0] == 1
            &&& 1 <= payload[43] <= 10
            &&& payload.len() == 83 + 10 * payload[43]
            &&& header.common.config_id != 0
            &&& header.common.config_id == hash::fnv1a64_of(payload)
            &&& config::config_fault(config::config_at(payload)) is None
        },
{
    lemma_unknown_bits();
    law_configuration_is_accepted(config::config_at(payload));
}

/// A scan is sent exactly if it has a profile and one to ten expected steps, known flags
/// and a known reason to finish, bitmaps and counts that agree with the steps it holds,
/// each step in the slot of its own index and in agreement with its raw registers, and
/// common fields that are sent, where a missing configuration is reported as such.
#[verifier::spinoff_prover]
pub proof fn law_scan_is_sent(common: Common, scan: ProfileScan)
    ensures
        profile::encode_profile_fault(common, scan) is None <==> {
            &&& scan.profile_id != 0
            &&& scan.profile_version != 0
            &&& 1 <= scan.expected_step_count <= 10
            &&& scan.collection_flags & 0xffff_c000 == 0
            &&& scan.finish_reason <= 4
            &&& scan.collection_flags & 0x2000 != 0 ==> scan.intermediate_field_count > 0
            &&& forall|i: int|
                0 <= i < 16 && #[trigger] checks::has_bit(scan.missing_steps_bitmap, i) ==> i
                    < scan.expected_step_count
            &&& forall|i: int|
                0 <= i < 16 && #[trigger] checks::has_bit(scan.duplicate_steps_bitmap, i) ==> i
                    < scan.expected_step_count
            &&& scan.observed_unique_step_count + checks::set_bits(
                scan.missing_steps_bitmap,
                scan.expected_step_count as int,
            ) == scan.expected_step_count
            &&& scan.observed_field_count >= scan.observed_unique_step_count
            &&& forall|i: int| 0 <= i < 10 ==> #[trigger] slot_is_sent(scan, i)
            &&& common.config_id == 0 ==> scan.collection_flags & 0x1000 != 0
                && scan.finish_reason != 0
            &&& common.flags & 0xf8 == 0
            &&& common.flags & 0x02 != 0 ==> common.flags & 0x01 != 0
            &&& common.flags & 0x01 == 0 ==> common.boot_id == 0
            &&& common.reset_cause_flags & 0xff00 == 0
        },
{
    lemma_unknown_bits();
    law_common_fields_are_sent(common);
    lemma_sent_slots(scan, 10);
    if 1 <= scan.expected_step_count <= 10 {
        lemma_bound(scan.missing_steps_bitmap, scan.expected_step_count);
        lemma_bound(scan.duplicate_steps_bitmap, scan.expected_step_count);
    }
}

/// Whether slot `index` holds a step exactly where one is expected and not missing, and
/// that step is the one of the slot and agrees with its raw registers: the status flags,
/// the gas index and the gas range.
pub open spec fn slot_is_sent(scan: ProfileScan, index: int) -> bool {
    &&& scan.steps[index] is Some <==> index < scan.expected_step_count && !checks::has_bit(
        scan.missing_steps_bitmap,
        index,
    )
    &&& scan.steps[index] matches Some(step) ==> {
        &&& step.step_index == index
        &&& step.gas_index == index
        &&& step.raw_measurement_status & 0x0f == step.gas_index
        &&& step.raw_gas_status & 0x0f == step.gas_range
        &&& step.status & 0x80 == step.raw_measurement_status & 0x80
        &&& step.status & 0x30 == step.raw_gas_status & 0x30
    }
}

proof fn lemma_sent_slots(scan: ProfileScan, count: int)
    requires
        0 <= count <= 10,
    ensures
        profile::slots_fault(scan, count) is None <==> forall|i: int|
            0 <= i < count ==> #[trigger] slot_is_sent(scan, i),
    decreases count,
{
    if count > 0 {
        lemma_sent_slots(scan, count - 1);
        let index = count - 1;
        if let Some(step) = scan.steps[index] {
            let status = step.status;
            let measurement = step.raw_measurement_status;
            let gas = step.raw_gas_status;
            assert((status & 0xb0 == (measurement & 0x80) | (gas & 0x30)) == (status & 0x80
                == measurement & 0x80 && status & 0x30 == gas & 0x30)) by (bit_vector);
        }
        assert(profile::slot_fault(scan, index) is None <==> slot_is_sent(scan, index));
    }
}

proof fn lemma_bound(bitmap: u16, count: u8)
    requires
        count <= 15,
    ensures
        bitmap & !checks::step_mask_of(count) == 0 <==> forall|i: int|
            0 <= i < 16 && #[trigger] checks::has_bit(bitmap, i) ==> i < count,
{
    if bitmap & !checks::step_mask_of(count) == 0 {
        assert forall|i: int| 0 <= i < 16 && #[trigger] checks::has_bit(bitmap, i) implies i
            < count by {
            checks::lemma_within_mask(bitmap, count, i);
        }
    }
    if forall|i: int| 0 <= i < 16 && #[trigger] checks::has_bit(bitmap, i) ==> i < count {
        checks::lemma_mask_covers(bitmap, count);
    }
}

/// What a fragment says of its scan stands at its place in the payload, and is accepted
/// only where it is in range and agrees with the frame's own coordinates: the steps of a
/// fragment are those of its window of three that the scan does not report missing.
#[verifier::spinoff_prover]
pub proof fn law_accepted_fragments_obey_the_rules(header: Header, payload: Seq<u8>)
    requires
        header.fragment_index < header.fragment_count,
        profile::decoded_fragment(header, payload) is Ok,
    ensures
        ({
            let fragment = profile::decoded_fragment(header, payload)->Ok_0;
            let summary = fragment.summary;
            &&& payload[0] == 1
            &&& payload.len() == 42 + 47 * payload[1]
            &&& payload[1] <= 3
            &&& payload[41] == 3 * header.fragment_index
            &&& header.fragment_count == (payload[6] + 2) / 3
            &&& fragment.header == header
            &&& fragment.step_window_start == payload[41]
            &&& fragment.steps.len() == payload[1]
            &&& summary.profile_id != 0
            &&& summary.profile_version != 0
            &&& 1 <= summary.expected_step_count <= 10
            &&& summary.collection_flags & 0xffff_c000 == 0
            &&& summary.finish_reason <= 4
            &&& summary.collection_flags & 0x2000 != 0 ==> summary.intermediate_field_count > 0
            &&& forall|i: int|
                0 <= i < 16 && #[trigger] checks::has_bit(summary.missing_steps_bitmap, i) ==> i
                    < summary.expected_step_count
            &&& forall|i: int|
                0 <= i < 16 && #[trigger] checks::has_bit(summary.duplicate_steps_bitmap, i) ==> i
                    < summary.expected_step_count
            &&& summary.observed_unique_step_count + checks::set_bits(
                summary.missing_steps_bitmap,
                summary.expected_step_count as int,
            ) == summary.expected_step_count
            &&& summary.observed_field_count >= summary.observed_unique_step_count
            &&& header.common.config_id == 0 ==> summary.collection_flags & 0x1000 != 0
                && summary.finish_reason != 0
        }),
{
    lemma_unknown_bits();
    let summary = profile::summary_at(payload);
    lemma_bound(summary.missing_steps_bitmap, summary.expected_step_count);
    lemma_bound(summary.duplicate_steps_bitmap, summary.expected_step_count);
    profile::lemma_present_count_range(
        summary.missing_steps_bitmap,
        profile::window_start_of(header.fragment_index),
        profile::window_end_of(header.fragment_index, summary.expected_step_count),
    );
}

/// The hash starts from the offset basis, and one more byte is folded in by
/// exclusive-or and multiplication by the prime modulo 2^64.
pub proof fn law_hash_folds_in_one_byte(bytes: Seq<u8>, byte: u8)
    ensures
        hash::fnv1a64_of(Seq::empty()) == 0xcbf2_9ce4_8422_2325,
        hash::fnv1a64_of(bytes.push(byte)) == ((hash::fnv1a64_of(bytes) ^ (byte as u64)) as int
            * 0x100_0000_01b3) % 0x1_0000_0000_0000_0000,
{
    assert(bytes.push(byte).drop_last() =~= bytes);
}

/// The time on air is the least whole number of microseconds that suffices: there is a
/// least number of coded blocks that hold the payload's bits, these with the preamble,
/// the sync symbols and the header give the quarter symbols, and one microsecond less
/// would be too short for them.
#[verifier::spinoff_prover]
pub proof fn law_airtime_is_the_least_that_suffices(
    payload_len: usize,
    spreading_factor: u8,
    bandwidth_hz: u32,
    coding_rate_denominator: u8,
    preamble_symbols: u16,
    explicit_header: bool,
    crc_enabled: bool,
)
    requires
        5 <= spreading_factor <= 12,
        bandwidth_hz > 0,
    ensures
        ({
            let chips = power2::pow2(spreading_factor as nat);
            let time = airtime::time_on_air(
                payload_len,
                spreading_factor,
                bandwidth_hz,
                coding_rate_denominator,
                preamble_symbols,
                explicit_header,
                crc_enabled,
            );
            let bits = 8 * payload_len - 4 * spreading_factor + 28 + (if crc_enabled {
                16int
            } else {
                0
            }) - (if explicit_header {
                0int
            } else {
                20
            });
            let rows = if chips * 1000 >= 16 * bandwidth_hz {
                spreading_factor - 2
            } else {
                spreading_factor as int
            };
            exists|blocks: int| {
                &&& 0 <= blocks
                &&& bits <= 4 * rows * blocks
                &&& blocks > 0 ==> 4 * rows * (blocks - 1) < bits
                &&& ({
                    let quarters = 4 * preamble_symbols + 17 + 32 + 4 * (
                    #[trigger] (blocks * coding_rate_denominator));
                    &&& quarters * (chips * 1_000_000) <= time * (4 * bandwidth_hz)
                    &&& (time - 1) * (4 * bandwidth_hz) < quarters * (chips * 1_000_000)
                })
            }
        }),
{
    let chips = power2::pow2(spreading_factor as nat);
    power2::lemma_pow2_pos(spreading_factor as nat);
    let blocks = airtime::coded_blocks(
        payload_len,
        spreading_factor,
        bandwidth_hz,
        explicit_header,
        crc_enabled,
    );
    let bits = 8 * payload_len - 4 * spreading_factor + 28 + (if crc_enabled {
        16int
    } else {
        0
    }) - (if explicit_header {
        0int
    } else {
        20
    });
    let rows = if chips * 1000 >= 16 * bandwidth_hz {
        spreading_factor - 2
    } else {
        spreading_factor as int
    };
    assert(airtime::low_data_rate(spreading_factor, bandwidth_hz) == (chips * 1000 >= 16
        * bandwidth_hz));
    if bits > 0 {
        lemma_ceiling(bits, 4 * rows);
        assert(4 * rows * blocks == blocks * (4 * rows)) by (nonlinear_arith);
        assert(4 * rows * (blocks - 1) == (blocks - 1) * (4 * rows)) by (nonlinear_arith);
    } else {
        assert(4 * rows * 0 == 0);
    }
    let quarters = airtime::quarter_symbols(blocks, coding_rate_denominator, preamble_symbols);
    assert(quarters == 4 * preamble_symbols + 17 + 32 + 4 * (blocks * coding_rate_denominator));
    lemma_ceiling(quarters * airtime::symbol_numerator(spreading_factor), 4 * bandwidth_hz);
}

proof fn lemma_ceiling(dividend: int, divisor: int)
    requires
        divisor > 0,
    ensures
        dividend <= airtime::ceiling(dividend, divisor) * divisor,
        (airtime::ceiling(dividend, divisor) - 1) * divisor < dividend,
        dividend > 0 ==> airtime::ceiling(dividend, divisor) > 0,
{
    let quotient = airtime::ceiling(dividend, divisor);
    assert(dividend <= quotient * divisor && (quotient - 1) * divisor < dividend)
        by (nonlinear_arith)
        requires
            divisor > 0,
            quotient == (dividend + divisor - 1) / divisor,
    ;
    if dividend > 0 {
        assert(quotient > 0) by (nonlinear_arith)
            requires
                divisor > 0,
                dividend > 0,
                dividend <= quotient * divisor,
        ;
    }
}

/// A time on air is refused exactly for a payload of more than 255 bytes, a spreading
/// factor outside 5 to 12, a bandwidth of zero, or a coding rate outside 4/5 to 4/8.
pub proof fn law_airtime_is_refused(
    payload_len: usize,
    spreading_factor: u8,
    bandwidth_hz: u32,
    coding_rate_denominator: u8,
)
    ensures
        airtime::airtime_fault(
            payload_len,
            spreading_factor,
            bandwidth_hz,
            coding_rate_denominator,
        ) is Some <==> (payload_len > 255 || spreading_factor < 5 || spreading_factor > 12
            || bandwidth_hz == 0 || coding_rate_denominator < 5 || coding_rate_denominator > 8),
{
}

/// The messages of refused records show each value behind its own name.
#[verifier::spinoff_prover]
#[verifier::rlimit(30)]
pub proof fn law_messages_show_what_was_found(
    expected: usize,
    actual: usize,
    index: u8,
    count: u8,
    field: &'static str,
    bits: u32,
    sent: u64,
    calculated: u64,
)
    ensures
        text_laws::shows(
            message::error_text(Error::WrongLength { expected, actual }),
            "WrongLength { expected: "@ + text::decimal(expected as nat) + ", actual: "@,
        ),
        text_laws::shows(
            message::error_text(Error::WrongLength { expected, actual }),
            ", actual: "@ + text::decimal(actual as nat) + " }"@,
        ),
        text_laws::shows(
            message::error_text(Error::InvalidMagic([index, count])),
            "InvalidMagic(["@ + text::decimal(index as nat) + ", "@,
        ),
        text_laws::shows(
            message::error_text(Error::InvalidMagic([index, count])),
            ", "@ + text::decimal(count as nat) + "])"@,
        ),
        text_laws::shows(
            message::error_text(Error::UnsupportedVersion(index)),
            "UnsupportedVersion("@ + text::decimal(index as nat) + ")"@,
        ),
        text_laws::shows(
            message::error_text(Error::InvalidFragmentIndex { index, count }),
            "InvalidFragmentIndex { index: "@ + text::decimal(index as nat) + ", count: "@,
        ),
        text_laws::shows(
            message::error_text(Error::InvalidFragmentIndex { index, count }),
            ", count: "@ + text::decimal(count as nat) + " }"@,
        ),
        text_laws::shows(
            message::error_text(Error::UnknownFlags { field, bits }),
            "UnknownFlags { field: "@ + text::debug_of(field@) + ", bits: "@,
        ),
        text_laws::shows(
            message::error_text(Error::UnknownFlags { field, bits }),
            ", bits: "@ + text::decimal(bits as nat) + " }"@,
        ),
        text_laws::shows(
            message::error_text(Error::ConfigIdMismatch { header: sent, calculated }),
            "ConfigIdMismatch { header: "@ + text::decimal(sent as nat) + ", calculated: "@,
        ),
        text_laws::shows(
            message::error_text(Error::ConfigIdMismatch { header: sent, calculated }),
            ", calculated: "@ + text::decimal(calculated as nat) + " }"@,
        ),
{
    let parts = seq![
        "WrongLength { expected: "@,
        text::decimal(expected as nat),
        ", actual: "@,
        text::decimal(actual as nat),
        " }"@,
    ];
    assert(Seq::<char>::empty() + parts[0] =~= parts[0]);
    let message = message::error_text(Error::WrongLength { expected, actual });
    assert(message == text_laws::joined(Seq::empty(), parts, 5)) by {
        reveal_with_fuel(text_laws::joined, 6);
    }
    text_laws::lemma_labelled(Seq::empty(), parts, 5, 0);
    text_laws::lemma_labelled(Seq::empty(), parts, 5, 2);
    let parts = seq![
        "InvalidMagic(["@,
        text::decimal(index as nat),
        ", "@,
        text::decimal(count as nat),
        "])"@,
    ];
    assert(Seq::<char>::empty() + parts[0] =~= parts[0]);
    let message = message::error_text(Error::InvalidMagic([index, count]));
    assert(message == text_laws::joined(Seq::empty(), parts, 5)) by {
        reveal_with_fuel(text_laws::joined, 6);
    }
    text_laws::lemma_labelled(Seq::empty(), parts, 5, 0);
    text_laws::lemma_labelled(Seq::empty(), parts, 5, 2);
    let parts = seq!["UnsupportedVersion("@, text::decimal(index as nat), ")"@];
    assert(Seq::<char>::empty() + parts[0] =~= parts[0]);
    let message = message::error_text(Error::UnsupportedVersion(index));
    assert(message == text_laws::joined(Seq::empty(), parts, 3)) by {
        reveal_with_fuel(text_laws::joined, 4);
    }
    text_laws::lemma_labelled(Seq::empty(), parts, 3, 0);
    let parts = seq![
        "InvalidFragmentIndex { index: "@,
        text::decimal(index as nat),
        ", count: "@,
        text::decimal(count as nat),
        " }"@,
    ];
    assert(Seq::<char>::empty() + parts[0] =~= parts[0]);
    let message = message::error_text(Error::InvalidFragmentIndex { index, count });
    assert(message == text_laws::joined(Seq::empty(), parts, 5)) by {
        reveal_with_fuel(text_laws::joined, 6);
    }
    text_laws::lemma_labelled(Seq::empty(), parts, 5, 0);
    text_laws::lemma_labelled(Seq::empty(), parts, 5, 2);
    let parts = seq![
        "UnknownFlags { field: "@,
        text::debug_of(field@),
        ", bits: "@,
        text::decimal(bits as nat),
        " }"@,
    ];
    assert(Seq::<char>::empty() + parts[0] =~= parts[0]);
    let message = message::error_text(Error::UnknownFlags { field, bits });
    assert(message == text_laws::joined(Seq::empty(), parts, 5)) by {
        reveal_with_fuel(text_laws::joined, 6);
    }
    text_laws::lemma_labelled(Seq::empty(), parts, 5, 0);
    text_laws::lemma_labelled(Seq::empty(), parts, 5, 2);
    let parts = seq![
        "ConfigIdMismatch { header: "@,
        text::decimal(sent as nat),
        ", calculated: "@,
        text::decimal(calculated as nat),
        " }"@,
    ];
    assert(Seq::<char>::empty() + parts[0] =~= parts[0]);
    let message = message::error_text(Error::ConfigIdMismatch { header: sent, calculated });
    assert(message == text_laws::joined(Seq::empty(), parts, 5)) by {
        reveal_with_fuel(text_laws::joined, 6);
    }
    text_laws::lemma_labelled(Seq::empty(), parts, 5, 0);
    text_laws::lemma_labelled(Seq::empty(), parts, 5, 2);
}

/// Every record is sent with the common fields as they were given. A configuration is
/// sent under the hash of its own payload and with the repeat flag exactly where it is
/// repeated, and only a fragment has other coordinates than the first of one.
pub proof fn law_records_are_sent_with_the_common_fields(
    common: Common,
    config: DeviceConfig,
    repeated: bool,
    report: DeviceHealth,
    scan: ProfileScan,
    fragment_index: u8,
)
    ensures
        ({
            let sent = config::config_header(common, config, repeated);
            &&& sent.frame_type is DeviceConfig
            &&& sent.fragment_index == 0
            &&& sent.fragment_count == 1
            &&& sent.common.node_id == common.node_id
            &&& sent.common.boot_id == common.boot_id
            &&& sent.common.scan_sequence == common.scan_sequence
            &&& sent.common.uptime_ms == common.uptime_ms
            &&& sent.common.reset_cause_flags == common.reset_cause_flags
            &&& sent.common.config_id == hash::fnv1a64_of(config::config_bytes(config))
            &&& repeated ==> sent.common.flags & 0x04 != 0
            &&& sent.common.flags & 0xfb == common.flags & 0xfb
            &&& !repeated ==> sent.common.flags == common.flags
        }),
        ({
            let sent = health::health_header(common, report);
            &&& sent.frame_type is DeviceHealth
            &&& sent.fragment_index == 0
            &&& sent.fragment_count == 1
            &&& sent.common == common
        }),
        ({
            let sent = profile::fragment_of(common, scan, fragment_index).header;
            &&& sent.frame_type is ProfileFragment
            &&& sent.fragment_index == fragment_index
            &&& 1 <= scan.expected_step_count <= 10 ==> 3 * sent.fragment_count - 3
                < scan.expected_step_count <= 3 * sent.fragment_count
            &&& sent.common == common
        }),
{
    let flags = common.flags;
    assert((flags | 0x04) & 0x04 != 0 && (flags | 0x04) & 0xfb == flags & 0xfb) by (bit_vector);
}

/// Taking one setting of an accepted configuration out of its range has the configuration
/// refused under the name of that setting.
#[verifier::spinoff_prover]
pub proof fn law_refused_setting_is_named(config: DeviceConfig, byte: u8, word: u16)
    requires
        config::config_fault(config) is None,
    ensures
        byte == 0 ==> config::config_fault(
            (DeviceConfig { output_routes: byte, ..config }),
        ) == Some(Error::InvalidField("output_routes")),
        word == 0 ==> config::config_fault(
            (DeviceConfig { profile_id: word, ..config }),
        ) == Some(Error::InvalidField("profile_identity")),
        word == 0 ==> config::config_fault(
            (DeviceConfig { profile_version: word, ..config }),
        ) == Some(Error::InvalidField("profile_identity")),
        byte != 0 && byte != 1 && byte != 255 ==> config::config_fault(
            (DeviceConfig { sensor_variant: byte, ..config }),
        ) == Some(Error::InvalidField("sensor_variant")),
        byte > 5 ==> config::config_fault(
            (DeviceConfig { temperature_oversampling: byte, ..config }),
        ) == Some(Error::InvalidField("oversampling")),
        byte > 5 ==> config::config_fault(
            (DeviceConfig { humidity_oversampling: byte, ..config }),
        ) == Some(Error::InvalidField("oversampling")),
        byte > 5 ==> config::config_fault(
            (DeviceConfig { pressure_oversampling: byte, ..config }),
        ) == Some(Error::InvalidField("oversampling")),
        byte > 7 ==> config::config_fault(
            (DeviceConfig { iir_filter: byte, ..config }),
        ) == Some(Error::InvalidField("iir_filter")),
        byte > 8 ==> config::config_fault(
            (DeviceConfig { standby_time: byte, ..config }),
        ) == Some(Error::InvalidField("standby_time")),
        (byte < 1 || byte > 3) ==> config::config_fault(
            (DeviceConfig { operation_mode: byte, ..config }),
        ) == Some(Error::InvalidField("operation_mode")),
        (byte < 1 || byte > 10) ==> config::config_fault(
            (DeviceConfig { expected_step_count: byte, ..config }),
        ) == Some(Error::InvalidField("expected_step_count")),
        byte > 1 ==> config::config_fault(
            (DeviceConfig { heater_enabled: byte, ..config }),
        ) == Some(Error::InvalidField("boolean")),
        byte > 1 ==> config::config_fault(
            (DeviceConfig { radio_phy_crc_enabled: byte, ..config }),
        ) == Some(Error::InvalidField("boolean")),
        byte > 1 ==> config::config_fault(
            (DeviceConfig { radio_iq_inverted: byte, ..config }),
        ) == Some(Error::InvalidField("boolean")),
        byte > 1 ==> config::config_fault(
            (DeviceConfig { radio_header_mode: byte, ..config }),
        ) == Some(Error::InvalidField("boolean")),
        byte != 3 ==> config::config_fault(
            (DeviceConfig { profile_steps_per_fragment: byte, ..config }),
        ) == Some(Error::InvalidField("profile_steps_per_fragment")),
        byte != 231 ==> config::config_fault(
            (DeviceConfig { max_frame_len: byte, ..config }),
        ) == Some(Error::InvalidField("max_frame_len")),
        (byte < 5 || byte > 12) ==> config::config_fault(
            (DeviceConfig { radio_spreading_factor: byte, ..config }),
        ) == Some(Error::InvalidField("radio_spreading_factor")),
        byte != 4 ==> config::config_fault(
            (DeviceConfig { radio_coding_rate_numerator: byte, ..config }),
        ) == Some(Error::InvalidField("radio_coding_rate")),
        (byte < 5 || byte > 8) ==> config::config_fault(
            (DeviceConfig { radio_coding_rate_denominator: byte, ..config }),
        ) == Some(Error::InvalidField("radio_coding_rate")),
        word == 0 ==> config::config_fault(
            (DeviceConfig { radio_preamble_symbols: word, ..config }),
        ) == Some(Error::InvalidField("radio_preamble_symbols")),
        config::config_fault((DeviceConfig { radio_bandwidth_hz: 0, ..config })) == Some(
            Error::InvalidField("radio_bandwidth_hz"),
        ),
        byte & 0xfc != 0 ==> config::config_fault((DeviceConfig { flags: byte, ..config })) == Some(
            Error::UnknownFlags { field: "config_flags", bits: (byte & 0xfc) as u32 },
        ),
{
    lemma_unknown_bits();
    assert(0u8 & 0xf8 == 0) by (bit_vector);
}

/// Taking one value of a scan that is sent out of its range has the scan refused under
/// the name of that value.
#[verifier::spinoff_prover]
pub proof fn law_refused_value_is_named(scan: ProfileScan, byte: u8, word: u16)
    requires
        profile::profile_fault(scan) is None,
    ensures
        word == 0 ==> profile::profile_fault(
            (ProfileScan { profile_id: word, ..scan }),
        ) == Some(Error::InvalidField("profile_identity")),
        word == 0 ==> profile::profile_fault(
            (ProfileScan { profile_version: word, ..scan }),
        ) == Some(Error::InvalidField("profile_identity")),
        (byte < 1 || byte > 10) ==> profile::profile_fault(
            (ProfileScan { expected_step_count: byte, ..scan }),
        ) == Some(Error::InvalidField("expected_step_count")),
        byte > 4 ==> profile::profile_fault(
            (ProfileScan { finish_reason: byte, ..scan }),
        ) == Some(Error::InvalidField("finish_reason")),
        byte != scan.observed_unique_step_count ==> profile::profile_fault(
            (ProfileScan { observed_unique_step_count: byte, ..scan }),
        ) == Some(Error::InvalidField("observed_unique_step_count")),
        word < scan.observed_unique_step_count ==> profile::profile_fault(
            (ProfileScan { observed_field_count: word, ..scan }),
        ) == Some(Error::InvalidField("observed_field_count")),
{
}

/// The steps of a fragment that decodes are those of its window that the scan does not
/// report missing, in ascending order: none outside the window, none that is missing,
/// and none left out.
#[verifier::spinoff_prover]
pub proof fn law_fragments_hold_their_window(fragment: FragmentModel, k: int, index: int)
    requires
        profile::fragment_valid(fragment),
    ensures
        0 <= k < fragment.steps.len() ==> {
            let step = fragment.steps[k].step_index;
            &&& 3 * fragment.header.fragment_index <= step
            &&& step < 3 * fragment.header.fragment_index + 3
            &&& step < fragment.summary.expected_step_count
            &&& !checks::has_bit(fragment.summary.missing_steps_bitmap, step as int)
            &&& k + 1 < fragment.steps.len() ==> step < fragment.steps[k + 1].step_index
        },
        3 * fragment.header.fragment_index <= index < 3 * fragment.header.fragment_index + 3
            && index < fragment.summary.expected_step_count && !checks::has_bit(
            fragment.summary.missing_steps_bitmap,
            index,
        ) ==> exists|l: int|
            0 <= l < fragment.steps.len() && (#[trigger] fragment.steps[l]).step_index == index,
{
    let missing = fragment.summary.missing_steps_bitmap;
    let from = profile::window_start_of(fragment.header.fragment_index);
    let to = profile::window_end_of(
        fragment.header.fragment_index,
        fragment.summary.expected_step_count,
    );
    lemma_window(fragment.steps, missing, from, to, index);
}

proof fn lemma_window(steps: Seq<ProfileStep>, missing: u16, from: int, to: int, index: int)
    requires
        from <= to,
        profile::window_fault(steps, missing, from, to) is None,
        profile::present_count(missing, from, to) <= steps.len(),
    ensures
        profile::present_count(missing, from, to) >= 0,
        forall|k: int|
            0 <= k < profile::present_count(missing, from, to) ==> from <= (
            #[trigger] steps[k]).step_index < to && !checks::has_bit(
                missing,
                steps[k].step_index as int,
            ),
        forall|k: int, l: int|
            0 <= k < l < profile::present_count(missing, from, to) ==> (
            #[trigger] steps[k]).step_index < (#[trigger] steps[l]).step_index,
        from <= index < to && !checks::has_bit(missing, index) ==> exists|l: int|
            0 <= l < profile::present_count(missing, from, to) && (
            #[trigger] steps[l]).step_index == index,
    decreases to - from,
{
    if from < to {
        lemma_window(steps, missing, from, to - 1, index);
        if !checks::has_bit(missing, to - 1) {
            let last = profile::present_count(missing, from, to - 1);
            assert(steps[last].step_index == to - 1);
        }
    }
}

/// A configuration has an ID exactly if it is accepted and the hash of its payload is
/// not the reserved zero, and then the ID is that hash. It is sent exactly if it has an
/// ID and the common fields are sent.
pub proof fn law_configuration_is_sent(common: Common, config: DeviceConfig, repeated: bool)
    ensures
        config::config_id_of(config) is Ok <==> config::config_fault(config) is None
            && hash::fnv1a64_of(config::config_bytes(config)) != 0,
        config::config_id_of(config) matches Ok(id) ==> id == hash::fnv1a64_of(
            config::config_bytes(config),
        ) && id != 0,
        config::encoded_config(common, config, repeated) is Ok <==> {
            let sent = config::config_header(common, config, repeated).common;
            &&& config::config_fault(config) is None
            &&& hash::fnv1a64_of(config::config_bytes(config)) != 0
            &&& sent.flags & 0xf8 == 0
            &&& sent.flags & 0x02 != 0 ==> sent.flags & 0x01 != 0
            &&& sent.flags & 0x01 == 0 ==> sent.boot_id == 0
            &&& sent.reset_cause_flags & 0xff00 == 0
        },
{
    law_common_fields_are_sent(config::config_header(common, config, repeated).common);
}

/// A health report is sent exactly if its flags are known and agree with the common
/// fields on the boot nonce, its profile identity agrees with the configuration, and the
/// common fields are sent.
pub proof fn law_health_is_sent(common: Common, report: DeviceHealth)
    ensures
        health::encoded_health(common, report) is Ok <==> {
            &&& report.flags & 0xc0 == 0
            &&& report.flags & 0x02 != 0 <==> common.flags & 0x01 == 0
            &&& report.profile_id == 0 <==> report.profile_version == 0
            &&& report.profile_id == 0 ==> common.config_id == 0
            &&& report.profile_id != 0 && common.config_id == 0 ==> report.flags & 0x04 != 0
            &&& common.flags & 0xf8 == 0
            &&& common.flags & 0x02 != 0 ==> common.flags & 0x01 != 0
            &&& common.flags & 0x01 == 0 ==> common.boot_id == 0
            &&& common.reset_cause_flags & 0xff00 == 0
        },
{
    lemma_unknown_bits();
    law_common_fields_are_sent(common);
}

} // verus!
