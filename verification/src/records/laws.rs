//! What holds of validated records as a whole.

use vstd::prelude::*;

use crate::records;
use crate::records::{DeviceConfiguration, ProfileScan, ProfileStep, RecordError};
use crate::text;
use crate::text::laws as text_laws;
use crate::v2::checks;

verus! {

/// The full bitmap of a count has exactly the bits below the count, and a bitmap
/// equals it only if it has each of them and no other.
pub proof fn law_full_bitmap_has_the_bits_below_the_count(count: u8, bitmap: u16)
    ensures
        forall|i: int|
            0 <= i < 16 ==> #[trigger] checks::has_bit(records::full_bitmap(count), i) == (i
                < count),
        bitmap == records::full_bitmap(count) <==> forall|i: int|
            0 <= i < 16 ==> #[trigger] checks::has_bit(bitmap, i) == (i < count),
{
    assert forall|i: int| 0 <= i < 16 implies #[trigger] checks::has_bit(
        records::full_bitmap(count),
        i,
    ) == (i < count) by {
        if count >= 16 {
            let k = i as u16;
            assert(0xffffu16 & (1u16 << k) != 0) by (bit_vector)
                requires
                    k < 16,
            ;
        } else {
            checks::lemma_mask_bits(count, i);
        }
    }
    if forall|i: int| 0 <= i < 16 ==> #[trigger] checks::has_bit(bitmap, i) == (i < count) {
        assert forall|i: int| 0 <= i < 16 implies #[trigger] checks::has_bit(bitmap, i)
            == checks::has_bit(records::full_bitmap(count), i) by {}
        checks::lemma_bits_determine(bitmap, records::full_bitmap(count));
    }
}

/// A bit of the missing fragments is set exactly where a fragment is expected and was
/// not obtained, so that none is missing exactly if the transport is complete.
pub proof fn law_missing_fragments_are_those_not_obtained(scan: ProfileScan)
    ensures
        ({
            let full = records::full_bitmap(scan.expected_fragment_count);
            let missing = full & !scan.received_fragment_bitmap;
            &&& forall|i: int|
                0 <= i < 16 ==> #[trigger] checks::has_bit(missing, i) == (i
                    < scan.expected_fragment_count && !checks::has_bit(
                    scan.received_fragment_bitmap,
                    i,
                ))
            &&& scan.received_fragment_bitmap == full ==> missing == 0
        }),
{
    let full = records::full_bitmap(scan.expected_fragment_count);
    let received = scan.received_fragment_bitmap;
    law_full_bitmap_has_the_bits_below_the_count(scan.expected_fragment_count, received);
    assert forall|i: int| 0 <= i < 16 implies #[trigger] checks::has_bit(full & !received, i) == (i
        < scan.expected_fragment_count && !checks::has_bit(received, i)) by {
        let k = i as u16;
        assert(((full & !received) & (1u16 << k) != 0) == (full & (1u16 << k) != 0 && received & (
        1u16 << k) == 0)) by (bit_vector)
            requires
                k < 16,
        ;
        assert(checks::has_bit(full, i) == (i < scan.expected_fragment_count));
    }
    assert(full & !full == 0) by (bit_vector);
}

/// A bit of the unavailable steps is set exactly where a step is expected and none of
/// the decoded steps is at that position, so that where no step is unavailable every
/// expected one was decoded.
pub proof fn law_unavailable_steps_are_those_not_decoded(scan: ProfileScan, index: int)
    requires
        0 <= index < 16,
    ensures
        checks::has_bit(records::unavailable_steps(scan), index) == (index < scan.expected_steps
            && !exists|k: int|
            0 <= k < scan.steps@.len() && (#[trigger] scan.steps@[k]).step_index == index),
        records::unavailable_steps(scan) == 0 && index < scan.expected_steps ==> exists|k: int|
            0 <= k < scan.steps@.len() && (#[trigger] scan.steps@[k]).step_index == index,
{
    let missing = |i: int| i < scan.expected_steps && !records::holds_step(scan.steps@, i);
    checks::lemma_bitmap_where(missing, 16, index);
    checks::lemma_no_bits_of_zero(index);
    assert(records::holds_step(scan.steps@, index) <==> exists|k: int|
        0 <= k < scan.steps@.len() && (#[trigger] scan.steps@[k]).step_index == index);
}

/// A scan is valid exactly if it expects one to ten steps in a third as many fragments,
/// names no step or fragment beyond them, decoded each step at most once and only out
/// of fragments that were obtained, lacks of those fragments exactly the steps that
/// firmware reported missing, and counts its steps and fields accordingly.
#[verifier::spinoff_prover]
pub proof fn law_scan_is_valid(scan: ProfileScan)
    ensures
        records::scan_fault(scan) is None <==> {
            &&& 1 <= scan.expected_steps <= 10
            &&& scan.expected_fragment_count == (scan.expected_steps + 2) / 3
            &&& forall|i: int|
                0 <= i < 16 && #[trigger] checks::has_bit(scan.reported_missing_steps, i) ==> i
                    < scan.expected_steps
            &&& forall|i: int|
                0 <= i < 16 && #[trigger] checks::has_bit(scan.received_fragment_bitmap, i) ==> 3
                    * i < scan.expected_steps
            &&& forall|k: int|
                0 <= k < scan.steps@.len() ==> (#[trigger] scan.steps@[k]).step_index
                    < scan.expected_steps && checks::has_bit(
                    scan.received_fragment_bitmap,
                    scan.steps@[k].step_index as int / 3,
                )
            &&& forall|k: int, l: int|
                0 <= k < l < scan.steps@.len() ==> (#[trigger] scan.steps@[k]).step_index != (
                #[trigger] scan.steps@[l]).step_index
            &&& forall|i: int|
                0 <= i < scan.expected_steps && checks::has_bit(
                    scan.received_fragment_bitmap,
                    i / 3,
                ) ==> #[trigger] checks::has_bit(scan.reported_missing_steps, i)
                    == !records::holds_step(scan.steps@, i)
            &&& scan.observed_unique_steps + checks::set_bits(
                scan.reported_missing_steps,
                scan.expected_steps as int,
            ) == scan.expected_steps
            &&& scan.observed_field_count >= scan.observed_unique_steps
        },
{
    let expected = scan.expected_steps;
    let missing = scan.reported_missing_steps;
    let received = scan.received_fragment_bitmap;
    let steps = scan.steps@;
    let count = steps.len() as int;
    if 1 <= expected <= 10 {
        lemma_mask_is_a_bound(missing, expected);
        if scan.expected_fragment_count == (expected + 2) / 3 {
            lemma_mask_is_a_bound(received, scan.expected_fragment_count);
            lemma_no_measurement_fault(scan, count);
            lemma_heads_hold_nothing_twice(steps);
            lemma_accountable(scan);
        }
    }
}

proof fn lemma_mask_is_a_bound(bitmap: u16, count: u8)
    requires
        count <= 15,
    ensures
        bitmap & !checks::step_mask_of(count) == 0 <==> forall|i: int|
            0 <= i < 16 && #[trigger] checks::has_bit(bitmap, i) ==> i < count,
{
    if bitmap & !checks::step_mask_of(count) == 0 {
        assert forall|i: int| 0 <= i < 16 && #[trigger] checks::has_bit(bitmap, i) implies i
            < count by {
            checks::lemma_within_mask(bitmap, count, i);
        }
    }
    if forall|i: int| 0 <= i < 16 && #[trigger] checks::has_bit(bitmap, i) ==> i < count {
        checks::lemma_mask_covers(bitmap, count);
    }
}

proof fn lemma_bit_outside_mask(bitmap: u16, count: u8) -> (index: int)
    requires
        count <= 15,
        bitmap & !checks::step_mask_of(count) != 0,
    ensures
        count <= index < 16,
        checks::has_bit(bitmap, index),
{
    lemma_mask_is_a_bound(bitmap, count);
    choose|i: int| count <= i < 16 && #[trigger] checks::has_bit(bitmap, i)
}

proof fn lemma_no_measurement_fault(scan: ProfileScan, count: int)
    requires
        0 <= count <= scan.steps@.len(),
    ensures
        records::measurements_fault(scan, count) is None <==> forall|k: int|
            0 <= k < count ==> (#[trigger] scan.steps@[k]).step_index < scan.expected_steps
                && !records::holds_step(scan.steps@.take(k), scan.steps@[k].step_index as int)
                && checks::has_bit(
                scan.received_fragment_bitmap,
                scan.steps@[k].step_index as int / 3,
            ),
    decreases count,
{
    if count > 0 {
        lemma_no_measurement_fault(scan, count - 1);
        let last = scan.steps@[count - 1];
        assert(records::measurement_fault(scan, count - 1) is None <==> last.step_index
            < scan.expected_steps && !records::holds_step(
            scan.steps@.take(count - 1),
            last.step_index as int,
        ) && checks::has_bit(scan.received_fragment_bitmap, last.step_index as int / 3));
    }
}

proof fn lemma_heads_hold_nothing_twice(steps: Seq<ProfileStep>)
    ensures
        (forall|k: int|
            0 <= k < steps.len() ==> !records::holds_step(
                steps.take(k),
                (#[trigger] steps[k]).step_index as int,
            )) <==> forall|k: int, l: int|
            0 <= k < l < steps.len() ==> (#[trigger] steps[k]).step_index != (
            #[trigger] steps[l]).step_index,
{
    if forall|k: int|
        0 <= k < steps.len() ==> !records::holds_step(
            steps.take(k),
            (#[trigger] steps[k]).step_index as int,
        ) {
        assert forall|k: int, l: int| 0 <= k < l < steps.len() implies (
        #[trigger] steps[k]).step_index != (#[trigger] steps[l]).step_index by {
            assert(steps.take(l)[k] == steps[k]);
        }
    }
    if forall|k: int, l: int|
        0 <= k < l < steps.len() ==> (#[trigger] steps[k]).step_index != (
        #[trigger] steps[l]).step_index {
        assert forall|l: int| 0 <= l < steps.len() implies !records::holds_step(
            steps.take(l),
            (#[trigger] steps[l]).step_index as int,
        ) by {
            let head = steps.take(l);
            if records::holds_step(head, steps[l].step_index as int) {
                let k = choose|k: int|
                    0 <= k < head.len() && (#[trigger] head[k]).step_index == steps[l].step_index;
                assert(head[k] == steps[k]);
            }
        }
    }
}

proof fn lemma_accountable(scan: ProfileScan)
    requires
        1 <= scan.expected_steps <= 10,
    ensures
        ({
            let missing = scan.reported_missing_steps;
            let bounded = forall|i: int|
                0 <= i < 16 && #[trigger] checks::has_bit(missing, i) ==> i < scan.expected_steps;
            bounded ==> (records::accountable_missing_steps(scan) == missing <==> forall|i: int|
                0 <= i < scan.expected_steps && checks::has_bit(
                    scan.received_fragment_bitmap,
                    i / 3,
                ) ==> #[trigger] checks::has_bit(missing, i) == !records::holds_step(
                    scan.steps@,
                    i,
                ))
        }),
{
    let missing = scan.reported_missing_steps;
    let accountable = |i: int|
        i < scan.expected_steps && (if checks::has_bit(scan.received_fragment_bitmap, i / 3) {
            !records::holds_step(scan.steps@, i)
        } else {
            checks::has_bit(scan.reported_missing_steps, i)
        });
    let computed = checks::bitmap_where(accountable, 16);
    assert(computed == records::accountable_missing_steps(scan));
    assert forall|i: int| 0 <= i < 16 implies #[trigger] checks::has_bit(computed, i)
        == accountable(i) by {
        checks::lemma_bitmap_where(accountable, 16, i);
    }
    let bounded = forall|i: int|
        0 <= i < 16 && #[trigger] checks::has_bit(missing, i) ==> i < scan.expected_steps;
    let agrees = forall|i: int|
        0 <= i < scan.expected_steps && checks::has_bit(scan.received_fragment_bitmap, i / 3)
            ==> #[trigger] checks::has_bit(missing, i) == !records::holds_step(scan.steps@, i);
    if bounded && agrees {
        assert forall|i: int| 0 <= i < 16 implies #[trigger] checks::has_bit(computed, i)
            == checks::has_bit(missing, i) by {
            assert(checks::has_bit(computed, i) == accountable(i));
        }
        checks::lemma_bits_determine(computed, missing);
    }
    if bounded && computed == missing {
        assert forall|i: int|
            0 <= i < scan.expected_steps && checks::has_bit(scan.received_fragment_bitmap, i / 3)
            implies #[trigger] checks::has_bit(missing, i) == !records::holds_step(
            scan.steps@,
            i,
        ) by {
            assert(checks::has_bit(computed, i) == accountable(i));
        }
    }
}

/// Of a valid scan whose every fragment was obtained, firmware acquired exactly as many
/// distinct steps as were decoded.
pub proof fn law_complete_scans_hold_the_observed_steps(scan: ProfileScan)
    requires
        records::scan_fault(scan) is None,
        forall|i: int|
            0 <= i < scan.expected_fragment_count ==> #[trigger] checks::has_bit(
                scan.received_fragment_bitmap,
                i,
            ),
    ensures
        scan.steps@.len() == scan.observed_unique_steps,
{
    law_scan_is_valid(scan);
    let expected = scan.expected_steps as int;
    let indices = scan.steps@.map(|k: int, step: ProfileStep| step.step_index as int);
    assert(indices.no_duplicates()) by {
        assert forall|k: int, l: int|
            0 <= k < indices.len() && 0 <= l < indices.len() && k != l implies indices[k]
            != indices[l] by {
            if k < l {
                assert(scan.steps@[k].step_index != scan.steps@[l].step_index);
            } else {
                assert(scan.steps@[l].step_index != scan.steps@[k].step_index);
            }
        }
    }
    indices.unique_seq_to_set();
    let present = present_positions(scan.reported_missing_steps, expected);
    lemma_present_positions(scan.reported_missing_steps, expected);
    assert forall|i: int| indices.to_set().contains(i) == present.contains(i) by {
        if present.contains(i) {
            assert(checks::has_bit(scan.received_fragment_bitmap, i / 3));
            assert(checks::has_bit(scan.reported_missing_steps, i) == !records::holds_step(
                scan.steps@,
                i,
            ));
            let k = choose|k: int|
                0 <= k < scan.steps@.len() && (#[trigger] scan.steps@[k]).step_index == i;
            assert(indices[k] == i);
        }
        if indices.to_set().contains(i) {
            let k = choose|k: int| 0 <= k < indices.len() && indices[k] == i;
            assert(scan.steps@[k].step_index == i);
            assert(records::holds_step(scan.steps@, i));
            assert(checks::has_bit(scan.reported_missing_steps, i) == !records::holds_step(
                scan.steps@,
                i,
            ));
        }
    }
    assert(indices.to_set() =~= present);
}

spec fn present_positions(missing: u16, count: int) -> Set<int> {
    Set::new(|i: int| 0 <= i < count && !checks::has_bit(missing, i))
}

proof fn lemma_present_positions(missing: u16, count: int)
    requires
        0 <= count,
    ensures
        present_positions(missing, count).finite(),
        present_positions(missing, count).len() == count - checks::set_bits(missing, count),
    decreases count,
{
    let here = present_positions(missing, count);
    if count > 0 {
        lemma_present_positions(missing, count - 1);
        let before = present_positions(missing, count - 1);
        if checks::has_bit(missing, count - 1) {
            assert(here =~= before);
        } else {
            assert(here =~= before.insert(count - 1));
        }
    } else {
        assert(here =~= Set::empty());
    }
}

/// The fault of a scan names what is wrong with it: the value out of range with the
/// bound that it breaks, the first step that is out of range, repeated or without its
/// fragment, or the reported count beside the one that was found.
#[verifier::spinoff_prover]
pub proof fn law_scan_faults_name_what_is_wrong(scan: ProfileScan)
    ensures
        records::scan_fault(scan) matches Some(RecordError::InvalidExpectedSteps(count)) ==> count
            == scan.expected_steps && !(1 <= count <= 10),
        records::scan_fault(scan) matches Some(
            RecordError::MissingBitmapOutOfRange { bitmap, expected_steps },
        ) ==> bitmap == scan.reported_missing_steps && expected_steps == scan.expected_steps
            && exists|i: int|
            scan.expected_steps <= i < 16 && #[trigger] checks::has_bit(
                scan.reported_missing_steps,
                i,
            ),
        records::scan_fault(scan) matches Some(
            RecordError::InvalidFragmentCount { count, expected_steps },
        ) ==> count == scan.expected_fragment_count && expected_steps == scan.expected_steps && !(3
            * count - 2 <= expected_steps <= 3 * count),
        records::scan_fault(scan) matches Some(
            RecordError::FragmentBitmapOutOfRange { bitmap, expected_fragments },
        ) ==> bitmap == scan.received_fragment_bitmap && expected_fragments
            == scan.expected_fragment_count && exists|i: int|
            scan.expected_fragment_count <= i < 16 && #[trigger] checks::has_bit(
                scan.received_fragment_bitmap,
                i,
            ),
        records::scan_fault(scan) matches Some(
            RecordError::StepIndexOutOfRange { index, expected_steps },
        ) ==> expected_steps == scan.expected_steps && index >= expected_steps
            && records::holds_step(scan.steps@, index as int),
        records::scan_fault(scan) matches Some(RecordError::DuplicateStepIndex(index))
            ==> exists|k: int, l: int|
            0 <= k < l < scan.steps@.len() && (#[trigger] scan.steps@[k]).step_index == index && (
            #[trigger] scan.steps@[l]).step_index == index,
        records::scan_fault(scan) matches Some(
            RecordError::StepWithoutFragment { index, fragment_index },
        ) ==> fragment_index == index / 3 && records::holds_step(scan.steps@, index as int)
            && !checks::has_bit(scan.received_fragment_bitmap, fragment_index as int),
        records::scan_fault(scan) matches Some(
            RecordError::MissingBitmapMismatch { reported, computed },
        ) ==> reported == scan.reported_missing_steps && reported != computed,
        records::scan_fault(scan) matches Some(
            RecordError::ObservedStepsMismatch { reported, computed },
        ) ==> reported == scan.observed_unique_steps && reported != computed && computed
            + checks::set_bits(scan.reported_missing_steps, scan.expected_steps as int)
            == scan.expected_steps,
        records::scan_fault(scan) matches Some(
            RecordError::ObservedFieldsTooFew { fields, unique_steps },
        ) ==> fields == scan.observed_field_count && unique_steps == scan.observed_unique_steps
            && fields < unique_steps,
{
    let expected = scan.expected_steps;
    let missing = scan.reported_missing_steps;
    let received = scan.received_fragment_bitmap;
    if 1 <= expected <= 10 {
        checks::lemma_set_bits_range(missing, expected as int);
        if missing & !checks::step_mask_of(expected) != 0 {
            let i = lemma_bit_outside_mask(missing, expected);
            assert(checks::has_bit(missing, i));
        } else if scan.expected_fragment_count == (expected + 2) / 3 {
            if received & !checks::step_mask_of(scan.expected_fragment_count) != 0 {
                let i = lemma_bit_outside_mask(received, scan.expected_fragment_count);
                assert(checks::has_bit(received, i));
            } else {
                lemma_first_measurement_fault(scan, scan.steps@.len() as int);
            }
        }
    }
}

proof fn lemma_first_measurement_fault(scan: ProfileScan, count: int)
    requires
        0 <= count <= scan.steps@.len(),
    ensures
        match records::measurements_fault(scan, count) {
            None => true,
            Some(RecordError::StepIndexOutOfRange { index, expected_steps }) => expected_steps
                == scan.expected_steps && index >= expected_steps && records::holds_step(
                scan.steps@,
                index as int,
            ),
            Some(RecordError::DuplicateStepIndex(index)) => exists|k: int, l: int|
                0 <= k < l < scan.steps@.len() && (#[trigger] scan.steps@[k]).step_index == index
                    && (#[trigger] scan.steps@[l]).step_index == index,
            Some(RecordError::StepWithoutFragment { index, fragment_index }) => fragment_index
                == index / 3 && records::holds_step(scan.steps@, index as int) && !checks::has_bit(
                scan.received_fragment_bitmap,
                fragment_index as int,
            ),
            Some(_) => false,
        },
    decreases count,
{
    if count > 0 {
        lemma_first_measurement_fault(scan, count - 1);
        let l = count - 1;
        let index = scan.steps@[l].step_index;
        let head = scan.steps@.take(l);
        if records::holds_step(head, index as int) {
            let k = choose|k: int| 0 <= k < head.len() && (#[trigger] head[k]).step_index == index;
            assert(head[k] == scan.steps@[k]);
            assert(scan.steps@[k].step_index == index && scan.steps@[l].step_index == index);
        }
    }
}

/// A configuration is valid exactly if it holds one to ten heater steps, as many as it
/// says, each at its own index.
pub proof fn law_configuration_is_valid(configuration: DeviceConfiguration)
    ensures
        records::configuration_fault(configuration) is None <==> {
            &&& 1 <= configuration.heater_steps@.len() <= 10
            &&& configuration.expected_step_count == configuration.heater_steps@.len()
            &&& forall|i: int|
                0 <= i < configuration.heater_steps@.len()
                    ==> #[trigger] configuration.heater_steps@[i].step_index == i
        },
        records::configuration_fault(configuration) matches Some(
            RecordError::ConfigurationStepOrder { position, step_index },
        ) ==> position < configuration.heater_steps@.len() && step_index
            == configuration.heater_steps@[position as int].step_index && step_index != position
            && forall|i: int|
            0 <= i < position ==> #[trigger] configuration.heater_steps@[i].step_index == i,
{
    lemma_step_order(configuration, configuration.heater_steps@.len() as int);
}

proof fn lemma_step_order(configuration: DeviceConfiguration, count: int)
    requires
        0 <= count <= configuration.heater_steps@.len(),
    ensures
        ({
            let steps = configuration.heater_steps@;
            &&& records::step_order_fault(steps, count) is None <==> forall|i: int|
                0 <= i < count ==> #[trigger] steps[i].step_index == i
            &&& count <= 10 ==> match records::step_order_fault(steps, count) {
                None => true,
                Some(RecordError::ConfigurationStepOrder { position, step_index }) => position
                    < count && step_index == steps[position as int].step_index && step_index
                    != position && forall|i: int|
                    0 <= i < position ==> #[trigger] steps[i].step_index == i,
                Some(_) => false,
            }
        }),
    decreases count,
{
    if count > 0 {
        lemma_step_order(configuration, count - 1);
        let last = configuration.heater_steps@[count - 1];
        assert(configuration.heater_steps@[count - 1].step_index == last.step_index);
    }
}

/// The messages of structural faults show each value behind its own words: what was
/// reported behind the word for it, and what it exceeds or differs from behind those.
#[verifier::spinoff_prover]
#[verifier::rlimit(30)]
pub proof fn law_messages_show_what_was_found(
    a: u8,
    b: u8,
    bitmap: u16,
    other: u16,
)
    ensures
        text_laws::shows(
            records::record_error_text(RecordError::InvalidExpectedSteps(a)),
            "invalid expected heater-step count "@ + text::decimal(a as nat),
        ),
        text_laws::shows(
            records::record_error_text(
                RecordError::MissingBitmapOutOfRange { bitmap, expected_steps: a },
            ),
            "missing-step bitmap 0x"@ + text::hex_digits(bitmap as nat, 4) + " exceeds "@,
        ),
        text_laws::shows(
            records::record_error_text(
                RecordError::MissingBitmapOutOfRange { bitmap, expected_steps: a },
            ),
            " exceeds "@ + text::decimal(a as nat) + " expected steps"@,
        ),
        text_laws::shows(
            records::record_error_text(
                RecordError::StepIndexOutOfRange { index: a, expected_steps: b },
            ),
            "heater-step index "@ + text::decimal(a as nat) + " exceeds "@,
        ),
        text_laws::shows(
            records::record_error_text(
                RecordError::StepIndexOutOfRange { index: a, expected_steps: b },
            ),
            " exceeds "@ + text::decimal(b as nat) + " expected steps"@,
        ),
        text_laws::shows(
            records::record_error_text(RecordError::DuplicateStepIndex(a)),
            "duplicate heater-step index "@ + text::decimal(a as nat),
        ),
        text_laws::shows(
            records::record_error_text(
                RecordError::ConfigurationStepOrder { position: a, step_index: b },
            ),
            "heater-step at profile position "@ + text::decimal(a as nat) + " declares index "@,
        ),
        text_laws::shows(
            records::record_error_text(
                RecordError::ConfigurationStepOrder { position: a, step_index: b },
            ),
            " declares index "@ + text::decimal(b as nat),
        ),
        text_laws::shows(
            records::record_error_text(
                RecordError::MissingBitmapMismatch { reported: bitmap, computed: other },
            ),
            "reported missing-step bitmap 0x"@ + text::hex_digits(bitmap as nat, 4)
                + " differs from decoded bitmap 0x"@,
        ),
        text_laws::shows(
            records::record_error_text(
                RecordError::MissingBitmapMismatch { reported: bitmap, computed: other },
            ),
            " differs from decoded bitmap 0x"@ + text::hex_digits(other as nat, 4),
        ),
        text_laws::shows(
            records::record_error_text(
                RecordError::InvalidFragmentCount { count: a, expected_steps: b },
            ),
            "radio-fragment count "@ + text::decimal(a as nat) + " does not carry "@,
        ),
        text_laws::shows(
            records::record_error_text(
                RecordError::InvalidFragmentCount { count: a, expected_steps: b },
            ),
            " does not carry "@ + text::decimal(b as nat) + " expected steps"@,
        ),
        text_laws::shows(
            records::record_error_text(
                RecordError::FragmentBitmapOutOfRange { bitmap, expected_fragments: a },
            ),
            "received-fragment bitmap 0x"@ + text::hex_digits(bitmap as nat, 4) + " exceeds "@,
        ),
        text_laws::shows(
            records::record_error_text(
                RecordError::FragmentBitmapOutOfRange { bitmap, expected_fragments: a },
            ),
            " exceeds "@ + text::decimal(a as nat) + " expected fragments"@,
        ),
        text_laws::shows(
            records::record_error_text(
                RecordError::StepWithoutFragment { index: a, fragment_index: b },
            ),
            "heater-step index "@ + text::decimal(a as nat)
                + " belongs to missing radio fragment "@,
        ),
        text_laws::shows(
            records::record_error_text(
                RecordError::StepWithoutFragment { index: a, fragment_index: b },
            ),
            " belongs to missing radio fragment "@ + text::decimal(b as nat),
        ),
        text_laws::shows(
            records::record_error_text(
                RecordError::ObservedStepsMismatch { reported: a, computed: b },
            ),
            "reported observed-step count "@ + text::decimal(a as nat) + " differs from "@,
        ),
        text_laws::shows(
            records::record_error_text(
                RecordError::ObservedStepsMismatch { reported: a, computed: b },
            ),
            " differs from "@ + text::decimal(b as nat),
        ),
        text_laws::shows(
            records::record_error_text(
                RecordError::ObservedFieldsTooFew { fields: bitmap, unique_steps: a },
            ),
            "observed-field count "@ + text::decimal(bitmap as nat)
                + " is below the distinct-step count "@,
        ),
        text_laws::shows(
            records::record_error_text(
                RecordError::ObservedFieldsTooFew { fields: bitmap, unique_steps: a },
            ),
            " is below the distinct-step count "@ + text::decimal(a as nat),
        ),
{
    let parts = seq!["invalid expected heater-step count "@, text::decimal(a as nat)];
    assert(Seq::<char>::empty() + parts[0] =~= parts[0]);
    let message = records::record_error_text(RecordError::InvalidExpectedSteps(a));
    assert(message == text_laws::joined(Seq::empty(), parts, 2)) by {
        reveal_with_fuel(text_laws::joined, 3);
    }
    text_laws::lemma_labelled(Seq::empty(), parts, 2, 0);
    let parts = seq![
        "missing-step bitmap 0x"@,
        text::hex_digits(bitmap as nat, 4),
        " exceeds "@,
        text::decimal(a as nat),
        " expected steps"@,
    ];
    assert(Seq::<char>::empty() + parts[0] =~= parts[0]);
    let message = records::record_error_text(
        RecordError::MissingBitmapOutOfRange { bitmap, expected_steps: a },
    );
    assert(message == text_laws::joined(Seq::empty(), parts, 5)) by {
        reveal_with_fuel(text_laws::joined, 6);
    }
    text_laws::lemma_labelled(Seq::empty(), parts, 5, 0);
    text_laws::lemma_labelled(Seq::empty(), parts, 5, 2);
    let parts = seq![
        "heater-step index "@,
        text::decimal(a as nat),
        " exceeds "@,
        text::decimal(b as nat),
        " expected steps"@,
    ];
    assert(Seq::<char>::empty() + parts[0] =~= parts[0]);
    let message = records::record_error_text(
        RecordError::StepIndexOutOfRange { index: a, expected_steps: b },
    );
    assert(message == text_laws::joined(Seq::empty(), parts, 5)) by {
        reveal_with_fuel(text_laws::joined, 6);
    }
    text_laws::lemma_labelled(Seq::empty(), parts, 5, 0);
    text_laws::lemma_labelled(Seq::empty(), parts, 5, 2);
    let parts = seq!["duplicate heater-step index "@, text::decimal(a as nat)];
    assert(Seq::<char>::empty() + parts[0] =~= parts[0]);
    let message = records::record_error_text(RecordError::DuplicateStepIndex(a));
    assert(message == text_laws::joined(Seq::empty(), parts, 2)) by {
        reveal_with_fuel(text_laws::joined, 3);
    }
    text_laws::lemma_labelled(Seq::empty(), parts, 2, 0);
    let parts = seq![
        "heater-step at profile position "@,
        text::decimal(a as nat),
        " declares index "@,
        text::decimal(b as nat),
    ];
    assert(Seq::<char>::empty() + parts[0] =~= parts[0]);
    let message = records::record_error_text(
        RecordError::ConfigurationStepOrder { position: a, step_index: b },
    );
    assert(message == text_laws::joined(Seq::empty(), parts, 4)) by {
        reveal_with_fuel(text_laws::joined, 5);
    }
    text_laws::lemma_labelled(Seq::empty(), parts, 4, 0);
    text_laws::lemma_labelled(Seq::empty(), parts, 4, 2);
    let parts = seq![
        "reported missing-step bitmap 0x"@,
        text::hex_digits(bitmap as nat, 4),
        " differs from decoded bitmap 0x"@,
        text::hex_digits(other as nat, 4),
    ];
    assert(Seq::<char>::empty() + parts[0] =~= parts[0]);
    let message = records::record_error_text(
        RecordError::MissingBitmapMismatch { reported: bitmap, computed: other },
    );
    assert(message == text_laws::joined(Seq::empty(), parts, 4)) by {
        reveal_with_fuel(text_laws::joined, 5);
    }
    text_laws::lemma_labelled(Seq::empty(), parts, 4, 0);
    text_laws::lemma_labelled(Seq::empty(), parts, 4, 2);
    let parts = seq![
        "radio-fragment count "@,
        text::decimal(a as nat),
        " does not carry "@,
        text::decimal(b as nat),
        " expected steps"@,
    ];
    assert(Seq::<char>::empty() + parts[0] =~= parts[0]);
    let message = records::record_error_text(
        RecordError::InvalidFragmentCount { count: a, expected_steps: b },
    );
    assert(message == text_laws::joined(Seq::empty(), parts, 5)) by {
        reveal_with_fuel(text_laws::joined, 6);
    }
    text_laws::lemma_labelled(Seq::empty(), parts, 5, 0);
    text_laws::lemma_labelled(Seq::empty(), parts, 5, 2);
    let parts = seq![
        "received-fragment bitmap 0x"@,
        text::hex_digits(bitmap as nat, 4),
        " exceeds "@,
        text::decimal(a as nat),
        " expected fragments"@,
    ];
    assert(Seq::<char>::empty() + parts[0] =~= parts[0]);
    let message = records::record_error_text(
        RecordError::FragmentBitmapOutOfRange { bitmap, expected_fragments: a },
    );
    assert(message == text_laws::joined(Seq::empty(), parts, 5)) by {
        reveal_with_fuel(text_laws::joined, 6);
    }
    text_laws::lemma_labelled(Seq::empty(), parts, 5, 0);
    text_laws::lemma_labelled(Seq::empty(), parts, 5, 2);
    let parts = seq![
        "heater-step index "@,
        text::decimal(a as nat),
        " belongs to missing radio fragment "@,
        text::decimal(b as nat),
    ];
    assert(Seq::<char>::empty() + parts[0] =~= parts[0]);
    let message = records::record_error_text(
        RecordError::StepWithoutFragment { index: a, fragment_index: b },
    );
    assert(message == text_laws::joined(Seq::empty(), parts, 4)) by {
        reveal_with_fuel(text_laws::joined, 5);
    }
    text_laws::lemma_labelled(Seq::empty(), parts, 4, 0);
    text_laws::lemma_labelled(Seq::empty(), parts, 4, 2);
    let parts = seq![
        "reported observed-step count "@,
        text::decimal(a as nat),
        " differs from "@,
        text::decimal(b as nat),
    ];
    assert(Seq::<char>::empty() + parts[0] =~= parts[0]);
    let message = records::record_error_text(
        RecordError::ObservedStepsMismatch { reported: a, computed: b },
    );
    assert(message == text_laws::joined(Seq::empty(), parts, 4)) by {
        reveal_with_fuel(text_laws::joined, 5);
    }
    text_laws::lemma_labelled(Seq::empty(), parts, 4, 0);
    text_laws::lemma_labelled(Seq::empty(), parts, 4, 2);
    let parts = seq![
        "observed-field count "@,
        text::decimal(bitmap as nat),
        " is below the distinct-step count "@,
        text::decimal(a as nat),
    ];
    assert(Seq::<char>::empty() + parts[0] =~= parts[0]);
    let message = records::record_error_text(
        RecordError::ObservedFieldsTooFew { fields: bitmap, unique_steps: a },
    );
    assert(message == text_laws::joined(Seq::empty(), parts, 4)) by {
        reveal_with_fuel(text_laws::joined, 5);
    }
    text_laws::lemma_labelled(Seq::empty(), parts, 4, 0);
    text_laws::lemma_labelled(Seq::empty(), parts, 4, 2);
}

} // verus!
