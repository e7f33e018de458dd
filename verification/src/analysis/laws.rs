//! What holds of temporal histories and profile features as a whole.

use vstd::prelude::*;
use vstd::seq_lib;

use crate::analysis;
use crate::analysis::{
    AnalysisSample, AnalysisSeries, HistoryKey, ProfileFeatures, ProfileStepFeatures,
};
use crate::records;
use crate::records::laws as records_laws;
use crate::records::{DeviceConfiguration, ProfileScan, ProfileStep};
use crate::telemetry;
use crate::v2::checks;
use crate::wire;

verus! {

/// Whether every observation of a history is usable and stands under its own key.
pub open spec fn holds_only_usable(history: Map<HistoryKey, AnalysisSample>) -> bool {
    forall|key: HistoryKey| #[trigger]
        history.dom().contains(key) ==> history[key].quality.value() == 0 && history[key].key()
            == Some(key)
}

/// A history starts without observations and, whatever is ingested, only ever
/// holds usable observations, each under its own key.
pub proof fn law_history_holds_only_usable_samples(
    history: Map<HistoryKey, AnalysisSample>,
    sample: AnalysisSample,
)
    ensures
        holds_only_usable(Map::empty()),
        holds_only_usable(history) ==> holds_only_usable(analysis::history_after(history, sample)),
{
}

/// An observation of bad quality never enters a history and has no elapsed time.
/// All that it can do is clear the history of its own series.
pub proof fn law_bad_quality_never_enters_history(
    history: Map<HistoryKey, AnalysisSample>,
    sample: AnalysisSample,
)
    requires
        sample.quality.value() != 0,
    ensures
        analysis::features_of(history, sample).change is None,
        analysis::features_of(history, sample).elapsed_us is None,
        !analysis::clears_history(history, sample) ==> analysis::history_after(history, sample)
            == history,
        analysis::clears_history(history, sample) && sample.key() is Some
            ==> analysis::history_after(history, sample) == history.remove(sample.key()->0),
{
}

/// Ingesting an observation leaves every other series as it was, and its features
/// depend on the history of its own series alone.
pub proof fn law_series_are_isolated(
    history: Map<HistoryKey, AnalysisSample>,
    other: Map<HistoryKey, AnalysisSample>,
    sample: AnalysisSample,
    key: HistoryKey,
)
    requires
        sample.key() != Some(key),
    ensures
        analysis::history_after(history, sample).dom().contains(key) == history.dom().contains(key),
        history.dom().contains(key) ==> analysis::history_after(history, sample)[key]
            == history[key],
        analysis::prior_of(history, sample) == analysis::prior_of(other, sample)
            ==> analysis::features_of(history, sample) == analysis::features_of(other, sample),
{
}

/// Two observations share a history only if node, boot nonce and series are all
/// the same, and for profile steps that means the same configuration, profile
/// definition and heater step.
pub proof fn law_shared_history_means_same_series(first: AnalysisSample, second: AnalysisSample)
    requires
        first.key() is Some,
        first.key() == second.key(),
    ensures
        first.node_id == second.node_id,
        first.boot_id == second.boot_id,
        first.series == second.series,
{
}

/// A profile step whose boot nonce is unavailable builds no history and has no
/// elapsed time: a reboot before it could not be detected.
pub proof fn law_unavailable_boot_builds_no_history(
    history: Map<HistoryKey, AnalysisSample>,
    scan: ProfileScan,
    step: ProfileStep,
    received_at_unix_ms: i64,
)
    requires
        analysis::boot_id_of(scan) is None,
    ensures
        ({
            let sample = analysis::step_sample(scan, step, received_at_unix_ms);
            &&& analysis::history_after(history, sample) == history
            &&& analysis::features_of(history, sample).change is None
            &&& analysis::features_of(history, sample).elapsed_us is None
        }),
{
}

/// Where there is an elapsed time, a usable observation of the same series was
/// ingested before, it is older by exactly that positive time, this observation
/// is usable too, and a profile scan follows the prior one without a gap in
/// sequence.
pub proof fn law_elapsed_time_is_exact(
    history: Map<HistoryKey, AnalysisSample>,
    sample: AnalysisSample,
)
    requires
        holds_only_usable(history),
        analysis::features_of(history, sample).elapsed_us is Some,
    ensures
        sample.quality.value() == 0,
        sample.key() is Some,
        history.dom().contains(sample.key()->0),
        ({
            let prior = history[sample.key()->0];
            let elapsed = analysis::features_of(history, sample).elapsed_us->0;
            &&& prior.quality.value() == 0
            &&& prior.series == sample.series
            &&& elapsed > 0
            &&& sample.series is LegacyV1 ==> elapsed == (sample.received_at_unix_ms
                - prior.received_at_unix_ms) * 1_000
            &&& sample.series is ProfileStep ==> sample.sequence == prior.sequence.wrapping_add(1)
                && elapsed == sample.device_sample_time->0.micros()
                - prior.device_sample_time->0.micros()
            &&& analysis::features_of(history, sample).elapsed_ms == Some(elapsed / 1_000)
        }),
{
}

/// Delayed delivery is harmless: an observation that is not newer than the prior
/// one of its series has no elapsed time, resets nothing and changes no history,
/// even if it was taken after a reconfiguration.
pub proof fn law_older_sample_changes_nothing(
    history: Map<HistoryKey, AnalysisSample>,
    sample: AnalysisSample,
)
    requires
        analysis::prior_of(history, sample) is Some,
        sample.micros_since(analysis::prior_of(history, sample)->0) is None,
    ensures
        analysis::history_after(history, sample) == history,
        !analysis::features_of(history, sample).temporal_history_reset,
        analysis::features_of(history, sample).change is None,
{
}

/// A lost scan is never bridged: a newer profile step that does not follow the
/// prior one in sequence resets the history of its series, has no elapsed time,
/// and at most itself becomes the new history.
pub proof fn law_lost_scan_resets_history(
    history: Map<HistoryKey, AnalysisSample>,
    sample: AnalysisSample,
)
    requires
        analysis::prior_of(history, sample) is Some,
        analysis::skips_sequence(sample, analysis::prior_of(history, sample)),
    ensures
        analysis::features_of(history, sample).temporal_history_reset,
        analysis::features_of(history, sample).change is None,
        ({
            let after = analysis::history_after(history, sample);
            let key = sample.key()->0;
            after.dom().contains(key) ==> after[key] == sample
        }),
{
}

/// No step of a scan that fails an integrity gate enters a history.
pub proof fn law_unusable_scan_never_enters_history(
    history: Map<HistoryKey, AnalysisSample>,
    scan: ProfileScan,
    step: ProfileStep,
    received_at_unix_ms: i64,
    key: HistoryKey,
)
    requires
        !analysis::allows_analysis(scan),
    ensures
        ({
            let sample = analysis::step_sample(scan, step, received_at_unix_ms);
            let after = analysis::history_after(history, sample);
            &&& sample.quality.value() & 0x0100 != 0
            &&& after.dom().contains(key) ==> history.dom().contains(key) && after[key]
                == history[key]
            &&& analysis::features_of(history, sample).change is None
        }),
{
    let quality = analysis::quality_of(
        step.status_bits,
        step.temperature_centi_celsius,
        step.pressure_pascal,
        step.humidity_milli_percent_rh,
        step.gas_resistance_ohm,
    );
    assert((quality | 0x0100) & 0x0100 != 0 && quality | 0x0100 != 0) by (bit_vector);
    analysis::lemma_value_of(quality | 0x0100);
}

/// Features are usable for analysis only if the scan passed every integrity gate,
/// every step is free of quality flags, and the configuration is the one that the
/// scan was measured with, read back in full.
pub proof fn law_usable_features_are_resolved(
    features: ProfileFeatures,
    scan: ProfileScan,
    configuration: DeviceConfiguration,
)
    requires
        analysis::are_features_of(features, scan, analysis::resolves(configuration, scan)),
        features.usable_for_analysis,
    ensures
        analysis::allows_analysis(scan),
        analysis::resolves(configuration, scan),
        configuration.identity.config_id == scan.identity.config_id,
        forall|i: int|
            0 <= i < features.steps@.len() ==> (#[trigger] features.steps@[i]).quality_flags == 0
                && features.steps@[i].gas_resistance_ohm is Some,
{
    let all = analysis::all_step_features(scan);
    assert forall|i: int| 0 <= i < features.steps@.len() implies (
    #[trigger] features.steps@[i]).quality_flags == 0 && features.steps@[i].gas_resistance_ohm
        is Some by {
        let found = features.steps@[i];
        assert(all.contains(found)) by {
            broadcast use seq_lib::group_to_multiset_ensures;

            assert(features.steps@.contains(found));
            assert(features.steps@.to_multiset().count(found) > 0);
            assert(all.to_multiset().count(found) > 0);
        }
        let k = choose|k: int| 0 <= k < all.len() && all[k] == found;
        assert(analysis::step_quality(scan, scan.steps@[k]) == 0);
        lemma_no_flags_means_resistance(scan, scan.steps@[k]);
    }
}

/// Where no configuration is resolved, nothing is usable for analysis.
pub proof fn law_unresolved_features_are_not_usable(features: ProfileFeatures, scan: ProfileScan)
    requires
        analysis::are_features_of(features, scan, false),
    ensures
        !features.configuration_resolved,
        !features.usable_for_analysis,
{
}

proof fn lemma_no_flags_means_resistance(scan: ProfileScan, step: ProfileStep)
    requires
        analysis::step_quality(scan, step) == 0,
    ensures
        step.gas_resistance_ohm != 0,
{
    let rest = 0 | analysis::flag_if(step.status_bits & 0x80 == 0, 0x0001) | analysis::flag_if(
        step.status_bits & 0x20 == 0,
        0x0002,
    ) | analysis::flag_if(step.status_bits & 0x10 == 0, 0x0004) | analysis::flag_if(
        step.status_bits & !0xb0u8 != 0,
        0x0008,
    ) | analysis::flag_if(
        !(analysis::MIN_TEMPERATURE_CENTI_CELSIUS <= step.temperature_centi_celsius
            <= analysis::MAX_TEMPERATURE_CENTI_CELSIUS),
        0x0010,
    ) | analysis::flag_if(
        !(analysis::MIN_PRESSURE_PASCAL <= step.pressure_pascal <= analysis::MAX_PRESSURE_PASCAL),
        0x0020,
    ) | analysis::flag_if(
        step.humidity_milli_percent_rh > analysis::MAX_HUMIDITY_MILLI_PERCENT_RH,
        0x0040,
    );
    assert(rest | 0x0080 != 0 && (rest | 0x0080) | 0x0100 != 0) by (bit_vector);
}

/// Features keep the shape of their scan: where the steps of the scan ascend, the
/// features are those of the steps one by one, in the same order.
pub proof fn law_features_keep_the_shape_of_the_scan(
    features: ProfileFeatures,
    scan: ProfileScan,
    configuration_resolved: bool,
)
    requires
        analysis::are_features_of(features, scan, configuration_resolved),
        forall|i: int, j: int|
            0 <= i < j < scan.steps@.len() ==> (#[trigger] scan.steps@[i]).step_index < (
            #[trigger] scan.steps@[j]).step_index,
    ensures
        features.steps@ == analysis::all_step_features(scan),
{
    let all = analysis::all_step_features(scan);
    assert forall|i: int, j: int| 0 <= i < j < all.len() implies (#[trigger] all[i]).step_index < (
    #[trigger] all[j]).step_index by {
        assert(scan.steps@[i].step_index < scan.steps@[j].step_index);
    }
    lemma_same_order(features.steps@, all);
}

proof fn lemma_same_order(sorted: Seq<ProfileStepFeatures>, strict: Seq<ProfileStepFeatures>)
    requires
        analysis::in_step_order(sorted),
        forall|i: int, j: int|
            0 <= i < j < strict.len() ==> (#[trigger] strict[i]).step_index < (
            #[trigger] strict[j]).step_index,
        sorted.to_multiset() == strict.to_multiset(),
    ensures
        sorted == strict,
    decreases strict.len(),
{
    broadcast use seq_lib::group_to_multiset_ensures;

    seq_lib::to_multiset_len(sorted);
    seq_lib::to_multiset_len(strict);
    if strict.len() > 0 {
        let last = strict.len() - 1;
        let found = sorted[last];
        assert(sorted.contains(found));
        assert(sorted.to_multiset().count(found) > 0);
        assert(strict.contains(found));
        let k = choose|k: int| 0 <= k < strict.len() && strict[k] == found;
        let wanted = strict[last];
        assert(strict.contains(wanted));
        assert(strict.to_multiset().count(wanted) > 0);
        assert(sorted.contains(wanted));
        let m = choose|m: int| 0 <= m < sorted.len() && sorted[m] == wanted;
        if m < last {
            assert(sorted[m].step_index <= sorted[last].step_index);
        }
        if k < last {
            assert(strict[k].step_index < strict[last].step_index);
        }
        assert(found == wanted);
        seq_lib::to_multiset_remove(sorted, last);
        seq_lib::to_multiset_remove(strict, last);
        lemma_same_order(sorted.remove(last), strict.remove(last));
        assert(sorted =~= sorted.remove(last).push(found));
        assert(strict =~= strict.remove(last).push(found));
    } else {
        assert(sorted =~= strict);
    }
}

/// The flags of a sample each say one thing: that the data are not new, that the gas
/// reading is invalid, that the heater was unstable, that unknown status bits are set,
/// that the temperature lies outside -40.00 to 85.00 degrees, the pressure outside
/// 30 000 to 110 000 pascals or the humidity above 100.000 percent, and that the gas
/// resistance is zero. There are no other flags.
pub proof fn law_each_quality_flag_says_one_thing(
    status_bits: u8,
    temperature_centi_celsius: i16,
    pressure_pascal: u32,
    humidity_milli_percent_rh: u32,
    gas_resistance_ohm: u32,
)
    ensures
        ({
            let quality = analysis::quality_of(
                status_bits,
                temperature_centi_celsius,
                pressure_pascal,
                humidity_milli_percent_rh,
                gas_resistance_ohm,
            );
            &&& quality & 0x0001 != 0 <==> status_bits & 0x80 == 0
            &&& quality & 0x0002 != 0 <==> status_bits & 0x20 == 0
            &&& quality & 0x0004 != 0 <==> status_bits & 0x10 == 0
            &&& quality & 0x0008 != 0 <==> status_bits & 0x4f != 0
            &&& quality & 0x0010 != 0 <==> (temperature_centi_celsius < -4000
                || temperature_centi_celsius > 8500)
            &&& quality & 0x0020 != 0 <==> (pressure_pascal < 30000 || pressure_pascal > 110000)
            &&& quality & 0x0040 != 0 <==> humidity_milli_percent_rh > 100000
            &&& quality & 0x0080 != 0 <==> gas_resistance_ohm == 0
            &&& quality < 0x0100
            &&& quality == 0 <==> {
                &&& status_bits & 0x80 != 0
                &&& status_bits & 0x20 != 0
                &&& status_bits & 0x10 != 0
                &&& status_bits & 0x4f == 0
                &&& -4000 <= temperature_centi_celsius <= 8500
                &&& 30000 <= pressure_pascal <= 110000
                &&& humidity_milli_percent_rh <= 100000
                &&& gas_resistance_ohm > 0
            }
        }),
{
    assert(!0xb0u8 == 0x4fu8) by (bit_vector);
    lemma_eight_flags(
        status_bits & 0x80 == 0,
        status_bits & 0x20 == 0,
        status_bits & 0x10 == 0,
        status_bits & 0x4f != 0,
        !(-4000 <= temperature_centi_celsius <= 8500),
        !(30000 <= pressure_pascal <= 110000),
        humidity_milli_percent_rh > 100000,
        gas_resistance_ohm == 0,
    );
}

proof fn lemma_eight_flags(
    a: bool,
    b: bool,
    c: bool,
    d: bool,
    e: bool,
    f: bool,
    g: bool,
    h: bool,
)
    ensures
        ({
            let quality = 0 | analysis::flag_if(a, 0x0001) | analysis::flag_if(b, 0x0002)
                | analysis::flag_if(c, 0x0004) | analysis::flag_if(d, 0x0008) | analysis::flag_if(
                e,
                0x0010,
            ) | analysis::flag_if(f, 0x0020) | analysis::flag_if(g, 0x0040) | analysis::flag_if(
                h,
                0x0080,
            );
            &&& quality & 0x0001 != 0 <==> a
            &&& quality & 0x0002 != 0 <==> b
            &&& quality & 0x0004 != 0 <==> c
            &&& quality & 0x0008 != 0 <==> d
            &&& quality & 0x0010 != 0 <==> e
            &&& quality & 0x0020 != 0 <==> f
            &&& quality & 0x0040 != 0 <==> g
            &&& quality & 0x0080 != 0 <==> h
            &&& quality < 0x0100
            &&& quality == 0 <==> !(a || b || c || d || e || f || g || h)
        }),
{
    let w0 = analysis::flag_if(a, 0x0001);
    let w1 = analysis::flag_if(b, 0x0002);
    let w2 = analysis::flag_if(c, 0x0004);
    let w3 = analysis::flag_if(d, 0x0008);
    let w4 = analysis::flag_if(e, 0x0010);
    let w5 = analysis::flag_if(f, 0x0020);
    let w6 = analysis::flag_if(g, 0x0040);
    let w7 = analysis::flag_if(h, 0x0080);
    let quality = 0 | w0 | w1 | w2 | w3 | w4 | w5 | w6 | w7;
    assert({
        &&& (quality & 0x0001 != 0) == (w0 != 0)
        &&& (quality & 0x0002 != 0) == (w1 != 0)
        &&& (quality & 0x0004 != 0) == (w2 != 0)
        &&& (quality & 0x0008 != 0) == (w3 != 0)
        &&& (quality & 0x0010 != 0) == (w4 != 0)
        &&& (quality & 0x0020 != 0) == (w5 != 0)
        &&& (quality & 0x0040 != 0) == (w6 != 0)
        &&& (quality & 0x0080 != 0) == (w7 != 0)
        &&& quality < 0x0100
        &&& (quality == 0) == (w0 == 0 && w1 == 0 && w2 == 0 && w3 == 0 && w4 == 0 && w5 == 0 && w6
            == 0 && w7 == 0)
    }) by (bit_vector)
        requires
            quality == 0u16 | w0 | w1 | w2 | w3 | w4 | w5 | w6 | w7,
            w0 == 0 || w0 == 0x0001,
            w1 == 0 || w1 == 0x0002,
            w2 == 0 || w2 == 0x0004,
            w3 == 0 || w3 == 0x0008,
            w4 == 0 || w4 == 0x0010,
            w5 == 0 || w5 == 0x0020,
            w6 == 0 || w6 == 0x0040,
            w7 == 0 || w7 == 0x0080,
    ;
}

/// A scan that passes the gates of analysis is whole and sound: every
/// fragment was obtained without contradiction, every step was decoded, the boot nonce
/// is valid, the scan ran to completion, no flag but that for duplicates and that for
/// a reconfigured sensor is set, and nothing was overwritten, out of order or ambiguous.
#[verifier::spinoff_prover]
pub proof fn law_gates_of_analysis(scan: ProfileScan, fragment: int, step: int)
    requires
        analysis::allows_analysis(scan),
        0 <= fragment < scan.expected_fragment_count,
        0 <= step < scan.expected_steps,
    ensures
        records::scan_fault(scan) is None,
        checks::has_bit(scan.received_fragment_bitmap, fragment),
        exists|k: int|
            0 <= k < scan.steps@.len() && (#[trigger] scan.steps@[k]).step_index == step,
        scan.steps@.len() == scan.expected_steps,
        scan.reported_missing_steps == 0,
        scan.observed_unique_steps == scan.expected_steps,
        scan.identity.common_flags & 0x01 != 0,
        scan.finish_reason == 0,
        scan.collection_flags & 0xffff_f7fb == 0,
        scan.overwritten_field_count == 0,
        scan.out_of_order_count == 0,
        scan.ambiguous_index_jump_count == 0,
        scan.invalid_gas_index_count == 0,
        scan.profile_rollover_count == 0,
        scan.fields_after_rollover_count == 0,
        scan.conflicting_fragment_count == 0,
{
    records_laws::law_scan_is_valid(scan);
    records_laws::law_full_bitmap_has_the_bits_below_the_count(
        scan.expected_fragment_count,
        scan.received_fragment_bitmap,
    );
    records_laws::law_complete_scans_hold_the_observed_steps(scan);
    records_laws::law_unavailable_steps_are_those_not_decoded(scan, step);
    let missing = scan.reported_missing_steps;
    assert forall|i: int| 0 <= i < 16 implies #[trigger] checks::has_bit(missing, i)
        == checks::has_bit(0, i) by {
        checks::lemma_no_bits_of_zero(i);
        if i < scan.expected_steps {
            records_laws::law_unavailable_steps_are_those_not_decoded(scan, i);
            assert(records::holds_step(scan.steps@, i));
            assert(checks::has_bit(scan.received_fragment_bitmap, i / 3));
        }
    }
    checks::lemma_bits_determine(missing, 0);
    lemma_no_bits(scan.expected_steps as int);
    lemma_critical_flags();
}

proof fn lemma_critical_flags()
    ensures
        !0x0804u32 == 0xffff_f7fbu32,
{
    assert(!0x0804u32 == 0xffff_f7fbu32) by (bit_vector);
}

proof fn lemma_no_bits(count: int)
    requires
        0 <= count <= 16,
    ensures
        checks::set_bits(0, count) == 0,
    decreases count,
{
    if count > 0 {
        lemma_no_bits(count - 1);
        checks::lemma_no_bits_of_zero(count - 1);
    }
}

/// Features whose profile quality is usable come of a scan that is whole and sound:
/// each bit of the received fragments below the expected count is set, each expected
/// step is among the decoded ones, so that no step is missing, and every step carries
/// new and valid data of a stable heater within the operating range.
#[verifier::spinoff_prover]
pub proof fn law_usable_profiles_are_whole(
    features: ProfileFeatures,
    scan: ProfileScan,
    configuration_resolved: bool,
    fragment: int,
    step: int,
    k: int,
)
    requires
        analysis::are_features_of(features, scan, configuration_resolved),
        features.profile_quality_usable,
        0 <= fragment < scan.expected_fragment_count,
        0 <= step < scan.expected_steps,
        0 <= k < scan.steps@.len(),
    ensures
        checks::has_bit(scan.received_fragment_bitmap, fragment),
        exists|l: int|
            0 <= l < scan.steps@.len() && (#[trigger] scan.steps@[l]).step_index == step,
        features.missing_steps == 0,
        features.boot_id == Some(scan.identity.boot_id),
        scan.identity.common_flags & 0x01 != 0,
        scan.steps@.len() == scan.expected_steps,
        scan.reported_missing_steps == 0,
        scan.finish_reason == 0,
        scan.collection_flags & 0xffff_f7fb == 0,
        scan.overwritten_field_count == 0,
        scan.out_of_order_count == 0,
        scan.ambiguous_index_jump_count == 0,
        scan.invalid_gas_index_count == 0,
        scan.profile_rollover_count == 0,
        scan.fields_after_rollover_count == 0,
        scan.conflicting_fragment_count == 0,
        scan.steps@[k].status_bits & 0x80 != 0,
        scan.steps@[k].status_bits & 0x20 != 0,
        scan.steps@[k].status_bits & 0x10 != 0,
        scan.steps@[k].status_bits & 0x4f == 0,
        -4000 <= scan.steps@[k].temperature_centi_celsius <= 8500,
        30000 <= scan.steps@[k].pressure_pascal <= 110000,
        scan.steps@[k].humidity_milli_percent_rh <= 100000,
        scan.steps@[k].gas_resistance_ohm > 0,
{
    law_gates_of_analysis(scan, fragment, step);
    let measured = scan.steps@[k];
    assert(analysis::step_quality(scan, measured) == 0);
    law_each_quality_flag_says_one_thing(
        measured.status_bits,
        measured.temperature_centi_celsius,
        measured.pressure_pascal,
        measured.humidity_milli_percent_rh,
        measured.gas_resistance_ohm,
    );
}

/// A scan that is whole and sound is not withheld: where it validates, every expected
/// fragment was obtained, every expected step was decoded, nothing critical happened
/// while it was collected, and every step is free of defects, the profile quality is
/// usable, and the features are usable for analysis once the configuration is resolved.
#[verifier::spinoff_prover]
pub proof fn law_whole_profiles_are_usable(
    features: ProfileFeatures,
    scan: ProfileScan,
    configuration_resolved: bool,
)
    requires
        analysis::are_features_of(features, scan, configuration_resolved),
        records::scan_fault(scan) is None,
        forall|i: int|
            0 <= i < scan.expected_fragment_count ==> #[trigger] checks::has_bit(
                scan.received_fragment_bitmap,
                i,
            ),
        scan.steps@.len() == scan.expected_steps,
        scan.identity.common_flags & 0x01 != 0,
        scan.finish_reason == 0,
        scan.collection_flags & 0xffff_f7fb == 0,
        scan.overwritten_field_count == 0,
        scan.out_of_order_count == 0,
        scan.ambiguous_index_jump_count == 0,
        scan.invalid_gas_index_count == 0,
        scan.profile_rollover_count == 0,
        scan.fields_after_rollover_count == 0,
        scan.conflicting_fragment_count == 0,
        forall|k: int|
            0 <= k < scan.steps@.len() ==> {
                let measured = #[trigger] scan.steps@[k];
                &&& measured.status_bits & 0x80 != 0
                &&& measured.status_bits & 0x20 != 0
                &&& measured.status_bits & 0x10 != 0
                &&& measured.status_bits & 0x4f == 0
                &&& -4000 <= measured.temperature_centi_celsius <= 8500
                &&& 30000 <= measured.pressure_pascal <= 110000
                &&& measured.humidity_milli_percent_rh <= 100000
                &&& measured.gas_resistance_ohm > 0
            },
    ensures
        features.profile_quality_usable,
        features.usable_for_analysis == configuration_resolved,
{
    records_laws::law_scan_is_valid(scan);
    records_laws::law_full_bitmap_has_the_bits_below_the_count(
        scan.expected_fragment_count,
        scan.received_fragment_bitmap,
    );
    assert forall|i: int| 0 <= i < 16 implies #[trigger] checks::has_bit(
        scan.received_fragment_bitmap,
        i,
    ) == (i < scan.expected_fragment_count) by {
        if checks::has_bit(scan.received_fragment_bitmap, i) {
            assert(3 * i < scan.expected_steps);
        }
    }
    records_laws::law_complete_scans_hold_the_observed_steps(scan);
    let unavailable = records::unavailable_steps(scan);
    let missing = scan.reported_missing_steps;
    assert(checks::set_bits(missing, scan.expected_steps as int) == 0);
    assert forall|i: int| 0 <= i < 16 implies #[trigger] checks::has_bit(unavailable, i)
        == checks::has_bit(0, i) by {
        checks::lemma_no_bits_of_zero(i);
        records_laws::law_unavailable_steps_are_those_not_decoded(scan, i);
        if i < scan.expected_steps {
            lemma_no_bits_set(missing, scan.expected_steps as int, i);
            assert(checks::has_bit(scan.received_fragment_bitmap, i / 3));
            assert(!checks::has_bit(missing, i));
            assert(records::holds_step(scan.steps@, i));
        }
    }
    checks::lemma_bits_determine(unavailable, 0);
    lemma_critical_flags();
    assert(analysis::allows_analysis(scan));
    assert forall|k: int| 0 <= k < scan.steps@.len() implies analysis::step_quality(
        scan,
        #[trigger] scan.steps@[k],
    ) == 0 by {
        let measured = scan.steps@[k];
        law_each_quality_flag_says_one_thing(
            measured.status_bits,
            measured.temperature_centi_celsius,
            measured.pressure_pascal,
            measured.humidity_milli_percent_rh,
            measured.gas_resistance_ohm,
        );
    }
}

proof fn lemma_no_bits_set(bitmap: u16, count: int, index: int)
    requires
        0 <= index < count,
        checks::set_bits(bitmap, count) == 0,
    ensures
        !checks::has_bit(bitmap, index),
    decreases count,
{
    checks::lemma_set_bits_range(bitmap, count - 1);
    if index < count - 1 {
        lemma_no_bits_set(bitmap, count - 1, index);
    }
}

/// Features name the scan that they come of, and report as missing exactly the expected
/// steps that were not decoded. Every decoded step has its features, with its own
/// position, target and resistance, and there are no more features than steps. The flag
/// of an unusable scan is on every step or on none.
#[verifier::spinoff_prover]
pub proof fn law_features_are_those_of_the_scan(
    features: ProfileFeatures,
    scan: ProfileScan,
    configuration_resolved: bool,
    index: int,
    k: int,
)
    requires
        analysis::are_features_of(features, scan, configuration_resolved),
        0 <= index < 16,
        0 <= k < scan.steps@.len(),
    ensures
        features.node_id == scan.identity.node_id,
        features.sequence == scan.identity.scan_sequence,
        features.config_id == scan.identity.config_id,
        features.profile_id == scan.profile_id,
        features.profile_revision == scan.profile_version,
        features.boot_id == if scan.identity.common_flags & 0x01 != 0 {
            Some(scan.identity.boot_id)
        } else {
            None
        },
        checks::has_bit(features.missing_steps, index) == (index < scan.expected_steps
            && !exists|l: int|
            0 <= l < scan.steps@.len() && (#[trigger] scan.steps@[l]).step_index == index),
        features.usable_for_analysis == (features.profile_quality_usable
            && features.configuration_resolved),
        features.configuration_resolved == configuration_resolved,
        features.steps@.len() == scan.steps@.len(),
        exists|i: int|
            0 <= i < features.steps@.len() && {
                let found = #[trigger] features.steps@[i];
                let measured = scan.steps@[k];
                &&& found.step_index == measured.step_index
                &&& found.target_temperature_celsius == measured.target_temperature_celsius
                &&& found.gas_resistance_ohm == if measured.gas_resistance_ohm == 0 {
                    None
                } else {
                    Some(measured.gas_resistance_ohm)
                }
                &&& found.quality_flags & 0x0001 != 0 <==> measured.status_bits & 0x80 == 0
                &&& found.quality_flags & 0x0002 != 0 <==> measured.status_bits & 0x20 == 0
                &&& found.quality_flags & 0x0004 != 0 <==> measured.status_bits & 0x10 == 0
                &&& found.quality_flags & 0x0008 != 0 <==> measured.status_bits & 0x4f != 0
                &&& found.quality_flags & 0x0010 != 0 <==> !(-4000
                    <= measured.temperature_centi_celsius <= 8500)
                &&& found.quality_flags & 0x0020 != 0 <==> !(30000 <= measured.pressure_pascal
                    <= 110000)
                &&& found.quality_flags & 0x0040 != 0 <==> measured.humidity_milli_percent_rh
                    > 100000
                &&& found.quality_flags & 0x0080 != 0 <==> measured.gas_resistance_ohm == 0
                &&& found.quality_flags & 0x0100 != 0 <==> !analysis::allows_analysis(scan)
            },
{
    broadcast use seq_lib::group_to_multiset_ensures;

    records_laws::law_unavailable_steps_are_those_not_decoded(scan, index);
    let all = analysis::all_step_features(scan);
    seq_lib::to_multiset_len(features.steps@);
    seq_lib::to_multiset_len(all);
    let wanted = all[k];
    assert(all.contains(wanted));
    assert(all.to_multiset().count(wanted) > 0);
    assert(features.steps@.contains(wanted));
    let i = choose|i: int| 0 <= i < features.steps@.len() && features.steps@[i] == wanted;
    assert(features.steps@[i] == wanted);
    let measured = scan.steps@[k];
    law_each_quality_flag_says_one_thing(
        measured.status_bits,
        measured.temperature_centi_celsius,
        measured.pressure_pascal,
        measured.humidity_milli_percent_rh,
        measured.gas_resistance_ohm,
    );
    let quality = analysis::quality_of(
        measured.status_bits,
        measured.temperature_centi_celsius,
        measured.pressure_pascal,
        measured.humidity_milli_percent_rh,
        measured.gas_resistance_ohm,
    );
    lemma_unusable_flag(quality);
}

proof fn lemma_unusable_flag(quality: u16)
    requires
        quality < 0x0100,
    ensures
        quality & 0x0100 == 0,
        (quality | 0x0100) & 0x0100 != 0,
        (quality | 0x0100) & 0x0001 == quality & 0x0001,
        (quality | 0x0100) & 0x0002 == quality & 0x0002,
        (quality | 0x0100) & 0x0004 == quality & 0x0004,
        (quality | 0x0100) & 0x0008 == quality & 0x0008,
        (quality | 0x0100) & 0x0010 == quality & 0x0010,
        (quality | 0x0100) & 0x0020 == quality & 0x0020,
        (quality | 0x0100) & 0x0040 == quality & 0x0040,
        (quality | 0x0100) & 0x0080 == quality & 0x0080,
{
    assert({
        &&& quality & 0x0100 == 0
        &&& (quality | 0x0100) & 0x0100 != 0
        &&& (quality | 0x0100) & 0x0001 == quality & 0x0001
        &&& (quality | 0x0100) & 0x0002 == quality & 0x0002
        &&& (quality | 0x0100) & 0x0004 == quality & 0x0004
        &&& (quality | 0x0100) & 0x0008 == quality & 0x0008
        &&& (quality | 0x0100) & 0x0010 == quality & 0x0010
        &&& (quality | 0x0100) & 0x0020 == quality & 0x0020
        &&& (quality | 0x0100) & 0x0040 == quality & 0x0040
        &&& (quality | 0x0100) & 0x0080 == quality & 0x0080
    }) by (bit_vector)
        requires
            quality < 0x0100,
    ;
}

/// A configuration resolves a scan exactly if it validates, was read back in full, is
/// the one that the scan names, and describes each decoded step as it was measured.
pub proof fn law_resolving_configuration_is_the_one_measured_with(
    configuration: DeviceConfiguration,
    scan: ProfileScan,
)
    ensures
        analysis::resolves(configuration, scan) <==> {
            &&& records::configuration_fault(configuration) is None
            &&& configuration.config_flags & 0x02 != 0
            &&& forall|i: int|
                0 <= i < 16 ==> #[trigger] checks::has_bit(
                    configuration.heater_readback_valid_bitmap,
                    i,
                ) == (i < configuration.expected_step_count)
            &&& configuration.identity.node_id == scan.identity.node_id
            &&& configuration.identity.config_id == scan.identity.config_id
            &&& configuration.profile_id == scan.profile_id
            &&& configuration.profile_version == scan.profile_version
            &&& configuration.expected_step_count == scan.expected_steps
            &&& forall|k: int|
                0 <= k < scan.steps@.len() ==> {
                    let measured = #[trigger] scan.steps@[k];
                    let configured = configuration.heater_steps@[measured.step_index as int];
                    &&& measured.step_index < configuration.heater_steps@.len()
                    &&& configured.target_temperature_celsius
                        == measured.target_temperature_celsius
                    &&& configured.configured_duration_us == measured.configured_duration_us
                    &&& configured.repetition_multiplier == measured.repetition_multiplier
                    &&& configured.readback_heater_current == measured.raw_heater_current
                    &&& configured.programmed_heater_resistance == measured.raw_heater_resistance
                    &&& configured.programmed_gas_wait == measured.raw_gas_wait
                }
        },
{
    records_laws::law_configuration_is_valid(configuration);
    if records::configuration_fault(configuration) is None {
        records_laws::law_full_bitmap_has_the_bits_below_the_count(
            configuration.expected_step_count,
            configuration.heater_readback_valid_bitmap,
        );
        let valid = configuration.heater_steps@;
        assert forall|k: int| 0 <= k < scan.steps@.len() implies (
        #[trigger] analysis::scan_step_resolved(configuration, scan, k)) == {
            let measured = scan.steps@[k];
            let configured = configuration.heater_steps@[measured.step_index as int];
            &&& measured.step_index < configuration.heater_steps@.len()
            &&& configured.target_temperature_celsius == measured.target_temperature_celsius
            &&& configured.configured_duration_us == measured.configured_duration_us
            &&& configured.repetition_multiplier == measured.repetition_multiplier
            &&& configured.readback_heater_current == measured.raw_heater_current
            &&& configured.programmed_heater_resistance == measured.raw_heater_resistance
            &&& configured.programmed_gas_wait == measured.raw_gas_wait
        } by {
            let index = scan.steps@[k].step_index as int;
            if index < valid.len() {
                assert(valid[index].step_index == index);
            }
        }
        if analysis::resolves(configuration, scan) {
            assert forall|k: int| 0 <= k < scan.steps@.len() implies {
                let measured = #[trigger] scan.steps@[k];
                let configured = configuration.heater_steps@[measured.step_index as int];
                &&& measured.step_index < configuration.heater_steps@.len()
                &&& configured.target_temperature_celsius == measured.target_temperature_celsius
                &&& configured.configured_duration_us == measured.configured_duration_us
                &&& configured.repetition_multiplier == measured.repetition_multiplier
                &&& configured.readback_heater_current == measured.raw_heater_current
                &&& configured.programmed_heater_resistance == measured.raw_heater_resistance
                &&& configured.programmed_gas_wait == measured.raw_gas_wait
            } by {
                assert(analysis::scan_step_resolved(configuration, scan, k));
            }
        }
    }
}

/// Where an observation has a change, the prior observation stands in the history under
/// the observation's own node, boot nonce and series, and prior value plus change gives
/// the new value, sign included: of the temperature, of the humidity and of the
/// pressure. The change also holds the prior gas resistance and the time between the
/// two, which is positive.
pub proof fn law_prior_value_and_change_give_the_new_value(
    history: Map<HistoryKey, AnalysisSample>,
    sample: AnalysisSample,
)
    requires
        analysis::features_of(history, sample).change is Some,
    ensures
        ({
            let key = HistoryKey {
                node_id: sample.node_id,
                boot_id: sample.boot_id,
                series: sample.series,
            };
            let prior = history[key];
            let features = analysis::features_of(history, sample);
            let change = features.change->0;
            &&& history.dom().contains(key)
            &&& prior.temperature_centi_celsius + change.temperature_centi_celsius
                == sample.temperature_centi_celsius
            &&& prior.humidity_milli_percent_rh + change.humidity_milli_percent_rh
                == sample.humidity_milli_percent_rh
            &&& prior.pressure_pascal + change.pressure_pascal == sample.pressure_pascal
            &&& prior.gas_resistance_ohm == change.prior_gas_resistance_ohm
            &&& change.elapsed_us > 0
            &&& features.elapsed_us == Some(change.elapsed_us)
            &&& features.elapsed_ms is Some
            &&& features.elapsed_ms->0 * 1000 <= change.elapsed_us < features.elapsed_ms->0 * 1000
                + 1000
            &&& sample.series is LegacyV1 ==> prior.received_at_unix_ms * 1000 + change.elapsed_us
                == sample.received_at_unix_ms * 1000
            &&& sample.series is ProfileStep ==> {
                let now = sample.device_sample_time->0;
                let before = prior.device_sample_time->0;
                &&& before.scan_start_uptime_ms * 1000 + before.relative_offset_us
                    + change.elapsed_us == now.scan_start_uptime_ms * 1000 + now.relative_offset_us
                &&& sample.sequence == (prior.sequence + 1) % 0x1_0000_0000
            }
            &&& sample.quality.value() == 0
            &&& prior.quality.value() == 0
            &&& !features.temporal_history_reset
        }),
{
}

/// Exchanging the readings of two observations negates the change between them.
pub proof fn law_exchanged_readings_negate_the_change(
    history: Map<HistoryKey, AnalysisSample>,
    sample: AnalysisSample,
    other_history: Map<HistoryKey, AnalysisSample>,
    other: AnalysisSample,
    key: HistoryKey,
)
    requires
        sample.key() == Some(key),
        other.key() == Some(key),
        history.dom().contains(key),
        other_history.dom().contains(key),
        other_history[key].temperature_centi_celsius == sample.temperature_centi_celsius,
        other_history[key].humidity_milli_percent_rh == sample.humidity_milli_percent_rh,
        other_history[key].pressure_pascal == sample.pressure_pascal,
        history[key].temperature_centi_celsius == other.temperature_centi_celsius,
        history[key].humidity_milli_percent_rh == other.humidity_milli_percent_rh,
        history[key].pressure_pascal == other.pressure_pascal,
        analysis::features_of(history, sample).change is Some,
        analysis::features_of(other_history, other).change is Some,
    ensures
        ({
            let change = analysis::features_of(history, sample).change->0;
            let exchanged = analysis::features_of(other_history, other).change->0;
            &&& exchanged.temperature_centi_celsius == -change.temperature_centi_celsius
            &&& exchanged.humidity_milli_percent_rh == -change.humidity_milli_percent_rh
            &&& exchanged.pressure_pascal == -change.pressure_pascal
        }),
{
}

/// A change is not withheld: where a usable observation of the same series is in the
/// history, the new one is usable, newer by a representable time, follows the prior one
/// in sequence if it is a profile step, and asks for no reset, there is a change.
pub proof fn law_a_change_is_owed(
    history: Map<HistoryKey, AnalysisSample>,
    sample: AnalysisSample,
    key: HistoryKey,
)
    requires
        key.node_id == sample.node_id,
        key.boot_id == sample.boot_id,
        key.series == sample.series,
        history.dom().contains(key),
        sample.quality.value() == 0,
        history[key].quality.value() == 0,
        !sample.reset_temporal_history,
        match sample.series {
            AnalysisSeries::LegacyV1 => 0 < (sample.received_at_unix_ms
                - history[key].received_at_unix_ms) * 1000 <= 0xffff_ffff_ffff_ffff,
            AnalysisSeries::ProfileStep { .. } => {
                &&& sample.boot_id is Some
                &&& sample.device_sample_time is Some
                &&& history[key].device_sample_time is Some
                &&& sample.sequence == (history[key].sequence + 1) % 0x1_0000_0000
                &&& ({
                    let now = sample.device_sample_time->0;
                    let before = history[key].device_sample_time->0;
                    0 < (now.scan_start_uptime_ms - before.scan_start_uptime_ms) * 1000
                        + now.relative_offset_us - before.relative_offset_us
                        <= 0xffff_ffff_ffff_ffff
                })
            },
        },
    ensures
        analysis::features_of(history, sample).change is Some,
        analysis::history_after(history, sample) == history.insert(key, sample),
{
    assert(sample.key() == Some(key));
}

/// Features repeat the observation that they come of.
pub proof fn law_features_repeat_the_observation(
    history: Map<HistoryKey, AnalysisSample>,
    sample: AnalysisSample,
)
    ensures
        ({
            let features = analysis::features_of(history, sample);
            &&& features.node_id == sample.node_id
            &&& features.boot_id == sample.boot_id
            &&& features.sequence == sample.sequence
            &&& features.series == sample.series
            &&& features.received_at_unix_ms == sample.received_at_unix_ms
            &&& features.device_sample_time == sample.device_sample_time
            &&& features.quality_flags == sample.quality.value()
            &&& features.temperature_centi_celsius == sample.temperature_centi_celsius
            &&& features.pressure_pascal == sample.pressure_pascal
            &&& features.humidity_milli_percent_rh == sample.humidity_milli_percent_rh
            &&& features.gas_resistance_ohm == sample.gas_resistance_ohm
        }),
{
}

/// The first usable observation of a series becomes its history, and has no change. So
/// does one that asks for a reset and is newer.
pub proof fn law_first_observation_starts_the_history(
    history: Map<HistoryKey, AnalysisSample>,
    sample: AnalysisSample,
    key: HistoryKey,
)
    requires
        key.node_id == sample.node_id,
        key.boot_id == sample.boot_id,
        key.series == sample.series,
        sample.quality.value() == 0,
        sample.series is ProfileStep ==> sample.boot_id is Some && sample.device_sample_time
            is Some,
        !history.dom().contains(key) || (sample.reset_temporal_history && sample.micros_since(
            history[key],
        ) is Some),
    ensures
        analysis::features_of(history, sample).change is None,
        analysis::features_of(history, sample).elapsed_us is None,
        analysis::features_of(history, sample).elapsed_ms is None,
        analysis::history_after(history, sample) == history.insert(key, sample),
        analysis::features_of(history, sample).temporal_history_reset
            == sample.reset_temporal_history,
{
    assert(sample.key() == Some(key));
    assert(history.remove(key).insert(key, sample) =~= history.insert(key, sample));
}

/// An observation of a version 1 frame holds the readings at their places in the frame,
/// each under its own name, and belongs to the version 1 series of the frame's node. It
/// is free of flags exactly if the sensor reported valid data within the operating
/// range.
pub proof fn law_v1_observation_is_read_from_the_frame(bytes: Seq<u8>, received_at_unix_ms: i64)
    requires
        telemetry::decoded_v1(bytes) is Ok,
    ensures
        ({
            let sample = analysis::v1_sample(
                telemetry::decoded_v1(bytes)->Ok_0,
                received_at_unix_ms,
            );
            &&& sample.node_id == wire::be64(bytes, 4)
            &&& sample.boot_id is None
            &&& sample.sequence == wire::be32(bytes, 12)
            &&& sample.series is LegacyV1
            &&& sample.received_at_unix_ms == received_at_unix_ms
            &&& sample.device_sample_time is None
            &&& sample.temperature_centi_celsius == wire::be_i16(bytes, 16)
            &&& sample.pressure_pascal == wire::be32(bytes, 18)
            &&& sample.humidity_milli_percent_rh == wire::be32(bytes, 22)
            &&& sample.gas_resistance_ohm == wire::be32(bytes, 26)
            &&& !sample.reset_temporal_history
            &&& sample.quality.value() == 0 <==> {
                &&& bytes[3] & 0x80 != 0
                &&& bytes[3] & 0x20 != 0
                &&& bytes[3] & 0x10 != 0
                &&& bytes[3] & 0x4f == 0
                &&& -4000 <= wire::be_i16(bytes, 16) <= 8500
                &&& 30000 <= wire::be32(bytes, 18) <= 110000
                &&& wire::be32(bytes, 22) <= 100000
                &&& wire::be32(bytes, 26) > 0
            }
        }),
{
    telemetry::lemma_telemetry_values(bytes);
    law_each_quality_flag_says_one_thing(
        bytes[3],
        wire::be_i16(bytes, 16),
        wire::be32(bytes, 18),
        wire::be32(bytes, 22),
        wire::be32(bytes, 26),
    );
    analysis::lemma_value_of(
        analysis::quality_of(
            bytes[3],
            wire::be_i16(bytes, 16),
            wire::be32(bytes, 18),
            wire::be32(bytes, 22),
            wire::be32(bytes, 26),
        ),
    );
}

/// An observation of a profile step holds the step's readings, each under its own name,
/// belongs to the series of the scan's configuration, profile and heater step, and is
/// timed by the device. It is free of flags only if the scan passes the gates, and then
/// exactly if the sensor reported valid data within the operating range.
pub proof fn law_step_observation_is_the_recorded_step(
    scan: ProfileScan,
    step: ProfileStep,
    received_at_unix_ms: i64,
)
    ensures
        ({
            let sample = analysis::step_sample(scan, step, received_at_unix_ms);
            &&& sample.node_id == scan.identity.node_id
            &&& sample.boot_id == if scan.identity.common_flags & 0x01 != 0 {
                Some(scan.identity.boot_id)
            } else {
                None
            }
            &&& sample.sequence == scan.identity.scan_sequence
            &&& sample.series is ProfileStep
            &&& sample.series->config_id == scan.identity.config_id
            &&& sample.series->profile_id == scan.profile_id
            &&& sample.series->profile_version == scan.profile_version
            &&& sample.series->step_index == step.step_index
            &&& sample.received_at_unix_ms == received_at_unix_ms
            &&& sample.device_sample_time is Some
            &&& sample.device_sample_time->0.scan_start_uptime_ms == scan.identity.uptime_ms
            &&& sample.device_sample_time->0.relative_offset_us == step.relative_offset_us
            &&& sample.temperature_centi_celsius == step.temperature_centi_celsius
            &&& sample.pressure_pascal == step.pressure_pascal
            &&& sample.humidity_milli_percent_rh == step.humidity_milli_percent_rh
            &&& sample.gas_resistance_ohm == step.gas_resistance_ohm
            &&& sample.reset_temporal_history == (scan.collection_flags & 0x0800 != 0)
            &&& sample.quality.value() & 0x0100 != 0 <==> !analysis::allows_analysis(scan)
            &&& sample.quality.value() == 0 <==> {
                &&& analysis::allows_analysis(scan)
                &&& step.status_bits & 0x80 != 0
                &&& step.status_bits & 0x20 != 0
                &&& step.status_bits & 0x10 != 0
                &&& step.status_bits & 0x4f == 0
                &&& -4000 <= step.temperature_centi_celsius <= 8500
                &&& 30000 <= step.pressure_pascal <= 110000
                &&& step.humidity_milli_percent_rh <= 100000
                &&& step.gas_resistance_ohm > 0
            }
        }),
{
    law_each_quality_flag_says_one_thing(
        step.status_bits,
        step.temperature_centi_celsius,
        step.pressure_pascal,
        step.humidity_milli_percent_rh,
        step.gas_resistance_ohm,
    );
    let quality = analysis::quality_of(
        step.status_bits,
        step.temperature_centi_celsius,
        step.pressure_pascal,
        step.humidity_milli_percent_rh,
        step.gas_resistance_ohm,
    );
    lemma_unusable_flag(quality);
    analysis::lemma_value_of(quality);
    analysis::lemma_value_of(quality | 0x0100);
    assert(quality | 0x0100 != 0) by (bit_vector);
}

/// A profile step without a device time never becomes the prior observation of its
/// series, and has no change.
pub proof fn law_untimed_steps_build_no_history(
    history: Map<HistoryKey, AnalysisSample>,
    sample: AnalysisSample,
    key: HistoryKey,
)
    requires
        sample.series is ProfileStep,
        sample.device_sample_time is None,
    ensures
        ({
            let after = analysis::history_after(history, sample);
            after.dom().contains(key) ==> history.dom().contains(key) && after[key] == history[key]
        }),
        analysis::features_of(history, sample).change is None,
{
}

} // verus!
