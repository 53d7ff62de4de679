//! The promises on what is reported and what is accepted: the metrics, the status, the
//! configuration and the units they are in.

use vstd::prelude::*;

use crate::acquire::DelayAcquirer;
use crate::canceller::CancellerMetrics;
use crate::config::{AecConfig, AecModel, OutputTransitionPolicy, Suppression};
use crate::delay::{DelayLockSource, DelayStatus};
use crate::engine::{Aec, CaptureContinuity, OutputBlend};
use crate::error::AecError;
use crate::laws::acquiring::clear_of_both_ends;
use crate::laws::losses::greater;
use crate::sample::{Measure, Sample};
use crate::tau::TauCanceller;

verus! {

/// What the acquisition's status says: on what ground a lock stands; or that a lock was
/// lost and none has been promoted since; or that the fine search was sent to a region;
/// or that it searches.
pub proof fn lemma_what_the_status_says(acquirer: DelayAcquirer)
    requires
        acquirer.wf(),
    ensures
        acquirer.status() == (if acquirer.state is Locked {
            DelayStatus::Locked(acquirer.source->0)
        } else if acquirer.reacquiring {
            DelayStatus::Reacquiring
        } else if acquirer.state is Relocated {
            DelayStatus::Relocated
        } else {
            DelayStatus::Searching
        }),
{
}

/// What the delay estimate reports of a search: its own counts and decisions, the range it
/// searches, and its last scan's peak as a delay less sixteen samples, interior exactly
/// when it stood 8 ms clear of both ends.
pub proof fn lemma_what_the_estimate_reports(
    acquirer: DelayAcquirer,
    rate: u32,
    fine_ms: u16,
    ceiling_ms: u16,
)
    requires
        8000 <= rate <= 48000,
        acquirer.wf(),
        acquirer.sized(rate, fine_ms, ceiling_ms),
    ensures
        ({
            let report = acquirer.snapshot();
            let fine = acquirer.fine;
            let coarse = acquirer.coarse;
            &&& report.delay_samples == acquirer.locked
            &&& report.fine_search_start_samples == fine.search_origin
            &&& report.fine_search_end_samples == fine.search_origin + acquirer.fine_span
            &&& report.coarse_ceiling_samples == coarse.span * coarse.decimation
            &&& report.coarse_region_samples is Some <==> coarse.best is Some
            &&& report.coarse_region_samples matches Some(delay) ==> delay == coarse.best->0.delay
            &&& report.coarse_bin_samples == coarse.decimation
            &&& report.coarse_correlation == (if coarse.best is Some {
                coarse.best->0.corr
            } else {
                coarse.last_corr
            })
            &&& report.beyond_ceiling == coarse.beyond_ceiling
            &&& report.coarse_frames == coarse.frames
            &&& report.fine_frames == fine.frames
            &&& report.fine_frames_skipped == fine.skipped
            &&& report.fine_scans == fine.scans
            &&& report.relocated <==> acquirer.relocations != 0
            &&& report.fine_last_ratio == fine.last_scan_ratio
            &&& report.fine_last_origin_samples == fine.last_scan_origin
            &&& report.fine_last_delay_samples is Some <==> fine.last_scan_peak_at is Some
            &&& fine.last_scan_peak_at matches Some(peak_at) ==> {
                &&& report.fine_last_delay_samples->0 == greater(
                    fine.last_scan_origin + acquirer.fine_span - peak_at - 16,
                    0,
                )
                &&& report.fine_last_peak_interior <==> clear_of_both_ends(
                    peak_at as int,
                    acquirer.fine_span as int,
                    rate as int,
                )
            }
            &&& fine.last_scan_peak_at is None ==> !report.fine_last_peak_interior
            &&& report.tracking_moves == acquirer.tracking_moves
            &&& report.reacquisitions == acquirer.reacquisitions
            &&& report.last_reacquire_trigger == acquirer.last_trigger
            &&& report.coarse_rearms == acquirer.coarse_rearms
            &&& report.coarse_regions_rejected == acquirer.regions_rejected
            &&& report.coarse_last_resort_exhausted <==> acquirer.regions_rejected == 8
            &&& report.tracking_contradiction_run == (if acquirer.state is Locked {
                acquirer.tracker->0.jump_cycles
            } else {
                0
            })
            &&& report.tracking_contradiction_run_max == acquirer.contradiction_run_max
            &&& report.status == acquirer.status()
        }),
{
    if acquirer.fine.last_scan_peak_at is Some {
        let peak_at = acquirer.fine.last_scan_peak_at->0;
        crate::laws::acquiring::lemma_the_acquisition_tolerances_in_milliseconds(
            acquirer,
            rate,
            fine_ms,
            ceiling_ms,
            peak_at + 1,
        );
        crate::laws::acquiring::lemma_the_acquisition_tolerances_in_milliseconds(
            acquirer,
            rate,
            fine_ms,
            ceiling_ms,
            acquirer.fine_span - peak_at + 1,
        );
    }
}

/// What the engine's metrics report: the alignment in force once one is known, each count
/// as it stands, as many samples dropped as were fed past the ring's depth, and whether a
/// declaration is waiting to be applied. A hinted engine reports its hint as a lock, and
/// no search at all.
pub proof fn lemma_what_the_metrics_report(aec: Aec, canceller: CancellerMetrics)
    requires
        aec.wf(),
    ensures
        ({
            let report = aec.snapshot(canceller);
            &&& report.canceller == canceller
            &&& report.delay_samples is Some <==> aec.delay_known
            &&& report.delay_samples matches Some(delay) ==> delay == aec.delay_offset
            &&& report.reference_starved == aec.reference_starved
            &&& report.acquisition_parked == aec.acquisition_parked
            &&& report.reference_dropped == greater(aec.ring.next_abs - aec.ring.capacity, 0)
            &&& report.reference_reanchors == aec.reference_reanchors
            &&& report.capture_discontinuities == aec.capture_discontinuities
            &&& report.capture_samples_lost == aec.capture_samples_lost
            &&& report.capture_declaration_pending <==> aec.declared_continuity
                != CaptureContinuity::Continuous
            &&& report.capture_declarations_without_decision == aec.declarations_without_decision
            &&& report.capture_declarations_without_decision_max
                == aec.declarations_without_decision_max
            &&& aec.acquirer matches Some(acquirer) ==> report.delay == acquirer.snapshot()
            &&& aec.acquirer is None ==> {
                &&& report.delay.status == DelayStatus::Locked(DelayLockSource::Hint)
                &&& report.delay.delay_samples == report.delay_samples
                &&& report.delay.coarse_region_samples is None
                &&& report.delay.coarse_frames == 0
                &&& report.delay.fine_frames == 0
                &&& report.delay.fine_scans == 0
                &&& report.delay.fine_frames_skipped == 0
                &&& report.delay.coarse_rearms == 0
                &&& report.delay.tracking_moves == 0
                &&& report.delay.reacquisitions == 0
                &&& report.delay.last_reacquire_trigger is None
                &&& !report.delay.relocated
                &&& !report.delay.beyond_ceiling
                &&& !report.delay.coarse_last_resort_exhausted
                &&& report.delay.tracking_contradiction_run == 0
                &&& report.delay.tracking_contradiction_run_max == 0
            }
        }),
{
}

/// What the canceller reports: the decibel figure only once the near-end power is above
/// one ten-billionth, and its own verdict and count as they stand.
pub proof fn lemma_what_the_canceller_reports(tau: TauCanceller, erle_db: Sample)
    ensures
        ({
            let report = tau.reported(erle_db);
            // One ten-billionth, as a bit pattern.
            let heard = (Measure { bits: 0x3ddb_7cdf_d9d7_bdbb }).below(tau.near_power);
            &&& heard ==> report.erle_db == erle_db
            &&& !heard ==> report.erle_db.bits == 0
            &&& report.double_talk == tau.double_talk
            &&& report.divergence_resets == tau.divergence_resets
        }),
{
}

/// When the suppressor shapes a block: when it is configured, the far end has been heard,
/// and the output path is sound.
pub proof fn lemma_when_the_suppressor_shapes_a_block(tau: TauCanceller)
    ensures
        tau.shapes() <==> tau.suppression == Suppression::Conservative && tau.far_active
            && !tau.diverged,
{
}

/// Which bins a gain is averaged over: those within four of it that the spectrum has.
pub proof fn lemma_which_bins_a_gain_is_averaged_over(bin: int, other: int)
    requires
        0 <= bin <= 256,
        0 <= other <= 256,
    ensures
        crate::tau::first_bin(bin) <= other <= crate::tau::last_bin(bin) <==> other - bin <= 4
            && bin - other <= 4,
        0 <= crate::tau::first_bin(bin) <= crate::tau::last_bin(bin) <= 256,
{
}

/// When a sample still needs its gain, and which way it goes: under the graded policy,
/// for each sample of the block that has none yet, from the gain in force, down exactly
/// while a trusted alignment is being reacquired.
pub proof fn lemma_which_way_the_gain_goes(aec: Aec)
    requires
        aec.wf(),
    ensures
        ({
            let owed = aec.output_blend is Graded && aec.faded < aec.near_scratch@.len();
            &&& aec.next_ramp() is Some <==> owed
            &&& aec.next_ramp() matches Some(ramp) ==> {
                &&& ramp.gain == aec.output_blend->Graded_0.gain
                &&& ramp.reacquiring <==> aec.acquirer is Some && aec.acquirer->0.reacquiring
            }
        }),
{
}

/// Which configurations are accepted, and what the others are refused for: a rate outside
/// 8 to 48 kHz first, then a tail outside 16 to 500 ms, then an echo delay outside 10 ms
/// to one second, then a search ceiling below the echo delay or above two seconds.
pub proof fn lemma_which_configurations_are_accepted(config: AecConfig)
    ensures
        ({
            let rate_bad = config.sample_rate < 8000 || config.sample_rate > 48000;
            let tail_bad = config.tail_ms < 16 || config.tail_ms > 500;
            let echo_bad = config.max_echo_delay_ms < 10 || config.max_echo_delay_ms > 1000;
            let ceiling_bad = config.max_search_delay_ms < config.max_echo_delay_ms
                || config.max_search_delay_ms > 2000;
            &&& config.valid() <==> !rate_bad && !tail_bad && !echo_bad && !ceiling_bad
            &&& rate_bad ==> config.fault() == (AecError::SampleRateOutOfRange {
                requested: config.sample_rate,
            })
            &&& !rate_bad && tail_bad ==> config.fault() == (AecError::TailOutOfRange {
                requested_ms: config.tail_ms,
            })
            &&& !rate_bad && !tail_bad && echo_bad ==> config.fault() == (
            AecError::EchoDelayOutOfRange { requested_ms: config.max_echo_delay_ms })
            &&& !rate_bad && !tail_bad && !echo_bad && ceiling_bad ==> config.fault() == (
            AecError::SearchDelayOutOfRange {
                requested_ms: config.max_search_delay_ms,
                fine_window_ms: config.max_echo_delay_ms,
            })
        }),
{
}

/// What a hint is taken for: itself, up to the deepest echo searched for.
pub proof fn lemma_what_a_hint_is_taken_for(config: AecConfig)
    ensures
        config.clamped_hint() is Some <==> config.delay_hint_ms is Some,
        config.clamped_hint() matches Some(taken) ==> {
            &&& taken <= config.max_echo_delay_ms
            &&& taken == config.delay_hint_ms->0 || taken == config.max_echo_delay_ms
                && config.delay_hint_ms->0 > taken
        },
{
}

/// Only its own name is a model's name.
pub proof fn lemma_only_its_own_name_is_a_models_name(name: Seq<char>)
    ensures
        AecModel::named(name) is Some <==> name == "tau"@,
{
}

/// What an output policy resolves to: the correction preserved, or faded out and in over
/// its two durations, each at least one sample, and at full correction to begin with.
pub proof fn lemma_what_an_output_policy_resolves_to(
    blend: OutputBlend,
    policy: OutputTransitionPolicy,
    rate: u32,
)
    requires
        blend.resolves(policy, rate),
    ensures
        match policy {
            OutputTransitionPolicy::PreserveCorrection => blend is Preserve,
            OutputTransitionPolicy::GradedReacquisition { fade_out_ms, fade_in_ms } => {
                let gate = blend->Graded_0;
                let out = fade_out_ms * rate;
                let back = fade_in_ms * rate;
                &&& blend is Graded
                &&& gate.gain.bits == 0x3f80_0000
                &&& gate.pending_near@.len() == 0
                &&& gate.fade_out_samples >= 1 && gate.fade_in_samples >= 1
                &&& out >= 1000 ==> 1000 * gate.fade_out_samples <= out && out < 1000 * (
                gate.fade_out_samples + 1)
                &&& out < 1000 ==> gate.fade_out_samples == 1
                &&& back >= 1000 ==> 1000 * gate.fade_in_samples <= back && back < 1000 * (
                gate.fade_in_samples + 1)
                &&& back < 1000 ==> gate.fade_in_samples == 1
            },
        },
{
}

/// How long a duration is in samples: as many whole ones as fit it.
pub proof fn lemma_how_long_a_duration_is(ms: int, rate: int)
    requires
        0 <= ms,
        0 <= rate,
    ensures
        ({
            let samples = crate::timing::samples_in(ms, rate);
            let at_least_one = crate::timing::samples_in_at_least_one(ms, rate);
            &&& 0 <= samples
            &&& 1000 * samples <= ms * rate < 1000 * (samples + 1)
            &&& at_least_one == greater(samples, 1)
        }),
{
    assert(0 <= ms * rate) by (nonlinear_arith)
        requires
            0 <= ms,
            0 <= rate,
    ;
}

/// The order of samples is that of the values: none is below itself, one below another is
/// not above it, the order carries over, any two finite ones compare, the sign of a zero
/// does not count, a set sign bit turns the order round, and a NaN is below nothing and
/// above nothing.
pub proof fn lemma_the_order_of_samples(a: Sample, b: Sample, c: Sample)
    ensures
        !a.below(a),
        a.below(b) ==> !b.below(a),
        a.below(b) && b.below(c) ==> a.below(c),
        a.nan() ==> !a.below(b) && !b.below(a),
        !a.nan() && !b.nan() && !a.below(b) && !b.below(a) ==> a.bits == b.bits || (a.magnitude()
            == 0 && b.magnitude() == 0),
        a.bits < 0x8000_0000 && b.bits <= 0x7f80_0000 ==> (a.below(b) <==> a.bits < b.bits),
        a.bits >= 0x8000_0000 && b.bits < 0x8000_0000 && !a.nan() && !b.nan() && a.magnitude()
            + b.magnitude() > 0 ==> a.below(b),
        0x8000_0000 <= a.bits <= 0xff80_0000 && 0x8000_0000 <= b.bits <= 0xff80_0000 ==> (a.below(
            b,
        ) <==> a.bits > b.bits),
        a.finite() <==> (a.bits < 0x7f80_0000 || 0x8000_0000 <= a.bits < 0xff80_0000),
        a.nan() <==> (0x7f80_0000 < a.bits < 0x8000_0000 || a.bits > 0xff80_0000),
        a.sanitized() == (if a.finite() {
            a
        } else {
            Sample { bits: 0 }
        }),
{
}

/// The order of measures is that of the values, in the same way; at most is below or
/// equal.
pub proof fn lemma_the_order_of_measures(a: Measure, b: Measure, c: Measure)
    ensures
        !a.below(a),
        a.below(b) ==> !b.below(a),
        a.below(b) && b.below(c) ==> a.below(c),
        a.nan() ==> !a.below(b) && !b.below(a) && !a.at_most(b) && !b.at_most(a),
        !a.nan() && !b.nan() ==> (a.at_most(b) <==> !b.below(a)),
        !a.nan() && !b.nan() && !a.below(b) && !b.below(a) ==> a.bits == b.bits || (a.magnitude()
            == 0 && b.magnitude() == 0),
        a.bits < 0x8000_0000_0000_0000 && b.bits <= 0x7ff0_0000_0000_0000 ==> (a.below(b)
            <==> a.bits < b.bits),
        a.bits >= 0x8000_0000_0000_0000 && b.bits < 0x8000_0000_0000_0000 && !a.nan() && !b.nan()
            && a.magnitude() + b.magnitude() > 0 ==> a.below(b),
        a.nan() <==> (0x7ff0_0000_0000_0000 < a.bits < 0x8000_0000_0000_0000 || a.bits
            > 0xfff0_0000_0000_0000),
{
}


/// The number a text of decimal digits reads as.
pub open spec fn reads_as(text: Seq<char>) -> int
    decreases text.len(),
{
    if text.len() == 0 {
        0
    } else {
        10 * reads_as(text.drop_last()) + (text.last() as u32 - 48)
    }
}

/// A number is written in decimal: it reads as itself, in digits alone, and with no zero in
/// front.
pub proof fn lemma_a_number_reads_as_itself(value: int)
    requires
        0 <= value,
    ensures
        ({
            let text = crate::error::decimal_text(value);
            &&& text.len() > 0
            &&& reads_as(text) == value
            &&& forall|i: int| 0 <= i < text.len() ==> 48 <= #[trigger] text[i] as u32 <= 57
            &&& value > 0 ==> text[0] as u32 > 48
        }),
    decreases value,
{
    let text = crate::error::decimal_text(value);
    let last = value % 10;
    lemma_a_digit(last);
    let digit = crate::error::digit_text(last);
    if value < 10 {
        assert(text =~= digit);
        assert(text.drop_last() =~= Seq::<char>::empty());
        reveal_with_fuel(reads_as, 2);
    } else {
        lemma_a_number_reads_as_itself(value / 10);
        let front = crate::error::decimal_text(value / 10);
        assert(text =~= front + digit);
        assert(text.drop_last() =~= front);
        assert(text.last() == digit[0]);
        assert(text[0] == front[0]);
        assert forall|i: int| 0 <= i < text.len() implies 48 <= #[trigger] text[i] as u32 <= 57 by {
            if i < front.len() {
                assert(text[i] == front[i]);
            } else {
                assert(text[i] == digit[0]);
            }
        }
    }
}

/// A digit's text is its one character.
proof fn lemma_a_digit(digit: int)
    requires
        0 <= digit < 10,
    ensures
        crate::error::digit_text(digit).len() == 1,
        crate::error::digit_text(digit)[0] as u32 == 48 + digit,
{
    reveal_strlit("0");
    reveal_strlit("1");
    reveal_strlit("2");
    reveal_strlit("3");
    reveal_strlit("4");
    reveal_strlit("5");
    reveal_strlit("6");
    reveal_strlit("7");
    reveal_strlit("8");
    reveal_strlit("9");
}

/// What an error says: an out-of-range value is never named, so the message is the same
/// whatever it was; the fine window a ceiling must not undercut is; and an unknown model
/// is answered with its own name in quotes, at the end.
pub proof fn lemma_what_an_error_says(
    a: u32,
    b: u32,
    ms: u16,
    other_ms: u16,
    window: u16,
    requested: String,
)
    ensures
        (AecError::SampleRateOutOfRange { requested: a }).text() == (
        AecError::SampleRateOutOfRange { requested: b }).text(),
        (AecError::EchoDelayOutOfRange { requested_ms: ms }).text() == (
        AecError::EchoDelayOutOfRange { requested_ms: other_ms }).text(),
        (AecError::TailOutOfRange { requested_ms: ms }).text() == (AecError::TailOutOfRange {
            requested_ms: other_ms,
        }).text(),
        (AecError::SearchDelayOutOfRange { requested_ms: ms, fine_window_ms: window }).text()
            == "coarse search ceiling must be between the fine search window ("@
            + crate::error::decimal_text(window as int) + " ms) and 2000 milliseconds"@,
        ({
            let text = (AecError::UnknownModel { requested }).text();
            let n = requested@.len() as int;
            &&& text.len() > n + 1
            &&& text.subrange(text.len() - n - 1, text.len() - 1) == requested@
            &&& text[text.len() - 1] == '\''
            &&& text[text.len() - n - 2] == '\''
        }),
{
    reveal_strlit("'");
    reveal_strlit("; got '");
    reveal_strlit("model must be one of: ");
    let text = (AecError::UnknownModel { requested }).text();
    let n = requested@.len() as int;
    assert(text.subrange(text.len() - n - 1, text.len() - 1) =~= requested@);
}

} // verus!
