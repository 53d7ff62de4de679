//! The two searches' promises: which frames count, what a scan's peak is taken for, and
//! when the global scan has found a region, has reached its ceiling, or gives up.

use vstd::prelude::*;

use crate::coarse::{CoarseScan, CoarseScore};
use crate::delay::{DelayEstimator, FineLock, FineObservation, FineScan, WindowSupport};
use crate::laws::losses::greater;
use crate::laws::tracking::one_more;
use crate::sample::{Measure, Sample};

verus! {

/// Whether a fine frame counts: no silence at the head of its window, at most a quarter
/// of a frame of it at the tail, and an energy of at least one hundred-millionth on both
/// sides.
pub open spec fn frame_counts(
    estimator: DelayEstimator,
    support: WindowSupport,
    near_energy: Measure,
    far_energy: Measure,
) -> bool {
    // The floor, as a bit pattern.
    let floor = Measure { bits: 0x3e45_798e_e230_8c3a };
    &&& support.missing_head == 0
    &&& 4 * support.missing_tail <= estimator.frame_len
    &&& !near_energy.below(floor)
    &&& !far_energy.below(floor)
}

/// Whether `at` is where a correlation is loudest over the first `count` values: no other
/// one is louder, and none before it is as loud. A NaN is silent.
pub open spec fn loudest(correlation: Seq<Sample>, count: int, at: int) -> bool {
    let loud = |k: int|
        if correlation[k].nan() {
            0
        } else {
            correlation[k].magnitude()
        };
    &&& 0 <= at < count
    &&& forall|k: int| #![trigger correlation[k]] 0 <= k < count ==> loud(k) <= loud(at)
    &&& forall|k: int| #![trigger correlation[k]] 0 <= k < at ==> loud(k) < loud(at)
}

/// What a scan's peak is taken for. It is a candidate exactly when the mean is above zero
/// and the peak reaches the height it must; its place is where the correlation is loudest
/// over the search range, index zero standing for the deepest delay; and its delay is
/// that place's, less a margin of sixteen samples.
pub proof fn lemma_what_a_peak_is_taken_for(
    estimator: DelayEstimator,
    scan: FineScan,
    candidate: Option<FineLock>,
)
    requires
        estimator.candidate_of(scan, candidate),
    ensures
        candidate is Some <==> !scan.mean.at_most(Measure { bits: 0 }) && !scan.peak.below(
            scan.gate,
        ),
        candidate matches Some(lock) ==> {
            let deep = estimator.search_origin + estimator.max_delay;
            &&& loudest(scan.correlation@, estimator.max_delay + 1, lock.peak_at as int)
            &&& lock.delay == greater(deep - lock.peak_at - 16, 0)
            &&& lock.ratio == scan.ratio
        },
{
}

/// What a fine frame leaves. One that does not count is dropped: it is skipped when its
/// window was not backed, it leaves nothing to rescan, and nothing else changes. One that
/// counts is folded and kept for a rescan, and from the second on it is scanned, its peak
/// put on record and offered as a candidate. Every frame is consumed.
pub proof fn lemma_what_a_fine_frame_leaves(
    before: DelayEstimator,
    after: DelayEstimator,
    support: WindowSupport,
    near_energy: Measure,
    far_energy: Measure,
    scan: FineScan,
    report: FineObservation,
)
    requires
        after.observed_from(before, support, near_energy, far_energy, scan),
        before.reports(support, near_energy, far_energy, scan, report),
    ensures
        after.near_frame@.len() == 0,
        after.search_origin == before.search_origin,
        after.max_delay == before.max_delay,
        after.fft_len == before.fft_len,
        after.frame_len == before.frame_len,
        ({
            let counts = frame_counts(before, support, near_energy, far_energy);
            let backed = support.missing_head == 0 && 4 * support.missing_tail
                <= before.frame_len;
            &&& report.scored == counts
            &&& after.frames == before.frames + (if counts {
                1int
            } else {
                0
            })
            &&& after.skipped == (if backed {
                before.skipped as int
            } else {
                one_more(before.skipped)
            })
            &&& after.retained_near_valid == counts
            &&& counts ==> after.retained_near@ == before.near_frame@
            &&& if counts && before.frames >= 1 {
                &&& after.scans == before.scans + 1
                &&& after.last_scan_ratio == scan.ratio
                &&& after.last_scan_origin == before.search_origin
                &&& after.last_scan_peak_at is Some
                &&& loudest(
                    scan.correlation@,
                    before.max_delay + 1,
                    after.last_scan_peak_at->0 as int,
                )
                &&& report.candidate is Some <==> !scan.mean.at_most(Measure { bits: 0 })
                    && !scan.peak.below(scan.gate)
            } else {
                &&& after.scans == before.scans
                &&& after.last_scan_ratio == before.last_scan_ratio
                &&& after.last_scan_origin == before.last_scan_origin
                &&& after.last_scan_peak_at == before.last_scan_peak_at
                &&& report.candidate is None
            }
        }),
{
}

/// When a kept frame is scanned again: when there is one, and it counts against the new
/// window.
pub proof fn lemma_when_a_frame_is_scanned_again(
    estimator: DelayEstimator,
    support: WindowSupport,
    near_energy: Measure,
    far_energy: Measure,
)
    ensures
        estimator.rescans(support, near_energy, far_energy) <==> estimator.retained_near_valid
            && frame_counts(estimator, support, near_energy, far_energy),
{
}

/// What moving the search leaves: the new origin, no accumulation and no frame under
/// construction; the record, the kept frame and the sizes stand.
pub proof fn lemma_what_moving_the_search_leaves(
    before: DelayEstimator,
    after: DelayEstimator,
    origin: usize,
)
    requires
        after.restarted_from(before, origin),
    ensures
        after.search_origin == origin,
        after.frames == 0,
        after.near_frame@.len() == 0,
        after.scans == before.scans,
        after.skipped == before.skipped,
        after.last_scan_peak_at == before.last_scan_peak_at,
        after.last_scan_ratio == before.last_scan_ratio,
        after.last_scan_origin == before.last_scan_origin,
        after.retained_near@ == before.retained_near@,
        after.retained_near_valid == before.retained_near_valid,
        after.max_delay == before.max_delay,
        after.frame_len == before.frame_len,
        after.fft_len == before.fft_len,
{
}

/// The coarse scan's sizes. A bin is the nearest whole number of samples to one
/// millisecond; the ceiling, the frame of 256 ms and the guards of 30 ms and 8 ms are cut
/// into whole bins of the rate that gives; and the far history holds the window and four
/// thousand bins more.
pub proof fn lemma_the_coarse_sizes(
    acquirer: crate::acquire::DelayAcquirer,
    rate: u32,
    fine_ms: u16,
    ceiling_ms: u16,
)
    requires
        8000 <= rate <= 48000,
        10 <= ceiling_ms <= 2000,
        acquirer.sized(rate, fine_ms, ceiling_ms),
    ensures
        ({
            let scan = acquirer.coarse;
            let d = scan.decimation as int;
            let bins = rate as int / d;
            let cut = |bins_of: int, ms: int|
                1000 * bins_of <= ms * bins && ms * bins < 1000 * (bins_of + 1);
            &&& 2 * d * 1000 <= 2 * rate + 1000 && 2 * rate < 2 * d * 1000 + 1000
            &&& cut(scan.span as int, ceiling_ms as int)
            &&& cut(scan.frame as int, 256)
            &&& cut(scan.peak_guard as int, 30)
            &&& cut(scan.ceiling_guard as int, 8)
            &&& scan.far_env.capacity == scan.frame + scan.span + 4000
        }),
{
    let d = acquirer.coarse.decimation as int;
    let bins = rate as int / d;
    assert(900 <= bins <= 1100) by (nonlinear_arith)
        requires
            8 <= d <= 48,
            bins == rate as int / d,
            2 * d * 1000 <= 2 * rate + 1000,
            2 * rate < 2 * d * 1000 + 1000,
            8000 <= rate <= 48000,
    ;
    assert(9000 <= ceiling_ms * bins) by (nonlinear_arith)
        requires
            10 <= ceiling_ms,
            900 <= bins,
    ;
}

/// Whether a coarse frame counts: its whole window lies in the far history, but for at
/// most a quarter of a frame at its end, and neither side is flat.
pub open spec fn coarse_frame_counts(scan: CoarseScan, score: CoarseScore) -> bool {
    let end = scan.near_frame_start_abs + scan.frame;
    let start = end - scan.frame - scan.span;
    let kept_from = greater(scan.far_env.next_abs - scan.far_env.capacity, 0);
    &&& start >= kept_from
    &&& 4 * (end - scan.far_env.next_abs) <= scan.frame || end <= scan.far_env.next_abs
    // The level and variance floors, as bit patterns.
    &&& !score.far_level.at_most(Measure { bits: 0x3f34_b96b_ee24_033f })
    &&& !score.near_energy.at_most(Measure { bits: 0x3d71_9799_812d_ea11 })
}

/// Whether a value stands above zero.
pub open spec fn positive(value: Measure) -> bool {
    (Measure { bits: 0 }).below(value)
}

/// Whether `at` is where an average peaks: it stands above zero, none stands higher, and
/// of equals it is the last, which is the shortest delay.
pub open spec fn peaks_at(values: Seq<Measure>, at: int) -> bool {
    &&& 0 <= at < values.len()
    &&& positive(values[at])
    &&& forall|k: int| 0 <= k < values.len() ==> !values[at].below(#[trigger] values[k])
    &&& forall|k: int| at < k < values.len() ==> !(values[at].at_most(#[trigger] values[k]))
}

/// Whether `k` is the strongest competitor of a peak: it stands above zero, more than the
/// guard away, and none there stands higher, nor as high before it.
pub open spec fn competes(values: Seq<Measure>, at: int, guard: int, k: int) -> bool {
    let far = |j: int| j - at > guard || at - j > guard;
    &&& 0 <= k < values.len()
    &&& far(k)
    &&& positive(values[k])
    &&& forall|j: int|
        #![trigger values[j]]
        0 <= j < values.len() && far(j) ==> !values[k].below(values[j])
    &&& forall|j: int|
        #![trigger values[j]]
        0 <= j < k && far(j) ==> !values[k].at_most(values[j])
}

/// What a coarse frame leaves, deciding aside. One that does not count is dropped and
/// leaves everything decided as it was. One that counts is counted and folded; only the
/// fourth in a row of those decides anything, and the average then starts over. The scan
/// gives up on the sixty-fourth without a region. The far history is never touched, and
/// every frame is consumed.
pub proof fn lemma_what_a_coarse_frame_leaves(
    before: CoarseScan,
    after: CoarseScan,
    score: CoarseScore,
)
    requires
        before.wf(),
        before.best is None,
        !before.exhausted,
        before.frames < u32::MAX,
        after.observed_from(before, score),
    ensures
        after.near_block@.len() == 0,
        after.far_env == before.far_env,
        after.far_block == before.far_block,
        after.far_pushed == before.far_pushed,
        ({
            let counts = coarse_frame_counts(before, score);
            &&& after.frames == before.frames + (if counts {
                1int
            } else {
                0
            })
            &&& after.accumulated == (if !counts {
                before.accumulated as int
            } else if before.accumulated == 3 {
                0
            } else {
                before.accumulated + 1
            })
            &&& !counts ==> after.corr_avg@ == before.corr_avg@ && after.last_corr
                == before.last_corr && after.beyond_ceiling == before.beyond_ceiling
                && after.best is None && !after.exhausted
            &&& counts && before.accumulated < 3 ==> after.corr_avg@ == score.folded@
                && after.best is None && after.beyond_ceiling == before.beyond_ceiling
            &&& counts && before.accumulated == 3 ==> forall|k: int|
                0 <= k <= before.span ==> (#[trigger] after.corr_avg@[k]).bits == 0
            &&& after.exhausted <==> counts && after.frames >= 64 && after.best is None
        }),
{
}

/// When a region is found: on a fourth counting frame whose average peaks at a quarter or
/// more, at a lag no closer to the ceiling than its guard, and not below one and a half
/// times its strongest competitor. The region is the peak's lag, in samples. A confident
/// peak inside the guard of the ceiling is reported as beyond it instead, a region clears
/// that report, and no other frame touches either.
pub proof fn lemma_when_a_region_is_found(
    before: CoarseScan,
    after: CoarseScan,
    score: CoarseScore,
    at: int,
)
    requires
        before.wf(),
        before.best is None,
        before.fits(score),
        before.accumulated == 3,
        coarse_frame_counts(before, score),
        after.observed_from(before, score),
        peaks_at(score.average@, at),
    ensures
        ({
            // A quarter, as a bit pattern.
            let confident = !score.average@[at].below(Measure { bits: 0x3fd0_0000_0000_0000 });
            let at_the_ceiling = at < before.ceiling_guard;
            let rivalled = exists|k: int|
                #[trigger] competes(score.average@, at, before.peak_guard as int, k)
                    && score.average@[at].below(score.raised@[k]);
            &&& after.best is Some <==> confident && !at_the_ceiling && !rivalled
            &&& after.best matches Some(region) ==> region.delay == (before.span - at)
                * before.decimation && region.corr == score.average_report@[at]
            &&& after.beyond_ceiling <==> (confident && at_the_ceiling) || (before.beyond_ceiling
                && after.best is None)
        }),
{
    lemma_the_peak_is_the_top(score.average@, at);
    let top = choose|top: int| #[trigger]
        crate::coarse::is_top_lag(score.average@, top) && after.decision(before, score, top);
    lemma_one_top(score.average@, at, top);
    assert forall|k: int|
        crate::coarse::is_rival(score.average@, at, before.peak_guard as int, k) == #[trigger]
            competes(score.average@, at, before.peak_guard as int, k) by {
        lemma_a_competitor_is_a_rival(score.average@, at, before.peak_guard as int, k);
    }
    if before.rivalled(score, at) {
        let k = choose|k: int|
            #[trigger] crate::coarse::is_rival(score.average@, at, before.peak_guard as int, k)
                && score.average@[at].below(score.raised@[k]);
        assert(competes(score.average@, at, before.peak_guard as int, k));
    }
}

/// When nothing of the average stands above zero, nothing is found.
pub proof fn lemma_no_peak_no_region(before: CoarseScan, after: CoarseScan, score: CoarseScore)
    requires
        before.wf(),
        before.best is None,
        after.observed_from(before, score),
        forall|k: int| 0 <= k < score.average@.len() ==> !positive(#[trigger] score.average@[k]),
    ensures
        after.best is None,
        after.beyond_ceiling == before.beyond_ceiling,
{
}

proof fn lemma_the_peak_is_the_top(values: Seq<Measure>, at: int)
    requires
        peaks_at(values, at),
    ensures
        crate::coarse::is_top_lag(values, at),
        crate::coarse::height(values[at]) > 0,
{
    assert forall|j: int| 0 <= j < values.len() implies crate::coarse::height(
        #[trigger] values[j],
    ) <= crate::coarse::height(values[at]) by {
        assert(!values[at].below(values[j]));
    }
}

proof fn lemma_one_top(values: Seq<Measure>, a: int, b: int)
    requires
        crate::coarse::is_top_lag(values, a),
        crate::coarse::is_top_lag(values, b),
    ensures
        a == b,
{
    assert(crate::coarse::height(values[a]) == crate::coarse::height(values[b]));
    if a < b {
        assert(crate::coarse::height(values[b]) < crate::coarse::height(values[a]));
    } else if b < a {
        assert(crate::coarse::height(values[a]) < crate::coarse::height(values[b]));
    }
}

proof fn lemma_a_competitor_is_a_rival(values: Seq<Measure>, at: int, guard: int, k: int)
    ensures
        crate::coarse::is_rival(values, at, guard, k) == competes(values, at, guard, k),
{
    if crate::coarse::is_rival(values, at, guard, k) {
        assert forall|j: int|
            #![trigger values[j]]
            0 <= j < values.len() && (j - at > guard || at - j > guard) implies !values[k].below(
            values[j],
        ) by {
            assert(crate::coarse::outside_guard(j, at, guard));
            assert(crate::coarse::height(values[j]) <= crate::coarse::height(values[k]));
        }
        assert forall|j: int|
            #![trigger values[j]]
            0 <= j < k && (j - at > guard || at - j > guard) implies !values[k].at_most(
            values[j],
        ) by {
            assert(crate::coarse::outside_guard(j, at, guard));
            assert(crate::coarse::height(values[j]) < crate::coarse::height(values[k]));
        }
    }
    if competes(values, at, guard, k) {
        assert forall|j: int|
            0 <= j < values.len() && crate::coarse::outside_guard(j, at, guard) implies
            crate::coarse::height(#[trigger] values[j]) <= crate::coarse::height(values[k]) by {
            assert(!values[k].below(values[j]));
        }
        assert forall|j: int|
            0 <= j < k && crate::coarse::outside_guard(j, at, guard) implies crate::coarse::height(
            #[trigger] values[j],
        ) < crate::coarse::height(values[k]) by {
            assert(!values[k].at_most(values[j]));
        }
    }
}

/// What a coarse frame is scanned against: bin `i` of the window is the level banked for
/// its place on the grid the two sides share, and silence where none has been banked yet.
pub proof fn lemma_what_a_coarse_frame_is_scanned_against(scan: CoarseScan, i: int)
    requires
        scan.wf(),
        scan.covered(),
        0 <= i < scan.frame + scan.span,
    ensures
        ({
            let bin = scan.near_frame_start_abs - scan.span + i;
            &&& scan.window_seq().len() == scan.frame + scan.span
            &&& scan.window_seq()[i] == (if bin < scan.far_env.next_abs {
                scan.far_env.at(bin)->0
            } else {
                Sample { bits: 0 }
            })
            &&& bin < scan.far_env.next_abs ==> scan.far_env.at(bin) is Some
        }),
{
}


/// What correlation a counting frame reports: that of its own peak, the shortest delay of
/// equals, and none where nothing stands above zero.
pub proof fn lemma_what_correlation_is_reported(
    before: CoarseScan,
    after: CoarseScan,
    score: CoarseScore,
    at: int,
)
    requires
        before.wf(),
        coarse_frame_counts(before, score),
        after.observed_from(before, score),
    ensures
        peaks_at(score.corr@, at) ==> after.last_corr == score.corr_report@[at],
        (forall|k: int| 0 <= k < score.corr@.len() ==> !positive(#[trigger] score.corr@[k]))
            ==> after.last_corr.bits == 0,
{
    let top = choose|top: int| #[trigger]
        crate::coarse::is_top_lag(score.corr@, top) && after.last_corr == (
        if crate::coarse::height(score.corr@[top]) > 0 {
            score.corr_report@[top]
        } else {
            Sample { bits: 0 }
        });
    if peaks_at(score.corr@, at) {
        lemma_the_peak_is_the_top(score.corr@, at);
        lemma_one_top(score.corr@, at, top);
    }
}

} // verus!
