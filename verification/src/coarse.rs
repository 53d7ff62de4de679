//! The coarse global delay scan: a cheap, heavily downsampled search for the
//! REGION the echo lives in, across the whole configured ceiling.
//!
//! # Why a second scan exists
//!
//! The fine estimator ([`crate::delay`]) is sample-accurate but narrow, and
//! widening it to cover a Bluetooth or speakerphone transport delay is costly.
//! This scan instead answers a strictly easier question, "roughly where", at a
//! resolution of one millisecond, and hands the answer to the fine estimator as
//! a place to look.
//!
//! # The signal chain
//!
//! Both streams are reduced to a magnitude envelope at [`COARSE_RATE_HZ`]: the
//! mean of the absolute sample value over each block of `D` native samples. Both
//! chains are cut on the FAR-ABSOLUTE sample index, so envelope block `j` covers
//! far-absolute natives `[j*D, (j+1)*D)` on both sides, sharing one grid. The
//! scan cuts the blocks; the host takes their means.
//!
//! # Deciding
//!
//! Per-lag correlations are averaged across [`COARSE_MIN_FRAMES`] frames before
//! anything is decided. The averaged peak must then clear an absolute
//! correlation floor, be a clear winner against the best competitor outside a
//! guard band, and stand clear of the ceiling. A peak pinned at the ceiling is
//! not a region: it means the true delay is at or past the ceiling, and that is
//! reported as a coverage failure rather than acted on.
//!
//! No frame is evaluated at all until the far history covers the whole window,
//! so no decision is ever taken on a partially zero-filled scan.

use vstd::arithmetic::div_mod::lemma_fundamental_div_mod_converse;
use vstd::prelude::*;

use crate::delay::ORIGIN_LIMIT;
use crate::ring::ReferenceRing;
use crate::sample::{Measure, Sample};

verus! {

/// The rate the coarse global scan runs at. Sets both the decimation factor and
/// the coarse bin size.
pub const COARSE_RATE_HZ: u32 = 1000;

/// Length of one coarse analysis frame, in milliseconds.
pub const COARSE_FRAME_MS: usize = 256;

/// Frames averaged before any region is declared.
pub const COARSE_MIN_FRAMES: u32 = 4;

/// The averaged peak correlation a region must reach: the bit pattern of one
/// quarter.
pub const COARSE_CONFIDENT_CORR_BITS: u64 = 0x3fd0_0000_0000_0000;

/// How far the peak must stand above the best competitor outside the guard
/// band, as a multiple of it: the bit pattern of one and a half.
pub const COARSE_SIDELOBE_RATIO_BITS: u64 = 0x3ff8_0000_0000_0000;

/// Half-width of the exclusion band around the peak for the competitor test, in
/// milliseconds.
pub const COARSE_PEAK_GUARD_MS: usize = 30;

/// How close to the ceiling a peak may sit and still be called a region, in
/// milliseconds. A peak inside this band of the ceiling is reported as
/// [`CoarseScan::beyond_ceiling`] instead.
pub const COARSE_CEILING_GUARD_MS: usize = 8;

/// The mean envelope level the far window must carry before a frame is scored,
/// in linear amplitude: the bit pattern of 3.162 277 7e-4.
pub const COARSE_FAR_ACTIVE_FLOOR_BITS: u64 = 0x3f34_b96b_ee24_033f;

/// Division guard on the per-frame and per-lag energies: the bit pattern of one
/// trillionth. Not a level gate: [`COARSE_FAR_ACTIVE_FLOOR_BITS`] is that.
pub const COARSE_VARIANCE_FLOOR_BITS: u64 = 0x3d71_9799_812d_ea11;

/// Active frames after which a scan that has never found a region stops working.
///
/// Bounds the cost of a stream whose delay is simply not findable.
pub const COARSE_GIVE_UP_FRAMES: u32 = 64;

/// Slack retained in the decimated far history beyond the scanned window, in
/// bins. Mirrors the native reference ring's own slack so the two histories
/// expire together.
pub const COARSE_RING_SLACK_BINS: usize = 4000;

/// The largest trailing zero-fill a coarse window may carry and still be scored,
/// as a reciprocal fraction of the frame.
pub const COARSE_TAIL_DEFICIT_DEN: usize = 4;

/// The highest sample rate a coarse frame can be cut at inside the narrowest
/// address range.
pub const COARSE_RATE_LIMIT: u32 = 0x0fff_ffff;

/// The coarse global scan's current best region.
#[derive(Debug, Clone, Copy, PartialEq, Eq, Structural)]
pub struct CoarseRegion {
    /// Delay in NATIVE samples, quantized to one coarse bin.
    pub delay: usize,
    /// Averaged normalized correlation at the peak, in `0.0..=1.0`.
    pub corr: Sample,
}

/// The measured side of one scored coarse frame, one entry per lag. Lag `k`
/// maps to a delay of `span - k` bins.
#[derive(Debug)]
pub struct CoarseScore {
    /// The mean level of the far window.
    pub far_level: Measure,
    /// The energy of the near frame with its mean removed.
    pub near_energy: Measure,
    /// This frame's per-lag correlation.
    pub corr: Vec<Measure>,
    /// The same, narrowed to a sample for reporting.
    pub corr_report: Vec<Sample>,
    /// The running per-lag sum with this frame folded in.
    pub folded: Vec<Measure>,
    /// That sum divided by the number of frames in it.
    pub average: Vec<Measure>,
    /// The average narrowed to a sample for reporting.
    pub average_report: Vec<Sample>,
    /// The average scaled by the sidelobe ratio.
    pub raised: Vec<Measure>,
}

/// How high a correlation stands above zero; nothing for a NaN or a negative
/// value.
pub open spec fn height(value: Measure) -> int {
    if value.nan() || value.rank() <= 0 {
        0
    } else {
        value.rank()
    }
}

/// Whether `at` is the lag the scan peaks at: the highest one, the shortest
/// delay (the largest index) winning a tie, and index zero when nothing stands
/// above zero at all.
pub open spec fn is_top_lag(values: Seq<Measure>, at: int) -> bool {
    &&& 0 <= at < values.len()
    &&& forall|j: int| 0 <= j < values.len() ==> height(#[trigger] values[j]) <= height(values[at])
    &&& if height(values[at]) == 0 {
        at == 0
    } else {
        forall|j: int|
            at < j < values.len() ==> height(#[trigger] values[j]) < height(values[at])
    }
}

/// Whether lag `k` lies outside the guard band around the peak.
pub open spec fn outside_guard(k: int, at: int, guard: int) -> bool {
    k - at > guard || at - k > guard
}

/// Whether `k` is the peak's strongest competitor: the first of the highest
/// lags outside the guard band, standing above zero.
pub open spec fn is_rival(values: Seq<Measure>, at: int, guard: int, k: int) -> bool {
    &&& 0 <= k < values.len()
    &&& outside_guard(k, at, guard)
    &&& height(values[k]) > 0
    &&& forall|j: int|
        0 <= j < values.len() && outside_guard(j, at, guard) ==> height(#[trigger] values[j])
            <= height(values[k])
    &&& forall|j: int|
        0 <= j < k && outside_guard(j, at, guard) ==> height(#[trigger] values[j]) < height(
            values[k],
        )
}

/// The lag the scan peaks at. Scanned descending so that delay ascends and an
/// exact tie resolves to the shorter delay.
pub fn top_lag(values: &Vec<Measure>) -> (at: usize)
    requires
        values@.len() > 0,
    ensures
        is_top_lag(values@, at as int),
{
    let mut peak: Measure = Measure::zero();
    let mut at: usize = 0;
    let mut k: usize = values.len();
    while k > 0
        invariant
            k <= values@.len(),
            values@.len() > 0,
            !peak.nan(),
            peak.rank() >= 0,
            peak.rank() == 0 ==> at == 0,
            peak.rank() > 0 ==> k <= at < values@.len() && height(values@[at as int])
                == peak.rank(),
            forall|j: int|
                k <= j < values@.len() ==> height(#[trigger] values@[j]) <= peak.rank(),
            forall|j: int|
                k <= j < values@.len() && j > at && peak.rank() > 0 ==> height(
                    #[trigger] values@[j],
                ) < peak.rank(),
        decreases k,
    {
        k -= 1;
        let value: Measure = values[k];
        if peak.is_below(value) {
            peak = value;
            at = k;
        }
    }
    at
}

/// The peak's strongest competitor outside the guard band, if any lag out there
/// stands above zero.
pub fn rival_lag(values: &Vec<Measure>, at: usize, guard: usize) -> (r: Option<usize>)
    requires
        at < values@.len(),
    ensures
        r matches Some(k) ==> is_rival(values@, at as int, guard as int, k as int),
        r is None ==> forall|j: int|
            0 <= j < values@.len() && outside_guard(j, at as int, guard as int) ==> height(
                #[trigger] values@[j],
            ) == 0,
{
    let mut second: Measure = Measure::zero();
    let mut found: Option<usize> = None;
    let mut k: usize = 0;
    while k < values.len()
        invariant
            k <= values@.len(),
            !second.nan(),
            second.rank() >= 0,
            found is None ==> second.rank() == 0,
            found matches Some(f) ==> f < k && outside_guard(f as int, at as int, guard as int)
                && height(values@[f as int]) == second.rank() && second.rank() > 0,
            forall|j: int|
                0 <= j < k && outside_guard(j, at as int, guard as int) ==> height(
                    #[trigger] values@[j],
                ) <= second.rank(),
            found matches Some(f) ==> forall|j: int|
                0 <= j < f && outside_guard(j, at as int, guard as int) ==> height(
                    #[trigger] values@[j],
                ) < second.rank(),
        decreases values@.len() - k,
    {
        let excluded: bool = if k >= at {
            k - at <= guard
        } else {
            at - k <= guard
        };
        if !excluded {
            let value: Measure = values[k];
            if second.is_below(value) {
                second = value;
                found = Some(k);
            }
        }
        k += 1;
    }
    found
}

/// A running per-lag sum with nothing folded into it.
pub open spec fn empty_sums(count: int) -> Seq<Measure> {
    Seq::new(count as nat, |k: int| Measure { bits: 0 })
}

/// The cheap, heavily downsampled global delay scan. See the module
/// documentation.
pub struct CoarseScan {
    /// Native samples per envelope bin.
    pub decimation: usize,
    /// The scanned span in bins: the ceiling.
    pub span: usize,
    /// One analysis frame in bins.
    pub frame: usize,
    /// Ceiling guard in bins.
    pub ceiling_guard: usize,
    /// Competitor exclusion half-width in bins.
    pub peak_guard: usize,
    /// The far envelope, addressed by decimated absolute index.
    pub far_env: ReferenceRing,
    /// Native far samples of the block under construction.
    pub far_block: Vec<Sample>,
    /// Completed far blocks handed out and not yet banked.
    pub unbanked: usize,
    /// Native far samples pushed in total; mirrors the reference ring's own
    /// absolute counter so the two grids cannot drift.
    pub far_pushed: u64,
    /// Native near samples of the frame under construction.
    pub near_block: Vec<Sample>,
    /// The decimated absolute index the near frame's first bin sits at.
    pub near_frame_start_abs: u64,
    /// The running per-lag sum across accumulated frames.
    pub corr_avg: Vec<Measure>,
    /// Frames accumulated into `corr_avg` since the last decision cycle.
    pub accumulated: u32,
    /// Frames scored in total since construction, reset or re-arm.
    pub frames: u32,
    /// The most recent frame's peak correlation, for diagnostics.
    pub last_corr: Sample,
    /// The confirmed region, once one exists.
    pub best: Option<CoarseRegion>,
    /// Whether the peak stood at the ceiling, meaning the delay is out of reach.
    pub beyond_ceiling: bool,
    /// Whether the scan has given up.
    pub exhausted: bool,
}

/// Native samples per envelope bin at a rate: the rate in kilohertz, rounded to
/// the nearest, and never less than one.
pub open spec fn decimation_at(sample_rate: int) -> int {
    if (sample_rate + 500) / 1000 < 1 {
        1
    } else {
        (sample_rate + 500) / 1000
    }
}

/// A duration in bins at a rate, never less than one. One bin is one native
/// block, so the duration is scaled by the achieved bin rate rather than the
/// nominal one, which matters only at rates that are not a multiple of 1 kHz.
pub open spec fn bins_in(ms: int, sample_rate: int) -> int {
    let bins: int = (ms * (sample_rate / decimation_at(sample_rate))) / 1000;
    if bins < 1 {
        1
    } else {
        bins
    }
}

/// A duration cut into bins is never longer than the duration, one bin aside.
proof fn lemma_bins_fit(ms: int, sample_rate: int)
    requires
        0 <= ms,
        0 <= sample_rate,
    ensures
        decimation_at(sample_rate) >= 1,
        0 <= sample_rate / decimation_at(sample_rate) < 2000,
        bins_in(ms, sample_rate) >= 1,
        bins_in(ms, sample_rate) * decimation_at(sample_rate) <= (ms * sample_rate) / 1000
            || bins_in(ms, sample_rate) == 1,
        bins_in(ms, sample_rate) <= 2 * ms || bins_in(ms, sample_rate) == 1,
{
    let d = decimation_at(sample_rate);
    let rate = sample_rate / d;
    vstd::arithmetic::div_mod::lemma_fundamental_div_mod(sample_rate, d);
    assert(0 <= rate && rate * d <= sample_rate) by (nonlinear_arith)
        requires
            sample_rate == d * rate + sample_rate % d,
            0 <= sample_rate % d,
            0 <= sample_rate,
            d >= 1,
            rate == sample_rate / d,
    ;
    assert(rate < 2000) by (nonlinear_arith)
        requires
            rate * d <= sample_rate,
            d >= 1,
            2 * (sample_rate + 500) / 1000 >= 0,
            1000 * d + 500 > sample_rate,
            0 <= rate,
    ;
    let bins = (ms * rate) / 1000;
    assert(0 <= ms * rate && 0 <= bins) by (nonlinear_arith)
        requires
            0 <= ms,
            0 <= rate,
            bins == (ms * rate) / 1000,
    ;
    assert(bins * d <= (ms * sample_rate) / 1000) by {
        assert(1000 * (bins * d) <= ms * sample_rate) by (nonlinear_arith)
            requires
                1000 * bins <= ms * rate,
                rate * d <= sample_rate,
                0 <= ms,
                d >= 1,
        ;
    }
    assert(bins <= 2 * ms) by {
        assert(ms * rate <= ms * 2000) by (nonlinear_arith)
            requires
                0 <= ms,
                rate < 2000,
        ;
    }
}

/// The part of a stream that makes up whole blocks of `d` samples.
pub open spec fn whole_blocks(stream: Seq<Sample>, d: int) -> Seq<Sample> {
    stream.take((stream.len() as int / d) * d)
}

/// The part of a stream after its last whole block of `d` samples.
pub open spec fn leftover(stream: Seq<Sample>, d: int) -> Seq<Sample> {
    stream.skip((stream.len() as int / d) * d)
}

/// How the caller chunks a stream makes no difference to where its blocks are
/// cut: cutting `a` and then `b` after what `a` left over hands out, end to end,
/// exactly the blocks of `a + b`, and leaves the same remainder.
pub proof fn lemma_cutting_ignores_chunk_boundaries(a: Seq<Sample>, b: Seq<Sample>, d: int)
    requires
        d >= 1,
    ensures
        whole_blocks(a, d) + whole_blocks(leftover(a, d) + b, d) == whole_blocks(a + b, d),
        leftover(leftover(a, d) + b, d) == leftover(a + b, d),
        leftover(a, d).len() < d,
{
    let qa = a.len() as int / d;
    vstd::arithmetic::div_mod::lemma_fundamental_div_mod(a.len() as int, d);
    vstd::arithmetic::mul::lemma_mul_is_commutative(qa, d);
    assert(0 <= qa * d <= a.len()) by (nonlinear_arith)
        requires
            a.len() == d * qa + a.len() as int % d,
            0 <= a.len() as int % d,
            d >= 1,
            0 <= qa,
    ;
    let rest = leftover(a, d) + b;
    let qb = rest.len() as int / d;
    vstd::arithmetic::div_mod::lemma_fundamental_div_mod(rest.len() as int, d);
    vstd::arithmetic::mul::lemma_mul_is_commutative(qb, d);
    assert(0 <= qb * d <= rest.len()) by (nonlinear_arith)
        requires
            rest.len() == d * qb + rest.len() as int % d,
            0 <= rest.len() as int % d,
            d >= 1,
            0 <= qb,
    ;
    let left = rest.len() - qb * d;
    assert((qa + qb) * d == qa * d + qb * d) by (nonlinear_arith);
    assert((a + b).len() == (qa + qb) * d + left);
    lemma_fundamental_div_mod_converse((a + b).len() as int, d, qa + qb, left);
    assert(whole_blocks(a, d) + whole_blocks(rest, d) =~= whole_blocks(a + b, d));
    assert(leftover(rest, d) =~= leftover(a + b, d));
}

/// The lag a scan peaks at is unique.
proof fn lemma_the_top_lag_is_unique(values: Seq<Measure>, a: int, b: int)
    requires
        is_top_lag(values, a),
        is_top_lag(values, b),
    ensures
        a == b,
{
    assert(height(values[a]) == height(values[b]));
    if a < b {
        assert(height(values[b]) < height(values[a]));
    } else if b < a {
        assert(height(values[a]) < height(values[b]));
    }
}

/// Scoring is deterministic: two scans in the same state that observe the same
/// score end in the same state.
pub proof fn lemma_scoring_is_deterministic(
    a: CoarseScan,
    b: CoarseScan,
    after_a: CoarseScan,
    after_b: CoarseScan,
    score: CoarseScore,
)
    requires
        a.alike(b),
        after_a.observed_from(a, score),
        after_b.observed_from(b, score),
    ensures
        after_a.alike(after_b),
{
    assert(a.covered() == b.covered());
    if a.scores(score.far_level, score.near_energy) {
        let top_a = choose|top: int| #[trigger]
            is_top_lag(score.corr@, top) && after_a.last_corr == (if height(score.corr@[top]) > 0 {
                score.corr_report@[top]
            } else {
                Sample { bits: 0 }
            });
        let top_b = choose|top: int| #[trigger]
            is_top_lag(score.corr@, top) && after_b.last_corr == (if height(score.corr@[top]) > 0 {
                score.corr_report@[top]
            } else {
                Sample { bits: 0 }
            });
        lemma_the_top_lag_is_unique(score.corr@, top_a, top_b);
        if a.decides() {
            let at_a = choose|at: int| #[trigger]
                is_top_lag(score.average@, at) && after_a.decision(a, score, at);
            let at_b = choose|at: int| #[trigger]
                is_top_lag(score.average@, at) && after_b.decision(b, score, at);
            lemma_the_top_lag_is_unique(score.average@, at_a, at_b);
            assert(a.rivalled(score, at_a) == b.rivalled(score, at_b));
        }
    }
}

/// No decision is ever taken on a partially covered scan: a frame whose window the
/// far history does not cover is discarded, and leaves every count, the running
/// average, the region and the coverage report as they were.
pub proof fn lemma_a_partial_scan_decides_nothing(
    before: CoarseScan,
    after: CoarseScan,
    score: CoarseScore,
)
    requires
        after.observed_from(before, score),
        !before.covered(),
    ensures
        after.same_decision(before),
        after.same_far(before),
{
}

/// A region stands clear of the ceiling and is never declared early: it is found
/// only on the frame that completes an averaging cycle, at a delay no closer to
/// the ceiling than the guard, and a peak inside the guard is reported as a
/// coverage failure instead.
pub proof fn lemma_a_region_stands_clear_of_the_ceiling(
    before: CoarseScan,
    after: CoarseScan,
    score: CoarseScore,
)
    requires
        before.wf(),
        before.best is None,
        before.scores(score.far_level, score.near_energy),
        before.fits(score),
        after.observed_from(before, score),
    ensures
        after.best is Some ==> before.accumulated + 1 == COARSE_MIN_FRAMES,
        after.best matches Some(region) ==> region.delay + before.ceiling_guard * before.decimation
            <= before.span * before.decimation && !after.beyond_ceiling,
        after.best is None && after.frames >= COARSE_GIVE_UP_FRAMES ==> after.exhausted,
{
    if after.best is Some {
        let at = choose|at: int| #[trigger]
            is_top_lag(score.average@, at) && after.decision(before, score, at);
        let bins = before.span - at;
        assert(bins * before.decimation + before.ceiling_guard * before.decimation <= before.span
            * before.decimation) by (nonlinear_arith)
            requires
                bins + before.ceiling_guard <= before.span,
                before.decimation >= 1,
        ;
    }
}

impl CoarseScan {
    /// The geometry fits the machine integers, the far history holds the whole
    /// scanned window, and every buffer stays inside that geometry.
    pub open spec fn wf(self) -> bool {
        &&& self.decimation >= 1
        &&& self.span >= 1
        &&& self.frame >= 1
        &&& self.ceiling_guard <= 0xffff
        &&& self.span <= 0x2_0000
        &&& self.frame <= 0x1000
        &&& self.span * self.decimation <= ORIGIN_LIMIT
        &&& 1 <= self.frame_natives() <= 0x7fff_ffff
        &&& self.far_env.wf()
        &&& self.far_env.capacity == self.window_bins() + COARSE_RING_SLACK_BINS
        &&& self.far_block@.len() < self.decimation
        &&& self.near_block@.len() <= self.frame_natives()
        &&& self.near_frame_start_abs <= 0x7fff_ffff_ffff_ffff
        &&& self.is_finished() ==> self.near_block@.len() == 0
        &&& self.corr_avg@.len() == self.span + 1
        &&& self.accumulated < COARSE_MIN_FRAMES
        &&& (self.accumulated == 0 ==> self.corr_avg@ == empty_sums(self.span + 1))
        &&& self.best matches Some(region) ==> region.delay <= self.span * self.decimation
    }

    /// Native samples in one near frame.
    pub open spec fn frame_natives(self) -> int {
        self.frame * self.decimation
    }

    /// Bins in the far window one frame scans.
    pub open spec fn window_bins(self) -> int {
        self.frame + self.span
    }

    /// Whether two scans are in the same state: the same geometry, the same far
    /// history, the same frame under construction and the same decisions.
    pub open spec fn alike(self, other: CoarseScan) -> bool {
        &&& self.decimation == other.decimation
        &&& self.span == other.span
        &&& self.frame == other.frame
        &&& self.ceiling_guard == other.ceiling_guard
        &&& self.peak_guard == other.peak_guard
        &&& self.far_env.alike(other.far_env)
        &&& self.far_block@ == other.far_block@
        &&& self.unbanked == other.unbanked
        &&& self.far_pushed == other.far_pushed
        &&& self.near_block@ == other.near_block@
        &&& self.near_frame_start_abs == other.near_frame_start_abs
        &&& self.same_decision(other)
    }

    /// Whether the geometry is the same in both states.
    pub open spec fn same_geometry(self, before: CoarseScan) -> bool {
        &&& self.decimation == before.decimation
        &&& self.span == before.span
        &&& self.frame == before.frame
        &&& self.ceiling_guard == before.ceiling_guard
        &&& self.peak_guard == before.peak_guard
        &&& self.far_env.capacity == before.far_env.capacity
    }

    /// Whether the far chain sits on the absolute native grid: the banked
    /// blocks, the blocks handed out, and the block under construction add up
    /// to exactly the natives pushed.
    pub open spec fn far_on_grid(self) -> bool {
        self.far_pushed == (self.far_env.next_abs + self.unbanked) * self.decimation
            + self.far_block@.len()
    }

    /// Whether the near frame under construction sits on the absolute native
    /// grid, the next near sample carrying index `next`.
    pub open spec fn near_on_grid(self, next: int) -> bool {
        self.near_block@.len() > 0 ==> self.near_frame_start_abs * self.decimation
            + self.near_block@.len() == next
    }

    /// Whether a near frame is complete and awaiting its observation.
    pub open spec fn complete(self) -> bool {
        self.near_block@.len() == self.frame_natives()
    }

    /// Whether the scan has stopped working.
    pub open spec fn is_finished(self) -> bool {
        self.best is Some || self.exhausted
    }

    /// The decimated absolute index one past the far window's last bin.
    pub open spec fn window_end(self) -> int {
        self.near_frame_start_abs + self.frame
    }

    /// The decimated absolute index of the far window's first bin.
    pub open spec fn window_start(self) -> int {
        self.window_end() - self.window_bins()
    }

    /// Whether the far history covers the window, a bounded tail deficit aside.
    pub open spec fn covered(self) -> bool {
        &&& self.window_start() >= 0
        &&& self.window_start() >= self.far_env.oldest()
        &&& self.window_end() - self.far_env.next_abs <= self.frame / COARSE_TAIL_DEFICIT_DEN
    }

    /// The far window, bin by bin; a bin with no history behind it is silent.
    pub open spec fn window_seq(self) -> Seq<Sample> {
        Seq::new(
            self.window_bins() as nat,
            |i: int|
                match self.far_env.at(self.window_start() + i) {
                    Some(level) => level,
                    None => Sample { bits: 0 },
                },
        )
    }

    /// Whether a completed frame is scored rather than discarded.
    pub open spec fn scores(self, far_level: Measure, near_energy: Measure) -> bool {
        &&& self.covered()
        &&& !far_level.at_most(Measure { bits: COARSE_FAR_ACTIVE_FLOOR_BITS })
        &&& !near_energy.at_most(Measure { bits: COARSE_VARIANCE_FLOOR_BITS })
    }

    /// Whether a score carries one entry per lag.
    pub open spec fn fits(self, score: CoarseScore) -> bool {
        &&& score.corr@.len() == self.span + 1
        &&& score.corr_report@.len() == self.span + 1
        &&& score.folded@.len() == self.span + 1
        &&& score.average@.len() == self.span + 1
        &&& score.average_report@.len() == self.span + 1
        &&& score.raised@.len() == self.span + 1
    }

    /// Whether scoring this frame completes an averaging cycle.
    pub open spec fn decides(self) -> bool {
        self.accumulated + 1 >= COARSE_MIN_FRAMES
    }

    /// Whether an averaged peak is confident.
    pub open spec fn confident(score: CoarseScore, at: int) -> bool {
        !score.average@[at].below(Measure { bits: COARSE_CONFIDENT_CORR_BITS }) && height(
            score.average@[at],
        ) > 0
    }

    /// Whether a peak lag is pinned at the ceiling.
    pub open spec fn pinned(self, at: int) -> bool {
        (self.span - at) + self.ceiling_guard > self.span
    }

    /// Whether a competitor outside the guard band denies the peak.
    pub open spec fn rivalled(self, score: CoarseScore, at: int) -> bool {
        exists|k: int|
            #[trigger] is_rival(score.average@, at, self.peak_guard as int, k)
                && score.average@[at].below(score.raised@[k])
    }

    /// The region and the coverage report an averaged peak leaves behind.
    pub open spec fn decision(self, before: CoarseScan, score: CoarseScore, at: int) -> bool {
        if !CoarseScan::confident(score, at) {
            self.best == before.best && self.beyond_ceiling == before.beyond_ceiling
        } else if before.pinned(at) {
            self.best == before.best && self.beyond_ceiling
        } else if before.rivalled(score, at) {
            self.best == before.best && self.beyond_ceiling == before.beyond_ceiling
        } else {
            &&& !self.beyond_ceiling
            &&& self.best matches Some(region) && region.delay == (before.span - at)
                * before.decimation && region.corr == score.average_report@[at]
        }
    }

    /// Whether the far side is the same in both states.
    pub open spec fn same_far(self, before: CoarseScan) -> bool {
        &&& self.far_env == before.far_env
        &&& self.far_block == before.far_block
        &&& self.unbanked == before.unbanked
        &&& self.far_pushed == before.far_pushed
    }

    /// Whether the decision state is the same in both states.
    pub open spec fn same_decision(self, before: CoarseScan) -> bool {
        &&& self.corr_avg@ == before.corr_avg@
        &&& self.accumulated == before.accumulated
        &&& self.frames == before.frames
        &&& self.last_corr == before.last_corr
        &&& self.best == before.best
        &&& self.beyond_ceiling == before.beyond_ceiling
        &&& self.exhausted == before.exhausted
    }

    /// Whether nothing has been decided and nothing is under construction.
    pub open spec fn undecided(self) -> bool {
        &&& self.near_block@ == Seq::<Sample>::empty()
        &&& self.near_frame_start_abs == 0
        &&& self.corr_avg@ == empty_sums(self.span + 1)
        &&& self.accumulated == 0
        &&& self.frames == 0
        &&& self.last_corr == (Sample { bits: 0 })
        &&& self.best is None
        &&& !self.beyond_ceiling
        &&& !self.exhausted
    }

    /// Whether `self` is `before` with its decisions cleared and its far history
    /// kept.
    pub open spec fn rearmed_from(self, before: CoarseScan) -> bool {
        &&& self.same_geometry(before)
        &&& self.same_far(before)
        &&& self.undecided()
    }

    /// Whether `self` is `before` with its near-side evidence dropped at a seam.
    pub open spec fn discarded_from(self, before: CoarseScan) -> bool {
        &&& self.near_block@ == Seq::<Sample>::empty()
        &&& self.corr_avg@ == empty_sums(before.span + 1)
        &&& self == (CoarseScan {
            near_block: self.near_block,
            corr_avg: self.corr_avg,
            accumulated: 0,
            ..before
        })
    }

    /// The just-constructed state over the same geometry.
    pub open spec fn pristine(self) -> bool {
        &&& self.undecided()
        &&& self.far_env.next_abs == 0
        &&& self.far_block@ == Seq::<Sample>::empty()
        &&& self.unbanked == 0
        &&& self.far_pushed == 0
    }

    /// Whether `self` is what observing a completed frame leaves of `before`.
    pub open spec fn observed_from(self, before: CoarseScan, score: CoarseScore) -> bool {
        &&& self.same_geometry(before)
        &&& self.same_far(before)
        &&& self.near_block@ == Seq::<Sample>::empty()
        &&& self.near_frame_start_abs == before.near_frame_start_abs
        &&& if !before.scores(score.far_level, score.near_energy) {
            self.same_decision(before)
        } else {
            &&& self.frames == crate::track::bumped(before.frames)
            &&& exists|top: int| #[trigger]
                is_top_lag(score.corr@, top) && self.last_corr == (if height(score.corr@[top]) > 0 {
                    score.corr_report@[top]
                } else {
                    Sample { bits: 0 }
                })
            &&& self.exhausted == (before.exhausted || (self.frames >= COARSE_GIVE_UP_FRAMES && (
            self.best is None || !before.decides())))
            &&& if !before.decides() {
                &&& self.corr_avg@ == score.folded@
                &&& self.accumulated == before.accumulated + 1
                &&& self.best == before.best
                &&& self.beyond_ceiling == before.beyond_ceiling
            } else {
                &&& self.corr_avg@ == empty_sums(before.span + 1)
                &&& self.accumulated == 0
                &&& exists|at: int| #[trigger]
                    is_top_lag(score.average@, at) && self.decision(before, score, at)
            }
        }
    }

    /// Constructs the scan for a ceiling of `ceiling_ms` at `sample_rate`.
    pub fn new(sample_rate: u32, ceiling_ms: u16) -> (r: CoarseScan)
        requires
            sample_rate <= COARSE_RATE_LIMIT,
            crate::timing::samples_in(ceiling_ms as int, sample_rate as int) <= ORIGIN_LIMIT,
        ensures
            r.wf(),
            r.pristine(),
            r.decimation == decimation_at(sample_rate as int),
            r.span == bins_in(ceiling_ms as int, sample_rate as int),
            r.frame == bins_in(COARSE_FRAME_MS as int, sample_rate as int),
            r.ceiling_guard == bins_in(COARSE_CEILING_GUARD_MS as int, sample_rate as int),
            r.peak_guard == bins_in(COARSE_PEAK_GUARD_MS as int, sample_rate as int),
    {
        let rounded: u32 = (sample_rate + COARSE_RATE_HZ / 2) / COARSE_RATE_HZ;
        let decimation: usize = if rounded < 1 {
            1
        } else {
            rounded as usize
        };
        let rate: usize = sample_rate as usize / decimation;
        proof {
            lemma_bins_fit(ceiling_ms as int, sample_rate as int);
            lemma_bins_fit(COARSE_FRAME_MS as int, sample_rate as int);
            lemma_bins_fit(COARSE_CEILING_GUARD_MS as int, sample_rate as int);
            lemma_bins_fit(COARSE_PEAK_GUARD_MS as int, sample_rate as int);
        }
        let span: usize = CoarseScan::bins(ceiling_ms as usize, rate);
        let frame: usize = CoarseScan::bins(COARSE_FRAME_MS, rate);
        let ceiling_guard: usize = CoarseScan::bins(COARSE_CEILING_GUARD_MS, rate);
        let peak_guard: usize = CoarseScan::bins(COARSE_PEAK_GUARD_MS, rate);
        let window_len: usize = frame + span;
        let mut corr_avg: Vec<Measure> = Vec::new();
        corr_avg.resize(span + 1, Measure::zero());
        assert(corr_avg@ =~= empty_sums(span + 1));
        let r = CoarseScan {
            decimation,
            span,
            frame,
            ceiling_guard,
            peak_guard,
            far_env: ReferenceRing::new(window_len + COARSE_RING_SLACK_BINS),
            far_block: Vec::new(),
            unbanked: 0,
            far_pushed: 0,
            near_block: Vec::new(),
            near_frame_start_abs: 0,
            corr_avg,
            accumulated: 0,
            frames: 0,
            last_corr: Sample::silence(),
            best: None,
            beyond_ceiling: false,
            exhausted: false,
        };
        proof {
            let rate = sample_rate as int;
            assert(1 * decimation == decimation);
            assert(frame * decimation >= 1) by (nonlinear_arith)
                requires
                    frame >= 1,
                    decimation >= 1,
            ;
            assert((256 * rate) / 1000 <= 0x7fff_ffff);
        }
        r
    }

    /// A duration in bins at a bin rate, never less than one.
    fn bins(ms: usize, bin_rate: usize) -> (r: usize)
        requires
            ms <= 0xffff,
            bin_rate < 2000,
        ensures
            r == (if (ms * bin_rate) / 1000 < 1 {
                1
            } else {
                (ms * bin_rate) / 1000
            }),
    {
        assert(0 <= ms * bin_rate <= 0xffff * 2000) by (nonlinear_arith)
            requires
                ms <= 0xffff,
                bin_rate < 2000,
        ;
        let n: usize = (ms * bin_rate) / 1000;
        if n < 1 {
            1
        } else {
            n
        }
    }

    /// One coarse bin in native samples: the scan's resolution.
    pub fn bin_samples(&self) -> (r: usize)
        ensures
            r == self.decimation,
    {
        self.decimation
    }

    /// The scanned ceiling in native samples.
    pub fn ceiling_samples(&self) -> (r: usize)
        requires
            self.wf(),
        ensures
            r == self.span * self.decimation,
    {
        self.span * self.decimation
    }

    /// The confirmed region, if the scan has found one.
    pub fn region(&self) -> (r: Option<CoarseRegion>)
        ensures
            r == self.best,
    {
        self.best
    }

    /// Whether the peak stood at the ceiling, meaning the true delay is at or
    /// beyond the ceiling and this engine cannot align it.
    pub fn beyond_ceiling(&self) -> (r: bool)
        ensures
            r == self.beyond_ceiling,
    {
        self.beyond_ceiling
    }

    /// Frames scored since construction, the last reset or the last re-arm.
    pub fn frames(&self) -> (r: u32)
        ensures
            r == self.frames,
    {
        self.frames
    }

    /// The scan's current peak correlation: the confirmed region's averaged
    /// value once one exists, and the most recent frame's peak before that.
    pub fn correlation(&self) -> (r: Sample)
        ensures
            r == (match self.best {
                Some(region) => region.corr,
                None => self.last_corr,
            }),
    {
        match self.best {
            Some(region) => region.corr,
            None => self.last_corr,
        }
    }

    /// Whether the scan has stopped working, either because it found a region or
    /// because it gave up.
    pub fn finished(&self) -> (r: bool)
        ensures
            r == self.is_finished(),
    {
        self.best.is_some() || self.exhausted
    }

    /// Whether the scan gave up without confirming a region.
    pub fn exhausted(&self) -> (r: bool)
        ensures
            r == self.exhausted,
    {
        self.exhausted
    }

    /// Whether a near frame is complete and awaiting its observation.
    pub fn frame_ready(&self) -> (r: bool)
        requires
            self.wf(),
        ensures
            r == self.complete(),
    {
        self.near_block.len() == self.frame * self.decimation
    }

    /// Empties the running per-lag sum.
    fn clear_sums(&mut self)
        requires
            old(self).corr_avg@.len() == old(self).span + 1,
        ensures
            final(self).corr_avg@ == empty_sums(old(self).span + 1),
            *final(self) == (CoarseScan { corr_avg: final(self).corr_avg, ..*old(self) }),
    {
        let n: usize = self.corr_avg.len();
        self.corr_avg.clear();
        self.corr_avg.resize(n, Measure::zero());
        assert(self.corr_avg@ =~= empty_sums(old(self).span + 1));
    }

    /// Clears the decision state and resumes scanning on the live far history.
    ///
    /// The far envelope chain is preserved: it has kept building the whole time,
    /// so the re-armed scan scores its first frame as soon as a near frame
    /// completes, against real history rather than a zero-filled window. Used by
    /// the acquirer to re-verify a region before last-resort adoption, to retry
    /// after the scan gave up, and to re-enter the global search on a
    /// reacquisition trigger. [`reset`](CoarseScan::reset) remains the only full
    /// clear, because zeroing the absolute far counters mid-stream would
    /// misalign the two grids permanently.
    pub fn rearm(&mut self)
        requires
            old(self).wf(),
        ensures
            final(self).wf(),
            final(self).rearmed_from(*old(self)),
    {
        self.near_block.clear();
        self.near_frame_start_abs = 0;
        self.clear_sums();
        self.accumulated = 0;
        self.frames = 0;
        self.last_corr = Sample::silence();
        self.best = None;
        self.beyond_ceiling = false;
        self.exhausted = false;
    }

    /// Appends far-end reference samples, in played order, and hands out the
    /// native samples of every block they completed, end to end, for the host to
    /// take each block's mean level.
    ///
    /// Called with exactly the samples the reference ring received, immediately
    /// after it received them, so the two absolute grids stay identical. The
    /// chain runs even when the scan is finished, which is what keeps the
    /// decimated grid contiguous so a later [`rearm`](CoarseScan::rearm) resumes
    /// on live history instead of a gap that would silently misalign the two
    /// grids.
    pub fn push_far(&mut self, reference: &[Sample]) -> (r: Vec<Sample>)
        requires
            old(self).wf(),
            old(self).unbanked == 0,
            old(self).far_pushed + reference@.len() <= u64::MAX,
        ensures
            final(self).wf(),
            ({
                let stream = old(self).far_block@ + reference@;
                let d = old(self).decimation as int;
                &&& r@ == whole_blocks(stream, d)
                &&& final(self).far_block@ == leftover(stream, d)
                &&& final(self).unbanked == stream.len() as int / d
            }),
            final(self).far_pushed == old(self).far_pushed + reference@.len(),
            *final(self) == (CoarseScan {
                far_block: final(self).far_block,
                unbanked: final(self).unbanked,
                far_pushed: final(self).far_pushed,
                ..*old(self)
            }),
            old(self).far_on_grid() ==> final(self).far_on_grid(),
    {
        let ghost start = *self;
        let ghost stream = self.far_block@ + reference@;
        let ghost d = self.decimation as int;
        let mut out: Vec<Sample> = Vec::new();
        let mut i: usize = 0;
        assert(start.far_block@ + reference@.take(0) =~= start.far_block@);
        assert(0 * d == 0);
        while i < reference.len()
            invariant
                i <= reference@.len(),
                start.wf(),
                start.unbanked == 0,
                start.far_pushed + reference@.len() <= u64::MAX,
                d == start.decimation,
                *self == (CoarseScan {
                    far_block: self.far_block,
                    unbanked: self.unbanked,
                    far_pushed: self.far_pushed,
                    ..start
                }),
                self.far_block@.len() < d,
                out@ + self.far_block@ == start.far_block@ + reference@.take(i as int),
                out@.len() == self.unbanked * d,
                self.unbanked <= i,
                self.far_pushed == start.far_pushed + i,
            decreases reference@.len() - i,
        {
            let ghost before = out@ + self.far_block@;
            let ghost blocks = self.unbanked;
            self.far_block.push(reference[i]);
            self.far_pushed = self.far_pushed + 1;
            assert(reference@.take(i + 1) =~= reference@.take(i as int).push(reference@[i as int]));
            assert(out@ + self.far_block@ =~= before.push(reference@[i as int]));
            assert(start.far_block@ + reference@.take(i + 1) =~= (start.far_block@
                + reference@.take(i as int)).push(reference@[i as int]));
            if self.far_block.len() == self.decimation {
                let ghost whole = out@ + self.far_block@;
                out.append(&mut self.far_block);
                self.unbanked = self.unbanked + 1;
                assert(out@ + self.far_block@ =~= whole);
                assert((blocks + 1) * d == blocks * d + d) by (nonlinear_arith);
            }
            i += 1;
        }
        assert(reference@.take(i as int) =~= reference@);
        proof {
            let blocks = self.unbanked as int;
            let left = self.far_block@.len() as int;
            assert(stream.len() == blocks * d + left);
            lemma_fundamental_div_mod_converse(stream.len() as int, d, blocks, left);
            assert(out@ =~= stream.take(blocks * d));
            assert(self.far_block@ =~= stream.skip(blocks * d));
            assert((start.far_env.next_abs + 0) * d + blocks * d == (start.far_env.next_abs
                + blocks) * d) by (nonlinear_arith);
        }
        out
    }

    /// Banks the mean levels of the blocks the last
    /// [`push_far`](CoarseScan::push_far) handed out, in order.
    pub fn bank_far(&mut self, levels: &[Sample])
        requires
            old(self).wf(),
            levels@.len() == old(self).unbanked,
            old(self).far_env.next_abs + levels@.len() <= u64::MAX,
        ensures
            final(self).wf(),
            final(self).unbanked == 0,
            final(self).far_env.next_abs == old(self).far_env.next_abs + levels@.len(),
            final(self).far_env.capacity == old(self).far_env.capacity,
            forall|abs: int| #[trigger]
                final(self).far_env.at(abs) == old(self).far_env.at_after_push(levels@, abs),
            *final(self) == (CoarseScan {
                far_env: final(self).far_env,
                unbanked: 0,
                ..*old(self)
            }),
            old(self).far_on_grid() ==> final(self).far_on_grid(),
    {
        self.far_env.push(levels);
        self.unbanked = 0;
    }

    /// Appends one near-end sample carrying far-absolute index `abs`, returning
    /// whether that completed a coarse frame ready to be scored.
    ///
    /// Blocks are cut where `abs` crosses a multiple of the decimation, so the
    /// near chain lands on the same grid the far chain does regardless of where
    /// the engine's anchor fell: a frame starts on a block boundary, and anything
    /// before one is discarded rather than padded.
    pub fn push_near(&mut self, sample: Sample, abs: u64) -> (r: bool)
        requires
            old(self).wf(),
            !old(self).complete(),
            abs <= 0x7fff_ffff_ffff_ffff,
        ensures
            final(self).wf(),
            ({
                let starts = old(self).near_block@.len() == 0;
                let dropped = old(self).is_finished() || (starts && abs as int
                    % old(self).decimation as int != 0);
                &&& dropped ==> *final(self) == *old(self) && !r
                &&& !dropped ==> {
                    &&& final(self).near_block@ == old(self).near_block@.push(sample)
                    &&& final(self).near_frame_start_abs == (if starts {
                        abs as int / old(self).decimation as int
                    } else {
                        old(self).near_frame_start_abs as int
                    })
                    &&& *final(self) == (CoarseScan {
                        near_block: final(self).near_block,
                        near_frame_start_abs: final(self).near_frame_start_abs,
                        ..*old(self)
                    })
                    &&& r == final(self).complete()
                }
            }),
            old(self).near_on_grid(abs as int) ==> final(self).near_on_grid(abs + 1),
    {
        if self.finished() {
            return false;
        }
        if self.near_block.len() == 0 {
            if abs % self.decimation as u64 != 0 {
                return false;
            }
            self.near_frame_start_abs = abs / self.decimation as u64;
            proof {
                let d = self.decimation as int;
                vstd::arithmetic::div_mod::lemma_fundamental_div_mod(abs as int, d);
                vstd::arithmetic::mul::lemma_mul_is_commutative(abs as int / d, d);
                assert(abs as int / d <= abs) by (nonlinear_arith)
                    requires
                        d >= 1,
                        abs as int == d * (abs as int / d),
                        0 <= abs as int / d,
                ;
            }
        }
        self.near_block.push(sample);
        self.near_block.len() == self.frame * self.decimation
    }

    /// The far window the completed frame is scanned against, or [`None`] when
    /// the far history does not cover it: a window reaching back past the
    /// retained history, or forward past the newest block by more than the
    /// permitted tail. A small tail deficit is expected, because the near frame
    /// ends a little beyond the newest reference sample fed, and is silent.
    pub fn window(&self) -> (r: Option<Vec<Sample>>)
        requires
            self.wf(),
        ensures
            r is Some == self.covered(),
            r matches Some(window) ==> window@ == self.window_seq(),
    {
        let window_len: usize = self.frame + self.span;
        let end: u64 = self.near_frame_start_abs + self.frame as u64;
        if end < window_len as u64 {
            return None;
        }
        let start: u64 = end - window_len as u64;
        if start < self.far_env.dropped() {
            return None;
        }
        let deficit: u64 = end.saturating_sub(self.far_env.next_abs());
        if deficit > (self.frame / COARSE_TAIL_DEFICIT_DEN) as u64 {
            return None;
        }
        let mut window: Vec<Sample> = Vec::new();
        let mut i: usize = 0;
        while i < window_len
            invariant
                self.wf(),
                i <= window_len,
                window_len == self.window_bins(),
                start == self.window_start(),
                start + window_len <= u64::MAX,
                window@ == self.window_seq().take(i as int),
            decreases window_len - i,
        {
            match self.far_env.get(start + i as u64) {
                Some(level) => {
                    window.push(level);
                },
                None => {
                    window.push(Sample::silence());
                },
            }
            i += 1;
        }
        Some(window)
    }

    /// Whether a completed frame is scored: the far history covers its window,
    /// the window carries real level, and the near frame is not flat.
    pub fn will_score(&self, far_level: Measure, near_energy: Measure) -> (r: bool)
        requires
            self.wf(),
        ensures
            r == self.scores(far_level, near_energy),
    {
        let window_len: usize = self.frame + self.span;
        let end: u64 = self.near_frame_start_abs + self.frame as u64;
        end >= window_len as u64 && end - window_len as u64 >= self.far_env.dropped()
            && end.saturating_sub(self.far_env.next_abs()) <= (self.frame
            / COARSE_TAIL_DEFICIT_DEN) as u64 && !far_level.is_at_most(
            Measure { bits: COARSE_FAR_ACTIVE_FLOOR_BITS },
        ) && !near_energy.is_at_most(Measure { bits: COARSE_VARIANCE_FLOOR_BITS })
    }

    /// Judges the completed near frame, folding its score into the running
    /// average and confirming a region when the evidence is sufficient. The
    /// frame is consumed either way; the per-lag entries are read only when
    /// [`will_score`](CoarseScan::will_score) holds.
    pub fn observe(&mut self, score: CoarseScore)
        requires
            old(self).wf(),
            old(self).complete(),
            old(self).scores(score.far_level, score.near_energy) ==> old(self).fits(score),
        ensures
            final(self).wf(),
            final(self).observed_from(*old(self), score),
    {
        let ghost before = *self;
        let scored: bool = self.will_score(score.far_level, score.near_energy);
        self.near_block.clear();
        if !scored {
            return;
        }
        self.frames = self.frames.saturating_add(1);

        let top: usize = top_lag(&score.corr);
        self.last_corr = if Measure::zero().is_below(score.corr[top]) {
            score.corr_report[top]
        } else {
            Sample::silence()
        };
        self.accumulated = self.accumulated + 1;

        if self.accumulated < COARSE_MIN_FRAMES {
            self.corr_avg = score.folded;
            if self.frames >= COARSE_GIVE_UP_FRAMES {
                self.exhausted = true;
            }
            return;
        }
        let at: usize = top_lag(&score.average);
        self.decide(&score, at);

        // Start a fresh averaging cycle either way.
        self.clear_sums();
        self.accumulated = 0;
        if self.best.is_none() && self.frames >= COARSE_GIVE_UP_FRAMES {
            self.exhausted = true;
        }
    }

    /// Applies the confidence, competitor and ceiling tests to an averaged peak.
    fn decide(&mut self, score: &CoarseScore, at: usize)
        requires
            1 <= old(self).decimation,
            1 <= old(self).span,
            old(self).ceiling_guard <= 0xffff,
            old(self).span * old(self).decimation <= ORIGIN_LIMIT,
            old(self).span <= 0x2_0000,
            old(self).fits(*score),
            is_top_lag(score.average@, at as int),
            old(self).best matches Some(region) ==> region.delay <= old(self).span
                * old(self).decimation,
        ensures
            final(self).decision(*old(self), *score, at as int),
            *final(self) == (CoarseScan {
                best: final(self).best,
                beyond_ceiling: final(self).beyond_ceiling,
                ..*old(self)
            }),
            final(self).best matches Some(region) ==> region.delay <= old(self).span
                * old(self).decimation,
    {
        let peak: Measure = score.average[at];
        if !Measure::zero().is_below(peak) || peak.is_below(
            Measure { bits: COARSE_CONFIDENT_CORR_BITS },
        ) {
            return;
        }
        // A peak pinned at the ceiling means the true delay is at or beyond it.
        // That is a coverage report, not a region.
        let delay_bins: usize = self.span - at;
        if delay_bins + self.ceiling_guard > self.span {
            self.beyond_ceiling = true;
            return;
        }
        // The peak must be the clear winner among regions; competitors inside
        // the guard band are excluded.
        let rival: Option<usize> = rival_lag(&score.average, at, self.peak_guard);
        if let Some(k) = rival {
            assert(is_rival(score.average@, at as int, self.peak_guard as int, k as int));
            if peak.is_below(score.raised[k]) {
                return;
            }
        }
        assert(!self.rivalled(*score, at as int)) by {
            if self.rivalled(*score, at as int) {
                let k = choose|k: int|
                    #[trigger] is_rival(score.average@, at as int, self.peak_guard as int, k)
                        && score.average@[at as int].below(score.raised@[k]);
                match rival {
                    Some(found) => {
                        assert(height(score.average@[k]) == height(score.average@[found as int]));
                        assert(k == found);
                    },
                    None => {},
                }
            }
        }
        self.beyond_ceiling = false;
        assert(0 <= delay_bins * self.decimation <= self.span * self.decimation)
            by (nonlinear_arith)
            requires
                delay_bins <= self.span,
                1 <= self.decimation,
        ;
        self.best = Some(
            CoarseRegion { delay: delay_bins * self.decimation, corr: score.average_report[at] },
        );
    }

    /// Clears the scan to its just-constructed state.
    pub fn reset(&mut self)
        requires
            old(self).wf(),
        ensures
            final(self).wf(),
            final(self).same_geometry(*old(self)),
            final(self).pristine(),
    {
        self.far_env.clear();
        self.far_block.clear();
        self.unbanked = 0;
        self.far_pushed = 0;
        self.rearm();
    }

    /// Discards the near-side evidence gathered before a seam, keeping the far
    /// history.
    ///
    /// Called when the engine re-anchors: the partial frame straddles a seam in
    /// the near stream and correlating across it would be meaningless. The
    /// running per-lag average goes with it, because the frames already banked
    /// were measured against the near stream the seam ended.
    ///
    /// This is deliberately narrower than [`rearm`](CoarseScan::rearm): the
    /// give-up budget, the confirmed region and the exhausted flag all survive,
    /// so a re-anchor cannot re-open the search budget each time it fires.
    pub fn discard_near(&mut self)
        requires
            old(self).wf(),
        ensures
            final(self).wf(),
            final(self).discarded_from(*old(self)),
    {
        self.near_block.clear();
        self.clear_sums();
        self.accumulated = 0;
    }
}

} // verus!
