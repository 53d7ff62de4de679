//! The automatic echo-delay estimator's bookkeeping: what it reports, where it
//! searches, which frames it admits and when a scan becomes a candidate.

use vstd::prelude::*;

use crate::sample::{Measure, Sample};
use crate::timing::ms_to_samples;

verus! {

/// Where the automatic delay acquisition has got to.
///
/// A caller who supplied a delay hint is always [`DelayStatus::Locked`] with
/// [`DelayLockSource::Hint`], and no search of either stage is constructed or
/// run.
#[derive(Debug, Clone, Copy, PartialEq, Eq, Structural)]
#[non_exhaustive]
pub enum DelayStatus {
    /// Both searches are running and nothing has met the promotion conditions.
    /// The engine's alignment offset is still zero, so the near-end reads sit at
    /// the reference frontier and the canceller has nothing to cancel yet.
    Searching,
    /// The coarse global scan found a region the fine search was not covering,
    /// and the fine search has been re-centred on it. Still no trusted offset.
    Relocated,
    /// A trusted alignment has been promoted and adopted by the engine, and the
    /// local tracker is following it. Left by a reset or by a reacquisition
    /// trigger (see [`ReacquireTrigger`]).
    Locked(DelayLockSource),
    /// A reacquisition trigger fired: the previously trusted alignment went
    /// stale, both searches are running again, and the engine keeps the old
    /// offset until a new lock is promoted.
    Reacquiring,
}

/// What evidence took a trusted lock back to a global search.
///
/// Every trigger is evaluated on the local tracker's own decision cycles, so a
/// stream with no far-end energy can never fire one: silence teaches nothing and
/// is not evidence against a lock.
#[derive(Debug, Clone, Copy, PartialEq, Eq, Structural)]
#[non_exhaustive]
pub enum ReacquireTrigger {
    /// The tracker's confident correlation peak sat pinned against an edge of
    /// its local window on consecutive decision cycles: the delay has moved
    /// beyond local reach.
    TrackingEdge,
    /// The tracker scored far-end-active cycles for a sustained period without
    /// once reaching its confidence gate: the correlation the lock was built
    /// on is gone.
    ConfidenceLost,
    /// Consecutive confident estimates jumped between unrelated delays: the
    /// local evidence contradicts itself and cannot be followed.
    EstimatorJumping,
    /// A stream discontinuity (a capture stall forcing the engine to re-anchor)
    /// put the lock under suspicion, and the tracker could not re-confirm the
    /// alignment afterwards.
    Discontinuity,
}

/// What evidence promoted the trusted lock.
#[derive(Debug, Clone, Copy, PartialEq, Eq, Structural)]
#[non_exhaustive]
pub enum DelayLockSource {
    /// The caller's measured delay hint, taken at their word.
    Hint,
    /// The fine peak and the coarse global region agreed, so each corroborates
    /// the other. The adopted value is the fine one, at full sample accuracy.
    GlobalAgreement,
    /// The coarse scan offered no region, and the fine peak stood clear of both
    /// search edges and cleared the raised uncorroborated confidence bar.
    LocalEvidence,
    /// The fine search never produced an agreeing peak inside the relocated
    /// region, so the coarse region itself was adopted, backed off so that the
    /// residual error falls on the early side the filter can absorb.
    CoarseRegion,
}

/// A snapshot of the delay acquisition: what it is searching, and what it found.
///
/// Metadata only, never sample data. Every field is in samples at the configured
/// rate unless its name says otherwise.
///
/// # Stability
///
/// [`status`](DelayEstimate::status) and
/// [`delay_samples`](DelayEstimate::delay_samples) are the stable contract: the
/// acquisition state and the active alignment offset. The remaining fields are
/// diagnostic telemetry of the estimator's internal progress, exposed for
/// observability and tuning. They may change meaning, gain companions, or be
/// removed as the estimator evolves, so treat them as diagnostics to read, not a
/// contract to build durable behavior on.
#[derive(Debug, Clone, Copy, PartialEq, Eq)]
#[non_exhaustive]
pub struct DelayEstimate {
    /// Acquisition state.
    pub status: DelayStatus,
    /// The adopted alignment offset once trusted, [`None`] while searching. A
    /// provisional or coarse-only candidate never appears here.
    pub delay_samples: Option<usize>,
    /// Inclusive lower bound of the sample-accurate fine search range.
    pub fine_search_start_samples: usize,
    /// Inclusive upper bound of the sample-accurate fine search range. Always
    /// the start plus `max_echo_delay_ms` in samples: relocation moves the
    /// range, it never resizes it.
    pub fine_search_end_samples: usize,
    /// Inclusive upper bound of the coarse global scan.
    pub coarse_ceiling_samples: usize,
    /// The coarse global scan's region once it is confident and stable, [`None`]
    /// otherwise. Region-accurate only: its resolution is one coarse bin.
    pub coarse_region_samples: Option<usize>,
    /// One coarse bin in samples: the coarse scan's resolution.
    pub coarse_bin_samples: usize,
    /// The most recent coarse frame's peak normalized correlation, in
    /// `0.0..=1.0`. Zero before the first coarse frame completes.
    pub coarse_correlation: Sample,
    /// Whether the coarse peak stood at the ceiling of its range, meaning the
    /// true delay is at or beyond [`Self::coarse_ceiling_samples`] and this
    /// engine cannot align it. A coverage report, not a region.
    pub beyond_ceiling: bool,
    /// Coarse frames completed since the scan was last started: at construction,
    /// at a reset, or when it was re-armed.
    pub coarse_frames: u32,
    /// Fine frames accumulated against the current search origin.
    pub fine_frames: u32,
    /// Fine frames refused because their far window was not fully supported by
    /// fed reference. A frame short at the head gives each candidate lag a
    /// different number of real product terms, which biases the peak toward the
    /// search edge; refusing it is cheaper than correcting for it.
    pub fine_frames_skipped: u32,
    /// Whether the fine search has been re-centred on a coarse region.
    pub relocated: bool,
    /// Total fine correlation scans since construction or the last engine
    /// reset. Monotonic across relocations and tracking cycles, so a poller can
    /// detect each new scan and read its evidence below exactly once.
    pub fine_scans: u64,
    /// The most recent fine scan's peak-over-mean ratio, gate outcome aside.
    /// Zero until the first scan.
    pub fine_last_ratio: Measure,
    /// The delay the most recent fine scan's peak mapped to, margin applied,
    /// [`None`] until the first scan. A report of where the correlation peaked,
    /// not a candidate: the gates may have refused it.
    pub fine_last_delay_samples: Option<usize>,
    /// The search origin the most recent fine scan ran against. The CURRENT
    /// range above can differ: a promotion or relocation in the same block moves
    /// the range after the scan that caused it.
    pub fine_last_origin_samples: usize,
    /// Whether the most recent fine scan's peak stood clear of both ends of the
    /// range it scanned. An edge-pinned peak is a peak whose true maximum may
    /// lie outside the range entirely.
    pub fine_last_peak_interior: bool,
    /// Alignment updates applied by the local tracker after the initial lock.
    pub tracking_moves: u32,
    /// Times a reacquisition trigger returned the acquisition to a global search
    /// after a trusted lock.
    pub reacquisitions: u32,
    /// The trigger behind the most recent reacquisition, [`None`] until one
    /// fires.
    pub last_reacquire_trigger: Option<ReacquireTrigger>,
    /// Times the coarse scan was re-armed after giving up, because sustained
    /// far-end excitation kept arriving on a stream that never locked.
    pub coarse_rearms: u32,
    /// Coarse regions that failed re-verification on the last-resort adoption
    /// path: the scan was asked to find the region a second time and found a
    /// different one, so nothing was adopted. A non-zero count on a stream that
    /// never locked is the signature of a spurious or aliased region.
    ///
    /// It climbs to a fixed stand-down bound and holds there for the rest of the
    /// stream. After eight failed coarse-only re-verifications the coarse-only
    /// last-resort path stands down until the engine is reset, and this counter
    /// stops advancing at that bound. Normal corroborated acquisition (a fine
    /// lock that agrees with a coarse region) remains available throughout.
    pub coarse_regions_rejected: u32,
    /// Whether the coarse-only last-resort adoption path has stood down for the
    /// rest of this stream: `true` once [`Self::coarse_regions_rejected`] has
    /// reached its stand-down bound. `false` on every healthy stream and on the
    /// hinted path. It does NOT mean acquisition has given up.
    pub coarse_last_resort_exhausted: bool,
    /// Consecutive tracking cycles on which the estimator has contradicted
    /// ITSELF about where the delay is, as the run currently stands.
    ///
    /// A held lock re-confirms its alignment every cycle and re-confirmation
    /// clears the run, so this is zero on a healthy stream and stays zero however
    /// long the stream runs. A run that climbs is the estimator offering the
    /// alignment incompatible answers; once it is long enough it fires
    /// [`ReacquireTrigger::EstimatorJumping`] and resets.
    pub tracking_contradiction_run: u32,
    /// The longest
    /// [`tracking_contradiction_run`](DelayEstimate::tracking_contradiction_run)
    /// seen since the engine was constructed or reset. The run itself is cleared
    /// by the very re-confirmation that ends an episode, so this high-water mark
    /// is what makes such an episode reportable after the fact.
    pub tracking_contradiction_run_max: u32,
}

/// The smallest analysis transform the estimator will build, so a short search
/// window still correlates over enough signal to mean something.
pub const MIN_FFT_LEN: usize = 256;

/// The largest analysis transform the estimator will build.
pub const MAX_FFT_LEN: usize = 65_536;

/// Frames that must be accumulated before a lock is even considered, so a single
/// lucky frame cannot decide the alignment.
pub const MIN_FRAMES: u32 = 2;

/// How far above the mean of the correlation the peak must stand for the
/// estimate to be trusted, in multiples of that mean: the bit pattern of ten.
///
/// The phase transform flattens the spectrum, so a genuine delay produces a
/// spike far above the surrounding floor while an absent one leaves a
/// correlation with no clear winner. This threshold is deliberately asymmetric:
/// failing to lock costs a caller nothing they did not already have, while
/// locking onto noise breaks a canceller that would otherwise work.
pub const CONFIDENCE_THRESHOLD_BITS: u64 = 0x4024_0000_0000_0000;

/// The energy a frame must carry on both sides before it is accumulated at all:
/// the bit pattern of one hundred-millionth. Silence carries no delay
/// information, and correlating it would only dilute the frames that do.
pub const FRAME_ENERGY_FLOOR_BITS: u64 = 0x3e45_798e_e230_8c3a;

/// The largest trailing zero-fill a frame may carry and still be accumulated, as
/// a reciprocal fraction of the frame length.
///
/// A far window assembled at the reference frontier is normally short by however
/// far the caller has fed ahead, which under the usual one-block-ahead cadence is
/// a small fraction of a frame. A trailing deficit removes product terms from
/// the highest correlation indices only, so it biases the peak the same way a
/// head deficit does, just far more weakly. Refusing a trailing deficit outright
/// is not an option: no cadence that does not run far ahead of the capture ever
/// produces a frame with none.
pub const TAIL_DEFICIT_LIMIT_DEN: usize = 4;

/// Samples the reported delay is backed off from the correlation peak.
///
/// The peak of the correlation is where most of the echo path's energy arrives,
/// but it is not where the path begins: a real path rises into its peak over
/// several samples, and a reverberant one can carry a large share of its energy
/// before the peak entirely. This is the margin that recovers the path onset
/// where the peak is not the onset. It is applied exactly once, to the
/// origin-relative mapping of a scan's peak.
pub const LOCK_MARGIN_SAMPLES: usize = 16;

/// The deepest search origin the estimator can be moved to: a quarter of the
/// narrowest address range, far past any delay the engine can be configured for.
pub const ORIGIN_LIMIT: usize = 0x3fff_ffff;

/// How much fed reference actually backed a fine frame's far window.
///
/// The engine assembles that window from the reference ring and renders any
/// index it cannot supply as silence. Those zeros are not signal, and where they
/// fall decides whether the frame is usable.
#[derive(Debug, Clone, Copy, PartialEq, Eq, Structural)]
pub struct WindowSupport {
    /// Leading window samples that no fed reference backed, because the window
    /// reached back past the start of the stream.
    pub missing_head: usize,
    /// Trailing window samples that no fed reference backed, because the window
    /// reached forward past the reference frontier.
    pub missing_tail: usize,
}

/// One fine-frame correlation that cleared the confidence gate.
///
/// Purely a report. The estimator does not decide whether to adopt it: the
/// false-lock signatures the acquirer screens for are diagnosable from
/// [`peak_at`](FineLock::peak_at), not from the delay alone.
#[derive(Debug, Clone, Copy, PartialEq, Eq, Structural)]
pub struct FineLock {
    /// The candidate delay in samples: the origin-relative mapping applied and
    /// backed off by [`LOCK_MARGIN_SAMPLES`].
    pub delay: usize,
    /// The raw correlation index of the peak, in `0..=max_delay`. Index zero
    /// maps to the deepest delay in the range and index `max_delay` to the
    /// shallowest, so a peak pinned at either end is a peak whose true maximum
    /// may lie outside the range entirely.
    pub peak_at: usize,
    /// The peak's height in multiples of the mean over the scanned range.
    pub ratio: Measure,
}

/// What one completed fine frame contributed, whether or not it produced a
/// candidate.
///
/// The acquirer needs more than the candidate stream: tracking counts SCORED
/// frames (frames that carried energy and support and were accumulated) to pace
/// its decision cycles.
#[derive(Debug, Clone, Copy, PartialEq, Eq)]
pub struct FineObservation {
    /// Whether the frame was accumulated: it carried energy on both sides and
    /// its far window was adequately supported. A frame refused for support or
    /// silence is not scored and teaches nothing.
    pub scored: bool,
    /// The candidate that cleared the confidence gate this frame, if any.
    pub candidate: Option<FineLock>,
}

/// What becomes of a completed fine frame.
#[derive(Debug, Clone, Copy, PartialEq, Eq, Structural)]
pub enum FrameUse {
    /// The frame is refused, for want of window support or for silence.
    Refused,
    /// The frame's cross-spectrum is accumulated and nothing is scanned yet.
    Folded,
    /// The frame's cross-spectrum is accumulated and the accumulated
    /// correlation is scanned.
    Scanned,
}

/// The measured side of one scan: the correlation over the search range, and the
/// statistics taken from it.
#[derive(Debug)]
pub struct FineScan {
    /// The correlation. Index `k` corresponds to a delay of
    /// `search_origin + max_delay - k`, so the whole search range lives in
    /// `0..=max_delay`.
    pub correlation: Vec<Sample>,
    /// The height of the peak.
    pub peak: Measure,
    /// The mean magnitude over the search range.
    pub mean: Measure,
    /// The peak in multiples of the mean, zero when the mean is.
    pub ratio: Measure,
    /// The height the peak must reach: the confidence threshold times the mean.
    pub gate: Measure,
}

/// The loudness of one correlation value: its magnitude, nothing for a NaN.
pub open spec fn loudness(value: Sample) -> int {
    if value.nan() {
        0
    } else {
        value.magnitude()
    }
}

/// Whether `at` is the first of the loudest among the first `count` values.
pub open spec fn is_first_peak(correlation: Seq<Sample>, count: int, at: int) -> bool {
    &&& 0 <= at < count
    &&& forall|j: int|
        0 <= j < count ==> loudness(#[trigger] correlation[j]) <= loudness(correlation[at])
    &&& forall|j: int|
        0 <= j < at ==> loudness(#[trigger] correlation[j]) < loudness(correlation[at])
}

/// Where the correlation peaks over its first `count` values, the earliest index
/// winning a tie. A NaN is never a peak.
pub fn peak_index(correlation: &Vec<Sample>, count: usize) -> (at: usize)
    requires
        0 < count <= correlation@.len(),
    ensures
        is_first_peak(correlation@, count as int, at as int),
{
    let mut at: usize = 0;
    let mut peak: Sample = Sample::silence();
    let first: Sample = correlation[0].abs();
    if peak.is_below(first) {
        peak = first;
    }
    let mut k: usize = 1;
    while k < count
        invariant
            1 <= k <= count <= correlation@.len(),
            is_first_peak(correlation@, k as int, at as int),
            !peak.nan(),
            peak.rank() == loudness(correlation@[at as int]),
        decreases count - k,
    {
        let value: Sample = correlation[k].abs();
        if peak.is_below(value) {
            peak = value;
            at = k;
        }
        k += 1;
    }
    at
}

/// The least power of two reached by doubling `from` that covers `need`, or the
/// largest transform when none does.
pub open spec fn covering_transform(from: int, need: int) -> int
    decreases 2 * MAX_FFT_LEN - from,
{
    if from >= need || from >= MAX_FFT_LEN || from <= 0 {
        from
    } else {
        covering_transform(2 * from, need)
    }
}

/// Whether a length is a power of two.
pub open spec fn power_of_two(n: int) -> bool
    decreases n,
{
    if n <= 1 {
        n == 1
    } else {
        n % 2 == 0 && power_of_two(n / 2)
    }
}

/// Doubling keeps a power of two.
pub proof fn lemma_double_of_a_power_of_two(n: int)
    requires
        power_of_two(n),
    ensures
        power_of_two(2 * n),
        n >= 1,
{
    assert((2 * n) % 2 == 0);
    assert((2 * n) / 2 == n);
}

/// The analysis transform is a power of two in its permitted range, it covers
/// twice the search window unless the range forbids it, and it always holds the
/// whole window with room for a frame.
pub proof fn lemma_transform_covers_the_search(max_delay: int)
    requires
        1 <= max_delay < MAX_FFT_LEN,
    ensures
        ({
            let len = covering_transform(MIN_FFT_LEN as int, 2 * max_delay);
            &&& power_of_two(len)
            &&& MIN_FFT_LEN <= len <= MAX_FFT_LEN
            &&& len > max_delay
            &&& (len >= 2 * max_delay || len == MAX_FFT_LEN)
            &&& (len < 4 * max_delay || len == MIN_FFT_LEN)
        }),
{
    assert(power_of_two(256)) by {
        reveal_with_fuel(power_of_two, 10);
    }
    vstd::arithmetic::power2::lemma2_to64();
    lemma_covering(MIN_FFT_LEN as int, 2 * max_delay, 8);
}

proof fn lemma_covering(from: int, need: int, doublings: nat)
    requires
        power_of_two(from),
        MIN_FFT_LEN <= from <= MAX_FFT_LEN,
        from < need || from == MIN_FFT_LEN || from < 2 * need,
        from * vstd::arithmetic::power2::pow2(doublings) == MAX_FFT_LEN,
    ensures
        ({
            let len = covering_transform(from, need);
            &&& power_of_two(len)
            &&& from <= len <= MAX_FFT_LEN
            &&& (len >= need || len == MAX_FFT_LEN)
            &&& (len < 2 * need || len == MIN_FFT_LEN)
        }),
    decreases doublings,
{
    vstd::arithmetic::power2::lemma2_to64();
    if from >= need || from >= MAX_FFT_LEN {
    } else {
        lemma_double_of_a_power_of_two(from);
        if doublings == 0 {
            assert(from * 1 == from);
        } else {
            vstd::arithmetic::power2::lemma_pow2_unfold(doublings);
            let rest = vstd::arithmetic::power2::pow2((doublings - 1) as nat);
            assert((2 * from) * rest == from * (2 * rest)) by (nonlinear_arith);
            assert(rest >= 1) by {
                vstd::arithmetic::power2::lemma_pow2_pos((doublings - 1) as nat);
            }
            assert(2 * from <= MAX_FFT_LEN) by (nonlinear_arith)
                requires
                    (2 * from) * rest == MAX_FFT_LEN,
                    rest >= 1,
                    from >= 1,
            ;
            lemma_covering(2 * from, need, (doublings - 1) as nat);
        }
    }
}

/// The sample-accurate fine delay estimator's bookkeeping. See the module
/// documentation.
pub struct DelayEstimator {
    /// The analysis transform length.
    pub fft_len: usize,
    /// The search window's width in samples: the span of delays the estimator
    /// scans, starting at [`DelayEstimator::search_origin`].
    pub max_delay: usize,
    /// The near-end analysis frame length.
    pub frame_len: usize,
    /// The lower bound of the search range in samples: the delay that
    /// correlation index `max_delay` maps to. Zero until the acquirer re-centres
    /// the search on a coarse region.
    pub search_origin: usize,
    /// The near-end frame under construction. Cut on sample count, so framing is
    /// independent of the caller's chunking.
    pub near_frame: Vec<Sample>,
    /// Frames accumulated against the current search origin. The accumulated
    /// cross-spectrum is empty exactly while this is zero.
    pub frames: u32,
    /// Frames refused for want of window support since the last reset.
    pub skipped: u32,
    /// The most recent scanned frame's peak-over-mean ratio, whether or not it
    /// cleared the threshold. Persists across restarts, because a tracking cycle
    /// restarts the accumulator immediately after its concluding scan.
    pub last_scan_ratio: Measure,
    /// The most recent scanned frame's raw peak index, [`None`] until a frame
    /// has been scanned since construction or the last reset.
    pub last_scan_peak_at: Option<usize>,
    /// The search origin the most recent scan ran against, because the peak
    /// index is only meaningful against the origin of its own scan.
    pub last_scan_origin: usize,
    /// Total scans since construction or the last reset. Monotonic across
    /// restarts and relocations, so a poller can detect each new scan.
    pub scans: u64,
    /// The near-end frame the most recent scored observation consumed, retained
    /// so a relocation that immediately follows can re-correlate it against the
    /// new range instead of discarding it.
    pub retained_near: Vec<Sample>,
    /// Whether [`retained_near`](DelayEstimator::retained_near) holds a frame the
    /// current position may rescan: true only after a scored, energetic frame,
    /// false after one refused for want of support or for silence.
    pub retained_near_valid: bool,
}

/// The delay a peak index maps to, backed off by the lock margin. Saturating, so
/// a delay shorter than the margin reports zero.
pub open spec fn mapped_delay(origin: int, span: int, peak_at: int) -> int {
    if origin + span - peak_at <= LOCK_MARGIN_SAMPLES {
        0
    } else {
        origin + span - peak_at - LOCK_MARGIN_SAMPLES
    }
}

impl DelayEstimator {
    /// The frame and the search span exactly fill the transform, and every
    /// buffer and index stays inside that geometry.
    pub open spec fn wf(self) -> bool {
        &&& self.geometry_wf()
        &&& self.search_origin <= ORIGIN_LIMIT
        &&& self.last_scan_origin <= ORIGIN_LIMIT
        &&& self.near_frame@.len() <= self.frame_len
        &&& self.retained_near_valid ==> self.retained_near@.len() == self.frame_len
        &&& self.last_scan_peak_at matches Some(peak_at) ==> peak_at <= self.max_delay
    }

    /// The frame and the search span exactly fill the transform.
    pub open spec fn geometry_wf(self) -> bool {
        &&& MIN_FFT_LEN <= self.fft_len <= MAX_FFT_LEN
        &&& 1 <= self.max_delay < self.fft_len
        &&& self.frame_len + self.max_delay == self.fft_len
    }

    /// Whether the frame and scan counters have room for one more.
    pub open spec fn has_room(self) -> bool {
        self.frames < u32::MAX && self.scans < u64::MAX
    }

    /// Whether a near-end frame is complete and awaiting its observation.
    pub open spec fn complete(self) -> bool {
        self.near_frame@.len() == self.frame_len
    }

    /// Whether a far window is backed well enough to correlate against.
    pub open spec fn supports(self, support: WindowSupport) -> bool {
        support.missing_head == 0 && support.missing_tail <= self.frame_len
            / TAIL_DEFICIT_LIMIT_DEN
    }

    /// Whether a frame carries energy on both sides.
    pub open spec fn energetic(near_energy: Measure, far_energy: Measure) -> bool {
        let floor = Measure { bits: FRAME_ENERGY_FLOOR_BITS };
        !near_energy.below(floor) && !far_energy.below(floor)
    }

    /// What becomes of a completed frame.
    pub open spec fn use_of(
        self,
        support: WindowSupport,
        near_energy: Measure,
        far_energy: Measure,
    ) -> FrameUse {
        if !self.supports(support) || !DelayEstimator::energetic(near_energy, far_energy) {
            FrameUse::Refused
        } else if self.frames + 1 < MIN_FRAMES {
            FrameUse::Folded
        } else {
            FrameUse::Scanned
        }
    }

    /// The candidate a scan yields: none unless the peak clears the threshold.
    pub open spec fn candidate_of(self, scan: FineScan, candidate: Option<FineLock>) -> bool {
        if scan.mean.at_most(Measure { bits: 0 }) || scan.peak.below(scan.gate) {
            candidate is None
        } else {
            candidate matches Some(lock) && is_first_peak(
                scan.correlation@,
                self.max_delay + 1,
                lock.peak_at as int,
            ) && lock.ratio == scan.ratio && lock.delay == mapped_delay(
                self.search_origin as int,
                self.max_delay as int,
                lock.peak_at as int,
            )
        }
    }

    /// What a scan leaves on record, whether or not it cleared the threshold.
    pub open spec fn records(self, before: DelayEstimator, scan: FineScan) -> bool {
        &&& self.last_scan_ratio == scan.ratio
        &&& self.last_scan_peak_at matches Some(peak_at) && is_first_peak(
            scan.correlation@,
            before.max_delay + 1,
            peak_at as int,
        )
        &&& self.last_scan_origin == before.search_origin
        &&& self.scans == before.scans + 1
    }

    /// Whether the scan record is the same in both states.
    pub open spec fn same_record(self, before: DelayEstimator) -> bool {
        &&& self.last_scan_ratio == before.last_scan_ratio
        &&& self.last_scan_peak_at == before.last_scan_peak_at
        &&& self.last_scan_origin == before.last_scan_origin
        &&& self.scans == before.scans
    }

    /// Whether two estimators are in the same state: they stand on the same
    /// evidence and hold the same record.
    pub open spec fn alike(self, other: DelayEstimator) -> bool {
        self.same_evidence(other) && self.same_record(other)
    }

    /// Whether two estimators stand on the same evidence: the same geometry,
    /// origin and counters, the same frame under construction, and the same
    /// retained frame where one is retained. The record of past scans aside.
    pub open spec fn same_evidence(self, other: DelayEstimator) -> bool {
        &&& self.same_geometry(other)
        &&& self.search_origin == other.search_origin
        &&& self.near_frame@ == other.near_frame@
        &&& self.frames == other.frames
        &&& self.skipped == other.skipped
        &&& self.retained_near_valid == other.retained_near_valid
        &&& self.retained_near_valid ==> self.retained_near@ == other.retained_near@
    }

    /// Whether the geometry is the same in both states.
    pub open spec fn same_geometry(self, before: DelayEstimator) -> bool {
        &&& self.fft_len == before.fft_len
        &&& self.max_delay == before.max_delay
        &&& self.frame_len == before.frame_len
    }

    /// Whether `self` is `before` with its accumulation discarded and its
    /// search moved to `origin`.
    pub open spec fn restarted_from(self, before: DelayEstimator, origin: usize) -> bool {
        &&& self.same_geometry(before)
        &&& self.same_record(before)
        &&& self.search_origin == origin
        &&& self.near_frame@ == Seq::<Sample>::empty()
        &&& self.frames == 0
        &&& self.skipped == before.skipped
        &&& self.retained_near@ == before.retained_near@
        &&& self.retained_near_valid == before.retained_near_valid
    }

    /// Whether `self` is what observing a completed frame leaves of `before`.
    pub open spec fn observed_from(
        self,
        before: DelayEstimator,
        support: WindowSupport,
        near_energy: Measure,
        far_energy: Measure,
        scan: FineScan,
    ) -> bool {
        &&& self.same_geometry(before)
        &&& self.search_origin == before.search_origin
        &&& self.near_frame@ == Seq::<Sample>::empty()
        &&& match before.use_of(support, near_energy, far_energy) {
            FrameUse::Refused => {
                &&& self.same_record(before)
                &&& self.frames == before.frames
                &&& self.skipped == (if before.supports(support) {
                    before.skipped
                } else {
                    crate::track::bumped(before.skipped)
                })
                &&& self.retained_near@ == before.retained_near@
                &&& !self.retained_near_valid
            },
            FrameUse::Folded => {
                &&& self.same_record(before)
                &&& self.frames == before.frames + 1
                &&& self.skipped == before.skipped
                &&& self.retained_near@ == before.near_frame@
                &&& self.retained_near_valid
            },
            FrameUse::Scanned => {
                &&& self.records(before, scan)
                &&& self.frames == before.frames + 1
                &&& self.skipped == before.skipped
                &&& self.retained_near@ == before.near_frame@
                &&& self.retained_near_valid
            },
        }
    }

    /// The report observing a completed frame makes.
    pub open spec fn reports(
        self,
        support: WindowSupport,
        near_energy: Measure,
        far_energy: Measure,
        scan: FineScan,
        observation: FineObservation,
    ) -> bool {
        match self.use_of(support, near_energy, far_energy) {
            FrameUse::Refused => !observation.scored && observation.candidate is None,
            FrameUse::Folded => observation.scored && observation.candidate is None,
            FrameUse::Scanned => observation.scored && self.candidate_of(
                scan,
                observation.candidate,
            ),
        }
    }

    /// Whether the retained frame is re-correlated rather than left alone.
    pub open spec fn rescans(
        self,
        support: WindowSupport,
        near_energy: Measure,
        far_energy: Measure,
    ) -> bool {
        self.retained_near_valid && self.supports(support) && DelayEstimator::energetic(
            near_energy,
            far_energy,
        )
    }

    /// The just-constructed state over the same geometry.
    pub open spec fn pristine(self) -> bool {
        &&& self.search_origin == 0
        &&& self.near_frame@ == Seq::<Sample>::empty()
        &&& self.frames == 0
        &&& self.skipped == 0
        &&& self.last_scan_ratio == (Measure { bits: 0 })
        &&& self.last_scan_peak_at is None
        &&& self.last_scan_origin == 0
        &&& self.scans == 0
        &&& !self.retained_near_valid
    }

    /// Constructs the estimator for a search window of `max_delay_ms` at
    /// `sample_rate`.
    ///
    /// The analysis frame and the transform are sized from that window: the
    /// far-end span must cover the frame plus the whole window, so that every
    /// delay in the window is correlated over the same amount of signal and the
    /// estimate is not biased toward the short delays that would otherwise
    /// overlap more.
    pub fn new(sample_rate: u32, max_delay_ms: u16) -> (r: DelayEstimator)
        requires
            crate::timing::samples_in(max_delay_ms as int, sample_rate as int) < MAX_FFT_LEN,
        ensures
            r.wf(),
            r.pristine(),
            r.max_delay == crate::timing::samples_in_at_least_one(max_delay_ms as int, sample_rate as int),
            r.fft_len == covering_transform(MIN_FFT_LEN as int, 2 * r.max_delay),
            power_of_two(r.fft_len as int),
    {
        let samples: u64 = ms_to_samples(max_delay_ms, sample_rate);
        let max_delay: usize = if samples < 1 {
            1
        } else {
            samples as usize
        };
        let need: usize = 2 * max_delay;
        let mut fft_len: usize = MIN_FFT_LEN;
        proof {
            lemma_transform_covers_the_search(max_delay as int);
        }
        while fft_len < need && fft_len < MAX_FFT_LEN
            invariant
                MIN_FFT_LEN <= fft_len <= MAX_FFT_LEN,
                covering_transform(MIN_FFT_LEN as int, need as int) == covering_transform(
                    fft_len as int,
                    need as int,
                ),
                covering_transform(MIN_FFT_LEN as int, need as int) <= MAX_FFT_LEN,
            decreases MAX_FFT_LEN - fft_len,
        {
            proof {
                lemma_covering_grows(2 * fft_len, need as int);
            }
            fft_len = 2 * fft_len;
        }
        // The far-end window is the frame plus the search span, and it must fit
        // the transform without wrapping.
        let frame_len: usize = fft_len - max_delay;
        DelayEstimator {
            fft_len,
            max_delay,
            frame_len,
            search_origin: 0,
            near_frame: Vec::new(),
            frames: 0,
            skipped: 0,
            last_scan_ratio: Measure::zero(),
            last_scan_peak_at: None,
            last_scan_origin: 0,
            scans: 0,
            retained_near: Vec::new(),
            retained_near_valid: false,
        }
    }

    /// The near-end analysis frame length in samples.
    pub fn frame_len(&self) -> (r: usize)
        ensures
            r == self.frame_len,
    {
        self.frame_len
    }

    /// The number of far-end samples one frame needs: the frame plus the whole
    /// search window. Constant for the life of the estimator, because relocation
    /// moves the search range without resizing it.
    pub fn window_len(&self) -> (r: usize)
        requires
            self.wf(),
        ensures
            r == self.frame_len + self.max_delay,
            r == self.fft_len,
    {
        self.frame_len + self.max_delay
    }

    /// The search window's width in samples.
    pub fn max_delay(&self) -> (r: usize)
        ensures
            r == self.max_delay,
    {
        self.max_delay
    }

    /// How far back from the near frame's end the far window starts: the search
    /// origin plus the whole search span.
    pub fn window_back_off(&self) -> (r: usize)
        requires
            self.wf(),
        ensures
            r == self.search_origin + self.max_delay,
    {
        self.search_origin + self.max_delay
    }

    /// The inclusive search range in samples, `(origin, origin + span)`.
    pub fn search_range(&self) -> (r: (usize, usize))
        requires
            self.wf(),
        ensures
            r.0 == self.search_origin,
            r.1 == self.search_origin + self.max_delay,
    {
        (self.search_origin, self.search_origin + self.max_delay)
    }

    /// Frames accumulated against the current search origin.
    pub fn frames(&self) -> (r: u32)
        ensures
            r == self.frames,
    {
        self.frames
    }

    /// Frames refused for want of window support since the last reset.
    pub fn skipped(&self) -> (r: u32)
        ensures
            r == self.skipped,
    {
        self.skipped
    }

    /// The most recent scanned frame's peak-over-mean ratio, gate outcome aside.
    /// Zero until a frame has been scanned.
    pub fn last_scan_ratio(&self) -> (r: Measure)
        ensures
            r == self.last_scan_ratio,
    {
        self.last_scan_ratio
    }

    /// The most recent scanned frame's raw peak index, [`None`] until a frame
    /// has been scanned.
    pub fn last_scan_peak_at(&self) -> (r: Option<usize>)
        ensures
            r == self.last_scan_peak_at,
    {
        self.last_scan_peak_at
    }

    /// The search origin the most recent scan ran against.
    pub fn last_scan_origin(&self) -> (r: usize)
        ensures
            r == self.last_scan_origin,
    {
        self.last_scan_origin
    }

    /// Total scans since construction or the last reset.
    pub fn scans(&self) -> (r: u64)
        ensures
            r == self.scans,
    {
        self.scans
    }

    /// Re-centres the search on `origin`, discarding everything accumulated
    /// against the previous one.
    ///
    /// The frame length, the search span, and the transform are unchanged, so
    /// every scanned index still gets exactly `frame_len` product terms, and the
    /// peak-over-mean statistics the confidence gate is calibrated against are
    /// unchanged. Only where the far window is read from moves.
    pub fn relocate(&mut self, origin: usize)
        requires
            old(self).wf(),
            origin <= ORIGIN_LIMIT,
        ensures
            final(self).wf(),
            final(self).restarted_from(*old(self), origin),
    {
        self.search_origin = origin;
        self.restart();
    }

    /// Discards the accumulation, keeping the search origin.
    ///
    /// The accumulator has no forgetting factor, so this is the only way to
    /// un-bank a frame that should not have counted, such as one straddling a
    /// re-anchor seam.
    pub fn restart(&mut self)
        requires
            old(self).wf(),
        ensures
            final(self).wf(),
            final(self).restarted_from(*old(self), old(self).search_origin),
    {
        self.near_frame.clear();
        self.frames = 0;
    }

    /// Appends one near-end sample, returning whether that completed a frame.
    ///
    /// A completed frame is consumed by the next
    /// [`observe`](DelayEstimator::observe) call.
    pub fn push_near(&mut self, sample: Sample) -> (r: bool)
        requires
            old(self).wf(),
            !old(self).complete(),
        ensures
            final(self).wf(),
            final(self).near_frame@ == old(self).near_frame@.push(sample),
            *final(self) == (DelayEstimator {
                near_frame: final(self).near_frame,
                ..*old(self)
            }),
            r == final(self).complete(),
    {
        self.near_frame.push(sample);
        self.near_frame.len() == self.frame_len
    }

    /// Whether a far window is backed well enough to correlate against.
    ///
    /// A window short at the head does not reach back far enough to cover the
    /// deepest candidate lag with real signal, so the shallow lags correlate
    /// over more of the frame than the deep ones and the peak is drawn toward
    /// the search edge whatever the audio says. A window short at the tail has
    /// the same defect in the other direction, but weakly, and every cadence
    /// that does not run far ahead produces one, so it is bounded rather than
    /// refused.
    pub fn is_supported(&self, support: WindowSupport) -> (r: bool)
        ensures
            r == self.supports(support),
    {
        support.missing_head == 0 && support.missing_tail <= self.frame_len
            / TAIL_DEFICIT_LIMIT_DEN
    }

    /// Whether a frame carries energy on both sides. There is nothing to learn
    /// from a silent one.
    fn is_energetic(near_energy: Measure, far_energy: Measure) -> (r: bool)
        ensures
            r == DelayEstimator::energetic(near_energy, far_energy),
    {
        let floor: Measure = Measure { bits: FRAME_ENERGY_FLOOR_BITS };
        !near_energy.is_below(floor) && !far_energy.is_below(floor)
    }

    /// Whether the frame and scan counters have room for one more.
    pub fn has_room_for_frame(&self) -> (r: bool)
        ensures
            r == self.has_room(),
    {
        self.frames < u32::MAX && self.scans < u64::MAX
    }

    /// What becomes of the completed frame, given how well its far window is
    /// backed and how much energy each side carries. The host measures no more
    /// than the answer calls for.
    pub fn frame_use(
        &self,
        support: WindowSupport,
        near_energy: Measure,
        far_energy: Measure,
    ) -> (r: FrameUse)
        ensures
            r == self.use_of(support, near_energy, far_energy),
    {
        if !self.is_supported(support) || !DelayEstimator::is_energetic(near_energy, far_energy) {
            FrameUse::Refused
        } else if self.frames < MIN_FRAMES - 1 {
            FrameUse::Folded
        } else {
            FrameUse::Scanned
        }
    }

    /// Whether the retained frame is re-correlated at the current origin. See
    /// [`rescan`](DelayEstimator::rescan).
    pub fn will_rescan(
        &self,
        support: WindowSupport,
        near_energy: Measure,
        far_energy: Measure,
    ) -> (r: bool)
        ensures
            r == self.rescans(support, near_energy, far_energy),
    {
        self.retained_near_valid && self.is_supported(support) && DelayEstimator::is_energetic(
            near_energy,
            far_energy,
        )
    }

    /// Records one scan and applies the confidence gate to its peak.
    fn conclude(&mut self, scan: &FineScan) -> (r: Option<FineLock>)
        requires
            old(self).wf(),
            old(self).scans < u64::MAX,
            scan.correlation@.len() > old(self).max_delay,
        ensures
            final(self).wf(),
            final(self).records(*old(self), *scan),
            *final(self) == (DelayEstimator {
                last_scan_ratio: final(self).last_scan_ratio,
                last_scan_peak_at: final(self).last_scan_peak_at,
                last_scan_origin: final(self).last_scan_origin,
                scans: final(self).scans,
                ..*old(self)
            }),
            old(self).candidate_of(*scan, r),
    {
        let peak_at: usize = peak_index(&scan.correlation, self.max_delay + 1);
        self.last_scan_ratio = scan.ratio;
        self.last_scan_peak_at = Some(peak_at);
        self.last_scan_origin = self.search_origin;
        self.scans = self.scans + 1;
        if scan.mean.is_at_most(Measure::zero()) || scan.peak.is_below(scan.gate) {
            return None;
        }
        // Back the candidate delay off the peak by the safety margin, which the
        // filter downstream needs because it can only model lags at or after the
        // offset it is given.
        let delay: usize = (self.search_origin + self.max_delay - peak_at).saturating_sub(
            LOCK_MARGIN_SAMPLES,
        );
        Some(FineLock { delay, peak_at, ratio: scan.ratio })
    }

    /// Judges the completed near-end frame and reports what it contributed:
    /// whether it was scored, and the candidate delay if it cleared the
    /// confidence gate.
    ///
    /// `support` says how much of the far window fed reference actually backed,
    /// the energies are those of the near frame and of that window, and `scan`
    /// is the correlation accumulated up to and including this frame, read only
    /// when [`frame_use`](DelayEstimator::frame_use) answers
    /// [`FrameUse::Scanned`]. The frame is consumed either way.
    pub fn observe(
        &mut self,
        support: WindowSupport,
        near_energy: Measure,
        far_energy: Measure,
        scan: &FineScan,
    ) -> (r: FineObservation)
        requires
            old(self).wf(),
            old(self).complete(),
            old(self).use_of(support, near_energy, far_energy) is Scanned ==> old(self).has_room()
                && scan.correlation@.len() > old(self).max_delay,
        ensures
            final(self).wf(),
            final(self).observed_from(*old(self), support, near_energy, far_energy, *scan),
            old(self).reports(support, near_energy, far_energy, *scan, r),
    {
        if !self.is_supported(support) {
            self.near_frame.clear();
            self.retained_near_valid = false;
            self.skipped = self.skipped.saturating_add(1);
            return FineObservation { scored: false, candidate: None };
        }
        if !DelayEstimator::is_energetic(near_energy, far_energy) {
            self.near_frame.clear();
            self.retained_near_valid = false;
            return FineObservation { scored: false, candidate: None };
        }
        // Retain the raw frame so a relocation that follows can re-correlate it
        // against the new range instead of discarding it.
        self.retained_near.clear();
        self.retained_near.append(&mut self.near_frame);
        self.retained_near_valid = true;
        self.frames = self.frames + 1;
        if self.frames < MIN_FRAMES {
            return FineObservation { scored: true, candidate: None };
        }
        let candidate: Option<FineLock> = self.conclude(scan);
        FineObservation { scored: true, candidate }
    }

    /// Re-correlates the retained near frame against the far window at the
    /// CURRENT (post-[`relocate`](DelayEstimator::relocate)) origin, as a single
    /// corroborated frame, and reports the candidate if it clears the confidence
    /// gate.
    ///
    /// Called once immediately after a relocation to recover an alignment from
    /// the frame that completed at the OLD origin instead of discarding it. The
    /// single frame is scanned WITHOUT the [`MIN_FRAMES`] wait the ordinary path
    /// enforces, because the promotion it feeds is gated by the caller on the
    /// coarse region's independent corroboration and an interior-peak test
    /// rather than on accumulation depth. It does not touch the accumulation, so
    /// a rescan that does not promote leaves the estimator exactly as the
    /// relocation left it, its scan record aside.
    pub fn rescan(
        &mut self,
        support: WindowSupport,
        near_energy: Measure,
        far_energy: Measure,
        scan: &FineScan,
    ) -> (r: FineObservation)
        requires
            old(self).wf(),
            old(self).rescans(support, near_energy, far_energy) ==> old(self).scans < u64::MAX
                && scan.correlation@.len() > old(self).max_delay,
        ensures
            final(self).wf(),
            old(self).rescans(support, near_energy, far_energy) ==> {
                &&& r.scored
                &&& old(self).candidate_of(*scan, r.candidate)
                &&& final(self).records(*old(self), *scan)
                &&& *final(self) == (DelayEstimator {
                    last_scan_ratio: final(self).last_scan_ratio,
                    last_scan_peak_at: final(self).last_scan_peak_at,
                    last_scan_origin: final(self).last_scan_origin,
                    scans: final(self).scans,
                    ..*old(self)
                })
            },
            !old(self).rescans(support, near_energy, far_energy) ==> {
                &&& !r.scored
                &&& r.candidate is None
                &&& *final(self) == *old(self)
            },
    {
        if !self.will_rescan(support, near_energy, far_energy) {
            return FineObservation { scored: false, candidate: None };
        }
        let candidate: Option<FineLock> = self.conclude(scan);
        FineObservation { scored: true, candidate }
    }

    /// Clears the estimator to its just-constructed state, discarding the search
    /// origin so the next stream estimates afresh.
    pub fn reset(&mut self)
        requires
            old(self).wf(),
        ensures
            final(self).wf(),
            final(self).same_geometry(*old(self)),
            final(self).pristine(),
    {
        self.search_origin = 0;
        self.skipped = 0;
        self.last_scan_ratio = Measure::zero();
        self.last_scan_peak_at = None;
        self.last_scan_origin = 0;
        self.scans = 0;
        self.retained_near_valid = false;
        self.restart();
    }
}

/// Where a correlation peaks is unique.
proof fn lemma_the_first_peak_is_unique(correlation: Seq<Sample>, count: int, a: int, b: int)
    requires
        is_first_peak(correlation, count, a),
        is_first_peak(correlation, count, b),
    ensures
        a == b,
{
    assert(loudness(correlation[a]) == loudness(correlation[b]));
    if a < b {
        assert(loudness(correlation[a]) < loudness(correlation[b]));
    } else if b < a {
        assert(loudness(correlation[b]) < loudness(correlation[a]));
    }
}

/// A scan yields one candidate: two estimators at the same origin read the same
/// one out of the same scan.
pub proof fn lemma_a_scan_yields_one_candidate(
    a: DelayEstimator,
    b: DelayEstimator,
    scan: FineScan,
    candidate_a: Option<FineLock>,
    candidate_b: Option<FineLock>,
)
    requires
        a.same_evidence(b),
        a.candidate_of(scan, candidate_a),
        b.candidate_of(scan, candidate_b),
    ensures
        candidate_a == candidate_b,
{
    if candidate_a is Some {
        lemma_the_first_peak_is_unique(
            scan.correlation@,
            a.max_delay + 1,
            candidate_a->0.peak_at as int,
            candidate_b->0.peak_at as int,
        );
    }
}

/// A scan leaves one record: two estimators in the same state that record the same
/// scan have the same record.
pub proof fn lemma_a_scan_leaves_one_record(
    a: DelayEstimator,
    b: DelayEstimator,
    after_a: DelayEstimator,
    after_b: DelayEstimator,
    scan: FineScan,
)
    requires
        a.alike(b),
        after_a.records(a, scan),
        after_b.records(b, scan),
    ensures
        after_a.same_record(after_b),
{
    lemma_the_first_peak_is_unique(
        scan.correlation@,
        a.max_delay + 1,
        after_a.last_scan_peak_at->0 as int,
        after_b.last_scan_peak_at->0 as int,
    );
}

/// Judging a frame is deterministic: two estimators in the same state that observe
/// the same measurements end in the same state and make the same report.
pub proof fn lemma_judging_a_frame_is_deterministic(
    a: DelayEstimator,
    b: DelayEstimator,
    after_a: DelayEstimator,
    after_b: DelayEstimator,
    support: WindowSupport,
    near_energy: Measure,
    far_energy: Measure,
    scan: FineScan,
    report_a: FineObservation,
    report_b: FineObservation,
)
    requires
        a.alike(b),
        after_a.observed_from(a, support, near_energy, far_energy, scan),
        after_b.observed_from(b, support, near_energy, far_energy, scan),
        a.reports(support, near_energy, far_energy, scan, report_a),
        b.reports(support, near_energy, far_energy, scan, report_b),
    ensures
        after_a.alike(after_b),
        report_a == report_b,
{
    assert(a.use_of(support, near_energy, far_energy) == b.use_of(
        support,
        near_energy,
        far_energy,
    ));
    if a.use_of(support, near_energy, far_energy) is Scanned {
        lemma_a_scan_leaves_one_record(a, b, after_a, after_b, scan);
        lemma_a_scan_yields_one_candidate(a, b, scan, report_a.candidate, report_b.candidate);
    }
}

/// A rescan leaves the search as it was: nothing but the record of scans changes, so
/// the estimator stands on the evidence it stood on before.
pub proof fn lemma_a_rescan_keeps_the_evidence(before: DelayEstimator, after: DelayEstimator)
    requires
        after == (DelayEstimator {
            last_scan_ratio: after.last_scan_ratio,
            last_scan_peak_at: after.last_scan_peak_at,
            last_scan_origin: after.last_scan_origin,
            scans: after.scans,
            ..before
        }),
    ensures
        after.same_evidence(before),
        after.frames == before.frames,
        after.skipped == before.skipped,
        after.search_origin == before.search_origin,
{
}

/// The record of scans steers nothing: of two estimators that stand on the same
/// evidence, each makes the same report of the next frame, and they stand on the
/// same evidence after it.
pub proof fn lemma_the_scan_record_steers_nothing(
    a: DelayEstimator,
    b: DelayEstimator,
    after_a: DelayEstimator,
    after_b: DelayEstimator,
    support: WindowSupport,
    near_energy: Measure,
    far_energy: Measure,
    scan: FineScan,
    report_a: FineObservation,
    report_b: FineObservation,
)
    requires
        a.same_evidence(b),
        after_a.observed_from(a, support, near_energy, far_energy, scan),
        after_b.observed_from(b, support, near_energy, far_energy, scan),
        a.reports(support, near_energy, far_energy, scan, report_a),
        b.reports(support, near_energy, far_energy, scan, report_b),
    ensures
        a.complete() == b.complete(),
        after_a.same_evidence(after_b),
        report_a == report_b,
{
    assert(a.use_of(support, near_energy, far_energy) == b.use_of(
        support,
        near_energy,
        far_energy,
    ));
    if a.use_of(support, near_energy, far_energy) is Scanned {
        lemma_a_scan_yields_one_candidate(a, b, scan, report_a.candidate, report_b.candidate);
    }
}

/// Taking a near sample depends on the evidence alone.
pub proof fn lemma_taking_a_sample_keeps_the_evidence(
    a: DelayEstimator,
    b: DelayEstimator,
    after_a: DelayEstimator,
    after_b: DelayEstimator,
    sample: Sample,
)
    requires
        a.same_evidence(b),
        after_a.near_frame@ == a.near_frame@.push(sample),
        after_b.near_frame@ == b.near_frame@.push(sample),
        after_a == (DelayEstimator { near_frame: after_a.near_frame, ..a }),
        after_b == (DelayEstimator { near_frame: after_b.near_frame, ..b }),
    ensures
        after_a.same_evidence(after_b),
        after_a.complete() == after_b.complete(),
{
}

/// A transform reached by doubling is at least the one it started from.
proof fn lemma_covering_grows(from: int, need: int)
    requires
        0 < from,
    ensures
        covering_transform(from, need) >= from,
    decreases 2 * MAX_FFT_LEN - from,
{
    if from < need && from < MAX_FFT_LEN {
        lemma_covering_grows(2 * from, need);
    }
}

/// Every delay of the search range is reachable and nothing else is: an index
/// in `0..=max_delay` maps into the range, the first index onto its deep end and
/// the last onto its shallow one, each backed off by the lock margin.
pub proof fn lemma_a_peak_maps_into_the_search_range(
    estimator: DelayEstimator,
    peak_at: int,
)
    requires
        estimator.wf(),
        0 <= peak_at <= estimator.max_delay,
    ensures
        ({
            let low = estimator.search_origin as int;
            let high = estimator.search_origin + estimator.max_delay;
            let delay = mapped_delay(low, estimator.max_delay as int, peak_at);
            &&& 0 <= delay <= high
            &&& low - LOCK_MARGIN_SAMPLES <= delay
            &&& peak_at == estimator.max_delay && low >= LOCK_MARGIN_SAMPLES ==> delay == low
                - LOCK_MARGIN_SAMPLES
            &&& peak_at == 0 && high >= LOCK_MARGIN_SAMPLES ==> delay == high
                - LOCK_MARGIN_SAMPLES
        }),
{
}

} // verus!
