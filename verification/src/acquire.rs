//! The coarse-to-fine delay acquisition and the lock's afterlife: the global
//! scan, the sample-granular fine estimator, the promotion gate that decides
//! when a candidate becomes the stream's alignment, the local tracker that
//! follows the alignment once it exists, and the reacquisition triggers that
//! send a lock gone bad back to the global search.
//!
//! # Why a gate exists at all
//!
//! The fine estimator scans a fixed-width range and reports where the
//! correlation peaked. A peak in the interior of that range is a maximum of the
//! function; a peak pinned at either END of the range is not, and is what a
//! delay OUTSIDE the range produces. Promotion refuses to adopt an edge-pinned
//! peak without corroboration. The correlation index maps to delay as
//! `origin + span - index`, so the far end of the range maps to a short delay
//! and the near end to the deepest delay the range can express.
//!
//! # What a promotion requires
//!
//! A candidate is promoted to a trusted lock on one of three grounds:
//!
//! - the coarse global scan independently found a region that AGREES with it;
//! - no region is available at all, and the fine peak stands clear of both ends
//!   of its range and clears a confidence bar set higher than the corroborated
//!   one;
//! - the fine search never produced an agreeing peak inside a region the coarse
//!   scan is confident about, in which case the region itself is adopted, backed
//!   off toward the early side. Before this last resort fires, the scan is
//!   re-armed and must find the region a SECOND time, independently.
//!
//! Agreement is asymmetric: the consumer is a filter that models only causal
//! lags, so every tolerance and every rounding in this module is wider or biased
//! toward early.
//!
//! # After the lock
//!
//! The fine estimator keeps running, re-centred on a local window around the
//! adopted delay, with its accumulator restarted every [`TRACK_CYCLE_FRAMES`]
//! scored frames so each short cycle yields an independent local estimate.
//! [`Tracker`] consumes that cycle stream and decides per cycle whether to hold
//! the alignment, move it, or fire a [`ReacquireTrigger`], on which the whole
//! acquisition re-enters the global search while the engine keeps the stale
//! offset until something better is promoted. The coarse scan's near chain is
//! stopped while a lock stands; its far envelope keeps building.
//!
//! A stream that never locks is not abandoned either: when the coarse scan gives
//! up but confident far-end excitation keeps arriving, the scan is re-armed.

use vstd::prelude::*;

use crate::coarse::{CoarseRegion, CoarseScan, CoarseScore, COARSE_RATE_LIMIT};
use crate::delay::{
    DelayEstimate, DelayEstimator, DelayLockSource, DelayStatus, FineLock, FineObservation,
    FineScan, ReacquireTrigger, WindowSupport, LOCK_MARGIN_SAMPLES, MAX_FFT_LEN,
    ORIGIN_LIMIT,
};
use crate::sample::{Measure, Sample};
use crate::timing::{short_ms_to_samples, short_ms_to_samples_at_least_one};
use crate::track::{distance, CycleOutcome, TrackVerdict, Tracker, TRACK_CYCLE_FRAMES};

verus! {

/// How far a fine peak must stand from either end of its search range before it
/// can be adopted without corroboration, in milliseconds.
///
/// A genuine delay shorter than this is not banned, only refused the
/// uncorroborated path: it is still reached through a corroborating coarse
/// region.
pub const FINE_EDGE_GUARD_MS: u16 = 8;

/// The confidence a fine peak must reach to be adopted with no corroboration:
/// the bit pattern of twenty.
///
/// Uncorroborated promotion must cost strictly more evidence than corroborated
/// promotion.
pub const LOCAL_ONLY_CONFIDENCE_BITS: u64 = 0x4034_0000_0000_0000;

/// How much LATER than the coarse region a fine value may sit and still be
/// called agreement, in milliseconds. The tight side.
pub const AGREE_LATE_MS: u16 = 32;

/// How much EARLIER than the coarse region a fine value may sit and still be
/// called agreement, in milliseconds. The wide side.
pub const AGREE_EARLY_MS: u16 = 128;

/// Where the relocated fine window sits around a coarse region, as a fraction of
/// the window's own width placed BEFORE the region.
pub const RELOCATE_LEAD_NUM: usize = 3;

/// Denominator of [`RELOCATE_LEAD_NUM`].
pub const RELOCATE_LEAD_DEN: usize = 4;

/// Extra backoff applied when a coarse region is adopted as the alignment
/// outright, in milliseconds. Spent out of the filter tail on the side the
/// filter can absorb.
pub const COARSE_ADOPT_BACKOFF_MS: u16 = 64;

/// How many times the fine search may be re-centred per acquisition round.
///
/// A reacquisition or a re-arm starts a fresh round with a fresh budget.
pub const MAX_RELOCATIONS: u32 = 1;

/// Fine frames observed with a region available before the region is adopted on
/// its own.
pub const COARSE_ONLY_PATIENCE_FRAMES: u32 = 4;

/// How closely an independently re-found coarse region must agree with the one
/// awaiting last-resort adoption, in milliseconds.
///
/// Re-finding the region inside this band is confirmation; re-finding it outside
/// is contradiction.
pub const REVERIFY_AGREE_MS: u16 = 30;

/// How many times the last-resort re-verification may refuse a region before it
/// stands down for the acquisition, instead of re-arming the coarse scan yet
/// again.
///
/// When the budget is spent the last resort stands down and the coarse scan goes
/// quiescent rather than re-arming again; a genuinely past-ceiling delay is
/// still refused rather than adopted as a shallow alias.
pub const MAX_REVERIFY_REJECTS: u32 = 8;

/// Scored fine frames after the coarse scan gives up before it is re-armed.
///
/// Counted in SCORED frames, so this is a measure of far-end excitation, not
/// wall time: a stream that goes quiet after the scan gives up never re-arms it.
pub const REARM_SCORED_FRAMES: u32 = 16;

/// How many times the coarse re-arm interval may double after successive
/// re-arms that never produced a lock.
///
/// The interval doubles after each unsuccessful re-arm; the FIRST re-arm keeps
/// its plain interval.
pub const REARM_BACKOFF_MAX: u32 = 16;

/// The multiplier on the re-arm interval once it has doubled
/// [`REARM_BACKOFF_MAX`] times.
pub const REARM_BACKOFF_LIMIT: u32 = 0x1_0000;

/// Consecutive settled tracking cycles before the tracking search idles.
///
/// A cycle is settled when the tracker is quiescent (see
/// [`Tracker::quiescent`]) AND the cycle produced a confident interior estimate
/// within [`TRACK_STABLE_MS`] of the standing alignment.
pub const TRACK_STABLE_CYCLES: u32 = 4;

/// How far a cycle estimate may sit from the alignment, AND from the previous
/// cycle's estimate, and still count the cycle as settled, in milliseconds.
///
/// Both comparisons are required. Agreement with the ALIGNMENT establishes there
/// is no standing offset; agreement with the PREVIOUS cycle's estimate
/// establishes the delay is not walking.
pub const TRACK_STABLE_MS: u16 = 4;

/// The deepest the tracking idle ramps, in whole tracking cycles.
///
/// Bounds what the idle costs in detection latency: a delay that moves during an
/// idle is observed up to this many cycles late. The ramp doubles so a
/// short-lived lock never reaches the deep steps.
pub const TRACK_IDLE_MAX_CYCLES: u32 = 4;

/// How far off-centre the tracked delay may sit in its local window before the
/// window is re-centred on it, as a reciprocal fraction of the window span.
///
/// Re-centring discards the cycle's accumulation, so it is done on drift that
/// threatens the margin for following further movement, not on every move.
pub const TRACK_RECENTRE_DEN: usize = 4;

/// The largest delay any stage can report: the deepest search origin plus the
/// widest search span.
pub const DELAY_LIMIT: usize = 0x4000_ffff;

/// The largest absolute near index the acquisition can address: a quarter of
/// the index range, so that every window start fits a signed index.
pub const NEAR_LIMIT: u64 = 0x3fff_ffff_ffff_ffff;

/// What the acquisition asks the engine to do with the alignment.
#[derive(Debug, Clone, Copy, PartialEq, Eq, Structural)]
pub enum AcquireAction {
    /// A trusted lock was promoted. The engine adopts the offset and resets the
    /// canceller, whose coefficients were learned against the alignment that
    /// just changed; if the offset is essentially unchanged (a reacquisition
    /// that re-confirmed the standing lock), it keeps the learned state.
    Promote(usize),
    /// The tracker moved the alignment. The engine adopts the offset WITHOUT
    /// resetting the canceller: the movement is small by construction, the
    /// learned filter state is still mostly right, and the canceller's own
    /// shadow adaptation absorbs the shift.
    Track(usize),
}

/// What one [`observe`](DelayAcquirer::observe) call produced.
///
/// A relocation cannot be carried out inside `observe`: re-correlating the
/// buffered frame against the new search range needs a fresh far window, and
/// only the engine holds the reference ring to assemble it. So a relocation that
/// leaves behind an abandoned-range candidate which would otherwise promote is
/// reported through [`rescan_pending`](ObserveOutcome::rescan_pending), and the
/// engine answers it by assembling the new window and calling
/// [`rescan`](DelayAcquirer::rescan).
#[derive(Debug, Clone, Copy, PartialEq, Eq)]
pub struct ObserveOutcome {
    /// The alignment action this frame produced, if any. Always [`None`] when
    /// [`rescan_pending`](ObserveOutcome::rescan_pending) is set.
    pub action: Option<AcquireAction>,
    /// Whether the engine must assemble a far window at the just-relocated
    /// origin and call [`rescan`](DelayAcquirer::rescan).
    pub rescan_pending: bool,
}

impl ObserveOutcome {
    /// An outcome carrying an alignment action (or none) and no rescan.
    pub fn action(action: Option<AcquireAction>) -> (r: ObserveOutcome)
        ensures
            r == (ObserveOutcome { action, rescan_pending: false }),
    {
        ObserveOutcome { action, rescan_pending: false }
    }

    /// An outcome asking the engine to rescan the just-relocated frame.
    pub fn rescan() -> (r: ObserveOutcome)
        ensures
            r == (ObserveOutcome { action: None, rescan_pending: true }),
    {
        ObserveOutcome { action: None, rescan_pending: true }
    }
}

/// The outcome of a [`try_relocate`](DelayAcquirer::try_relocate) attempt.
#[derive(Debug, Clone, Copy, PartialEq, Eq, Structural)]
pub enum Relocation {
    /// The fine search was not re-centred; the caller falls through to the
    /// promotion ladder.
    NotRelocated,
    /// The fine search was re-centred, and the candidate measured against the
    /// abandoned range would NOT have promoted, so nothing more is owed this
    /// frame.
    Relocated,
    /// The fine search was re-centred, and the candidate measured against the
    /// abandoned range WOULD have promoted through the corroborated arm, which
    /// applies no interior test. The engine must rescan the buffered frame
    /// against the new range and promote the correct interior candidate instead
    /// of the abandoned edge-pinned one.
    RelocatedRescan,
}

/// The acquisition state machine's states.
#[derive(Debug, Clone, Copy, PartialEq, Eq, Structural)]
pub enum AcquisitionState {
    /// Both searches running, nothing promoted, fine search at its starting
    /// origin.
    Searching,
    /// The fine search has been re-centred on a coarse region and is
    /// re-accumulating there.
    Relocated,
    /// A trusted alignment has been promoted and the tracker is following it.
    Locked,
}

/// Which frames one near sample completed.
#[derive(Debug, Clone, Copy, PartialEq, Eq, Structural)]
pub struct NearStep {
    /// A coarse frame is complete and awaits its score.
    pub coarse: bool,
    /// A fine frame is complete and awaits its far window.
    pub fine: bool,
}

/// The coarse-to-fine delay acquirer. See the module documentation.
pub struct DelayAcquirer {
    /// The cheap global scan.
    pub coarse: CoarseScan,
    /// The sample-granular local estimator.
    pub fine: DelayEstimator,
    /// The configured rate, kept for constructing per-lock trackers.
    pub sample_rate: u32,
    /// The fine search span in samples, cached.
    pub fine_span: usize,
    /// [`FINE_EDGE_GUARD_MS`] in samples.
    pub edge_guard: usize,
    /// [`AGREE_LATE_MS`] in samples.
    pub agree_late: usize,
    /// [`AGREE_EARLY_MS`] in samples.
    pub agree_early: usize,
    /// [`COARSE_ADOPT_BACKOFF_MS`] in samples.
    pub adopt_backoff: usize,
    /// [`REVERIFY_AGREE_MS`] in samples.
    pub reverify_agree: usize,
    /// The far-absolute index the next near sample carries. A discontinuity here
    /// means the engine re-anchored.
    pub next_near_abs: u64,
    /// Whether `next_near_abs` has been set at least once.
    pub anchored: bool,
    /// The state machine's state.
    pub state: AcquisitionState,
    /// Relocations spent this acquisition round.
    pub relocations: u32,
    /// Fine frames observed while a region was available. Drives the last-resort
    /// path; zeroed by a relocation.
    pub frames_with_region: u32,
    /// The region awaiting independent re-confirmation before the last resort
    /// may adopt it. While it stands, the re-armed scan is looking for it.
    pub pending_region: Option<CoarseRegion>,
    /// Regions that contradicted their re-confirmation and were refused.
    pub regions_rejected: u32,
    /// Scored fine frames since the coarse scan gave up, driving the re-arm.
    pub scored_since_exhausted: u32,
    /// The multiplier on the coarse re-arm interval, doubling after each
    /// unsuccessful re-arm. One until the first re-arm has been spent, so the
    /// first re-arm waits out one plain interval.
    pub rearm_backoff: u32,
    /// Times the coarse scan was re-armed after giving up.
    pub coarse_rearms: u32,
    /// The per-lock tracker, present exactly while a lock stands.
    pub tracker: Option<Tracker>,
    /// Scored fine frames in the current tracking cycle.
    pub cycle_scored: u32,
    /// The current tracking cycle's confident candidate, if one has appeared.
    pub cycle_candidate: Option<FineLock>,
    /// [`TRACK_STABLE_MS`] in samples.
    pub track_stable: usize,
    /// Consecutive settled tracking cycles.
    pub stable_cycles: u32,
    /// The previous observed cycle's confident interior estimate, for the
    /// not-walking half of the settled test.
    pub last_cycle_delay: Option<usize>,
    /// The current idle depth in tracking cycles, doubling while the lock stays
    /// settled and dropping to zero the moment it does not.
    pub idle_depth: u32,
    /// Near samples still to be withheld from the fine estimator. Withheld
    /// samples complete no frame, so no transform runs and no cycle concludes;
    /// the far-absolute grid advances regardless, which is what keeps a skip
    /// from being mistaken for a stream discontinuity.
    pub idle_samples: usize,
    /// Alignment updates applied by the tracker after the initial lock.
    pub tracking_moves: u32,
    /// Whether a reacquisition trigger has fired and no new lock has been
    /// promoted since.
    pub reacquiring: bool,
    /// Times a reacquisition trigger fired.
    pub reacquisitions: u32,
    /// The most recent reacquisition's trigger.
    pub last_trigger: Option<ReacquireTrigger>,
    /// The longest contradiction run seen since construction or reset.
    ///
    /// Held here rather than on the [`Tracker`] because a reacquisition replaces
    /// the tracker outright, and a high-water mark that resets with it would
    /// erase the very episode worth reporting.
    pub contradiction_run_max: u32,
    /// The adopted alignment, kept on report through a reacquisition.
    pub locked: Option<usize>,
    /// The evidence behind the adopted alignment.
    pub source: Option<DelayLockSource>,
}

/// The first of two options that holds a region.
pub open spec fn either_region(
    region: Option<CoarseRegion>,
    pending: Option<CoarseRegion>,
) -> Option<CoarseRegion> {
    if region is Some {
        region
    } else {
        pending
    }
}

/// `a - b`, stopping at zero.
pub open spec fn less(a: int, b: int) -> int {
    if a <= b {
        0
    } else {
        a - b
    }
}

/// The multiplier on the re-arm interval after one more unsuccessful re-arm.
pub open spec fn backed_off(multiplier: u32) -> u32 {
    if 2 * multiplier > REARM_BACKOFF_LIMIT {
        REARM_BACKOFF_LIMIT
    } else {
        (2 * multiplier) as u32
    }
}

/// The multiplier after a whole run of unsuccessful re-arms.
pub open spec fn multiplier_after(rearms: nat) -> u32
    decreases rearms,
{
    if rearms == 0 {
        1
    } else {
        backed_off(multiplier_after((rearms - 1) as nat))
    }
}

/// The re-arm interval doubles after each unsuccessful re-arm, sixteen times at
/// most, and the first one keeps its plain interval.
pub proof fn lemma_the_re_arm_interval_doubles_sixteen_times(rearms: nat)
    ensures
        rearms <= REARM_BACKOFF_MAX ==> multiplier_after(rearms) == vstd::arithmetic::power2::pow2(rearms),
        rearms >= REARM_BACKOFF_MAX ==> multiplier_after(rearms) == vstd::arithmetic::power2::pow2(
            REARM_BACKOFF_MAX as nat,
        ),
    decreases rearms,
{
    vstd::arithmetic::power2::lemma2_to64();
    if rearms > 0 {
        lemma_the_re_arm_interval_doubles_sixteen_times((rearms - 1) as nat);
        vstd::arithmetic::power2::lemma_pow2_unfold(rearms);
        if rearms < REARM_BACKOFF_MAX {
            vstd::arithmetic::power2::lemma_pow2_strictly_increases(
                rearms,
                REARM_BACKOFF_MAX as nat,
            );
        }
    }
}

/// The delay of an interior cycle estimate.
pub open spec fn interior_estimate(outcome: CycleOutcome) -> Option<usize> {
    match outcome {
        CycleOutcome::Candidate { delay, interior } => if interior {
            Some(delay)
        } else {
            None
        },
        CycleOutcome::Unconfident => None,
    }
}

impl DelayAcquirer {
    /// Both stages are well formed, a tracker stands exactly while a lock does,
    /// a reacquisition keeps the value it left, and every counter stays inside
    /// the bound its rule gives it.
    pub open spec fn wf(self) -> bool {
        &&& self.coarse.wf()
        &&& self.fine.wf()
        &&& self.fine_span == self.fine.max_delay
        &&& self.edge_guard <= 0x00ff_ffff
        &&& self.sample_rate <= COARSE_RATE_LIMIT
        &&& (self.tracker is Some <==> self.state is Locked)
        &&& (self.state is Locked ==> self.locked is Some && self.source is Some)
        &&& (self.reacquiring ==> !(self.state is Locked))
        &&& (self.locked is Some <==> self.state is Locked || self.reacquiring)
        &&& (self.locked is None ==> self.source is None)
        &&& self.cycle_scored < TRACK_CYCLE_FRAMES
        &&& (!(self.state is Locked) ==> self.cycle_scored == 0 && self.cycle_candidate is None)
        &&& self.relocations <= MAX_RELOCATIONS
        &&& self.regions_rejected <= MAX_REVERIFY_REJECTS
        &&& (self.pending_region is Some ==> self.regions_rejected < MAX_REVERIFY_REJECTS)
        &&& self.pending_region matches Some(region) ==> region.delay <= ORIGIN_LIMIT
        &&& 1 <= self.rearm_backoff <= REARM_BACKOFF_LIMIT
        &&& self.scored_since_exhausted < REARM_SCORED_FRAMES * self.rearm_backoff
        &&& self.idle_depth <= TRACK_IDLE_MAX_CYCLES
        &&& self.idle_samples <= TRACK_IDLE_MAX_CYCLES * TRACK_CYCLE_FRAMES * MAX_FFT_LEN
        &&& self.locked matches Some(delay) ==> delay <= DELAY_LIMIT
        &&& self.cycle_candidate matches Some(lock) ==> lock.delay <= DELAY_LIMIT && lock.peak_at
            <= self.fine_span
    }

    /// Whether a fine report fits this acquirer's geometry.
    pub open spec fn fits(self, obs: FineObservation) -> bool {
        obs.candidate matches Some(lock) ==> lock.delay <= DELAY_LIMIT && lock.peak_at
            <= self.fine_span
    }

    /// Whether the near chain of the coarse stage sits on the absolute grid
    /// while no lock stands.
    pub open spec fn near_on_grid(self) -> bool {
        self.state is Locked || self.coarse.near_on_grid(self.next_near_abs as int)
    }

    /// Whether nothing awaits an answer from the host.
    pub open spec fn answered(self) -> bool {
        !self.coarse.complete() && !self.fine.complete()
    }

    /// The acquirer with its fine stage replaced.
    pub open spec fn with_fine(self, fine: DelayEstimator) -> DelayAcquirer {
        DelayAcquirer { fine, ..self }
    }

    /// The tracking search returned to full cadence.
    pub open spec fn unsettled(self) -> DelayAcquirer {
        DelayAcquirer {
            stable_cycles: 0,
            idle_depth: 0,
            idle_samples: 0,
            last_cycle_delay: None,
            ..self
        }
    }

    /// Whether a raw fine peak index stands clear of both ends of the range.
    pub open spec fn interior(self, peak_at: usize) -> bool {
        peak_at >= self.edge_guard && peak_at + self.edge_guard <= self.fine_span
    }

    /// Whether a fine value and a coarse region describe the same delay.
    pub open spec fn agree(self, fine: usize, coarse: usize) -> bool {
        if fine >= coarse {
            fine - coarse <= self.agree_late
        } else {
            coarse - fine <= self.agree_early
        }
    }

    /// The tracking window origin for a delay.
    pub open spec fn origin_for(self, delay: usize) -> usize {
        let ceiling: int = self.coarse.span * self.coarse.decimation;
        let capped: int = if delay <= ceiling {
            delay as int
        } else {
            ceiling
        };
        less(capped, self.fine_span as int / 2) as usize
    }

    /// Whether `self` is `before` with both stages and the tracking evidence
    /// cleared at a seam.
    pub open spec fn seamed_from(self, before: DelayAcquirer) -> bool {
        &&& self.fine.restarted_from(before.fine, before.fine.search_origin)
        &&& self.coarse.discarded_from(before.coarse)
        &&& self == (DelayAcquirer {
            fine: self.fine,
            coarse: self.coarse,
            cycle_scored: 0,
            cycle_candidate: None,
            tracker: (match before.tracker {
                Some(tracker) => Some(tracker.under_suspicion()),
                None => None,
            }),
            ..before.unsettled()
        })
    }

    /// Whether `self` is `before` with a lock promoted at `delay`.
    pub open spec fn promoted_from(
        self,
        before: DelayAcquirer,
        delay: usize,
        source: DelayLockSource,
    ) -> bool {
        &&& self.fine.restarted_from(before.fine, before.origin_for(delay))
        &&& self == (DelayAcquirer {
            fine: self.fine,
            locked: Some(delay),
            source: Some(source),
            state: AcquisitionState::Locked,
            reacquiring: false,
            pending_region: None,
            scored_since_exhausted: 0,
            rearm_backoff: 1,
            tracker: Some(Tracker::fresh(before.sample_rate)),
            cycle_scored: 0,
            cycle_candidate: None,
            ..before.unsettled()
        })
    }

    /// Whether `self` is `before` sent back to the global search by `trigger`.
    pub open spec fn reacquiring_from(
        self,
        before: DelayAcquirer,
        trigger: ReacquireTrigger,
    ) -> bool {
        &&& self.coarse.rearmed_from(before.coarse)
        &&& self.fine.restarted_from(before.fine, 0)
        &&& self == (DelayAcquirer {
            coarse: self.coarse,
            fine: self.fine,
            state: AcquisitionState::Searching,
            reacquiring: true,
            reacquisitions: crate::track::bumped(before.reacquisitions),
            last_trigger: Some(trigger),
            tracker: None,
            cycle_scored: 0,
            cycle_candidate: None,
            relocations: 0,
            frames_with_region: 0,
            pending_region: None,
            scored_since_exhausted: 0,
            rearm_backoff: 1,
            ..before.unsettled()
        })
    }

    /// Scored frames since the coarse scan gave up, this one included.
    pub open spec fn scored_with(self, scored: bool) -> int {
        if scored {
            self.scored_since_exhausted + 1
        } else {
            self.scored_since_exhausted as int
        }
    }

    /// Whether the give-up retry is due on this frame.
    pub open spec fn rearm_due(self, scored: bool) -> bool {
        self.coarse.exhausted && self.scored_with(scored) >= REARM_SCORED_FRAMES
            * self.rearm_backoff
    }

    /// Whether `self` is what one frame leaves of the give-up retry.
    pub open spec fn retried_from(self, before: DelayAcquirer, scored: bool) -> bool {
        if !before.coarse.exhausted {
            self == before
        } else if !before.rearm_due(scored) {
            self == (DelayAcquirer {
                scored_since_exhausted: before.scored_with(scored) as u32,
                pending_region: if before.scored_with(scored) == REARM_SCORED_FRAMES {
                    None
                } else {
                    before.pending_region
                },
                ..before
            })
        } else {
            &&& self.coarse.rearmed_from(before.coarse)
            &&& if before.fine.search_origin != 0 {
                self.fine.restarted_from(before.fine, 0)
            } else {
                self.fine == before.fine
            }
            &&& self == (DelayAcquirer {
                coarse: self.coarse,
                fine: self.fine,
                scored_since_exhausted: 0,
                rearm_backoff: backed_off(before.rearm_backoff),
                coarse_rearms: crate::track::bumped(before.coarse_rearms),
                relocations: 0,
                frames_with_region: 0,
                pending_region: None,
                state: AcquisitionState::Searching,
                ..before
            })
        }
    }

    /// Whether the fine search is re-centred on the coarse region: the region
    /// lies outside the range the fine search covers, or the fine candidate
    /// flatly disagrees with it, and the round's budget has room.
    pub open spec fn relocates(
        self,
        lock: Option<FineLock>,
        region: Option<CoarseRegion>,
    ) -> bool {
        &&& self.state is Searching
        &&& self.relocations < MAX_RELOCATIONS
        &&& region matches Some(found) && {
            let inside = found.delay >= self.fine.search_origin + self.edge_guard && found.delay
                + self.edge_guard <= self.fine.search_origin + self.fine.max_delay;
            let disagrees = lock matches Some(l) && !self.agree(l.delay, found.delay);
            !inside || disagrees
        }
    }

    /// Where the relocated window starts: mostly BEFORE the region, because the
    /// fine peak is expected earlier than the coarse envelope centroid.
    pub open spec fn relocation_origin(self, region: CoarseRegion) -> usize {
        less(
            region.delay as int,
            (self.fine_span * RELOCATE_LEAD_NUM) as int / RELOCATE_LEAD_DEN as int,
        ) as usize
    }

    /// Whether `self` is `before` with its fine search re-centred.
    pub open spec fn relocated_from(self, before: DelayAcquirer, region: CoarseRegion) -> bool {
        &&& self.fine.restarted_from(before.fine, before.relocation_origin(region))
        &&& self == (DelayAcquirer {
            fine: self.fine,
            state: AcquisitionState::Relocated,
            relocations: (before.relocations + 1) as u32,
            frames_with_region: 0,
            ..before
        })
    }

    /// The ground a fine candidate is promoted on, if any.
    pub open spec fn ground(
        self,
        lock: FineLock,
        region: Option<CoarseRegion>,
    ) -> Option<DelayLockSource> {
        match either_region(region, self.pending_region) {
            Some(found) => if self.agree(lock.delay, found.delay) {
                Some(DelayLockSource::GlobalAgreement)
            } else {
                None
            },
            None => if self.interior(lock.peak_at) && (Measure {
                bits: LOCAL_ONLY_CONFIDENCE_BITS,
            }).at_most(lock.ratio) {
                Some(DelayLockSource::LocalEvidence)
            } else {
                None
            },
        }
    }

    /// The alignment a re-found coarse region is adopted at: one coarse bin of
    /// quantization, the standard safety margin, and the centroid-to-onset
    /// backoff, all spent early.
    pub open spec fn coarse_alignment(self, region: CoarseRegion) -> usize {
        less(
            less(
                less(region.delay as int, self.coarse.decimation as int),
                LOCK_MARGIN_SAMPLES as int,
            ),
            self.adopt_backoff as int,
        ) as usize
    }

    /// Whether a re-found region confirms the one awaiting adoption.
    pub open spec fn reconfirms(self, region: CoarseRegion) -> bool {
        self.pending_region matches Some(prev) && crate::track::apart(region.delay, prev.delay)
            <= self.reverify_agree
    }

    /// Whether the last resort opens on this frame: nothing pending, the reject
    /// budget unspent, and the fine search has had its fair chance.
    pub open spec fn last_resort_opens(self) -> bool {
        &&& self.pending_region is None
        &&& self.regions_rejected < MAX_REVERIFY_REJECTS
        &&& self.frames_with_region >= COARSE_ONLY_PATIENCE_FRAMES
    }

    /// Whether `self` is what the last resort leaves of `before`, and `adopted`
    /// the alignment it promoted, if it promoted one.
    pub open spec fn last_resort_from(
        self,
        before: DelayAcquirer,
        region: Option<CoarseRegion>,
        adopted: Option<usize>,
    ) -> bool {
        match region {
            None => self == before && adopted is None,
            Some(found) => if before.pending_region is Some {
                if before.reconfirms(found) {
                    &&& adopted == Some(before.coarse_alignment(found))
                    &&& self.promoted_from(
                        before,
                        before.coarse_alignment(found),
                        DelayLockSource::CoarseRegion,
                    )
                } else {
                    &&& adopted is None
                    &&& if before.regions_rejected + 1 < MAX_REVERIFY_REJECTS {
                        &&& self.coarse.rearmed_from(before.coarse)
                        &&& self == (DelayAcquirer {
                            coarse: self.coarse,
                            regions_rejected: (before.regions_rejected + 1) as u32,
                            pending_region: Some(found),
                            ..before
                        })
                    } else {
                        self == (DelayAcquirer {
                            regions_rejected: (before.regions_rejected + 1) as u32,
                            pending_region: None,
                            ..before
                        })
                    }
                }
            } else if before.last_resort_opens() {
                &&& adopted is None
                &&& self.coarse.rearmed_from(before.coarse)
                &&& self == (DelayAcquirer {
                    coarse: self.coarse,
                    pending_region: Some(found),
                    frames_with_region: 0,
                    ..before
                })
            } else {
                self == before && adopted is None
            },
        }
    }

    /// The tracking search after a held cycle was scored for settledness.
    pub open spec fn settled(
        self,
        alignment: usize,
        outcome: CycleOutcome,
        quiescent: bool,
    ) -> DelayAcquirer {
        match interior_estimate(outcome) {
            None => self.unsettled(),
            Some(delay) => {
                let stable = quiescent && crate::track::apart(delay, alignment)
                    <= self.track_stable && (self.last_cycle_delay matches Some(prev)
                    && crate::track::apart(delay, prev) <= self.track_stable);
                if !stable {
                    DelayAcquirer {
                        stable_cycles: 0,
                        idle_depth: 0,
                        idle_samples: 0,
                        last_cycle_delay: Some(delay),
                        ..self
                    }
                } else {
                    let run: u32 = crate::track::bumped(self.stable_cycles);
                    if run < TRACK_STABLE_CYCLES {
                        DelayAcquirer {
                            stable_cycles: run,
                            last_cycle_delay: Some(delay),
                            ..self
                        }
                    } else {
                        let depth: u32 = if self.idle_depth == 0 {
                            1
                        } else if 2 * self.idle_depth > TRACK_IDLE_MAX_CYCLES {
                            TRACK_IDLE_MAX_CYCLES
                        } else {
                            (2 * self.idle_depth) as u32
                        };
                        DelayAcquirer {
                            stable_cycles: run,
                            last_cycle_delay: Some(delay),
                            idle_depth: depth,
                            idle_samples: (depth * TRACK_CYCLE_FRAMES * self.fine.frame_len) as usize,
                            ..self
                        }
                    }
                }
            },
        }
    }

    /// The acquirer with this frame banked into the current tracking cycle.
    pub open spec fn banked(self, obs: FineObservation) -> DelayAcquirer {
        if obs.scored {
            DelayAcquirer {
                cycle_scored: (self.cycle_scored + 1) as u32,
                cycle_candidate: if obs.candidate is Some {
                    obs.candidate
                } else {
                    self.cycle_candidate
                },
                ..self
            }
        } else {
            self
        }
    }

    /// What the cycle under construction concludes with.
    pub open spec fn cycle_outcome(self) -> CycleOutcome {
        match self.cycle_candidate {
            Some(lock) => CycleOutcome::Candidate {
                delay: lock.delay,
                interior: self.interior(lock.peak_at),
            },
            None => CycleOutcome::Unconfident,
        }
    }

    /// The acquirer with the tracker's cycle concluded and its evidence banked.
    pub open spec fn concluded(self) -> DelayAcquirer {
        let tracker = self.tracker->0.after(self.locked->0, self.cycle_outcome());
        DelayAcquirer {
            cycle_scored: 0,
            cycle_candidate: None,
            tracker: Some(tracker),
            contradiction_run_max: if tracker.jump_cycles > self.contradiction_run_max {
                tracker.jump_cycles
            } else {
                self.contradiction_run_max
            },
            ..self
        }
    }

    /// Whether the tracked delay has drifted far enough off-centre for the
    /// local window to be re-centred on it.
    pub open spec fn off_centre(self, delay: usize) -> bool {
        let centre: int = self.fine.search_origin + self.fine_span as int / 2;
        let off: int = if delay >= centre {
            delay - centre
        } else {
            centre - delay
        };
        off > self.fine_span as int / TRACK_RECENTRE_DEN as int
    }

    /// The origin the local window has after a move to `delay`.
    pub open spec fn recentred_origin(self, delay: usize) -> usize {
        if self.off_centre(delay) {
            self.origin_for(delay)
        } else {
            self.fine.search_origin
        }
    }

    /// Whether `self` is what one tracking step leaves of `before`, and `action`
    /// what it asks of the engine.
    pub open spec fn tracked_from(
        self,
        before: DelayAcquirer,
        obs: FineObservation,
        action: Option<AcquireAction>,
    ) -> bool {
        let banked = before.banked(obs);
        if banked.cycle_scored < TRACK_CYCLE_FRAMES {
            self == banked && action is None
        } else {
            let alignment = banked.locked->0;
            let outcome = banked.cycle_outcome();
            let done = banked.concluded();
            match banked.tracker->0.verdict(alignment, outcome) {
                TrackVerdict::Hold => {
                    &&& action is None
                    &&& self.fine.restarted_from(before.fine, before.fine.search_origin)
                    &&& self == (DelayAcquirer {
                        fine: self.fine,
                        ..done.settled(alignment, outcome, done.tracker->0.at_rest())
                    })
                },
                TrackVerdict::Move(delay) => {
                    &&& action == Some(AcquireAction::Track(delay))
                    &&& self.fine.restarted_from(before.fine, before.recentred_origin(delay))
                    &&& self == (DelayAcquirer {
                        fine: self.fine,
                        locked: Some(delay),
                        tracking_moves: crate::track::bumped(before.tracking_moves),
                        ..done.unsettled()
                    })
                },
                TrackVerdict::Reacquire(trigger) => {
                    &&& action is None
                    &&& self.reacquiring_from(done, trigger)
                },
            }
        }
    }

    /// The acquirer with this frame counted against an available region.
    pub open spec fn counted(self) -> DelayAcquirer {
        if self.coarse.best is Some {
            DelayAcquirer {
                frames_with_region: crate::track::bumped(self.frames_with_region),
                ..self
            }
        } else {
            self
        }
    }

    /// Whether `self` is what the relocation and the promotion ladder leave of
    /// `before`, and `outcome` what they report. `region` is the region that
    /// stood when the frame was scored.
    pub open spec fn laddered_from(
        self,
        before: DelayAcquirer,
        lock: Option<FineLock>,
        region: Option<CoarseRegion>,
        outcome: ObserveOutcome,
    ) -> bool {
        if before.relocates(lock, region) {
            &&& self.relocated_from(before, region->0)
            &&& outcome.action is None
            &&& outcome.rescan_pending == (lock matches Some(l) && before.agree(
                l.delay,
                region->0.delay,
            ))
        } else if lock is Some && before.ground(lock->0, region) is Some {
            &&& self.promoted_from(before, lock->0.delay, before.ground(lock->0, region)->0)
            &&& outcome.action == Some(AcquireAction::Promote(lock->0.delay))
            &&& !outcome.rescan_pending
        } else {
            &&& !outcome.rescan_pending
            &&& match outcome.action {
                Some(AcquireAction::Promote(delay)) => self.last_resort_from(
                    before,
                    region,
                    Some(delay),
                ),
                Some(AcquireAction::Track(_)) => false,
                None => self.last_resort_from(before, region, None),
            }
        }
    }

    /// Whether `self` is what acting on one fine report leaves of `before`, and
    /// `outcome` what it asks of the engine: a standing lock tracks; without
    /// one, the frame counts against an available region, the give-up retry
    /// takes its step, and the ladder decides.
    pub open spec fn acted_from(
        self,
        before: DelayAcquirer,
        obs: FineObservation,
        outcome: ObserveOutcome,
    ) -> bool {
        if before.state is Locked {
            !outcome.rescan_pending && self.tracked_from(before, obs, outcome.action)
        } else {
            exists|middle: DelayAcquirer|
                #[trigger] middle.retried_from(before.counted(), obs.scored) && self.laddered_from(
                    middle,
                    obs.candidate,
                    before.coarse.best,
                    outcome,
                )
        }
    }

    /// Whether `self` is what acting on a rescan's report leaves of `before`,
    /// and `action` what it asks of the engine.
    pub open spec fn rescanned_from(
        self,
        before: DelayAcquirer,
        obs: FineObservation,
        action: Option<AcquireAction>,
    ) -> bool {
        let promotes = match (
            either_region(before.coarse.best, before.pending_region),
            obs.candidate,
        ) {
            (Some(region), Some(lock)) => before.interior(lock.peak_at) && before.agree(
                lock.delay,
                region.delay,
            ),
            _ => false,
        };
        if promotes {
            &&& action == Some(AcquireAction::Promote(obs.candidate->0.delay))
            &&& self.promoted_from(
                before,
                obs.candidate->0.delay,
                DelayLockSource::GlobalAgreement,
            )
        } else {
            self == before && action is None
        }
    }

    /// The just-constructed state over the same geometry.
    pub open spec fn pristine(self) -> bool {
        &&& self.coarse.pristine()
        &&& self.fine.pristine()
        &&& self.next_near_abs == 0
        &&& !self.anchored
        &&& self.state is Searching
        &&& self.relocations == 0
        &&& self.frames_with_region == 0
        &&& self.pending_region is None
        &&& self.regions_rejected == 0
        &&& self.scored_since_exhausted == 0
        &&& self.rearm_backoff == 1
        &&& self.coarse_rearms == 0
        &&& self.tracker is None
        &&& self.cycle_scored == 0
        &&& self.cycle_candidate is None
        &&& self.stable_cycles == 0
        &&& self.last_cycle_delay is None
        &&& self.idle_depth == 0
        &&& self.idle_samples == 0
        &&& self.tracking_moves == 0
        &&& !self.reacquiring
        &&& self.reacquisitions == 0
        &&& self.last_trigger is None
        &&& self.contradiction_run_max == 0
        &&& self.locked is None
        &&& self.source is None
    }

    /// Whether two acquisitions are in the same state: both stages alike and every
    /// size, tolerance, counter and decision equal.
    pub open spec fn alike(self, other: DelayAcquirer) -> bool {
        &&& self.coarse.alike(other.coarse)
        &&& self.fine.alike(other.fine)
        &&& other == (DelayAcquirer { coarse: other.coarse, fine: other.fine, ..self })
    }

    /// Whether the configured sizes are the same in both states.
    pub open spec fn same_geometry(self, before: DelayAcquirer) -> bool {
        &&& self.coarse.same_geometry(before.coarse)
        &&& self.fine.same_geometry(before.fine)
        &&& self.sample_rate == before.sample_rate
        &&& self.fine_span == before.fine_span
        &&& self.edge_guard == before.edge_guard
        &&& self.agree_late == before.agree_late
        &&& self.agree_early == before.agree_early
        &&& self.adopt_backoff == before.adopt_backoff
        &&& self.reverify_agree == before.reverify_agree
        &&& self.track_stable == before.track_stable
    }

    /// Whether every size and tolerance is the one a rate, a fine window and a
    /// coarse ceiling call for.
    pub open spec fn sized(self, sample_rate: u32, max_delay_ms: u16, ceiling_ms: u16) -> bool {
        let rate = sample_rate as int;
        &&& self.sample_rate == sample_rate
        &&& self.fine.max_delay == crate::timing::samples_in_at_least_one(max_delay_ms as int, rate)
        &&& self.fine.fft_len == crate::delay::covering_transform(
            crate::delay::MIN_FFT_LEN as int,
            2 * self.fine.max_delay,
        )
        &&& self.fine.frame_len == self.fine.fft_len - self.fine.max_delay
        &&& self.fine_span == self.fine.max_delay
        &&& self.coarse.decimation == crate::coarse::decimation_at(rate)
        &&& self.coarse.span == crate::coarse::bins_in(ceiling_ms as int, rate)
        &&& self.coarse.frame == crate::coarse::bins_in(crate::coarse::COARSE_FRAME_MS as int, rate)
        &&& self.coarse.ceiling_guard == crate::coarse::bins_in(
            crate::coarse::COARSE_CEILING_GUARD_MS as int,
            rate,
        )
        &&& self.coarse.peak_guard == crate::coarse::bins_in(
            crate::coarse::COARSE_PEAK_GUARD_MS as int,
            rate,
        )
        &&& self.coarse.far_env.capacity == self.coarse.window_bins()
            + crate::coarse::COARSE_RING_SLACK_BINS
        &&& self.edge_guard == crate::timing::samples_in_at_least_one(
            FINE_EDGE_GUARD_MS as int,
            rate,
        )
        &&& self.agree_late == crate::timing::samples_in_at_least_one(AGREE_LATE_MS as int, rate)
        &&& self.agree_early == crate::timing::samples_in_at_least_one(AGREE_EARLY_MS as int, rate)
        &&& self.adopt_backoff == crate::timing::samples_in(COARSE_ADOPT_BACKOFF_MS as int, rate)
        &&& self.reverify_agree == crate::timing::samples_in_at_least_one(
            REVERIFY_AGREE_MS as int,
            rate,
        )
        &&& self.track_stable == crate::timing::samples_in_at_least_one(
            TRACK_STABLE_MS as int,
            rate,
        )
    }

    /// The status the acquisition reports.
    pub open spec fn status(self) -> DelayStatus {
        if self.state is Locked && self.source is Some {
            DelayStatus::Locked(self.source->0)
        } else if self.reacquiring {
            DelayStatus::Reacquiring
        } else if self.state is Relocated {
            DelayStatus::Relocated
        } else {
            DelayStatus::Searching
        }
    }

    /// The acquisition's observable state, as a specification.
    pub open spec fn snapshot(self) -> DelayEstimate {
        DelayEstimate {
            status: self.status(),
            delay_samples: self.locked,
            fine_search_start_samples: self.fine.search_origin,
            fine_search_end_samples: (self.fine.search_origin + self.fine.max_delay) as usize,
            coarse_ceiling_samples: (self.coarse.span * self.coarse.decimation) as usize,
            coarse_region_samples: match self.coarse.best {
                Some(region) => Some(region.delay),
                None => None,
            },
            coarse_bin_samples: self.coarse.decimation,
            coarse_correlation: match self.coarse.best {
                Some(region) => region.corr,
                None => self.coarse.last_corr,
            },
            beyond_ceiling: self.coarse.beyond_ceiling,
            coarse_frames: self.coarse.frames,
            fine_frames: self.fine.frames,
            fine_frames_skipped: self.fine.skipped,
            relocated: self.relocations > 0,
            fine_scans: self.fine.scans,
            fine_last_ratio: self.fine.last_scan_ratio,
            fine_last_delay_samples: match self.fine.last_scan_peak_at {
                Some(peak_at) => Some(
                    crate::delay::mapped_delay(
                        self.fine.last_scan_origin as int,
                        self.fine_span as int,
                        peak_at as int,
                    ) as usize,
                ),
                None => None,
            },
            fine_last_origin_samples: self.fine.last_scan_origin,
            fine_last_peak_interior: match self.fine.last_scan_peak_at {
                Some(peak_at) => self.interior(peak_at),
                None => false,
            },
            tracking_moves: self.tracking_moves,
            reacquisitions: self.reacquisitions,
            last_reacquire_trigger: self.last_trigger,
            coarse_rearms: self.coarse_rearms,
            coarse_regions_rejected: self.regions_rejected,
            coarse_last_resort_exhausted: self.regions_rejected >= MAX_REVERIFY_REJECTS,
            tracking_contradiction_run: match self.tracker {
                Some(tracker) => tracker.jump_cycles,
                None => 0,
            },
            tracking_contradiction_run_max: self.contradiction_run_max,
        }
    }

    /// Constructs the acquisition for a fine window of `max_delay_ms` and a
    /// coarse ceiling of `ceiling_ms`, both at `sample_rate`.
    pub fn new(sample_rate: u32, max_delay_ms: u16, ceiling_ms: u16) -> (r: DelayAcquirer)
        requires
            sample_rate <= COARSE_RATE_LIMIT,
            crate::timing::samples_in(max_delay_ms as int, sample_rate as int) < MAX_FFT_LEN,
            crate::timing::samples_in(ceiling_ms as int, sample_rate as int) <= ORIGIN_LIMIT,
        ensures
            r.wf(),
            r.pristine(),
            r.near_on_grid(),
            r.coarse.far_on_grid(),
            r.sized(sample_rate, max_delay_ms, ceiling_ms),
    {
        let fine = DelayEstimator::new(sample_rate, max_delay_ms);
        let fine_span: usize = fine.max_delay();
        DelayAcquirer {
            coarse: CoarseScan::new(sample_rate, ceiling_ms),
            fine,
            sample_rate,
            fine_span,
            edge_guard: short_ms_to_samples_at_least_one(FINE_EDGE_GUARD_MS, sample_rate),
            agree_late: short_ms_to_samples_at_least_one(AGREE_LATE_MS, sample_rate),
            agree_early: short_ms_to_samples_at_least_one(AGREE_EARLY_MS, sample_rate),
            adopt_backoff: short_ms_to_samples(COARSE_ADOPT_BACKOFF_MS, sample_rate),
            reverify_agree: short_ms_to_samples_at_least_one(REVERIFY_AGREE_MS, sample_rate),
            next_near_abs: 0,
            anchored: false,
            state: AcquisitionState::Searching,
            relocations: 0,
            frames_with_region: 0,
            pending_region: None,
            regions_rejected: 0,
            scored_since_exhausted: 0,
            rearm_backoff: 1,
            coarse_rearms: 0,
            tracker: None,
            cycle_scored: 0,
            cycle_candidate: None,
            track_stable: short_ms_to_samples_at_least_one(TRACK_STABLE_MS, sample_rate),
            stable_cycles: 0,
            last_cycle_delay: None,
            idle_depth: 0,
            idle_samples: 0,
            tracking_moves: 0,
            reacquiring: false,
            reacquisitions: 0,
            last_trigger: None,
            contradiction_run_max: 0,
            locked: None,
            source: None,
        }
    }

    /// The number of far-end samples one fine frame's window holds. Constant for
    /// the life of the acquirer: relocation moves the window, never resizes it.
    pub fn fine_window_len(&self) -> (r: usize)
        requires
            self.wf(),
        ensures
            r == self.fine.fft_len,
    {
        self.fine.window_len()
    }

    /// The far-absolute index the current fine frame's far window starts at.
    ///
    /// Signed, because a window early in a stream legitimately reaches back past
    /// the first reference sample; the engine renders those indices as silence
    /// and reports them as missing head support.
    pub fn fine_window_start_abs(&self) -> (r: i64)
        requires
            self.wf(),
            self.next_near_abs <= NEAR_LIMIT,
        ensures
            r == self.next_near_abs - self.fine.frame_len - (self.fine.search_origin
                + self.fine.max_delay),
    {
        self.next_near_abs as i64 - self.fine.frame_len() as i64
            - self.fine.window_back_off() as i64
    }

    /// Declares that the next near sample carries far-absolute index `base`.
    ///
    /// Called once per block, before any sample is pushed. A `base` that does
    /// not continue the previous block means the engine re-anchored, which is
    /// how a seam the host never declared is INFERRED.
    pub fn begin_block(&mut self, base: u64)
        requires
            old(self).wf(),
        ensures
            final(self).wf(),
            ({
                let jumped = old(self).anchored && base != old(self).next_near_abs;
                &&& jumped ==> exists|middle: DelayAcquirer| #[trigger]
                    middle.seamed_from(*old(self)) && *final(self) == (DelayAcquirer {
                        next_near_abs: base,
                        anchored: true,
                        ..middle
                    })
                &&& !jumped ==> *final(self) == (DelayAcquirer {
                    next_near_abs: base,
                    anchored: true,
                    ..*old(self)
                })
            }),
            old(self).near_on_grid() && (old(self).anchored || old(self).coarse.near_block@.len()
                == 0) ==> final(self).near_on_grid(),
            final(self).same_geometry(*old(self)),
            final(self).locked == old(self).locked,
            final(self).coarse.same_far(old(self).coarse),
    {
        let ghost mut middle = *self;
        if self.anchored && base != self.next_near_abs {
            self.seam();
            proof {
                middle = *self;
            }
        }
        self.next_near_abs = base;
        self.anchored = true;
        assert(*self == (DelayAcquirer { next_near_abs: base, anchored: true, ..middle }));
    }

    /// Declares a discontinuity the engine was TOLD about rather than inferred:
    /// the host reported that its capture stream lost samples, and the engine
    /// re-anchored for it.
    ///
    /// Does exactly what an inferred seam does, deliberately: the two describe
    /// the same physical event and differ only in who noticed it. Called
    /// directly rather than left to [`begin_block`](DelayAcquirer::begin_block)
    /// because a discontinuity declared while the near stream sits exactly at
    /// the reference frontier moves the block base by nothing at all, leaving no
    /// jump to infer the seam from while the evidence straddles it just the
    /// same.
    pub fn declare_discontinuity(&mut self)
        requires
            old(self).wf(),
        ensures
            final(self).wf(),
            final(self).seamed_from(*old(self)),
            final(self).near_on_grid(),
            final(self).same_geometry(*old(self)),
    {
        self.seam();
    }

    /// Discards the evidence that straddles a seam in the near stream.
    ///
    /// Every partial frame in both stages spans the seam and would be correlated
    /// across a break in the very stream it measures, so both are dropped. A
    /// standing lock is put under suspicion rather than dropped: a seam usually
    /// preserves the physical delay, and the tracker either re-confirms the lock
    /// on fresh post-seam evidence or escalates to
    /// [`ReacquireTrigger::Discontinuity`].
    fn seam(&mut self)
        requires
            old(self).wf(),
        ensures
            final(self).wf(),
            final(self).seamed_from(*old(self)),
            final(self).near_on_grid(),
            final(self).same_geometry(*old(self)),
    {
        self.fine.restart();
        self.coarse.discard_near();
        self.cycle_scored = 0;
        self.cycle_candidate = None;
        // A re-anchor is exactly the evidence that the lock may no longer
        // describe the stream, so the tracking search returns to full cadence
        // for it rather than finishing an idle granted by pre-seam evidence.
        self.unsettle();
        if let Some(standing) = self.tracker {
            let mut tracker: Tracker = standing;
            tracker.on_discontinuity();
            self.tracker = Some(tracker);
        }
    }

    /// Appends far-end reference samples, exactly as the reference ring received
    /// them and immediately after it received them, so the two absolute grids
    /// cannot drift. Hands out the native samples of the envelope blocks they
    /// completed; see [`CoarseScan::push_far`].
    pub fn push_far(&mut self, reference: &[Sample]) -> (r: Vec<Sample>)
        requires
            old(self).wf(),
            old(self).coarse.unbanked == 0,
            old(self).coarse.far_pushed + reference@.len() <= u64::MAX,
        ensures
            final(self).wf(),
            ({
                let stream = old(self).coarse.far_block@ + reference@;
                let d = old(self).coarse.decimation as int;
                &&& r@ == crate::coarse::whole_blocks(stream, d)
                &&& final(self).coarse.far_block@ == crate::coarse::leftover(stream, d)
                &&& final(self).coarse.unbanked == stream.len() as int / d
            }),
            final(self).coarse.far_pushed == old(self).coarse.far_pushed + reference@.len(),
            final(self).coarse == (CoarseScan {
                far_block: final(self).coarse.far_block,
                unbanked: final(self).coarse.unbanked,
                far_pushed: final(self).coarse.far_pushed,
                ..old(self).coarse
            }),
            *final(self) == (DelayAcquirer { coarse: final(self).coarse, ..*old(self) }),
            old(self).coarse.far_on_grid() ==> final(self).coarse.far_on_grid(),
    {
        self.coarse.push_far(reference)
    }

    /// Banks the mean levels of the blocks the last
    /// [`push_far`](DelayAcquirer::push_far) handed out.
    pub fn bank_far(&mut self, levels: &[Sample])
        requires
            old(self).wf(),
            levels@.len() == old(self).coarse.unbanked,
            old(self).coarse.far_env.next_abs + levels@.len() <= u64::MAX,
        ensures
            final(self).wf(),
            final(self).coarse.unbanked == 0,
            final(self).coarse.far_env.next_abs == old(self).coarse.far_env.next_abs
                + levels@.len(),
            forall|abs: int| #[trigger]
                final(self).coarse.far_env.at(abs) == old(self).coarse.far_env.at_after_push(
                    levels@,
                    abs,
                ),
            final(self).coarse == (CoarseScan {
                far_env: final(self).coarse.far_env,
                unbanked: 0,
                ..old(self).coarse
            }),
            *final(self) == (DelayAcquirer { coarse: final(self).coarse, ..*old(self) }),
            old(self).coarse.far_on_grid() ==> final(self).coarse.far_on_grid(),
    {
        self.coarse.bank_far(levels);
    }

    /// Appends one near-end sample, reporting which frames it completed. A
    /// completed coarse frame is answered with
    /// [`score_coarse`](DelayAcquirer::score_coarse) and a completed fine frame
    /// with [`observe`](DelayAcquirer::observe), in that order.
    ///
    /// While a lock stands, only the fine stage runs (it is the tracker's
    /// instrument); the coarse near chain is stopped, which is what keeps the
    /// steady-state cost of a locked stream to one fine frame per cycle. While a
    /// settled lock idles, the sample is withheld from the fine estimator so no
    /// frame completes and no transform runs. `next_near_abs` advances either
    /// way, because that counter is the acquisition's far-absolute grid cursor:
    /// stalling it would make every idle look like a stream discontinuity.
    pub fn push_near(&mut self, sample: Sample) -> (r: NearStep)
        requires
            old(self).wf(),
            old(self).answered(),
            old(self).next_near_abs < NEAR_LIMIT,
        ensures
            final(self).wf(),
            final(self).next_near_abs == old(self).next_near_abs + 1,
            *final(self) == (DelayAcquirer {
                coarse: final(self).coarse,
                fine: final(self).fine,
                idle_samples: final(self).idle_samples,
                next_near_abs: final(self).next_near_abs,
                ..*old(self)
            }),
            r.coarse == final(self).coarse.complete(),
            r.fine == final(self).fine.complete(),
            // The coarse near chain: stopped by a lock or a finished scan, and
            // started on a block boundary.
            ({
                let starts = old(self).coarse.near_block@.len() == 0;
                let dropped = old(self).state is Locked || old(self).coarse.is_finished() || (starts
                    && old(self).next_near_abs as int % old(self).coarse.decimation as int != 0);
                &&& dropped ==> final(self).coarse == old(self).coarse
                &&& !dropped ==> {
                    &&& final(self).coarse.near_block@ == old(self).coarse.near_block@.push(sample)
                    &&& final(self).coarse.near_frame_start_abs == (if starts {
                        old(self).next_near_abs as int / old(self).coarse.decimation as int
                    } else {
                        old(self).coarse.near_frame_start_abs as int
                    })
                    &&& final(self).coarse == (CoarseScan {
                        near_block: final(self).coarse.near_block,
                        near_frame_start_abs: final(self).coarse.near_frame_start_abs,
                        ..old(self).coarse
                    })
                }
            }),
            // The fine chain: the sample is withheld while the lock idles.
            old(self).idle_samples > 0 ==> final(self).fine == old(self).fine
                && final(self).idle_samples == old(self).idle_samples - 1,
            old(self).idle_samples == 0 ==> {
                &&& final(self).idle_samples == 0
                &&& final(self).fine.near_frame@ == old(self).fine.near_frame@.push(sample)
                &&& final(self).fine == (DelayEstimator {
                    near_frame: final(self).fine.near_frame,
                    ..old(self).fine
                })
            },
            old(self).near_on_grid() ==> final(self).near_on_grid(),
    {
        let coarse: bool = if self.state != AcquisitionState::Locked {
            self.coarse.push_near(sample, self.next_near_abs)
        } else {
            false
        };
        let fine: bool = if self.idle_samples > 0 {
            self.idle_samples = self.idle_samples - 1;
            false
        } else {
            self.fine.push_near(sample)
        };
        self.next_near_abs = self.next_near_abs + 1;
        NearStep { coarse, fine }
    }

    /// Answers a completed coarse frame with its score.
    pub fn score_coarse(&mut self, score: CoarseScore)
        requires
            old(self).wf(),
            old(self).coarse.complete(),
            old(self).coarse.scores(score.far_level, score.near_energy) ==> old(self).coarse.fits(
                score,
            ),
        ensures
            final(self).wf(),
            final(self).coarse.observed_from(old(self).coarse, score),
            *final(self) == (DelayAcquirer { coarse: final(self).coarse, ..*old(self) }),
            final(self).near_on_grid(),
    {
        self.coarse.observe(score);
    }

    /// Judges the completed fine frame and returns the alignment action, if this
    /// frame produced one.
    ///
    /// [`AcquireAction::Promote`] is returned when a trusted lock is promoted,
    /// which is the only thing that resets the canceller.
    /// [`AcquireAction::Track`] is returned when the tracker moves a standing
    /// alignment, which deliberately does not.
    pub fn observe(
        &mut self,
        support: WindowSupport,
        near_energy: Measure,
        far_energy: Measure,
        scan: &FineScan,
    ) -> (r: ObserveOutcome)
        requires
            old(self).wf(),
            old(self).fine.complete(),
            old(self).fine.use_of(support, near_energy, far_energy) is Scanned
                ==> old(self).fine.has_room() && scan.correlation@.len()
                > old(self).fine.max_delay,
        ensures
            final(self).wf(),
            exists|fine: DelayEstimator, obs: FineObservation|
                #![trigger old(self).fine.reports(support, near_energy, far_energy, *scan, obs),
                    fine.observed_from(old(self).fine, support, near_energy, far_energy, *scan)]
                {
                    &&& fine.observed_from(old(self).fine, support, near_energy, far_energy, *scan)
                    &&& old(self).fine.reports(support, near_energy, far_energy, *scan, obs)
                    &&& final(self).acted_from(old(self).with_fine(fine), obs, r)
                },
            final(self).kept_by_acting(*old(self)),
            r.action matches Some(AcquireAction::Promote(delay)) ==> final(self).state is Locked
                && final(self).locked == Some(delay),
            r.action matches Some(AcquireAction::Track(delay)) ==> final(self).state is Locked
                && final(self).locked == Some(delay) && old(self).locked is Some,
            r.action is None ==> final(self).locked == old(self).locked,
            old(self).near_on_grid() ==> final(self).near_on_grid(),
    {
        let obs: FineObservation = self.fine.observe(support, near_energy, far_energy, scan);
        self.act_on(obs)
    }

    /// What acting on a fine report never touches: the grid cursor, the far
    /// history and the configured sizes. Whatever it does, no frame is left
    /// awaiting a fine answer.
    pub open spec fn kept_by_acting(self, before: DelayAcquirer) -> bool {
        &&& self.next_near_abs == before.next_near_abs
        &&& self.anchored == before.anchored
        &&& self.same_geometry(before)
        &&& self.coarse.same_far(before.coarse)
        &&& self.fine.near_frame@ == Seq::<Sample>::empty()
        &&& (self.coarse.near_block@ == before.coarse.near_block@ || self.coarse.near_block@
            == Seq::<Sample>::empty())
    }

    /// Carries out what one fine report calls for. See
    /// [`observe`](DelayAcquirer::observe).
    pub fn act_on(&mut self, obs: FineObservation) -> (r: ObserveOutcome)
        requires
            old(self).wf(),
            old(self).fine.near_frame@ == Seq::<Sample>::empty(),
            old(self).fits(obs),
        ensures
            final(self).wf(),
            final(self).acted_from(*old(self), obs, r),
            final(self).kept_by_acting(*old(self)),
            r.action matches Some(AcquireAction::Promote(delay)) ==> final(self).state is Locked
                && final(self).locked == Some(delay),
            r.action matches Some(AcquireAction::Track(delay)) ==> final(self).state is Locked
                && final(self).locked == Some(delay) && old(self).locked is Some,
            r.action is None ==> final(self).locked == old(self).locked,
            old(self).near_on_grid() ==> final(self).near_on_grid(),
    {
        if self.state == AcquisitionState::Locked {
            let action: Option<AcquireAction> = self.observe_tracking(obs);
            return ObserveOutcome::action(action);
        }
        let lock: Option<FineLock> = obs.candidate;
        let region: Option<CoarseRegion> = self.coarse.region();
        if region.is_some() {
            self.frames_with_region = self.frames_with_region.saturating_add(1);
        }
        self.maybe_rearm_after_give_up(obs.scored);
        let ghost middle = *self;
        assert(middle.retried_from(old(self).counted(), obs.scored));

        match self.try_relocate(lock, region) {
            // The frame just relocated away from held a candidate that would
            // have promoted an edge-pinned value from the abandoned range. The
            // engine rescans it against the new range instead; nothing else runs
            // this frame.
            Relocation::RelocatedRescan => {
                return ObserveOutcome::rescan();
            },
            // A relocation the abandoned candidate would not have promoted
            // through: leave it to new evidence.
            Relocation::Relocated => {
                return ObserveOutcome::action(None);
            },
            // No relocation: fall through to the promotion ladder unchanged.
            Relocation::NotRelocated => {},
        }
        if let Some(delay) = self.try_promote(lock, region) {
            return ObserveOutcome::action(Some(AcquireAction::Promote(delay)));
        }
        match self.try_coarse_only(region) {
            Some(delay) => ObserveOutcome::action(Some(AcquireAction::Promote(delay))),
            None => ObserveOutcome::action(None),
        }
    }

    /// Re-correlates the frame just relocated away from against the NEW fine
    /// search range, and promotes it only if it is a valid INTERIOR candidate
    /// that agrees with the corroborating region.
    ///
    /// Called by the engine after [`observe`](DelayAcquirer::observe) reported
    /// [`ObserveOutcome::rescan_pending`]. This is what recovers the correct
    /// alignment on the exact frame the abandoned-range candidate would
    /// otherwise have promoted an edge-pinned value from. The interior test the
    /// corroborated arm lacks is applied here, so an edge-pinned rescan peak is
    /// refused exactly as the abandoned-range one now is.
    pub fn rescan(
        &mut self,
        support: WindowSupport,
        near_energy: Measure,
        far_energy: Measure,
        scan: &FineScan,
    ) -> (r: Option<AcquireAction>)
        requires
            old(self).wf(),
            !(old(self).state is Locked),
            old(self).fine.near_frame@ == Seq::<Sample>::empty(),
            old(self).fine.rescans(support, near_energy, far_energy) ==> old(self).fine.scans
                < u64::MAX && scan.correlation@.len() > old(self).fine.max_delay,
        ensures
            final(self).wf(),
            old(self).fine.rescans(support, near_energy, far_energy) ==> exists|
                fine: DelayEstimator,
                obs: FineObservation,
            |
                #![trigger fine.records(old(self).fine, *scan),
                    old(self).fine.candidate_of(*scan, obs.candidate)]
                {
                    &&& fine.records(old(self).fine, *scan)
                    &&& fine == (DelayEstimator {
                        last_scan_ratio: fine.last_scan_ratio,
                        last_scan_peak_at: fine.last_scan_peak_at,
                        last_scan_origin: fine.last_scan_origin,
                        scans: fine.scans,
                        ..old(self).fine
                    })
                    &&& old(self).fine.candidate_of(*scan, obs.candidate)
                    &&& final(self).rescanned_from(old(self).with_fine(fine), obs, r)
                },
            !old(self).fine.rescans(support, near_energy, far_energy) ==> r is None && *final(self)
                == *old(self),
            final(self).kept_by_acting(*old(self)),
            r matches Some(action) ==> action is Promote && final(self).state is Locked
                && final(self).locked == Some(action->Promote_0),
            r is None ==> final(self).locked == old(self).locked,
            old(self).near_on_grid() ==> final(self).near_on_grid(),
    {
        let obs: FineObservation = self.fine.rescan(support, near_energy, far_energy, scan);
        self.act_on_rescan(obs)
    }

    /// Carries out what a rescan's report calls for. See
    /// [`rescan`](DelayAcquirer::rescan).
    pub fn act_on_rescan(&mut self, obs: FineObservation) -> (r: Option<AcquireAction>)
        requires
            old(self).wf(),
            !(old(self).state is Locked),
            old(self).fine.near_frame@ == Seq::<Sample>::empty(),
            old(self).fits(obs),
        ensures
            final(self).wf(),
            final(self).rescanned_from(*old(self), obs, r),
            final(self).kept_by_acting(*old(self)),
            r matches Some(action) ==> action is Promote && final(self).state is Locked
                && final(self).locked == Some(action->Promote_0),
            r is None ==> final(self).locked == old(self).locked,
            old(self).near_on_grid() ==> final(self).near_on_grid(),
    {
        let found: Option<CoarseRegion> = match self.coarse.region() {
            Some(region) => Some(region),
            None => self.pending_region,
        };
        if let Some(region) = found {
            if let Some(lock) = obs.candidate {
                if self.peak_interior(lock.peak_at) && self.agrees(lock.delay, region.delay) {
                    let delay: usize = self.promote(lock.delay, DelayLockSource::GlobalAgreement);
                    return Some(AcquireAction::Promote(delay));
                }
            }
        }
        None
    }

    /// One tracking step: banks the frame into the current cycle and, when the
    /// cycle concludes, asks the tracker for its verdict and carries it out.
    pub fn observe_tracking(&mut self, obs: FineObservation) -> (r: Option<AcquireAction>)
        requires
            old(self).wf(),
            old(self).state is Locked,
            old(self).fine.near_frame@ == Seq::<Sample>::empty(),
            old(self).fits(obs),
        ensures
            final(self).wf(),
            final(self).tracked_from(*old(self), obs, r),
            final(self).kept_by_acting(*old(self)),
            final(self).near_on_grid(),
    {
        if obs.scored {
            self.cycle_scored = self.cycle_scored + 1;
            if obs.candidate.is_some() {
                self.cycle_candidate = obs.candidate;
            }
        }
        if self.cycle_scored < TRACK_CYCLE_FRAMES {
            return None;
        }
        let outcome: CycleOutcome = match self.cycle_candidate {
            Some(candidate) => CycleOutcome::Candidate {
                delay: candidate.delay,
                interior: self.peak_interior(candidate.peak_at),
            },
            None => CycleOutcome::Unconfident,
        };
        let ghost banked = *self;
        assert(banked == old(self).banked(obs));
        self.cycle_scored = 0;
        self.cycle_candidate = None;

        let alignment: usize = match self.locked {
            Some(delay) => delay,
            None => 0,
        };
        let mut tracker: Tracker = match self.tracker {
            Some(tracker) => tracker,
            None => {
                return None;
            },
        };
        let verdict: TrackVerdict = tracker.on_cycle(alignment, outcome);
        let quiescent: bool = tracker.quiescent();
        // Purely observational: the run this cycle left standing, banked so a
        // contradiction that never escalates is still visible afterwards. No
        // decision reads it.
        let contradiction_run: u32 = tracker.jump_cycles();
        if contradiction_run > self.contradiction_run_max {
            self.contradiction_run_max = contradiction_run;
        }
        self.tracker = Some(tracker);
        assert(*self == banked.concluded());
        match verdict {
            TrackVerdict::Hold => {
                self.fine.restart();
                self.settle(alignment, outcome, quiescent);
                None
            },
            TrackVerdict::Move(delay) => {
                self.unsettle();
                self.locked = Some(delay);
                self.tracking_moves = self.tracking_moves.saturating_add(1);
                self.recentre_tracking_window(delay);
                Some(AcquireAction::Track(delay))
            },
            TrackVerdict::Reacquire(trigger) => {
                self.enter_reacquire(trigger);
                None
            },
        }
    }

    /// Scores a held cycle for settledness and, once enough of them have agreed
    /// in a row, idles the tracking search for a bounded span.
    ///
    /// The two conditions are independent and both are required. The tracker
    /// being quiescent says no partial evidence is banked, so no cycle that goes
    /// unobserved could have completed an escalation. The estimate sitting
    /// within [`TRACK_STABLE_MS`] of the alignment says the delay is not
    /// walking, which the tracker's own dead bands do not establish.
    fn settle(&mut self, alignment: usize, outcome: CycleOutcome, quiescent: bool)
        requires
            old(self).fine.wf(),
            old(self).idle_depth <= TRACK_IDLE_MAX_CYCLES,
            old(self).idle_samples <= TRACK_IDLE_MAX_CYCLES * TRACK_CYCLE_FRAMES * MAX_FFT_LEN,
        ensures
            *final(self) == old(self).settled(alignment, outcome, quiescent),
            final(self).idle_depth <= TRACK_IDLE_MAX_CYCLES,
            final(self).idle_samples <= TRACK_IDLE_MAX_CYCLES * TRACK_CYCLE_FRAMES * MAX_FFT_LEN,
    {
        let delay: usize = match outcome {
            CycleOutcome::Candidate { delay, interior } => {
                if !interior {
                    // An edge-pinned cycle carries no delay comparable to the
                    // next one, so it breaks the chain rather than seeding it.
                    self.unsettle();
                    return;
                }
                delay
            },
            CycleOutcome::Unconfident => {
                self.unsettle();
                return;
            },
        };
        let still: bool = match self.last_cycle_delay {
            Some(prev) => distance(delay, prev) <= self.track_stable,
            None => false,
        };
        self.last_cycle_delay = Some(delay);
        let stable: bool = quiescent && distance(delay, alignment) <= self.track_stable && still;
        if !stable {
            self.stable_cycles = 0;
            self.idle_depth = 0;
            self.idle_samples = 0;
            return;
        }
        self.stable_cycles = self.stable_cycles.saturating_add(1);
        if self.stable_cycles < TRACK_STABLE_CYCLES {
            return;
        }
        let doubled: u32 = self.idle_depth * 2;
        self.idle_depth = if doubled < 1 {
            1
        } else if doubled > TRACK_IDLE_MAX_CYCLES {
            TRACK_IDLE_MAX_CYCLES
        } else {
            doubled
        };
        let cycles: usize = (self.idle_depth * TRACK_CYCLE_FRAMES) as usize;
        assert(0 <= cycles * self.fine.frame_len <= 8 * MAX_FFT_LEN) by (nonlinear_arith)
            requires
                cycles <= 8,
                self.fine.frame_len <= MAX_FFT_LEN,
        ;
        self.idle_samples = cycles * self.fine.frame_len();
    }

    /// Returns the tracking search to full cadence at once, and discards any
    /// idle already granted. Every departure from a settled lock runs through
    /// here: an unsettled cycle, a move, a discontinuity, a reacquisition.
    fn unsettle(&mut self)
        ensures
            *final(self) == old(self).unsettled(),
    {
        self.stable_cycles = 0;
        self.idle_depth = 0;
        self.idle_samples = 0;
        // Evidence from before a seam, a move or a fresh lock is not comparable
        // to evidence after it, so the not-walking chain starts over too.
        self.last_cycle_delay = None;
    }

    /// Whether a raw fine peak index stands clear of both ends of the range.
    pub fn peak_interior(&self, peak_at: usize) -> (r: bool)
        requires
            peak_at <= self.fine_span,
            self.fine_span < MAX_FFT_LEN,
            self.edge_guard <= 0x00ff_ffff,
        ensures
            r == self.interior(peak_at),
    {
        peak_at >= self.edge_guard && peak_at + self.edge_guard <= self.fine_span
    }

    /// The tracking window origin for a given delay: the delay centred, capped
    /// at the coarse ceiling so successive moves cannot walk the window past the
    /// depth the reference ring provably retains.
    pub fn tracking_origin(&self, delay: usize) -> (r: usize)
        requires
            self.coarse.wf(),
        ensures
            r == self.origin_for(delay),
            r <= ORIGIN_LIMIT,
    {
        let ceiling: usize = self.coarse.ceiling_samples();
        let capped: usize = if delay <= ceiling {
            delay
        } else {
            ceiling
        };
        capped.saturating_sub(self.fine_span / 2)
    }

    /// Re-centres the tracking window when the tracked delay has drifted far
    /// enough off-centre to threaten the margin for following further movement;
    /// otherwise just restarts the cycle accumulator.
    fn recentre_tracking_window(&mut self, delay: usize)
        requires
            old(self).coarse.wf(),
            old(self).fine.wf(),
            old(self).fine_span == old(self).fine.max_delay,
        ensures
            final(self).fine.wf(),
            final(self).fine.restarted_from(old(self).fine, old(self).recentred_origin(delay)),
            *final(self) == (DelayAcquirer { fine: final(self).fine, ..*old(self) }),
    {
        let (low, _) = self.fine.search_range();
        let centre: usize = low + self.fine_span / 2;
        if distance(delay, centre) > self.fine_span / TRACK_RECENTRE_DEN {
            let origin: usize = self.tracking_origin(delay);
            self.fine.relocate(origin);
        } else {
            self.fine.restart();
        }
    }

    /// Leaves the lock for a fresh global search, keeping the stale value on
    /// report so the engine can hold its offset until something better exists.
    pub fn enter_reacquire(&mut self, trigger: ReacquireTrigger)
        requires
            old(self).coarse.wf(),
            old(self).fine.wf(),
        ensures
            final(self).reacquiring_from(*old(self), trigger),
            final(self).coarse.wf(),
            final(self).fine.wf(),
            old(self).wf() && old(self).locked is Some ==> final(self).wf(),
    {
        self.state = AcquisitionState::Searching;
        self.reacquiring = true;
        self.reacquisitions = self.reacquisitions.saturating_add(1);
        self.last_trigger = Some(trigger);
        self.tracker = None;
        self.cycle_scored = 0;
        self.cycle_candidate = None;
        self.unsettle();
        self.coarse.rearm();
        self.fine.relocate(0);
        self.relocations = 0;
        self.frames_with_region = 0;
        self.pending_region = None;
        self.scored_since_exhausted = 0;
        // A reacquisition is a fresh acquisition, so the give-up retry starts
        // over at its plain interval rather than inheriting the back-off a
        // previous unsuccessful round accumulated.
        self.rearm_backoff = 1;
    }

    /// Re-arms the coarse scan when it has given up but confident far-end
    /// excitation keeps arriving, so an echo path that appears late in a stream
    /// is still acquired. Excitation is measured in SCORED fine frames: a stream
    /// that goes quiet re-arms nothing.
    fn maybe_rearm_after_give_up(&mut self, scored: bool)
        requires
            old(self).wf(),
            !(old(self).state is Locked),
        ensures
            final(self).wf(),
            final(self).retried_from(*old(self), scored),
    {
        if !self.coarse.exhausted() {
            return;
        }
        if scored {
            self.scored_since_exhausted = self.scored_since_exhausted + 1;
        }
        // The pending region's lifetime is deliberately NOT on the cost
        // schedule. It is the only thing standing between an arriving fine
        // candidate and the uncorroborated promotion path, so it expires after
        // one plain interval, and only the coarse re-arm below backs off.
        if self.scored_since_exhausted == REARM_SCORED_FRAMES {
            self.pending_region = None;
        }
        if self.scored_since_exhausted < REARM_SCORED_FRAMES * self.rearm_backoff {
            return;
        }
        self.scored_since_exhausted = 0;
        let doubled: u32 = self.rearm_backoff * 2;
        self.rearm_backoff = if doubled > REARM_BACKOFF_LIMIT {
            REARM_BACKOFF_LIMIT
        } else {
            doubled
        };
        self.coarse.rearm();
        self.coarse_rearms = self.coarse_rearms.saturating_add(1);
        // A fresh acquisition round: the relocation budget and the last-resort
        // bookkeeping start over. The fine search returns to the global origin
        // only if a relocation had moved it, so a slowly accumulating
        // uncorroborated case at the global origin keeps its evidence.
        let (low, _) = self.fine.search_range();
        if low != 0 {
            self.fine.relocate(0);
        }
        self.relocations = 0;
        self.frames_with_region = 0;
        self.pending_region = None;
        self.state = AcquisitionState::Searching;
    }

    /// Re-centres the fine search when the coarse region lies outside the range
    /// the fine search covers, or when the fine peak flatly disagrees with it,
    /// and reports whether the frame it left behind must be rescanned.
    ///
    /// A relocation abandons the range this frame's candidate was measured
    /// against. When that candidate would have promoted through the corroborated
    /// arm (the arm applies no interior test, so an edge-pinned peak agreeing
    /// with the region promotes there uninspected), the frame is rescanned
    /// against the new range rather than discarded.
    fn try_relocate(
        &mut self,
        lock: Option<FineLock>,
        region: Option<CoarseRegion>,
    ) -> (r: Relocation)
        requires
            old(self).wf(),
            region matches Some(found) ==> found.delay <= ORIGIN_LIMIT,
        ensures
            final(self).wf(),
            !old(self).relocates(lock, region) ==> *final(self) == *old(self)
                && r == Relocation::NotRelocated,
            old(self).relocates(lock, region) ==> {
                &&& final(self).relocated_from(*old(self), region->0)
                &&& r == (if lock matches Some(l) && old(self).agree(l.delay, region->0.delay) {
                    Relocation::RelocatedRescan
                } else {
                    Relocation::Relocated
                })
            },
    {
        if self.state != AcquisitionState::Searching || self.relocations >= MAX_RELOCATIONS {
            return Relocation::NotRelocated;
        }
        let found: CoarseRegion = match region {
            Some(found) => found,
            None => {
                return Relocation::NotRelocated;
            },
        };
        let (low, high) = self.fine.search_range();
        let inside: bool = found.delay >= low + self.edge_guard && found.delay + self.edge_guard
            <= high;
        let agreed: Option<bool> = match lock {
            Some(l) => Some(self.agrees(l.delay, found.delay)),
            None => None,
        };
        let disagrees: bool = match agreed {
            Some(agreed) => !agreed,
            None => false,
        };
        if inside && !disagrees {
            return Relocation::NotRelocated;
        }
        // Place the window mostly BEFORE the region: the fine peak is expected
        // earlier than the coarse envelope centroid, and running off the early
        // end costs taps while running off the late end costs coverage.
        let lead: usize = self.fine_span * RELOCATE_LEAD_NUM / RELOCATE_LEAD_DEN;
        self.fine.relocate(found.delay.saturating_sub(lead));
        self.state = AcquisitionState::Relocated;
        self.relocations = self.relocations + 1;
        self.frames_with_region = 0;
        match agreed {
            Some(true) => Relocation::RelocatedRescan,
            _ => Relocation::Relocated,
        }
    }

    /// Promotes this frame's fine candidate when the coarse scan corroborates
    /// it, or when nothing is available to corroborate it and it is strong and
    /// clearly interior.
    ///
    /// A region awaiting re-confirmation still corroborates: the fine stage
    /// agreeing with it is exactly the independent second finding the
    /// re-confirmation exists to demand.
    fn try_promote(
        &mut self,
        lock: Option<FineLock>,
        region: Option<CoarseRegion>,
    ) -> (r: Option<usize>)
        requires
            old(self).wf(),
            !(old(self).state is Locked),
            lock matches Some(l) ==> l.delay <= DELAY_LIMIT && l.peak_at <= old(self).fine_span,
        ensures
            final(self).wf(),
            lock is Some && old(self).ground(lock->0, region) is Some ==> {
                &&& r == Some(lock->0.delay)
                &&& final(self).promoted_from(
                    *old(self),
                    lock->0.delay,
                    old(self).ground(lock->0, region)->0,
                )
            },
            !(lock is Some && old(self).ground(lock->0, region) is Some) ==> r is None
                && *final(self) == *old(self),
    {
        let lock: FineLock = match lock {
            Some(lock) => lock,
            None => {
                return None;
            },
        };
        let found: Option<CoarseRegion> = match region {
            Some(region) => Some(region),
            None => self.pending_region,
        };
        match found {
            Some(region) => {
                // A region exists: either this candidate agrees with it, or it
                // keeps accumulating. Relocation has already had its chance, and
                // the last-resort path will take the region if the fine never
                // agrees.
                if self.agrees(lock.delay, region.delay) {
                    Some(self.promote(lock.delay, DelayLockSource::GlobalAgreement))
                } else {
                    None
                }
            },
            None => {
                if self.peak_interior(lock.peak_at) && (Measure {
                    bits: LOCAL_ONLY_CONFIDENCE_BITS,
                }).is_at_most(lock.ratio) {
                    Some(self.promote(lock.delay, DelayLockSource::LocalEvidence))
                } else {
                    None
                }
            },
        }
    }

    /// Adopts the coarse region itself once the fine search has had a fair
    /// chance and has not agreed with it, and the re-armed scan has found the
    /// region a second time, independently.
    ///
    /// After [`MAX_REVERIFY_REJECTS`] failed re-verifications this last resort
    /// stands down for the rest of the stream. The ordinary promotion ladder,
    /// which runs before it, stays available throughout.
    fn try_coarse_only(&mut self, region: Option<CoarseRegion>) -> (r: Option<usize>)
        requires
            old(self).wf(),
            !(old(self).state is Locked),
            region matches Some(found) ==> found.delay <= ORIGIN_LIMIT,
        ensures
            final(self).wf(),
            final(self).last_resort_from(*old(self), region, r),
    {
        let found: CoarseRegion = match region {
            Some(found) => found,
            None => {
                return None;
            },
        };
        if let Some(prev) = self.pending_region {
            if distance(found.delay, prev.delay) <= self.reverify_agree {
                // Found again where it was found before: a real region.
                let delay: usize = found.delay.saturating_sub(
                    self.coarse.bin_samples(),
                ).saturating_sub(LOCK_MARGIN_SAMPLES).saturating_sub(self.adopt_backoff);
                return Some(self.promote(delay, DelayLockSource::CoarseRegion));
            }
            // Found somewhere unrelated: the previous finding was not a region,
            // it was structure that does not reproduce. Refuse it, and while the
            // rejection budget still has room demand the same of the next one by
            // re-arming for another independent look. Once the budget is spent
            // the regions are wander, not a path: give up on the pending region
            // and STOP re-arming.
            self.regions_rejected = self.regions_rejected.saturating_add(1);
            if self.regions_rejected < MAX_REVERIFY_REJECTS {
                self.pending_region = Some(found);
                self.coarse.rearm();
            } else {
                self.pending_region = None;
            }
            return None;
        }
        if self.regions_rejected >= MAX_REVERIFY_REJECTS {
            return None;
        }
        if self.frames_with_region < COARSE_ONLY_PATIENCE_FRAMES {
            return None;
        }
        self.pending_region = Some(found);
        self.frames_with_region = 0;
        self.coarse.rearm();
        None
    }

    /// Whether a fine value and a coarse region describe the same delay, under
    /// the asymmetric tolerance the causal filter downstream requires.
    pub fn agrees(&self, fine: usize, coarse: usize) -> (r: bool)
        ensures
            r == self.agree(fine, coarse),
    {
        if fine >= coarse {
            fine - coarse <= self.agree_late
        } else {
            coarse - fine <= self.agree_early
        }
    }

    /// Records a trusted lock and starts tracking it.
    pub fn promote(&mut self, delay: usize, source: DelayLockSource) -> (r: usize)
        requires
            old(self).wf(),
            delay <= DELAY_LIMIT,
        ensures
            final(self).wf(),
            final(self).promoted_from(*old(self), delay, source),
            r == delay,
    {
        self.locked = Some(delay);
        self.source = Some(source);
        self.state = AcquisitionState::Locked;
        self.reacquiring = false;
        self.pending_region = None;
        self.scored_since_exhausted = 0;
        self.rearm_backoff = 1;
        self.tracker = Some(Tracker::new(self.sample_rate));
        self.cycle_scored = 0;
        self.cycle_candidate = None;
        // A freshly promoted lock has no settled history: the tracking search
        // runs at full cadence until it earns an idle.
        self.unsettle();
        let origin: usize = self.tracking_origin(delay);
        self.fine.relocate(origin);
        delay
    }

    /// The acquisition's observable state.
    pub fn estimate(&self) -> (r: DelayEstimate)
        requires
            self.wf(),
        ensures
            r == self.snapshot(),
    {
        let (low, high) = self.fine.search_range();
        let scan_peak: Option<usize> = self.fine.last_scan_peak_at();
        let status: DelayStatus = match (self.state, self.source, self.reacquiring) {
            (AcquisitionState::Locked, Some(source), _) => DelayStatus::Locked(source),
            (_, _, true) => DelayStatus::Reacquiring,
            (AcquisitionState::Relocated, _, _) => DelayStatus::Relocated,
            _ => DelayStatus::Searching,
        };
        DelayEstimate {
            status,
            delay_samples: self.locked,
            fine_search_start_samples: low,
            fine_search_end_samples: high,
            coarse_ceiling_samples: self.coarse.ceiling_samples(),
            coarse_region_samples: match self.coarse.region() {
                Some(region) => Some(region.delay),
                None => None,
            },
            coarse_bin_samples: self.coarse.bin_samples(),
            coarse_correlation: self.coarse.correlation(),
            beyond_ceiling: self.coarse.beyond_ceiling(),
            coarse_frames: self.coarse.frames(),
            fine_frames: self.fine.frames(),
            fine_frames_skipped: self.fine.skipped(),
            relocated: self.relocations > 0,
            fine_scans: self.fine.scans(),
            fine_last_ratio: self.fine.last_scan_ratio(),
            fine_last_delay_samples: match scan_peak {
                Some(peak_at) => Some(
                    (self.fine.last_scan_origin() + self.fine_span - peak_at).saturating_sub(
                        LOCK_MARGIN_SAMPLES,
                    ),
                ),
                None => None,
            },
            fine_last_origin_samples: self.fine.last_scan_origin(),
            fine_last_peak_interior: match scan_peak {
                Some(peak_at) => self.peak_interior(peak_at),
                None => false,
            },
            tracking_moves: self.tracking_moves,
            reacquisitions: self.reacquisitions,
            last_reacquire_trigger: self.last_trigger,
            coarse_rearms: self.coarse_rearms,
            coarse_regions_rejected: self.regions_rejected,
            coarse_last_resort_exhausted: self.regions_rejected >= MAX_REVERIFY_REJECTS,
            tracking_contradiction_run: match self.tracker {
                Some(tracker) => tracker.jump_cycles(),
                None => 0,
            },
            tracking_contradiction_run_max: self.contradiction_run_max,
        }
    }

    /// Whether the standing lock is under post-discontinuity suspicion, and
    /// [`None`] when no lock stands.
    pub fn tracker_suspect(&self) -> (r: Option<bool>)
        ensures
            r == (match self.tracker {
                Some(tracker) => Some(tracker.suspect),
                None => None,
            }),
    {
        match self.tracker {
            Some(tracker) => Some(tracker.suspect()),
            None => None,
        }
    }

    /// Whether the coarse global scan is actively working this instant: neither
    /// a region nor a give-up has stopped it.
    pub fn coarse_active(&self) -> (r: bool)
        ensures
            r == !self.coarse.is_finished(),
    {
        !self.coarse.finished()
    }

    /// Clears the acquisition to its just-constructed state.
    pub fn reset(&mut self)
        requires
            old(self).wf(),
        ensures
            final(self).wf(),
            final(self).pristine(),
            final(self).same_geometry(*old(self)),
            final(self).near_on_grid(),
            final(self).coarse.far_on_grid(),
    {
        self.coarse.reset();
        self.fine.reset();
        self.next_near_abs = 0;
        self.anchored = false;
        self.state = AcquisitionState::Searching;
        self.relocations = 0;
        self.frames_with_region = 0;
        self.pending_region = None;
        self.regions_rejected = 0;
        self.scored_since_exhausted = 0;
        self.rearm_backoff = 1;
        self.coarse_rearms = 0;
        self.tracker = None;
        self.cycle_scored = 0;
        self.cycle_candidate = None;
        self.unsettle();
        self.tracking_moves = 0;
        self.reacquiring = false;
        self.reacquisitions = 0;
        self.last_trigger = None;
        self.contradiction_run_max = 0;
        self.locked = None;
        self.source = None;
    }
}

/// Acting on a report is deterministic: two acquisitions in the same state that
/// act on the same report end in the same state and ask the same of the engine.
pub proof fn lemma_acting_is_deterministic(
    a: DelayAcquirer,
    b: DelayAcquirer,
    after_a: DelayAcquirer,
    after_b: DelayAcquirer,
    obs: FineObservation,
    outcome_a: ObserveOutcome,
    outcome_b: ObserveOutcome,
)
    requires
        a.alike(b),
        after_a.acted_from(a, obs, outcome_a),
        after_b.acted_from(b, obs, outcome_b),
    ensures
        after_a.alike(after_b),
        outcome_a == outcome_b,
{
    if a.state is Locked {
        lemma_tracking_is_deterministic(
            a,
            b,
            after_a,
            after_b,
            obs,
            outcome_a.action,
            outcome_b.action,
        );
    } else {
        let middle_a = choose|middle: DelayAcquirer| #[trigger]
            middle.retried_from(a.counted(), obs.scored) && after_a.laddered_from(
                middle,
                obs.candidate,
                a.coarse.best,
                outcome_a,
            );
        let middle_b = choose|middle: DelayAcquirer| #[trigger]
            middle.retried_from(b.counted(), obs.scored) && after_b.laddered_from(
                middle,
                obs.candidate,
                b.coarse.best,
                outcome_b,
            );
        assert(a.counted().alike(b.counted()));
        lemma_retrying_is_deterministic(a.counted(), b.counted(), middle_a, middle_b, obs.scored);
        lemma_the_ladder_is_deterministic(
            middle_a,
            middle_b,
            after_a,
            after_b,
            obs.candidate,
            a.coarse.best,
            outcome_a,
            outcome_b,
        );
    }
}

proof fn lemma_tracking_is_deterministic(
    a: DelayAcquirer,
    b: DelayAcquirer,
    after_a: DelayAcquirer,
    after_b: DelayAcquirer,
    obs: FineObservation,
    action_a: Option<AcquireAction>,
    action_b: Option<AcquireAction>,
)
    requires
        a.alike(b),
        after_a.tracked_from(a, obs, action_a),
        after_b.tracked_from(b, obs, action_b),
    ensures
        after_a.alike(after_b),
        action_a == action_b,
{
    assert(a.banked(obs).alike(b.banked(obs)));
    assert(a.banked(obs).cycle_outcome() == b.banked(obs).cycle_outcome());
    if a.banked(obs).cycle_scored >= TRACK_CYCLE_FRAMES {
        assert(a.banked(obs).concluded().alike(b.banked(obs).concluded()));
    }
}

proof fn lemma_retrying_is_deterministic(
    a: DelayAcquirer,
    b: DelayAcquirer,
    after_a: DelayAcquirer,
    after_b: DelayAcquirer,
    scored: bool,
)
    requires
        a.alike(b),
        after_a.retried_from(a, scored),
        after_b.retried_from(b, scored),
    ensures
        after_a.alike(after_b),
{
}

proof fn lemma_the_ladder_is_deterministic(
    a: DelayAcquirer,
    b: DelayAcquirer,
    after_a: DelayAcquirer,
    after_b: DelayAcquirer,
    lock: Option<FineLock>,
    region: Option<CoarseRegion>,
    outcome_a: ObserveOutcome,
    outcome_b: ObserveOutcome,
)
    requires
        a.alike(b),
        after_a.laddered_from(a, lock, region, outcome_a),
        after_b.laddered_from(b, lock, region, outcome_b),
    ensures
        after_a.alike(after_b),
        outcome_a == outcome_b,
{
    assert(a.relocates(lock, region) == b.relocates(lock, region));
    if lock is Some {
        assert(a.ground(lock->0, region) == b.ground(lock->0, region));
    }
}

/// Acting on a rescan is deterministic in the same way.
pub proof fn lemma_acting_on_a_rescan_is_deterministic(
    a: DelayAcquirer,
    b: DelayAcquirer,
    after_a: DelayAcquirer,
    after_b: DelayAcquirer,
    obs_a: FineObservation,
    obs_b: FineObservation,
    action_a: Option<AcquireAction>,
    action_b: Option<AcquireAction>,
)
    requires
        a.alike(b),
        obs_a.candidate == obs_b.candidate,
        after_a.rescanned_from(a, obs_a, action_a),
        after_b.rescanned_from(b, obs_b, action_b),
    ensures
        after_a.alike(after_b),
        action_a == action_b,
{
}

/// A restarted acquisition is a new one: two that hold nothing but the sizes one
/// configuration calls for are in the same state.
pub proof fn lemma_a_restarted_acquisition_is_a_new_one(
    a: DelayAcquirer,
    b: DelayAcquirer,
    sample_rate: u32,
    max_delay_ms: u16,
    ceiling_ms: u16,
)
    requires
        a.pristine(),
        b.pristine(),
        a.sized(sample_rate, max_delay_ms, ceiling_ms),
        b.sized(sample_rate, max_delay_ms, ceiling_ms),
    ensures
        a.alike(b),
{
    assert(a.coarse.corr_avg@ =~= b.coarse.corr_avg@);
}

/// A seam is idempotent, so an inferred seam landing on the same block as a
/// declared one costs nothing: a second seam leaves exactly what the first did.
pub proof fn lemma_a_second_seam_changes_nothing(
    before: DelayAcquirer,
    once: DelayAcquirer,
    twice: DelayAcquirer,
)
    requires
        once.seamed_from(before),
        twice.seamed_from(once),
    ensures
        twice.seamed_from(before),
        twice.tracker == once.tracker,
        twice.fine.frames == once.fine.frames,
        twice.coarse.accumulated == once.coarse.accumulated,
{
}

/// A seam keeps the standing lock and only suspects it: the alignment, its
/// source and the state survive, and so do the give-up budget, the confirmed
/// region and the whole far history.
pub proof fn lemma_a_seam_keeps_the_lock_as_a_prior(before: DelayAcquirer, after: DelayAcquirer)
    requires
        before.wf(),
        after.seamed_from(before),
    ensures
        after.locked == before.locked,
        after.source == before.source,
        after.status() == before.status(),
        after.state is Locked ==> after.tracker->0.suspect,
        after.coarse.best == before.coarse.best,
        after.coarse.frames == before.coarse.frames,
        after.coarse.exhausted == before.coarse.exhausted,
        after.coarse.same_far(before.coarse),
{
}

/// Silence teaches nothing and is not evidence against a lock: a frame that was
/// not scored leaves a standing lock, its tracker and its counters exactly as
/// they were.
pub proof fn lemma_silence_never_moves_a_lock(
    before: DelayAcquirer,
    after: DelayAcquirer,
    obs: FineObservation,
    outcome: ObserveOutcome,
)
    requires
        before.wf(),
        before.state is Locked,
        !obs.scored,
        after.acted_from(before, obs, outcome),
    ensures
        after == before,
        outcome.action is None,
{
}

/// An edge-pinned peak is never adopted on its own: a candidate is promoted
/// either because a coarse region agrees with it, or, with no region at all,
/// because it stands clear of both ends of its range and reaches the raised
/// confidence bar.
pub proof fn lemma_an_edge_pinned_peak_needs_corroboration(
    acquirer: DelayAcquirer,
    lock: FineLock,
    region: Option<CoarseRegion>,
)
    ensures
        acquirer.ground(lock, region) is Some && !acquirer.interior(lock.peak_at) ==> {
            &&& acquirer.ground(lock, region) == Some(DelayLockSource::GlobalAgreement)
            &&& either_region(region, acquirer.pending_region) matches Some(found) && acquirer.agree(
                lock.delay,
                found.delay,
            )
        },
        acquirer.ground(lock, region) == Some(DelayLockSource::LocalEvidence) ==> {
            &&& either_region(region, acquirer.pending_region) is None
            &&& acquirer.interior(lock.peak_at)
            &&& (Measure { bits: LOCAL_ONLY_CONFIDENCE_BITS }).at_most(lock.ratio)
        },
{
}

/// The last resort adopts a region only once it has been found a second time,
/// where it was found before, and it adopts it no later than it was found.
pub proof fn lemma_the_last_resort_needs_two_findings(
    before: DelayAcquirer,
    after: DelayAcquirer,
    region: Option<CoarseRegion>,
    delay: usize,
)
    requires
        before.wf(),
        after.last_resort_from(before, region, Some(delay)),
    ensures
        region is Some,
        before.pending_region is Some,
        before.reconfirms(region->0),
        delay <= region->0.delay,
        before.regions_rejected < MAX_REVERIFY_REJECTS,
{
}

/// The reject budget is final: once eight regions have been refused the last
/// resort neither adopts, nor re-arms, nor counts another, for as long as the
/// stream runs; and no fine report ever lowers the count or raises it past the
/// budget.
pub proof fn lemma_the_last_resort_stands_down(
    before: DelayAcquirer,
    after: DelayAcquirer,
    obs: FineObservation,
    outcome: ObserveOutcome,
)
    requires
        before.wf(),
        after.acted_from(before, obs, outcome),
    ensures
        before.regions_rejected <= after.regions_rejected <= MAX_REVERIFY_REJECTS,
        before.regions_rejected >= MAX_REVERIFY_REJECTS ==> after.source != Some(
            DelayLockSource::CoarseRegion,
        ) || after.source == before.source,
        before.regions_rejected >= MAX_REVERIFY_REJECTS ==> after.pending_region is None,
        before.regions_rejected >= MAX_REVERIFY_REJECTS && !(before.state is Locked)
            && !before.coarse.exhausted ==> after.coarse == before.coarse,
{
    if !(before.state is Locked) {
        let middle = choose|middle: DelayAcquirer| #[trigger]
            middle.retried_from(before.counted(), obs.scored) && after.laddered_from(
                middle,
                obs.candidate,
                before.coarse.best,
                outcome,
            );
        assert(middle.retried_from(before.counted(), obs.scored));
    }
}

/// A reacquisition keeps the stale value on report until something better is
/// promoted: the trigger changes neither the alignment nor its source, the
/// status says so, and both searches restart.
pub proof fn lemma_a_reacquisition_keeps_the_stale_value(
    before: DelayAcquirer,
    after: DelayAcquirer,
    trigger: ReacquireTrigger,
)
    requires
        before.wf(),
        before.state is Locked,
        after.reacquiring_from(before, trigger),
    ensures
        after.locked == before.locked,
        after.locked is Some,
        after.status() is Reacquiring,
        after.snapshot().last_reacquire_trigger == Some(trigger),
        !after.coarse.is_finished(),
        after.fine.search_origin == 0,
        after.fine.frames == 0,
{
}

/// What the snapshot promises: a delay is reported exactly once one has been
/// adopted, a locked or reacquiring status always carries one, initial
/// acquisition never reads as a reacquisition, and the search range is moved
/// but never resized.
pub proof fn lemma_the_snapshot_is_coherent(acquirer: DelayAcquirer)
    requires
        acquirer.wf(),
    ensures
        ({
            let estimate = acquirer.snapshot();
            &&& estimate.status is Locked <==> acquirer.state is Locked
            &&& estimate.status is Reacquiring <==> acquirer.reacquiring
            &&& estimate.status is Locked || estimate.status is Reacquiring
                <==> estimate.delay_samples is Some
            &&& estimate.fine_search_end_samples - estimate.fine_search_start_samples
                == acquirer.fine.max_delay
            &&& estimate.coarse_last_resort_exhausted <==> estimate.coarse_regions_rejected
                == MAX_REVERIFY_REJECTS
            &&& estimate.coarse_regions_rejected <= MAX_REVERIFY_REJECTS
            &&& !(estimate.status is Locked) ==> estimate.tracking_contradiction_run == 0
        }),
{
}

/// The tracking search idles only on a settled lock, and only for a bounded
/// span: an idle is granted only by a quiescent tracker, an estimate that sits
/// on the alignment and has not walked since the previous cycle, and a fourth
/// such cycle in a row; it never exceeds four tracking cycles.
pub proof fn lemma_an_idle_is_earned_and_bounded(
    acquirer: DelayAcquirer,
    alignment: usize,
    outcome: CycleOutcome,
    quiescent: bool,
)
    requires
        acquirer.wf(),
        acquirer.idle_samples == 0,
        acquirer.settled(alignment, outcome, quiescent).idle_samples > 0,
    ensures
        quiescent,
        interior_estimate(outcome) matches Some(delay) && crate::track::apart(delay, alignment)
            <= acquirer.track_stable,
        acquirer.last_cycle_delay is Some,
        acquirer.stable_cycles + 1 >= TRACK_STABLE_CYCLES,
        acquirer.settled(alignment, outcome, quiescent).idle_samples <= TRACK_IDLE_MAX_CYCLES
            * TRACK_CYCLE_FRAMES * acquirer.fine.frame_len,
{
    let after = acquirer.settled(alignment, outcome, quiescent);
    assert(after.idle_depth * TRACK_CYCLE_FRAMES * acquirer.fine.frame_len
        <= TRACK_IDLE_MAX_CYCLES * TRACK_CYCLE_FRAMES * acquirer.fine.frame_len)
        by (nonlinear_arith)
        requires
            after.idle_depth <= TRACK_IDLE_MAX_CYCLES,
    ;
    assert(after.idle_depth * TRACK_CYCLE_FRAMES * acquirer.fine.frame_len <= 8 * MAX_FFT_LEN)
        by (nonlinear_arith)
        requires
            after.idle_depth <= 4,
            acquirer.fine.frame_len <= MAX_FFT_LEN,
    ;
}

} // verus!
