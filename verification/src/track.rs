//! The delay tracker: the decision logic that follows a locked delay and decides
//! when the lock has gone bad.
//!
//! # What tracking is
//!
//! Acquisition ([`crate::acquire`]) answers "where is the echo" once, from
//! nothing. Tracking answers a much smaller question continuously: "is the
//! alignment still right, and if the delay moved, where did it move to". The
//! fine estimator keeps running after the lock, re-centred on a local window
//! around the adopted delay, and its accumulator is restarted every few frames
//! so each short cycle produces an independent local estimate. This module
//! consumes that cycle stream and holds the hysteresis: it decides whether to
//! hold the alignment, move it, or declare the lock lost.
//!
//! # Why hysteresis
//!
//! Every move requires two consecutive cycles that agree with each other, and
//! small disagreements inside the dead bands are deliberately ignored. The dead
//! bands are asymmetric, tight on the late side and wide on the early side.
//!
//! # Determinism
//!
//! The tracker is pure integer bookkeeping over the cycle stream. The same
//! cycles produce the same verdicts on every run and every platform.

use vstd::prelude::*;

use crate::delay::ReacquireTrigger;
use crate::timing::short_ms_to_samples_at_least_one;

verus! {

/// Scored fine frames per tracking decision cycle.
pub const TRACK_CYCLE_FRAMES: u32 = 2;

/// How far EARLIER than the alignment a confirmed estimate must sit before the
/// alignment moves, in milliseconds.
pub const MOVE_LATE_MS: u16 = 4;

/// How far LATER than the alignment a confirmed estimate must sit before the
/// alignment moves, in milliseconds.
pub const MOVE_EARLY_MS: u16 = 48;

/// How closely two consecutive cycle estimates must agree to confirm a move, in
/// milliseconds.
pub const MOVE_AGREE_MS: u16 = 24;

/// How far apart two consecutive confident estimates must sit to be counted as a
/// jump between unrelated delays, in milliseconds.
pub const JUMP_APART_MS: u16 = 100;

/// Consecutive confident cycles with an edge-pinned peak before
/// [`ReacquireTrigger::TrackingEdge`] fires.
pub const EDGE_CYCLES: u32 = 3;

/// Consecutive contradicting cycles before
/// [`ReacquireTrigger::EstimatorJumping`] fires.
///
/// A cycle contradicts when it disagrees with the previous confident estimate by
/// more than [`JUMP_APART_MS`], or when it replaces an estimate that was
/// awaiting confirmation instead of confirming it.
pub const JUMP_CYCLES: u32 = 4;

/// Extra lead spent when a move corrects in the EARLIER direction, in
/// milliseconds.
pub const MOVE_LATE_LEAD_MS: u16 = 8;

/// Consecutive scored-but-unconfident cycles before
/// [`ReacquireTrigger::ConfidenceLost`] fires.
pub const UNCONFIDENT_CYCLES: u32 = 8;

/// Consecutive scored-but-unconfident cycles before a SUSPECT lock (one that
/// just survived a stream discontinuity) is declared lost.
pub const SUSPECT_UNCONFIDENT_CYCLES: u32 = 4;

/// What one concluded tracking cycle observed.
#[derive(Debug, Clone, Copy)]
pub enum CycleOutcome {
    /// The cycle's scan produced a confident candidate.
    Candidate {
        /// The candidate delay in samples, margin applied.
        delay: usize,
        /// Whether the peak stood clear of both ends of the scanned range. An
        /// edge-pinned peak is not evidence of a delay AT the edge; it is
        /// evidence the maximum may lie outside the range.
        interior: bool,
    },
    /// The cycle scored frames but its scan never cleared the confidence gate.
    Unconfident,
}

/// The tracker's decision for one concluded cycle.
#[derive(Debug, Clone, Copy, PartialEq, Eq, Structural)]
pub enum TrackVerdict {
    /// The alignment stands.
    Hold,
    /// The alignment moves to the confirmed estimate. The engine applies this
    /// without resetting the canceller.
    Move(usize),
    /// The lock has gone bad; re-enter the global search.
    Reacquire(ReacquireTrigger),
}

/// The distance between two delays.
pub open spec fn apart(a: usize, b: usize) -> int {
    if a >= b {
        a - b
    } else {
        b - a
    }
}

/// The distance between two delays.
pub fn distance(a: usize, b: usize) -> (r: usize)
    ensures
        r == apart(a, b),
{
    if a >= b {
        a - b
    } else {
        b - a
    }
}

/// One more on a run length, which stops at the top of its range.
pub open spec fn bumped(run: u32) -> u32 {
    if run == u32::MAX {
        run
    } else {
        (run + 1) as u32
    }
}

/// The per-lock tracking state. Constructed at promotion, discarded at
/// reacquisition. See the module documentation.
#[derive(Debug, Clone, Copy)]
pub struct Tracker {
    /// [`MOVE_LATE_MS`] in samples.
    pub late_band: usize,
    /// [`MOVE_EARLY_MS`] in samples.
    pub early_band: usize,
    /// [`MOVE_AGREE_MS`] in samples.
    pub move_agree: usize,
    /// [`JUMP_APART_MS`] in samples.
    pub jump_apart: usize,
    /// [`MOVE_LATE_LEAD_MS`] in samples.
    pub late_lead: usize,
    /// An out-of-band estimate awaiting its confirming cycle.
    pub pending_move: Option<usize>,
    /// The previous cycle's confident interior estimate, for the jump test.
    pub prev_candidate: Option<usize>,
    /// Consecutive confident cycles with an edge-pinned peak.
    pub edge_cycles: u32,
    /// Consecutive confident cycles that contradicted the standing evidence,
    /// either by jumping between unrelated delays or by replacing an estimate
    /// that was awaiting confirmation instead of confirming it.
    pub jump_cycles: u32,
    /// Consecutive scored cycles that never cleared the confidence gate.
    pub unconfident_cycles: u32,
    /// Whether the lock is under suspicion after a stream discontinuity.
    pub suspect: bool,
}

impl Tracker {
    /// Whether an estimate sits outside the dead bands around the alignment.
    pub open spec fn out_of_band(self, alignment: usize, delay: usize) -> bool {
        alignment - delay > self.late_band || delay - alignment > self.early_band
    }

    /// Whether an estimate is unrelated to the previous confident one.
    pub open spec fn jumps(self, delay: usize) -> bool {
        self.prev_candidate matches Some(prev) && apart(delay, prev) > self.jump_apart
    }

    /// Whether an interior estimate confirms the move awaiting confirmation.
    pub open spec fn confirms(self, alignment: usize, delay: usize) -> bool {
        &&& self.out_of_band(alignment, delay)
        &&& self.pending_move matches Some(pending) && apart(delay, pending) <= self.move_agree
    }

    /// Whether an interior estimate contradicts the standing evidence: it jumps
    /// away from the previous one, or it replaces a move awaiting confirmation.
    pub open spec fn contradicts(self, alignment: usize, delay: usize) -> bool {
        self.jumps(delay) || (self.out_of_band(alignment, delay) && self.pending_move is Some)
    }

    /// The unconfident run at which the lock is lost.
    pub open spec fn unconfident_limit(self) -> u32 {
        if self.suspect {
            SUSPECT_UNCONFIDENT_CYCLES
        } else {
            UNCONFIDENT_CYCLES
        }
    }

    /// Where a confirmed move lands: a correction toward earlier lands with a
    /// lead, a deepening one lands on the estimate.
    pub open spec fn target(self, alignment: usize, delay: usize) -> usize {
        if delay >= alignment {
            delay
        } else if delay <= self.late_lead {
            0
        } else {
            (delay - self.late_lead) as usize
        }
    }

    /// The contradiction run after an interior cycle that did not move: one more
    /// when the cycle contradicts, cleared the moment one does not.
    pub open spec fn run_after(self, alignment: usize, delay: usize) -> u32 {
        if self.contradicts(alignment, delay) {
            bumped(self.jump_cycles)
        } else {
            0
        }
    }

    /// The verdict on one concluded cycle.
    pub open spec fn verdict(self, alignment: usize, outcome: CycleOutcome) -> TrackVerdict {
        match outcome {
            CycleOutcome::Unconfident => if bumped(self.unconfident_cycles)
                >= self.unconfident_limit() {
                TrackVerdict::Reacquire(
                    if self.suspect {
                        ReacquireTrigger::Discontinuity
                    } else {
                        ReacquireTrigger::ConfidenceLost
                    },
                )
            } else {
                TrackVerdict::Hold
            },
            CycleOutcome::Candidate { delay, interior } => if !interior {
                if bumped(self.edge_cycles) >= EDGE_CYCLES {
                    TrackVerdict::Reacquire(ReacquireTrigger::TrackingEdge)
                } else {
                    TrackVerdict::Hold
                }
            } else if self.confirms(alignment, delay) {
                TrackVerdict::Move(self.target(alignment, delay))
            } else if self.contradicts(alignment, delay) && bumped(self.jump_cycles)
                >= JUMP_CYCLES {
                TrackVerdict::Reacquire(ReacquireTrigger::EstimatorJumping)
            } else {
                TrackVerdict::Hold
            },
        }
    }

    /// The tracker one concluded cycle leaves behind.
    pub open spec fn after(self, alignment: usize, outcome: CycleOutcome) -> Tracker {
        match outcome {
            CycleOutcome::Unconfident => Tracker {
                unconfident_cycles: bumped(self.unconfident_cycles),
                ..self
            },
            CycleOutcome::Candidate { delay, interior } => if !interior {
                Tracker {
                    unconfident_cycles: 0,
                    pending_move: None,
                    prev_candidate: None,
                    edge_cycles: bumped(self.edge_cycles),
                    ..self
                }
            } else if self.confirms(alignment, delay) {
                Tracker {
                    unconfident_cycles: 0,
                    edge_cycles: 0,
                    prev_candidate: Some(delay),
                    pending_move: None,
                    jump_cycles: 0,
                    suspect: false,
                    ..self
                }
            } else if self.out_of_band(alignment, delay) {
                Tracker {
                    unconfident_cycles: 0,
                    edge_cycles: 0,
                    prev_candidate: Some(delay),
                    pending_move: Some(delay),
                    jump_cycles: self.run_after(alignment, delay),
                    ..self
                }
            } else {
                Tracker {
                    unconfident_cycles: 0,
                    edge_cycles: 0,
                    prev_candidate: Some(delay),
                    pending_move: None,
                    suspect: false,
                    jump_cycles: self.run_after(alignment, delay),
                    ..self
                }
            },
        }
    }

    /// Nothing awaiting a confirming cycle, every escalation counter at zero,
    /// and no standing suspicion.
    pub open spec fn at_rest(self) -> bool {
        &&& self.pending_move is None
        &&& self.edge_cycles == 0
        &&& self.jump_cycles == 0
        &&& self.unconfident_cycles == 0
        &&& !self.suspect
    }

    /// The tracker of a freshly promoted lock.
    pub open spec fn fresh(sample_rate: u32) -> Tracker {
        Tracker {
            late_band: crate::timing::samples_in_at_least_one(
                MOVE_LATE_MS as int,
                sample_rate as int,
            ) as usize,
            early_band: crate::timing::samples_in_at_least_one(
                MOVE_EARLY_MS as int,
                sample_rate as int,
            ) as usize,
            move_agree: crate::timing::samples_in_at_least_one(
                MOVE_AGREE_MS as int,
                sample_rate as int,
            ) as usize,
            jump_apart: crate::timing::samples_in_at_least_one(
                JUMP_APART_MS as int,
                sample_rate as int,
            ) as usize,
            late_lead: crate::timing::samples_in_at_least_one(
                MOVE_LATE_LEAD_MS as int,
                sample_rate as int,
            ) as usize,
            pending_move: None,
            prev_candidate: None,
            edge_cycles: 0,
            jump_cycles: 0,
            unconfident_cycles: 0,
            suspect: false,
        }
    }

    /// Constructs the tracker for a freshly promoted lock at `sample_rate`.
    pub fn new(sample_rate: u32) -> (r: Tracker)
        ensures
            r == Tracker::fresh(sample_rate),
            r.late_band == crate::timing::samples_in_at_least_one(
                MOVE_LATE_MS as int,
                sample_rate as int,
            ),
            r.early_band == crate::timing::samples_in_at_least_one(
                MOVE_EARLY_MS as int,
                sample_rate as int,
            ),
            r.move_agree == crate::timing::samples_in_at_least_one(
                MOVE_AGREE_MS as int,
                sample_rate as int,
            ),
            r.jump_apart == crate::timing::samples_in_at_least_one(
                JUMP_APART_MS as int,
                sample_rate as int,
            ),
            r.late_lead == crate::timing::samples_in_at_least_one(
                MOVE_LATE_LEAD_MS as int,
                sample_rate as int,
            ),
    {
        Tracker {
            late_band: short_ms_to_samples_at_least_one(MOVE_LATE_MS, sample_rate),
            early_band: short_ms_to_samples_at_least_one(MOVE_EARLY_MS, sample_rate),
            move_agree: short_ms_to_samples_at_least_one(MOVE_AGREE_MS, sample_rate),
            jump_apart: short_ms_to_samples_at_least_one(JUMP_APART_MS, sample_rate),
            late_lead: short_ms_to_samples_at_least_one(MOVE_LATE_LEAD_MS, sample_rate),
            pending_move: None,
            prev_candidate: None,
            edge_cycles: 0,
            jump_cycles: 0,
            unconfident_cycles: 0,
            suspect: false,
        }
    }

    /// The tracker a stream discontinuity leaves behind.
    pub open spec fn under_suspicion(self) -> Tracker {
        Tracker {
            suspect: true,
            pending_move: None,
            prev_candidate: None,
            edge_cycles: 0,
            jump_cycles: 0,
            unconfident_cycles: 0,
            ..self
        }
    }

    /// Declares a stream discontinuity: the lock survives but is suspect, the
    /// lost-lock threshold tightens, and evidence from before the seam is
    /// discarded because it is not comparable across it.
    pub fn on_discontinuity(&mut self)
        ensures
            *final(self) == old(self).under_suspicion(),
    {
        self.suspect = true;
        self.pending_move = None;
        self.prev_candidate = None;
        self.edge_cycles = 0;
        self.jump_cycles = 0;
        self.unconfident_cycles = 0;
    }

    /// Whether the lock is currently under post-discontinuity suspicion.
    pub fn suspect(&self) -> (r: bool)
        ensures
            r == self.suspect,
    {
        self.suspect
    }

    /// The standing run of contradicting cycles: how many consecutive decision
    /// cycles the estimator has disagreed with ITSELF about where the delay is.
    ///
    /// Zero on a healthy stream, because a lock that keeps being re-confirmed
    /// clears the run every cycle.
    pub fn jump_cycles(&self) -> (r: u32)
        ensures
            r == self.jump_cycles,
    {
        self.jump_cycles
    }

    /// Whether the tracker carries no unfinished business: nothing awaiting a
    /// confirming cycle, every escalation counter at zero, and no standing
    /// suspicion.
    ///
    /// This is the cadence predicate.
    pub fn quiescent(&self) -> (r: bool)
        ensures
            r == self.at_rest(),
    {
        self.pending_move.is_none() && self.edge_cycles == 0 && self.jump_cycles == 0
            && self.unconfident_cycles == 0 && !self.suspect
    }

    /// Judges one concluded cycle against the current `alignment` and returns
    /// the verdict.
    pub fn on_cycle(&mut self, alignment: usize, outcome: CycleOutcome) -> (r: TrackVerdict)
        ensures
            r == old(self).verdict(alignment, outcome),
            *final(self) == old(self).after(alignment, outcome),
    {
        match outcome {
            CycleOutcome::Unconfident => {
                self.unconfident_cycles = self.unconfident_cycles.saturating_add(1);
                let limit: u32 = if self.suspect {
                    SUSPECT_UNCONFIDENT_CYCLES
                } else {
                    UNCONFIDENT_CYCLES
                };
                if self.unconfident_cycles >= limit {
                    let trigger = if self.suspect {
                        ReacquireTrigger::Discontinuity
                    } else {
                        ReacquireTrigger::ConfidenceLost
                    };
                    return TrackVerdict::Reacquire(trigger);
                }
                TrackVerdict::Hold
            },
            CycleOutcome::Candidate { delay, interior } => {
                self.unconfident_cycles = 0;
                if !interior {
                    // An edge-pinned peak carries no adoptable delay, and it is
                    // not comparable to interior estimates, so it feeds only its
                    // own counter.
                    self.pending_move = None;
                    self.prev_candidate = None;
                    self.edge_cycles = self.edge_cycles.saturating_add(1);
                    if self.edge_cycles >= EDGE_CYCLES {
                        return TrackVerdict::Reacquire(ReacquireTrigger::TrackingEdge);
                    }
                    return TrackVerdict::Hold;
                }
                self.edge_cycles = 0;

                // The jump test compares consecutive confident estimates to each
                // other, not to the alignment.
                let jumped: bool = match self.prev_candidate {
                    Some(prev) => distance(delay, prev) > self.jump_apart,
                    None => false,
                };
                self.prev_candidate = Some(delay);
                let mut contradicted: bool = jumped;

                let late: bool = alignment > delay && alignment - delay > self.late_band;
                let early: bool = delay > alignment && delay - alignment > self.early_band;
                if late || early {
                    // Outside the dead bands: a move is warranted, once a second
                    // cycle confirms it.
                    if let Some(pending) = self.pending_move {
                        if distance(delay, pending) <= self.move_agree {
                            self.pending_move = None;
                            // Agreement resets the contradiction run.
                            self.jump_cycles = 0;
                            // A confirmed move lifts suspicion.
                            self.suspect = false;
                            // A correction toward earlier lands with a lead.
                            let target: usize = if delay < alignment {
                                delay.saturating_sub(self.late_lead)
                            } else {
                                delay
                            };
                            return TrackVerdict::Move(target);
                        }
                        // The pending estimate was REPLACED rather than
                        // confirmed, which counts as a contradiction.
                        contradicted = true;
                    }
                    self.pending_move = Some(delay);
                } else {
                    // Inside the dead bands: the alignment is re-confirmed.
                    self.pending_move = None;
                    self.suspect = false;
                }

                // One escalation step per contradicting cycle, however many of
                // the two tests saw it, and the run resets the moment a cycle
                // stops contradicting. A lock that is merely being held
                // re-confirms every cycle and so never escalates.
                if contradicted {
                    self.jump_cycles = self.jump_cycles.saturating_add(1);
                    if self.jump_cycles >= JUMP_CYCLES {
                        return TrackVerdict::Reacquire(ReacquireTrigger::EstimatorJumping);
                    }
                } else {
                    self.jump_cycles = 0;
                }
                TrackVerdict::Hold
            },
        }
    }
}

/// The tracker after a whole run of cycles against one alignment.
pub open spec fn after_cycles(
    tracker: Tracker,
    alignment: usize,
    cycles: Seq<CycleOutcome>,
) -> Tracker
    decreases cycles.len(),
{
    if cycles.len() == 0 {
        tracker
    } else {
        after_cycles(tracker, alignment, cycles.drop_last()).after(alignment, cycles.last())
    }
}

/// The verdict on the `i`-th cycle of a run against one alignment.
pub open spec fn verdict_at(
    tracker: Tracker,
    alignment: usize,
    cycles: Seq<CycleOutcome>,
    i: int,
) -> TrackVerdict {
    after_cycles(tracker, alignment, cycles.take(i)).verdict(alignment, cycles[i])
}

/// Whether a cycle is a confident interior estimate inside the dead bands.
pub open spec fn reconfirms(tracker: Tracker, alignment: usize, outcome: CycleOutcome) -> bool {
    outcome matches CycleOutcome::Candidate { delay, interior } && interior
        && !tracker.out_of_band(alignment, delay)
}

/// Hysteresis: the alignment moves only when an out-of-band estimate is
/// confirmed by a second one that agrees with it, and it then lands within one
/// lead of that second estimate, never later than it.
pub proof fn lemma_a_move_needs_two_agreeing_cycles(
    tracker: Tracker,
    alignment: usize,
    outcome: CycleOutcome,
    to: usize,
)
    requires
        tracker.verdict(alignment, outcome) == TrackVerdict::Move(to),
    ensures
        outcome matches CycleOutcome::Candidate { delay, interior } && interior
            && tracker.confirms(alignment, delay) && to <= delay <= to + tracker.late_lead,
        tracker.after(alignment, outcome).at_rest(),
{
}

/// A stable lock is held, not chased, and never escalates however long it is
/// held: a run of interior estimates inside the dead bands holds on every cycle
/// and leaves the tracker at rest.
pub proof fn lemma_a_stable_lock_never_escalates(
    sample_rate: u32,
    alignment: usize,
    cycles: Seq<CycleOutcome>,
)
    requires
        8000 <= sample_rate <= 48000,
        forall|i: int|
            0 <= i < cycles.len() ==> reconfirms(
                Tracker::fresh(sample_rate),
                alignment,
                #[trigger] cycles[i],
            ),
    ensures
        forall|i: int|
            0 <= i < cycles.len() ==> #[trigger] verdict_at(
                Tracker::fresh(sample_rate),
                alignment,
                cycles,
                i,
            ) == TrackVerdict::Hold,
        after_cycles(Tracker::fresh(sample_rate), alignment, cycles).at_rest(),
{
    let fresh = Tracker::fresh(sample_rate);
    assert forall|i: int| 0 <= i < cycles.len() implies #[trigger] verdict_at(
        fresh,
        alignment,
        cycles,
        i,
    ) == TrackVerdict::Hold by {
        lemma_stable_lock(sample_rate, alignment, cycles.take(i));
        assert(reconfirms(fresh, alignment, cycles[i]));
        lemma_bands(sample_rate);
    }
    lemma_stable_lock(sample_rate, alignment, cycles);
}

/// The dead bands together are narrower than the jump distance.
proof fn lemma_bands(sample_rate: u32)
    requires
        8000 <= sample_rate <= 48000,
    ensures
        Tracker::fresh(sample_rate).late_band + Tracker::fresh(sample_rate).early_band
            <= Tracker::fresh(sample_rate).jump_apart,
{
    let rate = sample_rate as int;
    assert((MOVE_LATE_MS as int * rate) / 1000 + (MOVE_EARLY_MS as int * rate) / 1000 <= (
    JUMP_APART_MS as int * rate) / 1000);
}

proof fn lemma_stable_lock(sample_rate: u32, alignment: usize, cycles: Seq<CycleOutcome>)
    requires
        8000 <= sample_rate <= 48000,
        forall|i: int|
            0 <= i < cycles.len() ==> reconfirms(
                Tracker::fresh(sample_rate),
                alignment,
                #[trigger] cycles[i],
            ),
    ensures
        ({
            let fresh = Tracker::fresh(sample_rate);
            let tracker = after_cycles(fresh, alignment, cycles);
            &&& tracker == (Tracker { prev_candidate: tracker.prev_candidate, ..fresh })
            &&& tracker.prev_candidate matches Some(prev) ==> !fresh.out_of_band(alignment, prev)
        }),
    decreases cycles.len(),
{
    if cycles.len() > 0 {
        assert forall|i: int| 0 <= i < cycles.drop_last().len() implies reconfirms(
            Tracker::fresh(sample_rate),
            alignment,
            #[trigger] cycles.drop_last()[i],
        ) by {
            assert(cycles.drop_last()[i] == cycles[i]);
        }
        lemma_stable_lock(sample_rate, alignment, cycles.drop_last());
        assert(reconfirms(Tracker::fresh(sample_rate), alignment, cycles[cycles.len() - 1]));
        lemma_bands(sample_rate);
    }
}

/// Re-confirmation clears the contradiction run, whatever came before it: after
/// an interior cycle that does not contradict the standing evidence the run is
/// zero, and one inside the dead bands leaves nothing awaiting confirmation.
pub proof fn lemma_re_confirmation_clears_the_run(
    tracker: Tracker,
    alignment: usize,
    delay: usize,
)
    requires
        !tracker.contradicts(alignment, delay),
    ensures
        ({
            let after = tracker.after(alignment, CycleOutcome::Candidate { delay, interior: true });
            &&& after.jump_cycles == 0
            &&& after.edge_cycles == 0
            &&& after.unconfident_cycles == 0
            &&& !tracker.out_of_band(alignment, delay) ==> after.at_rest()
        }),
{
}

/// Escalation is bounded: while a tracker keeps holding, its contradiction run,
/// its edge run and its unconfident run all stay under the count at which each
/// declares the lock lost.
pub proof fn lemma_escalation_is_bounded(
    sample_rate: u32,
    alignment: usize,
    cycles: Seq<CycleOutcome>,
)
    requires
        forall|i: int|
            0 <= i < cycles.len() ==> #[trigger] verdict_at(
                Tracker::fresh(sample_rate),
                alignment,
                cycles,
                i,
            ) == TrackVerdict::Hold,
    ensures
        ({
            let tracker = after_cycles(Tracker::fresh(sample_rate), alignment, cycles);
            &&& tracker.jump_cycles < JUMP_CYCLES
            &&& tracker.edge_cycles < EDGE_CYCLES
            &&& tracker.unconfident_cycles < UNCONFIDENT_CYCLES
        }),
    decreases cycles.len(),
{
    if cycles.len() > 0 {
        let shorter = cycles.drop_last();
        assert forall|i: int| 0 <= i < shorter.len() implies #[trigger] verdict_at(
            Tracker::fresh(sample_rate),
            alignment,
            shorter,
            i,
        ) == TrackVerdict::Hold by {
            assert(shorter.take(i) =~= cycles.take(i));
            assert(verdict_at(Tracker::fresh(sample_rate), alignment, cycles, i)
                == TrackVerdict::Hold);
        }
        lemma_escalation_is_bounded(sample_rate, alignment, shorter);
        assert(cycles.take(cycles.len() - 1) =~= shorter);
        assert(verdict_at(Tracker::fresh(sample_rate), alignment, cycles, cycles.len() - 1)
            == TrackVerdict::Hold);
    }
}

/// An estimator that will not agree with itself ends in reacquisition: once it
/// has contradicted itself on three consecutive cycles, a fourth contradiction
/// that confirms nothing declares the lock lost.
pub proof fn lemma_contradiction_ends_in_reacquisition(
    tracker: Tracker,
    alignment: usize,
    delay: usize,
)
    requires
        tracker.contradicts(alignment, delay),
        !tracker.confirms(alignment, delay),
    ensures
        ({
            let outcome = CycleOutcome::Candidate { delay, interior: true };
            &&& tracker.jump_cycles + 1 >= JUMP_CYCLES ==> tracker.verdict(alignment, outcome)
                == TrackVerdict::Reacquire(ReacquireTrigger::EstimatorJumping)
            &&& tracker.jump_cycles + 1 < JUMP_CYCLES ==> tracker.verdict(alignment, outcome)
                == TrackVerdict::Hold && tracker.after(alignment, outcome).jump_cycles
                == tracker.jump_cycles + 1
        }),
{
}

/// A discontinuity tightens the leash until the alignment is re-confirmed: a
/// suspect lock survives exactly four unconfident cycles less one, an in-band
/// estimate lifts the suspicion, and a lock that is not suspect survives eight
/// less one.
pub proof fn lemma_suspicion_halves_the_patience(tracker: Tracker, alignment: usize)
    ensures
        ({
            let seam = tracker.under_suspicion();
            let lost = seam.verdict(alignment, CycleOutcome::Unconfident);
            &&& seam.suspect
            &&& lost == TrackVerdict::Hold
            &&& tracker.suspect && tracker.unconfident_cycles + 1 >= SUSPECT_UNCONFIDENT_CYCLES
                <==> tracker.verdict(alignment, CycleOutcome::Unconfident)
                == TrackVerdict::Reacquire(ReacquireTrigger::Discontinuity)
            &&& !tracker.suspect && tracker.unconfident_cycles + 1 >= UNCONFIDENT_CYCLES
                <==> tracker.verdict(alignment, CycleOutcome::Unconfident)
                == TrackVerdict::Reacquire(ReacquireTrigger::ConfidenceLost)
        }),
        forall|outcome: CycleOutcome|
            reconfirms(tracker, alignment, outcome) ==> !(#[trigger] tracker.after(
                alignment,
                outcome,
            )).suspect,
{
}

} // verus!
