//! The tracker's promises: when a locked delay is held, moved or given up.

use vstd::prelude::*;

use crate::delay::ReacquireTrigger;
use crate::track::{CycleOutcome, TrackVerdict, Tracker};

verus! {

/// Whether a duration of `samples` is longer than `ms` milliseconds at `rate`.
pub open spec fn longer_than(samples: int, ms: int, rate: int) -> bool {
    1000 * samples > ms * rate
}

/// The distance between two delays.
pub open spec fn gap(a: int, b: int) -> int {
    if a >= b {
        a - b
    } else {
        b - a
    }
}

/// Whether a tracker was made for a rate: every tolerance is the one a lock promoted at
/// that rate gets.
pub open spec fn made_for(tracker: Tracker, rate: u32) -> bool {
    let fresh = Tracker::fresh(rate);
    &&& tracker.late_band == fresh.late_band
    &&& tracker.early_band == fresh.early_band
    &&& tracker.move_agree == fresh.move_agree
    &&& tracker.jump_apart == fresh.jump_apart
    &&& tracker.late_lead == fresh.late_lead
}

/// Whether an estimate calls for a move: it sits more than 4 ms earlier than the
/// alignment, or more than 48 ms later.
pub open spec fn calls_for_a_move(alignment: int, delay: int, rate: int) -> bool {
    longer_than(alignment - delay, 4, rate) || longer_than(delay - alignment, 48, rate)
}

/// The tolerances of a tracker made for a rate, in milliseconds.
pub proof fn lemma_the_tolerances_in_milliseconds(tracker: Tracker, rate: u32, samples: int)
    requires
        8000 <= rate <= 48000,
        made_for(tracker, rate),
    ensures
        samples > tracker.late_band <==> longer_than(samples, 4, rate as int),
        samples > tracker.early_band <==> longer_than(samples, 48, rate as int),
        samples > tracker.move_agree <==> longer_than(samples, 24, rate as int),
        samples > tracker.jump_apart <==> longer_than(samples, 100, rate as int),
        samples > tracker.late_lead <==> longer_than(samples, 8, rate as int),
{
}

/// The alignment moves exactly when two interior estimates in a row call for it and
/// agree: the estimate calls for a move, one is awaiting confirmation, and the two lie
/// within 24 ms of each other, whether or not the lock is under suspicion. It lands on
/// the confirming estimate when that is later, and 8 ms before it when it is earlier.
pub proof fn lemma_a_move_is_two_estimates_that_agree(
    tracker: Tracker,
    rate: u32,
    alignment: usize,
    delay: usize,
)
    requires
        8000 <= rate <= 48000,
        made_for(tracker, rate),
    ensures
        ({
            let verdict = tracker.verdict(
                alignment,
                CycleOutcome::Candidate { delay, interior: true },
            );
            &&& verdict is Move <==> calls_for_a_move(alignment as int, delay as int, rate as int)
                && (tracker.pending_move matches Some(pending) && !longer_than(
                gap(delay as int, pending as int),
                24,
                rate as int,
            ))
            &&& verdict matches TrackVerdict::Move(to) ==> {
                &&& delay >= alignment ==> to == delay
                &&& delay < alignment ==> to <= delay && !longer_than(delay - to, 8, rate as int)
                &&& delay < alignment && to > 0 ==> longer_than(delay - to + 1, 8, rate as int)
            }
        }),
{
    lemma_the_tolerances_in_milliseconds(tracker, rate, alignment - delay);
    lemma_the_tolerances_in_milliseconds(tracker, rate, delay - alignment);
    if tracker.pending_move is Some {
        lemma_the_tolerances_in_milliseconds(
            tracker,
            rate,
            gap(delay as int, tracker.pending_move->0 as int),
        );
    }
    lemma_the_tolerances_in_milliseconds(tracker, rate, delay as int);
    lemma_the_tolerances_in_milliseconds(tracker, rate, tracker.late_lead as int);
    lemma_the_tolerances_in_milliseconds(tracker, rate, tracker.late_lead + 1);
}

/// Nothing but an interior estimate ever moves the alignment.
pub proof fn lemma_no_other_cycle_moves(tracker: Tracker, alignment: usize, outcome: CycleOutcome)
    requires
        !(outcome matches CycleOutcome::Candidate { delay: _, interior } && interior),
    ensures
        !(tracker.verdict(alignment, outcome) is Move),
{
}

/// Two equal estimates in a row settle the matter: from any state, after an interior
/// estimate was judged and did not move the alignment, the same estimate again moves
/// it when it calls for a move, and holds it otherwise. It never loses the lock.
pub proof fn lemma_a_repeated_estimate_is_followed(
    tracker: Tracker,
    rate: u32,
    alignment: usize,
    delay: usize,
)
    requires
        8000 <= rate <= 48000,
        made_for(tracker, rate),
        !(tracker.verdict(alignment, CycleOutcome::Candidate { delay, interior: true }) is Move),
    ensures
        ({
            let cycle = CycleOutcome::Candidate { delay, interior: true };
            let again = tracker.after(alignment, cycle).verdict(alignment, cycle);
            if calls_for_a_move(alignment as int, delay as int, rate as int) {
                again is Move
            } else {
                again == TrackVerdict::Hold
            }
        }),
{
    lemma_the_tolerances_in_milliseconds(tracker, rate, alignment - delay);
    lemma_the_tolerances_in_milliseconds(tracker, rate, delay - alignment);
}

/// The tracker after `n` equal interior estimates.
pub open spec fn after_repeats(tracker: Tracker, alignment: usize, delay: usize, n: nat) -> Tracker
    decreases n,
{
    if n == 0 {
        tracker
    } else {
        after_repeats(tracker, alignment, delay, (n - 1) as nat).after(
            alignment,
            CycleOutcome::Candidate { delay, interior: true },
        )
    }
}

/// A run of equal interior estimates never ends in a lost lock: from any state, and
/// however long the run, no repeat of the first estimate declares one.
pub proof fn lemma_equal_estimates_never_contradict(
    tracker: Tracker,
    alignment: usize,
    delay: usize,
    n: nat,
)
    requires
        n >= 1,
    ensures
        ({
            let cycle = CycleOutcome::Candidate { delay, interior: true };
            let state = after_repeats(tracker, alignment, delay, n);
            &&& !(state.verdict(alignment, cycle) is Reacquire)
            &&& state.prev_candidate == Some(delay)
            &&& state.edge_cycles == 0
            &&& state.unconfident_cycles == 0
            &&& state.pending_move is Some ==> state.pending_move == Some(delay)
        }),
    decreases n,
{
    if n > 1 {
        lemma_equal_estimates_never_contradict(tracker, alignment, delay, (n - 1) as nat);
    }
}

/// What loses a lock, and nothing else does: the eighth unconfident cycle in a row, or
/// the fourth under suspicion; the third edge-pinned one in a row; and the fourth
/// interior estimate in a row that contradicts, by jumping more than 100 ms from the
/// one before it, or by calling for a move that does not confirm the one awaiting
/// confirmation.
pub proof fn lemma_what_loses_a_lock(
    tracker: Tracker,
    rate: u32,
    alignment: usize,
    outcome: CycleOutcome,
)
    requires
        8000 <= rate <= 48000,
        made_for(tracker, rate),
    ensures
        ({
            let verdict = tracker.verdict(alignment, outcome);
            match outcome {
                CycleOutcome::Unconfident => verdict == (if tracker.suspect
                    && tracker.unconfident_cycles >= 3 {
                    TrackVerdict::Reacquire(ReacquireTrigger::Discontinuity)
                } else if !tracker.suspect && tracker.unconfident_cycles >= 7 {
                    TrackVerdict::Reacquire(ReacquireTrigger::ConfidenceLost)
                } else {
                    TrackVerdict::Hold
                }),
                CycleOutcome::Candidate { delay: _, interior: false } => verdict == (
                if tracker.edge_cycles >= 2 {
                    TrackVerdict::Reacquire(ReacquireTrigger::TrackingEdge)
                } else {
                    TrackVerdict::Hold
                }),
                CycleOutcome::Candidate { delay, interior: true } => !(verdict is Move)
                    ==> verdict == (if tracker.jump_cycles >= 3 && contradicts_itself(
                    tracker,
                    rate,
                    alignment,
                    delay,
                ) {
                    TrackVerdict::Reacquire(ReacquireTrigger::EstimatorJumping)
                } else {
                    TrackVerdict::Hold
                }),
            }
        }),
{
    if let CycleOutcome::Candidate { delay, interior: true } = outcome {
        lemma_the_tolerances_in_milliseconds(tracker, rate, alignment - delay);
        lemma_the_tolerances_in_milliseconds(tracker, rate, delay - alignment);
        if tracker.prev_candidate is Some {
            lemma_the_tolerances_in_milliseconds(
                tracker,
                rate,
                gap(delay as int, tracker.prev_candidate->0 as int),
            );
        }
    }
}

/// Whether an interior estimate that moves nothing contradicts what stands: it jumped
/// more than 100 ms from the one before it, or it calls for a move while another is
/// awaiting confirmation.
pub open spec fn contradicts_itself(
    tracker: Tracker,
    rate: u32,
    alignment: usize,
    delay: usize,
) -> bool {
    ||| tracker.prev_candidate matches Some(prev) && longer_than(
        gap(delay as int, prev as int),
        100,
        rate as int,
    )
    ||| calls_for_a_move(alignment as int, delay as int, rate as int)
        && tracker.pending_move is Some
}

/// One more than `count`, unless it stands at the top of its range.
pub open spec fn one_more(count: u32) -> int {
    if count == 0xffff_ffff {
        count as int
    } else {
        count + 1
    }
}

/// What a cycle leaves behind, whatever it found: the tolerances stand; each run counts
/// its own kind of cycle in a row, and an interior estimate ends the other two; the
/// estimate is remembered for the next comparison and awaits confirmation exactly when
/// it calls for a move that was not made; and suspicion is lifted exactly by a move or
/// by an estimate that calls for none.
pub proof fn lemma_what_a_cycle_leaves(
    tracker: Tracker,
    rate: u32,
    alignment: usize,
    outcome: CycleOutcome,
)
    requires
        8000 <= rate <= 48000,
        made_for(tracker, rate),
    ensures
        ({
            let after = tracker.after(alignment, outcome);
            let moved = tracker.verdict(alignment, outcome) is Move;
            &&& made_for(after, rate)
            &&& match outcome {
                CycleOutcome::Unconfident => {
                    &&& after.unconfident_cycles == one_more(tracker.unconfident_cycles)
                    &&& after.edge_cycles == tracker.edge_cycles
                    &&& after.jump_cycles == tracker.jump_cycles
                    &&& after.pending_move == tracker.pending_move
                    &&& after.prev_candidate == tracker.prev_candidate
                    &&& after.suspect == tracker.suspect
                },
                CycleOutcome::Candidate { delay: _, interior: false } => {
                    &&& after.unconfident_cycles == 0
                    &&& after.edge_cycles == one_more(tracker.edge_cycles)
                    &&& after.jump_cycles == tracker.jump_cycles
                    &&& after.pending_move is None
                    &&& after.prev_candidate is None
                    &&& after.suspect == tracker.suspect
                },
                CycleOutcome::Candidate { delay, interior: true } => {
                    let wants = calls_for_a_move(alignment as int, delay as int, rate as int);
                    &&& after.unconfident_cycles == 0
                    &&& after.edge_cycles == 0
                    &&& after.prev_candidate == Some(delay)
                    &&& after.pending_move == (if wants && !moved {
                        Some(delay)
                    } else {
                        None
                    })
                    &&& after.suspect == (tracker.suspect && wants && !moved)
                    &&& after.jump_cycles == (if !moved && contradicts_itself(
                        tracker,
                        rate,
                        alignment,
                        delay,
                    ) {
                        one_more(tracker.jump_cycles)
                    } else {
                        0
                    })
                },
            }
        }),
{
    if let CycleOutcome::Candidate { delay, interior: true } = outcome {
        lemma_the_tolerances_in_milliseconds(tracker, rate, alignment - delay);
        lemma_the_tolerances_in_milliseconds(tracker, rate, delay - alignment);
        if tracker.prev_candidate is Some {
            lemma_the_tolerances_in_milliseconds(
                tracker,
                rate,
                gap(delay as int, tracker.prev_candidate->0 as int),
            );
        }
    }
}

/// The tracker after `n` unconfident cycles.
pub open spec fn after_unconfident(tracker: Tracker, alignment: usize, n: nat) -> Tracker
    decreases n,
{
    if n == 0 {
        tracker
    } else {
        after_unconfident(tracker, alignment, (n - 1) as nat).after(
            alignment,
            CycleOutcome::Unconfident,
        )
    }
}

/// A lock outlasts exactly seven unconfident cycles in a row, and exactly three of them
/// right after a seam: the cycle after those loses it, and none before does.
pub proof fn lemma_patience_is_eight_cycles_and_four_after_a_seam(
    tracker: Tracker,
    alignment: usize,
    n: nat,
)
    requires
        tracker.unconfident_cycles == 0,
        n <= 7,
    ensures
        ({
            let state = after_unconfident(tracker, alignment, n);
            let seam = after_unconfident(tracker.under_suspicion(), alignment, n);
            let verdict = state.verdict(alignment, CycleOutcome::Unconfident);
            &&& state.unconfident_cycles == n && state.suspect == tracker.suspect
            &&& seam.unconfident_cycles == n && seam.suspect
            &&& !tracker.suspect ==> (verdict is Reacquire <==> n == 7)
            &&& seam.verdict(alignment, CycleOutcome::Unconfident) is Reacquire <==> n >= 3
        }),
    decreases n,
{
    if n > 0 {
        lemma_patience_is_eight_cycles_and_four_after_a_seam(
            tracker,
            alignment,
            (n - 1) as nat,
        );
    }
}

/// What a seam leaves of the tracker: a suspicion, the tolerances, and no evidence from
/// before it.
pub proof fn lemma_a_seam_leaves_only_suspicion(tracker: Tracker)
    ensures
        ({
            let after = tracker.under_suspicion();
            &&& after.suspect
            &&& after.pending_move is None
            &&& after.prev_candidate is None
            &&& after.edge_cycles == 0
            &&& after.jump_cycles == 0
            &&& after.unconfident_cycles == 0
            &&& after.late_band == tracker.late_band
            &&& after.early_band == tracker.early_band
            &&& after.move_agree == tracker.move_agree
            &&& after.jump_apart == tracker.jump_apart
            &&& after.late_lead == tracker.late_lead
        }),
{
}

/// A tracker is at rest exactly when it has no unfinished business.
pub proof fn lemma_what_rest_is(tracker: Tracker)
    ensures
        tracker.at_rest() <==> (tracker.pending_move is None && tracker.edge_cycles == 0
            && tracker.jump_cycles == 0 && tracker.unconfident_cycles == 0 && !tracker.suspect),
{
}

/// A new lock's tracker has seen nothing.
pub proof fn lemma_a_new_tracker_is_at_rest(rate: u32)
    ensures
        ({
            let fresh = Tracker::fresh(rate);
            &&& fresh.pending_move is None
            &&& fresh.prev_candidate is None
            &&& fresh.edge_cycles == 0
            &&& fresh.jump_cycles == 0
            &&& fresh.unconfident_cycles == 0
            &&& !fresh.suspect
        }),
{
}

} // verus!
