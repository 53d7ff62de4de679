//! The local tracker: dead bands, confirmation, and bounded escalation.

use decibri_aec::track::{
    CycleOutcome, TrackVerdict, Tracker, EDGE_CYCLES, JUMP_APART_MS, JUMP_CYCLES, MOVE_AGREE_MS,
    MOVE_EARLY_MS, MOVE_LATE_LEAD_MS, SUSPECT_UNCONFIDENT_CYCLES, UNCONFIDENT_CYCLES,
};
use decibri_aec::ReacquireTrigger;

const RATE: u32 = 16000;

fn per_ms(ms: usize) -> usize {
    (ms * RATE as usize) / 1000
}

fn interior(delay: usize) -> CycleOutcome {
    CycleOutcome::Candidate {
        delay,
        interior: true,
    }
}

fn edge(delay: usize) -> CycleOutcome {
    CycleOutcome::Candidate {
        delay,
        interior: false,
    }
}

/// Estimates inside the dead bands never move the alignment, however many
/// arrive: a stable lock is held, not chased.
#[test]
fn estimates_inside_the_dead_bands_hold() {
    let mut tracker = Tracker::new(RATE);
    let alignment = per_ms(100);
    for wobble in [0i64, 30, -30, 60, 0, -60, 700, 0] {
        let delay = (alignment as i64 + wobble) as usize;
        assert_eq!(
            tracker.on_cycle(alignment, interior(delay)),
            TrackVerdict::Hold
        );
    }
}

/// A late alignment (estimate earlier than it) moves after exactly two
/// agreeing cycles, and the move lands a lead earlier than the estimate.
#[test]
fn a_late_alignment_moves_on_the_confirming_cycle() {
    let mut tracker = Tracker::new(RATE);
    let alignment = per_ms(100);
    let moved = alignment - per_ms(10);
    assert_eq!(
        tracker.on_cycle(alignment, interior(moved)),
        TrackVerdict::Hold
    );
    assert_eq!(
        tracker.on_cycle(alignment, interior(moved + 8)),
        TrackVerdict::Move(moved + 8 - per_ms(MOVE_LATE_LEAD_MS as usize))
    );
}

/// A deepening delay moves only past the wide early band.
#[test]
fn a_deepening_delay_moves_only_past_the_early_band() {
    let mut tracker = Tracker::new(RATE);
    let alignment = per_ms(100);
    let inside = alignment + per_ms(MOVE_EARLY_MS as usize) - 8;
    assert_eq!(
        tracker.on_cycle(alignment, interior(inside)),
        TrackVerdict::Hold
    );
    assert_eq!(
        tracker.on_cycle(alignment, interior(inside)),
        TrackVerdict::Hold
    );
    let beyond = alignment + per_ms(MOVE_EARLY_MS as usize + 20);
    assert_eq!(
        tracker.on_cycle(alignment, interior(beyond)),
        TrackVerdict::Hold
    );
    assert_eq!(
        tracker.on_cycle(alignment, interior(beyond)),
        TrackVerdict::Move(beyond)
    );
}

/// Two alternating unrelated peaks can never confirm a move: the pending
/// estimate is replaced each cycle and the jump counter rises instead,
/// ending in reacquisition rather than oscillation. The tracker is done
/// once it fires; the acquirer discards it there.
#[test]
fn alternating_peaks_reacquire_instead_of_oscillating() {
    let mut tracker = Tracker::new(RATE);
    let alignment = per_ms(100);
    let a = per_ms(220);
    let b = per_ms(60);
    let mut fired = None;
    for i in 0..8 {
        let delay = if i % 2 == 0 { a } else { b };
        match tracker.on_cycle(alignment, interior(delay)) {
            TrackVerdict::Hold => {}
            TrackVerdict::Move(to) => {
                panic!("an alternating pair must never move the alignment (to {to})")
            }
            TrackVerdict::Reacquire(trigger) => {
                fired = Some(trigger);
                break;
            }
        }
    }
    assert_eq!(
        fired,
        Some(ReacquireTrigger::EstimatorJumping),
        "sustained jumping must end in reacquisition"
    );
}

/// Two alternating interior peaks that sit closer together than the jump
/// distance but further apart than the confirmation tolerance. Neither peak
/// can confirm the other, so no move ever lands, and the separation is
/// small enough that the jump test calls them the same delay, so no counter
/// rises either. The escalation must be bounded.
///
/// The separation here is strictly inside the band between
/// [`MOVE_AGREE_MS`] and [`JUMP_APART_MS`] that
/// `alternating_peaks_reacquire_instead_of_oscillating` leaves uncovered.
#[test]
fn alternating_interior_peaks_inside_the_jump_distance_reacquire() {
    let mut tracker = Tracker::new(RATE);
    let alignment = per_ms(200);
    let a = per_ms(160);
    let b = per_ms(120);
    let apart = (a as i64 - b as i64).abs();
    assert!(
        apart > per_ms(MOVE_AGREE_MS as usize) as i64 && apart <= per_ms(JUMP_APART_MS as usize) as i64,
        "the reproduction must sit inside the band this test exists to \
         cover: {apart} samples apart"
    );

    let mut fired = None;
    let mut cycles: u32 = 0;
    for i in 0..1_000 {
        let delay = if i % 2 == 0 { a } else { b };
        cycles += 1;
        match tracker.on_cycle(alignment, interior(delay)) {
            TrackVerdict::Hold => {}
            TrackVerdict::Move(to) => {
                panic!("two peaks {apart} samples apart must never confirm a move (to {to})")
            }
            TrackVerdict::Reacquire(trigger) => {
                fired = Some(trigger);
                break;
            }
        }
    }
    assert_eq!(
        fired,
        Some(ReacquireTrigger::EstimatorJumping),
        "an estimator that will not agree with itself must end in \
         reacquisition, not hold the alignment forever"
    );
    assert_eq!(
        cycles,
        JUMP_CYCLES + 1,
        "the bound is one cycle to bank the first estimate plus one per \
         contradiction"
    );
}

/// The contradiction counter must not fire on a lock that is merely being
/// held. A stable delay re-confirms the alignment every cycle, and
/// re-confirmation clears the contradiction count, so an arbitrarily long
/// hold never escalates however much the estimator jitters inside the dead
/// bands.
#[test]
fn a_stable_lock_never_escalates_however_long_it_is_held() {
    let mut tracker = Tracker::new(RATE);
    let alignment = per_ms(100);
    // All inside the dead bands: 12.5 ms early at the widest, 3 ms late.
    let jitter = [0i64, 60, -40, 120, -30, 200, 0, -50];
    for cycle in 0..1_000 {
        let delay = (alignment as i64 + jitter[cycle % jitter.len()]) as usize;
        assert_eq!(
            tracker.on_cycle(alignment, interior(delay)),
            TrackVerdict::Hold,
            "a stable lock must hold at cycle {cycle}"
        );
    }
    assert!(
        tracker.quiescent(),
        "a lock that only ever held banks no partial evidence"
    );
}

/// A contradiction run that RESOLVES still moves. An estimator that
/// dithers between two delays and then settles on one confirms the move
/// on the settling pair, and the count it banked while dithering is
/// cleared rather than carried forward into the next run.
#[test]
fn a_resolved_contradiction_run_confirms_the_move_and_clears_the_count() {
    let mut tracker = Tracker::new(RATE);
    let alignment = per_ms(200);
    let a = per_ms(160);
    let b = per_ms(120);

    assert_eq!(tracker.on_cycle(alignment, interior(a)), TrackVerdict::Hold);
    assert_eq!(tracker.on_cycle(alignment, interior(b)), TrackVerdict::Hold);
    assert_eq!(tracker.on_cycle(alignment, interior(a)), TrackVerdict::Hold);
    assert_eq!(
        tracker.jump_cycles(),
        2,
        "two replaced estimates are two contradictions"
    );

    assert_eq!(
        tracker.on_cycle(alignment, interior(a)),
        TrackVerdict::Move(a - per_ms(MOVE_LATE_LEAD_MS as usize)),
        "an estimator that settles must still be followed"
    );
    assert_eq!(
        tracker.jump_cycles(),
        0,
        "a confirmed move is the estimator agreeing with itself, which is \
         the opposite of what the counter measures"
    );
}

/// Edge-pinned confident peaks reacquire after the configured run, and an
/// interior peak in between clears the run.
#[test]
fn edge_pinned_cycles_reacquire_and_interior_clears_them() {
    let mut tracker = Tracker::new(RATE);
    let alignment = per_ms(100);
    assert_eq!(
        tracker.on_cycle(alignment, edge(per_ms(240))),
        TrackVerdict::Hold
    );
    assert_eq!(
        tracker.on_cycle(alignment, interior(alignment)),
        TrackVerdict::Hold
    );
    for _ in 0..EDGE_CYCLES - 1 {
        assert_eq!(
            tracker.on_cycle(alignment, edge(per_ms(240))),
            TrackVerdict::Hold
        );
    }
    assert_eq!(
        tracker.on_cycle(alignment, edge(per_ms(240))),
        TrackVerdict::Reacquire(ReacquireTrigger::TrackingEdge)
    );
}

/// Sustained unconfident cycles reacquire, and a single confident cycle
/// anywhere in the run restarts the count.
#[test]
fn sustained_unconfidence_reacquires_and_confidence_restarts_the_count() {
    let mut tracker = Tracker::new(RATE);
    let alignment = per_ms(100);
    for _ in 0..UNCONFIDENT_CYCLES - 1 {
        assert_eq!(
            tracker.on_cycle(alignment, CycleOutcome::Unconfident),
            TrackVerdict::Hold
        );
    }
    assert_eq!(
        tracker.on_cycle(alignment, interior(alignment)),
        TrackVerdict::Hold
    );
    for _ in 0..UNCONFIDENT_CYCLES - 1 {
        assert_eq!(
            tracker.on_cycle(alignment, CycleOutcome::Unconfident),
            TrackVerdict::Hold
        );
    }
    assert_eq!(
        tracker.on_cycle(alignment, CycleOutcome::Unconfident),
        TrackVerdict::Reacquire(ReacquireTrigger::ConfidenceLost)
    );
}

/// After a discontinuity the lock is suspect: the unconfident threshold
/// halves and the trigger names the discontinuity, while an in-band
/// confident cycle clears the suspicion entirely.
#[test]
fn a_discontinuity_tightens_the_leash_until_reconfirmed() {
    let mut tracker = Tracker::new(RATE);
    let alignment = per_ms(100);
    tracker.on_discontinuity();
    assert!(tracker.suspect());
    for _ in 0..SUSPECT_UNCONFIDENT_CYCLES - 1 {
        assert_eq!(
            tracker.on_cycle(alignment, CycleOutcome::Unconfident),
            TrackVerdict::Hold
        );
    }
    assert_eq!(
        tracker.on_cycle(alignment, CycleOutcome::Unconfident),
        TrackVerdict::Reacquire(ReacquireTrigger::Discontinuity)
    );

    let mut tracker = Tracker::new(RATE);
    tracker.on_discontinuity();
    assert_eq!(
        tracker.on_cycle(alignment, interior(alignment)),
        TrackVerdict::Hold
    );
    assert!(!tracker.suspect(), "re-confirmation must lift suspicion");
    for _ in 0..UNCONFIDENT_CYCLES - 1 {
        assert_eq!(
            tracker.on_cycle(alignment, CycleOutcome::Unconfident),
            TrackVerdict::Hold
        );
    }
    assert_eq!(
        tracker.on_cycle(alignment, CycleOutcome::Unconfident),
        TrackVerdict::Reacquire(ReacquireTrigger::ConfidenceLost),
        "a cleared suspicion must restore the standing threshold"
    );
}

/// A drifting delay is followed: consecutive estimates that agree within
/// the confirmation tolerance keep stepping the alignment even though the
/// delay never stands still.
#[test]
fn a_drifting_delay_is_followed_in_steps() {
    let mut tracker = Tracker::new(RATE);
    let mut alignment = per_ms(100);
    // The delay walks earlier by 8 ms per cycle.
    let mut truth = alignment as i64;
    let mut moves = 0;
    for _ in 0..12 {
        truth -= per_ms(8) as i64;
        let verdict = tracker.on_cycle(alignment, interior(truth as usize));
        if let TrackVerdict::Move(to) = verdict {
            alignment = to;
            moves += 1;
        }
    }
    assert!(moves >= 4, "a steady drift must keep confirming: {moves}");
    let lag = alignment as i64 - truth;
    assert!(
        lag <= per_ms(24) as i64,
        "the alignment must stay within one confirmation interval of a \
         drifting delay, lagged {lag} samples"
    );
}

/// A cycle that re-confirms the alignment clears the contradiction run even when
/// an edge-pinned cycle stood between it and the contradictions.
#[test]
fn re_confirmation_clears_the_run_after_an_edge_cycle() {
    let mut tracker = Tracker::new(RATE);
    for delay in [2560, 1920, 2560] {
        assert_eq!(tracker.on_cycle(3200, interior(delay)), TrackVerdict::Hold);
    }
    assert_eq!(tracker.jump_cycles(), 2);
    assert_eq!(tracker.on_cycle(3200, edge(2560)), TrackVerdict::Hold);
    assert_eq!(tracker.on_cycle(3200, interior(3200)), TrackVerdict::Hold);
    assert_eq!(tracker.jump_cycles(), 0);
    assert!(tracker.quiescent());
}
