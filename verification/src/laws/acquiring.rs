//! The acquisition's promises: when a delay is trusted, on what ground and where the
//! search then looks, when a lock is followed or left, and how long a search that found
//! nothing waits before it tries again.

use vstd::prelude::*;

use crate::acquire::{AcquireAction, DelayAcquirer, ObserveOutcome};
use crate::coarse::CoarseRegion;
use crate::delay::{DelayLockSource, DelayStatus, FineLock, FineObservation, ReacquireTrigger};
use crate::laws::losses::greater;
use crate::laws::tracking::{gap, longer_than, one_more};
use crate::sample::Measure;
use crate::track::{CycleOutcome, TrackVerdict, Tracker};

verus! {

/// The tolerances of an acquisition, in milliseconds at its rate: 8 ms clear of either
/// end, agreement from 128 ms earlier to 32 ms later than a region, 64 ms of backoff,
/// 30 ms to find a region again, and 4 ms to count as settled.
pub proof fn lemma_the_acquisition_tolerances_in_milliseconds(
    acquirer: DelayAcquirer,
    rate: u32,
    fine_ms: u16,
    ceiling_ms: u16,
    samples: int,
)
    requires
        8000 <= rate <= 48000,
        acquirer.sized(rate, fine_ms, ceiling_ms),
    ensures
        samples > acquirer.edge_guard <==> longer_than(samples, 8, rate as int),
        samples > acquirer.agree_late <==> longer_than(samples, 32, rate as int),
        samples > acquirer.agree_early <==> longer_than(samples, 128, rate as int),
        samples > acquirer.adopt_backoff <==> longer_than(samples, 64, rate as int),
        samples > acquirer.reverify_agree <==> longer_than(samples, 30, rate as int),
        samples > acquirer.track_stable <==> longer_than(samples, 4, rate as int),
        fine_ms >= 1 ==> (samples > acquirer.fine_span <==> longer_than(
            samples,
            fine_ms as int,
            rate as int,
        )),
        acquirer.fine_span == acquirer.fine.max_delay,
        acquirer.sample_rate == rate,
{
    assert(fine_ms >= 1 ==> fine_ms * rate >= 8000) by (nonlinear_arith)
        requires
            rate >= 8000,
    ;
}

/// Whether a fine value and a coarse one describe the same delay: the fine one no more
/// than 32 ms later and no more than 128 ms earlier.
pub open spec fn same_delay(fine: int, coarse: int, rate: int) -> bool {
    !longer_than(fine - coarse, 32, rate) && !longer_than(coarse - fine, 128, rate)
}

/// Whether a peak stands at least 8 ms clear of both ends of a range of `span` samples.
pub open spec fn clear_of_both_ends(peak_at: int, span: int, rate: int) -> bool {
    longer_than(peak_at + 1, 8, rate) && longer_than(span - peak_at + 1, 8, rate)
}

/// Where a window of `span` samples starts that has `delay` at its centre, no earlier
/// than zero.
pub open spec fn centred(delay: int, span: int) -> int {
    greater(delay - span / 2, 0)
}

/// The deepest delay the coarse scan can name, in samples.
pub open spec fn deepest(acquirer: DelayAcquirer) -> int {
    acquirer.coarse.span * acquirer.coarse.decimation
}

/// The scored frames since the global scan gave up, this frame included.
pub open spec fn waited(acquirer: DelayAcquirer, scored: bool) -> int {
    if scored {
        acquirer.scored_since_exhausted + 1
    } else {
        acquirer.scored_since_exhausted as int
    }
}

/// Whether the wait of a scan that gave up is over: sixteen scored frames, times the
/// back-off.
pub open spec fn wait_over(acquirer: DelayAcquirer, scored: bool) -> bool {
    acquirer.coarse.exhausted && waited(acquirer, scored) >= 16 * acquirer.rearm_backoff
}

/// The region awaiting a second finding, which lapses on the sixteenth scored frame
/// after the scan gave up.
pub open spec fn awaited(acquirer: DelayAcquirer, scored: bool) -> Option<CoarseRegion> {
    if acquirer.coarse.exhausted && (waited(acquirer, scored) == 16 || wait_over(
        acquirer,
        scored,
    )) {
        None
    } else {
        acquirer.pending_region
    }
}

/// What a fine candidate is held against: the region that stands, or else the one
/// awaiting a second finding.
pub open spec fn witness(acquirer: DelayAcquirer, scored: bool) -> Option<CoarseRegion> {
    if acquirer.coarse.best is Some {
        acquirer.coarse.best
    } else {
        awaited(acquirer, scored)
    }
}

/// Whether the fine search is sent to the region that stands: it has not been sent this
/// round, and the region lies less than 8 ms inside the searched range or outside it, or
/// the candidate names another delay.
pub open spec fn sent_to_the_region(
    acquirer: DelayAcquirer,
    obs: FineObservation,
    rate: int,
) -> bool {
    let fresh_round = wait_over(acquirer, obs.scored);
    let origin = if fresh_round {
        0
    } else {
        acquirer.fine.search_origin as int
    };
    &&& fresh_round || (acquirer.state is Searching && acquirer.relocations == 0)
    &&& acquirer.coarse.best matches Some(region) && {
        ||| !longer_than(region.delay - origin + 1, 8, rate)
        ||| !longer_than(origin + acquirer.fine_span - region.delay + 1, 8, rate)
        ||| obs.candidate matches Some(lock) && !same_delay(
            lock.delay as int,
            region.delay as int,
            rate,
        )
    }
}

/// The ground on which a candidate is trusted as it is.
pub open spec fn trusted_on(
    acquirer: DelayAcquirer,
    obs: FineObservation,
    rate: int,
) -> Option<DelayLockSource> {
    match (obs.candidate, witness(acquirer, obs.scored)) {
        (None, _) => None,
        (Some(lock), Some(region)) => if same_delay(lock.delay as int, region.delay as int, rate) {
            Some(DelayLockSource::GlobalAgreement)
        } else {
            None
        },
        // Twenty, as a bit pattern.
        (Some(lock), None) => if clear_of_both_ends(
            lock.peak_at as int,
            acquirer.fine_span as int,
            rate,
        ) && (Measure { bits: 0x4034_0000_0000_0000 }).at_most(lock.ratio) {
            Some(DelayLockSource::LocalEvidence)
        } else {
            None
        },
    }
}

/// Whether an acquisition has just trusted `delay` on a ground: it is locked there, the
/// local search is centred on it, its tracker is a new one, and nothing is left of the
/// search that found it.
pub open spec fn newly_locked(
    before: DelayAcquirer,
    after: DelayAcquirer,
    delay: int,
    ground: DelayLockSource,
) -> bool {
    &&& after.locked is Some && after.locked->0 == delay
    &&& after.source == Some(ground)
    &&& after.status() == DelayStatus::Locked(ground)
    &&& !after.reacquiring
    &&& after.tracker == Some(Tracker::fresh(before.sample_rate))
    &&& after.cycle_scored == 0
    &&& after.cycle_candidate is None
    &&& after.pending_region is None
    &&& after.scored_since_exhausted == 0
    &&& after.rearm_backoff == 1
    &&& after.idle_samples == 0 && after.idle_depth == 0 && after.stable_cycles == 0
    &&& after.last_cycle_delay is None
    &&& after.fine.search_origin == (if delay <= deepest(before) {
        centred(delay, before.fine_span as int)
    } else {
        centred(deepest(before), before.fine_span as int)
    })
    &&& after.fine.frames == 0
    &&& after.tracking_moves == before.tracking_moves
    &&& after.reacquisitions == before.reacquisitions
    &&& after.regions_rejected == before.regions_rejected
}

/// What the search makes of a fine frame when no lock stands, in order: the fine search
/// is sent to a region it cannot see or does not agree with; or else the candidate is
/// trusted, where a region agrees with it, or with no region at all where it stands
/// clear of both ends at a confidence of twenty; or else a region found a second time
/// within 30 ms of the first is adopted, one coarse bin, sixteen samples and 64 ms
/// early; and no other frame locks anything.
#[verifier::rlimit(60)]
pub proof fn lemma_what_locks_a_search(
    before: DelayAcquirer,
    after: DelayAcquirer,
    obs: FineObservation,
    outcome: ObserveOutcome,
    rate: u32,
    fine_ms: u16,
    ceiling_ms: u16,
)
    requires
        8000 <= rate <= 48000,
        before.wf(),
        before.sized(rate, fine_ms, ceiling_ms),
        !(before.state is Locked),
        before.fits(obs),
        after.acted_from(before, obs, outcome),
    ensures
        ({
            let r = rate as int;
            let found = before.coarse.best;
            if sent_to_the_region(before, obs, r) {
                &&& outcome.action is None
                &&& outcome.rescan_pending <==> (obs.candidate matches Some(lock) && same_delay(
                    lock.delay as int,
                    found->0.delay as int,
                    r,
                ))
                &&& after.status() == (if before.reacquiring {
                    DelayStatus::Reacquiring
                } else {
                    DelayStatus::Relocated
                })
                &&& after.relocations == 1
                &&& after.frames_with_region == 0
                &&& after.fine.frames == 0
                &&& after.fine.search_origin == greater(
                    found->0.delay - (3 * before.fine_span) / 4,
                    0,
                )
                &&& after.locked == before.locked
                &&& after.pending_region == awaited(before, obs.scored)
                &&& after.regions_rejected == before.regions_rejected
                &&& !wait_over(before, obs.scored) ==> after == (DelayAcquirer {
                    fine: after.fine,
                    state: after.state,
                    relocations: 1,
                    frames_with_region: 0,
                    pending_region: after.pending_region,
                    scored_since_exhausted: after.scored_since_exhausted,
                    ..before
                })
            } else if trusted_on(before, obs, r) is Some {
                &&& !outcome.rescan_pending
                &&& outcome.action == Some(AcquireAction::Promote(obs.candidate->0.delay))
                &&& newly_locked(
                    before,
                    after,
                    obs.candidate->0.delay as int,
                    trusted_on(before, obs, r)->0,
                )
                &&& !wait_over(before, obs.scored) ==> after == (DelayAcquirer {
                    fine: after.fine,
                    frames_with_region: after.frames_with_region,
                    pending_region: None,
                    scored_since_exhausted: 0,
                    rearm_backoff: 1,
                    tracker: after.tracker,
                    cycle_scored: 0,
                    cycle_candidate: None,
                    stable_cycles: 0,
                    last_cycle_delay: None,
                    idle_depth: 0,
                    idle_samples: 0,
                    reacquiring: false,
                    locked: after.locked,
                    source: after.source,
                    state: after.state,
                    ..before
                })
            } else if found is Some && awaited(before, obs.scored) is Some && !longer_than(
                gap(found->0.delay as int, awaited(before, obs.scored)->0.delay as int),
                30,
                r,
            ) {
                let early = greater(
                    found->0.delay - before.coarse.decimation - 16 - before.adopt_backoff,
                    0,
                );
                &&& !outcome.rescan_pending
                &&& outcome.action == Some(AcquireAction::Promote(early as usize))
                &&& newly_locked(before, after, early, DelayLockSource::CoarseRegion)
            } else {
                &&& !outcome.rescan_pending
                &&& outcome.action is None
                &&& !(after.state is Locked)
                &&& after.locked == before.locked
                &&& after.source == before.source
                &&& after.reacquiring == before.reacquiring
            }
        }),
{
    let middle = choose|middle: DelayAcquirer| #[trigger]
        middle.retried_from(before.counted(), obs.scored) && after.laddered_from(
            middle,
            obs.candidate,
            before.coarse.best,
            outcome,
        );
    assert(middle.retried_from(before.counted(), obs.scored));
    lemma_the_retry(before, middle, obs.scored);
    lemma_the_ladders_conditions(before, middle, obs, rate, fine_ms, ceiling_ms);
}

/// The ladder's own conditions are the ones stated here.
#[verifier::rlimit(60)]
proof fn lemma_the_ladders_conditions(
    before: DelayAcquirer,
    middle: DelayAcquirer,
    obs: FineObservation,
    rate: u32,
    fine_ms: u16,
    ceiling_ms: u16,
)
    requires
        8000 <= rate <= 48000,
        before.wf(),
        before.sized(rate, fine_ms, ceiling_ms),
        before.fits(obs),
        !(before.state is Locked),
        middle.retried_from(before.counted(), obs.scored),
    ensures
        middle.relocates(obs.candidate, before.coarse.best) == sent_to_the_region(
            before,
            obs,
            rate as int,
        ),
        obs.candidate matches Some(lock) ==> {
            &&& middle.ground(lock, before.coarse.best) == trusted_on(before, obs, rate as int)
            &&& before.coarse.best matches Some(region) ==> middle.agree(lock.delay, region.delay)
                == same_delay(lock.delay as int, region.delay as int, rate as int)
        },
        before.coarse.best is Some && middle.pending_region is Some ==> middle.reconfirms(
            before.coarse.best->0,
        ) == !longer_than(
            gap(before.coarse.best->0.delay as int, middle.pending_region->0.delay as int),
            30,
            rate as int,
        ),
        before.coarse.best matches Some(region) ==> middle.coarse_alignment(region) == greater(
            region.delay - before.coarse.decimation - 16 - before.adopt_backoff,
            0,
        ),
        before.coarse.best matches Some(region) ==> middle.relocation_origin(region) == greater(
            region.delay - (3 * before.fine_span) / 4,
            0,
        ),
        forall|delay: usize| #[trigger]
            middle.origin_for(delay) == (if delay <= deepest(before) {
                centred(delay as int, before.fine_span as int)
            } else {
                centred(deepest(before), before.fine_span as int)
            }),
{
    lemma_the_retry(before, middle, obs.scored);
    lemma_tolerances_everywhere(before, rate, fine_ms, ceiling_ms);
    if before.coarse.best is Some {
        let region = before.coarse.best->0;
        assert(tolerances_hold(before, rate, region.delay - middle.fine.search_origin + 1));
        assert(tolerances_hold(
            before,
            rate,
            middle.fine.search_origin + before.fine_span - region.delay + 1,
        ));
        if obs.candidate is Some {
            assert(tolerances_hold(before, rate, obs.candidate->0.delay - region.delay));
            assert(tolerances_hold(before, rate, region.delay - obs.candidate->0.delay));
        }
        if middle.pending_region is Some {
            assert(tolerances_hold(
                before,
                rate,
                gap(region.delay as int, middle.pending_region->0.delay as int),
            ));
        }
    }
    if obs.candidate is Some {
        let lock = obs.candidate->0;
        assert(tolerances_hold(before, rate, lock.peak_at + 1));
        assert(tolerances_hold(before, rate, before.fine_span - lock.peak_at + 1));
        if middle.pending_region is Some {
            let region = middle.pending_region->0;
            assert(tolerances_hold(before, rate, lock.delay - region.delay));
            assert(tolerances_hold(before, rate, region.delay - lock.delay));
        }
    }
}

/// Each tolerance, held against one length.
spec fn tolerances_hold(acquirer: DelayAcquirer, rate: u32, samples: int) -> bool {
    &&& samples > acquirer.edge_guard <==> longer_than(samples, 8, rate as int)
    &&& samples > acquirer.agree_late <==> longer_than(samples, 32, rate as int)
    &&& samples > acquirer.agree_early <==> longer_than(samples, 128, rate as int)
    &&& samples > acquirer.reverify_agree <==> longer_than(samples, 30, rate as int)
    &&& samples > acquirer.track_stable <==> longer_than(samples, 4, rate as int)
}

proof fn lemma_tolerances_everywhere(
    acquirer: DelayAcquirer,
    rate: u32,
    fine_ms: u16,
    ceiling_ms: u16,
)
    requires
        8000 <= rate <= 48000,
        acquirer.sized(rate, fine_ms, ceiling_ms),
    ensures
        forall|samples: int| #[trigger] tolerances_hold(acquirer, rate, samples),
{
    assert forall|samples: int| #[trigger] tolerances_hold(acquirer, rate, samples) by {
        lemma_the_acquisition_tolerances_in_milliseconds(
            acquirer,
            rate,
            fine_ms,
            ceiling_ms,
            samples,
        );
    }
}

/// What the retry leaves for the ladder to read.
proof fn lemma_the_retry(before: DelayAcquirer, middle: DelayAcquirer, scored: bool)
    requires
        middle.retried_from(before.counted(), scored),
    ensures
        middle.pending_region == awaited(before, scored),
        wait_over(before, scored) ==> middle.state is Searching && middle.relocations == 0
            && middle.fine.search_origin == 0 && middle.frames_with_region == 0,
        !wait_over(before, scored) ==> middle.state == before.state && middle.relocations
            == before.relocations && middle.fine == before.fine && middle.coarse == before.coarse,
{
}

/// What the last resort does with a region that locks nothing. Without one awaited, it
/// waits out four frames with a region in sight and then has the region found again;
/// with one awaited and another found elsewhere, it refuses the first, counts it and
/// asks for the second to be found again, until eight have been refused. Then it stands
/// down: it asks for nothing more.
#[verifier::rlimit(60)]
pub proof fn lemma_what_the_last_resort_asks_for(
    before: DelayAcquirer,
    after: DelayAcquirer,
    obs: FineObservation,
    outcome: ObserveOutcome,
    rate: u32,
    fine_ms: u16,
    ceiling_ms: u16,
)
    requires
        8000 <= rate <= 48000,
        before.wf(),
        before.sized(rate, fine_ms, ceiling_ms),
        !(before.state is Locked),
        before.fits(obs),
        after.acted_from(before, obs, outcome),
        before.coarse.best is Some,
        !before.coarse.exhausted,
        before.frames_with_region < u32::MAX,
        outcome.action is None,
        !sent_to_the_region(before, obs, rate as int),
    ensures
        ({
            let found = before.coarse.best;
            let asks = if before.pending_region is Some {
                before.regions_rejected < 7
            } else {
                before.regions_rejected < 8 && before.frames_with_region >= 3
            };
            &&& after.regions_rejected == before.regions_rejected + (
            if before.pending_region is Some {
                1int
            } else {
                0
            })
            &&& asks ==> {
                &&& after.pending_region == found
                &&& searches_afresh(before, after)
            }
            &&& !asks ==> {
                &&& after.pending_region is None
                &&& after.coarse == before.coarse
            }
            &&& after.frames_with_region == (if before.pending_region is None && asks {
                0
            } else {
                before.frames_with_region + 1
            })
            &&& after == (DelayAcquirer {
                coarse: after.coarse,
                pending_region: after.pending_region,
                regions_rejected: after.regions_rejected,
                frames_with_region: after.frames_with_region,
                ..before
            })
        }),
{
    let middle = choose|middle: DelayAcquirer| #[trigger]
        middle.retried_from(before.counted(), obs.scored) && after.laddered_from(
            middle,
            obs.candidate,
            before.coarse.best,
            outcome,
        );
    assert(middle.retried_from(before.counted(), obs.scored));
    lemma_what_locks_a_search(before, after, obs, outcome, rate, fine_ms, ceiling_ms);
    lemma_tolerances_everywhere(before, rate, fine_ms, ceiling_ms);
    let region = before.coarse.best->0;
    assert(tolerances_hold(before, rate, region.delay - before.fine.search_origin + 1));
    assert(tolerances_hold(
        before,
        rate,
        before.fine.search_origin + before.fine_span - region.delay + 1,
    ));
    if obs.candidate is Some {
        assert(tolerances_hold(before, rate, obs.candidate->0.delay - region.delay));
        assert(tolerances_hold(before, rate, region.delay - obs.candidate->0.delay));
    }
}

/// Whether the global scan has started over: nothing found, scored or averaged, the near
/// frame under construction dropped, and the far history kept.
pub open spec fn searches_afresh(before: DelayAcquirer, after: DelayAcquirer) -> bool {
    &&& after.coarse.best is None
    &&& !after.coarse.exhausted
    &&& !after.coarse.beyond_ceiling
    &&& after.coarse.frames == 0
    &&& after.coarse.accumulated == 0
    &&& after.coarse.near_block@.len() == 0
    &&& after.coarse.last_corr.bits == 0
    &&& after.coarse.far_env == before.coarse.far_env
    &&& after.coarse.far_block == before.coarse.far_block
    &&& after.coarse.far_pushed == before.coarse.far_pushed
    &&& after.coarse.span == before.coarse.span
    &&& after.coarse.decimation == before.coarse.decimation
}

/// A scan that gave up waits sixteen scored frames, times a multiplier that starts at one
/// and doubles on every wait, up to 65536, and then starts over with a fresh round; a
/// frame that was not scored is no part of the wait, and a scan that has not given up
/// does not wait.
pub proof fn lemma_how_long_a_search_waits(
    before: DelayAcquirer,
    after: DelayAcquirer,
    obs: FineObservation,
    outcome: ObserveOutcome,
)
    requires
        before.wf(),
        !(before.state is Locked),
        outcome.action is None,
        before.coarse.best is None,
        before.coarse_rearms < u32::MAX,
        after.acted_from(before, obs, outcome),
    ensures
        ({
            let over = wait_over(before, obs.scored);
            &&& over ==> {
                &&& searches_afresh(before, after)
                &&& after.coarse_rearms == before.coarse_rearms + 1
                &&& after.scored_since_exhausted == 0
                &&& after.rearm_backoff == (if 2 * before.rearm_backoff <= 65536 {
                    2 * before.rearm_backoff
                } else {
                    65536
                })
                &&& after.relocations == 0
                &&& after.state is Searching
                &&& after.pending_region is None
                &&& after.frames_with_region == 0
                &&& after.fine.search_origin == 0
                &&& before.fine.search_origin == 0 ==> after.fine == before.fine
            }
            &&& !over ==> {
                &&& after.coarse == before.coarse
                &&& after.fine == before.fine
                &&& after.coarse_rearms == before.coarse_rearms
                &&& after.rearm_backoff == before.rearm_backoff
                &&& after.state == before.state
                &&& after.relocations == before.relocations
                &&& after.frames_with_region == before.frames_with_region
                &&& after.scored_since_exhausted == (if before.coarse.exhausted {
                    waited(before, obs.scored)
                } else {
                    before.scored_since_exhausted as int
                })
                &&& after.pending_region == awaited(before, obs.scored)
            }
            &&& !outcome.rescan_pending
            &&& after == (DelayAcquirer {
                coarse: after.coarse,
                fine: after.fine,
                coarse_rearms: after.coarse_rearms,
                scored_since_exhausted: after.scored_since_exhausted,
                rearm_backoff: after.rearm_backoff,
                relocations: after.relocations,
                frames_with_region: after.frames_with_region,
                pending_region: after.pending_region,
                state: after.state,
                ..before
            })
        }),
{
    let middle = choose|middle: DelayAcquirer| #[trigger]
        middle.retried_from(before.counted(), obs.scored) && after.laddered_from(
            middle,
            obs.candidate,
            before.coarse.best,
            outcome,
        );
    assert(middle.retried_from(before.counted(), obs.scored));
}

/// What a rescan locks: a candidate that stands clear of both ends of the new range and
/// that the standing region, or else the awaited one, agrees with; nothing else, and
/// then it changes nothing.
pub proof fn lemma_what_a_rescan_locks(
    before: DelayAcquirer,
    after: DelayAcquirer,
    obs: FineObservation,
    action: Option<AcquireAction>,
    rate: u32,
    fine_ms: u16,
    ceiling_ms: u16,
)
    requires
        8000 <= rate <= 48000,
        before.wf(),
        before.sized(rate, fine_ms, ceiling_ms),
        before.fits(obs),
        after.rescanned_from(before, obs, action),
    ensures
        ({
            let region = if before.coarse.best is Some {
                before.coarse.best
            } else {
                before.pending_region
            };
            let locks = obs.candidate is Some && region is Some && clear_of_both_ends(
                obs.candidate->0.peak_at as int,
                before.fine_span as int,
                rate as int,
            ) && same_delay(
                obs.candidate->0.delay as int,
                region->0.delay as int,
                rate as int,
            );
            &&& locks ==> action == Some(AcquireAction::Promote(obs.candidate->0.delay))
                && newly_locked(
                before,
                after,
                obs.candidate->0.delay as int,
                DelayLockSource::GlobalAgreement,
            )
            &&& !locks ==> action is None && after == before
        }),
{
    lemma_tolerances_everywhere(before, rate, fine_ms, ceiling_ms);
    if obs.candidate is Some {
        let lock = obs.candidate->0;
        assert(tolerances_hold(before, rate, lock.peak_at + 1));
        assert(tolerances_hold(before, rate, before.fine_span - lock.peak_at + 1));
        if before.coarse.best is Some {
            assert(tolerances_hold(before, rate, lock.delay - before.coarse.best->0.delay));
            assert(tolerances_hold(before, rate, before.coarse.best->0.delay - lock.delay));
        }
        if before.pending_region is Some {
            assert(tolerances_hold(before, rate, lock.delay - before.pending_region->0.delay));
            assert(tolerances_hold(before, rate, before.pending_region->0.delay - lock.delay));
        }
    }
}

/// What a tracking cycle of two scored frames concludes with: the later frame's
/// candidate, or else the earlier one's, interior exactly when its peak stands at least
/// 8 ms clear of both ends.
pub open spec fn concludes_with(
    acquirer: DelayAcquirer,
    obs: FineObservation,
    rate: int,
) -> CycleOutcome {
    let lock: Option<FineLock> = if obs.candidate is Some {
        obs.candidate
    } else {
        acquirer.cycle_candidate
    };
    match lock {
        Some(lock) => CycleOutcome::Candidate {
            delay: lock.delay,
            interior: clear_of_both_ends(lock.peak_at as int, acquirer.fine_span as int, rate),
        },
        None => CycleOutcome::Unconfident,
    }
}

/// A lock is judged on every second scored frame and on no other: the first of a pair is
/// only banked, and the second hands the tracker the pair's candidate and carries out
/// its verdict. A move asks for the new alignment and nothing else does; a lock that is
/// lost keeps its stale alignment on report while both searches start over.
#[verifier::rlimit(60)]
pub proof fn lemma_how_a_lock_is_followed(
    before: DelayAcquirer,
    after: DelayAcquirer,
    obs: FineObservation,
    outcome: ObserveOutcome,
    rate: u32,
    fine_ms: u16,
    ceiling_ms: u16,
)
    requires
        8000 <= rate <= 48000,
        before.wf(),
        before.sized(rate, fine_ms, ceiling_ms),
        before.state is Locked,
        before.fits(obs),
        before.tracking_moves < u32::MAX,
        before.reacquisitions < u32::MAX,
        after.acted_from(before, obs, outcome),
    ensures
        !outcome.rescan_pending,
        !obs.scored ==> after == before && outcome.action is None,
        obs.scored && before.cycle_scored == 0 ==> {
            &&& outcome.action is None
            &&& after.cycle_scored == 1
            &&& after.cycle_candidate == (if obs.candidate is Some {
                obs.candidate
            } else {
                before.cycle_candidate
            })
            &&& after == (DelayAcquirer {
                cycle_scored: after.cycle_scored,
                cycle_candidate: after.cycle_candidate,
                ..before
            })
        },
        obs.scored && before.cycle_scored != 0 ==> ({
            let alignment = before.locked->0;
            let cycle = concludes_with(before, obs, rate as int);
            let tracker = before.tracker->0;
            let verdict = tracker.verdict(alignment, cycle);
            let judged = tracker.after(alignment, cycle);
            &&& after.cycle_scored == 0
            &&& after.cycle_candidate is None
            &&& after.fine.frames == 0
            &&& after.contradiction_run_max == greater(
                before.contradiction_run_max as int,
                judged.jump_cycles as int,
            )
            &&& match verdict {
                TrackVerdict::Hold => {
                    &&& outcome.action is None
                    &&& after.status() == before.status()
                    &&& after.locked == before.locked
                    &&& after.tracker == Some(judged)
                    &&& after.fine.search_origin == before.fine.search_origin
                    &&& after.tracking_moves == before.tracking_moves
                    &&& after == (DelayAcquirer {
                        fine: after.fine,
                        cycle_scored: 0,
                        cycle_candidate: None,
                        tracker: after.tracker,
                        contradiction_run_max: after.contradiction_run_max,
                        stable_cycles: after.stable_cycles,
                        last_cycle_delay: after.last_cycle_delay,
                        idle_depth: after.idle_depth,
                        idle_samples: after.idle_samples,
                        ..before
                    })
                },
                TrackVerdict::Move(to) => {
                    &&& outcome.action == Some(AcquireAction::Track(to))
                    &&& after.status() == before.status()
                    &&& after.locked == Some(to)
                    &&& after.tracker == Some(judged)
                    &&& after.tracking_moves == before.tracking_moves + 1
                    &&& after == (DelayAcquirer {
                        fine: after.fine,
                        cycle_scored: 0,
                        cycle_candidate: None,
                        tracker: after.tracker,
                        contradiction_run_max: after.contradiction_run_max,
                        stable_cycles: 0,
                        last_cycle_delay: None,
                        idle_depth: 0,
                        idle_samples: 0,
                        locked: after.locked,
                        tracking_moves: after.tracking_moves,
                        ..before
                    })
                    &&& after.idle_samples == 0 && after.stable_cycles == 0
                    &&& after.idle_depth == 0 && after.last_cycle_delay is None
                },
                TrackVerdict::Reacquire(trigger) => {
                    &&& outcome.action is None
                    &&& given_up(before, after, trigger)
                },
            }
        }),
{
    lemma_tolerances_everywhere(before, rate, fine_ms, ceiling_ms);
    let lock: Option<FineLock> = if obs.candidate is Some {
        obs.candidate
    } else {
        before.cycle_candidate
    };
    if lock is Some {
        assert(tolerances_hold(before, rate, lock->0.peak_at + 1));
        assert(tolerances_hold(before, rate, before.fine_span - lock->0.peak_at + 1));
    }
}

/// Whether a lock was given up on a trigger: the stale alignment stays on report, the
/// reacquisition is counted with its trigger, both searches start over from the whole
/// range with a fresh round, and the budget of refused regions stands.
pub open spec fn given_up(
    before: DelayAcquirer,
    after: DelayAcquirer,
    trigger: ReacquireTrigger,
) -> bool {
    &&& after.status() == DelayStatus::Reacquiring
    &&& after.state is Searching
    &&& after.locked == before.locked
    &&& after.source == before.source
    &&& after.reacquisitions == one_more(before.reacquisitions)
    &&& after.last_trigger == Some(trigger)
    &&& after.tracker is None
    &&& searches_afresh(before, after)
    &&& after.fine.search_origin == 0
    &&& after.fine.frames == 0
    &&& after.fine.near_frame@.len() == 0
    &&& after.relocations == 0
    &&& after.frames_with_region == 0
    &&& after.pending_region is None
    &&& after.scored_since_exhausted == 0
    &&& after.rearm_backoff == 1
    &&& after.idle_samples == 0 && after.idle_depth == 0 && after.stable_cycles == 0
    &&& after.last_cycle_delay is None
    &&& after.regions_rejected == before.regions_rejected
    &&& after.tracking_moves == before.tracking_moves
    &&& after.coarse_rearms == before.coarse_rearms
}

/// A trigger gives the lock up, whichever it is.
pub proof fn lemma_what_a_trigger_does(
    before: DelayAcquirer,
    after: DelayAcquirer,
    trigger: ReacquireTrigger,
)
    requires
        after.reacquiring_from(before, trigger),
    ensures
        given_up(before, after, trigger),
{
}

/// The local search follows the delay it tracks: after a move to a delay no deeper than
/// the coarse ceiling, the delay lies inside the searched range, at least a quarter of
/// the span from its deep end and from its shallow one, the shallow end at zero aside.
pub proof fn lemma_the_window_follows_the_delay(
    before: DelayAcquirer,
    after: DelayAcquirer,
    obs: FineObservation,
    outcome: ObserveOutcome,
    to: usize,
)
    requires
        before.wf(),
        before.state is Locked,
        after.acted_from(before, obs, outcome),
        outcome.action == Some(AcquireAction::Track(to)),
        to <= deepest(before),
    ensures
        ({
            let start = after.fine.search_origin as int;
            let end = start + after.fine.max_delay;
            let quarter = before.fine_span as int / 4;
            &&& after.fine.max_delay == before.fine_span
            &&& start <= to <= end
            &&& end - to >= quarter
            &&& start > 0 ==> to - start >= quarter
            &&& start == 0 ==> to >= quarter || to <= before.fine_span / 2
            // A window that still has the delay in its middle half is left where it is.
            &&& gap(to as int, before.fine.search_origin + before.fine_span as int / 2)
                <= quarter ==> start == before.fine.search_origin
            &&& gap(to as int, before.fine.search_origin + before.fine_span as int / 2)
                > quarter ==> start == centred(to as int, before.fine_span as int)
        }),
{
}

/// The local search is centred on a delay when it is first trusted.
pub proof fn lemma_the_window_starts_on_the_delay(
    before: DelayAcquirer,
    after: DelayAcquirer,
    delay: int,
    ground: DelayLockSource,
)
    requires
        before.wf(),
        newly_locked(before, after, delay, ground),
        0 <= delay <= deepest(before),
    ensures
        ({
            let start = after.fine.search_origin as int;
            let half = before.fine_span as int / 2;
            &&& start <= delay <= start + before.fine_span
            &&& start > 0 ==> delay - start == half
            &&& start == 0 ==> delay <= half
        }),
{
}

/// Whether a cycle is a settled one: the tracker was left at rest, and its interior
/// estimate lies within 4 ms of the alignment and of the cycle before it.
pub open spec fn settles(
    before: DelayAcquirer,
    cycle: CycleOutcome,
    judged: Tracker,
    rate: int,
) -> bool {
    match cycle {
        CycleOutcome::Candidate { delay, interior: true } => {
            &&& judged.at_rest()
            &&& !longer_than(gap(delay as int, before.locked->0 as int), 4, rate)
            &&& before.last_cycle_delay matches Some(previous) && !longer_than(
                gap(delay as int, previous as int),
                4,
                rate,
            )
        },
        _ => false,
    }
}

/// When the local search idles: from the fourth settled cycle in a row on, for one cycle,
/// then two, then four and never longer, a cycle being two frames. A held cycle that is
/// not settled ends the idling at once and starts the count over.
#[verifier::rlimit(60)]
pub proof fn lemma_when_the_search_idles(
    before: DelayAcquirer,
    after: DelayAcquirer,
    obs: FineObservation,
    outcome: ObserveOutcome,
    rate: u32,
    fine_ms: u16,
    ceiling_ms: u16,
)
    requires
        8000 <= rate <= 48000,
        before.wf(),
        before.sized(rate, fine_ms, ceiling_ms),
        before.state is Locked,
        before.fits(obs),
        obs.scored,
        before.cycle_scored != 0,
        before.stable_cycles < u32::MAX,
        before.tracker->0.verdict(before.locked->0, concludes_with(before, obs, rate as int))
            == TrackVerdict::Hold,
        after.acted_from(before, obs, outcome),
    ensures
        ({
            let cycle = concludes_with(before, obs, rate as int);
            let judged = before.tracker->0.after(before.locked->0, cycle);
            &&& after.last_cycle_delay == (match cycle {
                CycleOutcome::Candidate { delay, interior: true } => Some(delay),
                _ => None,
            })
            &&& if settles(before, cycle, judged, rate as int) {
                &&& after.stable_cycles == before.stable_cycles + 1
                &&& if before.stable_cycles < 3 {
                    after.idle_depth == before.idle_depth && after.idle_samples
                        == before.idle_samples
                } else {
                    &&& after.idle_depth == (if before.idle_depth == 0 {
                        1int
                    } else if before.idle_depth == 1 {
                        2
                    } else {
                        4
                    })
                    &&& after.idle_samples == after.idle_depth * 2 * before.fine.frame_len
                }
            } else {
                &&& after.stable_cycles == 0
                &&& after.idle_depth == 0
                &&& after.idle_samples == 0
            }
        }),
{
    lemma_tolerances_everywhere(before, rate, fine_ms, ceiling_ms);
    let lock: Option<FineLock> = if obs.candidate is Some {
        obs.candidate
    } else {
        before.cycle_candidate
    };
    if lock is Some {
        let delay = lock->0.delay as int;
        assert(tolerances_hold(before, rate, lock->0.peak_at + 1));
        assert(tolerances_hold(before, rate, before.fine_span - lock->0.peak_at + 1));
        assert(tolerances_hold(before, rate, gap(delay, before.locked->0 as int)));
        if before.last_cycle_delay is Some {
            assert(tolerances_hold(before, rate, gap(delay, before.last_cycle_delay->0 as int)));
        }
    }
    let depth = after.idle_depth as int;
    assert(depth * 2 * before.fine.frame_len <= 8 * before.fine.frame_len) by (nonlinear_arith)
        requires
            0 <= depth <= 4,
    ;
}

} // verus!
