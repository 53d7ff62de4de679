//! The engine's promises: when the canceller keeps what it learned, which far-end sample
//! each near sample is paired with, what the searches are shown, and how the output is
//! rendered.

use vstd::prelude::*;

use crate::acquire::{AcquireAction, DelayAcquirer, ObserveOutcome};
use crate::delay::{DelayEstimator, FineLock, FineObservation, FineScan};
use crate::engine::{Aec, AecEvent, CancellerAction, OutputBlend};
use crate::laws::losses::greater;
use crate::laws::searching::{frame_counts, loudest};
use crate::laws::tracking::{gap, longer_than};
use crate::ring::ReferenceRing;
use crate::sample::{Measure, Sample};

verus! {

/// What an alignment action does. A promotion is adopted, and the canceller keeps what it
/// learned exactly when an alignment stood and the new one lies within 8 ms of it; a
/// tracking move is adopted and always keeps it; with neither, nothing changes. Either
/// ends the run of declarations that found no alignment.
pub proof fn lemma_what_an_alignment_action_does(
    before: Aec,
    after: Aec,
    action: Option<AcquireAction>,
    r: CancellerAction,
)
    requires
        before.wf(),
        after.adopted_from(before, action, r),
    ensures
        match action {
            None => after == before && r == CancellerAction::Keep,
            Some(AcquireAction::Track(delay)) => {
                &&& r == CancellerAction::Keep
                &&& after.delay_offset == delay
                &&& after.delay_known == before.delay_known
                &&& after.declarations_without_decision == 0
            },
            Some(AcquireAction::Promote(delay)) => {
                &&& r is Keep <==> before.delay_known && !longer_than(
                    gap(delay as int, before.delay_offset as int),
                    8,
                    before.config.sample_rate as int,
                )
                &&& after.delay_offset == delay
                &&& after.delay_known
                &&& after.declarations_without_decision == 0
            },
        },
        after.output_blend == before.output_blend,
        after.ring == before.ring,
        after.anchor == before.anchor,
        after.near_processed == before.near_processed,
{
}

/// Whether a fine frame or a rescan was answered as it must be: the canceller is reset
/// exactly when a lock was promoted that no alignment within 8 ms of it preceded, and
/// the offset in force is the acquisition's own lock ever after, the stale one while
/// none has been promoted since.
pub open spec fn answered_soundly(before: Aec, after: Aec, r: CancellerAction) -> bool {
    let was = before.acquirer->0;
    let now = after.acquirer->0;
    let promoted = !(was.state is Locked) && now.state is Locked;
    &&& r is Reset <==> promoted && (!before.delay_known || longer_than(
        gap(after.delay_offset as int, before.delay_offset as int),
        8,
        before.config.sample_rate as int,
    ))
    &&& after.delay_known == (before.delay_known || promoted)
    &&& after.delay_known ==> now.locked is Some && now.locked->0 == after.delay_offset
    &&& now.locked == was.locked && !promoted ==> after.delay_offset == before.delay_offset
    &&& promoted ==> after.declarations_without_decision == 0
    &&& now.locked == was.locked && now.tracking_moves == was.tracking_moves && !promoted
        ==> after.declarations_without_decision == before.declarations_without_decision
    &&& !after.window_ready
    &&& after == (Aec {
        acquirer: after.acquirer,
        delay_offset: after.delay_offset,
        delay_known: after.delay_known,
        declarations_without_decision: after.declarations_without_decision,
        rescan_pending: after.rescan_pending,
        window_ready: after.window_ready,
        ..before
    })
}

/// A fine frame is answered soundly.
#[verifier::rlimit(60)]
pub proof fn lemma_when_the_canceller_is_reset(
    before: Aec,
    after: Aec,
    near_energy: Measure,
    far_energy: Measure,
    scan: FineScan,
    r: CancellerAction,
)
    requires
        before.wf(),
        after.wf(),
        before.acquirer is Some,
        before.acquirer->0.tracking_moves < u32::MAX,
        after.judged_from(before, near_energy, far_energy, scan, r),
    ensures
        answered_soundly(before, after, r),
{
    let start = before.acquirer->0;
    let (fine, obs, outcome) = choose|
        fine: DelayEstimator,
        obs: FineObservation,
        outcome: crate::acquire::ObserveOutcome,
    |
        #![trigger fine.observed_from(start.fine, before.support, near_energy, far_energy, scan),
            start.fine.reports(before.support, near_energy, far_energy, scan, obs),
            after.acquirer->0.acted_from(start.with_fine(fine), obs, outcome)]
        {
            &&& fine.observed_from(start.fine, before.support, near_energy, far_energy, scan)
            &&& start.fine.reports(before.support, near_energy, far_energy, scan, obs)
            &&& after.acquirer->0.acted_from(start.with_fine(fine), obs, outcome)
            &&& after.adopted_from(
                Aec {
                    acquirer: after.acquirer,
                    rescan_pending: outcome.rescan_pending,
                    window_ready: false,
                    ..before
                },
                outcome.action,
                r,
            )
        };
    lemma_what_is_asked_for(start.with_fine(fine), after.acquirer->0, obs, outcome);
}

/// What acting asks for shows in the lock it leaves.
proof fn lemma_what_is_asked_for(
    before: DelayAcquirer,
    after: DelayAcquirer,
    obs: FineObservation,
    outcome: crate::acquire::ObserveOutcome,
)
    requires
        after.acted_from(before, obs, outcome),
        before.tracking_moves < u32::MAX,
    ensures
        outcome.action matches Some(AcquireAction::Promote(delay)) ==> !(before.state is Locked)
            && after.state is Locked && after.locked == Some(delay),
        outcome.action matches Some(AcquireAction::Track(delay)) ==> before.state is Locked
            && after.locked == Some(delay) && after.tracking_moves == before.tracking_moves + 1,
        outcome.action is None ==> after.locked == before.locked && (after.state is Locked
            ==> before.state is Locked) && after.tracking_moves == before.tracking_moves,
{
    if !(before.state is Locked) {
        let middle = choose|middle: DelayAcquirer| #[trigger]
            middle.retried_from(before.counted(), obs.scored) && after.laddered_from(
                middle,
                obs.candidate,
                before.coarse.best,
                outcome,
            );
        assert(middle.retried_from(before.counted(), obs.scored));
        assert(middle.locked == before.locked && !(middle.state is Locked)
            && middle.tracking_moves == before.tracking_moves);
    }
}

/// A rescan is answered soundly.
#[verifier::rlimit(60)]
pub proof fn lemma_when_a_rescan_resets_the_canceller(
    before: Aec,
    after: Aec,
    near_energy: Measure,
    far_energy: Measure,
    scan: FineScan,
    r: CancellerAction,
)
    requires
        before.wf(),
        after.wf(),
        before.rescan_pending,
        before.acquirer is Some,
        after.rejudged_from(before, near_energy, far_energy, scan, r),
    ensures
        answered_soundly(before, after, r),
        !after.rescan_pending,
{
    let start = before.acquirer->0;
    if start.fine.rescans(before.support, near_energy, far_energy) {
        let (fine, obs, action) = choose|
            fine: DelayEstimator,
            obs: FineObservation,
            action: Option<AcquireAction>,
        |
            #![trigger fine.records(start.fine, scan), start.fine.candidate_of(scan,
                obs.candidate), after.acquirer->0.rescanned_from(start.with_fine(fine), obs,
                action)]
            {
                &&& fine.records(start.fine, scan)
                &&& start.fine.candidate_of(scan, obs.candidate)
                &&& after.acquirer->0.rescanned_from(start.with_fine(fine), obs, action)
                &&& after.adopted_from(
                    Aec {
                        acquirer: after.acquirer,
                        rescan_pending: false,
                        window_ready: false,
                        ..before
                    },
                    action,
                    r,
                )
            };
        assert(after.acquirer->0.rescanned_from(start.with_fine(fine), obs, action));
    }
}

/// Whether a ring still holds the sample fed at an absolute index: it has been fed, and
/// no more than the ring's depth of samples have been fed from it on.
pub open spec fn still_held(ring: ReferenceRing, abs: int) -> bool {
    0 <= abs < ring.next_abs && ring.next_abs - abs <= ring.capacity
}

/// A ring hands back a sample exactly while it holds it.
pub proof fn lemma_what_a_ring_holds(ring: ReferenceRing, abs: int)
    requires
        ring.wf(),
    ensures
        ring.at(abs) is Some <==> still_held(ring, abs),
{
}

/// How many of the `count` indices from `start` on a ring no longer or not yet holds.
pub open spec fn missing(ring: ReferenceRing, start: int, count: int) -> int
    decreases count,
{
    if count <= 0 {
        0
    } else {
        missing(ring, start, count - 1) + (if still_held(ring, start + count - 1) {
            0int
        } else {
            1
        })
    }
}

/// What is missing and what is supplied make up the whole.
proof fn lemma_missing_and_supplied(ring: ReferenceRing, start: int, count: int)
    requires
        ring.wf(),
        0 <= count,
    ensures
        missing(ring, start, count) + crate::engine::supplied(ring, start, count) == count,
    decreases count,
{
    if count > 0 {
        lemma_missing_and_supplied(ring, start, count - 1);
    }
}

/// What a near block is paired with. With an alignment, near sample `i` of the block is
/// paired with the far-end sample fed `delay_offset` before its own place in the stream,
/// silence standing in for one the ring does not hold, and each of those is counted as
/// starved. With none, the block is paired with silence, and every sample of it is
/// counted as parked. Either way the near stream has advanced by the block.
pub proof fn lemma_what_a_block_is_paired_with(before: Aec, after: Aec, i: int)
    requires
        before.wf(),
        before.in_block,
        after.aligned_from(before),
        0 <= i < before.near_scratch@.len(),
    ensures
        ({
            let first = before.anchor->0 + before.near_processed - before.delay_offset;
            let count = before.near_scratch@.len() as int;
            let silent = Sample { bits: 0 };
            &&& after.far_scratch@.len() == count
            &&& after.cursor == before.cursor
            &&& if before.delay_known && still_held(before.ring, first + i) {
                after.far_scratch@[i] == before.ring.at(first + i)->0
            } else {
                after.far_scratch@[i] == silent
            }
            &&& if before.delay_known {
                &&& after.reference_starved == before.reference_starved + missing(
                    before.ring,
                    first,
                    count,
                )
                &&& after.acquisition_parked == before.acquisition_parked
            } else {
                &&& after.reference_starved == before.reference_starved
                &&& after.acquisition_parked == before.acquisition_parked + count
            }
            &&& after.near_processed == before.near_processed + count
            &&& after.anchor == before.anchor
            &&& !after.in_block
            &&& after == (Aec {
                far_scratch: after.far_scratch,
                reference_starved: after.reference_starved,
                acquisition_parked: after.acquisition_parked,
                near_processed: after.near_processed,
                in_block: false,
                ..before
            })
        }),
{
    lemma_missing_and_supplied(
        before.ring,
        before.anchor->0 + before.near_processed - before.delay_offset,
        before.near_scratch@.len() as int,
    );
}

/// What a fine frame is shown: the window of one transform that ends, one frame after the
/// deepest delay searched, at the near sample just taken; each index reads the sample fed
/// there, or silence, and the silence is counted at the head where the history no longer
/// reaches and at the tail where the feed does not reach yet.
pub proof fn lemma_what_a_fine_frame_is_shown(before: Aec, after: Aec, i: int)
    requires
        before.wf(),
        before.in_block,
        before.acquirer is Some,
        before.next_event() is FineFrame || before.next_event() is Rescan,
        after.stepped_from(before),
        0 <= i < before.acquirer->0.fine.fft_len,
    ensures
        ({
            let fine = before.acquirer->0.fine;
            let start = before.acquirer->0.next_near_abs - fine.fft_len - fine.search_origin;
            let count = fine.fft_len as int;
            let abs = start + i;
            let oldest = greater(before.ring.next_abs - before.ring.capacity, 0);
            &&& after.window_ready
            &&& after.estimator_scratch@.len() == count
            &&& after.estimator_scratch@[i] == (if still_held(before.ring, abs) {
                before.ring.at(abs)->0
            } else {
                Sample { bits: 0 }
            })
            &&& i < after.support.missing_head <==> abs < oldest
            &&& i >= count - after.support.missing_tail <==> abs >= before.ring.next_abs
            &&& after.support.missing_head <= count && after.support.missing_tail <= count
            &&& after == (Aec {
                estimator_scratch: after.estimator_scratch,
                support: after.support,
                window_ready: true,
                ..before
            })
        }),
{
}

/// In what order a block is worked off: a complete coarse frame is answered first, then a
/// rescan, then a complete fine frame; then the next near sample is handed over; and the
/// block is aligned once every sample has been. A hinted engine goes straight to it.
pub proof fn lemma_the_order_of_a_block(aec: Aec)
    requires
        aec.wf(),
    ensures
        ({
            let event = aec.next_event();
            match aec.acquirer {
                None => event == AecEvent::Aligned,
                Some(acquirer) => {
                    let coarse = acquirer.coarse.near_block@.len() == acquirer.coarse.frame
                        * acquirer.coarse.decimation;
                    let fine = acquirer.fine.near_frame@.len() == acquirer.fine.frame_len;
                    let more = aec.cursor < aec.near_scratch@.len();
                    &&& event is CoarseFrame <==> coarse
                    &&& event is Rescan <==> !coarse && aec.rescan_pending
                    &&& event is FineFrame <==> !coarse && !aec.rescan_pending && fine
                    &&& event is Advanced <==> !coarse && !aec.rescan_pending && !fine && more
                    &&& event is Aligned <==> !coarse && !aec.rescan_pending && !fine && !more
                },
            }
        }),
{
}

/// Where a near sample goes: each one is handed over once, in order. The fine search
/// takes it unless a settled lock idles, which counts one sample down; the coarse scan
/// takes it only while no lock stands and it is still looking, and starts a frame only
/// on a bin of the grid it shares with the far history.
pub proof fn lemma_where_a_near_sample_goes(before: Aec, after: Aec)
    requires
        before.wf(),
        before.in_block,
        before.next_event() is Advanced,
        after.stepped_from(before),
    ensures
        ({
            let was = before.acquirer->0;
            let now = after.acquirer->0;
            let sample = before.near_scratch@[before.cursor as int];
            let looking = !(was.state is Locked) && was.coarse.best is None
                && !was.coarse.exhausted;
            let starts = was.coarse.near_block@.len() == 0;
            let on_the_grid = was.next_near_abs as int % was.coarse.decimation as int == 0;
            &&& after.cursor == before.cursor + 1
            &&& now.next_near_abs == was.next_near_abs + 1
            &&& if was.idle_samples > 0 {
                now.idle_samples == was.idle_samples - 1 && now.fine.near_frame@
                    == was.fine.near_frame@
            } else {
                now.idle_samples == 0 && now.fine.near_frame@ == was.fine.near_frame@.push(sample)
            }
            &&& if looking && (!starts || on_the_grid) {
                now.coarse.near_block@ == was.coarse.near_block@.push(sample)
            } else {
                now.coarse.near_block@ == was.coarse.near_block@
            }
            &&& looking && starts && on_the_grid ==> now.coarse.near_frame_start_abs
                * was.coarse.decimation == was.next_near_abs
            &&& now == (DelayAcquirer {
                coarse: now.coarse,
                fine: now.fine,
                idle_samples: now.idle_samples,
                next_near_abs: now.next_near_abs,
                ..was
            })
            &&& now.fine == (DelayEstimator { near_frame: now.fine.near_frame, ..was.fine })
            &&& now.coarse == (crate::coarse::CoarseScan {
                near_block: now.coarse.near_block,
                near_frame_start_abs: now.coarse.near_frame_start_abs,
                ..was.coarse
            })
            &&& after == (Aec { acquirer: after.acquirer, cursor: after.cursor, ..before })
        }),
{
    assert(before.near_scratch.len() == before.near_scratch@.len());
    let was = before.acquirer->0;
    let d = was.coarse.decimation as int;
    let n = was.next_near_abs as int;
    vstd::arithmetic::div_mod::lemma_fundamental_div_mod(n, d);
    assert((n / d) * d == d * (n / d)) by (nonlinear_arith);
    assert(0 <= n / d <= n) by (nonlinear_arith)
        requires
            n >= 0,
            d >= 1,
    ;
}

/// What the configuration sizes: the ring holds the deepest echo, the tail and four
/// seconds more; a lock is re-confirmed within 8 ms; and a hint is taken up to the
/// deepest echo searched for.
pub proof fn lemma_what_the_configuration_sizes(aec: Aec)
    requires
        aec.wf(),
    ensures
        ({
            let rate = aec.config.sample_rate as int;
            let span_ms = aec.config.max_echo_delay_ms + aec.config.tail_ms;
            let over = aec.ring.capacity - 4 * rate;
            &&& 1000 * over <= span_ms * rate < 1000 * (over + 1)
            &&& 1000 * aec.relock_keep <= 8 * rate < 1000 * (aec.relock_keep + 1)
            &&& aec.config.delay_hint_ms matches Some(hint) ==> {
                let taken = if hint <= aec.config.max_echo_delay_ms {
                    hint as int
                } else {
                    aec.config.max_echo_delay_ms as int
                };
                &&& aec.delay_known
                &&& 1000 * aec.delay_offset <= taken * rate < 1000 * (aec.delay_offset + 1)
            }
        }),
{
    let rate = aec.config.sample_rate as int;
    let span_ms = aec.config.max_echo_delay_ms + aec.config.tail_ms;
    assert(0 <= span_ms * rate) by (nonlinear_arith)
        requires
            0 <= span_ms,
            0 <= rate,
    ;
    if aec.config.delay_hint_ms is Some {
        let hint = aec.config.delay_hint_ms->0 as int;
        let most = aec.config.max_echo_delay_ms as int;
        assert(0 <= hint * rate && 0 <= most * rate) by (nonlinear_arith)
            requires
                0 <= hint,
                0 <= most,
                0 <= rate,
        ;
    }
}

/// What a feed does: the samples fed are the newest the ring holds, each non-finite one
/// as silence, in the order they were fed; older ones stay while the depth lasts; and
/// nothing else the engine reports changes.
pub proof fn lemma_what_a_feed_does(
    before: Aec,
    after: Aec,
    reference: Seq<Sample>,
    handed: Seq<Sample>,
    i: int,
    abs: int,
)
    requires
        before.wf(),
        after.wf(),
        after.fed_from(before, reference, handed),
        0 <= i < reference.len(),
    ensures
        after.ring.next_abs == before.ring.next_abs + reference.len(),
        reference.len() - i <= before.ring.capacity ==> after.ring.at(before.ring.next_abs + i)
            == Some(
            if reference[i].finite() {
                reference[i]
            } else {
                Sample { bits: 0 }
            },
        ),
        still_held(before.ring, abs) && still_held(after.ring, abs) ==> after.ring.at(abs)
            == before.ring.at(abs),
        after == (Aec {
            reference_scratch: after.reference_scratch,
            ring: after.ring,
            acquirer: after.acquirer,
            ..before
        }),
{
    let clean = crate::sample::sanitized_seq(reference);
    assert(after.ring.at(before.ring.next_abs + i) == before.ring.at_after_push(
        clean,
        before.ring.next_abs + i,
    ));
    assert(after.ring.at(abs) == before.ring.at_after_push(clean, abs));
}

/// What the gain does on each sample: a reacquisition takes it down to where the ramp's
/// arithmetic moved it, never up and never below zero, and every other status takes it
/// up, never down and never above one; and the sample is queued with that gain.
pub proof fn lemma_what_a_fade_does(before: Aec, after: Aec, moved: Sample)
    requires
        before.wf(),
        before.output_blend is Graded,
        before.faded < before.near_scratch@.len(),
        after.faded_from(before, moved),
    ensures
        ({
            let was = before.output_blend->Graded_0;
            let now = after.output_blend->Graded_0;
            let down = before.acquirer is Some && before.acquirer->0.reacquiring;
            &&& after.faded == before.faded + 1
            &&& now.pending_near@ == was.pending_near@.push(
                before.near_scratch@[before.faded as int],
            )
            &&& now.pending_gain@ == was.pending_gain@.push(now.gain)
            &&& now.gain.bits <= 0x3f80_0000
            &&& now.fade_out_samples == was.fade_out_samples
            &&& now.fade_in_samples == was.fade_in_samples
            &&& after == (Aec { output_blend: after.output_blend, faded: after.faded, ..before })
            &&& down ==> {
                &&& now.gain.bits <= was.gain.bits
                &&& !moved.nan() && moved.rank() <= 0 ==> now.gain.bits == 0
                &&& !moved.nan() && 0 < moved.rank() <= was.gain.rank() ==> now.gain == moved
            }
            &&& !down ==> {
                &&& now.gain.bits >= was.gain.bits
                &&& !moved.nan() && moved.rank() >= 0x3f80_0000 ==> now.gain.bits == 0x3f80_0000
                &&& !moved.nan() && was.gain.rank() < moved.rank() < 0x3f80_0000 ==> now.gain
                    == moved
            }
        }),
{
    assert(before.near_scratch.len() == before.near_scratch@.len());
    let gate = before.output_blend->Graded_0;
    assert(gate.wf());
    assert(before.status() is Reacquiring <==> before.acquirer is Some
        && before.acquirer->0.reacquiring);
}

/// What is delivered: one sample per sample the canceller emitted, the correction itself
/// where it is preserved or its gain is exactly one, and the blend everywhere else; and
/// exactly those samples leave the queue, oldest first.
pub proof fn lemma_what_is_delivered(
    before: Aec,
    after: Aec,
    emitted: Seq<Sample>,
    blended: Seq<Sample>,
    i: int,
)
    requires
        before.wf(),
        after.released_from(before, emitted.len() as int),
        0 <= i < emitted.len(),
    ensures
        before.delivers(emitted, blended).len() == emitted.len(),
        after == (Aec { output_blend: after.output_blend, ..before }),
        before.output_blend is Preserve ==> before.delivers(emitted, blended)[i] == emitted[i]
            && after.output_blend is Preserve,
        before.output_blend matches OutputBlend::Graded(gate) ==> {
            let now = after.output_blend->Graded_0;
            let out = before.delivers(emitted, blended)[i];
            let left = greater(gate.pending_near@.len() - emitted.len(), 0);
            &&& i < gate.pending_gain@.len() && gate.pending_gain@[i].bits != 0x3f80_0000 ==> out
                == blended[i]
            &&& i >= gate.pending_gain@.len() || gate.pending_gain@[i].bits == 0x3f80_0000
                ==> out == emitted[i]
            &&& after.output_blend is Graded
            &&& now.gain == gate.gain
            &&& now.pending_near@ == gate.pending_near@.skip(gate.pending_near@.len() - left)
            &&& now.pending_gain@ == gate.pending_gain@.skip(gate.pending_gain@.len() - left)
        },
{
}


/// What a feed hands out: whole bins and nothing else, end to end with what was left of the
/// feed before and what is left of this one, so no sample is lost or moved between bins.
pub proof fn lemma_what_a_feed_hands_out(
    before: Aec,
    after: Aec,
    reference: Seq<Sample>,
    handed: Seq<Sample>,
)
    requires
        before.wf(),
        before.reference_banked(),
        after.fed_from(before, reference, handed),
    ensures
        before.acquirer is None ==> handed.len() == 0 && after.acquirer is None,
        before.acquirer is Some ==> ({
            let was = before.acquirer->0.coarse;
            let now = after.acquirer->0.coarse;
            &&& after.acquirer is Some
            &&& handed + now.far_block@ == was.far_block@ + crate::sample::sanitized_seq(reference)
            &&& handed.len() == now.unbanked * was.decimation
            &&& now.far_block@.len() < was.decimation
            &&& now.far_env == was.far_env
            &&& now.best == was.best
            &&& now.frames == was.frames
            &&& now.near_block@ == was.near_block@
        }),
{
    if before.acquirer is Some {
        let was = before.acquirer->0.coarse;
        let d = was.decimation as int;
        let stream = was.far_block@ + crate::sample::sanitized_seq(reference);
        let q = stream.len() as int / d;
        vstd::arithmetic::div_mod::lemma_fundamental_div_mod(stream.len() as int, d);
        assert(0 <= q && 0 <= q * d <= stream.len() && stream.len() - q * d < d)
            by (nonlinear_arith)
            requires
                stream.len() == d * q + stream.len() as int % d,
                0 <= stream.len() as int % d < d,
                d >= 1,
        ;
        assert(handed + after.acquirer->0.coarse.far_block@ =~= stream);
    }
}

/// What banking does: level `k` becomes the far history's bin `k` after those it had, older
/// bins stay while the history's depth lasts, and nothing is owed any more.
pub proof fn lemma_what_banking_does(before: Aec, after: Aec, levels: Seq<Sample>, k: int, bin: int)
    requires
        before.wf(),
        after.wf(),
        before.acquirer is Some,
        after.banked_from(before, levels),
        0 <= k < levels.len(),
    ensures
        ({
            let was = before.acquirer->0.coarse;
            let now = after.acquirer->0.coarse;
            &&& after.acquirer is Some
            &&& now.unbanked == 0
            &&& now.far_env.next_abs == was.far_env.next_abs + levels.len()
            &&& levels.len() - k <= was.far_env.capacity ==> now.far_env.at(
                was.far_env.next_abs + k,
            ) == Some(levels[k])
            &&& still_held(was.far_env, bin) && still_held(now.far_env, bin)
                ==> now.far_env.at(bin) == was.far_env.at(bin)
            &&& now.best == was.best
            &&& now.frames == was.frames
            &&& now.near_block@ == was.near_block@
            &&& after.ring == before.ring
        }),
{
    let was = before.acquirer->0.coarse.far_env;
    let now = after.acquirer->0.coarse.far_env;
    assert(now.at(was.next_abs + k) == was.at_after_push(levels, was.next_abs + k));
    assert(now.at(bin) == was.at_after_push(levels, bin));
}

/// What the acquisition is told of a fine frame: that it was scored exactly when it
/// counted, and, from the second one on, the place where the accumulated correlation is
/// loudest as a delay less sixteen samples, where it is loud enough. It acts on that, and
/// the offset in force is the one it asks for.
#[verifier::rlimit(60)]
pub proof fn lemma_what_the_acquisition_is_told(
    before: Aec,
    after: Aec,
    near_energy: Measure,
    far_energy: Measure,
    scan: FineScan,
    r: CancellerAction,
    at: usize,
)
    requires
        before.wf(),
        before.acquirer is Some,
        loudest(
            scan.correlation@,
            before.acquirer->0.fine.max_delay + 1,
            at as int,
        ),
        after.judged_from(before, near_energy, far_energy, scan, r),
    ensures
        ({
            let start = before.acquirer->0;
            let counts = frame_counts(start.fine, before.support, near_energy, far_energy);
            let told = FineObservation {
                scored: counts,
                candidate: told_candidate(start.fine, scan, at, counts),
            };
            exists|fine: DelayEstimator, outcome: ObserveOutcome|
                #[trigger]
                after.acquirer->0.acted_from(start.with_fine(fine), told, outcome) && {
                    &&& fine.frames == start.fine.frames + (if counts {
                        1int
                    } else {
                        0
                    })
                    &&& fine.search_origin == start.fine.search_origin
                    &&& fine.near_frame@.len() == 0
                    &&& after.rescan_pending == outcome.rescan_pending
                    &&& after.delay_offset == (match outcome.action {
                        None => before.delay_offset,
                        Some(AcquireAction::Promote(delay)) => delay as u64,
                        Some(AcquireAction::Track(delay)) => delay as u64,
                    })
                }
        }),
{
    let start = before.acquirer->0;
    let (fine, obs, outcome) = choose|
        fine: DelayEstimator,
        obs: FineObservation,
        outcome: ObserveOutcome,
    |
        #![trigger fine.observed_from(start.fine, before.support, near_energy, far_energy, scan),
            start.fine.reports(before.support, near_energy, far_energy, scan, obs),
            after.acquirer->0.acted_from(start.with_fine(fine), obs, outcome)]
        {
            &&& fine.observed_from(start.fine, before.support, near_energy, far_energy, scan)
            &&& start.fine.reports(before.support, near_energy, far_energy, scan, obs)
            &&& after.acquirer->0.acted_from(start.with_fine(fine), obs, outcome)
            &&& after.adopted_from(
                Aec {
                    acquirer: after.acquirer,
                    rescan_pending: outcome.rescan_pending,
                    window_ready: false,
                    ..before
                },
                outcome.action,
                r,
            )
        };
    crate::laws::searching::lemma_what_a_fine_frame_leaves(
        start.fine,
        fine,
        before.support,
        near_energy,
        far_energy,
        scan,
        obs,
    );
    if obs.candidate is Some {
        crate::laws::searching::lemma_what_a_peak_is_taken_for(start.fine, scan, obs.candidate);
        lemma_one_loudest(
            scan.correlation@,
            start.fine.max_delay + 1,
            at as int,
            obs.candidate->0.peak_at as int,
        );
    }
    assert(obs.candidate == told_candidate(start.fine, scan, at, obs.scored));
    assert(obs == (FineObservation {
        scored: obs.scored,
        candidate: told_candidate(start.fine, scan, at, obs.scored),
    }));
    assert(after.acquirer->0.acted_from(start.with_fine(fine), obs, outcome));
}

/// The candidate a counting frame offers, `at` being where its scan is loudest.
pub open spec fn told_candidate(
    fine: DelayEstimator,
    scan: FineScan,
    at: usize,
    counts: bool,
) -> Option<FineLock> {
    if counts && fine.frames >= 1 && !scan.mean.at_most(Measure { bits: 0 })
        && !scan.peak.below(scan.gate) {
        Some(
            FineLock {
                delay: greater(fine.search_origin + fine.max_delay - at - 16, 0) as usize,
                peak_at: at,
                ratio: scan.ratio,
            },
        )
    } else {
        None
    }
}

proof fn lemma_one_loudest(correlation: Seq<Sample>, count: int, a: int, b: int)
    requires
        loudest(correlation, count, a),
        loudest(correlation, count, b),
    ensures
        a == b,
{
    let x = correlation[a];
    let y = correlation[b];
}


/// What a rescan tells the acquisition: nothing where the kept frame does not count against
/// the new window, and otherwise the place where its correlation is loudest, as a delay
/// less sixteen samples, where it is loud enough.
pub proof fn lemma_what_a_rescan_tells(
    before: Aec,
    after: Aec,
    near_energy: Measure,
    far_energy: Measure,
    scan: FineScan,
    r: CancellerAction,
    at: usize,
)
    requires
        before.wf(),
        before.acquirer is Some,
        loudest(scan.correlation@, before.acquirer->0.fine.max_delay + 1, at as int),
        after.rejudged_from(before, near_energy, far_energy, scan, r),
    ensures
        ({
            let start = before.acquirer->0;
            let again = start.fine.retained_near_valid && frame_counts(
                start.fine,
                before.support,
                near_energy,
                far_energy,
            );
            let candidate = if !scan.mean.at_most(Measure { bits: 0 }) && !scan.peak.below(
                scan.gate,
            ) {
                Some(
                    FineLock {
                        delay: greater(
                            start.fine.search_origin + start.fine.max_delay - at - 16,
                            0,
                        ) as usize,
                        peak_at: at,
                        ratio: scan.ratio,
                    },
                )
            } else {
                None
            };
            &&& !again ==> r is Keep && after == (Aec {
                rescan_pending: false,
                window_ready: false,
                ..before
            })
            &&& again ==> exists|
                fine: DelayEstimator,
                obs: FineObservation,
                action: Option<AcquireAction>,
            |
                #[trigger]
                after.acquirer->0.rescanned_from(start.with_fine(fine), obs, action) && {
                    &&& obs.candidate == candidate
                    &&& fine.frames == start.fine.frames
                    &&& fine.search_origin == start.fine.search_origin
                    &&& fine.scans == start.fine.scans + 1
                    &&& fine.last_scan_peak_at == Some(at)
                    &&& after.delay_offset == (match action {
                        None => before.delay_offset,
                        Some(AcquireAction::Promote(delay)) => delay as u64,
                        Some(AcquireAction::Track(delay)) => delay as u64,
                    })
                }
        }),
{
    let start = before.acquirer->0;
    crate::laws::searching::lemma_when_a_frame_is_scanned_again(
        start.fine,
        before.support,
        near_energy,
        far_energy,
    );
    if start.fine.rescans(before.support, near_energy, far_energy) {
        let (fine, obs, action) = choose|
            fine: DelayEstimator,
            obs: FineObservation,
            action: Option<AcquireAction>,
        |
            #![trigger fine.records(start.fine, scan), start.fine.candidate_of(scan,
                obs.candidate), after.acquirer->0.rescanned_from(start.with_fine(fine), obs,
                action)]
            {
                &&& fine.records(start.fine, scan)
                &&& fine == (DelayEstimator {
                    last_scan_ratio: fine.last_scan_ratio,
                    last_scan_peak_at: fine.last_scan_peak_at,
                    last_scan_origin: fine.last_scan_origin,
                    scans: fine.scans,
                    ..start.fine
                })
                &&& start.fine.candidate_of(scan, obs.candidate)
                &&& after.acquirer->0.rescanned_from(start.with_fine(fine), obs, action)
                &&& after.adopted_from(
                    Aec {
                        acquirer: after.acquirer,
                        rescan_pending: false,
                        window_ready: false,
                        ..before
                    },
                    action,
                    r,
                )
            };
        crate::laws::searching::lemma_what_a_peak_is_taken_for(start.fine, scan, obs.candidate);
        if obs.candidate is Some {
            lemma_one_loudest(
                scan.correlation@,
                start.fine.max_delay + 1,
                at as int,
                obs.candidate->0.peak_at as int,
            );
        }
        lemma_one_loudest(
            scan.correlation@,
            start.fine.max_delay + 1,
            at as int,
            fine.last_scan_peak_at->0 as int,
        );
        assert(after.acquirer->0.rescanned_from(start.with_fine(fine), obs, action));
    }
}

/// What a coarse score reaches: the coarse scan, and nothing else.
pub proof fn lemma_what_a_coarse_score_reaches(
    before: Aec,
    after: Aec,
    score: crate::coarse::CoarseScore,
)
    requires
        before.acquirer is Some,
        after.scored_from(before, score),
    ensures
        after == (Aec { acquirer: after.acquirer, ..before }),
        after.acquirer is Some,
        after.acquirer->0 == (DelayAcquirer {
            coarse: after.acquirer->0.coarse,
            ..before.acquirer->0
        }),
        after.acquirer->0.coarse.observed_from(before.acquirer->0.coarse, score),
{
}

} // verus!
