//! The promises on capture losses: what a caller's own lead is learned to be, when a
//! departure from it is a loss, and what a declared or inferred loss does to the stream.

use vstd::prelude::*;

use crate::engine::{Aec, CaptureContinuity};
use crate::laws::tracking::gap;
use crate::lead::{after_leads, LeadModel};
use crate::sample::Sample;

verus! {

/// The larger of two counts.
pub open spec fn greater(a: int, b: int) -> int {
    if a < b {
        b
    } else {
        a
    }
}

/// The lowest lead a model remembers, over both of its windows.
pub open spec fn lowest(model: LeadModel) -> int {
    match (model.previous, model.current) {
        (Some(a), Some(b)) => if a.0 < b.0 {
            a.0 as int
        } else {
            b.0 as int
        },
        (Some(a), None) => a.0 as int,
        (None, Some(b)) => b.0 as int,
        (None, None) => 0,
    }
}

/// The highest lead a model remembers, over both of its windows.
pub open spec fn highest(model: LeadModel) -> int {
    match (model.previous, model.current) {
        (Some(a), Some(b)) => greater(a.1 as int, b.1 as int),
        (Some(a), None) => a.1 as int,
        (None, Some(b)) => b.1 as int,
        (None, None) => 0,
    }
}

/// Whether a model has learned any lead.
pub open spec fn has_learned(model: LeadModel) -> bool {
    model.previous is Some || model.current is Some
}

/// The largest near block a model remembers, `block_len` included, and at least one.
pub open spec fn biggest_block(model: LeadModel, block_len: int) -> int {
    let previous: int = match model.previous_block {
        Some(block) => block as int,
        None => 1,
    };
    let current: int = match model.current_block {
        Some(block) => block as int,
        None => 1,
    };
    greater(greater(previous, current), greater(block_len, 1))
}

/// How far a caller's lead swings by itself: the span of what is remembered, and never
/// less than the block it delivers audio in.
pub open spec fn swing(model: LeadModel, block_len: int) -> int {
    greater(highest(model) - lowest(model), biggest_block(model, block_len))
}

/// Whether a lead cannot be the caller's own behaviour: it stands above everything
/// remembered by more than the caller's own swing.
pub open spec fn extraordinary(model: LeadModel, lead: int, block_len: int) -> bool {
    has_learned(model) && lead > highest(model) + swing(model, block_len)
}

/// How many extraordinary leads in a row make a loss: more than a drain at one block a
/// call through the caller's own swing can produce, and at least four.
pub open spec fn calls_needed(model: LeadModel, block_len: int) -> int {
    greater(4, swing(model, block_len) / biggest_block(model, block_len) + 3)
}

/// A loss is inferred exactly when 32 ordinary leads have been learned and the lead has
/// been extraordinary, without draining away by more than the caller's own swing, for
/// as many calls in a row as are needed, however wide or narrow the swing is.
pub proof fn lemma_when_a_loss_is_inferred(model: LeadModel, lead: u64, block_len: u64)
    requires
        model.wf(),
        model.run < u32::MAX,
        calls_needed(model, block_len as int) <= u32::MAX,
    ensures
        model.infers(lead, block_len) <==> {
            &&& model.blocks >= 32
            &&& extraordinary(model, lead as int, block_len as int)
            &&& model.run_max - lead <= swing(model, block_len as int)
            &&& model.run + 1 >= calls_needed(model, block_len as int)
        },
{
    lemma_the_margin_is_the_swing(model, block_len);
    let ratio = swing(model, block_len as int) / biggest_block(model, block_len as int);
    assert(0 <= ratio) by (nonlinear_arith)
        requires
            swing(model, block_len as int) >= 0,
            biggest_block(model, block_len as int) >= 1,
            ratio == swing(model, block_len as int) / biggest_block(model, block_len as int),
    ;
    assert(ratio % 0x1_0000_0000 == ratio);
    assert(swing(model, block_len as int) >= 1);
}

/// The learned envelope, margin and bound are those of what is remembered.
proof fn lemma_the_margin_is_the_swing(model: LeadModel, block_len: u64)
    requires
        model.wf(),
    ensures
        ({
            let seen = model.with_block(block_len);
            &&& seen.largest_block() == biggest_block(model, block_len as int)
            &&& seen.tolerance() == swing(model, block_len as int)
            &&& forall|lead: u64| #[trigger]
                seen.outside(lead) <==> extraordinary(model, lead as int, block_len as int)
            &&& model.learned() is Some <==> has_learned(model)
            &&& model.learned() matches Some((low, high)) ==> low == lowest(model) && high
                == highest(model)
        }),
{
    let seen = model.with_block(block_len);
    assert(seen.learned() == model.learned());
    assert(seen.largest_block() == biggest_block(model, block_len as int));
}

/// What one call leaves of the model. An ordinary lead ends the run and widens the
/// filling window by itself, and nothing else does; the window retires, with its
/// largest block, on its 128th ordinary lead. An extraordinary one learns nothing: it
/// extends the run, or starts it again once the lead has drained.
pub proof fn lemma_what_a_call_leaves_of_the_model(model: LeadModel, lead: u64, block_len: u64)
    requires
        model.wf(),
        model.run < u32::MAX,
        model.blocks < u32::MAX,
    ensures
        ({
            let after = model.observed(lead, block_len);
            let block = match model.current_block {
                Some(block) => greater(block as int, block_len as int),
                None => block_len as int,
            };
            let widened = match model.current {
                Some((low, high)) => (
                    if lead < low {
                        lead
                    } else {
                        low
                    },
                    if lead > high {
                        lead
                    } else {
                        high
                    },
                ),
                None => (lead, lead),
            };
            if extraordinary(model, lead as int, block_len as int) {
                &&& after.blocks == model.blocks
                &&& after.previous == model.previous
                &&& after.current == model.current
                &&& after.current_blocks == model.current_blocks
                &&& after.previous_block == model.previous_block
                &&& after.current_block == Some(block as u64)
                &&& if model.run_max - lead > swing(model, block_len as int) {
                    after.run == 1 && after.run_max == lead
                } else {
                    after.run == model.run + 1 && after.run_max == greater(
                        model.run_max as int,
                        lead as int,
                    )
                }
            } else {
                &&& after.run == 0 && after.run_max == 0
                &&& after.blocks == model.blocks + 1
                &&& if model.current_blocks == 127 {
                    &&& after.previous == Some(widened)
                    &&& after.current is None
                    &&& after.current_blocks == 0
                    &&& after.previous_block == Some(block as u64)
                    &&& after.current_block is None
                } else {
                    &&& after.previous == model.previous
                    &&& after.current == Some(widened)
                    &&& after.current_blocks == model.current_blocks + 1
                    &&& after.previous_block == model.previous_block
                    &&& after.current_block == Some(block as u64)
                }
            }
        }),
{
    lemma_the_margin_is_the_swing(model, block_len);
    assert(swing(model, block_len as int) >= 1);
}

/// A sustained step is always caught: on a learned baseline, leads that all stand above
/// everything remembered by more than the caller's own swing, and lie within that swing
/// of one another, infer a loss as soon as there are as many of them in a row as are
/// needed, and not before, however far the caller's lead ordinarily swings.
pub proof fn lemma_a_sustained_step_is_inferred(model: LeadModel, leads: Seq<u64>, block_len: u64)
    requires
        model.wf(),
        model.blocks >= 32,
        model.run == 0,
        has_learned(model),
        leads.len() > 0,
        leads.len() < u32::MAX,
        calls_needed(model, block_len as int) <= u32::MAX,
        forall|i: int|
            0 <= i < leads.len() ==> extraordinary(
                model,
                #[trigger] leads[i] as int,
                block_len as int,
            ),
        forall|i: int, j: int|
            0 <= i < leads.len() && 0 <= j < leads.len() ==> gap(
                #[trigger] leads[i] as int,
                #[trigger] leads[j] as int,
            ) <= swing(model, block_len as int),
    ensures
        ({
            let earlier = leads.drop_last().map_values(|lead: u64| (lead, block_len));
            after_leads(model, earlier).infers(leads.last(), block_len) <==> leads.len()
                >= calls_needed(model, block_len as int)
        }),
{
    let shorter = leads.drop_last();
    lemma_a_step_builds_a_run(model, shorter, block_len);
    let state = after_leads(model, shorter.map_values(|lead: u64| (lead, block_len)));
    lemma_when_a_loss_is_inferred(state, leads.last(), block_len);
    assert(leads.last() == leads[leads.len() - 1]);
    if shorter.len() > 0 {
        let k = choose|k: int| 0 <= k < shorter.len() && state.run_max == shorter[k];
        assert(shorter[k] == leads[k]);
        assert(gap(leads[k] as int, leads[leads.len() - 1] as int) <= swing(
            model,
            block_len as int,
        ));
    }
}

/// While a step lasts, the run counts it and nothing of it is learned.
#[verifier::rlimit(60)]
proof fn lemma_a_step_builds_a_run(model: LeadModel, leads: Seq<u64>, block_len: u64)
    requires
        model.wf(),
        model.run == 0,
        has_learned(model),
        leads.len() < u32::MAX,
        forall|i: int|
            0 <= i < leads.len() ==> extraordinary(
                model,
                #[trigger] leads[i] as int,
                block_len as int,
            ),
        forall|i: int, j: int|
            0 <= i < leads.len() && 0 <= j < leads.len() ==> gap(
                #[trigger] leads[i] as int,
                #[trigger] leads[j] as int,
            ) <= swing(model, block_len as int),
    ensures
        ({
            let after = after_leads(model, leads.map_values(|lead: u64| (lead, block_len)));
            &&& after.wf()
            &&& after.run == leads.len()
            &&& after.blocks == model.blocks
            &&& after.previous == model.previous
            &&& after.current == model.current
            &&& biggest_block(after, block_len as int) == biggest_block(model, block_len as int)
            &&& leads.len() == 0 ==> after.run_max == 0
            &&& leads.len() > 0 ==> exists|k: int| 0 <= k < leads.len() && after.run_max == leads[k]
        }),
    decreases leads.len(),
{
    let observations = leads.map_values(|lead: u64| (lead, block_len));
    if leads.len() > 0 {
        let shorter = leads.drop_last();
        lemma_a_step_builds_a_run(model, shorter, block_len);
        assert(shorter.map_values(|lead: u64| (lead, block_len)) =~= observations.drop_last());
        let before = after_leads(model, observations.drop_last());
        let lead = leads.last();
        assert(lead == leads[leads.len() - 1]);
        assert(extraordinary(model, leads[leads.len() - 1] as int, block_len as int));
        lemma_the_margin_is_the_swing(before, block_len);
        assert(swing(before, block_len as int) == swing(model, block_len as int));
        if shorter.len() > 0 {
            let k = choose|k: int| 0 <= k < shorter.len() && before.run_max == shorter[k];
            assert(shorter[k] == leads[k]);
            assert(gap(leads[k] as int, leads[leads.len() - 1] as int) <= swing(
                model,
                block_len as int,
            ));
            assert(before.run_max - lead <= swing(model, block_len as int));
        }
        let after = before.observed(lead, block_len);
        assert(after.run == before.run + 1);
        if after.run_max == lead {
            assert(after.run_max == leads[leads.len() - 1]);
        } else {
            let k = choose|k: int| 0 <= k < shorter.len() && before.run_max == shorter[k];
            assert(after.run_max == leads[k]);
        }
    }
}

/// Whether a window is exactly the span of some leads: it holds every one of them, and
/// each of its two edges is one of them.
pub open spec fn spans(window: Option<(u64, u64)>, leads: Seq<u64>) -> bool {
    match window {
        None => leads.len() == 0,
        Some((low, high)) => {
            &&& exists|i: int| 0 <= i < leads.len() && #[trigger] leads[i] == low
            &&& exists|i: int| 0 <= i < leads.len() && #[trigger] leads[i] == high
            &&& forall|i: int| 0 <= i < leads.len() ==> low <= #[trigger] leads[i] <= high
        },
    }
}

/// Widening a window by a lead spans one lead more.
proof fn lemma_one_lead_more(window: Option<(u64, u64)>, leads: Seq<u64>, lead: u64)
    requires
        spans(window, leads),
    ensures
        spans(crate::lead::bucket_with(window, lead), leads.push(lead)),
{
    let more = leads.push(lead);
    assert(more[leads.len() as int] == lead);
    match window {
        None => {},
        Some((low, high)) => {
            let i = choose|i: int| 0 <= i < leads.len() && #[trigger] leads[i] == low;
            let j = choose|j: int| 0 <= j < leads.len() && #[trigger] leads[j] == high;
            assert(more[i] == low);
            assert(more[j] == high);
            let (a, b) = crate::lead::bucket_with(window, lead)->0;
            assert forall|k: int| 0 <= k < more.len() implies a <= #[trigger] more[k] <= b by {
                if k < leads.len() {
                    assert(more[k] == leads[k]);
                }
            }
        },
    }
}

/// What is remembered of a steady caller is its recent leads and nothing older: the
/// filling window spans the leads since the last 128 were retired, and the retired one
/// spans those 128.
#[verifier::rlimit(60)]
pub proof fn lemma_the_envelope_is_the_recent_past(leads: Seq<u64>, block_len: u64, low: u64)
    requires
        leads.len() < u32::MAX,
        forall|i: int| 0 <= i < leads.len() ==> low <= #[trigger] leads[i] <= low + block_len,
    ensures
        ({
            let model = after_leads(
                LeadModel::fresh(),
                leads.map_values(|lead: u64| (lead, block_len)),
            );
            let n = leads.len() as int;
            let filling = n % 128;
            &&& model.wf()
            &&& model.blocks == n
            &&& model.run == 0
            &&& model.current_blocks == filling
            &&& spans(model.current, leads.skip(n - filling))
            &&& if n < 128 {
                model.previous is None
            } else {
                spans(model.previous, leads.subrange(n - filling - 128, n - filling))
            }
        }),
    decreases leads.len(),
{
    let observations = leads.map_values(|lead: u64| (lead, block_len));
    let n = leads.len() as int;
    if n == 0 {
        assert(leads.skip(0) =~= Seq::<u64>::empty());
    } else {
        let shorter = leads.drop_last();
        assert forall|i: int| 0 <= i < shorter.len() implies low <= #[trigger] shorter[i] <= low
            + block_len by {
            assert(shorter[i] == leads[i]);
        }
        lemma_the_envelope_is_the_recent_past(shorter, block_len, low);
        assert(shorter.map_values(|lead: u64| (lead, block_len)) =~= observations.drop_last());
        let before = after_leads(LeadModel::fresh(), observations.drop_last());
        let lead = leads.last();
        assert(lead == leads[n - 1]);
        let m = n - 1;
        let held = shorter.skip(m - m % 128);
        lemma_the_margin_is_the_swing(before, block_len);
        assert(!extraordinary(before, lead as int, block_len as int)) by {
            assert(biggest_block(before, block_len as int) >= block_len);
            if before.current is Some {
                let (a, b) = before.current->0;
                let i = choose|i: int| 0 <= i < held.len() && #[trigger] held[i] == b;
                assert(held[i] == leads[m - m % 128 + i]);
            }
            if before.previous is Some {
                let old = shorter.subrange(m - m % 128 - 128, m - m % 128);
                let (a, b) = before.previous->0;
                let i = choose|i: int| 0 <= i < old.len() && #[trigger] old[i] == b;
                assert(old[i] == leads[m - m % 128 - 128 + i]);
            }
        }
        lemma_one_lead_more(before.current, held, lead);
        let after = before.observed(lead, block_len);
        if m % 128 == 127 {
            assert(held.push(lead) =~= leads.subrange(n - 128, n));
            assert(leads.skip(n) =~= Seq::<u64>::empty());
        } else {
            assert(n % 128 == m % 128 + 1);
            assert(held.push(lead) =~= leads.skip(n - n % 128));
            if n >= 128 {
                assert(shorter.subrange(m - m % 128 - 128, m - m % 128) =~= leads.subrange(
                    n - n % 128 - 128,
                    n - n % 128,
                ));
            }
        }
    }
}

/// How far the reference feed has run ahead of the near stream: the samples fed past
/// the one the next near sample is paired with, none when it has fallen behind.
pub open spec fn run_ahead(aec: Aec) -> int {
    let next_near = aec.anchor->0 + aec.near_processed;
    if aec.ring.next_abs > next_near {
        aec.ring.next_abs - next_near
    } else {
        0
    }
}

/// When a block re-anchors: at the first block of a stream, on a declared discontinuity,
/// when the feed has run ahead by the ring's whole depth, and when the learned model
/// infers a loss from how far it has run ahead. It then starts at the reference
/// frontier, and every other block starts where the one before it ended. A declared
/// seam counts as a discontinuity and an inferred one as a re-anchor, never both, and
/// either has the lead learned afresh.
pub proof fn lemma_when_a_block_re_anchors(before: Aec, after: Aec, near: Seq<Sample>)
    requires
        before.wf(),
        near.len() <= usize::MAX,
        before.capture_discontinuities < u64::MAX,
        before.reference_reanchors < u64::MAX,
        after.opened_from(before, near),
    ensures
        ({
            let declared = before.declared_continuity is Discontinuity;
            let inferred = !declared && before.anchor is Some && (run_ahead(before)
                >= before.ring.capacity || before.lead.infers(
                run_ahead(before) as u64,
                near.len() as u64,
            ));
            let seam = declared || inferred;
            &&& after.anchor is Some
            &&& if seam || before.anchor is None {
                after.anchor->0 == before.ring.next_abs && after.near_processed == 0
            } else {
                after.anchor == before.anchor && after.near_processed == before.near_processed
            }
            &&& after.capture_discontinuities - before.capture_discontinuities == (if declared {
                1int
            } else {
                0
            })
            &&& after.reference_reanchors - before.reference_reanchors == (if inferred {
                1int
            } else {
                0
            })
            &&& seam ==> after.lead == LeadModel::fresh()
            &&& !seam && before.anchor is Some ==> after.lead == before.lead.observed(
                run_ahead(before) as u64,
                near.len() as u64,
            )
            &&& !seam && before.anchor is None ==> after.lead == before.lead
            &&& after.declared_continuity == CaptureContinuity::Continuous
            &&& after.near_scratch@.len() == near.len()
            &&& forall|i: int|
                0 <= i < near.len() ==> #[trigger] after.near_scratch@[i] == (
                if near[i].finite() {
                    near[i]
                } else {
                    Sample { bits: 0 }
                })
            &&& after.in_block
            &&& after.faded == 0
            &&& after.cursor == (if before.acquirer is None {
                near.len()
            } else {
                0
            })
            &&& after == (Aec {
                near_scratch: after.near_scratch,
                acquirer: after.acquirer,
                declared_continuity: after.declared_continuity,
                capture_discontinuities: after.capture_discontinuities,
                capture_samples_lost: after.capture_samples_lost,
                declarations_without_decision: after.declarations_without_decision,
                declarations_without_decision_max: after.declarations_without_decision_max,
                reference_reanchors: after.reference_reanchors,
                lead: after.lead,
                anchor: after.anchor,
                near_processed: after.near_processed,
                in_block: true,
                cursor: after.cursor,
                faded: 0,
                ..before
            })
        }),
{
}

/// What a block's opening leaves of the acquisition. A seam discards the frames under
/// construction, the running averages and the tracking cycle, wakes an idle and
/// suspects the lock; the lock itself, a found region, the far history and the budgets
/// stand. Any other block changes none of it. Either way the acquisition's cursor
/// stands at the block's first sample.
#[verifier::rlimit(60)]
pub proof fn lemma_what_a_seam_takes_from_the_acquisition(
    before: Aec,
    after: Aec,
    near: Seq<Sample>,
)
    requires
        before.wf(),
        before.acquirer is Some,
        after.opened_from(before, near),
        before.anchor is Some ==> before.anchor->0 + before.near_processed <= u64::MAX,
    ensures
        ({
            let old_one = before.acquirer->0;
            let new_one = after.acquirer->0;
            let seam = before.declared_continuity is Discontinuity || after.reference_reanchors
                != before.reference_reanchors;
            &&& after.acquirer is Some
            &&& new_one.next_near_abs == after.anchor->0 + after.near_processed
            &&& new_one.anchored
            &&& new_one.locked == old_one.locked
            &&& new_one.source == old_one.source
            &&& new_one.state == old_one.state
            &&& new_one.reacquiring == old_one.reacquiring
            &&& new_one.relocations == old_one.relocations
            &&& new_one.regions_rejected == old_one.regions_rejected
            &&& new_one.pending_region == old_one.pending_region
            &&& new_one.coarse.best == old_one.coarse.best
            &&& new_one.coarse.frames == old_one.coarse.frames
            &&& new_one.coarse.exhausted == old_one.coarse.exhausted
            &&& new_one.coarse.far_env == old_one.coarse.far_env
            &&& new_one.coarse.far_block@ == old_one.coarse.far_block@
            &&& new_one.fine.search_origin == old_one.fine.search_origin
            &&& seam ==> {
                &&& new_one.fine.near_frame@.len() == 0
                &&& new_one.fine.frames == 0
                &&& new_one.coarse.near_block@.len() == 0
                &&& new_one.coarse.accumulated == 0
                &&& forall|k: int|
                    0 <= k <= old_one.coarse.span ==> (#[trigger] new_one.coarse.corr_avg@[k]).bits
                        == 0
                &&& new_one.cycle_scored == 0
                &&& new_one.cycle_candidate is None
                &&& new_one.idle_samples == 0
                &&& new_one.idle_depth == 0
                &&& new_one.stable_cycles == 0
                &&& new_one.last_cycle_delay is None
                &&& new_one.tracker is Some ==> new_one.tracker->0.suspect
                    && new_one.tracker->0.pending_move is None
                    && new_one.tracker->0.unconfident_cycles == 0
            }
            &&& !seam && before.reference_reanchors < u64::MAX ==> {
                &&& new_one.fine == old_one.fine
                &&& new_one.coarse == old_one.coarse
                &&& new_one.tracker == old_one.tracker
                &&& new_one.cycle_scored == old_one.cycle_scored
                &&& new_one.cycle_candidate == old_one.cycle_candidate
                &&& new_one.idle_samples == old_one.idle_samples
                &&& new_one.idle_depth == old_one.idle_depth
                &&& new_one.stable_cycles == old_one.stable_cycles
                &&& new_one.last_cycle_delay == old_one.last_cycle_delay
            }
        }),
{
    let count = near.len() as u64;
    if before.seams(count) {
        let middle = choose|middle: crate::acquire::DelayAcquirer| #[trigger]
            middle.seamed_from(before.acquirer->0) && after.acquirer->0
                == (crate::acquire::DelayAcquirer {
                next_near_abs: before.block_base(count),
                anchored: true,
                ..middle
            });
        assert(middle.seamed_from(before.acquirer->0));
    }
}

/// What a declaration leaves pending, over any run of them before one block: a
/// discontinuity once one was declared, and the sum of the losses that were reported,
/// none when none was.
pub proof fn lemma_declarations_add_up(held: CaptureContinuity, fresh: CaptureContinuity)
    ensures
        ({
            let after = crate::engine::latched(held, fresh);
            let reported = |c: CaptureContinuity|
                match c {
                    CaptureContinuity::Discontinuity { lost_samples } => lost_samples,
                    CaptureContinuity::Continuous => None,
                };
            &&& after is Discontinuity <==> held is Discontinuity || fresh is Discontinuity
            &&& reported(after) is Some <==> reported(held) is Some || reported(fresh) is Some
            &&& reported(held) is None ==> reported(after) == reported(fresh)
            &&& reported(fresh) is None ==> reported(after) == reported(held)
            &&& reported(held) is Some && reported(fresh) is Some && reported(held)->0
                + reported(fresh)->0 <= u64::MAX ==> reported(after)->0 == reported(held)->0
                + reported(fresh)->0
        }),
{
}

/// What an applied declaration counts: its reported loss is added to the total, a block
/// with none adds nothing, and the run of declarations that found no alignment grows by
/// one exactly when none stands, starts again at zero when one does, and is kept at its
/// longest.
pub proof fn lemma_what_an_applied_declaration_counts(before: Aec, after: Aec, near: Seq<Sample>)
    requires
        after.opened_from(before, near),
        before.declarations_without_decision < u64::MAX,
    ensures
        ({
            let lost = match before.declared_continuity {
                CaptureContinuity::Discontinuity { lost_samples: Some(lost) } => lost as int,
                _ => 0,
            };
            &&& before.capture_samples_lost + lost <= u64::MAX ==> after.capture_samples_lost
                == before.capture_samples_lost + lost
            &&& after.declarations_without_decision == (
            if before.declared_continuity is Continuous {
                before.declarations_without_decision as int
            } else if before.delay_known {
                0
            } else {
                before.declarations_without_decision + 1
            })
            &&& after.declarations_without_decision_max == greater(
                before.declarations_without_decision_max as int,
                after.declarations_without_decision as int,
            )
        }),
{
}

} // verus!
