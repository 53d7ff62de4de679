//! What holds over a whole stream through the canceller: what one block delivers,
//! what a process call of any length appends, and what chunking, a reset and a
//! silent far end can and cannot change.
//!
//! What the host measures and computes for a block is given as one [`BlockTurn`].
//! Two streams are compared turn by turn.

use vstd::prelude::*;

use crate::sample::{Measure, Sample};
use crate::tau::{CoherenceReading, GuardReading, PathReading, TauCanceller, BLOCK};

verus! {

/// What the host measures and computes for one block, in the order the block asks
/// for it.
pub struct BlockTurn {
    /// The shadow filter's error.
    pub shadow_error: Seq<Sample>,
    /// The output filter's error.
    pub output_error: Seq<Sample>,
    /// The far-end energy of the block.
    pub far_energy: Measure,
    /// The share of the running energy peak that counts as activity.
    pub share_of_peak: Measure,
    /// The coherence judgement's measurements.
    pub coherence: CoherenceReading,
    /// The two-path comparison's measurements.
    pub paths: PathReading,
    /// Whether the updated shadow is finite. Read only when the shadow adapts.
    pub shadow_finite: bool,
    /// The suppressor's output.
    pub suppressed: Seq<Sample>,
    /// The divergence guard's measurements.
    pub guard: GuardReading,
    /// The smoothed near-end power with the block folded in.
    pub near_power: Measure,
    /// The smoothed residual power with the block folded in.
    pub residual_power: Measure,
}

/// Whether `states` are what one block runs through, from the full carry to the
/// closed block, `turn` being what the host supplies for it.
pub open spec fn steps_through(
    states: Seq<TauCanceller>,
    valid: usize,
    adapt: bool,
    turn: BlockTurn,
) -> bool {
    &&& states.len() == 11
    &&& forall|i: int| 0 <= i < 11 ==> (#[trigger] states[i]).wf()
    &&& valid <= BLOCK
    &&& states[0].awaits is Fill
    &&& states[0].ready()
    &&& states[1].opened_from(states[0], valid, adapt)
    &&& states[2].shadow_taken_from(states[1], turn.shadow_error)
    &&& states[3].output_taken_from(states[2], turn.output_error)
    &&& states[4] == states[3].judged_by(turn)
    &&& states[5] == states[4].compared(turn.paths)
    &&& states[6] == states[5].updated(turn.shadow_finite)
    &&& states[7].window_slid_from(states[6])
    &&& states[8].delivery_set_from(states[7], turn.suppressed)
    &&& states[9].guarded_from(states[8], turn.guard)
    &&& states[10].closed_from(states[9], turn.near_power, turn.residual_power)
}

impl TauCanceller {
    /// The canceller with the far end's energy noted, its activity decided and the
    /// coherence judged.
    pub open spec fn judged_by(self, turn: BlockTurn) -> TauCanceller {
        self.energy_noted(turn.far_energy).activity_judged(
            turn.far_energy,
            turn.share_of_peak,
        ).coherence_judged(turn.coherence)
    }

    /// The canceller with the shadow's update noted, when the shadow adapts.
    pub open spec fn updated(self, finite: bool) -> TauCanceller {
        if self.awaits is ShadowUpdate {
            self.update_noted(finite)
        } else {
            self
        }
    }

    /// Whether `self` is what one block leaves of `before`, and `delivered` what it
    /// delivers.
    #[verifier::opaque]
    pub open spec fn turned_from(
        self,
        before: TauCanceller,
        valid: usize,
        adapt: bool,
        turn: BlockTurn,
        delivered: Seq<Sample>,
    ) -> bool {
        exists|states: Seq<TauCanceller>| #[trigger]
            steps_through(states, valid, adapt, turn) && states[0] == before && states[10] == self
                && delivered == states[9].output_block@.take(valid as int)
    }

    /// Whether `self` is what a process call leaves of `before`, and `appended` what
    /// it appends: the chunk is accepted up to the end of the block under
    /// construction, a completed block takes its turn, and the rest goes on from
    /// there.
    pub open spec fn processed_from(
        self,
        before: TauCanceller,
        near: Seq<Sample>,
        far: Seq<Sample>,
        turns: Seq<BlockTurn>,
        appended: Seq<Sample>,
    ) -> bool
        decreases near.len(),
    {
        let take = crate::tau::taken(before.near_carry@.len() as int, near.len() as int);
        if near.len() == 0 {
            self == before && turns.len() == 0 && appended.len() == 0 && far.len() == 0
        } else if before.near_carry@.len() >= BLOCK || far.len() != near.len() {
            false
        } else {
            exists|filled: TauCanceller| #[trigger]
                filled.accepted_from(before, near, far) && filled.wf() && (if !filled.ready() {
                    self == filled && turns.len() == 0 && appended.len() == 0
                } else {
                    turns.len() > 0 && appended.len() >= BLOCK && exists|middle: TauCanceller|
                        #[trigger]
                        middle.turned_from(
                            filled,
                            BLOCK,
                            true,
                            turns[0],
                            appended.take(BLOCK as int),
                        ) && self.processed_from(
                            middle,
                            near.skip(take),
                            far.skip(take),
                            turns.skip(1),
                            appended.skip(BLOCK as int),
                        )
                })
        }
    }

    /// Whether `self` is what a flush leaves of `before`, and `appended` what it
    /// appends: nothing without a remainder, and otherwise the remainder's own
    /// samples of its padded block, which is not adapted on.
    pub open spec fn flushed_from(
        self,
        before: TauCanceller,
        turn: BlockTurn,
        appended: Seq<Sample>,
    ) -> bool {
        if before.near_carry@.len() == 0 {
            self == before && appended.len() == 0
        } else {
            exists|full: TauCanceller| #[trigger]
                full.padded_from(before) && self.turned_from(
                    full,
                    before.near_carry@.len() as usize,
                    false,
                    turn,
                    appended,
                )
        }
    }

    /// How many divergence resets and transfers were counted since `earlier`.
    pub open spec fn counted_since(self, earlier: TauCanceller) -> (int, int) {
        (
            self.divergence_resets - earlier.divergence_resets,
            self.transfers - earlier.transfers,
        )
    }
}

/// Whether two cancellers in the same state went on to the same state and counted the
/// same on the way.
pub open spec fn go_on_alike(
    a: TauCanceller,
    b: TauCanceller,
    after_a: TauCanceller,
    after_b: TauCanceller,
) -> bool {
    after_a.alike(after_b) && after_a.counted_since(a) == after_b.counted_since(b)
}

/// Opening a block keeps two cancellers alike.
proof fn lemma_opening_keeps_alike(
    a: TauCanceller,
    b: TauCanceller,
    after_a: TauCanceller,
    after_b: TauCanceller,
    valid: usize,
    adapt: bool,
)
    requires
        a.alike(b),
        a.wf(),
        b.wf(),
        after_a.wf(),
        after_b.wf(),
        after_a.opened_from(a, valid, adapt),
        after_b.opened_from(b, valid, adapt),
    ensures
        go_on_alike(a, b, after_a, after_b),
{
}

/// Taking the shadow's error keeps two cancellers alike.
proof fn lemma_taking_the_shadow_error_keeps_alike(
    a: TauCanceller,
    b: TauCanceller,
    after_a: TauCanceller,
    after_b: TauCanceller,
    error: Seq<Sample>,
)
    requires
        a.alike(b),
        a.wf(),
        b.wf(),
        after_a.wf(),
        after_b.wf(),
        a.awaits is ShadowError,
        after_a.shadow_taken_from(a, error),
        after_b.shadow_taken_from(b, error),
    ensures
        go_on_alike(a, b, after_a, after_b),
{
}

/// Taking the output's error keeps two cancellers alike.
proof fn lemma_taking_the_output_error_keeps_alike(
    a: TauCanceller,
    b: TauCanceller,
    after_a: TauCanceller,
    after_b: TauCanceller,
    error: Seq<Sample>,
)
    requires
        a.alike(b),
        a.wf(),
        b.wf(),
        after_a.wf(),
        after_b.wf(),
        a.awaits is OutputError,
        after_a.output_taken_from(a, error),
        after_b.output_taken_from(b, error),
    ensures
        go_on_alike(a, b, after_a, after_b),
{
}

/// Judging a block's far end and coherence keeps two cancellers alike.
proof fn lemma_judging_keeps_alike(
    a: TauCanceller,
    b: TauCanceller,
    after_a: TauCanceller,
    after_b: TauCanceller,
    turn: BlockTurn,
)
    requires
        a.alike(b),
        a.wf(),
        b.wf(),
        after_a.wf(),
        after_b.wf(),
        after_a == a.judged_by(turn),
        after_b == b.judged_by(turn),
    ensures
        go_on_alike(a, b, after_a, after_b),
{
}

/// Comparing the two paths keeps two cancellers alike.
proof fn lemma_comparing_keeps_alike(
    a: TauCanceller,
    b: TauCanceller,
    after_a: TauCanceller,
    after_b: TauCanceller,
    reading: PathReading,
)
    requires
        a.alike(b),
        a.wf(),
        b.wf(),
        after_a.wf(),
        after_b.wf(),
        a.awaits is Paths,
        after_a == a.compared(reading),
        after_b == b.compared(reading),
    ensures
        go_on_alike(a, b, after_a, after_b),
{
}

/// Noting the shadow's update keeps two cancellers alike.
proof fn lemma_updating_keeps_alike(
    a: TauCanceller,
    b: TauCanceller,
    after_a: TauCanceller,
    after_b: TauCanceller,
    finite: bool,
)
    requires
        a.alike(b),
        a.wf(),
        b.wf(),
        after_a.wf(),
        after_b.wf(),
        after_a == a.updated(finite),
        after_b == b.updated(finite),
    ensures
        go_on_alike(a, b, after_a, after_b),
{
}

/// Sliding the suppressor's window keeps two cancellers alike.
proof fn lemma_sliding_keeps_alike(
    a: TauCanceller,
    b: TauCanceller,
    after_a: TauCanceller,
    after_b: TauCanceller,
)
    requires
        a.alike(b),
        a.wf(),
        b.wf(),
        after_a.wf(),
        after_b.wf(),
        after_a.window_slid_from(a),
        after_b.window_slid_from(b),
    ensures
        go_on_alike(a, b, after_a, after_b),
{
}

/// Setting the delivered block keeps two cancellers alike.
proof fn lemma_delivering_keeps_alike(
    a: TauCanceller,
    b: TauCanceller,
    after_a: TauCanceller,
    after_b: TauCanceller,
    suppressed: Seq<Sample>,
)
    requires
        a.alike(b),
        a.wf(),
        b.wf(),
        after_a.wf(),
        after_b.wf(),
        after_a.delivery_set_from(a, suppressed),
        after_b.delivery_set_from(b, suppressed),
    ensures
        go_on_alike(a, b, after_a, after_b),
{
}

/// Passing the divergence guard keeps two cancellers alike.
proof fn lemma_guarding_keeps_alike(
    a: TauCanceller,
    b: TauCanceller,
    after_a: TauCanceller,
    after_b: TauCanceller,
    reading: GuardReading,
)
    requires
        a.alike(b),
        a.wf(),
        b.wf(),
        after_a.wf(),
        after_b.wf(),
        a.awaits is Guard,
        after_a.guarded_from(a, reading),
        after_b.guarded_from(b, reading),
    ensures
        go_on_alike(a, b, after_a, after_b),
{
}

/// Closing a block keeps two cancellers alike.
proof fn lemma_closing_keeps_alike(
    a: TauCanceller,
    b: TauCanceller,
    after_a: TauCanceller,
    after_b: TauCanceller,
    near_power: Measure,
    residual_power: Measure,
)
    requires
        a.alike(b),
        a.wf(),
        b.wf(),
        after_a.wf(),
        after_b.wf(),
        after_a.closed_from(a, near_power, residual_power),
        after_b.closed_from(b, near_power, residual_power),
    ensures
        go_on_alike(a, b, after_a, after_b),
{
}

/// A block is deterministic: the same turn taken by two cancellers in the same state
/// leaves them in the same state, delivers the same samples and counts the same.
#[verifier::rlimit(60)]
pub proof fn lemma_a_turn_is_deterministic(
    a: TauCanceller,
    b: TauCanceller,
    after_a: TauCanceller,
    after_b: TauCanceller,
    valid: usize,
    adapt: bool,
    turn: BlockTurn,
    delivered_a: Seq<Sample>,
    delivered_b: Seq<Sample>,
)
    requires
        a.alike(b),
        after_a.turned_from(a, valid, adapt, turn, delivered_a),
        after_b.turned_from(b, valid, adapt, turn, delivered_b),
    ensures
        after_a.alike(after_b),
        delivered_a == delivered_b,
        after_a.counted_since(a) == after_b.counted_since(b),
{
    reveal(TauCanceller::turned_from);
    let x = choose|states: Seq<TauCanceller>| #[trigger]
        steps_through(states, valid, adapt, turn) && states[0] == a && states[10] == after_a
            && delivered_a == states[9].output_block@.take(valid as int);
    let y = choose|states: Seq<TauCanceller>| #[trigger]
        steps_through(states, valid, adapt, turn) && states[0] == b && states[10] == after_b
            && delivered_b == states[9].output_block@.take(valid as int);
    lemma_opening_keeps_alike(x[0], y[0], x[1], y[1], valid, adapt);
    lemma_taking_the_shadow_error_keeps_alike(x[1], y[1], x[2], y[2], turn.shadow_error);
    lemma_taking_the_output_error_keeps_alike(x[2], y[2], x[3], y[3], turn.output_error);
    lemma_judging_keeps_alike(x[3], y[3], x[4], y[4], turn);
    lemma_comparing_keeps_alike(x[4], y[4], x[5], y[5], turn.paths);
    lemma_updating_keeps_alike(x[5], y[5], x[6], y[6], turn.shadow_finite);
    lemma_sliding_keeps_alike(x[6], y[6], x[7], y[7]);
    lemma_delivering_keeps_alike(x[7], y[7], x[8], y[8], turn.suppressed);
    lemma_guarding_keeps_alike(x[8], y[8], x[9], y[9], turn.guard);
    lemma_closing_keeps_alike(x[9], y[9], x[10], y[10], turn.near_power, turn.residual_power);
}

/// What every turn leaves: an empty carry, the canceller ready to fill the next
/// block, one delivered sample per supplied one, and a far end that counts as heard
/// once it has carried energy.
pub proof fn lemma_what_a_turn_leaves(
    before: TauCanceller,
    after: TauCanceller,
    valid: usize,
    adapt: bool,
    turn: BlockTurn,
    delivered: Seq<Sample>,
)
    requires
        after.turned_from(before, valid, adapt, turn, delivered),
    ensures
        after.wf(),
        after.awaits is Fill,
        after.near_carry@ == Seq::<Sample>::empty(),
        after.far_carry@ == Seq::<Sample>::empty(),
        after.partitions == before.partitions,
        after.suppression == before.suppression,
        after.far_active == (before.far_active || crate::tau::any_sound(before.far_carry@)),
        delivered.len() == valid,
{
    reveal(TauCanceller::turned_from);
    let states = choose|states: Seq<TauCanceller>| #[trigger]
        steps_through(states, valid, adapt, turn) && states[0] == before && states[10] == after
            && delivered == states[9].output_block@.take(valid as int);
    assert(states[9].wf());
    assert(states[10].wf());
}

/// Processing is deterministic: two cancellers in the same state that are handed the
/// same chunk, and whose host supplies the same for each block, end in the same state
/// and append the same samples.
#[verifier::rlimit(60)]
pub proof fn lemma_processing_is_deterministic(
    a: TauCanceller,
    b: TauCanceller,
    after_a: TauCanceller,
    after_b: TauCanceller,
    near: Seq<Sample>,
    far: Seq<Sample>,
    turns: Seq<BlockTurn>,
    appended_a: Seq<Sample>,
    appended_b: Seq<Sample>,
)
    requires
        a.alike(b),
        after_a.processed_from(a, near, far, turns, appended_a),
        after_b.processed_from(b, near, far, turns, appended_b),
    ensures
        after_a.alike(after_b),
        appended_a == appended_b,
        after_a.counted_since(a) == after_b.counted_since(b),
    decreases near.len(),
{
    if near.len() == 0 {
        assert(appended_a =~= appended_b);
    } else {
        let (filled_a, middle_a) = lemma_the_first_block(a, after_a, near, far, turns, appended_a);
        let (filled_b, middle_b) = lemma_the_first_block(b, after_b, near, far, turns, appended_b);
        assert(filled_a.alike(filled_b));
        if filled_a.ready() {
            let take = crate::tau::taken(a.near_carry@.len() as int, near.len() as int);
            lemma_a_turn_is_deterministic(
                filled_a,
                filled_b,
                middle_a,
                middle_b,
                BLOCK,
                true,
                turns[0],
                appended_a.take(BLOCK as int),
                appended_b.take(BLOCK as int),
            );
            lemma_processing_is_deterministic(
                middle_a,
                middle_b,
                after_a,
                after_b,
                near.skip(take),
                far.skip(take),
                turns.skip(1),
                appended_a.skip(BLOCK as int),
                appended_b.skip(BLOCK as int),
            );
            assert(appended_a =~= appended_a.take(BLOCK as int) + appended_a.skip(BLOCK as int));
            assert(appended_b =~= appended_b.take(BLOCK as int) + appended_b.skip(BLOCK as int));
        } else {
            assert(appended_a =~= appended_b);
        }
    }
}

/// The first step of a process call: the canceller with the chunk's front accepted,
/// and, when that completes the block, the one its turn leaves.
proof fn lemma_the_first_block(
    before: TauCanceller,
    after: TauCanceller,
    near: Seq<Sample>,
    far: Seq<Sample>,
    turns: Seq<BlockTurn>,
    appended: Seq<Sample>,
) -> (r: (TauCanceller, TauCanceller))
    requires
        near.len() > 0,
        after.processed_from(before, near, far, turns, appended),
    ensures
        before.near_carry@.len() < BLOCK,
        far.len() == near.len(),
        r.0.accepted_from(before, near, far),
        r.0.wf(),
        !r.0.ready() ==> after == r.0 && turns.len() == 0 && appended.len() == 0,
        r.0.ready() ==> ({
            let take = crate::tau::taken(before.near_carry@.len() as int, near.len() as int);
            &&& turns.len() > 0
            &&& appended.len() >= BLOCK
            &&& r.1.turned_from(r.0, BLOCK, true, turns[0], appended.take(BLOCK as int))
            &&& after.processed_from(
                r.1,
                near.skip(take),
                far.skip(take),
                turns.skip(1),
                appended.skip(BLOCK as int),
            )
        }),
{
    let take = crate::tau::taken(before.near_carry@.len() as int, near.len() as int);
    let filled = choose|filled: TauCanceller| #[trigger]
        filled.accepted_from(before, near, far) && filled.wf() && (if !filled.ready() {
            after == filled && turns.len() == 0 && appended.len() == 0
        } else {
            turns.len() > 0 && appended.len() >= BLOCK && exists|middle: TauCanceller| #[trigger]
                middle.turned_from(filled, BLOCK, true, turns[0], appended.take(BLOCK as int))
                    && after.processed_from(
                    middle,
                    near.skip(take),
                    far.skip(take),
                    turns.skip(1),
                    appended.skip(BLOCK as int),
                )
        });
    if filled.ready() {
        let middle = choose|middle: TauCanceller| #[trigger]
            middle.turned_from(filled, BLOCK, true, turns[0], appended.take(BLOCK as int))
                && after.processed_from(
                middle,
                near.skip(take),
                far.skip(take),
                turns.skip(1),
                appended.skip(BLOCK as int),
            );
        (filled, middle)
    } else {
        (filled, filled)
    }
}

/// How the caller chunks the stream makes no difference to what it hears: two process
/// calls append, end to end, exactly what one call with the two chunks end to end
/// appends, and leave the same state, given that the host supplies the same for each
/// block. The blocks it supplies for are the same ones; see
/// [`lemma_chunking_the_stream_cuts_the_same_blocks`](crate::tau::lemma_chunking_the_stream_cuts_the_same_blocks).
#[verifier::rlimit(60)]
pub proof fn lemma_chunks_deliver_what_their_whole_delivers(
    before: TauCanceller,
    between: TauCanceller,
    after: TauCanceller,
    at_once_before: TauCanceller,
    at_once: TauCanceller,
    near_a: Seq<Sample>,
    far_a: Seq<Sample>,
    near_b: Seq<Sample>,
    far_b: Seq<Sample>,
    turns_a: Seq<BlockTurn>,
    turns_b: Seq<BlockTurn>,
    appended_a: Seq<Sample>,
    appended_b: Seq<Sample>,
    appended: Seq<Sample>,
)
    requires
        before.alike(at_once_before),
        near_a.len() == far_a.len(),
        near_b.len() == far_b.len(),
        between.processed_from(before, near_a, far_a, turns_a, appended_a),
        after.processed_from(between, near_b, far_b, turns_b, appended_b),
        at_once.processed_from(
            at_once_before,
            near_a + near_b,
            far_a + far_b,
            turns_a + turns_b,
            appended,
        ),
    ensures
        appended == appended_a + appended_b,
        after.alike(at_once),
        after.counted_since(before) == at_once.counted_since(at_once_before),
    decreases near_a.len(),
{
    let near = near_a + near_b;
    let far = far_a + far_b;
    let turns = turns_a + turns_b;
    if near_a.len() == 0 {
        assert(near =~= near_b);
        assert(far =~= far_b);
        assert(turns =~= turns_b);
        lemma_processing_is_deterministic(
            before,
            at_once_before,
            after,
            at_once,
            near,
            far,
            turns,
            appended_b,
            appended,
        );
        assert(appended =~= appended_a + appended_b);
    } else {
        let (filled_a, middle_a) = lemma_the_first_block(
            before,
            between,
            near_a,
            far_a,
            turns_a,
            appended_a,
        );
        let take_a = crate::tau::taken(before.near_carry@.len() as int, near_a.len() as int);
        let (filled, middle) = lemma_the_first_block(
            at_once_before,
            at_once,
            near,
            far,
            turns,
            appended,
        );
        let take = crate::tau::taken(before.near_carry@.len() as int, near.len() as int);
        if filled_a.ready() {
            assert(take == take_a);
            assert(near.take(take) =~= near_a.take(take));
            assert(far.take(take) =~= far_a.take(take));
            assert(filled_a.alike(filled));
            lemma_a_turn_is_deterministic(
                filled_a,
                filled,
                middle_a,
                middle,
                BLOCK,
                true,
                turns[0],
                appended_a.take(BLOCK as int),
                appended.take(BLOCK as int),
            );
            assert(near.skip(take) =~= near_a.skip(take) + near_b);
            assert(far.skip(take) =~= far_a.skip(take) + far_b);
            assert(turns.skip(1) =~= turns_a.skip(1) + turns_b);
            lemma_chunks_deliver_what_their_whole_delivers(
                middle_a,
                between,
                after,
                middle,
                at_once,
                near_a.skip(take),
                far_a.skip(take),
                near_b,
                far_b,
                turns_a.skip(1),
                turns_b,
                appended_a.skip(BLOCK as int),
                appended_b,
                appended.skip(BLOCK as int),
            );
            assert(appended =~= appended.take(BLOCK as int) + appended.skip(BLOCK as int));
            assert(appended_a =~= appended_a.take(BLOCK as int) + appended_a.skip(BLOCK as int));
            assert(appended =~= appended_a + appended_b);
        } else if near_b.len() == 0 {
            assert(near =~= near_a);
            assert(far =~= far_a);
            assert(turns =~= turns_a);
            lemma_processing_is_deterministic(
                before,
                at_once_before,
                between,
                at_once,
                near,
                far,
                turns,
                appended_a,
                appended,
            );
            assert(appended =~= appended_a + appended_b);
        } else {
            let (filled_b, middle_b) = lemma_the_first_block(
                between,
                after,
                near_b,
                far_b,
                turns_b,
                appended_b,
            );
            let take_b = crate::tau::taken(between.near_carry@.len() as int, near_b.len() as int);
            assert(near_a.take(take_a) =~= near_a);
            assert(far_a.take(take_a) =~= far_a);
            assert(take == near_a.len() + take_b);
            assert(filled.near_carry@ =~= filled_b.near_carry@);
            assert(filled.far_carry@ =~= filled_b.far_carry@);
            assert(filled_b.alike(filled));
            assert(turns =~= turns_b);
            if filled.ready() {
                lemma_a_turn_is_deterministic(
                    filled_b,
                    filled,
                    middle_b,
                    middle,
                    BLOCK,
                    true,
                    turns[0],
                    appended_b.take(BLOCK as int),
                    appended.take(BLOCK as int),
                );
                assert(near.skip(take) =~= near_b.skip(take_b));
                assert(far.skip(take) =~= far_b.skip(take_b));
                lemma_processing_is_deterministic(
                    middle_b,
                    middle,
                    after,
                    at_once,
                    near.skip(take),
                    far.skip(take),
                    turns.skip(1),
                    appended_b.skip(BLOCK as int),
                    appended.skip(BLOCK as int),
                );
                assert(appended =~= appended.take(BLOCK as int) + appended.skip(BLOCK as int));
                assert(appended_b =~= appended_b.take(BLOCK as int) + appended_b.skip(
                    BLOCK as int,
                ));
            }
            assert(appended =~= appended_a + appended_b);
        }
    }
}

/// The totals of a process call: it appends exactly the whole blocks of the carry and
/// the chunk together, one turn each, and carries exactly the rest.
#[verifier::rlimit(60)]
pub proof fn lemma_a_process_call_balances(
    before: TauCanceller,
    after: TauCanceller,
    near: Seq<Sample>,
    far: Seq<Sample>,
    turns: Seq<BlockTurn>,
    appended: Seq<Sample>,
)
    requires
        before.wf(),
        before.awaits is Fill,
        before.near_carry@.len() < BLOCK,
        after.processed_from(before, near, far, turns, appended),
    ensures
        ({
            let held = (before.near_carry@.len() + near.len()) as int;
            &&& turns.len() == held / BLOCK as int
            &&& appended.len() == BLOCK * (held / BLOCK as int)
            &&& after.near_carry@.len() == held % BLOCK as int
            &&& appended.len() + after.near_carry@.len() == held
        }),
        after.near_carry@ == crate::tau::carry_cut(before.near_carry@, near),
        after.far_carry@ == crate::tau::carry_cut(before.far_carry@, far),
        after.near_carry@ == (before.near_carry@ + crate::sample::sanitized_seq(near)).skip(
            appended.len() as int,
        ),
        after.wf(),
        after.awaits is Fill,
        after.partitions == before.partitions,
        after.suppression == before.suppression,
    decreases near.len(),
{
    reveal_with_fuel(crate::tau::carry_cut, 2);
    let stream = before.near_carry@ + crate::sample::sanitized_seq(near);
    if near.len() == 0 {
        assert(stream.skip(0) =~= before.near_carry@);
    } else {
        let (filled, middle) = lemma_the_first_block(before, after, near, far, turns, appended);
        let take = crate::tau::taken(before.near_carry@.len() as int, near.len() as int);
        if filled.ready() {
            lemma_what_a_turn_leaves(
                filled,
                middle,
                BLOCK,
                true,
                turns[0],
                appended.take(BLOCK as int),
            );
            let rest = near.skip(take);
            lemma_a_process_call_balances(
                middle,
                after,
                rest,
                far.skip(take),
                turns.skip(1),
                appended.skip(BLOCK as int),
            );
            let tail = middle.near_carry@ + crate::sample::sanitized_seq(rest);
            assert(stream =~= filled.near_carry@ + tail);
            assert(stream.skip(appended.len() as int) =~= tail.skip(appended.len() - BLOCK));
            assert(appended.len() == BLOCK + appended.skip(BLOCK as int).len());
        } else {
            assert(near.skip(take).len() == 0);
            assert(far.skip(take).len() == 0);
            assert(near.take(take) =~= near);
            assert(stream.skip(0) =~= stream);
        }
    }
}

/// The totals of a flush: it appends exactly the samples still carried, and carries
/// none.
pub proof fn lemma_a_flush_balances(
    before: TauCanceller,
    after: TauCanceller,
    turn: BlockTurn,
    appended: Seq<Sample>,
)
    requires
        before.wf(),
        before.awaits is Fill,
        after.flushed_from(before, turn, appended),
    ensures
        appended.len() == before.near_carry@.len(),
        after.near_carry@ == Seq::<Sample>::empty(),
        after.far_carry@ == Seq::<Sample>::empty(),
        after.wf(),
        after.awaits is Fill,
{
    if before.near_carry@.len() > 0 {
        let full = choose|full: TauCanceller| #[trigger]
            full.padded_from(before) && after.turned_from(
                full,
                before.near_carry@.len() as usize,
                false,
                turn,
                appended,
            );
        lemma_what_a_turn_leaves(
            full,
            after,
            before.near_carry@.len() as usize,
            false,
            turn,
            appended,
        );
    } else {
        assert(before.near_carry@ =~= Seq::<Sample>::empty());
        assert(before.far_carry@ =~= Seq::<Sample>::empty());
    }
}

/// A non-finite sample acts exactly as silence in its place: two pairs of chunks that
/// agree once every non-finite sample is replaced are processed alike.
pub proof fn lemma_a_non_finite_sample_acts_as_silence(
    before: TauCanceller,
    after: TauCanceller,
    near: Seq<Sample>,
    far: Seq<Sample>,
    other_near: Seq<Sample>,
    other_far: Seq<Sample>,
    turns: Seq<BlockTurn>,
    appended: Seq<Sample>,
)
    requires
        crate::sample::sanitized_seq(near) == crate::sample::sanitized_seq(other_near),
        crate::sample::sanitized_seq(far) == crate::sample::sanitized_seq(other_far),
        after.processed_from(before, near, far, turns, appended),
    ensures
        after.processed_from(before, other_near, other_far, turns, appended),
    decreases near.len(),
{
    assert(crate::sample::sanitized_seq(near).len() == other_near.len());
    assert(crate::sample::sanitized_seq(far).len() == other_far.len());
    if near.len() > 0 {
        let (filled, middle) = lemma_the_first_block(before, after, near, far, turns, appended);
        let take = crate::tau::taken(before.near_carry@.len() as int, near.len() as int);
        lemma_sanitizing_is_per_sample(near, other_near, take);
        lemma_sanitizing_is_per_sample(far, other_far, take);
        assert(filled.accepted_from(before, other_near, other_far));
        if filled.ready() {
            lemma_a_non_finite_sample_acts_as_silence(
                middle,
                after,
                near.skip(take),
                far.skip(take),
                other_near.skip(take),
                other_far.skip(take),
                turns.skip(1),
                appended.skip(BLOCK as int),
            );
        }
    }
}

/// Chunks that agree once sanitized agree so before and after any point.
proof fn lemma_sanitizing_is_per_sample(a: Seq<Sample>, b: Seq<Sample>, at: int)
    requires
        crate::sample::sanitized_seq(a) == crate::sample::sanitized_seq(b),
        0 <= at <= a.len(),
    ensures
        a.len() == b.len(),
        crate::sample::sanitized_seq(a.take(at)) == crate::sample::sanitized_seq(b.take(at)),
        crate::sample::sanitized_seq(a.skip(at)) == crate::sample::sanitized_seq(b.skip(at)),
{
    assert(crate::sample::sanitized_seq(a).len() == a.len());
    assert(crate::sample::sanitized_seq(b).len() == b.len());
    assert forall|i: int| 0 <= i < a.len() implies #[trigger] a[i].sanitized()
        == b[i].sanitized() by {
        assert(crate::sample::sanitized_seq(a)[i] == a[i].sanitized());
        assert(crate::sample::sanitized_seq(b)[i] == b[i].sanitized());
    }
    assert(crate::sample::sanitized_seq(a.take(at)) =~= crate::sample::sanitized_seq(b.take(at)));
    assert(crate::sample::sanitized_seq(a.skip(at)) =~= crate::sample::sanitized_seq(b.skip(at)));
}

/// A block whose far end never played is delivered as the near end it is, bit for
/// bit, given an output error with no echo taken out of it.
proof fn lemma_a_silent_turn_passes_through(
    before: TauCanceller,
    after: TauCanceller,
    valid: usize,
    adapt: bool,
    turn: BlockTurn,
    delivered: Seq<Sample>,
)
    requires
        !before.far_active,
        !crate::tau::any_sound(before.far_carry@),
        turn.output_error == before.near_carry@,
        after.turned_from(before, valid, adapt, turn, delivered),
    ensures
        delivered == before.near_carry@.take(valid as int),
{
    reveal(TauCanceller::turned_from);
    let states = choose|states: Seq<TauCanceller>| #[trigger]
        steps_through(states, valid, adapt, turn) && states[0] == before && states[10] == after
            && delivered == states[9].output_block@.take(valid as int);
    assert(states[0].wf());
    assert(states[3].error_block@ == before.near_carry@ && !states[3].diverged);
    assert(states[8].output_block@ == before.near_carry@);
    assert(states[8].near_carry@ == before.near_carry@);
    assert(states[8].retired(before.near_carry@) =~= before.near_carry@);
}

/// A far end that never played is a bit-exact passthrough, over a process call of any
/// length: with no echo taken out of any block, what is appended is the near stream
/// itself, and the far end still has not played.
#[verifier::rlimit(60)]
pub proof fn lemma_a_silent_far_end_is_passed_through_whole(
    before: TauCanceller,
    after: TauCanceller,
    near: Seq<Sample>,
    far: Seq<Sample>,
    turns: Seq<BlockTurn>,
    appended: Seq<Sample>,
)
    requires
        before.wf(),
        before.awaits is Fill,
        before.near_carry@.len() < BLOCK,
        !before.far_active,
        !crate::tau::any_sound(before.far_carry@),
        !crate::tau::any_sound(far),
        after.processed_from(before, near, far, turns, appended),
        forall|k: int|
            0 <= k < turns.len() ==> (#[trigger] turns[k]).output_error == crate::tau::block_at(
                before.near_carry@ + crate::sample::sanitized_seq(near),
                k,
            ),
    ensures
        appended == (before.near_carry@ + crate::sample::sanitized_seq(near)).take(
            appended.len() as int,
        ),
        !after.far_active,
        !crate::tau::any_sound(after.far_carry@),
    decreases near.len(),
{
    let stream = before.near_carry@ + crate::sample::sanitized_seq(near);
    if near.len() == 0 {
        assert(appended =~= stream.take(0));
    } else {
        let (filled, middle) = lemma_the_first_block(before, after, near, far, turns, appended);
        let take = crate::tau::taken(before.near_carry@.len() as int, near.len() as int);
        assert(!crate::tau::any_sound(filled.far_carry@)) by {
            assert forall|i: int| 0 <= i < filled.far_carry@.len() implies (
            #[trigger] filled.far_carry@[i]).magnitude() == 0 by {
                if i < before.far_carry@.len() {
                    assert(filled.far_carry@[i] == before.far_carry@[i]);
                } else {
                    let j = i - before.far_carry@.len();
                    assert(filled.far_carry@[i] == far[j].sanitized());
                    assert(far[j].magnitude() == 0);
                }
            }
        }
        if filled.ready() {
            assert(crate::tau::block_at(stream, 0) =~= filled.near_carry@);
            assert(turns[0].output_error == filled.near_carry@);
            lemma_a_silent_turn_passes_through(
                filled,
                middle,
                BLOCK,
                true,
                turns[0],
                appended.take(BLOCK as int),
            );
            lemma_what_a_turn_leaves(
                filled,
                middle,
                BLOCK,
                true,
                turns[0],
                appended.take(BLOCK as int),
            );
            let rest = near.skip(take);
            let rest_turns = turns.skip(1);
            let tail = middle.near_carry@ + crate::sample::sanitized_seq(rest);
            assert(stream =~= filled.near_carry@ + tail);
            assert forall|k: int| 0 <= k < rest_turns.len() implies (
            #[trigger] rest_turns[k]).output_error == crate::tau::block_at(tail, k) by {
                assert(rest_turns[k] == turns[k + 1]);
                assert(crate::tau::block_at(stream, k + 1) =~= crate::tau::block_at(tail, k)) by {
                    lemma_a_process_call_balances(before, after, near, far, turns, appended);
                }
            }
            assert(!crate::tau::any_sound(far.skip(take))) by {
                assert forall|i: int| 0 <= i < far.skip(take).len() implies (
                #[trigger] far.skip(take)[i]).magnitude() == 0 by {
                    assert(far[i + take].magnitude() == 0);
                }
            }
            lemma_a_silent_far_end_is_passed_through_whole(
                middle,
                after,
                rest,
                far.skip(take),
                rest_turns,
                appended.skip(BLOCK as int),
            );
            lemma_a_process_call_balances(before, after, near, far, turns, appended);
            assert(appended =~= appended.take(BLOCK as int) + appended.skip(BLOCK as int));
            assert(appended =~= stream.take(appended.len() as int));
        } else {
            assert(appended =~= stream.take(0));
        }
    }
}

/// A flush of a stream whose far end never played delivers the near samples still
/// carried, bit for bit, with no echo taken out of the padded block.
pub proof fn lemma_a_silent_far_end_is_flushed_through(
    before: TauCanceller,
    after: TauCanceller,
    turn: BlockTurn,
    appended: Seq<Sample>,
)
    requires
        before.wf(),
        before.awaits is Fill,
        !before.far_active,
        !crate::tau::any_sound(before.far_carry@),
        turn.output_error == crate::tau::padded(before.near_carry@),
        after.flushed_from(before, turn, appended),
    ensures
        appended == before.near_carry@,
{
    if before.near_carry@.len() > 0 {
        let count = before.near_carry@.len();
        let full = choose|full: TauCanceller| #[trigger]
            full.padded_from(before) && after.turned_from(
                full,
                count as usize,
                false,
                turn,
                appended,
            );
        assert(!crate::tau::any_sound(full.far_carry@)) by {
            assert forall|i: int| 0 <= i < full.far_carry@.len() implies (
            #[trigger] full.far_carry@[i]).magnitude() == 0 by {
                if i < before.far_carry@.len() {
                    assert(full.far_carry@[i] == before.far_carry@[i]);
                }
            }
        }
        lemma_a_silent_turn_passes_through(full, after, count as usize, false, turn, appended);
        assert(full.near_carry@.take(count as int) =~= before.near_carry@);
    } else {
        assert(appended =~= before.near_carry@);
    }
}

/// One call the host makes on the canceller.
pub enum Passage {
    /// A process call, of a near and a far chunk and what the host supplies for each
    /// block they complete.
    Process(Seq<Sample>, Seq<Sample>, Seq<BlockTurn>),
    /// A flush, and what the host supplies for its padded block.
    Flush(BlockTurn),
    /// [`TauCanceller::reset`].
    Reset,
}

impl Passage {
    /// Whether a call, made in `before`, leaves `after` and appends `appended`.
    pub open spec fn performs(
        self,
        before: TauCanceller,
        after: TauCanceller,
        appended: Seq<Sample>,
    ) -> bool {
        match self {
            Passage::Process(near, far, turns) => after.processed_from(
                before,
                near,
                far,
                turns,
                appended,
            ),
            Passage::Flush(turn) => after.flushed_from(before, turn, appended),
            Passage::Reset => after.reset_from(before) && appended.len() == 0,
        }
    }
}

/// Whether `states` and `appended` are what a sequence of calls runs through.
pub open spec fn passes(
    calls: Seq<Passage>,
    states: Seq<TauCanceller>,
    appended: Seq<Seq<Sample>>,
) -> bool {
    &&& states.len() == calls.len() + 1
    &&& appended.len() == calls.len()
    &&& forall|i: int|
        0 <= i < calls.len() ==> (#[trigger] calls[i]).performs(
            states[i],
            states[i + 1],
            appended[i],
        )
}

/// A flush is deterministic.
proof fn lemma_flushing_is_deterministic(
    a: TauCanceller,
    b: TauCanceller,
    after_a: TauCanceller,
    after_b: TauCanceller,
    turn: BlockTurn,
    appended_a: Seq<Sample>,
    appended_b: Seq<Sample>,
)
    requires
        a.alike(b),
        after_a.flushed_from(a, turn, appended_a),
        after_b.flushed_from(b, turn, appended_b),
    ensures
        go_on_alike(a, b, after_a, after_b),
        appended_a == appended_b,
{
    if a.near_carry@.len() > 0 {
        let count = a.near_carry@.len() as usize;
        let full_a = choose|full: TauCanceller| #[trigger]
            full.padded_from(a) && after_a.turned_from(full, count, false, turn, appended_a);
        let full_b = choose|full: TauCanceller| #[trigger]
            full.padded_from(b) && after_b.turned_from(full, count, false, turn, appended_b);
        assert(full_a.alike(full_b));
        lemma_a_turn_is_deterministic(
            full_a,
            full_b,
            after_a,
            after_b,
            count,
            false,
            turn,
            appended_a,
            appended_b,
        );
    } else {
        assert(appended_a =~= appended_b);
    }
}

/// The canceller is deterministic over a whole stream: two that start in the same state
/// and are asked the same, with the same supplied for each block, stay in the same
/// state, append the same samples at every call and count the same.
#[verifier::rlimit(60)]
pub proof fn lemma_alike_cancellers_stay_alike(
    calls: Seq<Passage>,
    states_a: Seq<TauCanceller>,
    states_b: Seq<TauCanceller>,
    appended_a: Seq<Seq<Sample>>,
    appended_b: Seq<Seq<Sample>>,
    i: int,
)
    requires
        passes(calls, states_a, appended_a),
        passes(calls, states_b, appended_b),
        states_a[0].alike(states_b[0]),
        0 <= i <= calls.len(),
    ensures
        go_on_alike(states_a[0], states_b[0], states_a[i], states_b[i]),
        i > 0 ==> appended_a[i - 1] == appended_b[i - 1],
    decreases i,
{
    if i > 0 {
        let call = calls[i - 1];
        let (a, b) = (states_a[i - 1], states_b[i - 1]);
        let (after_a, after_b) = (states_a[i], states_b[i]);
        lemma_alike_cancellers_stay_alike(
            calls,
            states_a,
            states_b,
            appended_a,
            appended_b,
            i - 1,
        );
        assert(call.performs(a, after_a, appended_a[i - 1]));
        assert(call.performs(b, after_b, appended_b[i - 1]));
        match call {
            Passage::Process(near, far, turns) => {
                lemma_processing_is_deterministic(
                    a,
                    b,
                    after_a,
                    after_b,
                    near,
                    far,
                    turns,
                    appended_a[i - 1],
                    appended_b[i - 1],
                );
            },
            Passage::Flush(turn) => {
                lemma_flushing_is_deterministic(
                    a,
                    b,
                    after_a,
                    after_b,
                    turn,
                    appended_a[i - 1],
                    appended_b[i - 1],
                );
            },
            Passage::Reset => {
                crate::tau::lemma_a_reset_canceller_is_a_new_one(after_a, after_b);
                assert(appended_a[i - 1] =~= appended_b[i - 1]);
            },
        }
    }
}

/// From a reset on the canceller behaves as a new one: asked the same, with the same
/// supplied for each block, it appends bit for bit what a newly constructed one with
/// its geometry and suppression appends, call by call, and reports the same; the two
/// counts kept since construction go on from where they stood by the same amounts.
pub proof fn lemma_a_reset_canceller_behaves_as_a_new_one(
    before: TauCanceller,
    calls: Seq<Passage>,
    states: Seq<TauCanceller>,
    fresh_states: Seq<TauCanceller>,
    appended: Seq<Seq<Sample>>,
    fresh_appended: Seq<Seq<Sample>>,
    i: int,
)
    requires
        passes(calls, states, appended),
        passes(calls, fresh_states, fresh_appended),
        states[0].reset_from(before),
        fresh_states[0].pristine(),
        fresh_states[0].partitions == before.partitions,
        fresh_states[0].suppression == before.suppression,
        fresh_states[0].divergence_resets == 0,
        fresh_states[0].transfers == 0,
        0 <= i <= calls.len(),
    ensures
        states[i].alike(fresh_states[i]),
        i > 0 ==> appended[i - 1] == fresh_appended[i - 1],
        states[i].double_talk == fresh_states[i].double_talk,
        states[i].near_power == fresh_states[i].near_power,
        states[i].divergence_resets == before.divergence_resets
            + fresh_states[i].divergence_resets,
        states[i].transfers == before.transfers + fresh_states[i].transfers,
{
    crate::tau::lemma_a_reset_canceller_is_a_new_one(states[0], fresh_states[0]);
    lemma_alike_cancellers_stay_alike(calls, states, fresh_states, appended, fresh_appended, i);
}

} // verus!
