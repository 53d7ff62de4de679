//! What holds of the engine and its canceller together: every near sample handed over
//! is delivered once, in order, under either output policy.
//!
//! A session is driven by the engine's own calls, by handing each aligned block to the
//! canceller, by draining what the canceller still carries, and by renewing the
//! canceller once it has been drained.

use vstd::prelude::*;

use crate::engine::{Aec, OutputBlend};
use crate::passage::BlockTurn;
use crate::sample::Sample;
use crate::stream::{Call, Reply};
use crate::tau::{TauCanceller, BLOCK};

verus! {

/// An engine and the canceller behind it.
pub struct Session {
    /// The engine.
    pub engine: Aec,
    /// The canceller.
    pub canceller: TauCanceller,
}

/// One thing the host does with a session.
pub enum Turn {
    /// A call on the engine that delivers nothing, and its answer.
    Ask(Call, Reply),
    /// The aligned block goes through the canceller, with what the host supplies for
    /// each block, what the canceller emits, and the blend of it, which the engine
    /// then releases.
    Cancel(Seq<BlockTurn>, Seq<Sample>, Seq<Sample>),
    /// The canceller is flushed, with what the host supplies for the padded block,
    /// what it emits, and the blend of it, which the engine then releases.
    Drain(BlockTurn, Seq<Sample>, Seq<Sample>),
    /// The drained canceller is reset, to re-converge from a corrected alignment.
    Renew,
}

impl Turn {
    /// Whether a turn, taken in `before`, leaves `after` and delivers `delivered`.
    pub open spec fn performs(
        self,
        before: Session,
        after: Session,
        delivered: Seq<Sample>,
    ) -> bool {
        match self {
            Turn::Ask(call, reply) => {
                &&& !(call is Release || call is Reset)
                &&& call.performs(before.engine, after.engine, reply)
                &&& after.canceller == before.canceller
                &&& delivered == Seq::<Sample>::empty()
            },
            Turn::Cancel(turns, emitted, blended) => {
                &&& after.canceller.processed_from(
                    before.canceller,
                    before.engine.near_scratch@,
                    before.engine.far_scratch@,
                    turns,
                    emitted,
                )
                &&& Call::Release(emitted, blended).performs(
                    before.engine,
                    after.engine,
                    Reply::Delivered(delivered),
                )
            },
            Turn::Drain(turn, emitted, blended) => {
                &&& after.canceller.flushed_from(before.canceller, turn, emitted)
                &&& Call::Release(emitted, blended).performs(
                    before.engine,
                    after.engine,
                    Reply::Delivered(delivered),
                )
            },
            Turn::Renew => {
                &&& after.engine == before.engine
                &&& after.canceller.reset_from(before.canceller)
                &&& after.canceller.wf()
                &&& delivered == Seq::<Sample>::empty()
            },
        }
    }
}

/// Whether `states` and `delivered` are what a sequence of turns runs through.
pub open spec fn plays(
    turns: Seq<Turn>,
    states: Seq<Session>,
    delivered: Seq<Seq<Sample>>,
) -> bool {
    &&& states.len() == turns.len() + 1
    &&& delivered.len() == turns.len()
    &&& forall|i: int| 0 <= i < states.len() ==> (#[trigger] states[i]).engine.wf()
    &&& forall|i: int|
        0 <= i < turns.len() ==> (#[trigger] turns[i]).performs(
            states[i],
            states[i + 1],
            delivered[i],
        )
}

/// Whether, after the first `i` turns, a block has been opened and not yet handed to the
/// canceller.
pub open spec fn block_in_hand(turns: Seq<Turn>, i: int) -> bool
    decreases i,
{
    if i <= 0 {
        false
    } else {
        match turns[i - 1] {
            Turn::Ask(Call::Open(_), _) => true,
            Turn::Cancel(_, _, _) => false,
            _ => block_in_hand(turns, i - 1),
        }
    }
}

/// Whether the turns come in the order the host takes them: one block at a time, each
/// handed to the canceller once, after every sample of it has its gain where the
/// policy is a graded one, and a canceller is renewed only once it is drained.
pub open spec fn orderly(turns: Seq<Turn>, states: Seq<Session>) -> bool {
    forall|k: int|
        0 <= k < turns.len() ==> (match #[trigger] turns[k] {
            Turn::Ask(Call::Open(_), _) => !block_in_hand(turns, k),
            Turn::Ask(Call::Fade(_), _) => block_in_hand(turns, k) && states[k].engine.faded
                < states[k].engine.near_scratch@.len(),
            Turn::Cancel(_, _, _) => block_in_hand(turns, k) && (
            states[k].engine.output_blend is Graded ==> states[k].engine.faded
                == states[k].engine.near_scratch@.len()),
            Turn::Renew => states[k].canceller.near_carry@.len() == 0,
            _ => true,
        })
}

/// The near samples the first `i` turns handed over, end to end, each non-finite one as
/// silence.
pub open spec fn handed_over(turns: Seq<Turn>, i: int) -> Seq<Sample>
    decreases i,
{
    if i <= 0 {
        Seq::empty()
    } else {
        match turns[i - 1] {
            Turn::Ask(Call::Open(near), _) => handed_over(turns, i - 1)
                + crate::sample::sanitized_seq(near),
            _ => handed_over(turns, i - 1),
        }
    }
}

/// What the first `i` turns delivered, end to end.
pub open spec fn output_of(delivered: Seq<Seq<Sample>>, i: int) -> Seq<Sample>
    decreases i,
{
    if i <= 0 {
        Seq::empty()
    } else {
        output_of(delivered, i - 1) + delivered[i - 1]
    }
}

impl Session {
    /// Whether nothing handed over is still owed: the canceller carries nothing and
    /// the engine holds nothing pending.
    pub open spec fn settled(self) -> bool {
        &&& self.canceller.wf()
        &&& self.canceller.awaits is Fill
        &&& self.canceller.near_carry@ == Seq::<Sample>::empty()
        &&& self.engine.output_blend matches OutputBlend::Graded(gate) ==> gate.pending_near@
            == Seq::<Sample>::empty()
    }

    /// The part of the block in hand that has its gain.
    pub open spec fn faded_part(self, in_hand: bool) -> Seq<Sample> {
        if in_hand {
            self.engine.near_scratch@.take(self.engine.faded as int)
        } else {
            Seq::empty()
        }
    }

    /// The block in hand, before the canceller has it.
    pub open spec fn waiting(self, in_hand: bool) -> Seq<Sample> {
        if in_hand {
            self.engine.near_scratch@
        } else {
            Seq::empty()
        }
    }

    /// Whether a session keeps its books: what was handed over is what was delivered,
    /// what the canceller carries and what waits in hand, in that order, and what a
    /// graded engine holds pending is what the canceller carries and the part of the
    /// block in hand that has its gain.
    pub open spec fn balances(self, handed: Seq<Sample>, output: int, in_hand: bool) -> bool {
        &&& self.canceller.wf()
        &&& self.canceller.awaits is Fill
        &&& self.canceller.near_carry@.len() < BLOCK
        &&& 0 <= output <= handed.len()
        &&& handed.skip(output) == self.canceller.near_carry@ + self.waiting(in_hand)
        &&& self.engine.output_blend matches OutputBlend::Graded(gate) ==> gate.pending_near@
            == self.canceller.near_carry@ + self.faded_part(in_hand)
    }
}

/// A call on the engine that delivers nothing keeps the books.
#[verifier::rlimit(60)]
proof fn lemma_asking_keeps_the_books(
    call: Call,
    reply: Reply,
    before: Session,
    after: Session,
    handed: Seq<Sample>,
    output: int,
    in_hand: bool,
)
    requires
        before.engine.wf(),
        after.engine.wf(),
        before.balances(handed, output, in_hand),
        !(call is Release || call is Reset),
        call.performs(before.engine, after.engine, reply),
        after.canceller == before.canceller,
        call is Open ==> !in_hand,
        call is Fade ==> in_hand && before.engine.faded < before.engine.near_scratch@.len(),
    ensures
        call matches Call::Open(near) ==> after.balances(
            handed + crate::sample::sanitized_seq(near),
            output,
            true,
        ),
        !(call is Open) ==> after.balances(handed, output, in_hand),
{
    match call {
        Call::Open(near) => {
            let more = handed + crate::sample::sanitized_seq(near);
            assert(after.engine.faded == 0);
            assert(more.skip(output) =~= handed.skip(output) + crate::sample::sanitized_seq(near));
            assert(more.skip(output) =~= after.canceller.near_carry@ + after.waiting(true));
            assert(after.faded_part(true) =~= Seq::<Sample>::empty());
        },
        Call::Fade(_) => {
            assert(before.engine.near_scratch.len() == before.engine.near_scratch@.len());
            if before.engine.output_blend is Graded {
                assert(after.faded_part(true) =~= before.faded_part(true).push(
                    before.engine.near_scratch@[before.engine.faded as int],
                ));
                assert(after.engine.output_blend->Graded_0.pending_near@
                    =~= after.canceller.near_carry@ + after.faded_part(true));
            }
        },
        Call::AnswerFine(_, _, _) => {
            crate::stream::lemma_judging_renders_nothing(call, before.engine, after.engine, reply);
        },
        Call::AnswerRescan(_, _, _) => {
            crate::stream::lemma_judging_renders_nothing(call, before.engine, after.engine, reply);
        },
        _ => {},
    }
}

/// Handing the block in hand to the canceller keeps the books.
#[verifier::rlimit(60)]
proof fn lemma_cancelling_keeps_the_books(
    turns: Seq<BlockTurn>,
    emitted: Seq<Sample>,
    blended: Seq<Sample>,
    before: Session,
    after: Session,
    delivered: Seq<Sample>,
    handed: Seq<Sample>,
    output: int,
)
    requires
        before.engine.wf(),
        before.balances(handed, output, true),
        Turn::Cancel(turns, emitted, blended).performs(before, after, delivered),
        before.engine.output_blend is Graded ==> before.engine.faded
            == before.engine.near_scratch@.len(),
    ensures
        after.balances(handed, output + delivered.len(), false),
{
    let near = before.engine.near_scratch@;
    crate::passage::lemma_a_process_call_balances(
        before.canceller,
        after.canceller,
        near,
        before.engine.far_scratch@,
        turns,
        emitted,
    );
    let count = emitted.len() as int;
    assert(delivered.len() == count);
    let stream = before.canceller.near_carry@ + near;
    assert(handed.skip(output + count) =~= handed.skip(output).skip(count));
    assert(handed.skip(output + count) =~= after.canceller.near_carry@ + after.waiting(false));
    if before.engine.output_blend is Graded {
        assert(before.faded_part(true) =~= near);
        assert(after.engine.output_blend->Graded_0.pending_near@ =~= stream.skip(count));
        assert(after.canceller.near_carry@ + after.faded_part(false)
            =~= after.canceller.near_carry@);
    }
}

/// Draining the canceller keeps the books.
#[verifier::rlimit(60)]
proof fn lemma_draining_keeps_the_books(
    turn: BlockTurn,
    emitted: Seq<Sample>,
    blended: Seq<Sample>,
    before: Session,
    after: Session,
    delivered: Seq<Sample>,
    handed: Seq<Sample>,
    output: int,
    in_hand: bool,
)
    requires
        before.engine.wf(),
        before.balances(handed, output, in_hand),
        Turn::Drain(turn, emitted, blended).performs(before, after, delivered),
    ensures
        after.balances(handed, output + delivered.len(), in_hand),
        after.canceller.near_carry@ == Seq::<Sample>::empty(),
{
    crate::passage::lemma_a_flush_balances(before.canceller, after.canceller, turn, emitted);
    let count = emitted.len() as int;
    assert(delivered.len() == count);
    assert(handed.skip(output + count) =~= handed.skip(output).skip(count));
    assert(handed.skip(output + count) =~= after.canceller.near_carry@ + after.waiting(in_hand));
    if before.engine.output_blend is Graded {
        assert(after.engine.output_blend->Graded_0.pending_near@ =~= after.canceller.near_carry@
            + after.faded_part(in_hand));
    }
}

/// The totals balance at every turn of a session, under either output policy: the
/// samples delivered, the samples the canceller carries and the block in hand add up
/// to the near samples handed over, and what is carried is exactly what was handed over
/// and not delivered, in order. What a graded engine holds pending is the same samples,
/// so the `n`-th sample delivered is rendered against the `n`-th near sample. A
/// promotion that renews the canceller costs no sample.
#[verifier::rlimit(60)]
pub proof fn lemma_the_totals_balance(
    turns: Seq<Turn>,
    states: Seq<Session>,
    delivered: Seq<Seq<Sample>>,
    i: int,
)
    requires
        plays(turns, states, delivered),
        orderly(turns, states),
        states[0].settled(),
        0 <= i <= turns.len(),
    ensures
        ({
            let handed = handed_over(turns, i);
            let output = output_of(delivered, i);
            let in_hand = block_in_hand(turns, i);
            &&& states[i].balances(handed, output.len() as int, in_hand)
            &&& output.len() + states[i].canceller.near_carry@.len() + states[i].waiting(
                in_hand,
            ).len() == handed.len()
            &&& states[i].engine.output_blend matches OutputBlend::Graded(gate) ==> forall|n: int|
                0 <= n < gate.pending_near@.len() ==> #[trigger] gate.pending_near@[n]
                    == handed[output.len() + n]
        }),
    decreases i,
{
    let handed = handed_over(turns, i);
    let output = output_of(delivered, i);
    let in_hand = block_in_hand(turns, i);
    if i == 0 {
        assert(handed.skip(0) =~= Seq::<Sample>::empty());
        assert(states[0].canceller.near_carry@ + states[0].waiting(false)
            =~= Seq::<Sample>::empty());
        assert(states[0].canceller.near_carry@ + states[0].faded_part(false)
            =~= Seq::<Sample>::empty());
    } else {
        lemma_the_totals_balance(turns, states, delivered, i - 1);
        let before = states[i - 1];
        let after = states[i];
        let earlier = handed_over(turns, i - 1);
        let count = output_of(delivered, i - 1).len() as int;
        let was_in_hand = block_in_hand(turns, i - 1);
        assert(turns[i - 1].performs(before, after, delivered[i - 1]));
        assert(before.engine.wf() && after.engine.wf());
        match turns[i - 1] {
            Turn::Ask(call, reply) => {
                lemma_asking_keeps_the_books(
                    call,
                    reply,
                    before,
                    after,
                    earlier,
                    count,
                    was_in_hand,
                );
            },
            Turn::Cancel(block_turns, emitted, blended) => {
                lemma_cancelling_keeps_the_books(
                    block_turns,
                    emitted,
                    blended,
                    before,
                    after,
                    delivered[i - 1],
                    earlier,
                    count,
                );
            },
            Turn::Drain(turn, emitted, blended) => {
                lemma_draining_keeps_the_books(
                    turn,
                    emitted,
                    blended,
                    before,
                    after,
                    delivered[i - 1],
                    earlier,
                    count,
                    was_in_hand,
                );
            },
            Turn::Renew => {
                assert(before.canceller.near_carry@ =~= after.canceller.near_carry@);
            },
        }
    }
    assert(handed.skip(output.len() as int).len() == handed.len() - output.len());
    if states[i].engine.output_blend is Graded {
        let pending = states[i].engine.output_blend->Graded_0.pending_near@;
        assert forall|n: int| 0 <= n < pending.len() implies #[trigger] pending[n]
            == handed[output.len() + n] by {
            assert(handed.skip(output.len() as int)[n] == handed[output.len() + n]);
        }
    }
}

/// A flush settles the account: after any calls, with no block in hand, draining the
/// canceller leaves exactly as many samples delivered as near samples were handed
/// over, and nothing owed.
#[verifier::rlimit(60)]
pub proof fn lemma_a_flush_delivers_the_rest(
    turns: Seq<Turn>,
    states: Seq<Session>,
    delivered: Seq<Seq<Sample>>,
)
    requires
        plays(turns, states, delivered),
        orderly(turns, states),
        states[0].settled(),
        turns.len() > 0,
        turns.last() is Drain,
        !block_in_hand(turns, turns.len() as int),
    ensures
        output_of(delivered, turns.len() as int).len() == handed_over(
            turns,
            turns.len() as int,
        ).len(),
        states.last().settled(),
{
    let n = turns.len() as int;
    lemma_the_totals_balance(turns, states, delivered, n);
    lemma_the_totals_balance(turns, states, delivered, n - 1);
    assert(turns[n - 1].performs(states[n - 1], states[n], delivered[n - 1]));
    assert(states[n - 1].engine.wf());
    let (turn, emitted, blended) = (
        turns.last()->Drain_0,
        turns.last()->Drain_1,
        turns.last()->Drain_2,
    );
    lemma_draining_keeps_the_books(
        turn,
        emitted,
        blended,
        states[n - 1],
        states[n],
        delivered[n - 1],
        handed_over(turns, n - 1),
        output_of(delivered, n - 1).len() as int,
        false,
    );
    assert(states[n].canceller.near_carry@ + states[n].faded_part(false)
        =~= Seq::<Sample>::empty());
}

} // verus!
