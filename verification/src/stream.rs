//! What holds over a whole stream of calls: determinism, the bookkeeping of a
//! block, and what a declared loss and an output policy can and cannot change.
//!
//! A stream is described by the calls the host makes, the engine state between
//! them, and what each call answers. Two streams are compared state by state.

use vstd::prelude::*;

use crate::acquire::{AcquireAction, DelayAcquirer, ObserveOutcome};
use crate::canceller::CancellerMetrics;
use crate::coarse::CoarseScore;
use crate::config::AecConfig;
use crate::delay::{DelayEstimator, FineObservation, FineScan};
use crate::engine::{Aec, AecEvent, CancellerAction, CaptureContinuity, GradedGate, OutputBlend};
use crate::ring::ReferenceRing;
use crate::sample::{Measure, Sample, SAMPLE_ONE};

verus! {

/// One call the host makes on the engine.
pub enum Call {
    /// [`Aec::feed_reference`].
    Feed(Seq<Sample>),
    /// [`Aec::bank_reference_levels`].
    Bank(Seq<Sample>),
    /// [`Aec::declare_capture_continuity`].
    Declare(CaptureContinuity),
    /// [`Aec::open_block`].
    Open(Seq<Sample>),
    /// [`Aec::step`].
    Step,
    /// [`Aec::answer_coarse`].
    AnswerCoarse(CoarseScore),
    /// [`Aec::answer_fine`].
    AnswerFine(Measure, Measure, FineScan),
    /// [`Aec::answer_rescan`].
    AnswerRescan(Measure, Measure, FineScan),
    /// [`Aec::align_block`].
    Align,
    /// [`Aec::fade_next`], which the host makes once per sample of a block for as
    /// long as [`Aec::ramp`] names one: an engine without a ramp is left alone.
    Fade(Sample),
    /// [`Aec::release`], of what the canceller emitted and its blend.
    Release(Seq<Sample>, Seq<Sample>),
    /// [`Aec::reset`].
    Reset,
}

/// What a call answers.
pub enum Reply {
    /// Nothing.
    Done,
    /// The native samples a feed hands out.
    Handed(Seq<Sample>),
    /// What a step did, or needs.
    Event(AecEvent),
    /// What becomes of the canceller.
    Action(CancellerAction),
    /// The samples delivered.
    Delivered(Seq<Sample>),
}

impl Call {
    /// Whether a call, made in `before`, leaves `after` and answers `reply`: what
    /// the contract of the function it stands for says.
    pub open spec fn performs(self, before: Aec, after: Aec, reply: Reply) -> bool {
        match self {
            Call::Feed(reference) => reply matches Reply::Handed(handed) && after.fed_from(
                before,
                reference,
                handed,
            ),
            Call::Bank(levels) => reply is Done && after.banked_from(before, levels),
            Call::Declare(continuity) => reply is Done && after == (Aec {
                declared_continuity: crate::engine::latched(before.declared_continuity, continuity),
                ..before
            }),
            Call::Open(near) => reply is Done && after.opened_from(before, near),
            Call::Step => reply == Reply::Event(before.next_event()) && after.stepped_from(before),
            Call::AnswerCoarse(score) => reply is Done && before.acquirer is Some
                && after.scored_from(before, score),
            Call::AnswerFine(near_energy, far_energy, scan) => reply matches Reply::Action(r)
                && before.acquirer is Some && after.judged_from(
                before,
                near_energy,
                far_energy,
                scan,
                r,
            ),
            Call::AnswerRescan(near_energy, far_energy, scan) => reply matches Reply::Action(r)
                && before.acquirer is Some && after.rejudged_from(
                before,
                near_energy,
                far_energy,
                scan,
                r,
            ),
            Call::Align => reply is Done && before.in_block && after.aligned_from(before),
            Call::Fade(moved) => reply is Done && if before.output_blend is Graded {
                after.faded_from(before, moved)
            } else {
                after == before
            },
            Call::Release(emitted, blended) => reply == Reply::Delivered(
                before.delivers(emitted, blended),
            ) && after.released_from(before, emitted.len() as int),
            Call::Reset => reply is Done && after.restarted_from(before),
        }
    }

    /// Whether two calls ask the same of the engine, apart from how many samples a
    /// declared loss reports and from the arithmetic of the output ramp.
    pub open spec fn asks_the_same(self, other: Call) -> bool {
        match (self, other) {
            (Call::Declare(a), Call::Declare(b)) => a is Discontinuity == b is Discontinuity,
            (Call::Fade(_), Call::Fade(_)) => true,
            (Call::Release(a, _), Call::Release(b, _)) => a == b,
            _ => self == other,
        }
    }
}

impl Reply {
    /// Whether two answers are equal, or deliver equally many samples.
    pub open spec fn agrees(self, other: Reply) -> bool {
        match (self, other) {
            (Reply::Delivered(a), Reply::Delivered(b)) => a.len() == b.len(),
            _ => self == other,
        }
    }
}

/// Whether `states` and `replies` are what a sequence of calls runs through.
pub open spec fn runs(calls: Seq<Call>, states: Seq<Aec>, replies: Seq<Reply>) -> bool {
    &&& states.len() == calls.len() + 1
    &&& replies.len() == calls.len()
    &&& forall|i: int| 0 <= i < states.len() ==> (#[trigger] states[i]).wf()
    &&& forall|i: int|
        0 <= i < calls.len() ==> (#[trigger] calls[i]).performs(
            states[i],
            states[i + 1],
            replies[i],
        )
}

impl OutputBlend {
    /// Whether two output transitions are in the same state.
    pub open spec fn alike(self, other: OutputBlend) -> bool {
        match (self, other) {
            (OutputBlend::Preserve, OutputBlend::Preserve) => true,
            (OutputBlend::Graded(a), OutputBlend::Graded(b)) => {
                &&& a.pending_near@ == b.pending_near@
                &&& a.pending_gain@ == b.pending_gain@
                &&& b == (GradedGate {
                    pending_near: b.pending_near,
                    pending_gain: b.pending_gain,
                    ..a
                })
            },
            _ => false,
        }
    }
}

impl Aec {
    /// Whether two engines are in step: everything about them is the same but how
    /// their output is rendered and how many samples were reported lost.
    pub open spec fn in_step(self, other: Aec) -> bool {
        &&& self.config == (AecConfig {
            output_transition: self.config.output_transition,
            ..other.config
        })
        &&& self.ring.alike(other.ring)
        &&& match (self.acquirer, other.acquirer) {
            (Some(a), Some(b)) => a.alike(b),
            (None, None) => true,
            _ => false,
        }
        &&& self.near_scratch@ == other.near_scratch@
        &&& self.far_scratch@ == other.far_scratch@
        &&& self.estimator_scratch@ == other.estimator_scratch@
        &&& self.reference_scratch@ == other.reference_scratch@
        &&& self.declared() == other.declared()
        &&& other == (Aec {
            config: other.config,
            ring: other.ring,
            acquirer: other.acquirer,
            near_scratch: other.near_scratch,
            far_scratch: other.far_scratch,
            estimator_scratch: other.estimator_scratch,
            reference_scratch: other.reference_scratch,
            declared_continuity: other.declared_continuity,
            capture_samples_lost: other.capture_samples_lost,
            faded: other.faded,
            output_blend: other.output_blend,
            ..self
        })
    }

    /// Whether two engines render their output from the same state.
    pub open spec fn renders_alike(self, other: Aec) -> bool {
        self.faded == other.faded && self.output_blend.alike(other.output_blend)
    }

    /// Whether two engines are in the same state in every respect.
    pub open spec fn alike(self, other: Aec) -> bool {
        &&& self.in_step(other)
        &&& self.renders_alike(other)
        &&& self.config == other.config
        &&& self.declared_continuity == other.declared_continuity
        &&& self.capture_samples_lost == other.capture_samples_lost
    }
}

/// Two rings that hold the same history read alike.
proof fn lemma_alike_rings_read_alike(a: ReferenceRing, b: ReferenceRing, start: int, count: int)
    requires
        a.alike(b),
    ensures
        crate::engine::read_span(a, start, count) == crate::engine::read_span(b, start, count),
        crate::engine::supplied(a, start, count) == crate::engine::supplied(b, start, count),
        crate::engine::window_support(a, start, count) == crate::engine::window_support(
            b,
            start,
            count,
        ),
{
    assert(crate::engine::read_span(a, start, count) =~= crate::engine::read_span(b, start, count));
}

/// Opening the same block keeps two engines in step.
proof fn lemma_opening_keeps_step(a: Aec, b: Aec, after_a: Aec, after_b: Aec, near: Seq<Sample>)
    requires
        a.in_step(b),
        after_a.opened_from(a, near),
        after_b.opened_from(b, near),
    ensures
        after_a.in_step(after_b),
{
    let count = near.len() as u64;
    assert(a.seams(count) == b.seams(count));
    assert(a.block_base(count) == b.block_base(count));
    if a.acquirer is Some && a.seams(count) {
        let middle_a = choose|middle: DelayAcquirer| #[trigger]
            middle.seamed_from(a.acquirer->0) && after_a.acquirer->0 == (DelayAcquirer {
                next_near_abs: a.block_base(count),
                anchored: true,
                ..middle
            });
        let middle_b = choose|middle: DelayAcquirer| #[trigger]
            middle.seamed_from(b.acquirer->0) && after_b.acquirer->0 == (DelayAcquirer {
                next_near_abs: b.block_base(count),
                anchored: true,
                ..middle
            });
        assert(middle_a.alike(middle_b));
    }
}

/// One step keeps two engines in step.
proof fn lemma_stepping_keeps_step(a: Aec, b: Aec, after_a: Aec, after_b: Aec)
    requires
        a.in_step(b),
        after_a.stepped_from(a),
        after_b.stepped_from(b),
    ensures
        a.next_event() == b.next_event(),
        after_a.in_step(after_b),
{
    if a.next_event() is FineFrame || a.next_event() is Rescan {
        lemma_alike_rings_read_alike(
            a.ring,
            b.ring,
            a.window_start(),
            a.acquirer->0.fine.fft_len as int,
        );
    }
}

/// The same fine measurement keeps two engines in step.
proof fn lemma_judging_keeps_step(
    a: Aec,
    b: Aec,
    after_a: Aec,
    after_b: Aec,
    near_energy: Measure,
    far_energy: Measure,
    scan: FineScan,
    r_a: CancellerAction,
    r_b: CancellerAction,
)
    requires
        a.in_step(b),
        a.acquirer is Some,
        after_a.judged_from(a, near_energy, far_energy, scan, r_a),
        after_b.judged_from(b, near_energy, far_energy, scan, r_b),
    ensures
        after_a.in_step(after_b),
        r_a == r_b,
{
    let start_a = a.acquirer->0;
    let start_b = b.acquirer->0;
    let (fine_a, obs_a, outcome_a) = choose|
        fine: DelayEstimator,
        obs: FineObservation,
        outcome: ObserveOutcome,
    |
        #![trigger fine.observed_from(start_a.fine, a.support, near_energy, far_energy, scan),
            start_a.fine.reports(a.support, near_energy, far_energy, scan, obs),
            after_a.acquirer->0.acted_from(start_a.with_fine(fine), obs, outcome)]
        {
            &&& fine.observed_from(start_a.fine, a.support, near_energy, far_energy, scan)
            &&& start_a.fine.reports(a.support, near_energy, far_energy, scan, obs)
            &&& after_a.acquirer->0.acted_from(start_a.with_fine(fine), obs, outcome)
            &&& after_a.adopted_from(
                Aec {
                    acquirer: after_a.acquirer,
                    rescan_pending: outcome.rescan_pending,
                    window_ready: false,
                    ..a
                },
                outcome.action,
                r_a,
            )
        };
    let (fine_b, obs_b, outcome_b) = choose|
        fine: DelayEstimator,
        obs: FineObservation,
        outcome: ObserveOutcome,
    |
        #![trigger fine.observed_from(start_b.fine, b.support, near_energy, far_energy, scan),
            start_b.fine.reports(b.support, near_energy, far_energy, scan, obs),
            after_b.acquirer->0.acted_from(start_b.with_fine(fine), obs, outcome)]
        {
            &&& fine.observed_from(start_b.fine, b.support, near_energy, far_energy, scan)
            &&& start_b.fine.reports(b.support, near_energy, far_energy, scan, obs)
            &&& after_b.acquirer->0.acted_from(start_b.with_fine(fine), obs, outcome)
            &&& after_b.adopted_from(
                Aec {
                    acquirer: after_b.acquirer,
                    rescan_pending: outcome.rescan_pending,
                    window_ready: false,
                    ..b
                },
                outcome.action,
                r_b,
            )
        };
    crate::delay::lemma_judging_a_frame_is_deterministic(
        start_a.fine,
        start_b.fine,
        fine_a,
        fine_b,
        a.support,
        near_energy,
        far_energy,
        scan,
        obs_a,
        obs_b,
    );
    crate::acquire::lemma_acting_is_deterministic(
        start_a.with_fine(fine_a),
        start_b.with_fine(fine_b),
        after_a.acquirer->0,
        after_b.acquirer->0,
        obs_a,
        outcome_a,
        outcome_b,
    );
}

/// The same rescan measurement keeps two engines in step.
proof fn lemma_rejudging_keeps_step(
    a: Aec,
    b: Aec,
    after_a: Aec,
    after_b: Aec,
    near_energy: Measure,
    far_energy: Measure,
    scan: FineScan,
    r_a: CancellerAction,
    r_b: CancellerAction,
)
    requires
        a.in_step(b),
        a.acquirer is Some,
        after_a.rejudged_from(a, near_energy, far_energy, scan, r_a),
        after_b.rejudged_from(b, near_energy, far_energy, scan, r_b),
    ensures
        after_a.in_step(after_b),
        r_a == r_b,
{
    let start_a = a.acquirer->0;
    let start_b = b.acquirer->0;
    if start_a.fine.rescans(a.support, near_energy, far_energy) {
        let (fine_a, obs_a, action_a) = choose|
            fine: DelayEstimator,
            obs: FineObservation,
            action: Option<AcquireAction>,
        |
            #![trigger fine.records(start_a.fine, scan), start_a.fine.candidate_of(scan,
                obs.candidate), after_a.acquirer->0.rescanned_from(start_a.with_fine(fine), obs,
                action)]
            {
                &&& fine.records(start_a.fine, scan)
                &&& fine == (DelayEstimator {
                    last_scan_ratio: fine.last_scan_ratio,
                    last_scan_peak_at: fine.last_scan_peak_at,
                    last_scan_origin: fine.last_scan_origin,
                    scans: fine.scans,
                    ..start_a.fine
                })
                &&& start_a.fine.candidate_of(scan, obs.candidate)
                &&& after_a.acquirer->0.rescanned_from(start_a.with_fine(fine), obs, action)
                &&& after_a.adopted_from(
                    Aec {
                        acquirer: after_a.acquirer,
                        rescan_pending: false,
                        window_ready: false,
                        ..a
                    },
                    action,
                    r_a,
                )
            };
        let (fine_b, obs_b, action_b) = choose|
            fine: DelayEstimator,
            obs: FineObservation,
            action: Option<AcquireAction>,
        |
            #![trigger fine.records(start_b.fine, scan), start_b.fine.candidate_of(scan,
                obs.candidate), after_b.acquirer->0.rescanned_from(start_b.with_fine(fine), obs,
                action)]
            {
                &&& fine.records(start_b.fine, scan)
                &&& fine == (DelayEstimator {
                    last_scan_ratio: fine.last_scan_ratio,
                    last_scan_peak_at: fine.last_scan_peak_at,
                    last_scan_origin: fine.last_scan_origin,
                    scans: fine.scans,
                    ..start_b.fine
                })
                &&& start_b.fine.candidate_of(scan, obs.candidate)
                &&& after_b.acquirer->0.rescanned_from(start_b.with_fine(fine), obs, action)
                &&& after_b.adopted_from(
                    Aec {
                        acquirer: after_b.acquirer,
                        rescan_pending: false,
                        window_ready: false,
                        ..b
                    },
                    action,
                    r_b,
                )
            };
        crate::delay::lemma_a_scan_leaves_one_record(
            start_a.fine,
            start_b.fine,
            fine_a,
            fine_b,
            scan,
        );
        crate::delay::lemma_a_scan_yields_one_candidate(
            start_a.fine,
            start_b.fine,
            scan,
            obs_a.candidate,
            obs_b.candidate,
        );
        assert(fine_a.alike(fine_b));
        crate::acquire::lemma_acting_on_a_rescan_is_deterministic(
            start_a.with_fine(fine_a),
            start_b.with_fine(fine_b),
            after_a.acquirer->0,
            after_b.acquirer->0,
            obs_a,
            obs_b,
            action_a,
            action_b,
        );
    }
}

/// A restarted engine is a new one: two engines that hold nothing but what one
/// configuration calls for, output policy aside, are in step.
pub proof fn lemma_a_restarted_engine_is_a_new_one(a: Aec, b: Aec)
    requires
        a.wf(),
        b.wf(),
        a.pristine(),
        b.pristine(),
        a.config == (AecConfig {
            output_transition: a.config.output_transition,
            ..b.config
        }),
    ensures
        a.in_step(b),
        a.config == b.config ==> a.alike(b),
{
    if a.acquirer is Some {
        crate::acquire::lemma_a_restarted_acquisition_is_a_new_one(
            a.acquirer->0,
            b.acquirer->0,
            a.config.sample_rate,
            a.config.max_echo_delay_ms,
            a.config.max_search_delay_ms,
        );
    }
}

/// Feeding the same reference keeps two engines in step.
proof fn lemma_feeding_keeps_step(
    a: Aec,
    b: Aec,
    after_a: Aec,
    after_b: Aec,
    reference: Seq<Sample>,
    handed_a: Seq<Sample>,
    handed_b: Seq<Sample>,
)
    requires
        a.in_step(b),
        after_a.fed_from(a, reference, handed_a),
        after_b.fed_from(b, reference, handed_b),
    ensures
        after_a.in_step(after_b),
        handed_a == handed_b,
{
    crate::ring::lemma_a_push_is_deterministic(
        a.ring,
        b.ring,
        after_a.ring,
        after_b.ring,
        crate::sample::sanitized_seq(reference),
    );
}

/// Banking the same levels keeps two engines in step.
proof fn lemma_banking_keeps_step(
    a: Aec,
    b: Aec,
    after_a: Aec,
    after_b: Aec,
    levels: Seq<Sample>,
)
    requires
        a.in_step(b),
        after_a.banked_from(a, levels),
        after_b.banked_from(b, levels),
    ensures
        after_a.in_step(after_b),
{
    if a.acquirer is Some {
        crate::ring::lemma_a_push_is_deterministic(
            a.acquirer->0.coarse.far_env,
            b.acquirer->0.coarse.far_env,
            after_a.acquirer->0.coarse.far_env,
            after_b.acquirer->0.coarse.far_env,
            levels,
        );
    }
}

/// The same coarse score keeps two engines in step.
proof fn lemma_scoring_keeps_step(a: Aec, b: Aec, after_a: Aec, after_b: Aec, score: CoarseScore)
    requires
        a.in_step(b),
        a.acquirer is Some,
        after_a.scored_from(a, score),
        after_b.scored_from(b, score),
    ensures
        after_a.in_step(after_b),
{
    crate::coarse::lemma_scoring_is_deterministic(
        a.acquirer->0.coarse,
        b.acquirer->0.coarse,
        after_a.acquirer->0.coarse,
        after_b.acquirer->0.coarse,
        score,
    );
}

/// Aligning a block keeps two engines in step.
proof fn lemma_aligning_keeps_step(a: Aec, b: Aec, after_a: Aec, after_b: Aec)
    requires
        a.in_step(b),
        after_a.aligned_from(a),
        after_b.aligned_from(b),
    ensures
        after_a.in_step(after_b),
{
    lemma_alike_rings_read_alike(a.ring, b.ring, a.read_start(), a.near_scratch@.len() as int);
}

/// What is declared keeps two engines in step, whatever losses it reports.
proof fn lemma_declaring_keeps_step(
    a: Aec,
    b: Aec,
    after_a: Aec,
    after_b: Aec,
    declared_a: CaptureContinuity,
    declared_b: CaptureContinuity,
)
    requires
        a.in_step(b),
        declared_a is Discontinuity == declared_b is Discontinuity,
        after_a == (Aec {
            declared_continuity: crate::engine::latched(a.declared_continuity, declared_a),
            ..a
        }),
        after_b == (Aec {
            declared_continuity: crate::engine::latched(b.declared_continuity, declared_b),
            ..b
        }),
    ensures
        after_a.in_step(after_b),
{
}

/// What only renders the output keeps two engines in step.
proof fn lemma_rendering_keeps_step(a: Aec, b: Aec, after_a: Aec, after_b: Aec)
    requires
        a.in_step(b),
        after_a == (Aec { faded: after_a.faded, output_blend: after_a.output_blend, ..a }),
        after_b == (Aec { faded: after_b.faded, output_blend: after_b.output_blend, ..b }),
    ensures
        after_a.in_step(after_b),
{
}

/// Restarting keeps two engines in step.
proof fn lemma_restarting_keeps_step(a: Aec, b: Aec, after_a: Aec, after_b: Aec)
    requires
        a.in_step(b),
        after_a.wf(),
        after_b.wf(),
        after_a.restarted_from(a),
        after_b.restarted_from(b),
    ensures
        after_a.in_step(after_b),
{
    lemma_a_restarted_engine_is_a_new_one(after_a, after_b);
}

/// One call keeps two engines in step, and answers both the same.
#[verifier::rlimit(60)]
pub proof fn lemma_a_call_keeps_step(
    call_a: Call,
    call_b: Call,
    a: Aec,
    b: Aec,
    after_a: Aec,
    after_b: Aec,
    reply_a: Reply,
    reply_b: Reply,
)
    requires
        a.wf(),
        b.wf(),
        after_a.wf(),
        after_b.wf(),
        a.in_step(b),
        call_a.asks_the_same(call_b),
        call_a.performs(a, after_a, reply_a),
        call_b.performs(b, after_b, reply_b),
    ensures
        after_a.in_step(after_b),
        reply_a.agrees(reply_b),
{
    match call_a {
        Call::Feed(reference) => {
            lemma_feeding_keeps_step(
                a,
                b,
                after_a,
                after_b,
                reference,
                reply_a->Handed_0,
                reply_b->Handed_0,
            );
        },
        Call::Bank(levels) => {
            lemma_banking_keeps_step(a, b, after_a, after_b, levels);
        },
        Call::Declare(declared) => {
            lemma_declaring_keeps_step(a, b, after_a, after_b, declared, call_b->Declare_0);
        },
        Call::Open(near) => {
            lemma_opening_keeps_step(a, b, after_a, after_b, near);
        },
        Call::Step => {
            lemma_stepping_keeps_step(a, b, after_a, after_b);
        },
        Call::AnswerCoarse(score) => {
            lemma_scoring_keeps_step(a, b, after_a, after_b, score);
        },
        Call::AnswerFine(near_energy, far_energy, scan) => {
            lemma_judging_keeps_step(
                a,
                b,
                after_a,
                after_b,
                near_energy,
                far_energy,
                scan,
                reply_a->Action_0,
                reply_b->Action_0,
            );
        },
        Call::AnswerRescan(near_energy, far_energy, scan) => {
            lemma_rejudging_keeps_step(
                a,
                b,
                after_a,
                after_b,
                near_energy,
                far_energy,
                scan,
                reply_a->Action_0,
                reply_b->Action_0,
            );
        },
        Call::Align => {
            lemma_aligning_keeps_step(a, b, after_a, after_b);
        },
        Call::Fade(_) => {
            lemma_rendering_keeps_step(a, b, after_a, after_b);
        },
        Call::Release(_, _) => {
            lemma_rendering_keeps_step(a, b, after_a, after_b);
        },
        Call::Reset => {
            lemma_restarting_keeps_step(a, b, after_a, after_b);
        },
    }
}

/// The same call keeps two engines that are in the same state in the same state,
/// and answers both the same.
#[verifier::rlimit(60)]
pub proof fn lemma_a_call_keeps_likeness(
    call: Call,
    a: Aec,
    b: Aec,
    after_a: Aec,
    after_b: Aec,
    reply_a: Reply,
    reply_b: Reply,
)
    requires
        a.wf(),
        b.wf(),
        after_a.wf(),
        after_b.wf(),
        a.alike(b),
        call.performs(a, after_a, reply_a),
        call.performs(b, after_b, reply_b),
    ensures
        after_a.alike(after_b),
        reply_a == reply_b,
{
    lemma_a_call_keeps_step(call, call, a, b, after_a, after_b, reply_a, reply_b);
    lemma_the_rest_is_kept_alike(call, a, b, after_a, after_b, reply_a, reply_b);
}

/// What being in step leaves open is kept alike too: the output transition and the
/// reported losses.
proof fn lemma_the_rest_is_kept_alike(
    call: Call,
    a: Aec,
    b: Aec,
    after_a: Aec,
    after_b: Aec,
    reply_a: Reply,
    reply_b: Reply,
)
    requires
        after_a.output_blend.wf(),
        after_b.output_blend.wf(),
        a.alike(b),
        call.performs(a, after_a, reply_a),
        call.performs(b, after_b, reply_b),
        reply_a.agrees(reply_b),
    ensures
        after_a.renders_alike(after_b),
        after_a.config == after_b.config,
        after_a.declared_continuity == after_b.declared_continuity,
        after_a.capture_samples_lost == after_b.capture_samples_lost,
        reply_a == reply_b,
{
    match call {
        Call::AnswerFine(_, _, _) => {
            lemma_judging_renders_nothing(call, a, after_a, reply_a);
            lemma_judging_renders_nothing(call, b, after_b, reply_b);
        },
        Call::AnswerRescan(_, _, _) => {
            lemma_judging_renders_nothing(call, a, after_a, reply_a);
            lemma_judging_renders_nothing(call, b, after_b, reply_b);
        },
        Call::Release(emitted, blended) => {
            assert(a.delivers(emitted, blended) =~= b.delivers(emitted, blended));
        },
        _ => {},
    }
}

/// A measurement changes nothing that is rendered, counted as lost or configured:
/// the near samples still pending stay pending through every promotion.
pub proof fn lemma_judging_renders_nothing(call: Call, before: Aec, after: Aec, reply: Reply)
    requires
        call is AnswerFine || call is AnswerRescan || call is AnswerCoarse || call is Step,
        call.performs(before, after, reply),
    ensures
        after.output_blend == before.output_blend,
        after.faded == before.faded,
        after.config == before.config,
        after.declared_continuity == before.declared_continuity,
        after.capture_samples_lost == before.capture_samples_lost,
        after.capture_discontinuities == before.capture_discontinuities,
        after.reference_starved == before.reference_starved,
        after.acquisition_parked == before.acquisition_parked,
        after.ring == before.ring,
        after.anchor == before.anchor,
        after.near_processed == before.near_processed,
        after.near_scratch == before.near_scratch,
        after.in_block == before.in_block,
{
}

/// Two engines in step report the same, the reported losses aside.
pub proof fn lemma_engines_in_step_report_the_same(a: Aec, b: Aec, canceller: CancellerMetrics)
    requires
        a.in_step(b),
    ensures
        a.snapshot(canceller) == (crate::engine::AecMetrics {
            capture_samples_lost: a.capture_samples_lost,
            ..b.snapshot(canceller)
        }),
        a.status() == b.status(),
{
}

/// Two streams that ask the same of two engines in step keep them in step at every
/// call: both answer alike and report alike, however the output is rendered and
/// whatever losses are reported.
pub proof fn lemma_two_streams_stay_in_step(
    calls_a: Seq<Call>,
    calls_b: Seq<Call>,
    states_a: Seq<Aec>,
    states_b: Seq<Aec>,
    replies_a: Seq<Reply>,
    replies_b: Seq<Reply>,
    i: int,
)
    requires
        runs(calls_a, states_a, replies_a),
        runs(calls_b, states_b, replies_b),
        calls_a.len() == calls_b.len(),
        forall|k: int|
            0 <= k < calls_a.len() ==> (#[trigger] calls_a[k]).asks_the_same(calls_b[k]),
        states_a[0].in_step(states_b[0]),
        0 <= i <= calls_a.len(),
    ensures
        states_a[i].in_step(states_b[i]),
        i > 0 ==> replies_a[i - 1].agrees(replies_b[i - 1]),
    decreases i,
{
    if i > 0 {
        lemma_two_streams_stay_in_step(
            calls_a,
            calls_b,
            states_a,
            states_b,
            replies_a,
            replies_b,
            i - 1,
        );
        assert(calls_a[i - 1].asks_the_same(calls_b[i - 1]));
        assert(calls_b[i - 1].performs(states_b[i - 1], states_b[i], replies_b[i - 1]));
        lemma_a_call_keeps_step(
            calls_a[i - 1],
            calls_b[i - 1],
            states_a[i - 1],
            states_b[i - 1],
            states_a[i],
            states_b[i],
            replies_a[i - 1],
            replies_b[i - 1],
        );
    }
}

/// The engine is deterministic: two engines built from one configuration and driven
/// by the same calls are in the same state after every one of them, answer every
/// one the same, sample for sample, and report the same, the delay estimate and the
/// call on which a lock is promoted included.
pub proof fn lemma_the_engine_is_deterministic(
    calls: Seq<Call>,
    states_a: Seq<Aec>,
    states_b: Seq<Aec>,
    replies_a: Seq<Reply>,
    replies_b: Seq<Reply>,
    i: int,
    canceller: CancellerMetrics,
)
    requires
        runs(calls, states_a, replies_a),
        runs(calls, states_b, replies_b),
        states_a[0].pristine(),
        states_b[0].pristine(),
        states_a[0].config == states_b[0].config,
        0 <= i <= calls.len(),
    ensures
        states_a[i].alike(states_b[i]),
        states_a[i].snapshot(canceller) == states_b[i].snapshot(canceller),
        i > 0 ==> replies_a[i - 1] == replies_b[i - 1],
    decreases i,
{
    if i == 0 {
        lemma_a_restarted_engine_is_a_new_one(states_a[0], states_b[0]);
    } else {
        lemma_the_engine_is_deterministic(
            calls,
            states_a,
            states_b,
            replies_a,
            replies_b,
            i - 1,
            canceller,
        );
        assert(calls[i - 1].performs(states_a[i - 1], states_a[i], replies_a[i - 1]));
        lemma_a_call_keeps_likeness(
            calls[i - 1],
            states_a[i - 1],
            states_b[i - 1],
            states_a[i],
            states_b[i],
            replies_a[i - 1],
            replies_b[i - 1],
        );
    }
    lemma_engines_in_step_report_the_same(states_a[i], states_b[i], canceller);
}

/// The reported losses an engine has taken or holds pending.
pub open spec fn losses(aec: Aec) -> u64 {
    crate::engine::saturated(
        aec.capture_samples_lost + match aec.declared_continuity {
            CaptureContinuity::Discontinuity { lost_samples: Some(lost) } => lost as int,
            _ => 0,
        },
    )
}

/// Whether a sequence of calls never restarts the stream.
pub open spec fn unbroken(calls: Seq<Call>) -> bool {
    forall|k: int| 0 <= k < calls.len() ==> !(#[trigger] calls[k] is Reset)
}

/// The loss a declaration reports is informational, for the rest of the stream: an
/// engine told that `lost` samples went missing and one told of the same
/// discontinuity without a count answer every later call the same, sample for
/// sample, and report the same but for the total, which stays larger by exactly
/// the count for as long as it fits.
#[verifier::rlimit(60)]
pub proof fn lemma_a_reported_loss_changes_only_the_total(
    calls: Seq<Call>,
    states_a: Seq<Aec>,
    states_b: Seq<Aec>,
    replies_a: Seq<Reply>,
    replies_b: Seq<Reply>,
    lost: u64,
    i: int,
    canceller: CancellerMetrics,
)
    requires
        runs(calls, states_a, replies_a),
        runs(calls, states_b, replies_b),
        unbroken(calls),
        states_b[0].declared_continuity == (CaptureContinuity::Discontinuity {
            lost_samples: None,
        }),
        states_a[0] == (Aec {
            declared_continuity: CaptureContinuity::Discontinuity { lost_samples: Some(lost) },
            ..states_b[0]
        }),
        0 <= i <= calls.len(),
    ensures
        states_a[i].in_step(states_b[i]),
        states_a[i].renders_alike(states_b[i]),
        states_a[i].config == states_b[i].config,
        losses(states_a[i]) == crate::engine::saturated(losses(states_b[i]) + lost),
        !states_b[i].declared() ==> states_a[i].snapshot(canceller) == (crate::engine::AecMetrics {
            capture_samples_lost: crate::engine::saturated(
                states_b[i].capture_samples_lost + lost,
            ),
            ..states_b[i].snapshot(canceller)
        }),
        i > 0 ==> replies_a[i - 1] == replies_b[i - 1],
    decreases i,
{
    if i > 0 {
        lemma_a_reported_loss_changes_only_the_total(
            calls,
            states_a,
            states_b,
            replies_a,
            replies_b,
            lost,
            i - 1,
            canceller,
        );
        let call = calls[i - 1];
        assert(call.performs(states_a[i - 1], states_a[i], replies_a[i - 1]));
        lemma_a_call_keeps_step(
            call,
            call,
            states_a[i - 1],
            states_b[i - 1],
            states_a[i],
            states_b[i],
            replies_a[i - 1],
            replies_b[i - 1],
        );
        lemma_a_call_adds_the_same_loss(
            call,
            states_a[i - 1],
            states_b[i - 1],
            states_a[i],
            states_b[i],
            replies_a[i - 1],
            replies_b[i - 1],
            lost,
        );
    }
    lemma_engines_in_step_report_the_same(states_a[i], states_b[i], canceller);
}

#[verifier::rlimit(60)]
proof fn lemma_a_call_adds_the_same_loss(
    call: Call,
    a: Aec,
    b: Aec,
    after_a: Aec,
    after_b: Aec,
    reply_a: Reply,
    reply_b: Reply,
    lost: u64,
)
    requires
        a.in_step(b),
        a.renders_alike(b),
        a.config == b.config,
        losses(a) == crate::engine::saturated(losses(b) + lost),
        !(call is Reset),
        call.performs(a, after_a, reply_a),
        call.performs(b, after_b, reply_b),
        reply_a.agrees(reply_b),
    ensures
        after_a.renders_alike(after_b),
        after_a.config == after_b.config,
        losses(after_a) == crate::engine::saturated(losses(after_b) + lost),
        reply_a == reply_b,
{
    match call {
        Call::AnswerFine(_, _, _) => {
            lemma_judging_renders_nothing(call, a, after_a, reply_a);
            lemma_judging_renders_nothing(call, b, after_b, reply_b);
        },
        Call::AnswerRescan(_, _, _) => {
            lemma_judging_renders_nothing(call, a, after_a, reply_a);
            lemma_judging_renders_nothing(call, b, after_b, reply_b);
        },
        Call::Release(emitted, blended) => {
            assert(a.delivers(emitted, blended) =~= b.delivers(emitted, blended));
        },
        _ => {},
    }
}

/// Whether an engine's output stands at full correction: every pending gain, and
/// the gain the ramp moves from, is one.
pub open spec fn at_full_gain(aec: Aec) -> bool {
    aec.output_blend matches OutputBlend::Graded(gate) ==> gate.gain == (Sample {
        bits: SAMPLE_ONE,
    }) && forall|k: int|
        0 <= k < gate.pending_gain@.len() ==> #[trigger] gate.pending_gain@[k] == (Sample {
            bits: SAMPLE_ONE,
        })
}

/// Whether no sample of a stream is given its gain while a trusted alignment is
/// being reacquired.
pub open spec fn never_fades(calls: Seq<Call>, states: Seq<Aec>) -> bool {
    forall|k: int|
        0 <= k < calls.len() ==> (#[trigger] calls[k] is Fade ==> !(
        states[k].status() is Reacquiring))
}

/// Outside a reacquisition the graded policy is byte-identical to preserving the
/// correction, over a whole stream: two engines that differ in their output policy
/// alone and are asked the same answer every call the same, sample for sample, for
/// as long as no block is rendered while a trusted alignment is being reacquired.
/// Initial acquisition, locks and re-anchors make no difference, and neither does
/// what the ramp's arithmetic gives.
#[verifier::rlimit(60)]
pub proof fn lemma_graded_is_preserved_without_a_reacquisition(
    calls_a: Seq<Call>,
    calls_b: Seq<Call>,
    states_a: Seq<Aec>,
    states_b: Seq<Aec>,
    replies_a: Seq<Reply>,
    replies_b: Seq<Reply>,
    i: int,
)
    requires
        runs(calls_a, states_a, replies_a),
        runs(calls_b, states_b, replies_b),
        calls_a.len() == calls_b.len(),
        forall|k: int|
            0 <= k < calls_a.len() ==> (#[trigger] calls_a[k]).asks_the_same(calls_b[k]),
        states_a[0].in_step(states_b[0]),
        at_full_gain(states_a[0]),
        at_full_gain(states_b[0]),
        never_fades(calls_a, states_a),
        never_fades(calls_b, states_b),
        0 <= i <= calls_a.len(),
    ensures
        states_a[i].in_step(states_b[i]),
        at_full_gain(states_a[i]),
        at_full_gain(states_b[i]),
        i > 0 ==> replies_a[i - 1] == replies_b[i - 1],
    decreases i,
{
    lemma_two_streams_stay_in_step(
        calls_a,
        calls_b,
        states_a,
        states_b,
        replies_a,
        replies_b,
        i,
    );
    if i > 0 {
        lemma_graded_is_preserved_without_a_reacquisition(
            calls_a,
            calls_b,
            states_a,
            states_b,
            replies_a,
            replies_b,
            i - 1,
        );
        assert(calls_a[i - 1].asks_the_same(calls_b[i - 1]));
        assert(calls_a[i - 1].performs(states_a[i - 1], states_a[i], replies_a[i - 1]));
        assert(calls_b[i - 1].performs(states_b[i - 1], states_b[i], replies_b[i - 1]));
        lemma_full_gain_is_kept(calls_a[i - 1], states_a[i - 1], states_a[i], replies_a[i - 1]);
        lemma_full_gain_is_kept(calls_b[i - 1], states_b[i - 1], states_b[i], replies_b[i - 1]);
    }
}

/// A call that fades nothing keeps full correction, and delivers what the
/// canceller emitted untouched.
#[verifier::rlimit(60)]
proof fn lemma_full_gain_is_kept(call: Call, before: Aec, after: Aec, reply: Reply)
    requires
        before.output_blend.wf(),
        at_full_gain(before),
        call.performs(before, after, reply),
        call is Fade ==> !(before.status() is Reacquiring),
    ensures
        at_full_gain(after),
        call matches Call::Release(emitted, _) ==> reply == Reply::Delivered(emitted),
{
    match call {
        Call::AnswerFine(_, _, _) => {
            lemma_judging_renders_nothing(call, before, after, reply);
        },
        Call::AnswerRescan(_, _, _) => {
            lemma_judging_renders_nothing(call, before, after, reply);
        },
        Call::Release(emitted, blended) => {
            assert(before.delivers(emitted, blended) =~= emitted);
        },
        _ => {},
    }
}

/// Whether a call is one the host makes while a block is in hand.
pub open spec fn within_a_block(call: Call) -> bool {
    call is Step || call is AnswerCoarse || call is AnswerFine || call is AnswerRescan
        || call is Release
}

/// A whole block is either searched over or served: from its opening to its
/// alignment, whatever the acquisition decided in between, it is parked entirely
/// when no alignment stands at the end of it, and otherwise starved of exactly the
/// reference samples the ring does not hold, and never both.
pub proof fn lemma_a_block_is_parked_or_served(
    calls: Seq<Call>,
    states: Seq<Aec>,
    replies: Seq<Reply>,
    near: Seq<Sample>,
)
    requires
        runs(calls, states, replies),
        calls.len() >= 2,
        calls[0] == Call::Open(near),
        calls.last() is Align,
        forall|k: int| 0 < k < calls.len() - 1 ==> within_a_block(#[trigger] calls[k]),
    ensures
        ({
            let first = states[0];
            let last = states[calls.len() as int];
            let count = near.len() as int;
            let start = last.anchor->0 + last.near_processed - count - last.delay_offset;
            let held = crate::engine::supplied(last.ring, start, count);
            &&& last.alignment() is None ==> last.acquisition_parked == first.acquisition_parked
                + count && last.reference_starved == first.reference_starved
            &&& last.alignment() is Some ==> last.acquisition_parked == first.acquisition_parked
                && last.reference_starved + held == first.reference_starved + count
            &&& 0 <= held <= count
            &&& last.near_scratch@ == crate::sample::sanitized_seq(near)
            &&& last.far_scratch@.len() == count
        }),
{
    let n = calls.len() - 1;
    lemma_a_block_in_hand_is_kept(calls, states, replies, near, n);
    assert(calls[n].performs(states[n], states[n + 1], replies[n]));
}

proof fn lemma_a_block_in_hand_is_kept(
    calls: Seq<Call>,
    states: Seq<Aec>,
    replies: Seq<Reply>,
    near: Seq<Sample>,
    i: int,
)
    requires
        runs(calls, states, replies),
        calls.len() >= 2,
        calls[0] == Call::Open(near),
        forall|k: int| 0 < k < calls.len() - 1 ==> within_a_block(#[trigger] calls[k]),
        1 <= i < calls.len(),
    ensures
        states[i].near_scratch@ == crate::sample::sanitized_seq(near),
        states[i].reference_starved == states[0].reference_starved,
        states[i].acquisition_parked == states[0].acquisition_parked,
        states[i].ring == states[0].ring,
        states[i].in_block,
    decreases i,
{
    assert(calls[i - 1].performs(states[i - 1], states[i], replies[i - 1]));
    if i > 1 {
        lemma_a_block_in_hand_is_kept(calls, states, replies, near, i - 1);
        assert(within_a_block(calls[i - 1]));
        if !(calls[i - 1] is Release) {
            lemma_judging_renders_nothing(
                calls[i - 1],
                states[i - 1],
                states[i],
                replies[i - 1],
            );
        }
    }
}

/// The near samples queued for delivery by the first `i` calls, in order.
pub open spec fn queued(calls: Seq<Call>, states: Seq<Aec>, i: int) -> Seq<Sample>
    decreases i,
{
    if i <= 0 {
        Seq::empty()
    } else if calls[i - 1] is Fade {
        queued(calls, states, i - 1).push(
            states[i - 1].near_scratch@[states[i - 1].faded as int],
        )
    } else {
        queued(calls, states, i - 1)
    }
}

/// How many samples the first `i` calls delivered.
pub open spec fn delivered_count(calls: Seq<Call>, i: int) -> int
    decreases i,
{
    if i <= 0 {
        0
    } else {
        match calls[i - 1] {
            Call::Release(emitted, _) => delivered_count(calls, i - 1) + emitted.len(),
            _ => delivered_count(calls, i - 1),
        }
    }
}

/// The output is index-aligned with the near end over the whole stream, and the
/// totals balance: with a canceller that never emits more than it was handed, what
/// is pending is exactly the near samples queued and not yet delivered, in order,
/// so the `n`-th sample delivered is rendered against the `n`-th near sample. A
/// promotion that resets the canceller costs no sample.
pub proof fn lemma_the_output_is_index_aligned(
    calls: Seq<Call>,
    states: Seq<Aec>,
    replies: Seq<Reply>,
    i: int,
)
    requires
        runs(calls, states, replies),
        unbroken(calls),
        states[0].output_blend matches OutputBlend::Graded(gate) && gate.pending_near@.len() == 0,
        forall|k: int|
            0 <= k < calls.len() ==> (#[trigger] calls[k] matches Call::Release(emitted, _)
                ==> emitted.len() <= states[k].output_blend->Graded_0.pending_near@.len()),
        0 <= i <= calls.len(),
    ensures
        states[i].output_blend is Graded,
        0 <= delivered_count(calls, i) <= queued(calls, states, i).len(),
        states[i].output_blend->Graded_0.pending_near@ == queued(calls, states, i).skip(
            delivered_count(calls, i),
        ),
    decreases i,
{
    if i > 0 {
        lemma_the_output_is_index_aligned(calls, states, replies, i - 1);
        let before = states[i - 1];
        let after = states[i];
        let call = calls[i - 1];
        assert(call.performs(before, after, replies[i - 1]));
        match call {
            Call::AnswerFine(_, _, _) => {
                lemma_judging_renders_nothing(call, before, after, replies[i - 1]);
            },
            Call::AnswerRescan(_, _, _) => {
                lemma_judging_renders_nothing(call, before, after, replies[i - 1]);
            },
            _ => {},
        }
        assert(after.output_blend->Graded_0.pending_near@ =~= queued(calls, states, i).skip(
            delivered_count(calls, i),
        ));
    }
}

/// An aligned block is queued whole and in order: after as many fades as it holds
/// samples, what was queued is the block.
pub proof fn lemma_a_block_is_queued_in_order(
    calls: Seq<Call>,
    states: Seq<Aec>,
    replies: Seq<Reply>,
    i: int,
)
    requires
        runs(calls, states, replies),
        forall|k: int| 0 <= k < calls.len() ==> #[trigger] calls[k] is Fade,
        states[0].output_blend is Graded,
        states[0].faded == 0,
        0 <= i <= calls.len() <= states[0].near_scratch@.len(),
    ensures
        states[i].output_blend is Graded,
        states[i].faded == i,
        states[i].near_scratch@ == states[0].near_scratch@,
        queued(calls, states, i) == states[0].near_scratch@.take(i),
    decreases i,
{
    if i > 0 {
        lemma_a_block_is_queued_in_order(calls, states, replies, i - 1);
        assert(calls[i - 1].performs(states[i - 1], states[i], replies[i - 1]));
        assert(states[0].near_scratch.len() == states[0].near_scratch@.len());
    }
    assert(queued(calls, states, i) =~= states[0].near_scratch@.take(i));
}

impl DelayAcquirer {
    /// Whether no lifetime count of the acquisition is lower than it was.
    pub open spec fn counts_no_less(self, before: DelayAcquirer) -> bool {
        &&& self.fine.scans >= before.fine.scans
        &&& self.fine.skipped >= before.fine.skipped
        &&& self.tracking_moves >= before.tracking_moves
        &&& self.reacquisitions >= before.reacquisitions
        &&& self.coarse_rearms >= before.coarse_rearms
        &&& self.regions_rejected >= before.regions_rejected
        &&& self.contradiction_run_max >= before.contradiction_run_max
        &&& (before.last_trigger is Some ==> self.last_trigger is Some)
    }
}

impl Aec {
    /// Whether no lifetime count of the engine is lower than it was.
    pub open spec fn counts_no_less(self, before: Aec) -> bool {
        &&& self.reference_starved >= before.reference_starved
        &&& self.acquisition_parked >= before.acquisition_parked
        &&& self.reference_reanchors >= before.reference_reanchors
        &&& self.capture_discontinuities >= before.capture_discontinuities
        &&& self.capture_samples_lost >= before.capture_samples_lost
        &&& self.declarations_without_decision_max >= before.declarations_without_decision_max
        &&& self.ring.next_abs >= before.ring.next_abs
        &&& match (before.acquirer, self.acquirer) {
            (Some(a), Some(b)) => b.counts_no_less(a),
            (None, None) => true,
            _ => false,
        }
    }
}

/// Acting on a fine frame lowers no lifetime count of the acquisition.
proof fn lemma_acting_counts_no_less(
    before: DelayAcquirer,
    after: DelayAcquirer,
    obs: FineObservation,
    outcome: ObserveOutcome,
)
    requires
        before.regions_rejected < u32::MAX,
        after.acted_from(before, obs, outcome),
    ensures
        after.counts_no_less(before),
{
    if !(before.state is Locked) {
        let middle = choose|middle: DelayAcquirer| #[trigger]
            middle.retried_from(before.counted(), obs.scored) && after.laddered_from(
                middle,
                obs.candidate,
                before.coarse.best,
                outcome,
            );
        assert(middle.counts_no_less(before));
        assert(after.counts_no_less(middle));
    }
}

/// Answering a fine frame lowers no lifetime count.
proof fn lemma_judging_counts_no_less(
    before: Aec,
    after: Aec,
    near_energy: Measure,
    far_energy: Measure,
    scan: FineScan,
    r: CancellerAction,
)
    requires
        before.wf(),
        before.acquirer is Some,
        after.judged_from(before, near_energy, far_energy, scan, r),
    ensures
        after.counts_no_less(before),
{
    let start = before.acquirer->0;
    let (fine, obs, outcome) = choose|
        fine: DelayEstimator,
        obs: FineObservation,
        outcome: ObserveOutcome,
    |
        #![trigger fine.observed_from(start.fine, before.support, near_energy, far_energy, scan),
            start.fine.reports(before.support, near_energy, far_energy, scan, obs),
            after.acquirer->0.acted_from(start.with_fine(fine), obs, outcome)]
        {
            &&& fine.observed_from(start.fine, before.support, near_energy, far_energy, scan)
            &&& start.fine.reports(before.support, near_energy, far_energy, scan, obs)
            &&& after.acquirer->0.acted_from(start.with_fine(fine), obs, outcome)
            &&& after.adopted_from(
                Aec {
                    acquirer: after.acquirer,
                    rescan_pending: outcome.rescan_pending,
                    window_ready: false,
                    ..before
                },
                outcome.action,
                r,
            )
        };
    lemma_acting_counts_no_less(start.with_fine(fine), after.acquirer->0, obs, outcome);
    assert(start.with_fine(fine).counts_no_less(start));
}

/// Opening a block lowers no lifetime count.
proof fn lemma_opening_counts_no_less(before: Aec, after: Aec, near: Seq<Sample>)
    requires
        before.wf(),
        after.opened_from(before, near),
    ensures
        after.counts_no_less(before),
{
    let count = near.len() as u64;
    if before.acquirer is Some && before.seams(count) {
        let middle = choose|middle: DelayAcquirer| #[trigger]
            middle.seamed_from(before.acquirer->0) && after.acquirer->0 == (DelayAcquirer {
                next_near_abs: before.block_base(count),
                anchored: true,
                ..middle
            });
        assert(middle.counts_no_less(before.acquirer->0));
    }
}

/// No call but a reset lowers a lifetime count.
#[verifier::rlimit(60)]
proof fn lemma_a_call_counts_no_less(call: Call, before: Aec, after: Aec, reply: Reply)
    requires
        before.wf(),
        after.wf(),
        !(call is Reset),
        call.performs(before, after, reply),
    ensures
        after.counts_no_less(before),
{
    match call {
        Call::Open(near) => {
            lemma_opening_counts_no_less(before, after, near);
        },
        Call::AnswerFine(near_energy, far_energy, scan) => {
            lemma_judging_counts_no_less(
                before,
                after,
                near_energy,
                far_energy,
                scan,
                reply->Action_0,
            );
        },
        Call::Align => {
            crate::engine::lemma_parking_is_not_starvation(before, after);
        },
        _ => {},
    }
}

/// The lifetime counts are monotonic for as long as the stream is not reset:
/// relocations, tracking cycles, re-arms, reacquisitions, promotions and seams
/// lower none of them.
pub proof fn lemma_the_counts_never_fall(
    calls: Seq<Call>,
    states: Seq<Aec>,
    replies: Seq<Reply>,
    i: int,
    j: int,
)
    requires
        runs(calls, states, replies),
        unbroken(calls),
        0 <= i <= j <= calls.len(),
    ensures
        states[j].counts_no_less(states[i]),
    decreases j - i,
{
    if i < j {
        lemma_the_counts_never_fall(calls, states, replies, i, j - 1);
        assert(calls[j - 1].performs(states[j - 1], states[j], replies[j - 1]));
        lemma_a_call_counts_no_less(calls[j - 1], states[j - 1], states[j], replies[j - 1]);
    }
}

/// The levels a host answers a feed with, `level` giving that of one block of `d`
/// samples.
pub open spec fn levels_of(
    handed: Seq<Sample>,
    d: int,
    level: spec_fn(Seq<Sample>) -> Sample,
) -> Seq<Sample> {
    Seq::new((handed.len() as int / d) as nat, |k: int| level(handed.subrange(k * d, k * d + d)))
}

/// The levels of whole blocks end to end are the levels of each part end to end.
proof fn lemma_levels_are_per_block(
    a: Seq<Sample>,
    b: Seq<Sample>,
    d: int,
    m: int,
    n: int,
    level: spec_fn(Seq<Sample>) -> Sample,
)
    requires
        d >= 1,
        0 <= m,
        0 <= n,
        a.len() == m * d,
        b.len() == n * d,
    ensures
        levels_of(a, d, level).len() == m,
        levels_of(b, d, level).len() == n,
        levels_of(a, d, level) + levels_of(b, d, level) == levels_of(a + b, d, level),
{
    vstd::arithmetic::div_mod::lemma_fundamental_div_mod_converse(a.len() as int, d, m, 0);
    vstd::arithmetic::div_mod::lemma_fundamental_div_mod_converse(b.len() as int, d, n, 0);
    assert((m + n) * d == m * d + n * d) by (nonlinear_arith);
    vstd::arithmetic::div_mod::lemma_fundamental_div_mod_converse(
        (a + b).len() as int,
        d,
        m + n,
        0,
    );
    let joined = levels_of(a, d, level) + levels_of(b, d, level);
    let whole = levels_of(a + b, d, level);
    assert forall|k: int| 0 <= k < m + n implies joined[k] == whole[k] by {
        if k < m {
            assert(0 <= k * d && k * d + d <= m * d) by (nonlinear_arith)
                requires
                    0 <= k < m,
                    d >= 1,
            ;
            assert((a + b).subrange(k * d, k * d + d) =~= a.subrange(k * d, k * d + d));
        } else {
            let j = k - m;
            assert(0 <= j * d && j * d + d <= n * d && k * d == m * d + j * d) by (nonlinear_arith)
                requires
                    0 <= j < n,
                    k == m + j,
                    d >= 1,
            ;
            assert((a + b).subrange(k * d, k * d + d) =~= b.subrange(j * d, j * d + d));
        }
    }
    assert(joined =~= whole);
}

/// How the caller chunks the reference makes no difference to the engine: feeding `a`
/// and then `b` hands out, end to end, the blocks that feeding `a + b` at once hands
/// out, and, whatever a block's level is, leaves an engine in the same state, its
/// working copy of the last chunk aside.
#[verifier::rlimit(60)]
pub proof fn lemma_feeding_in_chunks_is_feeding_at_once(
    start: Aec,
    fed_a: Aec,
    banked_a: Aec,
    fed_b: Aec,
    banked_b: Aec,
    fed: Aec,
    banked: Aec,
    a: Seq<Sample>,
    b: Seq<Sample>,
    handed_a: Seq<Sample>,
    handed_b: Seq<Sample>,
    handed: Seq<Sample>,
    d: int,
    level: spec_fn(Seq<Sample>) -> Sample,
)
    requires
        start.wf(),
        start.reference_banked(),
        banked_a.wf(),
        start.acquirer matches Some(acquirer) ==> d == acquirer.coarse.decimation,
        fed_a.fed_from(start, a, handed_a),
        banked_a.banked_from(fed_a, levels_of(handed_a, d, level)),
        fed_b.fed_from(banked_a, b, handed_b),
        banked_b.banked_from(fed_b, levels_of(handed_b, d, level)),
        fed.fed_from(start, a + b, handed),
        banked.banked_from(fed, levels_of(handed, d, level)),
    ensures
        handed == handed_a + handed_b,
        (Aec { reference_scratch: banked.reference_scratch, ..banked_b }).alike(banked),
{
    let clean_a = crate::sample::sanitized_seq(a);
    let clean_b = crate::sample::sanitized_seq(b);
    let clean = crate::sample::sanitized_seq(a + b);
    assert(clean =~= clean_a + clean_b);
    assert forall|abs: int| #[trigger] banked_b.ring.at(abs) == banked.ring.at(abs) by {
        crate::ring::lemma_chunking_a_push_changes_nothing(
            start.ring,
            banked_a.ring,
            clean_a,
            clean_b,
            abs,
        );
        assert(fed_b.ring.at(abs) == banked_a.ring.at_after_push(clean_b, abs));
        assert(fed.ring.at(abs) == start.ring.at_after_push(clean, abs));
    }
    if start.acquirer is Some {
        let first = start.acquirer->0.coarse;
        let stream_a = first.far_block@ + clean_a;
        let stream_b = crate::coarse::leftover(stream_a, d) + clean_b;
        assert(first.far_block@ + clean =~= stream_a + clean_b);
        crate::coarse::lemma_cutting_ignores_chunk_boundaries(stream_a, clean_b, d);
        let m = stream_a.len() as int / d;
        let n = stream_b.len() as int / d;
        lemma_whole_blocks_hold_whole_blocks(stream_a, d);
        lemma_whole_blocks_hold_whole_blocks(stream_b, d);
        lemma_levels_are_per_block(handed_a, handed_b, d, m, n, level);
        let levels_a = levels_of(handed_a, d, level);
        let levels_b = levels_of(handed_b, d, level);
        let middle = banked_a.acquirer->0.coarse;
        assert forall|abs: int| #[trigger]
            banked_b.acquirer->0.coarse.far_env.at(abs) == banked.acquirer->0.coarse.far_env.at(
                abs,
            ) by {
            crate::ring::lemma_chunking_a_push_changes_nothing(
                first.far_env,
                middle.far_env,
                levels_a,
                levels_b,
                abs,
            );
        }
    } else {
        assert(handed =~= handed_a + handed_b);
    }
}

/// The whole blocks of a stream are that many blocks long.
proof fn lemma_whole_blocks_hold_whole_blocks(stream: Seq<Sample>, d: int)
    requires
        d >= 1,
    ensures
        0 <= stream.len() as int / d,
        crate::coarse::whole_blocks(stream, d).len() == (stream.len() as int / d) * d,
{
    let q = stream.len() as int / d;
    vstd::arithmetic::div_mod::lemma_fundamental_div_mod(stream.len() as int, d);
    assert(0 <= q && 0 <= q * d <= stream.len()) by (nonlinear_arith)
        requires
            stream.len() == d * q + stream.len() as int % d,
            0 <= stream.len() as int % d < d,
            d >= 1,
    ;
}

} // verus!
