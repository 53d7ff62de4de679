//! The engine: the reference transport, the absolute sample-count alignment
//! between the near and far streams, the capture-continuity bookkeeping, the
//! acquisition drive, and the output transition.
//!
//! One near-end block is processed in steps. [`Aec::open_block`] applies a
//! pending declaration, infers a lost capture span, anchors the block and
//! sanitizes it. [`Aec::step`] then advances the delay acquisition one sample at
//! a time and says what it needs measured; each answer says what happens to the
//! canceller. [`Aec::align_block`] pulls the aligned far-end block, the host runs
//! the canceller over the pair, and [`Aec::release`] delivers what it emitted.

use vstd::prelude::*;

use crate::acquire::{AcquireAction, DelayAcquirer, ObserveOutcome, DELAY_LIMIT, NEAR_LIMIT};
use crate::canceller::CancellerMetrics;
use crate::coarse::CoarseScore;
use crate::config::{AecConfig, OutputTransitionPolicy};
use crate::delay::{
    DelayEstimate, DelayLockSource, DelayStatus, FineScan, FrameUse, WindowSupport,
};
use crate::error::AecError;
use crate::lead::LeadModel;
use crate::ring::ReferenceRing;
use crate::sample::{sanitize_into, Measure, Sample, SAMPLE_ONE};
use crate::timing::{fade_ms_to_samples, ms_to_samples};

verus! {

/// Reference ring slack beyond the modelled delay-plus-tail span, in seconds.
pub const RING_SLACK_SECONDS: u64 = 4;

/// How close a re-promoted lock must sit to the standing offset for the engine
/// to keep the canceller's learned state instead of resetting it, in
/// milliseconds.
pub const RELOCK_KEEP_MS: u16 = 8;

/// What happened to the capture (near-end) stream between two blocks, as the
/// HOST observed it.
///
/// Declared through [`Aec::declare_capture_continuity`]. The host is the honest
/// source of this fact: its audio callback is told directly that capture was
/// interrupted, while the engine downstream sees only a near stream that arrives
/// with a hole already in it.
///
/// A capture loss shifts the echo to a lag no causal filter can reach at any
/// tail length, so the fix belongs to the alignment, and a declared loss
/// re-anchors regardless of tail.
#[derive(Debug, Clone, Copy, PartialEq, Eq)]
#[non_exhaustive]
pub enum CaptureContinuity {
    /// The near stream continues the one the previous block ended: nothing was
    /// lost. The resting state, and declaring it is a no-op, so a host holding a
    /// per-callback platform flag can declare unconditionally rather than
    /// branching.
    Continuous,
    /// The near stream lost samples, or was restarted, since the previous block.
    /// The next block re-anchors.
    Discontinuity {
        /// How many near-end samples were lost, when the host knows.
        ///
        /// INFORMATIONAL. Reported through
        /// [`AecMetrics::capture_samples_lost`] and used for nothing else: the
        /// re-anchor rebuilds the alignment from the reference frontier, which
        /// needs no count.
        lost_samples: Option<u64>,
    },
}

/// What becomes of the canceller's learned state after an alignment decision.
#[derive(Debug, Clone, Copy, PartialEq, Eq, Structural)]
pub enum CancellerAction {
    /// The learned state stands.
    Keep,
    /// The alignment the coefficients were learned against has changed: the
    /// canceller is reset to re-converge from the corrected one. Near samples it
    /// still carries have been captured and are owed to the output, so its carry
    /// is flushed and delivered with [`Aec::release`] first.
    Reset,
}

/// What [`Aec::step`] did, or needs the host to measure before it can go on.
#[derive(Debug, Clone, Copy, PartialEq, Eq, Structural)]
pub enum AecEvent {
    /// One near sample was handed to the acquisition.
    Advanced,
    /// A coarse frame is complete: score it and answer with
    /// [`Aec::answer_coarse`].
    CoarseFrame,
    /// A fine frame is complete and its far window is assembled: measure it and
    /// answer with [`Aec::answer_fine`].
    FineFrame,
    /// The frame just relocated away from must be measured against the window at
    /// the new origin, which is assembled: answer with [`Aec::answer_rescan`].
    Rescan,
    /// The whole block has been handed over; pull its far-end counterpart with
    /// [`Aec::align_block`].
    Aligned,
}

/// The per-sample output-transition gain ramp behind
/// [`OutputTransitionPolicy::GradedReacquisition`].
///
/// It turns the engine's own published delay status into a per-sample blend gain
/// in `[0.0, 1.0]`: one emits the canceller correction, zero emits the untouched
/// near-end capture, and the blend between them is linear. Because it always
/// moves from the CURRENT gain, a status change mid-ramp reverses smoothly rather
/// than stepping the signal. The clamp pins the endpoints exactly, which is
/// load-bearing: a sample emitted at a gain of exactly one is left bit-for-bit
/// as the canceller wrote it.
pub struct GradedGate {
    /// The length of the fade toward the untouched capture, in samples.
    pub fade_out_samples: u64,
    /// The length of the fade back to full correction, in samples.
    pub fade_in_samples: u64,
    /// The current blend gain. Starts at full correction and is restored to it
    /// by a reset.
    pub gain: Sample,
    /// Near-end samples handed to the canceller but not yet emitted, oldest at
    /// the front: the engine's mirror of the canceller's internal block carry.
    pub pending_near: Vec<Sample>,
    /// The blend gain computed for each pending near sample, in the same order.
    /// Computed when the sample is fed, so the gain a sample blends at is the
    /// gain in force when it was captured, not when its block happens to
    /// complete.
    pub pending_gain: Vec<Sample>,
}

/// Whether a gain lies in `[0.0, 1.0]`.
pub open spec fn gain_in_range(gain: Sample) -> bool {
    gain.bits <= SAMPLE_ONE
}

/// The gain one sample later, given where the ramp's own arithmetic moved it:
/// pinned to the target end of the range when the arithmetic reached or overshot
/// it, and never moved away from the target.
pub open spec fn ramped(gain: Sample, reacquiring: bool, moved: Sample) -> Sample {
    let zero = Sample { bits: 0 };
    let one = Sample { bits: SAMPLE_ONE };
    if reacquiring {
        if !zero.below(moved) {
            zero
        } else if moved.below(gain) {
            moved
        } else {
            gain
        }
    } else {
        if !moved.below(one) {
            one
        } else if gain.below(moved) {
            moved
        } else {
            gain
        }
    }
}

impl GradedGate {
    /// The two mirrors run in step and every gain lies in its range.
    pub open spec fn wf(self) -> bool {
        &&& self.fade_out_samples >= 1
        &&& self.fade_in_samples >= 1
        &&& gain_in_range(self.gain)
        &&& self.pending_near@.len() == self.pending_gain@.len()
        &&& forall|i: int|
            0 <= i < self.pending_gain@.len() ==> gain_in_range(#[trigger] self.pending_gain@[i])
    }

    /// Builds a gate for two fade lengths in samples. A zero-length fade (a
    /// fade duration below one sample at the rate) collapses to a one-sample
    /// step, which is the hardest cut the linear ramp can express.
    pub fn new(fade_out_samples: u64, fade_in_samples: u64) -> (r: GradedGate)
        ensures
            r.wf(),
            r.fade_out_samples == (if fade_out_samples < 1 {
                1
            } else {
                fade_out_samples
            }),
            r.fade_in_samples == (if fade_in_samples < 1 {
                1
            } else {
                fade_in_samples
            }),
            r.gain == (Sample { bits: SAMPLE_ONE }),
            r.pending_near@ == Seq::<Sample>::empty(),
            r.pending_gain@ == Seq::<Sample>::empty(),
    {
        GradedGate {
            fade_out_samples: if fade_out_samples < 1 {
                1
            } else {
                fade_out_samples
            },
            fade_in_samples: if fade_in_samples < 1 {
                1
            } else {
                fade_in_samples
            },
            gain: Sample::unity(),
            pending_near: Vec::new(),
            pending_gain: Vec::new(),
        }
    }

    /// Advances the ramp one sample toward the target the status implies and
    /// returns the new gain. A reacquisition targets the untouched capture;
    /// every other status, initial acquisition included, targets full
    /// correction. `moved` is the current gain stepped one ramp increment toward
    /// that target; the result is always in range and never further from the
    /// target than the current gain, and the endpoints are pinned exactly.
    pub fn step(&mut self, reacquiring: bool, moved: Sample) -> (r: Sample)
        requires
            old(self).wf(),
        ensures
            final(self).wf(),
            r == ramped(old(self).gain, reacquiring, moved),
            gain_in_range(r),
            reacquiring ==> r.bits <= old(self).gain.bits,
            !reacquiring ==> r.bits >= old(self).gain.bits,
            *final(self) == (GradedGate { gain: r, ..*old(self) }),
    {
        let zero: Sample = Sample::silence();
        let one: Sample = Sample::unity();
        self.gain = if reacquiring {
            if !zero.is_below(moved) {
                zero
            } else if moved.is_below(self.gain) {
                moved
            } else {
                self.gain
            }
        } else if !moved.is_below(one) {
            one
        } else if self.gain.is_below(moved) {
            moved
        } else {
            self.gain
        };
        self.gain
    }

    /// Restores this gate to its just-constructed state: full correction, no
    /// pending samples.
    pub fn reset(&mut self)
        requires
            old(self).wf(),
        ensures
            final(self).wf(),
            final(self).gain == (Sample { bits: SAMPLE_ONE }),
            final(self).pending_near@ == Seq::<Sample>::empty(),
            final(self).pending_gain@ == Seq::<Sample>::empty(),
            final(self).fade_out_samples == old(self).fade_out_samples,
            final(self).fade_in_samples == old(self).fade_in_samples,
    {
        self.gain = Sample::unity();
        self.pending_near.clear();
        self.pending_gain.clear();
    }

    /// What is delivered for the front `emitted.len()` pending samples: the
    /// correction bit-for-bit at a gain of exactly one, the blend otherwise. A
    /// sample with no pending counterpart is delivered as it was emitted.
    pub open spec fn delivered(
        self,
        emitted: Seq<Sample>,
        blended: Seq<Sample>,
    ) -> Seq<Sample> {
        Seq::new(
            emitted.len(),
            |i: int|
                if i < self.pending_gain@.len() && self.pending_gain@[i] != (Sample {
                    bits: SAMPLE_ONE,
                }) {
                    blended[i]
                } else {
                    emitted[i]
                },
        )
    }

    /// Delivers what the canceller emitted and retires its pending counterparts.
    /// `blended` holds, per emitted sample, the correction blended toward its
    /// near sample at its gain; it is read only where the gain is not exactly
    /// one.
    pub fn release(&mut self, emitted: &[Sample], blended: &[Sample], out: &mut Vec<Sample>)
        requires
            old(self).wf(),
            blended@.len() == emitted@.len(),
        ensures
            final(self).wf(),
            final(out)@ == old(out)@ + old(self).delivered(emitted@, blended@),
            ({
                let retired = if emitted@.len() <= old(self).pending_near@.len() {
                    emitted@.len() as int
                } else {
                    old(self).pending_near@.len() as int
                };
                &&& final(self).pending_near@ == old(self).pending_near@.skip(retired)
                &&& final(self).pending_gain@ == old(self).pending_gain@.skip(retired)
            }),
            *final(self) == (GradedGate {
                pending_near: final(self).pending_near,
                pending_gain: final(self).pending_gain,
                ..*old(self)
            }),
    {
        let ghost start = out@;
        let ghost all = self.delivered(emitted@, blended@);
        let mut i: usize = 0;
        assert(start + all.take(0) =~= start);
        while i < emitted.len()
            invariant
                i <= emitted@.len(),
                blended@.len() == emitted@.len(),
                self.wf(),
                all == self.delivered(emitted@, blended@),
                out@ == start + all.take(i as int),
            decreases emitted@.len() - i,
        {
            let faded: bool = i < self.pending_gain.len() && self.pending_gain[i].bits
                != SAMPLE_ONE;
            if faded {
                out.push(blended[i]);
            } else {
                out.push(emitted[i]);
            }
            i += 1;
            assert(out@ =~= start + all.take(i as int));
        }
        assert(all.take(i as int) =~= all);
        let retired: usize = if emitted.len() <= self.pending_near.len() {
            emitted.len()
        } else {
            self.pending_near.len()
        };
        let near: Vec<Sample> = self.pending_near.split_off(retired);
        let gain: Vec<Sample> = self.pending_gain.split_off(retired);
        assert(near@ =~= old(self).pending_near@.skip(retired as int));
        assert(gain@ =~= old(self).pending_gain@.skip(retired as int));
        self.pending_near = near;
        self.pending_gain = gain;
    }
}

/// The resolved per-engine output-transition behavior, built once from
/// [`AecConfig::output_transition`] and fixed for the engine's life.
pub enum OutputBlend {
    /// [`OutputTransitionPolicy::PreserveCorrection`]: the canceller output is
    /// delivered unchanged.
    Preserve,
    /// [`OutputTransitionPolicy::GradedReacquisition`]: the correction is faded
    /// toward the untouched capture while a trusted alignment is being
    /// reacquired.
    Graded(GradedGate),
}

impl OutputBlend {
    /// A graded gate is well formed.
    pub open spec fn wf(self) -> bool {
        self matches OutputBlend::Graded(gate) ==> gate.wf()
    }

    /// Whether a blend carries out a policy, with the policy's fade lengths.
    pub open spec fn follows(self, policy: OutputTransitionPolicy, sample_rate: u32) -> bool {
        match policy {
            OutputTransitionPolicy::PreserveCorrection => self is Preserve,
            OutputTransitionPolicy::GradedReacquisition { fade_out_ms, fade_in_ms } => {
                let rate = sample_rate as int;
                self matches OutputBlend::Graded(gate) && gate.fade_out_samples
                    == crate::timing::samples_in_at_least_one(fade_out_ms as int, rate)
                    && gate.fade_in_samples == crate::timing::samples_in_at_least_one(
                    fade_in_ms as int,
                    rate,
                )
            },
        }
    }

    /// Whether a blend stands at full correction with nothing pending.
    pub open spec fn at_full_correction(self) -> bool {
        self matches OutputBlend::Graded(gate) ==> gate.gain == (Sample { bits: SAMPLE_ONE })
            && gate.pending_near@ == Seq::<Sample>::empty() && gate.pending_gain@ == Seq::<
            Sample,
        >::empty()
    }

    /// Whether a blend is the one a policy resolves to, at full correction with
    /// nothing pending.
    pub open spec fn resolves(self, policy: OutputTransitionPolicy, sample_rate: u32) -> bool {
        self.follows(policy, sample_rate) && self.at_full_correction()
    }

    /// Whether `self` is `before` restored to full correction.
    pub open spec fn restored_from(self, before: OutputBlend) -> bool {
        match before {
            OutputBlend::Preserve => self is Preserve,
            OutputBlend::Graded(gate) => self matches OutputBlend::Graded(after)
                && after.pending_near@ == Seq::<Sample>::empty() && after.pending_gain@
                == Seq::<Sample>::empty() && after.gain == (Sample { bits: SAMPLE_ONE })
                && after.fade_out_samples == gate.fade_out_samples && after.fade_in_samples
                == gate.fade_in_samples,
        }
    }
}

/// The ring depth a configuration needs: the maximum echo delay plus the filter
/// tail plus the slack, at the configured rate.
pub open spec fn ring_depth(config: AecConfig) -> int {
    let span: int = ((config.max_echo_delay_ms + config.tail_ms) * config.sample_rate) / 1000;
    let depth: int = span + RING_SLACK_SECONDS * config.sample_rate;
    if depth < 1 {
        1
    } else {
        depth
    }
}

/// Derives the reference ring depth from the configuration: the maximum echo
/// delay plus the filter tail plus [`RING_SLACK_SECONDS`] of slack, at the
/// configured rate.
pub fn derive_ring_capacity(config: &AecConfig) -> (r: usize)
    requires
        ring_depth(*config) <= 0xffff_ffff,
    ensures
        r == ring_depth(*config),
{
    let span_ms: u64 = config.max_echo_delay_ms as u64 + config.tail_ms as u64;
    assert(0 <= span_ms * config.sample_rate <= 0x1_ffff * 0xffff_ffff) by (nonlinear_arith)
        requires
            span_ms <= 0x1_ffff,
            config.sample_rate <= 0xffff_ffff,
    ;
    let span_samples: u64 = (span_ms * config.sample_rate as u64) / 1000;
    let slack_samples: u64 = RING_SLACK_SECONDS * config.sample_rate as u64;
    let depth: u64 = span_samples + slack_samples;
    if depth < 1 {
        1
    } else {
        depth as usize
    }
}

/// What a stretch of absolute indices reads from the ring; an index the ring
/// cannot supply is silent.
pub open spec fn read_span(ring: ReferenceRing, start: int, count: int) -> Seq<Sample> {
    Seq::new(
        count as nat,
        |i: int|
            match ring.at(start + i) {
                Some(sample) => sample,
                None => Sample { bits: 0 },
            },
    )
}

/// The first index of a stretch the ring can supply.
pub open spec fn supplied_from(ring: ReferenceRing, start: int) -> int {
    if start >= ring.oldest() {
        start
    } else {
        ring.oldest()
    }
}

/// One past the last index of a stretch the ring can supply.
pub open spec fn supplied_to(ring: ReferenceRing, start: int, count: int) -> int {
    if start + count <= ring.next_abs {
        start + count
    } else {
        ring.next_abs as int
    }
}

/// How many indices of a stretch the ring can supply.
pub open spec fn supplied(ring: ReferenceRing, start: int, count: int) -> int {
    let from = supplied_from(ring, start);
    let to = supplied_to(ring, start, count);
    if from < to {
        to - from
    } else {
        0
    }
}

/// How many indices of a stretch lie before `edge`.
pub open spec fn lying_before(start: int, count: int, edge: int) -> int {
    if edge <= start {
        0
    } else if edge >= start + count {
        count
    } else {
        edge - start
    }
}

/// Where the silence in a window falls: the indices before the oldest sample the
/// ring retains are missing head, those at or past the reference frontier are
/// missing tail.
pub open spec fn window_support(ring: ReferenceRing, start: int, count: int) -> WindowSupport {
    WindowSupport {
        missing_head: lying_before(start, count, ring.oldest()) as usize,
        missing_tail: (count - lying_before(start, count, ring.next_abs as int)) as usize,
    }
}

/// Assembles the far-end window one fine frame consumes, filling `scratch` with
/// exactly `window_len` samples starting at absolute index `window_start` in the
/// reference ring.
///
/// An index the ring cannot supply is rendered as silence and counted in the
/// returned [`WindowSupport`]: a leading deficit (the window reaching back before
/// the stream start, so `window_start` is negative, or before the oldest sample
/// still retained) is `missing_head`, and a trailing one (reaching past the
/// reference frontier) is `missing_tail`. Where the silence falls is what decides
/// whether the frame is usable, so the two are kept apart.
pub fn assemble_fine_window(
    ring: &ReferenceRing,
    scratch: &mut Vec<Sample>,
    window_start: i64,
    window_len: usize,
) -> (r: WindowSupport)
    requires
        ring.wf(),
        window_len <= 0x7fff_ffff,
        window_start <= 0x7fff_ffff_0000_0000,
    ensures
        final(scratch)@ == read_span(*ring, window_start as int, window_len as int),
        r == window_support(*ring, window_start as int, window_len as int),
        r.missing_head + r.missing_tail + supplied(*ring, window_start as int, window_len as int)
            == window_len,
        window_start >= ring.next_abs ==> r.missing_head == 0 && r.missing_tail == window_len,
{
    scratch.clear();
    let mut missing_head: usize = 0;
    let mut missing_tail: usize = 0;
    let mut offset: usize = 0;
    while offset < window_len
        invariant
            ring.wf(),
            offset <= window_len <= 0x7fff_ffff,
            window_start <= 0x7fff_ffff_0000_0000,
            scratch@ == read_span(*ring, window_start as int, window_len as int).take(
                offset as int,
            ),
            missing_head == lying_before(window_start as int, offset as int, ring.oldest()),
            missing_tail == offset - lying_before(
                window_start as int,
                offset as int,
                ring.next_abs as int,
            ),
            missing_head + missing_tail <= offset,
        decreases window_len - offset,
    {
        let index: i64 = window_start + offset as i64;
        let value: Option<Sample> = if index < 0 {
            None
        } else {
            ring.get(index as u64)
        };
        match value {
            Some(sample) => {
                scratch.push(sample);
            },
            None => {
                if index >= 0 && index as u64 >= ring.next_abs() {
                    missing_tail = missing_tail + 1;
                } else {
                    missing_head = missing_head + 1;
                }
                scratch.push(Sample::silence());
            },
        }
        offset += 1;
    }
    WindowSupport { missing_head, missing_tail }
}

/// A streaming acoustic echo canceller's engine: everything but the arithmetic
/// of the canceller and of the delay measurements, which the host supplies step
/// by step.
///
/// # Alignment
///
/// A caller who supplies [`AecConfig::delay_hint_ms`] is taken at their word: the
/// offset is seeded from the hint and kept. A caller who supplies no hint gets
/// the automatic estimator, which correlates the two streams and locks the offset
/// once it is confident. Until it locks the offset is zero, so the near-end reads
/// sit at the reference frontier and the canceller has little to cancel; when it
/// locks, the engine adopts the offset and has the canceller reset, whose
/// coefficients were learned against the alignment that just changed.
///
/// # Capture continuity
///
/// A host whose capture stream loses samples should say so with
/// [`Aec::declare_capture_continuity`], which re-anchors on the next block. A
/// host that CANNOT say so is not left without a repair: the engine learns the
/// caller's own frontier-lead behaviour, and infers a capture discontinuity from
/// a sudden step outside that learned envelope which persists across more than
/// one block. A declaration always takes precedence and reseeds the learned
/// model, so a host that declares never gets two seams for one event.
pub struct Aec {
    /// The configuration the engine was constructed from.
    pub config: AecConfig,
    /// The far-end reference.
    pub ring: ReferenceRing,
    /// The alignment offset in samples, seeded from the delay hint. The near-end
    /// sample at absolute index `n` reads the far-end sample at absolute index
    /// `anchor + n - delay_offset`.
    pub delay_offset: u64,
    /// Far absolute index that near-end index 0 anchors to, captured on the first
    /// block after each (re-)anchor. `None` until the next block re-establishes
    /// it.
    pub anchor: Option<u64>,
    /// Count of near-end samples processed since the current anchor.
    pub near_processed: u64,
    /// Total near-end samples rendered silent because the aligned far-end sample
    /// was dropped (too old) or not yet fed (in the future), counted only while
    /// an alignment (hint or lock) was active.
    pub reference_starved: u64,
    /// Total near-end samples processed while no alignment was active: the
    /// engine parks the far-end read during acquisition and renders silence by
    /// design, which is a search state, not a transport failure.
    pub acquisition_parked: u64,
    /// [`RELOCK_KEEP_MS`] in samples at the configured rate.
    pub relock_keep: u64,
    /// Times the alignment was re-anchored for a capture discontinuity the
    /// engine INFERRED from the caller's frontier lead, the host having declared
    /// nothing.
    pub reference_reanchors: u64,
    /// The learned frontier-lead behaviour of this caller, and the inference
    /// drawn from a departure from it.
    pub lead: LeadModel,
    /// A host-declared capture discontinuity awaiting the next block, which
    /// consumes it. [`CaptureContinuity::Continuous`] when nothing is pending.
    pub declared_continuity: CaptureContinuity,
    /// Times a pending declaration was consumed and the alignment re-anchored
    /// for it.
    pub capture_discontinuities: u64,
    /// Near-end samples the host reported lost across those discontinuities.
    /// Saturating: telemetry must not panic or wrap on a stream that runs for
    /// weeks.
    pub capture_samples_lost: u64,
    /// Applied declarations since the delay acquisition last reached a decision
    /// of its own.
    pub declarations_without_decision: u64,
    /// The high-water mark of that run.
    pub declarations_without_decision_max: u64,
    /// The automatic coarse-to-fine delay acquisition, present only when the
    /// caller supplied no hint. A supplied hint is a measurement the caller
    /// already made, so the engine does not second-guess it and neither search
    /// stage is constructed at all.
    pub acquirer: Option<DelayAcquirer>,
    /// Whether the active offset is a known alignment (a supplied hint, or a
    /// promoted lock) rather than the unlocked default.
    pub delay_known: bool,
    /// Whether a block is in hand: opened and not yet aligned.
    pub in_block: bool,
    /// Samples of the block in hand already handed to the acquisition.
    pub cursor: usize,
    /// Whether the frame just relocated away from awaits its rescan.
    pub rescan_pending: bool,
    /// Whether the far window of the frame in hand is assembled.
    pub window_ready: bool,
    /// How much fed reference backs that window.
    pub support: WindowSupport,
    /// The far-end window one FINE frame consumes.
    pub estimator_scratch: Vec<Sample>,
    /// The near-end block in hand, sanitized.
    pub near_scratch: Vec<Sample>,
    /// The aligned far-end block.
    pub far_scratch: Vec<Sample>,
    /// The reference samples last fed, sanitized.
    pub reference_scratch: Vec<Sample>,
    /// Samples of the block in hand already given their output gain.
    pub faded: usize,
    /// The resolved output-transition behavior.
    pub output_blend: OutputBlend,
}

/// Two optional loss reports taken together: added when both are known. A hole
/// the host could not size contributes nothing rather than erasing a count that
/// was supplied.
pub open spec fn losses_added(held: Option<u64>, fresh: Option<u64>) -> Option<u64> {
    match (held, fresh) {
        (Some(a), Some(b)) => Some(saturated(a + b)),
        (Some(a), None) => Some(a),
        (None, fresh) => fresh,
    }
}

/// A count that stops at the top of its range.
pub open spec fn saturated(count: int) -> u64 {
    if count > u64::MAX {
        u64::MAX
    } else {
        count as u64
    }
}

/// The declaration that stands after `fresh` is declared over `held`.
pub open spec fn latched(held: CaptureContinuity, fresh: CaptureContinuity) -> CaptureContinuity {
    match fresh {
        CaptureContinuity::Continuous => held,
        CaptureContinuity::Discontinuity { lost_samples } => CaptureContinuity::Discontinuity {
            lost_samples: match held {
                CaptureContinuity::Discontinuity { lost_samples: before } => losses_added(
                    before,
                    lost_samples,
                ),
                CaptureContinuity::Continuous => lost_samples,
            },
        },
    }
}

impl Aec {
    /// The reported alignment: the offset, once one is known.
    pub open spec fn alignment(self) -> Option<usize> {
        if self.delay_known {
            Some(self.delay_offset as usize)
        } else {
            None
        }
    }

    /// Samples of the block in hand that are not yet counted as processed.
    pub open spec fn in_hand(self) -> int {
        if self.in_block {
            self.near_scratch@.len() as int
        } else {
            0
        }
    }

    /// The acquisition describes this engine: it is sized from the configuration,
    /// it holds the same alignment, its far grid is the ring's, its near cursor is
    /// the engine's, and it owes the engine an answer only while a block is in
    /// hand.
    pub open spec fn drives(self, acquirer: DelayAcquirer) -> bool {
        &&& acquirer.wf()
        &&& acquirer.sized(
            self.config.sample_rate,
            self.config.max_echo_delay_ms,
            self.config.max_search_delay_ms,
        )
        &&& acquirer.near_on_grid()
        &&& acquirer.coarse.far_on_grid()
        &&& acquirer.coarse.far_pushed == self.ring.next_abs
        &&& acquirer.locked == self.alignment()
        &&& (acquirer.anchored <==> self.anchor is Some)
        &&& !acquirer.anchored ==> acquirer.coarse.near_block@.len() == 0
            && acquirer.fine.near_frame@.len() == 0
        &&& self.anchor matches Some(anchor) ==> acquirer.next_near_abs == anchor
            + self.near_processed + (if self.in_block {
            self.cursor as int
        } else {
            0
        })
        &&& !self.in_block ==> acquirer.answered()
        &&& self.rescan_pending ==> !(acquirer.state is Locked) && acquirer.fine.near_frame@.len()
            == 0
    }

    /// Everything the engine maintains between any two calls.
    pub open spec fn wf(self) -> bool {
        &&& self.config.valid()
        &&& self.ring.wf()
        &&& self.ring.capacity == ring_depth(self.config)
        &&& self.ring.next_abs <= NEAR_LIMIT
        &&& self.relock_keep == crate::timing::samples_in(
            RELOCK_KEEP_MS as int,
            self.config.sample_rate as int,
        )
        &&& self.delay_offset <= DELAY_LIMIT
        &&& (!self.delay_known ==> self.delay_offset == 0)
        &&& self.anchor matches Some(anchor) ==> anchor + self.near_processed + self.in_hand()
            <= NEAR_LIMIT
        &&& (self.in_block ==> self.anchor is Some)
        &&& self.lead.wf()
        &&& self.lead.in_limits()
        &&& self.declarations_without_decision <= self.declarations_without_decision_max
        &&& self.cursor <= self.near_scratch@.len()
        &&& self.faded <= self.near_scratch@.len()
        &&& crate::sample::sanitized_seq(self.near_scratch@) == self.near_scratch@
        &&& (!self.in_block ==> !self.rescan_pending && !self.window_ready)
        &&& self.acquirer matches Some(acquirer) ==> self.drives(acquirer)
        &&& (self.acquirer is Some <==> self.config.delay_hint_ms is None)
        &&& self.acquirer is None ==> self.delay_known && self.delay_offset
            == Aec::seeded_offset(self.config) && !self.rescan_pending
            && self.declarations_without_decision_max == 0 && (self.in_block ==> self.cursor
            == self.near_scratch@.len())
        &&& self.in_block ==> self.reference_starved + self.near_scratch@.len() <= u64::MAX
            && self.acquisition_parked + self.near_scratch@.len() <= u64::MAX
        &&& self.window_ready ==> self.acquirer is Some && (self.rescan_pending
            || self.acquirer->0.fine.complete())
        &&& self.output_blend.wf()
        &&& self.output_blend.follows(self.config.output_transition, self.config.sample_rate)
    }

    /// The just-constructed state of an engine with this configuration.
    pub open spec fn pristine(self) -> bool {
        &&& self.ring.next_abs == 0
        &&& self.anchor is None
        &&& self.near_processed == 0
        &&& self.reference_starved == 0
        &&& self.acquisition_parked == 0
        &&& self.reference_reanchors == 0
        &&& self.lead == LeadModel::fresh()
        &&& self.declared_continuity == CaptureContinuity::Continuous
        &&& self.capture_discontinuities == 0
        &&& self.capture_samples_lost == 0
        &&& self.declarations_without_decision == 0
        &&& self.declarations_without_decision_max == 0
        &&& self.acquirer matches Some(acquirer) ==> acquirer.pristine() && !self.delay_known
        &&& !self.in_block
        &&& self.cursor == 0
        &&& self.faded == 0
        &&& self.support == (WindowSupport { missing_head: 0, missing_tail: 0 })
        &&& self.near_scratch@ == Seq::<Sample>::empty()
        &&& self.far_scratch@ == Seq::<Sample>::empty()
        &&& self.estimator_scratch@ == Seq::<Sample>::empty()
        &&& self.reference_scratch@ == Seq::<Sample>::empty()
        &&& self.output_blend.at_full_correction()
    }

    /// The offset a configuration seeds: the hint in samples, clamped to the
    /// search window, or zero.
    pub open spec fn seeded_offset(config: AecConfig) -> int {
        match config.clamped_hint() {
            Some(hint) => crate::timing::samples_in(hint as int, config.sample_rate as int),
            None => 0,
        }
    }

    /// Constructs the engine for a validated configuration.
    ///
    /// Validates the configuration, sizes the reference ring, and seeds the
    /// alignment offset from [`AecConfig::delay_hint_ms`]. This is the only
    /// fallible operation: it returns [`AecError`] when a field is out of range.
    /// A delay hint outside the search window is clamped rather than rejected.
    pub fn new(config: AecConfig) -> (r: Result<Aec, AecError>)
        ensures
            r is Ok <==> config.valid(),
            r matches Err(error) ==> error == config.fault(),
            r matches Ok(aec) ==> {
                &&& aec.wf()
                &&& aec.pristine()
                &&& aec.config == config
                &&& aec.delay_offset == Aec::seeded_offset(config)
                &&& aec.delay_known == config.delay_hint_ms is Some
                &&& aec.relock_keep == crate::timing::samples_in(
                    RELOCK_KEEP_MS as int,
                    config.sample_rate as int,
                )
                &&& aec.output_blend.resolves(config.output_transition, config.sample_rate)
                &&& aec.acquirer is Some <==> config.delay_hint_ms is None
                &&& aec.acquirer matches Some(acquirer) ==> acquirer.pristine() && acquirer.sized(
                    config.sample_rate,
                    config.max_echo_delay_ms,
                    config.max_search_delay_ms,
                )
            },
    {
        match config.validate() {
            Err(error) => {
                return Err(error);
            },
            Ok(_) => {},
        }
        proof {
            let rate = config.sample_rate as int;
            lemma_scaled(config.max_echo_delay_ms as int, 1000, rate);
            lemma_scaled(config.max_search_delay_ms as int, 2000, rate);
            lemma_scaled(config.max_echo_delay_ms + config.tail_ms, 1500, rate);
        }
        let delay_known: bool = config.delay_hint_ms.is_some();
        let acquirer: Option<DelayAcquirer> = match config.delay_hint_ms {
            Some(_) => None,
            None => Some(
                DelayAcquirer::new(
                    config.sample_rate,
                    config.max_echo_delay_ms,
                    config.max_search_delay_ms,
                ),
            ),
        };
        let delay_offset: u64 = match config.hint_in_window() {
            Some(hint) => {
                proof {
                    lemma_scaled(hint as int, 1000, config.sample_rate as int);
                }
                ms_to_samples(hint, config.sample_rate)
            },
            None => 0,
        };
        let ring: ReferenceRing = ReferenceRing::new(derive_ring_capacity(&config));
        let output_blend: OutputBlend = match config.output_transition {
            OutputTransitionPolicy::PreserveCorrection => OutputBlend::Preserve,
            OutputTransitionPolicy::GradedReacquisition { fade_out_ms, fade_in_ms } =>
                OutputBlend::Graded(
                    GradedGate::new(
                        fade_ms_to_samples(fade_out_ms, config.sample_rate),
                        fade_ms_to_samples(fade_in_ms, config.sample_rate),
                    ),
                ),
        };
        let relock_keep: u64 = ms_to_samples(RELOCK_KEEP_MS, config.sample_rate);
        proof {
            crate::sample::lemma_sanitizing_is_idempotent(Seq::empty());
        }
        Ok(
            Aec {
                config,
                ring,
                delay_offset,
                anchor: None,
                near_processed: 0,
                reference_starved: 0,
                acquisition_parked: 0,
                relock_keep,
                reference_reanchors: 0,
                lead: LeadModel::new(),
                declared_continuity: CaptureContinuity::Continuous,
                capture_discontinuities: 0,
                capture_samples_lost: 0,
                declarations_without_decision: 0,
                declarations_without_decision_max: 0,
                acquirer,
                delay_known,
                in_block: false,
                cursor: 0,
                rescan_pending: false,
                window_ready: false,
                support: WindowSupport { missing_head: 0, missing_tail: 0 },
                estimator_scratch: Vec::new(),
                near_scratch: Vec::new(),
                far_scratch: Vec::new(),
                reference_scratch: Vec::new(),
                faded: 0,
                output_blend,
            },
        )
    }

    /// Whether `self` is what feeding `reference` leaves of `before`, and `handed`
    /// the native samples it hands out: the ring takes the sanitized samples, and
    /// the acquisition cuts the same samples into envelope blocks.
    pub open spec fn fed_from(
        self,
        before: Aec,
        reference: Seq<Sample>,
        handed: Seq<Sample>,
    ) -> bool {
        let clean = crate::sample::sanitized_seq(reference);
        &&& self.reference_scratch@ == clean
        &&& self.ring.capacity == before.ring.capacity
        &&& self.ring.next_abs == before.ring.next_abs + reference.len()
        &&& forall|abs: int| #[trigger]
            self.ring.at(abs) == before.ring.at_after_push(clean, abs)
        &&& before.acquirer is None ==> handed == Seq::<Sample>::empty() && self.acquirer is None
        &&& before.acquirer matches Some(start) ==> (self.acquirer matches Some(after) && ({
            let stream = start.coarse.far_block@ + clean;
            let d = start.coarse.decimation as int;
            &&& handed == crate::coarse::whole_blocks(stream, d)
            &&& after.coarse.far_block@ == crate::coarse::leftover(stream, d)
            &&& after.coarse.unbanked == stream.len() as int / d
            &&& after.coarse.far_pushed == start.coarse.far_pushed + reference.len()
            &&& after == (DelayAcquirer {
                coarse: crate::coarse::CoarseScan {
                    far_block: after.coarse.far_block,
                    unbanked: after.coarse.unbanked,
                    far_pushed: after.coarse.far_pushed,
                    ..start.coarse
                },
                ..start
            })
        }))
        &&& self == (Aec {
            reference_scratch: self.reference_scratch,
            ring: self.ring,
            acquirer: self.acquirer,
            ..before
        })
    }

    /// Appends far-end reference samples: mono, at the configured rate, in played
    /// order, including any renderer-inserted silence. Hands out the native
    /// samples of the envelope blocks they completed, which the host answers with
    /// [`bank_reference_levels`](Aec::bank_reference_levels); none on the hinted
    /// path.
    ///
    /// Never blocks and never fails. Non-finite samples are sanitized to silence
    /// before entering the ring, so the ring holds only finite values. When the
    /// ring is full the oldest samples are overwritten and counted (see
    /// [`AecMetrics::reference_dropped`]); that is what a sliding window of finite
    /// depth does on every push, not a failure, and it does not disturb the
    /// alignment.
    ///
    /// Both streams are plain samples with no rate attached, so a reference at a
    /// rate other than [`AecConfig::sample_rate`] cannot be detected: it is
    /// accepted, and nothing is cancelled.
    pub fn feed_reference(&mut self, reference: &[Sample]) -> (r: Vec<Sample>)
        requires
            old(self).wf(),
            old(self).reference_banked(),
            old(self).ring.next_abs + reference@.len() <= NEAR_LIMIT,
        ensures
            final(self).wf(),
            final(self).fed_from(*old(self), reference@, r@),
    {
        sanitize_into(reference, &mut self.reference_scratch);
        self.ring.push(self.reference_scratch.as_slice());
        // The coarse scan keeps its own decimated far history, addressed by the
        // same absolute index the ring uses. Pushed here, immediately after the
        // ring, so the two counters cannot drift apart.
        match &mut self.acquirer {
            Some(acquirer) => acquirer.push_far(self.reference_scratch.as_slice()),
            None => Vec::new(),
        }
    }

    /// Whether every envelope block handed out has been answered.
    pub open spec fn reference_banked(self) -> bool {
        self.acquirer matches Some(acquirer) ==> acquirer.coarse.unbanked == 0
    }

    /// Whether `self` is what banking `levels` leaves of `before`.
    pub open spec fn banked_from(self, before: Aec, levels: Seq<Sample>) -> bool {
        &&& before.acquirer is None ==> self == before
        &&& before.acquirer matches Some(start) ==> (self.acquirer matches Some(after) && ({
            &&& after.coarse.far_env.next_abs == start.coarse.far_env.next_abs + levels.len()
            &&& after.coarse.far_env.capacity == start.coarse.far_env.capacity
            &&& forall|abs: int| #[trigger]
                after.coarse.far_env.at(abs) == start.coarse.far_env.at_after_push(levels, abs)
            &&& after == (DelayAcquirer {
                coarse: crate::coarse::CoarseScan {
                    far_env: after.coarse.far_env,
                    unbanked: 0,
                    ..start.coarse
                },
                ..start
            })
        }))
        &&& self == (Aec { acquirer: self.acquirer, ..before })
    }

    /// Answers [`feed_reference`](Aec::feed_reference) with the mean level of
    /// each block it handed out, in order.
    pub fn bank_reference_levels(&mut self, levels: &[Sample])
        requires
            old(self).wf(),
            old(self).acquirer matches Some(acquirer) ==> levels@.len() == acquirer.coarse.unbanked,
            old(self).acquirer is None ==> levels@.len() == 0,
        ensures
            final(self).wf(),
            final(self).reference_banked(),
            final(self).banked_from(*old(self), levels@),
    {
        match &mut self.acquirer {
            Some(acquirer) => {
                proof {
                    lemma_blocks_fit(*acquirer);
                }
                acquirer.bank_far(levels);
            },
            None => {},
        }
    }

    /// Declares what happened to the capture stream since the previous block.
    ///
    /// [`CaptureContinuity::Continuous`] is a no-op, so a host holding a
    /// per-callback platform flag can declare unconditionally.
    ///
    /// [`CaptureContinuity::Discontinuity`] takes effect on the NEXT block, which
    /// re-anchors the near stream onto the reference frontier exactly as a stream
    /// start does, discards the acquisition evidence that straddles the seam, and
    /// keeps the standing delay only as a PRIOR. The canceller's learned state is
    /// NOT discarded, because the echo path did not change; only the timeline it
    /// is read against did.
    ///
    /// A declared discontinuity is LATCHED until a block consumes it, and a later
    /// `Continuous` declaration in the same gap does not cancel it. Two
    /// declarations before one block describe one seam, so they latch into one
    /// re-anchor and their reported losses add.
    ///
    /// Declare on the EVENT, not on every block. Each applied declaration
    /// discards the partial evidence both delay searches were accumulating.
    pub fn declare_capture_continuity(&mut self, continuity: CaptureContinuity)
        requires
            old(self).wf(),
        ensures
            final(self).wf(),
            *final(self) == (Aec {
                declared_continuity: latched(old(self).declared_continuity, continuity),
                ..*old(self)
            }),
    {
        let fresh: Option<u64> = match continuity {
            CaptureContinuity::Continuous => {
                return;
            },
            CaptureContinuity::Discontinuity { lost_samples } => lost_samples,
        };
        let held: Option<u64> = match self.declared_continuity {
            CaptureContinuity::Continuous => None,
            CaptureContinuity::Discontinuity { lost_samples } => lost_samples,
        };
        let lost_samples: Option<u64> = match (held, fresh) {
            (Some(a), Some(b)) => Some(a.saturating_add(b)),
            (Some(a), None) => Some(a),
            (None, fresh) => fresh,
        };
        self.declared_continuity = CaptureContinuity::Discontinuity { lost_samples };
    }

    /// The frontier LEAD: how far the far-end feed has run ahead of where the
    /// standing alignment says the near stream's next sample sits.
    pub open spec fn frontier_lead(self) -> u64 {
        crate::acquire::less(
            self.ring.next_abs as int,
            (match self.anchor {
                Some(anchor) => anchor as int,
                None => 0,
            }) + self.near_processed,
        ) as u64
    }

    /// Whether the host declared a discontinuity that the next block applies.
    pub open spec fn declared(self) -> bool {
        self.declared_continuity is Discontinuity
    }

    /// Whether the next block, of `count` samples, infers a discontinuity the
    /// host did not declare: the learned model says so, or the lead has passed
    /// the ring's retained depth, past which the standing alignment cannot be
    /// served by any sample the engine still holds.
    pub open spec fn infers_loss(self, count: u64) -> bool {
        !self.declared() && self.anchor is Some && (self.lead.infers(self.frontier_lead(), count)
            || self.frontier_lead() >= self.ring.capacity)
    }

    /// Whether the next block crosses a seam in the near stream.
    pub open spec fn seams(self, count: u64) -> bool {
        self.declared() || self.infers_loss(count)
    }

    /// Whether the next block anchors anew onto the reference frontier.
    pub open spec fn anchors_anew(self, count: u64) -> bool {
        self.seams(count) || self.anchor is None
    }

    /// The far-absolute index the next block's first sample carries.
    pub open spec fn block_base(self, count: u64) -> u64 {
        if self.anchors_anew(count) {
            self.ring.next_abs
        } else {
            (self.anchor->0 + self.near_processed) as u64
        }
    }

    /// What opening a block does to the acquisition: a seam discards the
    /// evidence that straddles it, and the cursor moves to the block's base.
    pub open spec fn acquisition_opened(
        self,
        before: DelayAcquirer,
        after: DelayAcquirer,
        count: u64,
    ) -> bool {
        if self.seams(count) {
            exists|middle: DelayAcquirer| #[trigger]
                middle.seamed_from(before) && after == (DelayAcquirer {
                    next_near_abs: self.block_base(count),
                    anchored: true,
                    ..middle
                })
        } else {
            after == (DelayAcquirer {
                next_near_abs: self.block_base(count),
                anchored: true,
                ..before
            })
        }
    }

    /// The run of declarations applied with no alignment standing, as the next
    /// block leaves it. A standing alignment resets it.
    pub open spec fn declaration_run(self) -> u64 {
        if !self.declared() {
            self.declarations_without_decision
        } else if self.delay_known {
            0
        } else {
            saturated(self.declarations_without_decision + 1)
        }
    }

    /// Whether `self` is what opening a block of `near` leaves of `before`.
    pub open spec fn opened_from(self, before: Aec, near: Seq<Sample>) -> bool {
        let count = near.len() as u64;
        &&& self.near_scratch@ == crate::sample::sanitized_seq(near)
        &&& self.acquirer is Some == before.acquirer is Some
        &&& self.acquirer matches Some(after) ==> before.acquisition_opened(
            before.acquirer->0,
            after,
            count,
        )
        &&& self == (Aec {
            near_scratch: self.near_scratch,
            acquirer: self.acquirer,
            declared_continuity: CaptureContinuity::Continuous,
            capture_discontinuities: if before.declared() {
                saturated(before.capture_discontinuities + 1)
            } else {
                before.capture_discontinuities
            },
            capture_samples_lost: match before.declared_continuity {
                CaptureContinuity::Discontinuity { lost_samples: Some(lost) } => saturated(
                    before.capture_samples_lost + lost,
                ),
                _ => before.capture_samples_lost,
            },
            declarations_without_decision: before.declaration_run(),
            declarations_without_decision_max: if before.declaration_run()
                > before.declarations_without_decision_max {
                before.declaration_run()
            } else {
                before.declarations_without_decision_max
            },
            reference_reanchors: if before.infers_loss(count) {
                saturated(before.reference_reanchors + 1)
            } else {
                before.reference_reanchors
            },
            lead: if before.seams(count) {
                LeadModel::fresh()
            } else if before.anchor is Some {
                before.lead.observed(before.frontier_lead(), count)
            } else {
                before.lead
            },
            anchor: if before.anchors_anew(count) {
                Some(before.ring.next_abs)
            } else {
                before.anchor
            },
            near_processed: if before.anchors_anew(count) {
                0
            } else {
                before.near_processed
            },
            in_block: true,
            cursor: if before.acquirer is None {
                near.len() as usize
            } else {
                0
            },
            faded: 0,
            ..before
        })
    }

    /// Whether the sample counters have room for a block of `count` samples.
    pub open spec fn room_for(self, count: int) -> bool {
        &&& count <= NEAR_LIMIT
        &&& self.ring.next_abs + count <= NEAR_LIMIT
        &&& self.anchor matches Some(anchor) ==> anchor + self.near_processed + count <= NEAR_LIMIT
        &&& self.reference_starved + count <= u64::MAX
        &&& self.acquisition_parked + count <= u64::MAX
    }

    /// Whether the sample counters have room for a block of `count` samples.
    pub fn has_room_for(&self, count: usize) -> (r: bool)
        requires
            self.wf(),
        ensures
            r == self.room_for(count as int),
    {
        let n: u64 = count as u64;
        let anchored: bool = match self.anchor {
            Some(anchor) => anchor + self.near_processed <= NEAR_LIMIT && n <= NEAR_LIMIT - (anchor
                + self.near_processed),
            None => true,
        };
        n <= NEAR_LIMIT && n <= NEAR_LIMIT - self.ring.next_abs() && anchored && n <= u64::MAX
            - self.reference_starved && n <= u64::MAX - self.acquisition_parked
    }

    /// Whether the absolute index has room for `count` more reference samples.
    pub fn has_room_to_feed(&self, count: usize) -> (r: bool)
        requires
            self.wf(),
        ensures
            r == (self.ring.next_abs + count <= NEAR_LIMIT),
    {
        count as u64 <= NEAR_LIMIT - self.ring.next_abs()
    }

    /// Opens one near-end capture block.
    ///
    /// A capture discontinuity the HOST declared is consumed here and applied
    /// before anything else. It supersedes the frontier-lag inference and does
    /// not consult it: the host observed the hole directly, so there is nothing
    /// left to infer. Either seam discards the straddling evidence in both search
    /// stages, keeps the standing delay as a prior, and reseeds the learned lead.
    /// The block is then anchored, sanitized, and its base announced to the
    /// acquisition.
    pub fn open_block(&mut self, near: &[Sample])
        requires
            old(self).wf(),
            !old(self).in_block,
            old(self).room_for(near@.len() as int),
        ensures
            final(self).wf(),
            final(self).opened_from(*old(self), near@),
    {
        let ghost before = *self;
        let count: u64 = near.len() as u64;
        let ghost mut seamed: Option<DelayAcquirer> = None;

        let declared: CaptureContinuity = self.declared_continuity;
        self.declared_continuity = CaptureContinuity::Continuous;
        if let CaptureContinuity::Discontinuity { lost_samples } = declared {
            self.capture_discontinuities = self.capture_discontinuities.saturating_add(1);
            // Saturating: a count the host supplies is unvalidated telemetry.
            let lost: u64 = match lost_samples {
                Some(lost) => lost,
                None => 0,
            };
            self.capture_samples_lost = self.capture_samples_lost.saturating_add(lost);
            // A standing alignment IS the decision this run counts the absence
            // of, so a host declaring real seams against a healthy lock never
            // accumulates one.
            self.declarations_without_decision = if self.delay_known {
                0
            } else {
                self.declarations_without_decision.saturating_add(1)
            };
            if self.declarations_without_decision > self.declarations_without_decision_max {
                self.declarations_without_decision_max = self.declarations_without_decision;
            }
            // Rebuild the alignment from the reference frontier below, exactly
            // as a stream start does. The standing offset survives as a prior.
            self.anchor = None;
            // The acquisition is told rather than left to infer the seam from a
            // jump in the block base, because a discontinuity declared while the
            // near stream sits exactly AT the frontier moves that base by
            // nothing at all, and its partial evidence straddles the seam just
            // the same.
            if let Some(acquirer) = &mut self.acquirer {
                acquirer.declare_discontinuity();
            }
            // A declaration is the ground truth the inference exists to
            // approximate, so it RESEEDS the learned model rather than being
            // measured by it.
            self.lead.reseed();
        }
        if let Some(anchor) = self.anchor {
            let lead: u64 = self.ring.next_abs().saturating_sub(anchor + self.near_processed);
            let inferred: bool = self.lead.observe(lead, count);
            // The one case that does not wait on the learned model: past the
            // ring's retained depth every read starves.
            let unservable: bool = lead >= self.ring.capacity() as u64;
            if inferred || unservable {
                self.reference_reanchors = self.reference_reanchors.saturating_add(1);
                self.anchor = None;
                // The same seam a declaration produces, because it is the same
                // physical event and differs only in who noticed it.
                if let Some(acquirer) = &mut self.acquirer {
                    acquirer.declare_discontinuity();
                }
                self.lead.reseed();
            }
        }
        proof {
            if before.seams(count) {
                seamed = self.acquirer;
            }
        }
        let anchor: u64 = match self.anchor {
            Some(anchor) => anchor,
            None => {
                let anchor: u64 = self.ring.next_abs();
                self.anchor = Some(anchor);
                self.near_processed = 0;
                anchor
            },
        };
        // Sanitize the near-end block before the canceller sees it: a non-finite
        // sample reaching an adaptive update would poison the learned state
        // permanently.
        sanitize_into(near, &mut self.near_scratch);
        self.in_block = true;
        self.faded = 0;
        self.cursor = if self.acquirer.is_some() {
            0
        } else {
            self.near_scratch.len()
        };
        let base: u64 = anchor + self.near_processed;
        assert(base == before.block_base(count));
        if let Some(acquirer) = &mut self.acquirer {
            // The far-absolute index the next near sample carries. Both stages
            // cut their framing on this absolute grid.
            acquirer.begin_block(base);
        }
        proof {
            crate::sample::lemma_sanitizing_is_idempotent(near@);
            if self.acquirer is Some {
                let after = self.acquirer->0;
                let start = before.acquirer->0;
                if before.seams(count) {
                    let once = seamed->0;
                    assert(once.seamed_from(start));
                    if once.anchored && base != once.next_near_abs {
                        let twice = choose|m: DelayAcquirer| #[trigger]
                            m.seamed_from(once) && after == (DelayAcquirer {
                                next_near_abs: base,
                                anchored: true,
                                ..m
                            });
                        crate::acquire::lemma_a_second_seam_changes_nothing(start, once, twice);
                        assert(twice.seamed_from(start));
                    }
                }
                assert(before.acquisition_opened(start, after, count));
            }
        }
    }

    /// Where the far window of the fine frame in hand starts.
    pub open spec fn window_start(self) -> int {
        let acquirer = self.acquirer->0;
        acquirer.next_near_abs - acquirer.fine.frame_len - (acquirer.fine.search_origin
            + acquirer.fine.max_delay)
    }

    /// Whether `self` is `before` with the far window of its frame assembled.
    pub open spec fn assembled_from(self, before: Aec) -> bool {
        let count = before.acquirer->0.fine.fft_len as int;
        &&& self.estimator_scratch@ == read_span(before.ring, before.window_start(), count)
        &&& self.support == window_support(before.ring, before.window_start(), count)
        &&& self == (Aec {
            estimator_scratch: self.estimator_scratch,
            support: self.support,
            window_ready: true,
            ..before
        })
    }

    /// What the next step does: what is owed an answer first, then the next
    /// sample, then the alignment.
    pub open spec fn next_event(self) -> AecEvent {
        match self.acquirer {
            None => AecEvent::Aligned,
            Some(acquirer) => if acquirer.coarse.complete() {
                AecEvent::CoarseFrame
            } else if self.rescan_pending {
                AecEvent::Rescan
            } else if acquirer.fine.complete() {
                AecEvent::FineFrame
            } else if self.cursor < self.near_scratch@.len() {
                AecEvent::Advanced
            } else {
                AecEvent::Aligned
            },
        }
    }

    /// Whether `after` is what handing `sample` over leaves of the acquisition:
    /// the cursor advances by one, the coarse near chain takes the sample unless
    /// a lock, a finished scan or the wait for a block boundary drops it, and the
    /// fine chain takes it unless a settled lock idles.
    pub open spec fn acquisition_advanced(
        before: DelayAcquirer,
        after: DelayAcquirer,
        sample: Sample,
    ) -> bool {
        let starts = before.coarse.near_block@.len() == 0;
        let dropped = before.state is Locked || before.coarse.is_finished() || (starts
            && before.next_near_abs as int % before.coarse.decimation as int != 0);
        &&& after == (DelayAcquirer {
            coarse: after.coarse,
            fine: after.fine,
            idle_samples: after.idle_samples,
            next_near_abs: (before.next_near_abs + 1) as u64,
            ..before
        })
        &&& if dropped {
            after.coarse == before.coarse
        } else {
            &&& after.coarse.near_block@ == before.coarse.near_block@.push(sample)
            &&& after.coarse == (crate::coarse::CoarseScan {
                near_block: after.coarse.near_block,
                near_frame_start_abs: if starts {
                    (before.next_near_abs as int / before.coarse.decimation as int) as u64
                } else {
                    before.coarse.near_frame_start_abs
                },
                ..before.coarse
            })
        }
        &&& if before.idle_samples > 0 {
            after.fine == before.fine && after.idle_samples == before.idle_samples - 1
        } else {
            &&& after.idle_samples == 0
            &&& after.fine.near_frame@ == before.fine.near_frame@.push(sample)
            &&& after.fine == (crate::delay::DelayEstimator {
                near_frame: after.fine.near_frame,
                ..before.fine
            })
        }
    }

    /// Whether `self` is what one step leaves of `before`: a sample handed over, or
    /// the window of a completed frame assembled, or nothing.
    pub open spec fn stepped_from(self, before: Aec) -> bool {
        match before.next_event() {
            AecEvent::CoarseFrame => self == before,
            AecEvent::Aligned => self == before,
            AecEvent::FineFrame => self.assembled_from(before),
            AecEvent::Rescan => self.assembled_from(before),
            AecEvent::Advanced => {
                &&& self.acquirer is Some
                &&& Aec::acquisition_advanced(
                    before.acquirer->0,
                    self.acquirer->0,
                    before.near_scratch@[before.cursor as int],
                )
                &&& self == (Aec {
                    acquirer: self.acquirer,
                    cursor: (before.cursor + 1) as usize,
                    ..before
                })
            },
        }
    }

    /// Advances the block in hand by one step and says what it did, or what the
    /// host must measure before it can go on.
    ///
    /// Frames are cut on the near-end sample count, so where the caller's chunk
    /// boundaries fall never changes when a frame completes or what it contains.
    /// A coarse frame is answered before a fine one that completed on the same
    /// sample.
    pub fn step(&mut self) -> (r: AecEvent)
        requires
            old(self).wf(),
            old(self).in_block,
        ensures
            final(self).wf(),
            r == old(self).next_event(),
            final(self).stepped_from(*old(self)),
    {
        match &mut self.acquirer {
            None => AecEvent::Aligned,
            Some(acquirer) => {
                if acquirer.coarse.frame_ready() {
                    return AecEvent::CoarseFrame;
                }
                let fine_ready: bool = acquirer.fine.near_frame.len() == acquirer.fine.frame_len;
                if self.rescan_pending || fine_ready {
                    // The acquirer owns the search origin, so it reports where
                    // its far window starts; reference the window asks for that
                    // was never fed is rendered as silence, and where that
                    // silence falls decides whether the frame is usable.
                    let start: i64 = acquirer.fine_window_start_abs();
                    let count: usize = acquirer.fine_window_len();
                    self.support = assemble_fine_window(
                        &self.ring,
                        &mut self.estimator_scratch,
                        start,
                        count,
                    );
                    self.window_ready = true;
                    if self.rescan_pending {
                        return AecEvent::Rescan;
                    }
                    return AecEvent::FineFrame;
                }
                if self.cursor < self.near_scratch.len() {
                    let sample: Sample = self.near_scratch[self.cursor];
                    acquirer.push_near(sample);
                    self.cursor = self.cursor + 1;
                    return AecEvent::Advanced;
                }
                AecEvent::Aligned
            },
        }
    }

    /// Whether `self` is what a coarse score leaves of `before`.
    pub open spec fn scored_from(self, before: Aec, score: CoarseScore) -> bool {
        &&& self.acquirer is Some
        &&& self.acquirer->0.coarse.observed_from(before.acquirer->0.coarse, score)
        &&& self.acquirer->0 == (DelayAcquirer {
            coarse: self.acquirer->0.coarse,
            ..before.acquirer->0
        })
        &&& self == (Aec { acquirer: self.acquirer, ..before })
    }

    /// Answers [`AecEvent::CoarseFrame`] with the frame's score.
    pub fn answer_coarse(&mut self, score: CoarseScore)
        requires
            old(self).wf(),
            old(self).acquirer is Some,
            old(self).acquirer->0.coarse.complete(),
            old(self).acquirer->0.coarse.scores(score.far_level, score.near_energy)
                ==> old(self).acquirer->0.coarse.fits(score),
        ensures
            final(self).wf(),
            final(self).scored_from(*old(self), score),
    {
        if let Some(acquirer) = &mut self.acquirer {
            acquirer.score_coarse(score);
        }
    }

    /// Whether a promotion re-confirms the standing alignment closely enough for
    /// the canceller's learned state to be kept.
    pub open spec fn reconfirms(self, delay: usize) -> bool {
        self.delay_known && (if self.delay_offset >= delay {
            self.delay_offset - delay
        } else {
            delay - self.delay_offset
        }) <= self.relock_keep
    }

    /// Whether `self` is `before` with an alignment action carried out, and `r`
    /// what becomes of the canceller.
    ///
    /// A promotion adopts the offset either way, because every later tracking
    /// cycle is measured against it; only the canceller reset is conditional. The
    /// near samples still pending stay pending: they are delivered when the
    /// canceller's carry is flushed, so a promotion never costs the output a
    /// sample. A tracking move keeps everything. Either is a decision of the
    /// acquisition's own, which ends the run of declarations without one.
    pub open spec fn adopted_from(
        self,
        before: Aec,
        action: Option<AcquireAction>,
        r: CancellerAction,
    ) -> bool {
        match action {
            None => self == before && r == CancellerAction::Keep,
            Some(AcquireAction::Promote(delay)) => {
                &&& r == (if before.reconfirms(delay) {
                    CancellerAction::Keep
                } else {
                    CancellerAction::Reset
                })
                &&& self == (Aec {
                    declarations_without_decision: 0,
                    delay_offset: delay as u64,
                    delay_known: true,
                    ..before
                })
            },
            Some(AcquireAction::Track(delay)) => {
                &&& r == CancellerAction::Keep
                &&& self == (Aec {
                    declarations_without_decision: 0,
                    delay_offset: delay as u64,
                    ..before
                })
            },
        }
    }

    /// Carries out an alignment action.
    fn adopt(&mut self, action: Option<AcquireAction>) -> (r: CancellerAction)
        ensures
            final(self).adopted_from(*old(self), action, r),
    {
        match action {
            None => CancellerAction::Keep,
            Some(AcquireAction::Promote(delay)) => {
                self.declarations_without_decision = 0;
                let target: u64 = delay as u64;
                let apart: u64 = if self.delay_offset >= target {
                    self.delay_offset - target
                } else {
                    target - self.delay_offset
                };
                let unchanged: bool = self.delay_known && apart <= self.relock_keep;
                self.delay_offset = target;
                self.delay_known = true;
                if unchanged {
                    CancellerAction::Keep
                } else {
                    CancellerAction::Reset
                }
            },
            Some(AcquireAction::Track(delay)) => {
                self.declarations_without_decision = 0;
                self.delay_offset = delay as u64;
                CancellerAction::Keep
            },
        }
    }

    /// What becomes of the completed fine frame, given the energies of the near
    /// frame and of its far window. The host measures no more than the answer
    /// calls for.
    pub fn fine_frame_use(&self, near_energy: Measure, far_energy: Measure) -> (r: FrameUse)
        requires
            self.wf(),
            self.acquirer is Some,
        ensures
            r == self.acquirer->0.fine.use_of(self.support, near_energy, far_energy),
    {
        match &self.acquirer {
            Some(acquirer) => acquirer.fine.frame_use(self.support, near_energy, far_energy),
            None => FrameUse::Refused,
        }
    }

    /// Whether the retained frame is re-correlated, given its energy and that of
    /// the window at the new origin.
    pub fn will_rescan(&self, near_energy: Measure, far_energy: Measure) -> (r: bool)
        requires
            self.wf(),
            self.acquirer is Some,
        ensures
            r == self.acquirer->0.fine.rescans(self.support, near_energy, far_energy),
    {
        match &self.acquirer {
            Some(acquirer) => acquirer.fine.will_rescan(self.support, near_energy, far_energy),
            None => false,
        }
    }

    /// Whether `self` is what a fine measurement leaves of `before`, and `r` what
    /// becomes of the canceller: the estimator judges the frame, the acquisition
    /// acts on its report, and the engine adopts what it asks for.
    pub open spec fn judged_from(
        self,
        before: Aec,
        near_energy: Measure,
        far_energy: Measure,
        scan: FineScan,
        r: CancellerAction,
    ) -> bool {
        let start = before.acquirer->0;
        &&& self.acquirer is Some
        &&& exists|
            fine: crate::delay::DelayEstimator,
            obs: crate::delay::FineObservation,
            outcome: ObserveOutcome,
        |
            #![trigger fine.observed_from(start.fine, before.support, near_energy, far_energy,
                scan), start.fine.reports(before.support, near_energy, far_energy, scan, obs),
                self.acquirer->0.acted_from(start.with_fine(fine), obs, outcome)]
            {
                &&& fine.observed_from(start.fine, before.support, near_energy, far_energy, scan)
                &&& start.fine.reports(before.support, near_energy, far_energy, scan, obs)
                &&& self.acquirer->0.acted_from(start.with_fine(fine), obs, outcome)
                &&& self.adopted_from(
                    Aec {
                        acquirer: self.acquirer,
                        rescan_pending: outcome.rescan_pending,
                        window_ready: false,
                        ..before
                    },
                    outcome.action,
                    r,
                )
            }
    }

    /// Answers [`AecEvent::FineFrame`] with what was measured, and says what
    /// becomes of the canceller. `scan` is read only when
    /// [`fine_frame_use`](Aec::fine_frame_use) answers [`FrameUse::Scanned`].
    pub fn answer_fine(
        &mut self,
        near_energy: Measure,
        far_energy: Measure,
        scan: &FineScan,
    ) -> (r: CancellerAction)
        requires
            old(self).wf(),
            old(self).in_block,
            old(self).window_ready,
            !old(self).rescan_pending,
            !old(self).acquirer->0.coarse.complete(),
            old(self).acquirer->0.fine.use_of(old(self).support, near_energy, far_energy) is Scanned
                ==> old(self).acquirer->0.fine.has_room() && scan.correlation@.len()
                > old(self).acquirer->0.fine.max_delay,
        ensures
            final(self).wf(),
            final(self).judged_from(*old(self), near_energy, far_energy, *scan, r),
    {
        let ghost before = *self;
        let outcome: ObserveOutcome = match &mut self.acquirer {
            Some(acquirer) => acquirer.observe(self.support, near_energy, far_energy, scan),
            None => ObserveOutcome::action(None),
        };
        self.rescan_pending = outcome.rescan_pending;
        self.window_ready = false;
        let ghost middle = *self;
        let r: CancellerAction = self.adopt(outcome.action);
        proof {
            let start = before.acquirer->0;
            let (fine, obs) = choose|
                fine: crate::delay::DelayEstimator,
                obs: crate::delay::FineObservation,
            |
                #![trigger start.fine.reports(before.support, near_energy, far_energy, *scan, obs),
                    fine.observed_from(start.fine, before.support, near_energy, far_energy, *scan)]
                {
                    &&& fine.observed_from(
                        start.fine,
                        before.support,
                        near_energy,
                        far_energy,
                        *scan,
                    )
                    &&& start.fine.reports(before.support, near_energy, far_energy, *scan, obs)
                    &&& self.acquirer->0.acted_from(start.with_fine(fine), obs, outcome)
                };
            assert(fine.observed_from(
                start.fine,
                before.support,
                near_energy,
                far_energy,
                *scan,
            ));
            assert(start.fine.reports(before.support, near_energy, far_energy, *scan, obs));
            assert(self.acquirer->0.acted_from(start.with_fine(fine), obs, outcome));
        }
        r
    }

    /// Whether `self` is what a rescan's measurement leaves of `before`, and `r`
    /// what becomes of the canceller. Apart from the scan record the estimator
    /// stands where the relocation left it, unless the rescan is promoted.
    pub open spec fn rejudged_from(
        self,
        before: Aec,
        near_energy: Measure,
        far_energy: Measure,
        scan: FineScan,
        r: CancellerAction,
    ) -> bool {
        let start = before.acquirer->0;
        &&& self.acquirer is Some
        &&& if start.fine.rescans(before.support, near_energy, far_energy) {
            exists|
                fine: crate::delay::DelayEstimator,
                obs: crate::delay::FineObservation,
                action: Option<AcquireAction>,
            |
                #![trigger fine.records(start.fine, scan), start.fine.candidate_of(scan,
                    obs.candidate), self.acquirer->0.rescanned_from(start.with_fine(fine), obs,
                    action)]
                {
                    &&& fine.records(start.fine, scan)
                    &&& fine == (crate::delay::DelayEstimator {
                        last_scan_ratio: fine.last_scan_ratio,
                        last_scan_peak_at: fine.last_scan_peak_at,
                        last_scan_origin: fine.last_scan_origin,
                        scans: fine.scans,
                        ..start.fine
                    })
                    &&& start.fine.candidate_of(scan, obs.candidate)
                    &&& self.acquirer->0.rescanned_from(start.with_fine(fine), obs, action)
                    &&& self.adopted_from(
                        Aec {
                            acquirer: self.acquirer,
                            rescan_pending: false,
                            window_ready: false,
                            ..before
                        },
                        action,
                        r,
                    )
                }
        } else {
            r == CancellerAction::Keep && self == (Aec {
                rescan_pending: false,
                window_ready: false,
                ..before
            })
        }
    }

    /// Answers [`AecEvent::Rescan`] with what was measured at the new origin, and
    /// says what becomes of the canceller. `scan` is read only when
    /// [`will_rescan`](Aec::will_rescan) holds.
    pub fn answer_rescan(
        &mut self,
        near_energy: Measure,
        far_energy: Measure,
        scan: &FineScan,
    ) -> (r: CancellerAction)
        requires
            old(self).wf(),
            old(self).in_block,
            old(self).window_ready,
            old(self).rescan_pending,
            old(self).acquirer->0.fine.rescans(old(self).support, near_energy, far_energy)
                ==> old(self).acquirer->0.fine.scans < u64::MAX && scan.correlation@.len()
                > old(self).acquirer->0.fine.max_delay,
        ensures
            final(self).wf(),
            final(self).rejudged_from(*old(self), near_energy, far_energy, *scan, r),
    {
        let ghost before = *self;
        assert(before.acquirer->0.fine.near_frame@ =~= Seq::<Sample>::empty());
        let action: Option<AcquireAction> = match &mut self.acquirer {
            Some(acquirer) => acquirer.rescan(self.support, near_energy, far_energy, scan),
            None => None,
        };
        self.rescan_pending = false;
        self.window_ready = false;
        let r: CancellerAction = self.adopt(action);
        proof {
            let start = before.acquirer->0;
            let after = self.acquirer->0;
            if start.fine.rescans(before.support, near_energy, far_energy) {
                let (fine, obs) = choose|
                    fine: crate::delay::DelayEstimator,
                    obs: crate::delay::FineObservation,
                |
                    #![trigger fine.records(start.fine, *scan),
                        start.fine.candidate_of(*scan, obs.candidate)]
                    {
                        &&& fine.records(start.fine, *scan)
                        &&& fine == (crate::delay::DelayEstimator {
                            last_scan_ratio: fine.last_scan_ratio,
                            last_scan_peak_at: fine.last_scan_peak_at,
                            last_scan_origin: fine.last_scan_origin,
                            scans: fine.scans,
                            ..start.fine
                        })
                        &&& start.fine.candidate_of(*scan, obs.candidate)
                        &&& after.rescanned_from(start.with_fine(fine), obs, action)
                    };
                assert(fine.records(start.fine, *scan));
                assert(start.fine.candidate_of(*scan, obs.candidate));
                assert(after.rescanned_from(start.with_fine(fine), obs, action));
            }
        }
        r
    }

    /// The far-absolute index the block in hand reads its first sample at.
    pub open spec fn read_start(self) -> int {
        self.anchor->0 + self.near_processed - self.delay_offset
    }

    /// Whether `self` is what aligning the block in hand leaves of `before`.
    ///
    /// With an alignment active, near-end index `n` reads far-end absolute index
    /// `anchor + n - delay_offset`, and an index the ring cannot supply is
    /// starved. While none is, the read is parked instead: it renders silence by
    /// design, which is a search state and not a transport failure.
    pub open spec fn aligned_from(self, before: Aec) -> bool {
        let count = before.near_scratch@.len() as int;
        &&& self.far_scratch@ == (if before.delay_known {
            read_span(before.ring, before.read_start(), count)
        } else {
            Seq::new(count as nat, |i: int| Sample { bits: 0 })
        })
        &&& self == (Aec {
            far_scratch: self.far_scratch,
            reference_starved: if before.delay_known {
                (before.reference_starved + count - supplied(
                    before.ring,
                    before.read_start(),
                    count,
                )) as u64
            } else {
                before.reference_starved
            },
            acquisition_parked: if before.delay_known {
                before.acquisition_parked
            } else {
                (before.acquisition_parked + count) as u64
            },
            near_processed: (before.near_processed + count) as u64,
            in_block: false,
            ..before
        })
    }

    /// Pulls the aligned far-end block for the block in hand, once the whole of
    /// it has been handed to the acquisition.
    pub fn align_block(&mut self)
        requires
            old(self).wf(),
            old(self).in_block,
            old(self).next_event() is Aligned,
        ensures
            final(self).wf(),
            final(self).aligned_from(*old(self)),
            final(self).far_scratch@.len() == final(self).near_scratch@.len(),
    {
        let ghost before = *self;
        let count: usize = self.near_scratch.len();
        let anchor: u64 = match self.anchor {
            Some(anchor) => anchor,
            None => 0,
        };
        self.far_scratch.clear();
        if self.delay_known {
            let start: i64 = anchor as i64 - self.delay_offset as i64 + self.near_processed as i64;
            let mut starved: u64 = 0;
            let mut i: usize = 0;
            while i < count
                invariant
                    before.wf(),
                    before.in_block,
                    start == before.read_start(),
                    count == before.near_scratch@.len(),
                    i <= count,
                    *self == (Aec { far_scratch: self.far_scratch, ..before }),
                    self.far_scratch@ == read_span(before.ring, start as int, count as int).take(
                        i as int,
                    ),
                    starved == i - supplied(before.ring, start as int, i as int),
                decreases count - i,
            {
                let index: i64 = start + i as i64;
                let sample: Option<Sample> = if index < 0 {
                    None
                } else {
                    self.ring.get(index as u64)
                };
                match sample {
                    Some(value) => {
                        self.far_scratch.push(value);
                    },
                    None => {
                        self.far_scratch.push(Sample::silence());
                        starved = starved + 1;
                    },
                }
                i += 1;
            }
            assert(self.far_scratch@ =~= read_span(before.ring, start as int, count as int));
            self.reference_starved = self.reference_starved + starved;
        } else {
            self.far_scratch.resize(count, Sample::silence());
            assert(self.far_scratch@ =~= Seq::new(count as nat, |i: int| Sample { bits: 0 }));
            self.acquisition_parked = self.acquisition_parked + count as u64;
        }
        self.near_processed = self.near_processed + count as u64;
        self.in_block = false;
    }

    /// The delay status the engine publishes.
    pub open spec fn status(self) -> DelayStatus {
        match self.acquirer {
            Some(acquirer) => acquirer.status(),
            None => DelayStatus::Locked(DelayLockSource::Hint),
        }
    }

    /// The ramp the next sample of the aligned block moves on, as a specification.
    pub open spec fn next_ramp(self) -> Option<Ramp> {
        match self.output_blend {
            OutputBlend::Preserve => None,
            OutputBlend::Graded(gate) => if self.faded < self.near_scratch@.len() {
                Some(Ramp { gain: gate.gain, reacquiring: self.status() is Reacquiring })
            } else {
                None
            },
        }
    }

    /// The ramp the next sample of the aligned block moves on: the gain it moves
    /// from, and whether it moves toward the untouched capture. [`None`] when
    /// the correction is delivered unchanged, or every sample has its gain.
    ///
    /// `Reacquiring` is the one state whose correction the engine distrusts, and
    /// it is reachable only after a trusted lock, so initial acquisition never
    /// enters it and the ramp holds full correction through startup.
    pub fn ramp(&self) -> (r: Option<Ramp>)
        requires
            self.wf(),
        ensures
            r == self.next_ramp(),
    {
        match &self.output_blend {
            OutputBlend::Preserve => None,
            OutputBlend::Graded(gate) => {
                if self.faded < self.near_scratch.len() {
                    Some(Ramp { gain: gate.gain, reacquiring: self.is_reacquiring() })
                } else {
                    None
                }
            },
        }
    }

    /// Whether a trusted alignment is being reacquired.
    pub fn is_reacquiring(&self) -> (r: bool)
        requires
            self.wf(),
        ensures
            r == self.status() is Reacquiring,
    {
        match &self.acquirer {
            Some(acquirer) => match acquirer.estimate().status {
                DelayStatus::Reacquiring => true,
                _ => false,
            },
            None => false,
        }
    }

    /// Whether `self` is what fading the next sample leaves of `before`: the gain
    /// moves, and the sample is queued with it.
    pub open spec fn faded_from(self, before: Aec, moved: Sample) -> bool {
        &&& self.output_blend is Graded
        &&& ({
            let gate = before.output_blend->Graded_0;
            let after = self.output_blend->Graded_0;
            let gain = ramped(gate.gain, before.status() is Reacquiring, moved);
            &&& after.pending_near@ == gate.pending_near@.push(
                before.near_scratch@[before.faded as int],
            )
            &&& after.pending_gain@ == gate.pending_gain@.push(gain)
            &&& after == (GradedGate {
                gain,
                pending_near: after.pending_near,
                pending_gain: after.pending_gain,
                ..gate
            })
        })
        &&& self == (Aec {
            output_blend: self.output_blend,
            faded: (before.faded + 1) as usize,
            ..before
        })
    }

    /// Gives the next sample of the aligned block its output gain, `moved` being
    /// the current gain stepped one ramp increment the way [`ramp`](Aec::ramp)
    /// says, and queues the pair until the canceller emits it. The gain a sample
    /// blends at is thereby the gain in force when it was captured.
    pub fn fade_next(&mut self, moved: Sample)
        requires
            old(self).wf(),
            old(self).output_blend is Graded,
            old(self).faded < old(self).near_scratch@.len(),
        ensures
            final(self).wf(),
            final(self).faded_from(*old(self), moved),
    {
        let reacquiring: bool = self.is_reacquiring();
        assert(self.near_scratch.len() == self.near_scratch@.len());
        let sample: Sample = self.near_scratch[self.faded];
        if let OutputBlend::Graded(gate) = &mut self.output_blend {
            let gain: Sample = gate.step(reacquiring, moved);
            gate.pending_near.push(sample);
            gate.pending_gain.push(gain);
        }
        self.faded = self.faded + 1;
    }

    /// What is delivered for what the canceller emitted.
    pub open spec fn delivers(self, emitted: Seq<Sample>, blended: Seq<Sample>) -> Seq<Sample> {
        match self.output_blend {
            OutputBlend::Preserve => emitted,
            OutputBlend::Graded(gate) => gate.delivered(emitted, blended),
        }
    }

    /// Whether `self` is `before` with `count` delivered samples retired from the
    /// pending mirror.
    pub open spec fn released_from(self, before: Aec, count: int) -> bool {
        &&& match before.output_blend {
            OutputBlend::Preserve => self.output_blend is Preserve,
            OutputBlend::Graded(gate) => {
                let retired = if count <= gate.pending_near@.len() {
                    count
                } else {
                    gate.pending_near@.len() as int
                };
                self.output_blend matches OutputBlend::Graded(after) && after.pending_near@
                    == gate.pending_near@.skip(retired) && after.pending_gain@
                    == gate.pending_gain@.skip(retired) && after == (GradedGate {
                    pending_near: after.pending_near,
                    pending_gain: after.pending_gain,
                    ..gate
                })
            },
        }
        &&& self == (Aec { output_blend: self.output_blend, ..before })
    }

    /// Delivers what the canceller emitted, appending it to `out`. `blended`
    /// holds, per emitted sample, the correction blended toward its near sample
    /// at its pending gain; it is read only where that gain is not exactly one.
    ///
    /// A framed canceller appends whole blocks, so it emits the front of the
    /// pending mirror, in order, and the mirror stays in lockstep with its
    /// internal carry. The end-of-stream flush delivers the rest the same way:
    /// those samples were captured earlier and carry the gain in force then, so
    /// it advances no ramp and introduces no final jump.
    pub fn release(&mut self, emitted: &[Sample], blended: &[Sample], out: &mut Vec<Sample>)
        requires
            old(self).wf(),
            blended@.len() == emitted@.len(),
        ensures
            final(self).wf(),
            final(self).released_from(*old(self), emitted@.len() as int),
            final(out)@ == old(out)@ + old(self).delivers(emitted@, blended@),
    {
        match &mut self.output_blend {
            OutputBlend::Preserve => {
                out.extend_from_slice(emitted);
                assert(out@ =~= old(out)@ + emitted@);
            },
            OutputBlend::Graded(gate) => {
                gate.release(emitted, blended, out);
            },
        }
    }

    /// Whether `self` is `before` restarted: the just-constructed state of an engine
    /// with the same configuration.
    pub open spec fn restarted_from(self, before: Aec) -> bool {
        &&& self.pristine()
        &&& self.config == before.config
        &&& self.ring.capacity == before.ring.capacity
        &&& self.relock_keep == before.relock_keep
        &&& before.acquirer is None ==> self.acquirer is None && self.delay_offset
            == before.delay_offset && self.delay_known == before.delay_known
        &&& before.acquirer is Some ==> self.acquirer is Some
            && self.acquirer->0.same_geometry(before.acquirer->0) && self.delay_offset == 0
            && !self.delay_known
        &&& self.output_blend.restored_from(before.output_blend)
    }

    /// Clears all streaming state, keeping the configuration and the reference
    /// ring's capacity. The next stream re-anchors and re-converges from scratch;
    /// a supplied hint stands.
    pub fn reset(&mut self)
        requires
            old(self).wf(),
        ensures
            final(self).wf(),
            final(self).restarted_from(*old(self)),
    {
        self.ring.clear();
        self.anchor = None;
        self.near_processed = 0;
        self.reference_starved = 0;
        self.acquisition_parked = 0;
        self.reference_reanchors = 0;
        self.lead.reseed();
        self.declared_continuity = CaptureContinuity::Continuous;
        self.capture_discontinuities = 0;
        self.capture_samples_lost = 0;
        self.declarations_without_decision = 0;
        self.declarations_without_decision_max = 0;
        self.in_block = false;
        self.cursor = 0;
        self.faded = 0;
        self.rescan_pending = false;
        self.window_ready = false;
        self.support = WindowSupport { missing_head: 0, missing_tail: 0 };
        if let Some(acquirer) = &mut self.acquirer {
            acquirer.reset();
            self.delay_offset = 0;
            self.delay_known = false;
        }
        self.estimator_scratch.clear();
        self.near_scratch.clear();
        self.far_scratch.clear();
        self.reference_scratch.clear();
        // The whole-stream restart returns the output-transition gate to full
        // correction and drops any pending mirror, so the next stream begins
        // exactly as construction does.
        if let OutputBlend::Graded(gate) = &mut self.output_blend {
            gate.reset();
        }
        proof {
            crate::sample::lemma_sanitizing_is_idempotent(Seq::empty());
        }
    }

    /// The delay acquisition's snapshot, synthesized for the hinted path where no
    /// search of either stage is constructed or run.
    pub open spec fn estimated(self) -> DelayEstimate {
        match self.acquirer {
            Some(acquirer) => acquirer.snapshot(),
            None => DelayEstimate {
                status: DelayStatus::Locked(DelayLockSource::Hint),
                delay_samples: Some(self.delay_offset as usize),
                fine_search_start_samples: self.delay_offset as usize,
                fine_search_end_samples: self.delay_offset as usize,
                coarse_ceiling_samples: 0,
                coarse_region_samples: None,
                coarse_bin_samples: 0,
                coarse_correlation: Sample { bits: 0 },
                beyond_ceiling: false,
                coarse_frames: 0,
                fine_frames: 0,
                fine_frames_skipped: 0,
                relocated: false,
                fine_scans: 0,
                fine_last_ratio: Measure { bits: 0 },
                fine_last_delay_samples: None,
                fine_last_origin_samples: 0,
                fine_last_peak_interior: false,
                tracking_moves: 0,
                reacquisitions: 0,
                last_reacquire_trigger: None,
                coarse_rearms: 0,
                coarse_regions_rejected: 0,
                coarse_last_resort_exhausted: false,
                tracking_contradiction_run: 0,
                tracking_contradiction_run_max: 0,
            },
        }
    }

    /// The delay acquisition's snapshot.
    pub fn delay_estimate(&self) -> (r: DelayEstimate)
        requires
            self.wf(),
        ensures
            r == self.estimated(),
    {
        match &self.acquirer {
            Some(acquirer) => acquirer.estimate(),
            None => DelayEstimate {
                status: DelayStatus::Locked(DelayLockSource::Hint),
                delay_samples: Some(self.delay_offset as usize),
                fine_search_start_samples: self.delay_offset as usize,
                fine_search_end_samples: self.delay_offset as usize,
                coarse_ceiling_samples: 0,
                coarse_region_samples: None,
                coarse_bin_samples: 0,
                coarse_correlation: Sample::silence(),
                beyond_ceiling: false,
                coarse_frames: 0,
                fine_frames: 0,
                fine_frames_skipped: 0,
                relocated: false,
                fine_scans: 0,
                fine_last_ratio: Measure::zero(),
                fine_last_delay_samples: None,
                fine_last_origin_samples: 0,
                fine_last_peak_interior: false,
                tracking_moves: 0,
                reacquisitions: 0,
                last_reacquire_trigger: None,
                coarse_rearms: 0,
                coarse_regions_rejected: 0,
                // The hinted path runs no coarse re-verification, so the
                // last-resort stand-down can never engage.
                coarse_last_resort_exhausted: false,
                // The hinted path runs no tracker, so there is nothing that could
                // contradict itself.
                tracking_contradiction_run: 0,
                tracking_contradiction_run_max: 0,
            },
        }
    }

    /// The observable state, as a specification.
    pub open spec fn snapshot(self, canceller: CancellerMetrics) -> AecMetrics {
        AecMetrics {
            canceller,
            delay_samples: self.alignment(),
            reference_starved: self.reference_starved,
            acquisition_parked: self.acquisition_parked,
            reference_dropped: self.ring.oldest() as u64,
            reference_reanchors: self.reference_reanchors,
            capture_discontinuities: self.capture_discontinuities,
            capture_samples_lost: self.capture_samples_lost,
            capture_declaration_pending: self.declared(),
            capture_declarations_without_decision: self.declarations_without_decision,
            capture_declarations_without_decision_max: self.declarations_without_decision_max,
            delay: self.estimated(),
        }
    }

    /// Snapshots the engine's observable state: the selected canceller's metrics,
    /// the delay estimate, and the reference-transport counters.
    ///
    /// The delay estimate is the active alignment offset, whether that came from
    /// a supplied hint or from the automatic estimator, and is [`None`] while an
    /// estimator is still searching.
    pub fn metrics(&self, canceller: CancellerMetrics) -> (r: AecMetrics)
        requires
            self.wf(),
        ensures
            r == self.snapshot(canceller),
    {
        AecMetrics {
            canceller,
            delay_samples: if self.delay_known {
                Some(self.delay_offset as usize)
            } else {
                None
            },
            reference_starved: self.reference_starved,
            acquisition_parked: self.acquisition_parked,
            reference_dropped: self.ring.dropped(),
            reference_reanchors: self.reference_reanchors,
            capture_discontinuities: self.capture_discontinuities,
            capture_samples_lost: self.capture_samples_lost,
            capture_declaration_pending: match self.declared_continuity {
                CaptureContinuity::Continuous => false,
                CaptureContinuity::Discontinuity { .. } => true,
            },
            capture_declarations_without_decision: self.declarations_without_decision,
            capture_declarations_without_decision_max: self.declarations_without_decision_max,
            delay: self.delay_estimate(),
        }
    }
}

/// The ramp the next sample moves on.
#[derive(Debug, Clone, Copy, PartialEq, Eq, Structural)]
pub struct Ramp {
    /// The gain it moves from.
    pub gain: Sample,
    /// Whether it moves toward the untouched capture.
    pub reacquiring: bool,
}

/// A snapshot of the engine's observable state.
///
/// Composes the selected canceller's [`CancellerMetrics`] with the delay estimate
/// and the reference-transport counters the engine owns. Metadata only, never
/// sample data.
#[derive(Debug, Clone, Copy, PartialEq, Eq)]
#[non_exhaustive]
pub struct AecMetrics {
    /// The selected canceller's own metrics.
    pub canceller: CancellerMetrics,
    /// The active alignment offset in samples: a supplied delay hint, or the
    /// automatic estimator's locked estimate. [`None`] while the estimator is
    /// still searching and no hint was supplied. While the acquisition is
    /// [`DelayStatus::Reacquiring`], this keeps reporting the previously trusted
    /// offset, which the engine holds until a new lock is promoted.
    pub delay_samples: Option<usize>,
    /// Total near-end samples rendered silent because the aligned far-end sample
    /// was unavailable (dropped from the ring or not yet fed) while an alignment
    /// (a hint or a promoted lock) was ACTIVE. A transport report.
    pub reference_starved: u64,
    /// Total near-end samples processed while no alignment was active: the
    /// searching span, not a transport failure.
    pub acquisition_parked: u64,
    /// Total far-end samples overwritten in the reference ring once it was full.
    /// A sliding window of finite depth does this on every push for the whole
    /// life of any stream longer than that depth, so a large count here is the
    /// normal steady state.
    pub reference_dropped: u64,
    /// Times the engine INFERRED a capture discontinuity from the caller's
    /// frontier lead and re-anchored for it. A seam the host declared is counted
    /// under [`AecMetrics::capture_discontinuities`] instead, and never also
    /// appears here.
    pub reference_reanchors: u64,
    /// Times a host-declared capture discontinuity was applied.
    pub capture_discontinuities: u64,
    /// Total near-end samples the host reported lost across those
    /// discontinuities. INFORMATIONAL, and nothing else: the only observable
    /// difference between a sized and an unsized report is this counter.
    /// Accumulated saturating.
    pub capture_samples_lost: u64,
    /// Whether a host declaration is latched and awaiting the next block to
    /// consume it.
    pub capture_declaration_pending: bool,
    /// Applied host declarations that arrived with NO alignment standing and no
    /// decision reached since the last one. A climbing run is the signature of
    /// declaring too often. A standing alignment resets it.
    pub capture_declarations_without_decision: u64,
    /// The high-water mark of
    /// [`AecMetrics::capture_declarations_without_decision`].
    pub capture_declarations_without_decision_max: u64,
    /// The delay acquisition's full state: what is being searched, and what has
    /// been found.
    pub delay: DelayEstimate,
}

/// The engine and the estimator that steers it always report the same alignment:
/// the top-level delay is the estimate's own, in every state, a reacquisition
/// and the hinted path included. Before anything is trusted, the offset in force
/// is zero.
pub proof fn lemma_both_alignments_agree(aec: Aec, canceller: CancellerMetrics)
    requires
        aec.wf(),
    ensures
        aec.snapshot(canceller).delay_samples == aec.snapshot(canceller).delay.delay_samples,
        aec.snapshot(canceller).delay.status is Locked || aec.snapshot(canceller).delay.status
            is Reacquiring <==> aec.snapshot(canceller).delay_samples is Some,
        aec.snapshot(canceller).delay.status == aec.status(),
        aec.status() is Searching || aec.status() is Relocated ==> aec.delay_offset == 0,
{
}

/// A supplied hint is taken at its word and kept: the alignment is the hint,
/// clamped to the search window, no search of either stage exists, and no declared
/// discontinuity ever finds the engine without an alignment.
pub proof fn lemma_a_hint_is_kept(aec: Aec, canceller: CancellerMetrics)
    requires
        aec.wf(),
        aec.config.delay_hint_ms is Some,
    ensures
        aec.acquirer is None,
        aec.snapshot(canceller).delay_samples == Some(Aec::seeded_offset(aec.config) as usize),
        aec.status() == DelayStatus::Locked(DelayLockSource::Hint),
        aec.snapshot(canceller).delay.fine_scans == 0,
        aec.snapshot(canceller).delay.coarse_frames == 0,
        aec.snapshot(canceller).capture_declarations_without_decision == 0,
        aec.snapshot(canceller).capture_declarations_without_decision_max == 0,
{
}

/// A declared discontinuity is latched until a block consumes it: declaring
/// continuity changes nothing, a later continuous declaration does not cancel
/// it, and the losses of two declarations add, whichever came first.
pub proof fn lemma_declarations_latch(
    held: CaptureContinuity,
    a: Option<u64>,
    b: Option<u64>,
)
    ensures
        latched(held, CaptureContinuity::Continuous) == held,
        latched(held, CaptureContinuity::Discontinuity { lost_samples: a }) is Discontinuity,
        latched(
            latched(
                CaptureContinuity::Continuous,
                CaptureContinuity::Discontinuity { lost_samples: a },
            ),
            CaptureContinuity::Discontinuity { lost_samples: b },
        ) == (CaptureContinuity::Discontinuity { lost_samples: losses_added(a, b) }),
        losses_added(a, b) == losses_added(b, a),
        losses_added(a, None) == a,
{
}

/// A declared seam is applied exactly once and never counted twice: the block
/// that consumes it re-anchors onto the reference frontier, counts one
/// discontinuity and no inferred re-anchor, reseeds the learned lead, and leaves
/// nothing pending.
pub proof fn lemma_a_declared_seam_is_applied_once(before: Aec, after: Aec, near: Seq<Sample>)
    requires
        before.wf(),
        before.declared(),
        after.opened_from(before, near),
    ensures
        after.anchor == Some(before.ring.next_abs),
        after.near_processed == 0,
        after.capture_discontinuities == saturated(before.capture_discontinuities + 1),
        after.reference_reanchors == before.reference_reanchors,
        after.lead == LeadModel::fresh(),
        !after.declared(),
{
}

/// A block with nothing declared never counts a declared discontinuity, and it
/// re-anchors only when the learned model infers a loss or the lead has passed
/// the ring's depth.
pub proof fn lemma_an_undeclared_block_counts_no_declaration(
    before: Aec,
    after: Aec,
    near: Seq<Sample>,
)
    requires
        before.wf(),
        !before.declared(),
        after.opened_from(before, near),
    ensures
        after.capture_discontinuities == before.capture_discontinuities,
        after.capture_samples_lost == before.capture_samples_lost,
        after.declarations_without_decision == before.declarations_without_decision,
        after.reference_reanchors != before.reference_reanchors ==> before.anchor is Some && (
        before.lead.infers(before.frontier_lead(), near.len() as u64) || before.frontier_lead()
            >= before.ring.capacity),
{
}

/// The reported loss is informational: two blocks opened from states that differ
/// only in how many samples the pending declaration reports lost end in states
/// that differ only in the reported total.
pub proof fn lemma_the_loss_count_changes_nothing_else(
    before: Aec,
    after: Aec,
    near: Seq<Sample>,
    lost: Option<u64>,
)
    requires
        before.declared(),
        after.opened_from(before, near),
    ensures
        ({
            let other = Aec {
                declared_continuity: CaptureContinuity::Discontinuity { lost_samples: lost },
                ..before
            };
            let total = match lost {
                Some(lost) => saturated(before.capture_samples_lost + lost),
                None => before.capture_samples_lost,
            };
            (Aec { capture_samples_lost: total, ..after }).opened_from(other, near)
        }),
{
    let other = Aec {
        declared_continuity: CaptureContinuity::Discontinuity { lost_samples: lost },
        ..before
    };
    let count = near.len() as u64;
    assert(other.seams(count) && before.seams(count));
    assert(other.block_base(count) == before.block_base(count));
    if after.acquirer is Some {
        let middle = choose|middle: DelayAcquirer| #[trigger]
            middle.seamed_from(before.acquirer->0) && after.acquirer->0 == (DelayAcquirer {
                next_near_abs: before.block_base(count),
                anchored: true,
                ..middle
            });
        assert(middle.seamed_from(other.acquirer->0));
        assert(other.acquisition_opened(other.acquirer->0, after.acquirer->0, count));
    }
}

/// A re-anchor keeps the standing delay, the learned state and the far history:
/// opening a block, seam or not, changes neither the offset, nor whether it is
/// known, nor the ring, nor the output gate.
pub proof fn lemma_a_re_anchor_keeps_the_standing_delay(
    before: Aec,
    after: Aec,
    near: Seq<Sample>,
)
    requires
        before.wf(),
        after.opened_from(before, near),
    ensures
        after.delay_offset == before.delay_offset,
        after.delay_known == before.delay_known,
        after.ring == before.ring,
        after.output_blend == before.output_blend,
        after.status() == before.status(),
{
    if after.acquirer is Some && before.seams(near.len() as u64) {
        let count = near.len() as u64;
        let middle = choose|middle: DelayAcquirer| #[trigger]
            middle.seamed_from(before.acquirer->0) && after.acquirer->0 == (DelayAcquirer {
                next_near_abs: before.block_base(count),
                anchored: true,
                ..middle
            });
        assert(middle.seamed_from(before.acquirer->0));
    }
}

/// Chunk boundaries are invisible: a block that crosses no seam starts exactly
/// where the previous one ended, so the acquisition's grid runs on and nothing
/// is discarded.
pub proof fn lemma_an_unbroken_stream_runs_on(
    opened: Aec,
    aligned: Aec,
    next: Aec,
    near: Seq<Sample>,
)
    requires
        opened.wf(),
        opened.in_block,
        aligned.aligned_from(opened),
        opened.acquirer is Some ==> opened.cursor == opened.near_scratch@.len(),
        !aligned.seams(near.len() as u64),
        next.opened_from(aligned, near),
    ensures
        next.anchor == opened.anchor,
        next.near_processed == opened.near_processed + opened.near_scratch@.len(),
        next.acquirer matches Some(after) ==> after == opened.acquirer->0,
{
}

/// A near sample is either searched over or served, never both: with no
/// alignment active every sample of the block is parked and none is starved;
/// with one, every sample the ring cannot supply is starved and none is parked.
pub proof fn lemma_parking_is_not_starvation(before: Aec, after: Aec)
    requires
        before.wf(),
        before.in_block,
        after.aligned_from(before),
    ensures
        ({
            let count = before.near_scratch@.len();
            &&& !before.delay_known ==> after.acquisition_parked == before.acquisition_parked
                + count && after.reference_starved == before.reference_starved
            &&& before.delay_known ==> after.acquisition_parked == before.acquisition_parked
                && after.reference_starved + supplied(
                before.ring,
                before.read_start(),
                count as int,
            ) == before.reference_starved + count
            &&& 0 <= supplied(before.ring, before.read_start(), count as int) <= count
        }),
{
}

/// Every near sample reads the reference sample the alignment pairs it with:
/// output index `i` of an aligned block is the far-end sample `delay_offset`
/// before the near sample's own absolute index, when the ring still holds it.
pub proof fn lemma_an_aligned_block_reads_its_own_delay(before: Aec, after: Aec, i: int)
    requires
        before.wf(),
        before.in_block,
        before.delay_known,
        after.aligned_from(before),
        0 <= i < before.near_scratch@.len(),
    ensures
        ({
            let index = before.anchor->0 + before.near_processed + i - before.delay_offset;
            before.ring.at(index) matches Some(sample) ==> after.far_scratch@[i] == sample
        }),
        after.far_scratch@.len() == before.near_scratch@.len(),
{
}

/// Outside a reacquisition the graded policy is byte-identical to preserving the
/// correction: with every pending gain at one, what is delivered is bit-for-bit
/// what the canceller emitted.
pub proof fn lemma_full_correction_is_delivered_untouched(
    gate: GradedGate,
    emitted: Seq<Sample>,
    blended: Seq<Sample>,
)
    requires
        forall|i: int|
            0 <= i < gate.pending_gain@.len() ==> #[trigger] gate.pending_gain@[i] == (Sample {
                bits: SAMPLE_ONE,
            }),
    ensures
        gate.delivered(emitted, blended) == emitted,
{
    assert(gate.delivered(emitted, blended) =~= emitted);
}

/// Outside a reacquisition full correction holds: a gate whose gains are all one
/// stays that way for every further sample, whatever its ramp's arithmetic gives,
/// so initial acquisition, a lock and a re-anchored lock are all delivered
/// untouched.
pub proof fn lemma_full_correction_holds_outside_a_reacquisition(
    before: GradedGate,
    after: GradedGate,
    moved: Sample,
)
    requires
        forall|i: int|
            0 <= i < before.pending_gain@.len() ==> #[trigger] before.pending_gain@[i] == (Sample {
                bits: SAMPLE_ONE,
            }),
        before.gain == (Sample { bits: SAMPLE_ONE }),
        after.gain == ramped(before.gain, false, moved),
        after.pending_gain@ == before.pending_gain@.push(after.gain),
    ensures
        after.gain == (Sample { bits: SAMPLE_ONE }),
        forall|i: int|
            0 <= i < after.pending_gain@.len() ==> #[trigger] after.pending_gain@[i] == (Sample {
                bits: SAMPLE_ONE,
            }),
{
}

/// The ramp stays in range and pins its endpoints: whatever the arithmetic
/// produced, the gain lies in `[0, 1]`; reaching or overshooting the target end
/// lands exactly on it, and a gain standing there stays.
pub proof fn lemma_the_gain_stays_in_range(gain: Sample, reacquiring: bool, moved: Sample)
    requires
        gain_in_range(gain),
    ensures
        gain_in_range(ramped(gain, reacquiring, moved)),
        ramped(gain, reacquiring, moved).finite(),
        !reacquiring && (gain.bits == SAMPLE_ONE || !moved.below(Sample { bits: SAMPLE_ONE }))
            ==> ramped(gain, reacquiring, moved) == (Sample { bits: SAMPLE_ONE }),
        reacquiring && (gain.bits == 0 || !(Sample { bits: 0 }).below(moved)) ==> ramped(
            gain,
            reacquiring,
            moved,
        ) == (Sample { bits: 0 }),
{
}

/// The ramp always moves from the current gain toward its target, whatever its
/// arithmetic gives: a reacquisition never raises the gain and every other status
/// never lowers it. It never goes past where the arithmetic moved it: what comes
/// out is the arithmetic's result, the end of the range it overshot, or, where it
/// pointed the wrong way, the current gain. A reversal mid-fade therefore never
/// jumps.
pub proof fn lemma_the_ramp_moves_toward_its_target(gain: Sample, moved: Sample)
    requires
        gain_in_range(gain),
    ensures
        ({
            let after = ramped(gain, true, moved);
            &&& !gain.below(after)
            &&& moved.below(gain) ==> after == moved || after == (Sample { bits: 0 })
                && !(Sample { bits: 0 }).below(moved)
            &&& gain.below(moved) ==> after == gain
        }),
        ({
            let after = ramped(gain, false, moved);
            &&& !after.below(gain)
            &&& gain.below(moved) ==> after == moved || after == (Sample { bits: SAMPLE_ONE })
                && !moved.below(Sample { bits: SAMPLE_ONE })
            &&& moved.below(gain) ==> after == gain
        }),
{
}

/// A duration inside its range spans no more samples than the range's end does.
proof fn lemma_scaled(ms: int, most: int, rate: int)
    requires
        0 <= ms <= most <= 2000,
        8000 <= rate <= 48000,
    ensures
        0 <= (ms * rate) / 1000 <= (most * rate) / 1000 <= 96000,
        (most * rate) / 1000 <= most * 48,
{
    assert(0 <= ms * rate <= most * rate <= most * 48000) by (nonlinear_arith)
        requires
            0 <= ms <= most,
            8000 <= rate <= 48000,
    ;
}

/// The envelope blocks of a far history fit wherever its natives do.
proof fn lemma_blocks_fit(acquirer: DelayAcquirer)
    requires
        acquirer.wf(),
        acquirer.coarse.far_on_grid(),
    ensures
        acquirer.coarse.far_env.next_abs + acquirer.coarse.unbanked <= u64::MAX,
{
    let scan = acquirer.coarse;
    assert(scan.far_env.next_abs + scan.unbanked <= (scan.far_env.next_abs + scan.unbanked)
        * scan.decimation) by (nonlinear_arith)
        requires
            scan.decimation >= 1,
            scan.far_env.next_abs + scan.unbanked >= 0,
    ;
}

} // verus!
