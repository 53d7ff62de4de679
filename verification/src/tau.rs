//! Tau: the framing, the detector and the two-path decisions of the shipped
//! partitioned-block frequency-domain echo canceller.
//!
//! Tau is a multi-delay block adaptive filter: the modelled echo tail is split
//! into fixed-length partitions, each partition holds one block of the filter's
//! frequency response, and the echo estimate is the sum of those partitions
//! against a matching ring of far-end block spectra. The filters and the
//! transforms live with the host; this module cuts the blocks, says which ring
//! slot each partition reads, judges what the host measured, and decides what
//! happens to the filters and to the delivered block.
//!
//! # Geometry
//!
//! The block length is [`BLOCK`] and the transform length is twice that, which
//! is the standard overlap-save framing: a window holding the previous and the
//! current far-end block. The partition count follows from the configured tail:
//! `ceil(taps / BLOCK)`.
//!
//! # Double-talk
//!
//! The near-end judgement is made against the echo the filter itself predicts,
//! on the squared normalized correlation between the near-end block and that
//! prediction. The envelope the stream has been achieving is tracked
//! asymmetrically: it rises quickly and decays slowly. A drop past a margin
//! below it enters a *collapse*, and the collapse holds only while the drop
//! stays unambiguously deep. Nothing is judged until a baseline is established.
//!
//! The verdict does not freeze the filter. Adaptation control answers with a
//! rate, pinned to its floor during a collapse; output protection stands the
//! residual suppressor down during a collapse or whenever the smoothed coherence
//! is low. The `double_talk` metric reports the union.
//!
//! # The two-path output
//!
//! Adaptation happens on a *shadow* filter that never drives the delivered
//! signal; the listener hears a separate *output* filter that moves only on
//! evidence: persistence (a quiet streak) and advantage (the shadow removing
//! what the output filter does not). A shadow far behind for a sustained streak
//! is rewound to the output filter instead.
//!
//! # Divergence
//!
//! A canceller removes energy. One that sustains more energy out than in has
//! diverged, and its correction is halved, counted, and re-earned, with the
//! block that tripped the guard delivered as the near end it was given. A
//! non-finite delivered error restarts both filters and renders the block
//! silent; a non-finite shadow error restarts the shadow alone.

use vstd::prelude::*;

use crate::canceller::CancellerMetrics;
use crate::config::Suppression;
use crate::sample::{Measure, Sample};
use crate::timing::ms_to_samples;

verus! {

/// The processing block length in samples: the number of new far-end and
/// near-end samples consumed per frequency-domain turn, and the length of one
/// filter partition. 256 samples is 16 ms at 16 kHz.
pub const BLOCK: usize = 256;

/// The real transform length: twice [`BLOCK`], the overlap-save window holding
/// the previous and the current far-end block.
pub const FFT_LEN: usize = 512;

/// The number of independent complex bins in a length-[`FFT_LEN`] real
/// transform: DC through Nyquist.
pub const BINS: usize = 257;

/// The depth, in tracked deviations below the envelope, a collapse must sustain
/// to stay held: the bit pattern of ten.
pub const DTD_HOLD_DEPTH_BITS: u64 = 0x4024_0000_0000_0000;

/// The floor under the adaptation scale, and the scale a collapse pins: the bit
/// pattern of one hundredth.
pub const STEP_SCALE_FLOOR_BITS: u64 = 0x3f84_7ae1_47ae_147b;

/// The bit pattern of one: full-speed adaptation.
pub const FULL_SCALE_BITS: u64 = 0x3ff0_0000_0000_0000;

/// The smoothed coherence below which output protection engages regardless of
/// the collapse state: the bit pattern of one fifth.
pub const PROTECT_COHERENCE_BITS: u64 = 0x3fc9_9999_9999_999a;

/// The least share of the output filter's smoothed error the shadow must be
/// removing before any transfer happens: the bit pattern of one tenth.
pub const TRANSFER_MIN_ADVANTAGE_BITS: u64 = 0x3fb9_9999_9999_999a;

/// Consecutive quiet established far-active blocks required before any transfer:
/// 128 ms with neither a collapse nor output protection.
pub const TRANSFER_QUIET_STREAK_BLOCKS: u32 = 8;

/// Consecutive rescue-qualifying blocks before the shadow is rewound to the
/// output filter. Mirrors [`TRANSFER_QUIET_STREAK_BLOCKS`].
pub const RESCUE_STREAK_BLOCKS: u32 = 8;

/// The coherence at which the filter is trusted immediately, without waiting out
/// [`DTD_ESTABLISH_BLOCKS`]: the bit pattern of 81 hundredths.
pub const DTD_HANDOVER_COHERENCE_BITS: u64 = 0x3fe9_eb85_1eb8_51ec;

/// Far-active blocks after which the detector is trusted with whatever coherence
/// it has managed, for a recording that never reaches the handover coherence at
/// all. Counted in far-active blocks and never in elapsed time.
pub const DTD_ESTABLISH_BLOCKS: u32 = 32;

/// Power floor for the ERLE estimate: below this smoothed near-end power the
/// estimate reads zero. The bit pattern of one ten-billionth.
pub const ERLE_POWER_FLOOR_BITS: u64 = 0x3ddb_7cdf_d9d7_bdbb;

/// The floor the per-bin step factor is held at: the bit pattern of one fiftieth.
pub const MIN_STEP_FRACTION_BITS: u64 = 0x3f94_7ae1_47ae_147b;

/// The suppressor's gain floor, the most it may ever attenuate a bin: the bit
/// pattern of one tenth.
pub const MIN_SUPPRESSION_GAIN_BITS: u64 = 0x3fb9_9999_9999_999a;

/// Half-width, in bins, of the moving average the suppressor runs across its
/// gain curve before applying it.
pub const GAIN_BIN_SPAN: usize = 4;

/// What the two-path comparison does to the filters.
#[derive(Debug, Clone, Copy, PartialEq, Eq, Structural)]
pub enum PathMove {
    /// Neither filter moves.
    Stay,
    /// The shadow is rewound to the output filter.
    Rescue,
    /// The output filter leaks toward the shadow, at the rate the advantage
    /// grades.
    Transfer,
}

/// What the block in hand waits for. A block goes through these in order; only
/// [`ShadowUpdate`](BlockStep::ShadowUpdate) is passed over, on a block the shadow
/// does not adapt on.
#[derive(Debug, Clone, Copy, PartialEq, Eq, Structural)]
pub enum BlockStep {
    /// No block is open: samples are accepted toward the next one.
    Fill,
    /// The shadow filter's error.
    ShadowError,
    /// The output filter's error.
    OutputError,
    /// The far-end energy of the block.
    FarEnergy,
    /// Whether that energy is activity.
    FarActivity,
    /// The coherence between the near end and the shadow's prediction.
    Coherence,
    /// The two filters' smoothed error powers.
    Paths,
    /// The shadow filter's update.
    ShadowUpdate,
    /// The suppressor's window over the error stream.
    ErrorWindow,
    /// The delivered block.
    Delivery,
    /// The divergence guard.
    Guard,
    /// The block's close, which delivers its samples.
    Close,
}

impl BlockStep {
    /// How many more times the block can still reset a filter.
    pub open spec fn resets_left(self) -> int {
        match self {
            BlockStep::Fill => 0,
            BlockStep::ShadowError => 4,
            BlockStep::OutputError => 3,
            BlockStep::FarEnergy => 2,
            BlockStep::FarActivity => 2,
            BlockStep::Coherence => 2,
            BlockStep::Paths => 2,
            BlockStep::ShadowUpdate => 2,
            BlockStep::ErrorWindow => 1,
            BlockStep::Delivery => 1,
            BlockStep::Guard => 1,
            BlockStep::Close => 0,
        }
    }

    /// Whether a block is open and its two-path comparison is still to come.
    pub open spec fn comparison_ahead(self) -> bool {
        match self {
            BlockStep::ShadowError => true,
            BlockStep::OutputError => true,
            BlockStep::FarEnergy => true,
            BlockStep::FarActivity => true,
            BlockStep::Coherence => true,
            BlockStep::Paths => true,
            _ => false,
        }
    }
}

/// What a block's coherence would leave of the detector's envelope, for one of
/// the ways the envelope can move.
#[derive(Debug, Clone, Copy, PartialEq, Eq, Structural)]
pub struct Outlook {
    /// The envelope.
    pub baseline: Measure,
    /// The mean absolute shortfall with this block's shortfall from that
    /// envelope learned.
    pub deviation: Measure,
    /// How far below that envelope the block sits, in deviations as they stood
    /// before the block.
    pub depth: Measure,
}

/// The measured side of one block's coherence judgement.
#[derive(Debug, Clone, Copy, PartialEq, Eq, Structural)]
pub struct CoherenceReading {
    /// The near block's energy.
    pub near_energy: Measure,
    /// The energy of the shadow filter's echo estimate.
    pub estimate_energy: Measure,
    /// The squared normalized correlation between the two, zero when they are
    /// out of phase.
    pub coherence: Measure,
    /// The coherence below which the block falls past the margin, from the
    /// envelope and deviation as they stood before the block.
    pub entry_level: Measure,
    /// The outlook when the envelope stays where it is.
    pub held: Outlook,
    /// The outlook when the envelope is seeded with the coherence itself.
    pub seeded: Outlook,
    /// The outlook when the envelope rises toward the coherence.
    pub raised: Outlook,
    /// The outlook when the envelope decays toward the coherence.
    pub decayed: Outlook,
    /// The smoothed coherence with this block folded in.
    pub smooth: Measure,
    /// The adaptation scale the smoothed coherence gives without this block.
    pub scale_held: Measure,
    /// The adaptation scale the smoothed coherence gives with this block.
    pub scale_moved: Measure,
}

/// The measured side of one two-path comparison.
#[derive(Debug, Clone, Copy, PartialEq, Eq, Structural)]
pub struct PathReading {
    /// The shadow filter's smoothed error power with this block folded in.
    pub shadow_power: Measure,
    /// The output filter's smoothed error power with this block folded in.
    pub output_power: Measure,
    /// The shadow error power above which the block qualifies toward a rescue:
    /// the rescue ratio times the output power.
    pub rescue_level: Measure,
    /// The share of the output filter's error the shadow removes.
    pub advantage: Measure,
}

/// The measured side of the divergence guard.
#[derive(Debug, Clone, Copy, PartialEq, Eq, Structural)]
pub struct GuardReading {
    /// The smoothed near-end power with this block folded in.
    pub near_power: Measure,
    /// The smoothed output power with this block folded in.
    pub out_power: Measure,
    /// The output power above which the filter is judged to have diverged: the
    /// divergence ratio times the near power.
    pub limit: Measure,
}

/// A block of silence.
pub open spec fn silent(count: int) -> Seq<Sample> {
    Seq::new(count as nat, |i: int| Sample { bits: 0 })
}

/// Whether every sample of a block is finite.
#[verifier::opaque]
pub open spec fn all_finite(block: Seq<Sample>) -> bool {
    forall|i: int| 0 <= i < block.len() ==> (#[trigger] block[i]).finite()
}

/// Whether any sample of a block is non-zero.
pub open spec fn any_sound(block: Seq<Sample>) -> bool {
    exists|i: int| 0 <= i < block.len() && (#[trigger] block[i]).magnitude() != 0
}

/// `block` padded with silence to a full [`BLOCK`].
pub open spec fn padded(block: Seq<Sample>) -> Seq<Sample> {
    block + silent(BLOCK - block.len())
}

fn is_all_finite(block: &[Sample]) -> (r: bool)
    ensures
        r == all_finite(block@),
{
    reveal(all_finite);
    let mut i: usize = 0;
    while i < block.len()
        invariant
            i <= block@.len(),
            forall|j: int| 0 <= j < i ==> (#[trigger] block@[j]).finite(),
        decreases block@.len() - i,
    {
        if !block[i].is_finite() {
            assert(!all_finite(block@)) by {
                reveal(all_finite);
                assert(!block@[i as int].finite());
            }
            return false;
        }
        i += 1;
    }
    true
}

fn has_sound(block: &Vec<Sample>) -> (r: bool)
    ensures
        r == any_sound(block@),
{
    let mut i: usize = 0;
    while i < block.len()
        invariant
            i <= block@.len(),
            forall|j: int| 0 <= j < i ==> (#[trigger] block@[j]).magnitude() == 0,
        decreases block@.len() - i,
    {
        if block[i].bits % 0x8000_0000 != 0 {
            assert(block@[i as int].magnitude() != 0);
            return true;
        }
        i += 1;
    }
    false
}

fn copied(block: &[Sample]) -> (r: Vec<Sample>)
    ensures
        r@ == block@,
{
    let mut out: Vec<Sample> = Vec::new();
    out.extend_from_slice(block);
    assert(out@ =~= block@);
    out
}

fn silence_block(count: usize) -> (r: Vec<Sample>)
    ensures
        r@ == silent(count as int),
        all_finite(r@),
{
    reveal(all_finite);
    let mut out: Vec<Sample> = Vec::new();
    out.resize(count, Sample::silence());
    assert(out@ =~= silent(count as int));
    out
}

/// An overlap-save window slid by one block: the previous block becomes the
/// first half, the new block the second.
pub open spec fn slid(window: Seq<Sample>, block: Seq<Sample>) -> Seq<Sample> {
    window.skip(BLOCK as int) + block
}

fn slide(window: &Vec<Sample>, block: &Vec<Sample>) -> (r: Vec<Sample>)
    requires
        window@.len() == FFT_LEN,
        block@.len() == BLOCK,
    ensures
        r@ == slid(window@, block@),
        r@.len() == FFT_LEN,
        all_finite(window@) && all_finite(block@) ==> all_finite(r@),
{
    reveal(all_finite);
    let mut out: Vec<Sample> = Vec::new();
    let mut i: usize = BLOCK;
    while i < FFT_LEN
        invariant
            BLOCK <= i <= FFT_LEN,
            window@.len() == FFT_LEN,
            out@ == window@.subrange(BLOCK as int, i as int),
        decreases FFT_LEN - i,
    {
        out.push(window[i]);
        i += 1;
    }
    assert(out@ =~= window@.skip(BLOCK as int));
    out.extend_from_slice(block.as_slice());
    assert(out@ =~= slid(window@, block@));
    out
}

/// The coherence detector: the envelope the filter has been achieving, how far
/// the stream ordinarily falls short of it, and the two decoupled outputs read
/// from them.
#[derive(Debug, Clone, Copy, PartialEq, Eq, Structural)]
pub struct Detector {
    /// The coherence envelope, which a block is judged against. Zero until the
    /// first block that carries a prediction.
    pub baseline: Measure,
    /// The stream's mean absolute shortfall from that envelope.
    pub deviation: Measure,
    /// Whether the stream is currently in a held coherence collapse.
    pub collapsed: bool,
    /// The smoothed coherence the adaptation scale and the output-protection
    /// verdict read.
    pub smooth: Measure,
    /// The adaptation step scale for the block in hand.
    pub step_scale: Measure,
    /// Whether output protection engages for the block in hand.
    pub protect_output: bool,
    /// Whether the coherence baseline is established, after which the detector
    /// is allowed to judge blocks.
    pub established: bool,
    /// Far-active blocks seen while the baseline establishes.
    pub blocks: u32,
}

impl Detector {
    /// A detector that has not reached the establishing count is not trusted by
    /// count, the adaptation scale lies between its floor and full speed and is
    /// full speed until a baseline is established, and a collapse is held only on
    /// a baseline, with the scale at its floor and the output protected.
    pub open spec fn wf(self) -> bool {
        &&& self.blocks <= DTD_ESTABLISH_BLOCKS
        &&& (!self.established ==> self.blocks < DTD_ESTABLISH_BLOCKS)
        &&& (Measure { bits: STEP_SCALE_FLOOR_BITS }).at_most(self.step_scale)
        &&& self.step_scale.at_most(Measure { bits: FULL_SCALE_BITS })
        &&& (!self.established ==> self.step_scale == (Measure { bits: FULL_SCALE_BITS }))
        &&& (self.collapsed ==> self.established && self.protect_output && self.step_scale == (
        Measure { bits: STEP_SCALE_FLOOR_BITS }))
    }

    /// A detector that has seen nothing.
    pub open spec fn fresh() -> Detector {
        Detector {
            baseline: Measure { bits: 0 },
            deviation: Measure { bits: 0 },
            collapsed: false,
            smooth: Measure { bits: 0 },
            step_scale: Measure { bits: FULL_SCALE_BITS },
            protect_output: false,
            established: false,
            blocks: 0,
        }
    }

    /// Whether a coherence is measurable on a block at all.
    pub open spec fn measurable(reading: CoherenceReading) -> bool {
        !reading.near_energy.at_most(Measure { bits: 0 }) && !reading.estimate_energy.at_most(
            Measure { bits: 0 },
        )
    }

    /// How the envelope moves on a block: seeded by the first coherence, quickly
    /// upward, slowly downward, and not at all while the far end is quiet.
    pub open spec fn outlook(self, reading: CoherenceReading, active: bool) -> Outlook {
        if !active {
            reading.held
        } else if self.baseline.at_most(Measure { bits: 0 }) {
            reading.seeded
        } else if self.baseline.below(reading.coherence) {
            reading.raised
        } else {
            reading.decayed
        }
    }

    /// Whether the stream is in a collapse after a judged block: entered on a
    /// drop past the margin, held only while the drop stays deep.
    pub open spec fn collapses(self, reading: CoherenceReading, active: bool) -> bool {
        if !self.collapsed {
            reading.coherence.below(reading.entry_level)
        } else {
            !self.outlook(reading, active).depth.below(Measure { bits: DTD_HOLD_DEPTH_BITS })
        }
    }

    /// A scale held between its floor and full speed. One that is no number is
    /// held at the floor.
    pub open spec fn clamped(scale: Measure) -> Measure {
        if !(Measure { bits: STEP_SCALE_FLOOR_BITS }).at_most(scale) {
            Measure { bits: STEP_SCALE_FLOOR_BITS }
        } else if (Measure { bits: FULL_SCALE_BITS }).below(scale) {
            Measure { bits: FULL_SCALE_BITS }
        } else {
            scale
        }
    }

    /// Whether the baseline is established after a block that was judged before
    /// it was.
    pub open spec fn establishes(self, reading: CoherenceReading) -> bool {
        (Measure { bits: DTD_HANDOVER_COHERENCE_BITS }).at_most(reading.coherence) || self.blocks
            + 1 >= DTD_ESTABLISH_BLOCKS
    }

    /// The detector after a block's coherence judgement.
    pub open spec fn judged(self, reading: CoherenceReading, active: bool) -> Detector {
        let outlook = self.outlook(reading, active);
        let smooth = if active {
            reading.smooth
        } else {
            self.smooth
        };
        let low = smooth.below(Measure { bits: PROTECT_COHERENCE_BITS });
        if !Detector::measurable(reading) {
            self
        } else if !self.established {
            Detector {
                baseline: if active {
                    outlook.baseline
                } else {
                    self.baseline
                },
                deviation: if active {
                    outlook.deviation
                } else {
                    self.deviation
                },
                smooth,
                blocks: if active {
                    (self.blocks + 1) as u32
                } else {
                    self.blocks
                },
                established: active && self.establishes(reading),
                step_scale: Measure { bits: FULL_SCALE_BITS },
                protect_output: low,
                ..self
            }
        } else {
            let collapsed = self.collapses(reading, active);
            Detector {
                baseline: if active {
                    outlook.baseline
                } else {
                    self.baseline
                },
                deviation: if active && !collapsed {
                    outlook.deviation
                } else {
                    self.deviation
                },
                collapsed,
                smooth,
                step_scale: if collapsed {
                    Measure { bits: STEP_SCALE_FLOOR_BITS }
                } else if active {
                    Detector::clamped(reading.scale_moved)
                } else {
                    Detector::clamped(reading.scale_held)
                },
                protect_output: collapsed || low,
                ..self
            }
        }
    }

    /// Whether the judgement reports a held collapse for the block.
    pub open spec fn triggered(self, reading: CoherenceReading, active: bool) -> bool {
        Detector::measurable(reading) && self.established && self.collapses(reading, active)
    }

    /// A detector that has seen nothing.
    pub fn new() -> (r: Detector)
        ensures
            r == Detector::fresh(),
            r.wf(),
    {
        Detector {
            baseline: Measure::zero(),
            deviation: Measure::zero(),
            collapsed: false,
            smooth: Measure::zero(),
            step_scale: Measure { bits: FULL_SCALE_BITS },
            protect_output: false,
            established: false,
            blocks: 0,
        }
    }

    /// Judges one block: how much of the microphone the filter's own echo
    /// prediction accounts for, against how much it has been accounting for.
    /// Returns whether the stream is in a held collapse, and leaves the block's
    /// adaptation scale in [`step_scale`](Self::step_scale) and the
    /// output-protection verdict in [`protect_output`](Self::protect_output).
    ///
    /// The judgement waits for a baseline to establish, and adaptation runs at
    /// full speed until it has. A block with no measurable coherence leaves the
    /// scale and the verdict carried over from the last measurable one.
    pub fn judge(&mut self, reading: CoherenceReading, active: bool) -> (r: bool)
        requires
            old(self).wf(),
        ensures
            final(self).wf(),
            r == old(self).triggered(reading, active),
            *final(self) == old(self).judged(reading, active),
    {
        if reading.near_energy.is_at_most(Measure::zero()) || reading.estimate_energy.is_at_most(
            Measure::zero(),
        ) {
            return false;
        }
        if !self.established {
            if active {
                let outlook: Outlook = self.track_coherence_baseline(reading);
                // Seed the deviation and the smoothed coherence during
                // establishment, so the margin already reflects this stream's
                // own noisiness the moment the detector is trusted.
                self.deviation = outlook.deviation;
                self.smooth = reading.smooth;
                self.blocks = self.blocks + 1;
                if (Measure { bits: DTD_HANDOVER_COHERENCE_BITS }).is_at_most(reading.coherence)
                    || self.blocks >= DTD_ESTABLISH_BLOCKS {
                    self.established = true;
                }
            }
            self.step_scale = Measure { bits: FULL_SCALE_BITS };
            self.protect_output = self.smooth.is_below(Measure { bits: PROTECT_COHERENCE_BITS });
            return false;
        }
        // Whether this block falls past the margin, judged against the envelope
        // and deviation as they stood before this block.
        let entered: bool = reading.coherence.is_below(reading.entry_level);
        let outlook: Outlook = if active {
            self.track_coherence_baseline(reading)
        } else {
            reading.held
        };

        // The collapse state machine: enter on a drop past the margin, hold only
        // while the drop stays unambiguously deep, release otherwise.
        if !self.collapsed {
            if entered {
                self.collapsed = true;
            }
        } else if outlook.depth.is_below(Measure { bits: DTD_HOLD_DEPTH_BITS }) {
            self.collapsed = false;
        }

        // The deviation learns the stream's ordinary shortfall only outside
        // collapsed spans.
        if active && !self.collapsed {
            self.deviation = outlook.deviation;
        }
        if active {
            self.smooth = reading.smooth;
        }

        // The two decoupled outputs.
        let scale: Measure = if active {
            reading.scale_moved
        } else {
            reading.scale_held
        };
        self.step_scale = if self.collapsed {
            Measure { bits: STEP_SCALE_FLOOR_BITS }
        } else {
            Detector::clamp_scale(scale)
        };
        self.protect_output = self.collapsed || self.smooth.is_below(
            Measure { bits: PROTECT_COHERENCE_BITS },
        );
        self.collapsed
    }

    /// Holds a scale between its floor and full speed, one that is no number at
    /// the floor.
    fn clamp_scale(scale: Measure) -> (r: Measure)
        ensures
            r == Detector::clamped(scale),
    {
        if !(Measure { bits: STEP_SCALE_FLOOR_BITS }).is_at_most(scale) {
            Measure { bits: STEP_SCALE_FLOOR_BITS }
        } else if (Measure { bits: FULL_SCALE_BITS }).is_below(scale) {
            Measure { bits: FULL_SCALE_BITS }
        } else {
            scale
        }
    }

    /// Moves the coherence baseline toward an observation: quickly upward and
    /// slowly downward.
    fn track_coherence_baseline(&mut self, reading: CoherenceReading) -> (r: Outlook)
        ensures
            r == old(self).outlook(reading, true),
            *final(self) == (Detector { baseline: r.baseline, ..*old(self) }),
    {
        let outlook: Outlook = if self.baseline.is_at_most(Measure::zero()) {
            reading.seeded
        } else if self.baseline.is_below(reading.coherence) {
            reading.raised
        } else {
            reading.decayed
        };
        self.baseline = outlook.baseline;
        outlook
    }
}

/// The canceller's framing, detector and decisions. See the module
/// documentation.
pub struct TauCanceller {
    /// What the block in hand waits for.
    pub awaits: BlockStep,
    /// The number of filter partitions, `ceil(taps / BLOCK)` from the tail.
    pub partitions: usize,
    /// The ring slot of the newest far-end block spectrum.
    pub head: usize,
    /// The overlap-save far-end window: the previous block followed by the
    /// current one.
    pub far_window: Vec<Sample>,
    /// Near-end samples accumulated toward the next full block.
    pub near_carry: Vec<Sample>,
    /// Far-end samples accumulated toward the next full block, in step with
    /// [`near_carry`](Self::near_carry).
    pub far_carry: Vec<Sample>,
    /// How many leading samples of the block in hand the caller supplied:
    /// [`BLOCK`] for a streaming block, the shorter remainder for the flush
    /// block.
    pub valid: usize,
    /// Whether the block in hand may be adapted on. False for the flush block,
    /// whose padded tails are not a usable gradient.
    pub adapt: bool,
    /// Whether the shadow filter's error went non-finite on the block in hand.
    pub shadow_diverged: bool,
    /// Whether the delivered error went non-finite on the block in hand.
    pub diverged: bool,
    /// Whether the far end actually drove the block in hand.
    pub far_is_active: bool,
    /// Whether the shadow was rewound on the block in hand.
    pub rescued: bool,
    /// Whether the block just processed was judged to plausibly carry a near-end
    /// talker (a collapse, or output protection engaged).
    pub double_talk: bool,
    /// The coherence detector.
    pub detector: Detector,
    /// The shadow filter's error for the current block, the adaptation
    /// gradient's source.
    pub shadow_error_block: Vec<Sample>,
    /// Smoothed block error power of the shadow filter over established
    /// far-active blocks, one side of the two-path comparison.
    pub shadow_error_power: Measure,
    /// Smoothed block error power of the output filter over the same blocks.
    pub output_error_power: Measure,
    /// Consecutive quiet (no collapse, no protection) established far-active
    /// blocks, the transfer's persistence gate.
    pub quiet_streak: u32,
    /// Consecutive qualifying blocks toward a shadow rescue.
    pub rescue_streak: u32,
    /// Blocks on which the output filter moved toward the shadow, since
    /// construction.
    pub transfers: u64,
    /// The largest single-block far-end energy seen.
    pub far_energy_peak: Measure,
    /// Smoothed near-end block power for the divergence guard.
    pub divergence_near_power: Measure,
    /// Smoothed output block power for the divergence guard.
    pub divergence_out_power: Measure,
    /// Smoothed near-end power for the ERLE estimate.
    pub near_power: Measure,
    /// Smoothed residual power for the ERLE estimate.
    pub residual_power: Measure,
    /// Times the divergence guard has reset a filter since construction.
    /// Deliberately survives [`reset`](TauCanceller::reset), as the metric is
    /// documented as a since-construction count.
    pub divergence_resets: u64,
    /// The current block's error samples, the linear filter's output.
    pub error_block: Vec<Sample>,
    /// The current block's delivered output samples.
    pub output_block: Vec<Sample>,
    /// The configured residual suppression.
    pub suppression: Suppression,
    /// Whether any far-end block has carried energy. Until one has, there is no
    /// echo to suppress and the suppressor is bypassed entirely.
    pub far_active: bool,
    /// The suppressor's overlap-save error window: the previous error block
    /// followed by the current one.
    pub error_window: Vec<Sample>,
}

impl TauCanceller {
    /// The geometry is fixed, the two carries run in step, the newest spectrum
    /// sits in a ring slot, and an open block is a full one whose counters have
    /// room to the end of it.
    pub open spec fn wf(self) -> bool {
        &&& 1 <= self.partitions <= 0x7fff_ffff
        &&& self.head < self.partitions
        &&& self.far_window@.len() == FFT_LEN
        &&& self.near_carry@.len() <= BLOCK
        &&& self.far_carry@.len() == self.near_carry@.len()
        &&& all_finite(self.near_carry@)
        &&& all_finite(self.far_carry@)
        &&& all_finite(self.far_window@)
        &&& self.valid <= BLOCK
        &&& self.shadow_error_block@.len() == BLOCK
        &&& self.error_block@.len() == BLOCK
        &&& self.output_block@.len() == BLOCK
        &&& self.error_window@.len() == FFT_LEN
        &&& self.detector.wf()
        &&& self.rescue_streak < RESCUE_STREAK_BLOCKS
        &&& (!(self.awaits is Fill) ==> self.ready())
        &&& self.divergence_resets + self.awaits.resets_left() <= u64::MAX
        &&& (self.awaits.comparison_ahead() ==> self.quiet_streak < u32::MAX && self.transfers
            < u64::MAX)
    }

    /// Whether the block counters have room for one more block.
    pub open spec fn has_room(self) -> bool {
        &&& self.quiet_streak < u32::MAX
        &&& self.transfers < u64::MAX
        &&& self.divergence_resets <= u64::MAX - 4
    }

    /// Whether a full block is in hand.
    pub open spec fn ready(self) -> bool {
        self.near_carry@.len() == BLOCK
    }

    /// The slot in the ring of far-end block spectra that a partition reads:
    /// partition zero the newest block, each further one a block older.
    pub open spec fn slot_of(self, partition: int) -> int {
        (self.head + self.partitions - partition) % self.partitions as int
    }

    /// Whether two cancellers are in the same state in every respect but the two
    /// counts kept since construction.
    pub open spec fn alike(self, other: TauCanceller) -> bool {
        &&& self.far_window@ == other.far_window@
        &&& self.near_carry@ == other.near_carry@
        &&& self.far_carry@ == other.far_carry@
        &&& self.shadow_error_block@ == other.shadow_error_block@
        &&& self.error_block@ == other.error_block@
        &&& self.output_block@ == other.output_block@
        &&& self.error_window@ == other.error_window@
        &&& other == (TauCanceller {
            far_window: other.far_window,
            near_carry: other.near_carry,
            far_carry: other.far_carry,
            shadow_error_block: other.shadow_error_block,
            error_block: other.error_block,
            output_block: other.output_block,
            error_window: other.error_window,
            transfers: other.transfers,
            divergence_resets: other.divergence_resets,
            ..self
        })
    }

    /// The state construction leaves, apart from the geometry and the two counts
    /// kept since construction.
    pub open spec fn pristine(self) -> bool {
        &&& self.awaits is Fill
        &&& self.head == self.partitions - 1
        &&& self.far_window@ == silent(FFT_LEN as int)
        &&& self.near_carry@ == Seq::<Sample>::empty()
        &&& self.far_carry@ == Seq::<Sample>::empty()
        &&& !self.double_talk
        &&& self.detector == Detector::fresh()
        &&& self.shadow_error_power == (Measure { bits: 0 })
        &&& self.output_error_power == (Measure { bits: 0 })
        &&& self.quiet_streak == 0
        &&& self.rescue_streak == 0
        &&& self.far_energy_peak == (Measure { bits: 0 })
        &&& self.divergence_near_power == (Measure { bits: 0 })
        &&& self.divergence_out_power == (Measure { bits: 0 })
        &&& self.near_power == (Measure { bits: 0 })
        &&& self.residual_power == (Measure { bits: 0 })
        &&& !self.far_active
        &&& self.error_window@ == silent(FFT_LEN as int)
        &&& self.valid == 0
        &&& !self.adapt
        &&& !self.shadow_diverged
        &&& !self.diverged
        &&& !self.far_is_active
        &&& !self.rescued
        &&& self.shadow_error_block@ == silent(BLOCK as int)
        &&& self.error_block@ == silent(BLOCK as int)
        &&& self.output_block@ == silent(BLOCK as int)
    }

    /// The partitions a tail needs: as many blocks as hold its taps, of which there
    /// is at least one.
    pub open spec fn partitions_for(sample_rate: u32, tail_ms: u16) -> int {
        let taps = crate::timing::samples_in_at_least_one(tail_ms as int, sample_rate as int);
        (taps + BLOCK - 1) / BLOCK as int
    }

    /// Constructs the canceller for a validated geometry: a `tail_ms` tail at
    /// `sample_rate`, partitioned into [`BLOCK`]-sample blocks. A degenerate
    /// geometry still gets one partition rather than an empty filter.
    pub fn new(sample_rate: u32, tail_ms: u16, suppression: Suppression) -> (r: TauCanceller)
        ensures
            r.wf(),
            r.pristine(),
            r.partitions == TauCanceller::partitions_for(sample_rate, tail_ms),
            ({
                let taps = crate::timing::samples_in_at_least_one(
                    tail_ms as int,
                    sample_rate as int,
                );
                (r.partitions - 1) * BLOCK < taps <= r.partitions * BLOCK
            }),
            r.suppression == suppression,
            r.transfers == 0,
            r.divergence_resets == 0,
    {
        reveal(all_finite);
        let samples: u64 = ms_to_samples(tail_ms, sample_rate);
        let taps: u64 = if samples < 1 {
            1
        } else {
            samples
        };
        let partitions: usize = ((taps + 255) / 256) as usize;
        let r = TauCanceller {
            awaits: BlockStep::Fill,
            partitions,
            // The first block advances to slot zero, so a fresh and a reset
            // instance start from the identical state.
            head: partitions - 1,
            far_window: silence_block(FFT_LEN),
            near_carry: Vec::new(),
            far_carry: Vec::new(),
            valid: 0,
            adapt: false,
            shadow_diverged: false,
            diverged: false,
            far_is_active: false,
            rescued: false,
            double_talk: false,
            detector: Detector::new(),
            shadow_error_block: silence_block(BLOCK),
            shadow_error_power: Measure::zero(),
            output_error_power: Measure::zero(),
            quiet_streak: 0,
            rescue_streak: 0,
            transfers: 0,
            far_energy_peak: Measure::zero(),
            divergence_near_power: Measure::zero(),
            divergence_out_power: Measure::zero(),
            near_power: Measure::zero(),
            residual_power: Measure::zero(),
            divergence_resets: 0,
            error_block: silence_block(BLOCK),
            output_block: silence_block(BLOCK),
            suppression,
            far_active: false,
            error_window: silence_block(FFT_LEN),
        };
        r
    }

    /// What the block in hand waits for.
    pub fn awaits(&self) -> (r: BlockStep)
        ensures
            r == self.awaits,
    {
        self.awaits
    }

    /// The number of filter partitions the configured tail produced.
    pub fn partitions(&self) -> (r: usize)
        ensures
            r == self.partitions,
    {
        self.partitions
    }

    /// Transfer blocks since construction: how many blocks the output filter has
    /// moved toward the shadow on. Zero on a stream where the shadow never
    /// earned the output, which is the two-path structure's do-no-harm property
    /// in one number.
    pub fn transfers(&self) -> (r: u64)
        ensures
            r == self.transfers,
    {
        self.transfers
    }

    /// One block: the framing granularity of the partitioned filter.
    ///
    /// This is a buffering budget, not an index shift. The `n`-th appended
    /// output sample is the cancelled `n`-th near-end sample and a consumer must
    /// not re-align by this value.
    pub fn latency_samples(&self) -> (r: usize)
        ensures
            r == BLOCK,
    {
        BLOCK
    }

    /// Whether the block counters have room for one more block.
    pub fn has_room_for_block(&self) -> (r: bool)
        ensures
            r == self.has_room(),
    {
        self.quiet_streak < u32::MAX && self.transfers < u64::MAX && self.divergence_resets
            <= u64::MAX - 4
    }

    /// Whether `self` is `before` with the front of a chunk accepted, up to the end
    /// of the block under construction.
    pub open spec fn accepted_from(
        self,
        before: TauCanceller,
        near: Seq<Sample>,
        far: Seq<Sample>,
    ) -> bool {
        let take = taken(before.near_carry@.len() as int, near.len() as int);
        &&& self.near_carry@ == before.near_carry@ + crate::sample::sanitized_seq(near.take(take))
        &&& self.far_carry@ == before.far_carry@ + crate::sample::sanitized_seq(far.take(take))
        &&& self == (TauCanceller {
            near_carry: self.near_carry,
            far_carry: self.far_carry,
            ..before
        })
    }

    /// Accepts aligned near and far samples up to the end of the block under
    /// construction, and reports how many it took. A non-finite sample is taken
    /// as silence, so the damage is bounded to the offending sample.
    pub fn accept(&mut self, near: &[Sample], far: &[Sample]) -> (r: usize)
        requires
            old(self).wf(),
            old(self).awaits is Fill,
            near@.len() == far@.len(),
        ensures
            final(self).wf(),
            r == taken(old(self).near_carry@.len() as int, near@.len() as int),
            final(self).accepted_from(*old(self), near@, far@),
    {
        reveal(all_finite);
        let ghost start = *self;
        let mut i: usize = 0;
        assert(start.near_carry@ + crate::sample::sanitized_seq(near@.take(0))
            =~= start.near_carry@);
        assert(start.far_carry@ + crate::sample::sanitized_seq(far@.take(0)) =~= start.far_carry@);
        while i < near.len() && self.near_carry.len() < BLOCK
            invariant
                start.wf(),
                start.awaits is Fill,
                self.wf(),
                near@.len() == far@.len(),
                i <= near@.len(),
                self.near_carry@ == start.near_carry@ + crate::sample::sanitized_seq(
                    near@.take(i as int),
                ),
                self.far_carry@ == start.far_carry@ + crate::sample::sanitized_seq(
                    far@.take(i as int),
                ),
                *self == (TauCanceller {
                    near_carry: self.near_carry,
                    far_carry: self.far_carry,
                    ..start
                }),
            decreases near@.len() - i,
        {
            let n: Sample = if near[i].is_finite() {
                near[i]
            } else {
                Sample::silence()
            };
            let f: Sample = if far[i].is_finite() {
                far[i]
            } else {
                Sample::silence()
            };
            self.near_carry.push(n);
            self.far_carry.push(f);
            i += 1;
            reveal(all_finite);
            assert(self.near_carry@ =~= start.near_carry@ + crate::sample::sanitized_seq(
                near@.take(i as int),
            ));
            assert(self.far_carry@ =~= start.far_carry@ + crate::sample::sanitized_seq(
                far@.take(i as int),
            ));
        }
        i
    }

    /// Whether a full block is in hand.
    pub fn block_ready(&self) -> (r: bool)
        ensures
            r == self.ready(),
    {
        self.near_carry.len() == BLOCK
    }

    /// Whether `self` is `before` with its remainder padded to a full block.
    pub open spec fn padded_from(self, before: TauCanceller) -> bool {
        &&& self.near_carry@ == padded(before.near_carry@)
        &&& self.far_carry@ == padded(before.far_carry@)
        &&& self == (TauCanceller {
            near_carry: self.near_carry,
            far_carry: self.far_carry,
            ..before
        })
    }

    /// Pads the end-of-stream remainder with silence to a full block and reports
    /// how many samples the caller had supplied. Nothing is padded when there is
    /// no remainder.
    pub fn pad(&mut self) -> (r: usize)
        requires
            old(self).wf(),
            old(self).awaits is Fill,
        ensures
            final(self).wf(),
            r == old(self).near_carry@.len(),
            r == 0 ==> *final(self) == *old(self),
            r > 0 ==> final(self).padded_from(*old(self)) && final(self).ready(),
    {
        reveal(all_finite);
        let remainder: usize = self.near_carry.len();
        if remainder == 0 {
            return 0;
        }
        self.near_carry.resize(BLOCK, Sample::silence());
        self.far_carry.resize(BLOCK, Sample::silence());
        assert(self.near_carry@ =~= padded(old(self).near_carry@));
        assert(self.far_carry@ =~= padded(old(self).far_carry@));
        remainder
    }

    /// Whether `self` is `before` with the block in hand opened.
    pub open spec fn opened_from(self, before: TauCanceller, valid: usize, adapt: bool) -> bool {
        &&& self.far_window@ == slid(before.far_window@, before.far_carry@)
        &&& self.head == (if before.head + 1 == before.partitions {
            0
        } else {
            before.head + 1
        })
        &&& self == (TauCanceller {
            awaits: BlockStep::ShadowError,
            far_window: self.far_window,
            head: self.head,
            far_active: before.far_active || any_sound(before.far_carry@),
            valid,
            adapt,
            shadow_diverged: false,
            diverged: false,
            far_is_active: false,
            rescued: false,
            ..before
        })
    }

    /// Opens the block in hand: slides the overlap-save window over its far-end
    /// half, notes whether the far end has ever carried energy, and advances the
    /// ring of far-end spectra. `valid` is how many leading samples the caller
    /// supplied and `adapt` is false for the flush block.
    pub fn open_block(&mut self, valid: usize, adapt: bool)
        requires
            old(self).wf(),
            old(self).awaits is Fill,
            old(self).ready(),
            old(self).has_room(),
            valid <= BLOCK,
        ensures
            final(self).wf(),
            final(self).opened_from(*old(self), valid, adapt),
            final(self).ready(),
    {
        self.far_window = slide(&self.far_window, &self.far_carry);
        if has_sound(&self.far_carry) {
            self.far_active = true;
        }
        self.head = if self.head + 1 == self.partitions {
            0
        } else {
            self.head + 1
        };
        self.valid = valid;
        self.adapt = adapt;
        self.shadow_diverged = false;
        self.diverged = false;
        self.far_is_active = false;
        self.rescued = false;
        self.awaits = BlockStep::ShadowError;
    }

    /// The slot in the ring of far-end block spectra that a partition reads.
    pub fn slot(&self, partition: usize) -> (r: usize)
        requires
            self.wf(),
            partition < self.partitions,
        ensures
            r == self.slot_of(partition as int),
            r < self.partitions,
    {
        (self.head + self.partitions - partition) % self.partitions
    }

    /// Counts a shadow divergence: the recovery path for a shadow that has gone
    /// non-finite while the output filter is still sound. The host zeroes the
    /// shadow; the output path is untouched, so the listener never hears it.
    fn diverge_shadow(&mut self)
        requires
            old(self).divergence_resets < u64::MAX,
        ensures
            *final(self) == (TauCanceller {
                shadow_error_power: old(self).output_error_power,
                rescue_streak: 0,
                divergence_resets: (old(self).divergence_resets + 1) as u64,
                ..*old(self)
            }),
    {
        self.shadow_error_power = self.output_error_power;
        self.rescue_streak = 0;
        self.divergence_resets = self.divergence_resets + 1;
    }

    /// Whether `self` is `before` with the shadow filter's error taken: the error
    /// itself, or the near block and a divergence when it is not finite.
    pub open spec fn shadow_taken_from(self, before: TauCanceller, error: Seq<Sample>) -> bool {
        if all_finite(error) {
            self.shadow_error_block@ == error && self == (TauCanceller {
                awaits: BlockStep::OutputError,
                shadow_error_block: self.shadow_error_block,
                shadow_diverged: false,
                ..before
            })
        } else {
            self.shadow_error_block@ == before.near_carry@ && self == (TauCanceller {
                awaits: BlockStep::OutputError,
                shadow_error_block: self.shadow_error_block,
                shadow_diverged: true,
                shadow_error_power: before.output_error_power,
                rescue_streak: 0,
                divergence_resets: (before.divergence_resets + 1) as u64,
                ..before
            })
        }
    }

    /// Takes the shadow filter's error for the block in hand. A non-finite one
    /// zeroes the shadow and leaves the near block as its error; the answer says
    /// whether the host must zero it.
    pub fn take_shadow_error(&mut self, error: &[Sample]) -> (r: bool)
        requires
            old(self).wf(),
            old(self).awaits is ShadowError,
            error@.len() == BLOCK,
        ensures
            final(self).wf(),
            r == !all_finite(error@),
            final(self).shadow_taken_from(*old(self), error@),
            all_finite(final(self).shadow_error_block@),
    {
        self.shadow_diverged = !is_all_finite(error);
        if self.shadow_diverged {
            self.diverge_shadow();
            self.shadow_error_block = copied(self.near_carry.as_slice());
        } else {
            self.shadow_error_block = copied(error);
        }
        self.awaits = BlockStep::OutputError;
        self.shadow_diverged
    }

    /// Whether `self` is `before` with the output filter's error taken: the error
    /// itself, or silence and a divergence when it is not finite.
    pub open spec fn output_taken_from(self, before: TauCanceller, error: Seq<Sample>) -> bool {
        if all_finite(error) {
            self.error_block@ == error && self == (TauCanceller {
                awaits: BlockStep::FarEnergy,
                error_block: self.error_block,
                diverged: false,
                ..before
            })
        } else {
            self.error_block@ == silent(BLOCK as int) && self == (TauCanceller {
                awaits: BlockStep::FarEnergy,
                error_block: self.error_block,
                diverged: true,
                shadow_error_power: (Measure { bits: 0 }),
                output_error_power: (Measure { bits: 0 }),
                rescue_streak: 0,
                divergence_resets: (before.divergence_resets + 1) as u64,
                ..before
            })
        }
    }

    /// Takes the output filter's error for the block in hand. A non-finite one
    /// means the output path itself is compromised: both filters restart and the
    /// block is rendered silent; the answer says whether the host must restart
    /// them.
    pub fn take_output_error(&mut self, error: &[Sample]) -> (r: bool)
        requires
            old(self).wf(),
            old(self).awaits is OutputError,
            error@.len() == BLOCK,
        ensures
            final(self).wf(),
            r == !all_finite(error@),
            final(self).output_taken_from(*old(self), error@),
            all_finite(final(self).error_block@),
    {
        self.diverged = !is_all_finite(error);
        if self.diverged {
            self.diverge();
            self.error_block = silence_block(BLOCK);
        } else {
            self.error_block = copied(error);
        }
        self.awaits = BlockStep::FarEnergy;
        self.diverged
    }

    /// Counts a divergence that restarts both filters: the recovery path from a
    /// non-finite delivered error.
    fn diverge(&mut self)
        requires
            old(self).divergence_resets < u64::MAX,
        ensures
            *final(self) == (TauCanceller {
                shadow_error_power: (Measure { bits: 0 }),
                output_error_power: (Measure { bits: 0 }),
                rescue_streak: 0,
                divergence_resets: (old(self).divergence_resets + 1) as u64,
                ..*old(self)
            }),
    {
        self.shadow_error_power = Measure::zero();
        self.output_error_power = Measure::zero();
        self.rescue_streak = 0;
        self.divergence_resets = self.divergence_resets + 1;
    }

    /// The largest far-end block energy, this block's included.
    pub open spec fn energy_peak_with(self, block_energy: Measure) -> Measure {
        if self.far_energy_peak.below(block_energy) {
            block_energy
        } else {
            self.far_energy_peak
        }
    }

    /// The canceller with the block's far-end energy noted.
    pub open spec fn energy_noted(self, block_energy: Measure) -> TauCanceller {
        TauCanceller {
            awaits: BlockStep::FarActivity,
            far_energy_peak: self.energy_peak_with(block_energy),
            ..self
        }
    }

    /// Notes the far-end energy of the block in hand against its own running
    /// peak, so that activity is a measure of activity and not of level, and
    /// returns that peak.
    pub fn note_far_energy(&mut self, block_energy: Measure) -> (r: Measure)
        requires
            old(self).wf(),
            old(self).awaits is FarEnergy,
        ensures
            final(self).wf(),
            r == old(self).energy_peak_with(block_energy),
            *final(self) == old(self).energy_noted(block_energy),
    {
        if self.far_energy_peak.is_below(block_energy) {
            self.far_energy_peak = block_energy;
        }
        self.awaits = BlockStep::FarActivity;
        self.far_energy_peak
    }

    /// The canceller with the block's far-end activity decided.
    pub open spec fn activity_judged(
        self,
        block_energy: Measure,
        share_of_peak: Measure,
    ) -> TauCanceller {
        TauCanceller {
            awaits: BlockStep::Coherence,
            far_is_active: (Measure { bits: 0 }).below(self.far_energy_peak)
                && share_of_peak.below(block_energy),
            ..self
        }
    }

    /// Decides whether the far end actually drove the block in hand: its energy
    /// stands above the given share of the running peak.
    pub fn judge_far_activity(&mut self, block_energy: Measure, share_of_peak: Measure) -> (r: bool)
        requires
            old(self).wf(),
            old(self).awaits is FarActivity,
        ensures
            final(self).wf(),
            r == final(self).far_is_active,
            *final(self) == old(self).activity_judged(block_energy, share_of_peak),
    {
        self.far_is_active = Measure::zero().is_below(self.far_energy_peak)
            && share_of_peak.is_below(block_energy);
        self.awaits = BlockStep::Coherence;
        self.far_is_active
    }

    /// The canceller with the block's coherence judged.
    pub open spec fn coherence_judged(self, reading: CoherenceReading) -> TauCanceller {
        let detector = self.detector.judged(reading, self.far_is_active);
        TauCanceller {
            awaits: BlockStep::Paths,
            detector,
            double_talk: self.detector.triggered(reading, self.far_is_active)
                || detector.protect_output,
            ..self
        }
    }

    /// The per-block coherence judgement. Returns whether the stream is in a held
    /// collapse, and sets the [`double_talk`](Self::double_talk) metric to the
    /// union of the collapse and output protection: every block the
    /// canceller treated as plausibly carrying a near-end talker. See
    /// [`Detector::judge`].
    pub fn double_talk_block(&mut self, reading: CoherenceReading) -> (r: bool)
        requires
            old(self).wf(),
            old(self).awaits is Coherence,
        ensures
            final(self).wf(),
            r == old(self).detector.triggered(reading, old(self).far_is_active),
            *final(self) == old(self).coherence_judged(reading),
    {
        let mut detector: Detector = self.detector;
        let collapsed: bool = detector.judge(reading, self.far_is_active);
        self.detector = detector;
        self.double_talk = collapsed || self.detector.protect_output;
        self.awaits = BlockStep::Paths;
        collapsed
    }

    /// Whether the block in hand takes part in the two-path comparison.
    pub open spec fn comparing(self) -> bool {
        self.adapt && !self.diverged && self.far_is_active && self.detector.established
    }

    /// The quiet streak with the block in hand counted.
    pub open spec fn quiet_run(self) -> int {
        if !self.detector.collapsed && !self.detector.protect_output {
            self.quiet_streak + 1
        } else {
            0
        }
    }

    /// The rescue streak with the block in hand counted.
    pub open spec fn rescue_run(self, reading: PathReading) -> int {
        if reading.rescue_level.below(reading.shadow_power) {
            self.rescue_streak + 1
        } else {
            0
        }
    }

    /// What the comparison does to the filters.
    pub open spec fn path_move(self, reading: PathReading) -> PathMove {
        if !self.comparing() {
            PathMove::Stay
        } else if self.rescue_run(reading) >= RESCUE_STREAK_BLOCKS {
            PathMove::Rescue
        } else if self.quiet_run() >= TRANSFER_QUIET_STREAK_BLOCKS && (Measure {
            bits: 0,
        }).below(reading.output_power) && (Measure {
            bits: TRANSFER_MIN_ADVANTAGE_BITS,
        }).at_most(reading.advantage) {
            PathMove::Transfer
        } else {
            PathMove::Stay
        }
    }

    /// The canceller with both filters' error powers taken and the streaks
    /// carried on.
    pub open spec fn weighed(self, reading: PathReading) -> TauCanceller {
        let moved = self.path_move(reading);
        if !self.comparing() {
            self
        } else {
            TauCanceller {
                shadow_error_power: if moved is Rescue {
                    reading.output_power
                } else {
                    reading.shadow_power
                },
                output_error_power: reading.output_power,
                quiet_streak: self.quiet_run() as u32,
                rescue_streak: if moved is Rescue {
                    0
                } else {
                    self.rescue_run(reading) as u32
                },
                rescued: self.rescued || moved is Rescue,
                transfers: if moved is Transfer {
                    (self.transfers + 1) as u64
                } else {
                    self.transfers
                },
                ..self
            }
        }
    }

    /// Whether the shadow adapts on the block in hand.
    pub open spec fn adapting(self) -> bool {
        self.adapt && !self.diverged && !self.shadow_diverged && !self.rescued
    }

    /// The canceller after the two-path comparison: the shadow's update comes
    /// next when it adapts, and is passed over when it does not.
    pub open spec fn compared(self, reading: PathReading) -> TauCanceller {
        TauCanceller {
            awaits: if self.weighed(reading).adapting() {
                BlockStep::ShadowUpdate
            } else {
                BlockStep::ErrorWindow
            },
            ..self.weighed(reading)
        }
    }

    /// The two-path comparison: whether the shadow has earned the output.
    ///
    /// Both filters saw the same block, so their error powers are directly
    /// comparable. The transfer needs both persistence (a quiet streak) and
    /// advantage. A rescue is the reverse copy: a shadow persistently far behind
    /// the output filter restarts from the best known state.
    pub fn compare_paths(&mut self, reading: PathReading) -> (r: PathMove)
        requires
            old(self).wf(),
            old(self).awaits is Paths,
        ensures
            final(self).wf(),
            r == old(self).path_move(reading),
            *final(self) == old(self).compared(reading),
    {
        let moved: PathMove = self.weigh_paths(reading);
        self.awaits = if self.adapts() {
            BlockStep::ShadowUpdate
        } else {
            BlockStep::ErrorWindow
        };
        moved
    }

    /// Weighs the two filters' error powers and carries the streaks. See
    /// [`compare_paths`](TauCanceller::compare_paths).
    fn weigh_paths(&mut self, reading: PathReading) -> (r: PathMove)
        requires
            old(self).wf(),
            old(self).awaits is Paths,
        ensures
            r == old(self).path_move(reading),
            *final(self) == old(self).weighed(reading),
    {
        if !(self.adapt && !self.diverged && self.far_is_active && self.detector.established) {
            return PathMove::Stay;
        }
        self.shadow_error_power = reading.shadow_power;
        self.output_error_power = reading.output_power;
        let quiet: bool = !self.detector.collapsed && !self.detector.protect_output;
        self.quiet_streak = if quiet {
            self.quiet_streak + 1
        } else {
            0
        };
        self.rescue_streak = if reading.rescue_level.is_below(reading.shadow_power) {
            self.rescue_streak + 1
        } else {
            0
        };
        if self.rescue_streak >= RESCUE_STREAK_BLOCKS {
            self.shadow_error_power = self.output_error_power;
            self.rescue_streak = 0;
            self.rescued = true;
            return PathMove::Rescue;
        }
        if self.quiet_streak >= TRANSFER_QUIET_STREAK_BLOCKS && Measure::zero().is_below(
            self.output_error_power,
        ) && (Measure { bits: TRANSFER_MIN_ADVANTAGE_BITS }).is_at_most(reading.advantage) {
            self.transfers = self.transfers + 1;
            return PathMove::Transfer;
        }
        PathMove::Stay
    }

    /// Whether the residual suppressor shapes the block in hand.
    pub open spec fn shapes(self) -> bool {
        self.suppression is Conservative && self.far_active && !self.diverged
    }

    /// Whether the residual suppressor shapes the block in hand: it is
    /// configured, the far end has carried energy, and the output path is sound.
    /// With nothing to suppress it is bypassed entirely.
    pub fn suppresses(&self) -> (r: bool)
        ensures
            r == self.shapes(),
    {
        self.suppression == Suppression::Conservative && self.far_active && !self.diverged
    }

    /// Whether the shadow adapts on the block in hand. Adaptation is never
    /// frozen outright: the update is skipped only on the flush block, after a
    /// divergence, and on a rescue, whose error belongs to the state just
    /// discarded.
    pub fn adapts(&self) -> (r: bool)
        ensures
            r == self.adapting(),
    {
        self.adapt && !self.diverged && !self.shadow_diverged && !self.rescued
    }

    /// The gain the suppressor aims a bin at: untouched while output protection
    /// is engaged or the bin carries nothing, and otherwise the share of the bin
    /// that is not residual echo, held between the gain floor and one.
    pub open spec fn suppression_target(self, power: Measure, share: Measure) -> Measure {
        let floor = Measure { bits: MIN_SUPPRESSION_GAIN_BITS };
        let one = Measure { bits: FULL_SCALE_BITS };
        if self.detector.protect_output || power.at_most(Measure { bits: 0 }) {
            one
        } else if share.below(floor) {
            floor
        } else if one.below(share) {
            one
        } else {
            share
        }
    }

    /// The gain the suppressor aims a bin at. `power` is the bin's error power
    /// with the residual echo it is assumed to carry, and `share` the error's part
    /// of it. While output protection is engaged the suppressor stands down, so it
    /// only ever acts on spans believed to be echo alone.
    pub fn gain_target(&self, power: Measure, share: Measure) -> (r: Measure)
        ensures
            r == self.suppression_target(power, share),
    {
        let floor: Measure = Measure { bits: MIN_SUPPRESSION_GAIN_BITS };
        let one: Measure = Measure { bits: FULL_SCALE_BITS };
        if self.detector.protect_output || power.is_at_most(Measure::zero()) {
            one
        } else if share.is_below(floor) {
            floor
        } else if one.is_below(share) {
            one
        } else {
            share
        }
    }

    /// The canceller with the shadow's update noted, finite or not.
    pub open spec fn update_noted(self, finite: bool) -> TauCanceller {
        if finite {
            TauCanceller { awaits: BlockStep::ErrorWindow, ..self }
        } else {
            TauCanceller {
                awaits: BlockStep::ErrorWindow,
                shadow_error_power: self.output_error_power,
                rescue_streak: 0,
                divergence_resets: (self.divergence_resets + 1) as u64,
                ..self
            }
        }
    }

    /// Notes whether the updated shadow is still finite. One that is not is
    /// zeroed by the host and counted.
    pub fn note_shadow_update(&mut self, finite: bool)
        requires
            old(self).wf(),
            old(self).awaits is ShadowUpdate,
        ensures
            final(self).wf(),
            *final(self) == old(self).update_noted(finite),
    {
        if !finite {
            self.diverge_shadow();
        }
        self.awaits = BlockStep::ErrorWindow;
    }

    /// Whether `self` is `before` with the suppressor's window slid over the block.
    pub open spec fn window_slid_from(self, before: TauCanceller) -> bool {
        &&& self.error_window@ == slid(before.error_window@, before.error_block@)
        &&& self == (TauCanceller {
            awaits: BlockStep::Delivery,
            error_window: self.error_window,
            ..before
        })
    }

    /// Slides the suppressor's own overlap-save window over the error stream,
    /// regardless of whether the stage is enabled, so enabling it mid-stream
    /// never sees a stale previous block.
    pub fn slide_error_window(&mut self)
        requires
            old(self).wf(),
            old(self).awaits is ErrorWindow,
        ensures
            final(self).wf(),
            final(self).window_slid_from(*old(self)),
    {
        self.error_window = slide(&self.error_window, &self.error_block);
        self.awaits = BlockStep::Delivery;
    }

    /// The delivered block: the suppressor's output when it shapes the block, the
    /// linear filter's error otherwise.
    pub open spec fn shaped(self, suppressed: Seq<Sample>) -> Seq<Sample> {
        if self.shapes() {
            suppressed
        } else {
            self.error_block@
        }
    }

    /// The delivered block once the divergence guard has tripped on it: the near
    /// end the caller supplied.
    pub open spec fn retired(self, output: Seq<Sample>) -> Seq<Sample> {
        self.near_carry@.take(self.valid as int) + output.skip(self.valid as int)
    }

    /// Whether `self` is `before` with the delivered block set.
    pub open spec fn delivery_set_from(
        self,
        before: TauCanceller,
        suppressed: Seq<Sample>,
    ) -> bool {
        &&& self.output_block@ == before.shaped(suppressed)
        &&& self == (TauCanceller {
            awaits: BlockStep::Guard,
            output_block: self.output_block,
            ..before
        })
    }

    /// Sets the delivered block: the suppressor's output when it shaped the
    /// block, the linear filter's error untouched when it did not.
    pub fn deliver(&mut self, suppressed: &[Sample])
        requires
            old(self).wf(),
            old(self).awaits is Delivery,
            suppressed@.len() == BLOCK,
        ensures
            final(self).wf(),
            final(self).delivery_set_from(*old(self), suppressed@),
    {
        if self.suppresses() {
            self.output_block = copied(suppressed);
        } else {
            self.output_block = copied(self.error_block.as_slice());
        }
        self.awaits = BlockStep::Guard;
    }

    /// Whether the divergence guard trips on a reading: the output sustains more
    /// energy than the near end it was given.
    pub open spec fn trips(reading: GuardReading) -> bool {
        (Measure { bits: 0 }).below(reading.near_power) && reading.limit.below(reading.out_power)
    }

    /// Whether `self` is `before` with the divergence guard passed: untouched on a
    /// block the caller supplied nothing of, the powers taken on any other, and the
    /// near end delivered in place of the output when the guard trips.
    pub open spec fn guarded_from(self, before: TauCanceller, reading: GuardReading) -> bool {
        if before.valid == 0 {
            self == (TauCanceller { awaits: BlockStep::Close, ..before })
        } else if !TauCanceller::trips(reading) {
            self == (TauCanceller {
                awaits: BlockStep::Close,
                divergence_near_power: reading.near_power,
                divergence_out_power: reading.out_power,
                ..before
            })
        } else {
            &&& self.output_block@ == before.retired(before.output_block@)
            &&& self == (TauCanceller {
                awaits: BlockStep::Close,
                output_block: self.output_block,
                divergence_near_power: reading.near_power,
                divergence_out_power: reading.near_power,
                output_error_power: reading.near_power,
                rescue_streak: 0,
                divergence_resets: (before.divergence_resets + 1) as u64,
                ..before
            })
        }
    }

    /// The divergence guard. A canceller removes energy, so an output that
    /// sustains above the near end it was given is an output filter whose
    /// correction has gone wrong in a way the finiteness checks cannot see. The
    /// host halves the correction rather than zeroing it, the shadow keeps what
    /// it has learned, and this block is delivered as the near end it was given.
    pub fn guard_output(&mut self, reading: GuardReading) -> (r: bool)
        requires
            old(self).wf(),
            old(self).awaits is Guard,
        ensures
            final(self).wf(),
            r == (old(self).valid > 0 && TauCanceller::trips(reading)),
            final(self).guarded_from(*old(self), reading),
    {
        self.awaits = BlockStep::Close;
        if self.valid == 0 {
            return false;
        }
        self.divergence_near_power = reading.near_power;
        self.divergence_out_power = reading.out_power;
        if Measure::zero().is_below(self.divergence_near_power) && reading.limit.is_below(
            self.divergence_out_power,
        ) {
            self.retire_output();
            let ghost shaped = self.output_block@;
            let mut i: usize = 0;
            while i < self.valid
                invariant
                    i <= self.valid <= BLOCK,
                    self.near_carry@.len() == BLOCK,
                    shaped.len() == BLOCK,
                    self.output_block@ == self.near_carry@.take(i as int) + shaped.skip(i as int),
                    *self == (TauCanceller {
                        awaits: BlockStep::Close,
                        output_block: self.output_block,
                        divergence_near_power: reading.near_power,
                        divergence_out_power: reading.out_power,
                        output_error_power: reading.near_power,
                        rescue_streak: 0,
                        divergence_resets: (old(self).divergence_resets + 1) as u64,
                        ..*old(self)
                    }),
                decreases self.valid - i,
            {
                let sample: Sample = self.near_carry[i];
                self.output_block.set(i, sample);
                i += 1;
                assert(self.output_block@ =~= self.near_carry@.take(i as int) + shaped.skip(
                    i as int,
                ));
            }
            // Start the guard's estimates from the state the reset leaves, so
            // the next block is judged on what the cleared filter does rather
            // than on what the diverged one did.
            self.divergence_out_power = self.divergence_near_power;
            return true;
        }
        false
    }

    /// Counts a retired output: the recovery path for an output filter that
    /// sustains more energy out than in. Its error is judged afresh; the tracker
    /// is seeded at the guard's near power while the smoothing re-tracks.
    fn retire_output(&mut self)
        requires
            old(self).divergence_resets < u64::MAX,
        ensures
            *final(self) == (TauCanceller {
                output_error_power: old(self).divergence_near_power,
                rescue_streak: 0,
                divergence_resets: (old(self).divergence_resets + 1) as u64,
                ..*old(self)
            }),
    {
        self.output_error_power = self.divergence_near_power;
        self.rescue_streak = 0;
        self.divergence_resets = self.divergence_resets + 1;
    }

    /// Whether `self` is `before` with the block in hand closed.
    pub open spec fn closed_from(
        self,
        before: TauCanceller,
        near_power: Measure,
        residual_power: Measure,
    ) -> bool {
        &&& self.near_carry@ == Seq::<Sample>::empty()
        &&& self.far_carry@ == Seq::<Sample>::empty()
        &&& self == (TauCanceller {
            awaits: BlockStep::Fill,
            near_carry: self.near_carry,
            far_carry: self.far_carry,
            near_power,
            residual_power,
            ..before
        })
    }

    /// Closes the block in hand: records the ERLE powers, appends the delivered
    /// counterpart of every sample the caller supplied, and empties the carry.
    pub fn close_block(
        &mut self,
        near_power: Measure,
        residual_power: Measure,
        out: &mut Vec<Sample>,
    )
        requires
            old(self).wf(),
            old(self).awaits is Close,
        ensures
            final(self).wf(),
            final(out)@ == old(out)@ + old(self).output_block@.take(old(self).valid as int),
            final(self).closed_from(*old(self), near_power, residual_power),
    {
        reveal(all_finite);
        self.near_power = near_power;
        self.residual_power = residual_power;
        let mut i: usize = 0;
        let ghost start = out@;
        assert(start + self.output_block@.take(0) =~= start);
        while i < self.valid
            invariant
                i <= self.valid <= BLOCK,
                self.output_block@.len() == BLOCK,
                out@ == start + self.output_block@.take(i as int),
            decreases self.valid - i,
        {
            out.push(self.output_block[i]);
            i += 1;
            assert(out@ =~= start + self.output_block@.take(i as int));
        }
        self.near_carry.clear();
        self.far_carry.clear();
        self.awaits = BlockStep::Fill;
    }

    /// Whether `self` is `before` restored to the state construction leaves, the two
    /// counts kept since construction standing.
    pub open spec fn reset_from(self, before: TauCanceller) -> bool {
        &&& self.pristine()
        &&& self.partitions == before.partitions
        &&& self.suppression == before.suppression
        &&& self.divergence_resets == before.divergence_resets
        &&& self.transfers == before.transfers
    }

    /// Clears the block ring position, the carry, the detector, the two-path
    /// comparison and the ERLE state, restoring the just-constructed state. The
    /// divergence-reset count survives, as its metric is documented since
    /// construction, and the transfer count survives with it. The host clears
    /// both filters and the ring.
    pub fn reset(&mut self)
        requires
            old(self).wf(),
        ensures
            final(self).wf(),
            final(self).reset_from(*old(self)),
    {
        reveal(all_finite);
        self.awaits = BlockStep::Fill;
        self.shadow_error_power = Measure::zero();
        self.output_error_power = Measure::zero();
        self.quiet_streak = 0;
        self.rescue_streak = 0;
        self.head = self.partitions - 1;
        self.far_window = silence_block(FFT_LEN);
        self.near_carry.clear();
        self.far_carry.clear();
        self.double_talk = false;
        self.detector = Detector::new();
        self.far_energy_peak = Measure::zero();
        self.divergence_near_power = Measure::zero();
        self.divergence_out_power = Measure::zero();
        self.near_power = Measure::zero();
        self.residual_power = Measure::zero();
        self.far_active = false;
        self.error_window = silence_block(FFT_LEN);
        self.valid = 0;
        self.adapt = false;
        self.shadow_diverged = false;
        self.diverged = false;
        self.far_is_active = false;
        self.rescued = false;
        self.shadow_error_block = silence_block(BLOCK);
        self.error_block = silence_block(BLOCK);
        self.output_block = silence_block(BLOCK);
    }

    /// The observable state, as a specification.
    pub open spec fn reported(self, erle_db: Sample) -> CancellerMetrics {
        CancellerMetrics {
            erle_db: if (Measure { bits: ERLE_POWER_FLOOR_BITS }).below(self.near_power) {
                erle_db
            } else {
                Sample { bits: 0 }
            },
            double_talk: self.double_talk,
            divergence_resets: self.divergence_resets,
        }
    }

    /// A snapshot of the canceller's observable state, given the decibel figure
    /// its smoothed powers amount to. The estimate reads zero below the power
    /// floor.
    pub fn metrics(&self, erle_db: Sample) -> (r: CancellerMetrics)
        ensures
            r == self.reported(erle_db),
    {
        CancellerMetrics {
            erle_db: if (Measure { bits: ERLE_POWER_FLOOR_BITS }).is_below(self.near_power) {
                erle_db
            } else {
                Sample::silence()
            },
            double_talk: self.double_talk,
            divergence_resets: self.divergence_resets,
        }
    }
}

/// A share that is never more than the whole. A NaN counts as the whole.
pub open spec fn capped(share: Measure) -> Measure {
    if share.below(Measure { bits: FULL_SCALE_BITS }) {
        share
    } else {
        Measure { bits: FULL_SCALE_BITS }
    }
}

/// Caps a share at the whole.
pub fn cap_share(share: Measure) -> (r: Measure)
    ensures
        r == capped(share),
{
    let one: Measure = Measure { bits: FULL_SCALE_BITS };
    if share.is_below(one) {
        share
    } else {
        one
    }
}

/// How fast one bin adapts, as a fraction of the full step: at full step when it
/// has no average power to compare with, and otherwise in proportion to the
/// squared share of that average it carries, never below the floor.
pub open spec fn step_factor(mean: Measure, squared_share: Measure) -> Measure {
    let floor = Measure { bits: MIN_STEP_FRACTION_BITS };
    if !(Measure { bits: 0 }).below(mean) {
        Measure { bits: FULL_SCALE_BITS }
    } else if floor.below(squared_share) {
        squared_share
    } else {
        floor
    }
}

/// How fast one bin adapts. A bin carrying its usual power adapts at the full
/// step; one that has fallen below its own recent average is stepped down.
pub fn bin_step(mean: Measure, squared_share: Measure) -> (r: Measure)
    ensures
        r == step_factor(mean, squared_share),
{
    let floor: Measure = Measure { bits: MIN_STEP_FRACTION_BITS };
    if !Measure::zero().is_below(mean) {
        Measure { bits: FULL_SCALE_BITS }
    } else if floor.is_below(squared_share) {
        squared_share
    } else {
        floor
    }
}

/// Whether the suppressor is backing off a bin, which it does faster than it
/// engages: the target stands above the current gain.
pub fn releases(gain: Measure, target: Measure) -> (r: bool)
    ensures
        r == gain.below(target),
{
    gain.is_below(target)
}

/// The first bin the gain curve is averaged over around `bin`.
pub open spec fn first_bin(bin: int) -> int {
    if bin < GAIN_BIN_SPAN {
        0
    } else {
        bin - GAIN_BIN_SPAN
    }
}

/// The last bin the gain curve is averaged over around `bin`.
pub open spec fn last_bin(bin: int) -> int {
    if bin + GAIN_BIN_SPAN < BINS {
        bin + GAIN_BIN_SPAN
    } else {
        BINS - 1
    }
}

/// The first and the last bin the gain curve is averaged over around `bin`:
/// [`GAIN_BIN_SPAN`] either side, clamped to the spectrum's ends.
pub fn gain_window(bin: usize) -> (r: (usize, usize))
    requires
        bin < BINS,
    ensures
        r.0 == first_bin(bin as int),
        r.1 == last_bin(bin as int),
        r.0 <= bin <= r.1 < BINS,
{
    let low: usize = if bin < GAIN_BIN_SPAN {
        0
    } else {
        bin - GAIN_BIN_SPAN
    };
    let high: usize = if bin + GAIN_BIN_SPAN < BINS {
        bin + GAIN_BIN_SPAN
    } else {
        BINS - 1
    };
    (low, high)
}

/// How many samples of a chunk the block under construction still takes.
pub open spec fn taken(carried: int, chunk: int) -> int {
    if chunk <= BLOCK - carried {
        chunk
    } else {
        BLOCK - carried
    }
}

/// How many whole blocks a chunk completes when it is accepted piece by piece
/// and each completed block is closed, starting from a carry of `carried`
/// samples.
pub open spec fn blocks_completed(carried: int, chunk: int) -> int
    decreases chunk,
    when 0 <= carried < BLOCK && 0 <= chunk
{
    let take = taken(carried, chunk);
    if chunk == 0 {
        0
    } else if carried + take == BLOCK {
        1 + blocks_completed(0, chunk - take)
    } else {
        blocks_completed(carried + take, chunk - take)
    }
}

/// The carry the same chunk leaves behind.
pub open spec fn carry_left(carried: int, chunk: int) -> int
    decreases chunk,
    when 0 <= carried < BLOCK && 0 <= chunk
{
    let take = taken(carried, chunk);
    if chunk == 0 {
        carried
    } else if carried + take == BLOCK {
        carry_left(0, chunk - take)
    } else {
        carry_left(carried + take, chunk - take)
    }
}

/// The totals balance, and how the caller chunks the stream makes no difference:
/// a chunk completes exactly the whole blocks of the carry and the chunk
/// together, and leaves exactly the rest, which a flush then delivers.
pub proof fn lemma_the_framing_balances(carried: int, chunk: int)
    requires
        0 <= carried < BLOCK,
        0 <= chunk,
    ensures
        blocks_completed(carried, chunk) == (carried + chunk) / BLOCK as int,
        carry_left(carried, chunk) == (carried + chunk) % BLOCK as int,
        blocks_completed(carried, chunk) * BLOCK + carry_left(carried, chunk) == carried + chunk,
    decreases chunk,
{
    let take = taken(carried, chunk);
    if chunk > 0 {
        if carried + take == BLOCK {
            lemma_the_framing_balances(0, chunk - take);
        } else {
            lemma_the_framing_balances(carried + take, chunk - take);
        }
    }
}

/// The blocks a chunk completes when it is accepted piece by piece and each
/// completed block is closed, in order, starting from `carry`.
pub open spec fn blocks_cut(carry: Seq<Sample>, chunk: Seq<Sample>) -> Seq<Seq<Sample>>
    decreases chunk.len(),
    when carry.len() < BLOCK
{
    let take = taken(carry.len() as int, chunk.len() as int);
    let filled = carry + crate::sample::sanitized_seq(chunk.take(take));
    if chunk.len() == 0 {
        Seq::empty()
    } else if filled.len() == BLOCK {
        seq![filled] + blocks_cut(Seq::empty(), chunk.skip(take))
    } else {
        blocks_cut(filled, chunk.skip(take))
    }
}

/// The carry the same chunk leaves behind, sample for sample.
pub open spec fn carry_cut(carry: Seq<Sample>, chunk: Seq<Sample>) -> Seq<Sample>
    decreases chunk.len(),
    when carry.len() < BLOCK
{
    let take = taken(carry.len() as int, chunk.len() as int);
    let filled = carry + crate::sample::sanitized_seq(chunk.take(take));
    if chunk.len() == 0 {
        carry
    } else if filled.len() == BLOCK {
        carry_cut(Seq::empty(), chunk.skip(take))
    } else {
        carry_cut(filled, chunk.skip(take))
    }
}

/// The `k`-th block of a stream.
pub open spec fn block_at(stream: Seq<Sample>, k: int) -> Seq<Sample> {
    stream.subrange(k * BLOCK, k * BLOCK + BLOCK)
}

/// What is cut is the stream itself: the carry and the sanitized chunk end to end,
/// block after block, and the rest is the new carry.
pub proof fn lemma_the_blocks_are_the_stream(carry: Seq<Sample>, chunk: Seq<Sample>)
    requires
        carry.len() < BLOCK,
    ensures
        ({
            let stream = carry + crate::sample::sanitized_seq(chunk);
            let count = stream.len() as int / BLOCK as int;
            &&& blocks_cut(carry, chunk).len() == count
            &&& forall|k: int|
                0 <= k < count ==> #[trigger] blocks_cut(carry, chunk)[k] == block_at(stream, k)
            &&& carry_cut(carry, chunk) == stream.skip(count * BLOCK)
            &&& carry_cut(carry, chunk).len() < BLOCK
        }),
    decreases chunk.len(),
{
    let stream = carry + crate::sample::sanitized_seq(chunk);
    let count = stream.len() as int / BLOCK as int;
    let take = taken(carry.len() as int, chunk.len() as int);
    let filled = carry + crate::sample::sanitized_seq(chunk.take(take));
    if chunk.len() == 0 {
        assert(stream =~= carry);
        assert(stream.skip(0) =~= carry);
    } else if filled.len() == BLOCK {
        let rest = chunk.skip(take);
        let tail = Seq::<Sample>::empty() + crate::sample::sanitized_seq(rest);
        lemma_the_blocks_are_the_stream(Seq::empty(), rest);
        assert(stream =~= filled + tail);
        assert(count == 1 + tail.len() as int / BLOCK as int);
        assert forall|k: int| 0 <= k < count implies #[trigger] blocks_cut(carry, chunk)[k]
            == block_at(stream, k) by {
            if k == 0 {
                assert(block_at(stream, 0) =~= filled);
            } else {
                assert(blocks_cut(carry, chunk)[k] == blocks_cut(Seq::empty(), rest)[k - 1]);
                assert(block_at(tail, k - 1) =~= block_at(stream, k));
            }
        }
        assert(stream.skip(count * BLOCK) =~= tail.skip((count - 1) * BLOCK));
    } else {
        assert(chunk.take(take) =~= chunk);
        assert(filled =~= stream);
        assert(chunk.skip(take).len() == 0);
        assert(count == 0);
        assert(stream.skip(0) =~= stream);
        reveal_with_fuel(blocks_cut, 2);
        reveal_with_fuel(carry_cut, 2);
    }
}

/// How the caller chunks the stream makes no difference to what is cut: one chunk
/// after another yields, end to end, exactly the blocks their concatenation
/// yields, and leaves the same carry, however many block boundaries either crosses.
pub proof fn lemma_chunking_the_stream_cuts_the_same_blocks(
    carry: Seq<Sample>,
    a: Seq<Sample>,
    b: Seq<Sample>,
)
    requires
        carry.len() < BLOCK,
    ensures
        blocks_cut(carry, a) + blocks_cut(carry_cut(carry, a), b) == blocks_cut(carry, a + b),
        carry_cut(carry_cut(carry, a), b) == carry_cut(carry, a + b),
{
    lemma_the_blocks_are_the_stream(carry, a);
    let middle = carry_cut(carry, a);
    lemma_the_blocks_are_the_stream(middle, b);
    lemma_the_blocks_are_the_stream(carry, a + b);
    let first = carry + crate::sample::sanitized_seq(a);
    let second = middle + crate::sample::sanitized_seq(b);
    let whole = carry + crate::sample::sanitized_seq(a + b);
    let count = first.len() as int / BLOCK as int;
    let more = second.len() as int / BLOCK as int;
    assert(second =~= whole.skip(count * BLOCK));
    assert(whole.len() as int / BLOCK as int == count + more);
    let joined = blocks_cut(carry, a) + blocks_cut(middle, b);
    assert forall|k: int| 0 <= k < count + more implies #[trigger] joined[k] == blocks_cut(
        carry,
        a + b,
    )[k] by {
        assert(blocks_cut(carry, a + b)[k] == block_at(whole, k));
        if k < count {
            assert(blocks_cut(carry, a)[k] == block_at(first, k));
            assert(block_at(first, k) =~= block_at(whole, k));
        } else {
            assert(blocks_cut(middle, b)[k - count] == block_at(second, k - count));
            assert(block_at(second, k - count) =~= block_at(whole, k));
        }
    }
    assert(joined =~= blocks_cut(carry, a + b));
    assert(second.skip(more * BLOCK) =~= whole.skip((count + more) * BLOCK));
}

/// A reset canceller is a new one: two that hold nothing but one geometry and one
/// suppression setting are in the same state, the two counts kept since
/// construction aside.
pub proof fn lemma_a_reset_canceller_is_a_new_one(a: TauCanceller, b: TauCanceller)
    requires
        a.pristine(),
        b.pristine(),
        a.partitions == b.partitions,
        a.suppression == b.suppression,
    ensures
        a.alike(b),
{
}

/// Two chunks that both fit the block under construction are accepted as one:
/// the carry they leave is the carry their concatenation leaves.
pub proof fn lemma_two_chunks_are_accepted_as_one(
    carry: Seq<Sample>,
    a: Seq<Sample>,
    b: Seq<Sample>,
)
    requires
        carry.len() + a.len() < BLOCK,
    ensures
        ({
            let first = carry + crate::sample::sanitized_seq(a);
            let take = taken(first.len() as int, b.len() as int);
            let whole = taken(carry.len() as int, (a + b).len() as int);
            &&& whole == a.len() + take
            &&& first + crate::sample::sanitized_seq(b.take(take)) == carry
                + crate::sample::sanitized_seq((a + b).take(whole))
        }),
{
    let first = carry + crate::sample::sanitized_seq(a);
    let take = taken(first.len() as int, b.len() as int);
    let whole = taken(carry.len() as int, (a + b).len() as int);
    assert(first + crate::sample::sanitized_seq(b.take(take)) =~= carry
        + crate::sample::sanitized_seq((a + b).take(whole)));
}

/// The ring ages by one partition per block: what partition `p` reads on one
/// block, partition `p + 1` reads on the next, and partition zero reads the slot
/// the oldest spectrum held.
pub proof fn lemma_the_ring_ages_by_one_partition(
    before: TauCanceller,
    after: TauCanceller,
    partition: int,
)
    requires
        before.wf(),
        after.partitions == before.partitions,
        after.head == (if before.head + 1 == before.partitions {
            0
        } else {
            before.head + 1
        }),
        0 <= partition < before.partitions - 1,
    ensures
        after.slot_of(partition + 1) == before.slot_of(partition),
        after.slot_of(0) == before.slot_of(before.partitions - 1),
{
    let n = before.partitions as int;
    let head = before.head as int;
    lemma_slot(head, n, partition);
    lemma_slot(head, n, n - 1);
    lemma_slot(after.head as int, n, partition + 1);
    lemma_slot(after.head as int, n, 0);
}

/// Distinct partitions read distinct slots, every one inside the ring.
pub proof fn lemma_partitions_read_distinct_slots(tau: TauCanceller, p: int, q: int)
    requires
        tau.wf(),
        0 <= p < q < tau.partitions,
    ensures
        0 <= tau.slot_of(p) < tau.partitions,
        0 <= tau.slot_of(q) < tau.partitions,
        tau.slot_of(p) != tau.slot_of(q),
{
    lemma_slot(tau.head as int, tau.partitions as int, p);
    lemma_slot(tau.head as int, tau.partitions as int, q);
}

proof fn lemma_slot(head: int, n: int, p: int)
    requires
        0 <= head < n,
        0 <= p < n,
    ensures
        (head + n - p) % n == (if p <= head {
            head - p
        } else {
            head + n - p
        }),
{
    if p <= head {
        vstd::arithmetic::div_mod::lemma_fundamental_div_mod_converse(
            head + n - p,
            n,
            1,
            head - p,
        );
    } else {
        vstd::arithmetic::div_mod::lemma_small_mod((head + n - p) as nat, n as nat);
    }
}

/// A far end that never played is a bit-exact passthrough: with no echo in the
/// estimate the error is the near end itself, the suppressor is bypassed whatever
/// it computed, and a tripped divergence guard delivers the same samples.
pub proof fn lemma_a_silent_far_end_is_passed_through(tau: TauCanceller, suppressed: Seq<Sample>)
    requires
        tau.wf(),
        tau.ready(),
        !tau.far_active,
        tau.error_block@ == tau.near_carry@,
    ensures
        tau.shaped(suppressed) == tau.near_carry@,
        tau.retired(tau.shaped(suppressed)) == tau.near_carry@,
{
    assert(tau.retired(tau.near_carry@) =~= tau.near_carry@);
}

/// The suppressor is bounded and conservative: whatever it measured, the gain it
/// aims a bin at lies between the gain floor and one, and it is exactly one while
/// output protection is engaged.
pub proof fn lemma_suppression_is_bounded(tau: TauCanceller, power: Measure, share: Measure)
    requires
        !share.nan(),
    ensures
        (Measure { bits: MIN_SUPPRESSION_GAIN_BITS }).at_most(tau.suppression_target(power, share)),
        tau.suppression_target(power, share).at_most(Measure { bits: FULL_SCALE_BITS }),
        tau.detector.protect_output ==> tau.suppression_target(power, share) == (Measure {
            bits: FULL_SCALE_BITS,
        }),
{
}

/// No bin is ever frozen or overdriven: its step lies between the floor and the
/// full step, for every share that was capped before it was squared.
pub proof fn lemma_no_bin_is_frozen(mean: Measure, squared_share: Measure)
    requires
        squared_share.at_most(Measure { bits: FULL_SCALE_BITS }),
    ensures
        (Measure { bits: MIN_STEP_FRACTION_BITS }).at_most(step_factor(mean, squared_share)),
        step_factor(mean, squared_share).at_most(Measure { bits: FULL_SCALE_BITS }),
        !(Measure { bits: 0 }).below(mean) ==> step_factor(mean, squared_share) == (Measure {
            bits: FULL_SCALE_BITS,
        }),
{
}

/// The detector after a sequence of blocks, each its reading and whether the far end
/// drove it.
pub open spec fn after_blocks(blocks: Seq<(CoherenceReading, bool)>) -> Detector
    decreases blocks.len(),
{
    if blocks.len() == 0 {
        Detector::fresh()
    } else {
        after_blocks(blocks.drop_last()).judged(blocks.last().0, blocks.last().1)
    }
}

/// How many blocks of a sequence were far-active and measurable.
pub open spec fn measured_count(blocks: Seq<(CoherenceReading, bool)>) -> nat
    decreases blocks.len(),
{
    if blocks.len() == 0 {
        0
    } else {
        measured_count(blocks.drop_last()) + (if blocks.last().1 && Detector::measurable(
            blocks.last().0,
        ) {
            1nat
        } else {
            0nat
        })
    }
}

/// Whether a block earns the filter its trust at once: far-active, measurable, and at
/// the handover coherence or above.
pub open spec fn hands_over(block: (CoherenceReading, bool)) -> bool {
    block.1 && Detector::measurable(block.0) && (Measure {
        bits: DTD_HANDOVER_COHERENCE_BITS,
    }).at_most(block.0.coherence)
}

/// Adaptation is slowed, never frozen and never overdriven, after any blocks
/// whatever they measured: the scale lies between the floor and full speed, a
/// collapse pins it to the floor and protects the output, and full speed runs until
/// a baseline is established. The verdict on the next block is a collapse held
/// after it, and never before the baseline stands.
pub proof fn lemma_adaptation_is_graded(
    blocks: Seq<(CoherenceReading, bool)>,
    reading: CoherenceReading,
    active: bool,
)
    ensures
        ({
            let detector = after_blocks(blocks);
            let after = detector.judged(reading, active);
            &&& detector.wf()
            &&& (Measure { bits: STEP_SCALE_FLOOR_BITS }).at_most(detector.step_scale)
            &&& detector.step_scale.at_most(Measure { bits: FULL_SCALE_BITS })
            &&& !detector.established ==> detector.step_scale == (Measure {
                bits: FULL_SCALE_BITS,
            })
            &&& detector.triggered(reading, active) ==> detector.established && after.collapsed
                && after.protect_output && after.step_scale == (Measure {
                bits: STEP_SCALE_FLOOR_BITS,
            })
            &&& !Detector::measurable(reading) ==> after == detector && !detector.triggered(
                reading,
                active,
            )
        }),
    decreases blocks.len(),
{
    if blocks.len() > 0 {
        lemma_adaptation_is_graded(blocks.drop_last(), reading, active);
    }
}

/// What the baseline rests on, over any sequence of blocks: it is established exactly
/// when some far-active block was measured at the handover coherence, or
/// [`DTD_ESTABLISH_BLOCKS`] far-active blocks were measurable. Once established it
/// stays.
pub proof fn lemma_the_baseline_rests_on_the_stream(blocks: Seq<(CoherenceReading, bool)>)
    ensures
        after_blocks(blocks).established <==> measured_count(blocks) >= DTD_ESTABLISH_BLOCKS || (
        exists|i: int| 0 <= i < blocks.len() && hands_over(#[trigger] blocks[i])),
        !after_blocks(blocks).established ==> after_blocks(blocks).blocks == measured_count(blocks),
    decreases blocks.len(),
{
    if blocks.len() > 0 {
        let shorter = blocks.drop_last();
        let last = blocks.len() - 1;
        lemma_the_baseline_rests_on_the_stream(shorter);
        lemma_adaptation_is_graded(shorter, blocks.last().0, blocks.last().1);
        if exists|i: int| 0 <= i < shorter.len() && hands_over(#[trigger] shorter[i]) {
            let i = choose|i: int| 0 <= i < shorter.len() && hands_over(#[trigger] shorter[i]);
            assert(hands_over(blocks[i]));
        }
        if exists|i: int| 0 <= i < blocks.len() && hands_over(#[trigger] blocks[i]) {
            let i = choose|i: int| 0 <= i < blocks.len() && hands_over(#[trigger] blocks[i]);
            if i < last {
                assert(hands_over(shorter[i]));
            }
        }
        if hands_over(blocks.last()) {
            assert(hands_over(blocks[last]));
        }
    }
}

/// The listener hears the shadow only on evidence: the output filter moves on a
/// block only when the far end drove it, the detector is established, eight
/// consecutive quiet blocks have passed and the shadow removes at least a tenth
/// of the output's error; and it never moves on the flush block or after a
/// divergence.
pub proof fn lemma_the_output_moves_only_on_evidence(tau: TauCanceller, reading: PathReading)
    requires
        tau.path_move(reading) is Transfer,
    ensures
        tau.adapt && !tau.diverged,
        tau.far_is_active && tau.detector.established,
        !tau.detector.collapsed && !tau.detector.protect_output,
        tau.quiet_streak + 1 >= TRANSFER_QUIET_STREAK_BLOCKS,
        (Measure { bits: TRANSFER_MIN_ADVANTAGE_BITS }).at_most(reading.advantage),
{
}

} // verus!
