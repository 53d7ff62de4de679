//! The canceller's promises: what a block delivers, when a talker is heard in it, and when
//! a filter is moved, rewound or restarted.

use vstd::prelude::*;

use crate::config::Suppression;
use crate::passage::{steps_through, BlockTurn};
use crate::sample::{Measure, Sample};
use crate::tau::{
    BlockStep, CoherenceReading, Detector, GuardReading, Outlook, PathReading,
    TauCanceller,
};

verus! {

/// Whether the two filters are compared on a block: a streaming block the far end drove,
/// with the output sound and a baseline established.
pub open spec fn takes_part(tau: TauCanceller) -> bool {
    tau.adapt && !tau.diverged && tau.far_is_active && tau.detector.established
}

/// Whether the shadow is far behind on a block.
pub open spec fn far_behind(reading: PathReading) -> bool {
    reading.rescue_level.below(reading.shadow_power)
}

/// What the comparison of the two filters does with one block. The shadow is rewound on
/// the eighth block in a row it is far behind on, whatever the detector says; otherwise
/// the output moves on the eighth quiet block in a row and every quiet one after it, where
/// the output filter leaves any error and the shadow removes at least a tenth of it; and
/// nothing moves on any other block. A block that takes no part changes nothing.
pub proof fn lemma_what_a_comparison_does(before: TauCanceller, reading: PathReading)
    requires
        before.wf(),
        before.awaits is Paths,
    ensures
        ({
            let after = before.compared(reading);
            let moved = before.path_move(reading);
            let quiet = !before.detector.collapsed && !before.detector.protect_output;
            let rescued = takes_part(before) && far_behind(reading) && before.rescue_streak >= 7;
            &&& moved is Rescue <==> rescued
            // A tenth, as a bit pattern.
            &&& moved is Transfer <==> takes_part(before) && !rescued && quiet
                && before.quiet_streak >= 7 && (Measure { bits: 0 }).below(reading.output_power)
                && (Measure { bits: 0x3fb9_9999_9999_999a }).at_most(reading.advantage)
            &&& after.transfers == before.transfers + (if moved is Transfer {
                1int
            } else {
                0
            })
            &&& if takes_part(before) {
                &&& after.rescue_streak == (if far_behind(reading) && !rescued {
                    before.rescue_streak + 1
                } else {
                    0
                })
                &&& after.quiet_streak == (if quiet {
                    before.quiet_streak + 1
                } else {
                    0
                })
                &&& after.output_error_power == reading.output_power
                &&& after.shadow_error_power == (if rescued {
                    reading.output_power
                } else {
                    reading.shadow_power
                })
            } else {
                &&& after.rescue_streak == before.rescue_streak
                &&& after.quiet_streak == before.quiet_streak
                &&& after.output_error_power == before.output_error_power
                &&& after.shadow_error_power == before.shadow_error_power
            }
            // The shadow adapts unless the block is a flush, a filter diverged on it, or it
            // was just rewound.
            &&& after.awaits is ShadowUpdate <==> before.adapt && !before.diverged
                && !before.shadow_diverged && !before.rescued && !rescued
            &&& !(after.awaits is ShadowUpdate) ==> after.awaits is ErrorWindow
            &&& after == (TauCanceller {
                awaits: after.awaits,
                shadow_error_power: after.shadow_error_power,
                output_error_power: after.output_error_power,
                quiet_streak: after.quiet_streak,
                rescue_streak: after.rescue_streak,
                transfers: after.transfers,
                rescued: before.rescued || rescued,
                ..before
            })
        }),
{
}

/// How many blocks in a row, up to the first `i`, the shadow was far behind on.
pub open spec fn run_behind(readings: Seq<PathReading>, i: int) -> int
    decreases i,
{
    if i <= 0 {
        0
    } else if far_behind(readings[i - 1]) {
        run_behind(readings, i - 1) + 1
    } else {
        0
    }
}

/// Whether nothing restarts the rescue streak between one comparison and the next.
pub open spec fn streak_runs_on(
    compared: TauCanceller,
    reading: PathReading,
    next: TauCanceller,
) -> bool {
    next.rescue_streak == compared.compared(reading).rescue_streak
}

/// The shadow is rewound on every eighth block in a row it is far behind on, and on no
/// other, over any stream of compared blocks, whether or not the detector is collapsed
/// or protecting the output on any of them.
#[verifier::rlimit(60)]
pub proof fn lemma_every_eighth_block_behind_is_a_rescue(
    states: Seq<TauCanceller>,
    readings: Seq<PathReading>,
    i: int,
)
    requires
        states.len() == readings.len(),
        states.len() > 0,
        states[0].rescue_streak == 0,
        forall|k: int|
            0 <= k < states.len() ==> (#[trigger] states[k]).wf() && states[k].awaits is Paths
                && takes_part(states[k]),
        forall|k: int|
            0 <= k < states.len() - 1 ==> #[trigger] streak_runs_on(
                states[k],
                readings[k],
                states[k + 1],
            ),
        0 <= i < states.len(),
    ensures
        states[i].rescue_streak == run_behind(readings, i) % 8,
        states[i].path_move(readings[i]) is Rescue <==> run_behind(readings, i + 1) > 0
            && run_behind(readings, i + 1) % 8 == 0,
{
    let streaks = Seq::new(states.len(), |k: int| states[k].rescue_streak as int);
    assert forall|k: int| 0 < k < streaks.len() implies #[trigger] streaks[k] == (if far_behind(
        readings[k - 1],
    ) && streaks[k - 1] < 7 {
        streaks[k - 1] + 1
    } else {
        0
    }) by {
        assert(streak_runs_on(states[k - 1], readings[k - 1], states[k - 1 + 1]));
        assert(states[k - 1].wf());
        lemma_what_a_comparison_does(states[k - 1], readings[k - 1]);
    }
    lemma_a_streak_is_the_run(readings, streaks, i);
    assert(states[i].wf());
    lemma_what_a_comparison_does(states[i], readings[i]);
    lemma_a_run_is_not_negative(readings, i);
}

/// A streak that starts over on every eighth is the run, modulo eight.
proof fn lemma_a_streak_is_the_run(readings: Seq<PathReading>, streaks: Seq<int>, i: int)
    requires
        0 <= i < streaks.len(),
        streaks[0] == 0,
        forall|k: int|
            0 < k < streaks.len() ==> #[trigger] streaks[k] == (if far_behind(readings[k - 1])
                && streaks[k - 1] < 7 {
                streaks[k - 1] + 1
            } else {
                0
            }),
    ensures
        streaks[i] == run_behind(readings, i) % 8,
    decreases i,
{
    lemma_a_run_is_not_negative(readings, i);
    if i > 0 {
        lemma_a_streak_is_the_run(readings, streaks, i - 1);
        lemma_a_run_is_not_negative(readings, i - 1);
    }
}

proof fn lemma_a_run_is_not_negative(readings: Seq<PathReading>, i: int)
    ensures
        run_behind(readings, i) >= 0,
    decreases i,
{
    if i > 0 {
        lemma_a_run_is_not_negative(readings, i - 1);
    }
}

/// Whether there is anything to measure a coherence on.
pub open spec fn can_be_measured(reading: CoherenceReading) -> bool {
    !reading.near_energy.at_most(Measure { bits: 0 }) && !reading.estimate_energy.at_most(
        Measure { bits: 0 },
    )
}

/// How the envelope moves on a block: not at all while the far end is quiet, onto the
/// first coherence there is, up toward one above it, and down toward any other.
pub open spec fn envelope_move(
    detector: Detector,
    reading: CoherenceReading,
    active: bool,
) -> Outlook {
    if !active {
        reading.held
    } else if detector.baseline.at_most(Measure { bits: 0 }) {
        reading.seeded
    } else if detector.baseline.below(reading.coherence) {
        reading.raised
    } else {
        reading.decayed
    }
}

/// What a block's coherence leaves of the detector. A block with nothing to measure
/// leaves it as it was. The envelope and the smoothed coherence move only with the far
/// end. Until a baseline is established adaptation runs at full speed and nothing is
/// judged; it is established by a coherence of 81 hundredths or by the thirty-second
/// block. From then on a collapse begins when the coherence falls below its entry level
/// and lasts while the drop stays ten deviations deep; it pins adaptation to a hundredth,
/// and the ordinary shortfall is not learned from it. The output is protected during a
/// collapse and while the smoothed coherence is below a fifth.
pub proof fn lemma_what_a_coherence_leaves(
    before: Detector,
    reading: CoherenceReading,
    active: bool,
)
    requires
        before.wf(),
    ensures
        ({
            let after = before.judged(reading, active);
            let moved = envelope_move(before, reading, active);
            let scale = if active {
                reading.scale_moved
            } else {
                reading.scale_held
            };
            // A hundredth and one, as bit patterns.
            let slowest = Measure { bits: 0x3f84_7ae1_47ae_147b };
            let full = Measure { bits: 0x3ff0_0000_0000_0000 };
            if !can_be_measured(reading) {
                after == before && !before.triggered(reading, active)
            } else {
                &&& after.baseline == (if active {
                    moved.baseline
                } else {
                    before.baseline
                })
                &&& after.smooth == (if active {
                    reading.smooth
                } else {
                    before.smooth
                })
                &&& after.deviation == (if active && !after.collapsed {
                    moved.deviation
                } else {
                    before.deviation
                })
                // A fifth, as a bit pattern.
                &&& after.protect_output <==> after.collapsed || after.smooth.below(
                    Measure { bits: 0x3fc9_9999_9999_999a },
                )
                &&& before.triggered(reading, active) <==> after.collapsed
                &&& if !before.established {
                    &&& !after.collapsed
                    &&& after.step_scale == full
                    &&& after.blocks == before.blocks + (if active {
                        1int
                    } else {
                        0
                    })
                    // 81 hundredths, as a bit pattern.
                    &&& after.established <==> active && (before.blocks >= 31 || (Measure {
                        bits: 0x3fe9_eb85_1eb8_51ec,
                    }).at_most(reading.coherence))
                } else {
                    &&& after.established
                    &&& after.blocks == before.blocks
                    &&& !before.collapsed ==> (after.collapsed <==> reading.coherence.below(
                        reading.entry_level,
                    ))
                    // Ten, as a bit pattern.
                    &&& before.collapsed ==> (after.collapsed <==> !moved.depth.below(
                        Measure { bits: 0x4024_0000_0000_0000 },
                    ))
                    &&& after.collapsed ==> after.step_scale == slowest
                    &&& !after.collapsed ==> {
                        &&& slowest.at_most(scale) && scale.at_most(full) ==> after.step_scale
                            == scale
                        &&& !slowest.at_most(scale) ==> after.step_scale == slowest
                        &&& full.below(scale) ==> after.step_scale == full
                    }
                }
            }
        }),
{
}

/// When a block is reported as double-talk: when a collapse is held on it, or the output
/// is protected.
pub proof fn lemma_when_a_block_is_double_talk(before: TauCanceller, reading: CoherenceReading)
    requires
        before.wf(),
        before.awaits is Coherence,
    ensures
        ({
            let after = before.coherence_judged(reading);
            &&& after.detector == before.detector.judged(reading, before.far_is_active)
            &&& after.double_talk <==> (can_be_measured(reading) && after.detector.collapsed)
                || after.detector.protect_output
            &&& after == (TauCanceller {
                awaits: BlockStep::Paths,
                detector: after.detector,
                double_talk: after.double_talk,
                ..before
            })
        }),
{
    lemma_what_a_coherence_leaves(before.detector, reading, before.far_is_active);
}

/// When the far end drives a block: when anything has ever been played, and the block's
/// energy stands above the given share of the loudest block so far, itself included.
pub proof fn lemma_when_the_far_end_drives_a_block(
    before: TauCanceller,
    energy: Measure,
    share: Measure,
)
    ensures
        ({
            let noted = before.energy_noted(energy);
            let after = noted.activity_judged(energy, share);
            &&& before.far_energy_peak.below(energy) ==> after.far_energy_peak == energy
            &&& !before.far_energy_peak.below(energy) ==> after.far_energy_peak
                == before.far_energy_peak
            &&& after.far_is_active <==> (Measure { bits: 0 }).below(after.far_energy_peak)
                && share.below(energy)
            &&& noted.awaits is FarActivity
            &&& after == (TauCanceller {
                awaits: BlockStep::Coherence,
                far_energy_peak: after.far_energy_peak,
                far_is_active: after.far_is_active,
                ..before
            })
        }),
{
}

/// Whether every sample of a block is finite.
pub open spec fn sound(block: Seq<Sample>) -> bool {
    forall|i: int| 0 <= i < block.len() ==> (#[trigger] block[i]).finite()
}

/// Whether the guard trips: there is near-end power, and the output sustains more than
/// the limit.
pub open spec fn out_of_hand(reading: GuardReading) -> bool {
    (Measure { bits: 0 }).below(reading.near_power) && reading.limit.below(reading.out_power)
}

/// What a block delivers, sample by sample: the near end itself when the divergence guard
/// trips on it; silence when the output filter's error went non-finite; what the
/// suppressor made of it when suppression is on and the far end has ever played; and the
/// output filter's error otherwise.
#[verifier::rlimit(60)]
pub proof fn lemma_what_a_block_delivers(
    before: TauCanceller,
    after: TauCanceller,
    valid: usize,
    adapt: bool,
    turn: BlockTurn,
    delivered: Seq<Sample>,
    i: int,
)
    requires
        after.turned_from(before, valid, adapt, turn, delivered),
        0 <= i < valid,
    ensures
        ({
            let heard = before.far_active || exists|k: int|
                0 <= k < before.far_carry@.len() && (#[trigger] before.far_carry@[k]).magnitude()
                    != 0;
            &&& delivered.len() == valid
            &&& delivered[i] == (if out_of_hand(turn.guard) {
                before.near_carry@[i]
            } else if !sound(turn.output_error) {
                Sample { bits: 0 }
            } else if before.suppression == Suppression::Conservative && heard {
                turn.suppressed[i]
            } else {
                turn.output_error[i]
            })
            &&& after.near_carry@.len() == 0
            &&& after.far_carry@.len() == 0
            &&& after.awaits is Fill
            &&& after.far_active == heard
        }),
{
    reveal(TauCanceller::turned_from);
    reveal(crate::tau::all_finite);
    let states = choose|states: Seq<TauCanceller>| #[trigger]
        steps_through(states, valid, adapt, turn) && states[0] == before && states[10] == after
            && delivered == states[9].output_block@.take(valid as int);
    assert(states[0].wf());
    assert(states[3].wf());
    assert(states[8].wf());
    assert(states[9].wf());
    assert(states[10].wf());
    assert(sound(turn.output_error) <==> crate::tau::all_finite(turn.output_error));
    assert(states[8].near_carry@ == before.near_carry@);
    assert(states[8].valid == valid);
    assert(states[8].retired(states[8].output_block@)[i] == before.near_carry@[i]);
}

/// How many restarts a block counts: one for a shadow error that went non-finite, one for
/// an output error that did, one for an update that left the shadow non-finite, and one
/// for a tripped guard.
#[verifier::rlimit(60)]
pub proof fn lemma_what_a_block_counts_as_restarts(
    before: TauCanceller,
    after: TauCanceller,
    valid: usize,
    adapt: bool,
    turn: BlockTurn,
    delivered: Seq<Sample>,
)
    requires
        after.turned_from(before, valid, adapt, turn, delivered),
    ensures
        ({
            let one_if = |b: bool|
                if b {
                    1int
                } else {
                    0
                };
            let rest = after.divergence_resets - before.divergence_resets - one_if(
                !sound(turn.shadow_error),
            ) - one_if(!sound(turn.output_error)) - one_if(valid > 0 && out_of_hand(turn.guard));
            &&& 0 <= rest <= 1
            &&& rest == 1 ==> adapt && !turn.shadow_finite && sound(turn.shadow_error) && sound(
                turn.output_error,
            )
            &&& turn.shadow_finite ==> rest == 0
            &&& 0 <= after.transfers - before.transfers <= 1
        }),
{
    reveal(TauCanceller::turned_from);
    reveal(crate::tau::all_finite);
    let states = choose|states: Seq<TauCanceller>| #[trigger]
        steps_through(states, valid, adapt, turn) && states[0] == before && states[10] == after
            && delivered == states[9].output_block@.take(valid as int);
    assert(states[1].wf() && states[2].wf() && states[3].wf());
    assert(states[4].wf() && states[5].wf() && states[6].wf());
    assert(states[8].wf() && states[9].wf());
    assert(sound(turn.shadow_error) <==> crate::tau::all_finite(turn.shadow_error));
    assert(sound(turn.output_error) <==> crate::tau::all_finite(turn.output_error));
    assert(states[4].divergence_resets == states[3].divergence_resets && states[4].transfers
        == states[3].transfers && states[4].awaits is Paths);
    lemma_what_a_comparison_does(states[4], turn.paths);
}

/// What a non-finite error leaves. A shadow that went non-finite takes the near end for
/// its error and starts from the output filter's power; an output that did is silent and
/// both powers start over; either ends the rescue streak and counts one restart. A finite
/// error is taken as it is.
pub proof fn lemma_what_a_non_finite_error_leaves(
    before: TauCanceller,
    after: TauCanceller,
    error: Seq<Sample>,
    i: int,
)
    requires
        before.divergence_resets < u64::MAX,
        before.near_carry@.len() == 256,
        error.len() == 256,
        0 <= i < 256,
    ensures
        after.shadow_taken_from(before, error) ==> {
            &&& after.shadow_diverged == !sound(error)
            &&& after.diverged == before.diverged
            &&& after.shadow_error_block@[i] == (if sound(error) {
                error[i]
            } else {
                before.near_carry@[i]
            })
            &&& after.divergence_resets == before.divergence_resets + (if sound(error) {
                0int
            } else {
                1
            })
            &&& sound(error) ==> after.rescue_streak == before.rescue_streak
                && after.shadow_error_power == before.shadow_error_power
            &&& !sound(error) ==> after.rescue_streak == 0 && after.shadow_error_power
                == before.output_error_power
            &&& after == (TauCanceller {
                awaits: BlockStep::OutputError,
                shadow_error_block: after.shadow_error_block,
                shadow_diverged: after.shadow_diverged,
                shadow_error_power: after.shadow_error_power,
                rescue_streak: after.rescue_streak,
                divergence_resets: after.divergence_resets,
                ..before
            })
        },
        after.output_taken_from(before, error) ==> {
            &&& after.diverged == !sound(error)
            &&& after.shadow_diverged == before.shadow_diverged
            &&& after.error_block@[i] == (if sound(error) {
                error[i]
            } else {
                Sample { bits: 0 }
            })
            &&& after.divergence_resets == before.divergence_resets + (if sound(error) {
                0int
            } else {
                1
            })
            &&& sound(error) ==> after.rescue_streak == before.rescue_streak
                && after.shadow_error_power == before.shadow_error_power
                && after.output_error_power == before.output_error_power
            &&& !sound(error) ==> after.rescue_streak == 0 && after.shadow_error_power.bits == 0
                && after.output_error_power.bits == 0
            &&& after == (TauCanceller {
                awaits: BlockStep::FarEnergy,
                error_block: after.error_block,
                diverged: after.diverged,
                shadow_error_power: after.shadow_error_power,
                output_error_power: after.output_error_power,
                rescue_streak: after.rescue_streak,
                divergence_resets: after.divergence_resets,
                ..before
            })
        },
{
    reveal(crate::tau::all_finite);
    assert(sound(error) <==> crate::tau::all_finite(error));
}

/// What the guard leaves: both powers as measured, and, when it trips, the near end in
/// place of every sample the caller supplied, the output's power and the output filter's
/// error judged afresh from the near end's, no rescue under way and one restart counted.
/// A block the caller supplied nothing of is not judged.
pub proof fn lemma_what_the_guard_leaves(
    before: TauCanceller,
    after: TauCanceller,
    reading: GuardReading,
    i: int,
)
    requires
        before.wf(),
        before.awaits is Guard,
        after.guarded_from(before, reading),
        0 <= i < 256,
    ensures
        ({
            let trips = before.valid > 0 && out_of_hand(reading);
            &&& after.output_block@[i] == (if trips && i < before.valid {
                before.near_carry@[i]
            } else {
                before.output_block@[i]
            })
            &&& after.divergence_near_power == (if before.valid > 0 {
                reading.near_power
            } else {
                before.divergence_near_power
            })
            &&& after.divergence_out_power == (if trips {
                reading.near_power
            } else if before.valid > 0 {
                reading.out_power
            } else {
                before.divergence_out_power
            })
            &&& after.output_error_power == (if trips {
                reading.near_power
            } else {
                before.output_error_power
            })
            &&& after.rescue_streak == (if trips {
                0
            } else {
                before.rescue_streak
            })
            &&& after.divergence_resets == before.divergence_resets + (if trips {
                1int
            } else {
                0
            })
            &&& after == (TauCanceller {
                awaits: BlockStep::Close,
                output_block: after.output_block,
                divergence_near_power: after.divergence_near_power,
                divergence_out_power: after.divergence_out_power,
                output_error_power: after.output_error_power,
                rescue_streak: after.rescue_streak,
                divergence_resets: after.divergence_resets,
                ..before
            })
        }),
{
}

/// What an update that left the shadow non-finite costs: its power starts from the output
/// filter's, the rescue streak ends and one restart is counted. A finite one costs
/// nothing.
pub proof fn lemma_what_an_update_costs(before: TauCanceller, finite: bool)
    requires
        before.divergence_resets < u64::MAX,
    ensures
        ({
            let after = before.update_noted(finite);
            &&& after.awaits is ErrorWindow
            &&& finite ==> after.divergence_resets == before.divergence_resets
                && after.rescue_streak == before.rescue_streak && after.shadow_error_power
                == before.shadow_error_power
            &&& !finite ==> after.divergence_resets == before.divergence_resets + 1
                && after.rescue_streak == 0 && after.shadow_error_power
                == before.output_error_power
            &&& after == (TauCanceller {
                awaits: BlockStep::ErrorWindow,
                shadow_error_power: after.shadow_error_power,
                rescue_streak: after.rescue_streak,
                divergence_resets: after.divergence_resets,
                ..before
            })
        }),
{
}

/// What opening a block does: the far window is the far-end block before this one and this
/// one; the newest spectrum goes to the slot after the last, around the ring; and the far
/// end counts as heard from the first block that carries any sound.
pub proof fn lemma_what_opening_a_block_does(
    before: TauCanceller,
    after: TauCanceller,
    valid: usize,
    adapt: bool,
    i: int,
)
    requires
        before.wf(),
        before.ready(),
        after.opened_from(before, valid, adapt),
        0 <= i < 256,
    ensures
        after.far_window@.len() == 512,
        after.far_window@[i] == before.far_window@[256 + i],
        after.far_window@[256 + i] == before.far_carry@[i],
        after.head == (if before.head == before.partitions - 1 {
            0
        } else {
            before.head + 1
        }),
        after.far_active <==> before.far_active || exists|k: int|
            0 <= k < before.far_carry@.len() && (#[trigger] before.far_carry@[k]).magnitude() != 0,
        after.valid == valid,
        after.adapt == adapt,
        !after.diverged && !after.shadow_diverged && !after.rescued && !after.far_is_active,
        after == (TauCanceller {
            awaits: BlockStep::ShadowError,
            far_window: after.far_window,
            head: after.head,
            far_active: after.far_active,
            valid,
            adapt,
            shadow_diverged: false,
            diverged: false,
            far_is_active: false,
            rescued: false,
            ..before
        }),
{
}

/// What the suppressor's window shows: the error block before this one and this one.
pub proof fn lemma_what_the_suppressor_sees(before: TauCanceller, after: TauCanceller, i: int)
    requires
        before.wf(),
        after.window_slid_from(before),
        0 <= i < 256,
    ensures
        after.error_window@.len() == 512,
        after.error_window@[i] == before.error_window@[256 + i],
        after.error_window@[256 + i] == before.error_block@[i],
        after.awaits is Delivery,
{
}

/// What the suppressor aims a bin at: one while the output is protected or the bin carries
/// nothing, and otherwise the share, held between a tenth and one.
pub proof fn lemma_what_the_suppressor_aims_at(tau: TauCanceller, power: Measure, share: Measure)
    ensures
        ({
            let target = tau.suppression_target(power, share);
            // A tenth and one, as bit patterns.
            let tenth = Measure { bits: 0x3fb9_9999_9999_999a };
            let one = Measure { bits: 0x3ff0_0000_0000_0000 };
            if tau.detector.protect_output || power.at_most(Measure { bits: 0 }) {
                target == one
            } else {
                &&& tenth.at_most(share) && share.at_most(one) ==> target == share
                &&& share.below(tenth) ==> target == tenth
                &&& one.below(share) ==> target == one
            }
        }),
{
}

/// How fast a bin adapts: at full step while it has no average power to compare with, and
/// otherwise by the squared share of it, never below a fiftieth; a share is never more
/// than the whole, and one that is no number is the whole.
pub proof fn lemma_how_fast_a_bin_adapts(mean: Measure, squared: Measure, share: Measure)
    ensures
        ({
            // A fiftieth and one, as bit patterns.
            let least = Measure { bits: 0x3f94_7ae1_47ae_147b };
            let one = Measure { bits: 0x3ff0_0000_0000_0000 };
            let step = crate::tau::step_factor(mean, squared);
            &&& !(Measure { bits: 0 }).below(mean) ==> step == one
            &&& (Measure { bits: 0 }).below(mean) ==> step == (if least.below(squared) {
                squared
            } else {
                least
            })
            &&& crate::tau::capped(share) == (if share.below(one) {
                share
            } else {
                one
            })
        }),
{
}

/// What a chunk leaves of the carry: the samples that still fit the block under
/// construction, in order, each non-finite one as silence, after those already there.
pub proof fn lemma_what_a_chunk_leaves(
    before: TauCanceller,
    after: TauCanceller,
    near: Seq<Sample>,
    far: Seq<Sample>,
    i: int,
)
    requires
        before.wf(),
        near.len() == far.len(),
        after.accepted_from(before, near, far),
        0 <= i < after.near_carry@.len(),
    ensures
        ({
            let held = before.near_carry@.len() as int;
            let clean = |s: Sample|
                if s.finite() {
                    s
                } else {
                    Sample { bits: 0 }
                };
            &&& after.near_carry@.len() == (if held + near.len() <= 256 {
                held + near.len()
            } else {
                256
            })
            &&& after.far_carry@.len() == after.near_carry@.len()
            &&& i < held ==> after.near_carry@[i] == before.near_carry@[i] && after.far_carry@[i]
                == before.far_carry@[i]
            &&& i >= held ==> after.near_carry@[i] == clean(near[i - held]) && after.far_carry@[i]
                == clean(far[i - held])
        }),
{
}

/// What a flush pads: the remainder, in place, and silence after it, up to a whole block.
pub proof fn lemma_what_a_flush_pads(before: TauCanceller, after: TauCanceller, i: int)
    requires
        before.wf(),
        after.padded_from(before),
        0 <= i < 256,
    ensures
        after.near_carry@.len() == 256,
        after.far_carry@.len() == 256,
        i < before.near_carry@.len() ==> after.near_carry@[i] == before.near_carry@[i]
            && after.far_carry@[i] == before.far_carry@[i],
        i >= before.near_carry@.len() ==> after.near_carry@[i].bits == 0
            && after.far_carry@[i].bits == 0,
{
}

/// Which spectrum a partition reads: the newest one first, each further partition one
/// block older, around the ring.
pub proof fn lemma_which_spectrum_a_partition_reads(tau: TauCanceller, partition: int)
    requires
        tau.wf(),
        0 <= partition < tau.partitions,
    ensures
        tau.slot_of(partition) == (if partition <= tau.head {
            tau.head - partition
        } else {
            tau.head + tau.partitions - partition
        }),
{
    let n = tau.partitions as int;
    let head = tau.head as int;
    if partition <= head {
        vstd::arithmetic::div_mod::lemma_fundamental_div_mod_converse(
            head + n - partition,
            n,
            1,
            head - partition,
        );
    } else {
        vstd::arithmetic::div_mod::lemma_small_mod((head + n - partition) as nat, n as nat);
    }
}


/// What closing a block records: the two powers as measured.
pub proof fn lemma_what_closing_a_block_records(
    before: TauCanceller,
    after: TauCanceller,
    near_power: Measure,
    residual_power: Measure,
)
    requires
        after.closed_from(before, near_power, residual_power),
    ensures
        after.near_power == near_power,
        after.residual_power == residual_power,
        after.near_carry@.len() == 0,
        after.far_carry@.len() == 0,
        after == (TauCanceller {
            awaits: BlockStep::Fill,
            near_carry: after.near_carry,
            far_carry: after.far_carry,
            near_power,
            residual_power,
            ..before
        }),
{
}

/// How many partitions a tail has: as many blocks of 256 as hold its samples, no more than
/// that, and one where it has none.
pub proof fn lemma_how_many_partitions_a_tail_has(rate: u32, tail_ms: u16)
    ensures
        ({
            let partitions = TauCanceller::partitions_for(rate, tail_ms);
            let scaled = tail_ms * rate;
            &&& partitions >= 1
            &&& scaled < 1000 * (256 * partitions + 1)
            &&& partitions > 1 ==> scaled >= 1000 * (256 * (partitions - 1) + 1)
        }),
{
    assert(0 <= tail_ms * rate) by (nonlinear_arith)
        requires
            0 <= tail_ms,
            0 <= rate,
    ;
}

} // verus!
