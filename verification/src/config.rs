//! Configuration for the engine: [`AecConfig`], the [`AecModel`] selector and
//! its string parse, and the [`Suppression`] setting.

use std::str::FromStr;

use vstd::prelude::*;

use crate::error::AecError;

verus! {

/// Echo canceller model selector.
///
/// A closed, `#[non_exhaustive]` set: today the only value is [`AecModel::Tau`].
/// Naming the model rather than taking a bool keeps adding further models a
/// non-breaking widening (a new variant), and keeps the caller on record about
/// which model, and which license, they invoked. The model runs on the CPU and
/// bundles no file; a later model that loads weights takes them by path.
#[derive(Debug, Clone, Copy, PartialEq, Eq, Structural)]
#[non_exhaustive]
pub enum AecModel {
    /// Tau: the default production echo canceller. Cancels the loudspeaker echo
    /// from the near-end capture and applies the configured residual
    /// [`Suppression`]. It is selected by name so a future model is added
    /// without a breaking change.
    Tau,
}

impl AecModel {
    /// The model's lowercase string name, as a specification.
    pub open spec fn name(self) -> Seq<char> {
        match self {
            AecModel::Tau => "tau"@,
        }
    }

    /// The model a name selects, if it names one.
    pub open spec fn named(name: Seq<char>) -> Option<AecModel> {
        if name == AecModel::Tau.name() {
            Some(AecModel::Tau)
        } else {
            None
        }
    }

    /// The lowercase string names of the publicly selectable models, in
    /// declaration order.
    ///
    /// This is the single source of the available-model list formatted into the
    /// [`AecError::UnknownModel`] message, so the binding-facing error can only
    /// ever name models a caller is allowed to select.
    pub const PUBLIC_MODEL_NAMES: [&'static str; 1] = ["tau"];

    /// The model's lowercase string name: the same name [`AecModel::parse_name`]
    /// parses, so a selector round-trips through its string form.
    pub fn as_str(self) -> (r: &'static str)
        ensures
            r@ == self.name(),
    {
        match self {
            AecModel::Tau => "tau",
        }
    }

    /// Parses a lowercase model name into the selector.
    ///
    /// The match is exact and case-sensitive. An unknown name, a typo like
    /// `"tao"` included, is [`AecError::UnknownModel`], which carries the
    /// received string.
    pub fn parse_name(s: &str) -> (r: Result<AecModel, AecError>)
        ensures
            AecModel::named(s@) matches Some(model) ==> r == Ok::<AecModel, AecError>(model),
            AecModel::named(s@) is None ==> (r matches Err(AecError::UnknownModel { requested })
                && requested@ == s@),
    {
        let requested: String = s.to_owned();
        let tau: String = AecModel::Tau.as_str().to_owned();
        if requested.eq(&tau) {
            Ok(AecModel::Tau)
        } else {
            Err(AecError::UnknownModel { requested })
        }
    }
}

impl Default for AecModel {
    /// [`AecModel::Tau`], the default production canceller.
    fn default() -> (r: AecModel)
        ensures
            r == AecModel::Tau,
    {
        AecModel::Tau
    }
}

impl FromStr for AecModel {
    type Err = AecError;

    /// Parses a lowercase model name into the selector. See
    /// [`AecModel::parse_name`].
    fn from_str(s: &str) -> (r: Result<AecModel, AecError>)
        ensures
            AecModel::named(s@) matches Some(model) ==> r == Ok::<AecModel, AecError>(model),
            AecModel::named(s@) is None ==> (r matches Err(AecError::UnknownModel { requested })
                && requested@ == s@),
    {
        AecModel::parse_name(s)
    }
}

/// Every public model name parses, and the parsed model renders back to the same
/// name; every model is found by the name it renders to, which is on the public
/// list.
pub proof fn lemma_model_names_round_trip(model: AecModel, i: int)
    ensures
        0 <= i < AecModel::PUBLIC_MODEL_NAMES@.len() ==> (AecModel::named(
            AecModel::PUBLIC_MODEL_NAMES@[i]@,
        ) matches Some(parsed) && parsed.name() == AecModel::PUBLIC_MODEL_NAMES@[i]@),
        AecModel::named(model.name()) == Some(model),
        exists|k: int|
            0 <= k < AecModel::PUBLIC_MODEL_NAMES@.len()
                && #[trigger] AecModel::PUBLIC_MODEL_NAMES@[k]@ == model.name(),
{
    assert(AecModel::PUBLIC_MODEL_NAMES@[0]@ == model.name());
}

/// Residual echo suppression setting.
///
/// A closed, `#[non_exhaustive]` set that is intentionally designed to grow.
/// Suppression is a deterministic post-filter that attenuates the residual echo
/// a linear canceller leaves behind; it is separate from the cancellation
/// itself.
#[derive(Debug, Clone, Copy, PartialEq, Eq, Structural)]
#[non_exhaustive]
pub enum Suppression {
    /// No residual suppression: the canceller output is delivered as-is.
    ///
    /// Combined with [`OutputTransitionPolicy::PreserveCorrection`] this yields
    /// the un-suppressed linear canceller output: no residual post-filter and no
    /// transition blend toward the microphone, in every delay state. That is the
    /// configuration a downstream residual stage composes on top of.
    Off,
    /// Conservative residual suppression: a bounded post-filter that reduces
    /// residual echo while keeping the near-end voice essentially intact. The
    /// default, because it is what makes the classical canceller usable for
    /// barge-in.
    Conservative,
}

impl Default for Suppression {
    /// [`Suppression::Conservative`].
    fn default() -> (r: Suppression)
        ensures
            r == Suppression::Conservative,
    {
        Suppression::Conservative
    }
}

/// How the engine renders its output while a previously trusted delay alignment
/// is being reacquired
/// ([`DelayStatus::Reacquiring`](crate::DelayStatus::Reacquiring)).
///
/// A closed, `#[non_exhaustive]` set. During a reacquisition the standing
/// alignment no longer describes the stream, so the correction the canceller
/// produces against it is untrustworthy and can actively add echo energy. This
/// setting decides whether the engine keeps emitting that correction or fades to
/// the untouched near-end capture until a fresh lock is promoted. It governs the
/// EMITTED AUDIO only, and only during a reacquisition: every other state,
/// initial acquisition included, is delivered with the correction unchanged.
///
/// It does not touch a single delay DECISION, the adaptive filter lifecycle, or
/// the reference alignment.
#[derive(Debug, Clone, Copy, PartialEq, Eq, Structural)]
#[non_exhaustive]
pub enum OutputTransitionPolicy {
    /// Emit the canceller's correction throughout, including while the alignment
    /// is being reacquired. Kept for comparison and for a consumer that drives
    /// its own transition policy downstream.
    PreserveCorrection,
    /// While the alignment is trusted (locked, and throughout initial
    /// acquisition), emit the correction unchanged. On entering a reacquisition,
    /// fade the emitted signal from the correction toward the untouched near-end
    /// capture over `fade_out_ms`; hold the untouched capture while the
    /// reacquisition runs; on re-lock, fade back to the correction over
    /// `fade_in_ms`.
    ///
    /// The fade is linear and always moves from the CURRENT level, so a status
    /// change mid-fade reverses smoothly rather than stepping the signal.
    ///
    /// # Recommended range
    ///
    /// Both durations are a short perceptual transition, and a practical range
    /// is roughly 20 ms to 2000 ms each; the default (100 ms fade-out, 200 ms
    /// fade-in) sits inside it. `0` is valid and collapses the ramp to a
    /// one-sample hard cut. Every value up the whole `u32` range is accepted and
    /// stays well-defined (finite gain, always within `[0, 1]`); an EXTREMELY
    /// large value makes the per-sample step fall below sample resolution near a
    /// gain of one, so the gain never moves off full correction.
    GradedReacquisition {
        /// Milliseconds to fade from full correction toward the untouched
        /// capture on entering a reacquisition. Default 100.
        fade_out_ms: u32,
        /// Milliseconds to fade from the untouched capture back to full
        /// correction on re-lock. Default 200.
        fade_in_ms: u32,
    },
}

impl Default for OutputTransitionPolicy {
    /// [`OutputTransitionPolicy::GradedReacquisition`] with a 100 ms fade-out
    /// and a 200 ms fade-in: fade quickly off a correction that has gone
    /// untrustworthy, restore it more gently once a fresh lock is trusted.
    fn default() -> (r: OutputTransitionPolicy)
        ensures
            r == (OutputTransitionPolicy::GradedReacquisition {
                fade_out_ms: 100,
                fade_in_ms: 200,
            }),
    {
        OutputTransitionPolicy::GradedReacquisition { fade_out_ms: 100, fade_in_ms: 200 }
    }
}

/// Configuration for the engine.
///
/// `#[non_exhaustive]`: construct it with [`AecConfig::default`] and then assign
/// the public fields you need. [`AecConfig::validate`] rejects an out-of-range
/// value with [`AecError`].
#[derive(Debug, Clone, Copy, PartialEq, Eq)]
#[non_exhaustive]
pub struct AecConfig {
    /// Sample rate in Hz, shared by the near-end and far-end streams. Range:
    /// 8000 to 48000. Default: 16000. A rate outside the range is rejected at
    /// construction rather than producing a canceller that cannot work.
    pub sample_rate: u32,
    /// The canceller model to run. Default: [`AecModel::Tau`].
    pub model: AecModel,
    /// Filter tail length in milliseconds: how much of the room's echo decay the
    /// canceller models. Range: 16 to 500. Default: 200.
    pub tail_ms: u16,
    /// Maximum echo delay in milliseconds: the upper bound of the delay search
    /// window between a far-end reference sample and its echo in the near-end
    /// capture. A different quantity from the tail. Range: 10 to 1000. Default:
    /// 250.
    pub max_echo_delay_ms: u16,
    /// Upper bound of the COARSE global delay search in milliseconds.
    ///
    /// A different quantity from [`AecConfig::max_echo_delay_ms`], which bounds
    /// the sample-accurate fine search. The coarse scan finds the REGION the
    /// echo lives in, out to this ceiling, at a resolution of one millisecond;
    /// the fine search is then re-centred on that region and locks
    /// sample-accurately inside it.
    ///
    /// It expands render-history ALIGNMENT only. How much of the room's echo
    /// decay the canceller models is still [`AecConfig::tail_ms`], and this
    /// setting does not lengthen the adaptive filter by one tap.
    ///
    /// Range: [`AecConfig::max_echo_delay_ms`] to 2000. Default: 1000.
    pub max_search_delay_ms: u16,
    /// Optional caller-supplied delay hint in milliseconds, used to seed the
    /// delay search instead of estimating it. `None` (the default) runs the
    /// estimator with no seed. A hint outside the search window is clamped, not
    /// rejected.
    ///
    /// The offset the hint seeds is measured from the far-end reference frontier
    /// as the caller's own feeding establishes it: how far BACK from the newest
    /// fed reference sample the echo of the block now being processed sits. It
    /// is not an absolute platform figure. A hint LONGER than that offset
    /// cancels nothing, with no error; a SHORT one leaves a remainder the
    /// modelled tail absorbs, so a caller unsure of its own lead should err
    /// short, or supply no hint at all.
    pub delay_hint_ms: Option<u16>,
    /// Residual echo suppression setting. Default:
    /// [`Suppression::Conservative`].
    pub suppression: Suppression,
    /// How the engine renders output while a previously trusted delay alignment
    /// is being reacquired. Default:
    /// [`OutputTransitionPolicy::GradedReacquisition`] with a 100 ms fade-out
    /// and a 200 ms fade-in.
    pub output_transition: OutputTransitionPolicy,
}

impl AecConfig {
    /// The documented defaults.
    pub open spec fn documented() -> AecConfig {
        AecConfig {
            sample_rate: 16000,
            model: AecModel::Tau,
            tail_ms: 200,
            max_echo_delay_ms: 250,
            max_search_delay_ms: 1000,
            delay_hint_ms: None,
            suppression: Suppression::Conservative,
            output_transition: OutputTransitionPolicy::GradedReacquisition {
                fade_out_ms: 100,
                fade_in_ms: 200,
            },
        }
    }

    /// Whether every field is in its supported range.
    pub open spec fn valid(self) -> bool {
        &&& 8000 <= self.sample_rate <= 48000
        &&& 16 <= self.tail_ms <= 500
        &&& 10 <= self.max_echo_delay_ms <= 1000
        &&& self.max_echo_delay_ms <= self.max_search_delay_ms <= 2000
    }

    /// The error the first out-of-range field is reported as. The rate is
    /// judged first, then the tail, the echo delay and the search ceiling.
    pub open spec fn fault(self) -> AecError {
        if !(8000 <= self.sample_rate <= 48000) {
            AecError::SampleRateOutOfRange { requested: self.sample_rate }
        } else if !(16 <= self.tail_ms <= 500) {
            AecError::TailOutOfRange { requested_ms: self.tail_ms }
        } else if !(10 <= self.max_echo_delay_ms <= 1000) {
            AecError::EchoDelayOutOfRange { requested_ms: self.max_echo_delay_ms }
        } else {
            AecError::SearchDelayOutOfRange {
                requested_ms: self.max_search_delay_ms,
                fine_window_ms: self.max_echo_delay_ms,
            }
        }
    }

    /// The delay hint as it is used: clamped to the search window.
    pub open spec fn clamped_hint(self) -> Option<u16> {
        match self.delay_hint_ms {
            Some(hint) => if hint <= self.max_echo_delay_ms {
                Some(hint)
            } else {
                Some(self.max_echo_delay_ms)
            },
            None => None,
        }
    }

    /// Checks every field against its supported range. The first out-of-range
    /// field, in the order rate, tail, echo delay, search ceiling, is the one
    /// reported. A delay hint outside the search window is clamped where it is
    /// used rather than rejected here.
    pub fn validate(&self) -> (r: Result<(), AecError>)
        ensures
            self.valid() ==> r is Ok,
            !self.valid() ==> r == Err::<(), AecError>(self.fault()),
    {
        if self.sample_rate < 8000 || self.sample_rate > 48000 {
            return Err(AecError::SampleRateOutOfRange { requested: self.sample_rate });
        }
        if self.tail_ms < 16 || self.tail_ms > 500 {
            return Err(AecError::TailOutOfRange { requested_ms: self.tail_ms });
        }
        if self.max_echo_delay_ms < 10 || self.max_echo_delay_ms > 1000 {
            return Err(AecError::EchoDelayOutOfRange { requested_ms: self.max_echo_delay_ms });
        }
        if self.max_search_delay_ms < self.max_echo_delay_ms || self.max_search_delay_ms > 2000 {
            return Err(
                AecError::SearchDelayOutOfRange {
                    requested_ms: self.max_search_delay_ms,
                    fine_window_ms: self.max_echo_delay_ms,
                },
            );
        }
        Ok(())
    }

    /// The delay hint as it is used: clamped to the search window.
    pub fn hint_in_window(&self) -> (r: Option<u16>)
        ensures
            r == self.clamped_hint(),
    {
        match self.delay_hint_ms {
            Some(hint) => if hint <= self.max_echo_delay_ms {
                Some(hint)
            } else {
                Some(self.max_echo_delay_ms)
            },
            None => None,
        }
    }
}

impl Default for AecConfig {
    fn default() -> (r: AecConfig)
        ensures
            r == AecConfig::documented(),
    {
        AecConfig {
            sample_rate: 16000,
            model: AecModel::Tau,
            tail_ms: 200,
            max_echo_delay_ms: 250,
            max_search_delay_ms: 1000,
            delay_hint_ms: None,
            suppression: Suppression::Conservative,
            output_transition: OutputTransitionPolicy::GradedReacquisition {
                fade_out_ms: 100,
                fade_in_ms: 200,
            },
        }
    }
}

/// The documented defaults are in range.
pub proof fn lemma_the_defaults_are_valid()
    ensures
        AecConfig::documented().valid(),
{
}

} // verus!
