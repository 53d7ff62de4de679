//! The snapshot a canceller exposes.

use vstd::prelude::*;

use crate::sample::Sample;

verus! {

/// A snapshot of a canceller's algorithm-observable state.
///
/// Metadata only, never sample data. The engine composes this into
/// [`AecMetrics`](crate::engine::AecMetrics), adding the delay estimate and the
/// reference-transport counters it owns.
#[derive(Debug, Clone, Copy, PartialEq, Eq, Structural)]
#[non_exhaustive]
pub struct CancellerMetrics {
    /// The smoothed echo-return-loss-enhancement estimate, in decibels: how much
    /// the canceller is currently reducing the echo. Zero before the filter has
    /// observed enough signal to estimate it.
    pub erle_db: Sample,
    /// Whether the double-talk detector currently believes the near-end talker
    /// is active. Adaptation is held back while this is `true`.
    pub double_talk: bool,
    /// The number of times the divergence guard has reset the adaptive filter
    /// since construction, converting a non-finite or explosive coefficient
    /// state into a bounded re-convergence.
    pub divergence_resets: u64,
}

impl Default for CancellerMetrics {
    fn default() -> (r: CancellerMetrics)
        ensures
            r == (CancellerMetrics {
                erle_db: (Sample { bits: 0 }),
                double_talk: false,
                divergence_resets: 0,
            }),
    {
        CancellerMetrics { erle_db: Sample::silence(), double_talk: false, divergence_resets: 0 }
    }
}

} // verus!
