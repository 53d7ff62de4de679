//! Real-time acoustic echo cancellation: the decisions, the bookkeeping and the
//! sample transport of the engine, each with a proved contract.
//!
//! Audio samples and measured quantities are carried here as the bit patterns of
//! their IEEE 754 values ([`Sample`], [`Measure`]). Everything that moves,
//! compares, counts or decides is in this crate; the floating-point arithmetic
//! itself (transforms, correlations, filter updates) is done by the host, which
//! hands its results in and receives the next step to perform.

pub mod acquire;
pub mod canceller;
pub mod coarse;
pub mod config;
pub mod delay;
pub mod engine;
pub mod error;
pub mod fft;
pub mod laws;
pub mod lead;
pub mod passage;
pub mod ring;
pub mod sample;
pub mod session;
pub mod stream;
pub mod tau;
pub mod timing;
pub mod track;

pub use canceller::CancellerMetrics;
pub use config::{AecConfig, AecModel, OutputTransitionPolicy, Suppression};
pub use delay::{DelayEstimate, DelayLockSource, DelayStatus, ReacquireTrigger};
pub use engine::{Aec, AecEvent, AecMetrics, CancellerAction, CaptureContinuity};
pub use error::AecError;
pub use sample::{Measure, Sample};
