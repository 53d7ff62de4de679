//! What the engine promises, stated on what goes in and what comes out.
//!
//! Each law here speaks of durations in milliseconds, of counts and of the values
//! handed in and out, and says what a decision must be for every input. The modules
//! follow the path of a sample: the feed and its losses, the two delay searches and the
//! transform under one of them, the acquisition, the tracker, the alignment, the
//! canceller, and what is reported of it all.

pub mod acquiring;
pub mod aligning;
pub mod cancelling;
pub mod losses;
pub mod reporting;
pub mod searching;
pub mod tracking;
pub mod transforming;
