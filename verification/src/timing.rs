//! Durations in milliseconds and their lengths in samples.

use vstd::prelude::*;

verus! {

/// The number of whole samples in `ms` milliseconds at `sample_rate`.
pub open spec fn samples_in(ms: int, sample_rate: int) -> int {
    (ms * sample_rate) / 1000
}

/// A duration in samples, never shorter than one sample.
pub open spec fn samples_in_at_least_one(ms: int, sample_rate: int) -> int {
    if samples_in(ms, sample_rate) < 1 {
        1
    } else {
        samples_in(ms, sample_rate)
    }
}

/// Converts a duration in milliseconds to a sample count at `sample_rate`,
/// truncating toward zero.
pub fn ms_to_samples(ms: u16, sample_rate: u32) -> (r: u64)
    ensures
        r == samples_in(ms as int, sample_rate as int),
        r <= 281_474_976_710,
{
    assert(0 <= ms * sample_rate <= 0xffff * 0xffff_ffff) by (nonlinear_arith)
        requires
            ms <= 0xffff,
            sample_rate <= 0xffff_ffff,
    ;
    (ms as u64 * sample_rate as u64) / 1000
}

/// Converts a fade duration in milliseconds to a sample count at `sample_rate`,
/// truncating toward zero. Separate from [`ms_to_samples`] because a fade length
/// is `u32`: a transition ramp may legitimately be set longer than any echo
/// delay, which the `u16` delay quantities never are.
pub fn fade_ms_to_samples(ms: u32, sample_rate: u32) -> (r: u64)
    ensures
        r == samples_in(ms as int, sample_rate as int),
{
    assert(0 <= ms * sample_rate <= 0xffff_ffff * 0xffff_ffff) by (nonlinear_arith)
        requires
            ms <= 0xffff_ffff,
            sample_rate <= 0xffff_ffff,
    ;
    (ms as u64 * sample_rate as u64) / 1000
}

/// Converts one of the short fixed durations the delay search is tuned in to a
/// sample count, truncating toward zero.
pub fn short_ms_to_samples(ms: u16, sample_rate: u32) -> (r: usize)
    requires
        ms <= 1000,
    ensures
        r == samples_in(ms as int, sample_rate as int),
{
    assert(0 <= ms * sample_rate <= 1000 * 0xffff_ffff) by (nonlinear_arith)
        requires
            ms <= 1000,
            sample_rate <= 0xffff_ffff,
    ;
    ms_to_samples(ms, sample_rate) as usize
}

/// As [`short_ms_to_samples`], and never less than one sample.
pub fn short_ms_to_samples_at_least_one(ms: u16, sample_rate: u32) -> (r: usize)
    requires
        ms <= 1000,
    ensures
        r == samples_in_at_least_one(ms as int, sample_rate as int),
{
    let n: usize = short_ms_to_samples(ms, sample_rate);
    if n < 1 {
        1
    } else {
        n
    }
}

/// A longer duration is never fewer samples.
pub proof fn lemma_samples_in_is_monotone(a: int, b: int, sample_rate: int)
    requires
        0 <= a <= b,
        0 <= sample_rate,
    ensures
        0 <= samples_in(a, sample_rate) <= samples_in(b, sample_rate),
{
    assert(0 <= a * sample_rate <= b * sample_rate) by (nonlinear_arith)
        requires
            0 <= a <= b,
            0 <= sample_rate,
    ;
}

} // verus!
