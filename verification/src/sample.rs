//! Audio samples and measured quantities, carried as IEEE 754 bit patterns.
//!
//! The order used throughout is the IEEE order of the values: it is total on
//! everything but NaN, it ignores the sign of zero, and every comparison that
//! involves a NaN is false.

use vstd::prelude::*;

verus! {

/// The magnitude field of a binary32 infinity; anything above it is a NaN.
pub const SAMPLE_INFINITY: u32 = 0x7f80_0000;

/// The bit pattern of the binary32 value one.
pub const SAMPLE_ONE: u32 = 0x3f80_0000;

/// The magnitude field of a binary64 infinity; anything above it is a NaN.
pub const MEASURE_INFINITY: u64 = 0x7ff0_0000_0000_0000;

/// One mono audio sample (or a gain applied to one): the bit pattern of a
/// binary32 value.
#[derive(Clone, Copy, Debug, PartialEq, Eq, Structural)]
pub struct Sample {
    /// The bit pattern.
    pub bits: u32,
}

impl Sample {
    /// The magnitude field: the pattern with its sign bit cleared.
    pub open spec fn magnitude(self) -> int {
        self.bits as int % 0x8000_0000
    }

    /// Whether the value is neither an infinity nor a NaN.
    pub open spec fn finite(self) -> bool {
        self.magnitude() < SAMPLE_INFINITY
    }

    /// Whether the pattern names no number.
    pub open spec fn nan(self) -> bool {
        self.magnitude() > SAMPLE_INFINITY
    }

    /// The position of the value in the IEEE order.
    pub open spec fn rank(self) -> int {
        if self.bits < 0x8000_0000 {
            self.magnitude()
        } else {
            -self.magnitude()
        }
    }

    /// The IEEE `<`.
    pub open spec fn below(self, other: Sample) -> bool {
        !self.nan() && !other.nan() && self.rank() < other.rank()
    }

    /// The sample itself when it is finite, silence when it is not.
    pub open spec fn sanitized(self) -> Sample {
        if self.finite() {
            self
        } else {
            Sample { bits: 0 }
        }
    }

    /// The zero sample.
    pub fn silence() -> (s: Sample)
        ensures
            s == (Sample { bits: 0 }),
            s.finite(),
    {
        Sample { bits: 0 }
    }

    /// The value one: full gain.
    pub fn unity() -> (s: Sample)
        ensures
            s == (Sample { bits: SAMPLE_ONE }),
    {
        Sample { bits: SAMPLE_ONE }
    }

    /// Whether the value is neither an infinity nor a NaN.
    pub fn is_finite(self) -> (r: bool)
        ensures
            r == self.finite(),
    {
        self.bits % 0x8000_0000 < SAMPLE_INFINITY
    }

    /// The IEEE `<`.
    pub fn is_below(self, other: Sample) -> (r: bool)
        ensures
            r == self.below(other),
    {
        let a: u32 = self.bits % 0x8000_0000;
        let b: u32 = other.bits % 0x8000_0000;
        if a > SAMPLE_INFINITY || b > SAMPLE_INFINITY {
            return false;
        }
        let x: i64 = if self.bits < 0x8000_0000 { a as i64 } else { -(a as i64) };
        let y: i64 = if other.bits < 0x8000_0000 { b as i64 } else { -(b as i64) };
        x < y
    }

    /// The absolute value.
    pub fn abs(self) -> (r: Sample)
        ensures
            r.bits == self.magnitude(),
            r.nan() == self.nan(),
    {
        Sample { bits: self.bits % 0x8000_0000 }
    }
}

/// A measured quantity (an energy, a correlation, a ratio): the bit pattern of a
/// binary64 value.
#[derive(Clone, Copy, Debug, PartialEq, Eq, Structural)]
pub struct Measure {
    /// The bit pattern.
    pub bits: u64,
}

impl Measure {
    /// The magnitude field: the pattern with its sign bit cleared.
    pub open spec fn magnitude(self) -> int {
        self.bits as int % 0x8000_0000_0000_0000
    }

    /// Whether the pattern names no number.
    pub open spec fn nan(self) -> bool {
        self.magnitude() > MEASURE_INFINITY
    }

    /// The position of the value in the IEEE order.
    pub open spec fn rank(self) -> int {
        if self.bits < 0x8000_0000_0000_0000 {
            self.magnitude()
        } else {
            -self.magnitude()
        }
    }

    /// The IEEE `<`.
    pub open spec fn below(self, other: Measure) -> bool {
        !self.nan() && !other.nan() && self.rank() < other.rank()
    }

    /// The IEEE `<=`.
    pub open spec fn at_most(self, other: Measure) -> bool {
        !self.nan() && !other.nan() && self.rank() <= other.rank()
    }

    /// The value zero.
    pub fn zero() -> (m: Measure)
        ensures
            m == (Measure { bits: 0 }),
    {
        Measure { bits: 0 }
    }

    /// The IEEE `<`.
    pub fn is_below(self, other: Measure) -> (r: bool)
        ensures
            r == self.below(other),
    {
        let a: u64 = self.bits % 0x8000_0000_0000_0000;
        let b: u64 = other.bits % 0x8000_0000_0000_0000;
        if a > MEASURE_INFINITY || b > MEASURE_INFINITY {
            return false;
        }
        let x: i64 = if self.bits < 0x8000_0000_0000_0000 { a as i64 } else { -(a as i64) };
        let y: i64 = if other.bits < 0x8000_0000_0000_0000 { b as i64 } else { -(b as i64) };
        x < y
    }

    /// The IEEE `<=`.
    pub fn is_at_most(self, other: Measure) -> (r: bool)
        ensures
            r == self.at_most(other),
    {
        let a: u64 = self.bits % 0x8000_0000_0000_0000;
        let b: u64 = other.bits % 0x8000_0000_0000_0000;
        if a > MEASURE_INFINITY || b > MEASURE_INFINITY {
            return false;
        }
        let x: i64 = if self.bits < 0x8000_0000_0000_0000 { a as i64 } else { -(a as i64) };
        let y: i64 = if other.bits < 0x8000_0000_0000_0000 { b as i64 } else { -(b as i64) };
        x <= y
    }
}

/// A stream with every non-finite sample replaced by silence.
pub open spec fn sanitized_seq(src: Seq<Sample>) -> Seq<Sample> {
    Seq::new(src.len(), |i: int| src[i].sanitized())
}

/// Copies `src` into `dst`, replacing each non-finite sample with silence. `dst`
/// is cleared first. Replacing each non-finite sample keeps the canceller's
/// recursive state finite and bounds the damage to the single offending sample.
pub fn sanitize_into(src: &[Sample], dst: &mut Vec<Sample>)
    ensures
        final(dst)@ == sanitized_seq(src@),
{
    dst.clear();
    let mut i: usize = 0;
    while i < src.len()
        invariant
            i <= src.len(),
            dst@ == sanitized_seq(src@).take(i as int),
        decreases src.len() - i,
    {
        let s: Sample = src[i];
        if s.is_finite() {
            dst.push(s);
        } else {
            dst.push(Sample::silence());
        }
        i += 1;
    }
}

/// Sanitizing leaves nothing to sanitize: every sample of the result is finite,
/// and a stream that was finite already passes through unchanged.
pub proof fn lemma_sanitizing_is_idempotent(src: Seq<Sample>)
    ensures
        forall|i: int| 0 <= i < src.len() ==> (#[trigger] sanitized_seq(src)[i]).finite(),
        sanitized_seq(sanitized_seq(src)) == sanitized_seq(src),
        (forall|i: int| 0 <= i < src.len() ==> (#[trigger] src[i]).finite()) ==> sanitized_seq(src) == src,
{
    assert(sanitized_seq(sanitized_seq(src)) =~= sanitized_seq(src));
    if forall|i: int| 0 <= i < src.len() ==> (#[trigger] src[i]).finite() {
        assert(sanitized_seq(src) =~= src);
    }
}

} // verus!
