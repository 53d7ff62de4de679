//! The transform's promises: which elements a stage combines, and which bins mirror which.

use vstd::prelude::*;

verus! {

/// What a butterfly combines: two elements of one span, the second half a span after the
/// first, which lies in the span's first half; and the second is turned by the share of a
/// full turn that the first has covered of its span.
pub proof fn lemma_what_a_butterfly_combines(n: int, span: int, index: int)
    requires
        2 <= span <= n,
        span % 2 == 0,
        n % span == 0,
        0 <= index < n / 2,
    ensures
        ({
            let (upper, lower, turn) = crate::fft::combined(n, span, index);
            &&& 0 <= upper
            &&& upper % span < span / 2
            &&& lower == upper + span / 2
            &&& upper / span == lower / span
            &&& turn * span == (upper % span) * n
        }),
{
    let half = span / 2;
    let block = index / half;
    let j = index % half;
    vstd::arithmetic::div_mod::lemma_fundamental_div_mod(index, half);
    vstd::arithmetic::div_mod::lemma_fundamental_div_mod(n, span);
    assert(0 <= block) by (nonlinear_arith)
        requires
            block == index / half,
            0 <= index,
            half >= 1,
    ;
    assert(0 <= block * span) by (nonlinear_arith)
        requires
            0 <= block,
            span >= 1,
    ;
    vstd::arithmetic::div_mod::lemma_fundamental_div_mod_converse(
        block * span + j,
        span,
        block,
        j,
    );
    vstd::arithmetic::div_mod::lemma_fundamental_div_mod_converse(
        block * span + j + half,
        span,
        block,
        j + half,
    );
    let blocks = n / span;
    assert((j * blocks) * span == j * n) by (nonlinear_arith)
        requires
            n == span * blocks,
    ;
}

/// Every element of a stage is combined by exactly the butterfly of its span and its place
/// in the half span.
pub proof fn lemma_every_element_is_combined(n: int, span: int, k: int)
    requires
        2 <= span <= n,
        span % 2 == 0,
        n % span == 0,
        0 <= k < n,
    ensures
        exists|index: int|
            0 <= index < n / 2 && {
                let (upper, lower, _) = #[trigger] crate::fft::combined(n, span, index);
                upper == k || lower == k
            },
{
    crate::fft::lemma_a_stage_touches_every_element_once(n, span, k);
    let half = span / 2;
    let index = (k / span) * half + (k % span) % half;
    let (upper, lower, _) = crate::fft::combined(n, span, index);
    assert(upper == k || lower == k);
}

/// A bin and its mirror add up to the whole half, or to nothing.
pub proof fn lemma_a_bin_and_its_mirror(half: int, k: int)
    requires
        half >= 1,
        0 <= k <= half,
    ensures
        0 <= crate::fft::mirrored(half, k) < half,
        crate::fft::mirrored(half, k) + k == half || (crate::fft::mirrored(half, k) == 0 && (k == 0
            || k == half)),
{
    if k == 0 {
        vstd::arithmetic::div_mod::lemma_mod_self_0(half);
    } else {
        vstd::arithmetic::div_mod::lemma_small_mod((half - k) as nat, half as nat);
    }
}

/// A real transform of an even number of samples has a bin for every pair and one more.
pub proof fn lemma_how_many_bins_there_are(n: int)
    requires
        0 <= n,
    ensures
        2 * (crate::fft::bins_of(n) - 1) <= n < 2 * crate::fft::bins_of(n),
{
}

/// Reversing is what it says of every bit: bit `i` of the result is bit `bits - 1 - i` of
/// the value.
pub proof fn lemma_every_bit_is_reversed(value: int, bits: nat, i: nat)
    requires
        0 <= value,
        i < bits,
    ensures
        crate::fft::bit(crate::fft::reversed(value, bits), i) == crate::fft::bit(
            value,
            (bits - 1 - i) as nat,
        ),
{
    crate::fft::lemma_reversed_bit_by_bit(value, bits, i);
}

} // verus!
