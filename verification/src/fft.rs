//! The schedule of the owned radix-2 transform: the bit-reversal permutation,
//! the butterflies of each stage in their fixed order, and the sizes of the
//! real-input path built on it.
//!
//! Every transform size is a power of two. The power-of-two constraint is what
//! keeps the decimation a clean radix-2 recursion with a fixed, auditable
//! butterfly order. The complex arithmetic of a butterfly is the host's; which
//! two elements it combines, and by which power of the root, is decided here and
//! proved to be the discrete Fourier transform.

use vstd::arithmetic::power2::{lemma_pow2_pos, lemma_pow2_unfold, pow2};
use vstd::prelude::*;

use crate::delay::power_of_two;

verus! {

/// `value` with its low `bits` bits reversed.
pub open spec fn reversed(value: int, bits: nat) -> int
    decreases bits,
{
    if bits == 0 {
        0
    } else {
        (value % 2) * pow2((bits - 1) as nat) + reversed(value / 2, (bits - 1) as nat)
    }
}

/// A reversal stays inside its bits.
pub proof fn lemma_reversed_is_in_range(value: int, bits: nat)
    requires
        0 <= value,
    ensures
        0 <= reversed(value, bits) < pow2(bits),
    decreases bits,
{
    lemma_pow2_pos(bits);
    if bits > 0 {
        lemma_reversed_is_in_range(value / 2, (bits - 1) as nat);
        lemma_pow2_unfold(bits);
        let top = pow2((bits - 1) as nat) as int;
        assert(0 <= (value % 2) * top <= top) by (nonlinear_arith)
            requires
                0 <= value % 2 <= 1,
                0 <= top,
        ;
    } else {
        assert(pow2(0) == 1) by {
            vstd::arithmetic::power2::lemma2_to64();
        }
    }
}

/// How a reversal splits at its top bit: the bits below it reverse into the
/// upper positions, and the top bit becomes the lowest.
pub proof fn lemma_reversed_splits_at_the_top(low: int, top: int, bits: nat)
    requires
        0 <= low < pow2(bits),
        0 <= top <= 1,
    ensures
        reversed(low + top * pow2(bits), bits + 1) == 2 * reversed(low, bits) + top,
    decreases bits,
{
    let value = low + top * pow2(bits);
    vstd::arithmetic::power2::lemma2_to64();
    if bits == 0 {
        assert(top * 1 == top);
        assert(reversed(value, 1) == (value % 2) * pow2(0) + reversed(value / 2, 0));
        assert((value % 2) * 1 == value % 2);
    } else {
        lemma_pow2_unfold(bits);
        let half = pow2((bits - 1) as nat) as int;
        assert(top * (2 * half) == 2 * (top * half)) by (nonlinear_arith);
        let rest = low / 2 + top * half;
        assert(value % 2 == low % 2);
        assert(value / 2 == rest);
        lemma_reversed_splits_at_the_top(low / 2, top, (bits - 1) as nat);
        assert(reversed(value, bits + 1) == (low % 2) * pow2(bits) + reversed(rest, bits));
        assert(reversed(low, bits) == (low % 2) * half + reversed(low / 2, (bits - 1) as nat));
        assert((low % 2) * (2 * half) == 2 * ((low % 2) * half)) by (nonlinear_arith);
    }
}

/// Reversing twice gives the value back.
pub proof fn lemma_reversing_is_an_involution(value: int, bits: nat)
    requires
        0 <= value < pow2(bits),
    ensures
        reversed(reversed(value, bits), bits) == value,
    decreases bits,
{
    if bits == 0 {
        vstd::arithmetic::power2::lemma2_to64();
    } else {
        let less = (bits - 1) as nat;
        lemma_pow2_unfold(bits);
        lemma_reversed_is_in_range(value / 2, less);
        lemma_reversed_splits_at_the_top(reversed(value / 2, less), value % 2, less);
        lemma_reversing_is_an_involution(value / 2, less);
    }
}

/// The `i`-th bit of a number, counted from the lowest.
pub open spec fn bit(value: int, i: nat) -> int {
    (value / pow2(i) as int) % 2
}

/// Peeling the lowest bit off shifts every other one down.
proof fn lemma_bit_above(value: int, i: nat)
    requires
        0 <= value,
        i > 0,
    ensures
        bit(value, i) == bit(value / 2, (i - 1) as nat),
{
    lemma_pow2_unfold(i);
    lemma_pow2_pos((i - 1) as nat);
    vstd::arithmetic::div_mod::lemma_div_denominator(value, 2, pow2((i - 1) as nat) as int);
}

/// Adding a multiple of a power above a bit leaves the bit alone.
proof fn lemma_bit_below(low: int, top: int, bits: nat, i: nat)
    requires
        0 <= low < pow2(bits),
        0 <= top <= 1,
        i < bits,
    ensures
        bit(low + top * pow2(bits), i) == bit(low, i),
    decreases i,
{
    lemma_pow2_unfold(bits);
    let half = pow2((bits - 1) as nat) as int;
    assert(top * (2 * half) == 2 * (top * half)) by (nonlinear_arith);
    let value = low + top * pow2(bits);
    if i == 0 {
        vstd::arithmetic::power2::lemma2_to64();
        assert(value / 1 == value && low / 1 == low);
    } else {
        assert(0 <= top * half) by (nonlinear_arith)
            requires
                0 <= top,
                0 <= half,
        ;
        lemma_bit_above(value, i);
        lemma_bit_above(low, i);
        assert(value / 2 == low / 2 + top * half);
        lemma_bit_below(low / 2, top, (bits - 1) as nat, (i - 1) as nat);
    }
}

/// A reversal, bit by bit: bit `i` of the result is bit `bits - 1 - i` of the
/// value, every bit of the result at or above `bits` is zero, the bits of the value
/// at or above `bits` are ignored, and reversing again gives the others back.
pub proof fn lemma_reversed_bit_by_bit(value: int, bits: nat, i: nat)
    requires
        0 <= value,
    ensures
        i < bits ==> bit(reversed(value, bits), i) == bit(value, (bits - 1 - i) as nat),
        i >= bits ==> bit(reversed(value, bits), i) == 0,
        reversed(value, bits) == reversed(value % pow2(bits) as int, bits),
        reversed(reversed(value, bits), bits) == value % pow2(bits) as int,
    decreases bits,
{
    lemma_pow2_pos(bits);
    lemma_reversed_is_in_range(value, bits);
    lemma_reversed_ignores_the_top(value, bits);
    vstd::arithmetic::div_mod::lemma_mod_bound(value, pow2(bits) as int);
    lemma_reversing_is_an_involution(value % pow2(bits) as int, bits);
    if i >= bits {
        if i > bits {
            vstd::arithmetic::power2::lemma_pow2_strictly_increases(bits, i);
        }
        vstd::arithmetic::div_mod::lemma_basic_div(reversed(value, bits), pow2(i) as int);
    } else {
        let less = (bits - 1) as nat;
        let below = reversed(value / 2, less);
        lemma_reversed_is_in_range(value / 2, less);
        if i < less {
            lemma_bit_below(below, value % 2, less, i);
            lemma_reversed_bit_by_bit(value / 2, less, i);
            lemma_bit_above(value, (less - i) as nat);
        } else {
            let top = pow2(less) as int;
            lemma_pow2_pos(less);
            vstd::arithmetic::div_mod::lemma_fundamental_div_mod_converse(
                (value % 2) * top + below,
                top,
                value % 2,
                below,
            );
            vstd::arithmetic::power2::lemma2_to64();
            assert(value / 1 == value);
            assert((value % 2) % 2 == value % 2);
        }
    }
}

/// A reversal reads only the bits it reverses.
proof fn lemma_reversed_ignores_the_top(value: int, bits: nat)
    requires
        0 <= value,
    ensures
        reversed(value, bits) == reversed(value % pow2(bits) as int, bits),
    decreases bits,
{
    lemma_pow2_pos(bits);
    if bits > 0 {
        let less = (bits - 1) as nat;
        lemma_pow2_unfold(bits);
        lemma_pow2_pos(less);
        let half = pow2(less) as int;
        let kept = value % (2 * half);
        vstd::arithmetic::div_mod::lemma_mod_breakdown(value, 2, half);
        assert(kept == 2 * ((value / 2) % half) + value % 2);
        lemma_reversed_ignores_the_top(value / 2, less);
    }
}

/// Reverses the low `bits` bits of `value`.
pub fn reverse_low_bits(value: usize, bits: u32) -> (r: usize)
    requires
        bits <= usize::BITS,
    ensures
        r == reversed(value as int, bits as nat),
{
    let mut rest: usize = value;
    let mut turned: usize = 0;
    let mut done: u32 = 0;
    proof {
        lemma_reversed_is_in_range(value as int, bits as nat);
        vstd::layout::unsigned_int_max_values();
        if bits < usize::BITS {
            vstd::arithmetic::power2::lemma_pow2_strictly_increases(
                bits as nat,
                usize::BITS as nat,
            );
        }
        assert(0 * pow2(bits as nat) == 0);
    }
    while done < bits
        invariant
            done <= bits,
            0 <= reversed(value as int, bits as nat) < pow2(bits as nat),
            pow2(bits as nat) <= usize::MAX + 1,
            turned * pow2((bits - done) as nat) + reversed(rest as int, (bits - done) as nat)
                == reversed(value as int, bits as nat),
        decreases bits - done,
    {
        let ghost left = (bits - done) as nat;
        proof {
            lemma_pow2_unfold(left);
            lemma_pow2_pos((left - 1) as nat);
            lemma_reversed_is_in_range(rest as int / 2, (left - 1) as nat);
            let half = pow2((left - 1) as nat) as int;
            let t = turned as int;
            let b = rest as int % 2;
            assert(t * (2 * half) + b * half == (2 * t + b) * half) by (nonlinear_arith);
            assert(2 * t + b <= usize::MAX) by (nonlinear_arith)
                requires
                    (2 * t + b) * half <= usize::MAX,
                    half >= 1,
                    0 <= t,
                    0 <= b,
            ;
        }
        turned = 2 * turned + rest % 2;
        rest = rest / 2;
        done += 1;
    }
    proof {
        vstd::arithmetic::power2::lemma2_to64();
        assert(turned * 1 == turned);
    }
    turned
}

/// The number of doublings that reach a power of two.
pub open spec fn log2(n: int) -> nat
    decreases n,
{
    if n <= 1 {
        0
    } else {
        log2(n / 2) + 1
    }
}

/// A power of two is its own power.
pub proof fn lemma_log2(n: int)
    requires
        power_of_two(n),
    ensures
        pow2(log2(n)) == n,
    decreases n,
{
    vstd::arithmetic::power2::lemma2_to64();
    if n > 1 {
        lemma_log2(n / 2);
        lemma_pow2_unfold(log2(n));
    }
}

/// The number of doublings that reach `n`.
fn doublings(n: usize) -> (r: u32)
    requires
        power_of_two(n as int),
    ensures
        r == log2(n as int),
        r < usize::BITS,
{
    let mut rest: usize = n;
    let mut count: u32 = 0;
    proof {
        lemma_log2(n as int);
        vstd::layout::unsigned_int_max_values();
        if log2(n as int) > usize::BITS {
            vstd::arithmetic::power2::lemma_pow2_strictly_increases(
                usize::BITS as nat,
                log2(n as int),
            );
        }
    }
    while rest > 1
        invariant
            count + log2(rest as int) == log2(n as int),
            log2(n as int) < usize::BITS,
        decreases rest,
    {
        rest = rest / 2;
        count += 1;
    }
    count
}

/// Builds the bit-reversal permutation for a power-of-two size: `table[i]` is `i`
/// with its `log2(n)` low bits reversed.
pub fn build_bit_reversal(n: usize) -> (table: Vec<usize>)
    requires
        power_of_two(n as int),
    ensures
        table@.len() == n,
        forall|i: int| 0 <= i < n ==> #[trigger] table@[i] == reversed(i, log2(n as int)),
        forall|i: int| 0 <= i < n ==> #[trigger] table@[i] < n,
        forall|i: int| 0 <= i < n ==> table@[#[trigger] table@[i] as int] == i,
{
    let bits: u32 = doublings(n);
    let mut table: Vec<usize> = Vec::new();
    let mut i: usize = 0;
    while i < n
        invariant
            i <= n,
            bits <= usize::BITS,
            bits == log2(n as int),
            table@.len() == i,
            forall|k: int| 0 <= k < i ==> #[trigger] table@[k] == reversed(k, log2(n as int)),
        decreases n - i,
    {
        table.push(reverse_low_bits(i, bits));
        i += 1;
    }
    proof {
        lemma_log2(n as int);
        assert forall|i: int| 0 <= i < n implies #[trigger] table@[i] < n by {
            lemma_reversed_is_in_range(i, log2(n as int));
        }
        assert forall|i: int| 0 <= i < n implies table@[#[trigger] table@[i] as int] == i by {
            assert(table@[i] < n);
            lemma_reversing_is_an_involution(i, log2(n as int));
        }
    }
    table
}

/// Applies the decimation-in-time input permutation in place, each pair swapped
/// exactly once: element `i` of the result is element `table[i]` of the input.
pub fn permute<T: Copy>(buf: &mut Vec<T>, table: &Vec<usize>)
    requires
        old(buf)@.len() == table@.len(),
        forall|i: int| 0 <= i < table@.len() ==> #[trigger] table@[i] < table@.len(),
        forall|i: int| 0 <= i < table@.len() ==> table@[#[trigger] table@[i] as int] == i,
    ensures
        final(buf)@.len() == old(buf)@.len(),
        forall|i: int|
            0 <= i < table@.len() ==> #[trigger] final(buf)@[i] == old(buf)@[table@[i] as int],
{
    let ghost start = buf@;
    let mut i: usize = 0;
    while i < table.len()
        invariant
            i <= table@.len(),
            buf@.len() == table@.len(),
            start.len() == table@.len(),
            forall|k: int| 0 <= k < table@.len() ==> #[trigger] table@[k] < table@.len(),
            forall|k: int| 0 <= k < table@.len() ==> table@[#[trigger] table@[k] as int] == k,
            forall|k: int|
                0 <= k < table@.len() ==> #[trigger] buf@[k] == (if k < i || table@[k] < i {
                    start[table@[k] as int]
                } else {
                    start[k]
                }),
        decreases table@.len() - i,
    {
        let j: usize = table[i];
        assert(table@[j as int] == i);
        if i < j {
            let a: T = buf[i];
            let b: T = buf[j];
            buf.set(i, b);
            buf.set(j, a);
        }
        i += 1;
    }
}

/// One butterfly: which two elements it combines, and which power of the root
/// the second one is turned by.
#[derive(Debug, Clone, Copy, PartialEq, Eq, Structural)]
pub struct Butterfly {
    /// The element that is not turned.
    pub upper: usize,
    /// The element that is turned.
    pub lower: usize,
    /// The index of the turn in the table of the `n`-th roots of one.
    pub twiddle: usize,
}

/// The two elements and the turn of the `index`-th butterfly of a stage.
pub open spec fn combined(n: int, span: int, index: int) -> (int, int, int) {
    let half = span / 2;
    let base = (index / half) * span;
    let j = index % half;
    (base + j, base + j + half, j * (n / span))
}

/// The `index`-th butterfly of the stage with the given span, in the stage's
/// fixed ascending order.
pub fn butterfly(n: usize, span: usize, index: usize) -> (r: Butterfly)
    requires
        2 <= span <= n,
        span % 2 == 0,
        n % span == 0,
        index < n / 2,
    ensures
        (r.upper as int, r.lower as int, r.twiddle as int) == combined(
            n as int,
            span as int,
            index as int,
        ),
        r.upper < r.lower < n,
        r.twiddle < n / 2,
{
    let half: usize = span / 2;
    let block: usize = index / half;
    let j: usize = index % half;
    proof {
        let (n, span, half, block, j, index) = (
            n as int,
            span as int,
            half as int,
            block as int,
            j as int,
            index as int,
        );
        vstd::arithmetic::div_mod::lemma_fundamental_div_mod(n, span);
        vstd::arithmetic::div_mod::lemma_fundamental_div_mod(index, half);
        let blocks = n / span;
        assert(n == span * blocks);
        assert(n / 2 == half * blocks) by (nonlinear_arith)
            requires
                n == span * blocks,
                span == 2 * half,
        ;
        assert(block < blocks) by (nonlinear_arith)
            requires
                index == half * block + j,
                0 <= j,
                index < half * blocks,
                half >= 1,
        ;
        assert(0 <= block * span && block * span + span <= n) by (nonlinear_arith)
            requires
                block < blocks,
                0 <= block,
                n == span * blocks,
                span >= 1,
        ;
        assert(0 <= j * blocks && j * blocks < half * blocks) by (nonlinear_arith)
            requires
                0 <= j < half,
                blocks >= 1,
        ;
    }
    let base: usize = block * span;
    Butterfly { upper: base + j, lower: base + j + half, twiddle: j * (n / span) }
}

/// Every stage touches every element exactly once: element `k` is the upper
/// element of one butterfly when it lies in the first half of its span, and the
/// lower element of one otherwise.
pub proof fn lemma_a_stage_touches_every_element_once(n: int, span: int, k: int)
    requires
        2 <= span <= n,
        span % 2 == 0,
        n % span == 0,
        0 <= k < n,
    ensures
        ({
            let half = span / 2;
            let index = (k / span) * half + (k % span) % half;
            &&& 0 <= index < n / 2
            &&& (k % span < half ==> (index / half) * span + index % half == k)
            &&& (k % span >= half ==> (index / half) * span + index % half + half == k)
        }),
{
    let half = span / 2;
    let block = k / span;
    let offset = k % span;
    let j = offset % half;
    vstd::arithmetic::div_mod::lemma_fundamental_div_mod(k, span);
    vstd::arithmetic::div_mod::lemma_fundamental_div_mod(n, span);
    let blocks = n / span;
    if offset >= half {
        vstd::arithmetic::div_mod::lemma_fundamental_div_mod_converse(offset, half, 1, offset - half);
    } else {
        vstd::arithmetic::div_mod::lemma_small_mod(offset as nat, half as nat);
    }
    assert(n / 2 == half * blocks) by (nonlinear_arith)
        requires
            n == span * blocks,
            span == 2 * half,
    ;
    assert(0 <= block < blocks) by (nonlinear_arith)
        requires
            k == span * block + offset,
            0 <= offset < span,
            0 <= k < span * blocks,
            span >= 1,
    ;
    let index = block * half + j;
    assert(0 <= index < half * blocks) by (nonlinear_arith)
        requires
            0 <= block < blocks,
            0 <= j < half,
            index == block * half + j,
    ;
    vstd::arithmetic::div_mod::lemma_fundamental_div_mod_converse(index, half, block, j);
    assert(block * span == span * block) by (nonlinear_arith);
}

/// The power of the root by which output `j` of a block of `2^stages` outputs
/// carries the block's `q`-th input, as the butterflies compute it: the first
/// half of the inputs comes through the upper element, the second half through
/// the lower one, turned by the stage's twiddle, and subtracted (a half turn) in
/// the second half of the outputs.
pub open spec fn turn(stages: nat, j: int, q: int, n: int) -> int
    decreases stages,
{
    if stages == 0 {
        0
    } else {
        let half = pow2((stages - 1) as nat) as int;
        let low = j % half;
        if q < half {
            turn((stages - 1) as nat, low, q, n)
        } else {
            low * (n / (2 * half)) + turn((stages - 1) as nat, low, q - half, n) + (if j >= half {
                n / 2
            } else {
                0
            })
        }
    }
}

/// Each stage is a transform of its block: the butterflies of `stages` stages
/// turn input `q` by `j * reversed(q) * (n / 2^stages)`, whole turns aside.
pub proof fn lemma_stages_turn_by_the_product(stages: nat, j: int, q: int, n: int, blocks: int)
    requires
        n == pow2(stages) * blocks,
        blocks >= 1,
        0 <= j < pow2(stages),
        0 <= q < pow2(stages),
    ensures
        turn(stages, j, q, n) % n == (j * reversed(q, stages) * blocks) % n,
{
    lemma_pow2_pos(stages);
    assert(n >= 1) by (nonlinear_arith)
        requires
            n == pow2(stages) * blocks,
            blocks >= 1,
            pow2(stages) >= 1,
    ;
    let whole = lemma_turns(stages, j, q, n, blocks);
    assert(whole * n == n * whole) by (nonlinear_arith);
    vstd::arithmetic::div_mod::lemma_mod_multiples_vanish(whole, turn(stages, j, q, n), n);
}

/// The algebra of one stage: the inner turns, the twiddle and the half turn add
/// up to the product.
proof fn lemma_turn_algebra(
    inner: int,
    sub: int,
    low: int,
    high: int,
    top: int,
    half: int,
    blocks: int,
    r: int,
)
    requires
        inner * (half * (2 * blocks)) + sub == low * r * (2 * blocks),
    ensures
        (inner + high * r) * (half * (2 * blocks)) + (sub + top * (low * blocks + high * (half
            * blocks))) == (low + high * half) * (2 * r + top) * blocks,
{
    let n = half * (2 * blocks);
    let a = low * blocks;
    let h = half * blocks;
    assert(n == 2 * h) by (nonlinear_arith)
        requires
            n == half * (2 * blocks),
            h == half * blocks,
    ;
    assert((inner + high * r) * n == inner * n + (high * r) * n) by (nonlinear_arith);
    assert((high * r) * n == 2 * ((high * h) * r)) by (nonlinear_arith)
        requires
            n == 2 * h,
    ;
    assert(low * r * (2 * blocks) == 2 * (a * r)) by (nonlinear_arith)
        requires
            a == low * blocks,
    ;
    let s = a + high * h;
    assert((low + high * half) * (2 * r + top) * blocks == s * (2 * r + top)) by (nonlinear_arith)
        requires
            s == low * blocks + high * (half * blocks),
    ;
    assert(s * (2 * r + top) == 2 * (s * r) + top * s) by (nonlinear_arith);
    assert(s * r == a * r + (high * h) * r) by (nonlinear_arith)
        requires
            s == a + high * h,
    ;
}

/// The number of whole turns between the two.
proof fn lemma_turns(stages: nat, j: int, q: int, n: int, blocks: int) -> (whole: int)
    requires
        n == pow2(stages) * blocks,
        blocks >= 1,
        0 <= j < pow2(stages),
        0 <= q < pow2(stages),
    ensures
        whole * n + turn(stages, j, q, n) == j * reversed(q, stages) * blocks,
    decreases stages,
{
    vstd::arithmetic::power2::lemma2_to64();
    if stages == 0 {
        assert(0 * n == 0);
        assert(0 * reversed(q, stages) * blocks == 0) by (nonlinear_arith);
        0
    } else {
        let less = (stages - 1) as nat;
        lemma_pow2_unfold(stages);
        lemma_pow2_pos(less);
        let half = pow2(less) as int;
        let low = j % half;
        let high = if j >= half {
            1int
        } else {
            0int
        };
        assert(j == low + high * half) by {
            if j >= half {
                vstd::arithmetic::div_mod::lemma_fundamental_div_mod_converse(j, half, 1, j - half);
            } else {
                vstd::arithmetic::div_mod::lemma_small_mod(j as nat, half as nat);
            }
        }
        let top = if q >= half {
            1int
        } else {
            0int
        };
        let rest = q - top * half;
        lemma_reversed_splits_at_the_top(rest, top, less);
        let r = reversed(rest, less);
        assert(reversed(q, stages) == 2 * r + top);
        assert(n == half * (2 * blocks)) by (nonlinear_arith)
            requires
                n == (2 * half) * blocks,
        ;
        let inner = lemma_turns(less, low, rest, n, 2 * blocks);
        assert(n / 2 == half * blocks) by (nonlinear_arith)
            requires
                n == half * (2 * blocks),
        ;
        assert(n / (2 * half) == blocks) by {
            assert(n == blocks * (2 * half)) by (nonlinear_arith)
                requires
                    n == half * (2 * blocks),
            ;
            vstd::arithmetic::div_mod::lemma_fundamental_div_mod_converse(n, 2 * half, blocks, 0);
        }
        let whole = inner + high * r;
        let sub = turn(less, low, rest, n);
        assert(turn(stages, j, q, n) == sub + top * (low * blocks + high * (half * blocks)))
            by {
            assert(1 * (low * blocks + high * (half * blocks)) == low * blocks + high * (half
                * blocks));
            assert(0 * (low * blocks + high * (half * blocks)) == 0);
            assert(1 * (half * blocks) == half * blocks);
            assert(0 * (half * blocks) == 0);
        }
        lemma_turn_algebra(inner, sub, low, high, top, half, blocks, r);
        whole
    }
}

/// The schedule computes the discrete Fourier transform: with all `log2(n)`
/// stages run on bit-reversed input, output `j` carries input `i` turned by
/// exactly `j * i`, whole turns aside.
pub proof fn lemma_the_schedule_computes_the_transform(n: int, i: int, j: int)
    requires
        power_of_two(n),
        0 <= i < n,
        0 <= j < n,
    ensures
        turn(log2(n), j, reversed(i, log2(n)), n) % n == (j * i) % n,
{
    lemma_log2(n);
    lemma_reversed_is_in_range(i, log2(n));
    lemma_reversing_is_an_involution(i, log2(n));
    let q = reversed(i, log2(n));
    assert(pow2(log2(n)) * 1 == n);
    let whole = lemma_turns(log2(n), j, q, n, 1);
    let t = turn(log2(n), j, q, n);
    assert(j * i * 1 == j * i);
    assert(whole * n == n * whole) by (nonlinear_arith);
    vstd::arithmetic::div_mod::lemma_mod_multiples_vanish(whole, t, n);
}

/// The number of independent complex bins of a real transform of `n` samples.
pub open spec fn bins_of(n: int) -> int {
    n / 2 + 1
}

/// The number of independent complex bins of a real transform of `n` samples:
/// DC through Nyquist.
pub fn spectrum_len(n: usize) -> (r: usize)
    requires
        n < usize::MAX,
    ensures
        r == bins_of(n as int),
{
    n / 2 + 1
}

/// The element that mirrors bin `k` of a real transform of twice `half` samples.
pub open spec fn mirrored(half: int, k: int) -> int {
    (half - k) % half
}

/// The half-length element that mirrors bin `k` of a real transform: the index
/// whose conjugate carries the other half of the conjugate-symmetric spectrum.
pub fn mirror_index(half: usize, k: usize) -> (r: usize)
    requires
        half >= 1,
        k <= half,
    ensures
        r == mirrored(half as int, k as int),
        r < half,
{
    (half - k) % half
}

/// Mirroring twice gives the element back, so each pair of bins is recombined
/// from the same two elements.
pub proof fn lemma_mirroring_is_an_involution(half: int, k: int)
    requires
        half >= 1,
        0 <= k < half,
    ensures
        mirrored(half, mirrored(half, k)) == k,
{
    if k == 0 {
        vstd::arithmetic::div_mod::lemma_mod_self_0(half);
        vstd::arithmetic::div_mod::lemma_mod_self_0(half);
    } else {
        vstd::arithmetic::div_mod::lemma_small_mod((half - k) as nat, half as nat);
        vstd::arithmetic::div_mod::lemma_small_mod(k as nat, half as nat);
    }
}

} // verus!
