//! Comparisons of single-precision floats, made on their bit patterns, and the
//! floats of integers.
//!
//! Positions, radii and colour components travel through this library as the
//! 32 bits of an IEEE 754 single. Every decision that depends on them is a
//! comparison, and a comparison only needs the order of the patterns. A cursor
//! position starts out as a pair of integers, and becomes the nearest floats.

use vstd::arithmetic::power2::{lemma_pow2_pos, lemma_pow2_unfold, pow2};
use vstd::prelude::*;

use crate::scale::nearest_even;

verus! {

/// Positive infinity.
pub const INFINITY: u32 = 0x7f80_0000;

/// Negative infinity.
pub const NEG_INFINITY: u32 = 0xff80_0000;

/// The number one.
pub const ONE: u32 = 0x3f80_0000;

/// The number zero.
pub const ZERO: u32 = 0;

/// The pattern without its sign bit.
pub open spec fn magnitude(bits: u32) -> int {
    bits as int % 0x8000_0000
}

/// Whether the sign bit is set.
pub open spec fn is_negative(bits: u32) -> bool {
    bits >= 0x8000_0000u32
}

/// Whether the pattern stands for no number at all.
pub open spec fn is_nan(bits: u32) -> bool {
    magnitude(bits) > 0x7f80_0000
}

/// Whether the pattern stands for a finite number.
pub open spec fn is_finite(bits: u32) -> bool {
    magnitude(bits) < 0x7f80_0000
}

/// Place of a number in the order of all singles: a smaller number has a
/// smaller rank, equal numbers (the two zeros among them) the same one.
pub open spec fn rank(bits: u32) -> int {
    if is_negative(bits) {
        -magnitude(bits)
    } else {
        magnitude(bits)
    }
}

/// `a < b` on floats: false as soon as one of them is no number.
pub open spec fn float_lt(a: u32, b: u32) -> bool {
    !is_nan(a) && !is_nan(b) && rank(a) < rank(b)
}

/// `a == b` on floats: false as soon as one of them is no number.
pub open spec fn float_eq(a: u32, b: u32) -> bool {
    !is_nan(a) && !is_nan(b) && rank(a) == rank(b)
}

/// The smaller of two floats; what is no number is passed over.
pub open spec fn float_min(a: u32, b: u32) -> u32 {
    if is_nan(a) || float_lt(b, a) {
        b
    } else {
        a
    }
}

/// The larger of two floats; what is no number is passed over.
pub open spec fn float_max(a: u32, b: u32) -> u32 {
    if is_nan(a) || float_lt(a, b) {
        b
    } else {
        a
    }
}

/// `a` moved to the nearer end of `lo..=hi` where it lies outside; what is no
/// number stays as it is.
pub open spec fn float_clamp(a: u32, lo: u32, hi: u32) -> u32 {
    if float_lt(a, lo) {
        lo
    } else if float_lt(hi, a) {
        hi
    } else {
        a
    }
}

/// Whether a float is a finite number above zero.
pub open spec fn is_positive_finite(bits: u32) -> bool {
    is_finite(bits) && float_lt(ZERO, bits)
}

/// Whether a float is a finite number that is not below zero.
pub open spec fn is_nonnegative_finite(bits: u32) -> bool {
    is_finite(bits) && !float_lt(bits, ZERO)
}

/// Whether a float lies in the closed unit interval.
pub open spec fn in_unit_interval(bits: u32) -> bool {
    !is_nan(bits) && !float_lt(bits, ZERO) && !float_lt(ONE, bits)
}

/// `2^23`: the first integer of 24 bits, as many as a significand has.
pub const SIGNIFICAND: u32 = 0x80_0000;

/// How often a positive integer is doubled until it has 24 bits.
pub open spec fn raised(m: int) -> nat
    decreases
            (if m < SIGNIFICAND {
                SIGNIFICAND - m
            } else {
                0
            }),
{
    if m <= 0 || m >= SIGNIFICAND {
        0
    } else {
        1 + raised(2 * m)
    }
}

/// How often an integer is halved until it has no more than 24 bits.
pub open spec fn lowered(m: int) -> nat
    decreases m,
{
    if m < 2 * SIGNIFICAND {
        0
    } else {
        1 + lowered(m / 2)
    }
}

/// Significand of the float nearest to a positive integer, ties to the even one.
pub open spec fn integer_significand(m: int) -> int {
    nearest_even(m * pow2(raised(m)) as int, pow2(lowered(m)) as int)
}

/// Pattern of the float nearest to an integer: its sign, its exponent and its
/// significand, whose first bit counts into the exponent.
pub open spec fn integer_bits(x: i32) -> int {
    let m = if x < 0 {
        -x
    } else {
        x as int
    };
    if m == 0 {
        0
    } else {
        (if x < 0 {
            0x8000_0000int
        } else {
            0
        }) + (149 + lowered(m) - raised(m)) * SIGNIFICAND + integer_significand(m)
    }
}

proof fn raising_fills(m: int)
    requires
        0 < m < 2 * SIGNIFICAND,
    ensures
        SIGNIFICAND <= m * pow2(raised(m)) < 2 * SIGNIFICAND,
    decreases
            (if m < SIGNIFICAND {
                SIGNIFICAND - m
            } else {
                0
            }),
{
    vstd::arithmetic::power2::lemma2_to64();
    if m < SIGNIFICAND {
        raising_fills(2 * m);
        let rest = raised(2 * m);
        lemma_pow2_unfold(rest + 1);
        assert(m * (2 * pow2(rest)) == (2 * m) * pow2(rest)) by (nonlinear_arith);
    } else {
        assert(raised(m) == 0);
        assert(m * pow2(0) == m);
    }
}

proof fn lowering_fits(m: int)
    requires
        m >= SIGNIFICAND,
    ensures
        SIGNIFICAND <= m / (pow2(lowered(m)) as int) < 2 * SIGNIFICAND,
    decreases m,
{
    vstd::arithmetic::power2::lemma2_to64();
    if m >= 2 * SIGNIFICAND {
        lowering_fits(m / 2);
        let rest = lowered(m / 2);
        lemma_pow2_pos(rest);
        lemma_pow2_unfold(rest + 1);
        vstd::arithmetic::div_mod::lemma_div_denominator(m, 2, pow2(rest) as int);
    } else {
        assert(m / 1 == m);
    }
}

proof fn integer_bounds(m: int)
    requires
        0 < m <= 0x8000_0000,
    ensures
        raised(m) <= 23,
        lowered(m) <= 8,
        raised(m) == 0 || lowered(m) == 0,
        SIGNIFICAND <= integer_significand(m) <= 2 * SIGNIFICAND,
{
    reveal_with_fuel(raised, 24);
    reveal_with_fuel(lowered, 9);
    vstd::arithmetic::power2::lemma2_to64();
    if m < 2 * SIGNIFICAND {
        raising_fills(m);
    } else {
        lowering_fits(m);
    }
}

/// The float nearest to an integer.
pub fn from_integer(x: i32) -> (r: u32)
    ensures
        r == integer_bits(x),
{
    let wide: i64 = x as i64;
    let m: u64 = if wide < 0 {
        (-wide) as u64
    } else {
        wide as u64
    };
    if m == 0 {
        return ZERO;
    }
    proof {
        integer_bounds(m as int);
        vstd::arithmetic::power2::lemma2_to64();
    }
    let mut high: u64 = m;
    let mut unit: u64 = 1;
    let mut up: u32 = 0;
    while high < 0x80_0000
        invariant
            0 < m,
            0 < high <= 0x8000_0000,
            0 < unit <= high,
            high == m * unit,
            unit == pow2(up as nat),
            raised(m as int) == up + raised(high as int),
            raised(m as int) <= 23,
        decreases 0x8000_0000 - high,
    {
        proof {
            lemma_pow2_unfold((up + 1) as nat);
            assert(m * (2 * unit) == 2 * (m * unit)) by (nonlinear_arith);
        }
        high = 2 * high;
        unit = 2 * unit;
        up = up + 1;
    }
    let mut low: u64 = m;
    let mut step: u64 = 1;
    let mut down: u32 = 0;
    assert(m as int / 1 == m);
    while low >= 0x100_0000
        invariant
            0 < m <= 0x8000_0000,
            0 < step,
            low == m / step,
            step == pow2(down as nat),
            lowered(m as int) == down + lowered(low as int),
            lowered(m as int) <= 8,
            step * 0x80_0000 <= 0x8000_0000,
        decreases low,
    {
        proof {
            lemma_pow2_unfold((down + 1) as nat);
            vstd::arithmetic::div_mod::lemma_div_denominator(m as int, step as int, 2);
            vstd::arithmetic::div_mod::lemma_fundamental_div_mod(m as int, step as int);
            assert(2 * step * 0x80_0000 <= 0x8000_0000) by (nonlinear_arith)
                requires
                    step * low <= 0x8000_0000,
                    low >= 0x100_0000,
                    step > 0,
            ;
        }
        low = low / 2;
        step = 2 * step;
        down = down + 1;
    }
    let q: u64 = high / step;
    let rest: u64 = high % step;
    let significand: u64 = if 2 * rest < step || (2 * rest == step && q % 2 == 0) {
        q
    } else {
        q + 1
    };
    assert(significand == integer_significand(m as int));
    let sign: u32 = if x < 0 {
        0x8000_0000
    } else {
        0
    };
    sign + (149 + down - up) * 0x80_0000 + significand as u32
}

/// The float nearest to an integer is a finite number, and zero only for zero.
pub proof fn integers_are_finite(x: i32)
    ensures
        0 <= integer_bits(x) <= u32::MAX,
        is_finite(integer_bits(x) as u32),
        rank(integer_bits(x) as u32) == 0 <==> x == 0,
{
    if x != 0 {
        integer_bounds(
            if x < 0 {
                -x
            } else {
                x as int
            },
        );
    }
}

fn magnitude_of(bits: u32) -> (r: u32)
    ensures
        r == magnitude(bits),
{
    bits % 0x8000_0000
}

/// Place of a number in the order of all singles.
pub fn rank_of(bits: u32) -> (r: i64)
    ensures
        r == rank(bits),
{
    let m: i64 = magnitude_of(bits) as i64;
    if bits >= 0x8000_0000 {
        -m
    } else {
        m
    }
}

/// Whether the pattern stands for no number.
pub fn nan(bits: u32) -> (r: bool)
    ensures
        r == is_nan(bits),
{
    magnitude_of(bits) > 0x7f80_0000
}

/// Whether the pattern stands for a finite number.
pub fn finite(bits: u32) -> (r: bool)
    ensures
        r == is_finite(bits),
{
    magnitude_of(bits) < 0x7f80_0000
}

/// `a < b` on floats.
pub fn lt(a: u32, b: u32) -> (r: bool)
    ensures
        r == float_lt(a, b),
{
    !nan(a) && !nan(b) && rank_of(a) < rank_of(b)
}

/// `a == b` on floats.
pub fn same(a: u32, b: u32) -> (r: bool)
    ensures
        r == float_eq(a, b),
{
    !nan(a) && !nan(b) && rank_of(a) == rank_of(b)
}

/// The smaller of two floats.
pub fn min(a: u32, b: u32) -> (r: u32)
    ensures
        r == float_min(a, b),
{
    if nan(a) || lt(b, a) {
        b
    } else {
        a
    }
}

/// The larger of two floats.
pub fn max(a: u32, b: u32) -> (r: u32)
    ensures
        r == float_max(a, b),
{
    if nan(a) || lt(a, b) {
        b
    } else {
        a
    }
}

/// `a` held inside `lo..=hi`.
pub fn clamp(a: u32, lo: u32, hi: u32) -> (r: u32)
    ensures
        r == float_clamp(a, lo, hi),
{
    if lt(a, lo) {
        lo
    } else if lt(hi, a) {
        hi
    } else {
        a
    }
}

/// Floats compare as IEEE 754 has it. The patterns up to positive infinity go up
/// with the numbers, those from the negative zero up to negative infinity go down,
/// the two zeros are equal, and every other pattern is no number: nothing is below
/// it, above it or equal to it, not even itself.
pub proof fn patterns_are_ordered(a: u32, b: u32)
    ensures
        is_nan(a) <==> 0x7f80_0000u32 < a < 0x8000_0000u32 || 0xff80_0000u32 < a,
        is_finite(a) <==> a < 0x7f80_0000u32 || 0x8000_0000u32 <= a < 0xff80_0000u32,
        is_nan(a) || is_nan(b) ==> !float_lt(a, b) && !float_eq(a, b),
        a <= 0x7f80_0000u32 && b <= 0x7f80_0000u32 ==> {
            &&& float_lt(a, b) <==> a < b
            &&& float_eq(a, b) <==> a == b
        },
        0x8000_0000u32 <= a <= 0xff80_0000u32 && 0x8000_0000u32 <= b <= 0xff80_0000u32 ==> {
            &&& float_lt(a, b) <==> a > b
            &&& float_eq(a, b) <==> a == b
        },
        0x8000_0000u32 <= a <= 0xff80_0000u32 && b <= 0x7f80_0000u32 ==> {
            &&& !float_lt(b, a)
            &&& float_lt(a, b) <==> a != 0x8000_0000u32 || b != 0
            &&& float_eq(a, b) <==> a == 0x8000_0000u32 && b == 0
            &&& float_eq(b, a) <==> float_eq(a, b)
        },
{
}

/// The extremes of two floats are among them, and nothing among them lies beyond;
/// what is no number is passed over where the other one is a number.
pub proof fn extremes_are_among_both(a: u32, b: u32)
    ensures
        float_min(a, b) == a || float_min(a, b) == b,
        float_max(a, b) == a || float_max(a, b) == b,
        !float_lt(a, float_min(a, b)) && !float_lt(b, float_min(a, b)),
        !float_lt(float_max(a, b), a) && !float_lt(float_max(a, b), b),
        is_nan(a) && !is_nan(b) ==> float_min(a, b) == b && float_max(a, b) == b,
        is_nan(b) && !is_nan(a) ==> float_min(a, b) == a && float_max(a, b) == a,
{
}

/// Holding a float in an interval leaves it alone where it lies inside, and takes
/// it to the end that it passed where it does not; what is no number stays.
pub proof fn clamping_moves_only_what_is_outside(a: u32, lo: u32, hi: u32)
    requires
        !float_lt(hi, lo),
    ensures
        !float_lt(a, lo) && !float_lt(hi, a) ==> float_clamp(a, lo, hi) == a,
        float_lt(a, lo) ==> float_clamp(a, lo, hi) == lo,
        float_lt(hi, a) ==> float_clamp(a, lo, hi) == hi,
        !float_lt(float_clamp(a, lo, hi), lo) && !float_lt(hi, float_clamp(a, lo, hi)),
{
}

/// A float of an integer is the nearest one there is. It stands for `f * 2^(k - 150)`
/// with the significand `f` and the biased exponent `k` of its pattern: up to 24 bits
/// that is the integer itself, beyond that it is off by half of the last place at
/// most, and by just half only where `f` is even. The sign is that of the integer.
pub proof fn integers_become_the_nearest_float(x: i32)
    ensures
        ({
            let b = integer_bits(x);
            let m = if x < 0 {
                -x
            } else {
                x as int
            };
            let k = b % 0x8000_0000 / 0x80_0000;
            let f = 0x80_0000 + b % 0x80_0000;
            &&& 0 <= b <= u32::MAX
            &&& x == 0 ==> b == 0
            &&& x != 0 ==> 0 < k < 255
            &&& x != 0 ==> (b >= 0x8000_0000 <==> x < 0)
            &&& x != 0 && k <= 150 ==> f == m * pow2((150 - k) as nat)
            &&& x != 0 && k > 150 ==> {
                let step = pow2((k - 150) as nat) as int;
                &&& m >= 0x100_0000
                &&& -step <= 2 * (f * step - m) <= step
                &&& (2 * (f * step - m) == step || 2 * (f * step - m) == -step) ==> f % 2 == 0
            }
        }),
{
    if x != 0 {
        let m = if x < 0 {
            -x
        } else {
            x as int
        };
        integer_bounds(m);
        vstd::arithmetic::power2::lemma2_to64();
        let down = lowered(m);
        let up = raised(m);
        let q = integer_significand(m);
        let b = integer_bits(x);
        let k = b % 0x8000_0000 / 0x80_0000;
        let f = 0x80_0000 + b % 0x80_0000;
        if m < 2 * SIGNIFICAND {
            raising_fills(m);
            assert(m * pow2(up) as int / 1 == m * pow2(up));
            assert(q == m * pow2(up));
            assert(k == 150 - up);
            assert(f == q);
        } else {
            let unit = pow2(down) as int;
            lemma_pow2_pos(down);
            lowering_fits(m);
            assert(m * pow2(0) == m);
            crate::scale::nearest_even_is_near(m, unit);
            assert(unit * q == q * unit) by (nonlinear_arith);
            lemma_pow2_unfold(down + 1);
            vstd::arithmetic::div_mod::lemma_fundamental_div_mod(m, unit);
            assert(unit * (m / unit + 1) == unit * (m / unit) + unit) by (nonlinear_arith);
            if q == 2 * SIGNIFICAND {
                assert(k == 151 + down);
                assert(f == 0x80_0000);
                assert(f * (2 * unit) == (2 * f) * unit) by (nonlinear_arith);
            } else {
                assert(k == 150 + down);
                assert(f == q);
            }
        }
    }
}

/// Two integers of up to 24 bits are equal as floats only where they are equal: a
/// cursor that moves is never taken for one that rests.
pub proof fn small_integers_stay_apart(x: i32, y: i32)
    requires
        -0x100_0000 <= x <= 0x100_0000,
        -0x100_0000 <= y <= 0x100_0000,
    ensures
        float_eq(integer_bits(x) as u32, integer_bits(y) as u32) <==> x == y,
{
    integers_are_finite(x);
    integers_are_finite(y);
    integers_become_the_nearest_float(x);
    integers_become_the_nearest_float(y);
    vstd::arithmetic::power2::lemma2_to64();
    let a = integer_bits(x);
    let b = integer_bits(y);
    if x != 0 && y != 0 && a == b {
        let k = a % 0x8000_0000 / 0x80_0000;
        let f = 0x80_0000 + a % 0x80_0000;
        let m = if x < 0 {
            -x
        } else {
            x as int
        };
        let n = if y < 0 {
            -y
        } else {
            y as int
        };
        if k <= 150 {
            let unit = pow2((150 - k) as nat) as int;
            lemma_pow2_pos((150 - k) as nat);
            assert(m == n) by (nonlinear_arith)
                requires
                    m * unit == n * unit,
                    unit > 0,
            ;
        }
    }
}

} // verus!
