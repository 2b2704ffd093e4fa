//! Output scales, and the size of a buffer at a scale.
//!
//! A compositor gives the scale of an output either as a whole factor or as a
//! count of 120ths. The size of a buffer is its logical size times the scale in
//! double precision, rounded to whole pixels. That product is formed here on
//! integers: a double is a significand of 53 bits and a power of two, and both
//! the scale and the product are rounded to one, ties to the even significand.

use vstd::arithmetic::power2::{lemma_pow2_pos, lemma_pow2_unfold, pow2};
use vstd::prelude::*;

verus! {

/// Scale of an output.
#[derive(Debug, Clone, Copy, PartialEq, Eq, Structural)]
pub enum Scale {
    /// A whole factor, from `wl_output`.
    Whole(i32),
    /// A count of 120ths, from `wp_fractional_scale_v1`.
    Fraction(u32),
}

/// `120 * 2^52`: the least count of 120ths whose quotient by 120 needs no fewer
/// than 53 bits.
pub const ALIGNED: u64 = 540_431_955_284_459_520;

/// `2^53`: the first integer of more than 53 bits.
pub const SIGNIFICANDS: u128 = 9_007_199_254_740_992;

impl Scale {
    /// The scale, in 120ths.
    pub open spec fn in_120ths(self) -> int {
        match self {
            Scale::Whole(factor) => 120 * factor,
            Scale::Fraction(n) => n as int,
        }
    }

    /// Whether the scale is a whole number.
    pub open spec fn is_whole(self) -> bool {
        self.in_120ths() % 120 == 0
    }

    /// The scale, in 120ths.
    pub fn numerator(&self) -> (r: i64)
        ensures
            r == self.in_120ths(),
    {
        match *self {
            Scale::Whole(factor) => 120 * (factor as i64),
            Scale::Fraction(n) => n as i64,
        }
    }

    /// Whether two scales are the same number.
    pub fn same(&self, other: &Scale) -> (r: bool)
        ensures
            r == (self.in_120ths() == other.in_120ths()),
    {
        self.numerator() == other.numerator()
    }

    /// The scale as a whole factor, if it is one.
    pub fn whole(&self) -> (r: Option<i32>)
        ensures
            r is Some <==> self.is_whole(),
            r matches Some(factor) ==> 120 * factor == self.in_120ths(),
    {
        match *self {
            Scale::Whole(factor) => Some(factor),
            Scale::Fraction(n) => {
                if n % 120 == 0 {
                    Some((n / 120) as i32)
                } else {
                    None
                }
            },
        }
    }
}

/// The integer nearest to `num / den`; the even one of two that are as near.
pub open spec fn nearest_even(num: int, den: int) -> int {
    let q = num / den;
    let r = num % den;
    if 2 * r < den || (2 * r == den && q % 2 == 0) {
        q
    } else {
        q + 1
    }
}

/// How often a positive count of 120ths is doubled until it is [`ALIGNED`].
pub open spec fn doublings(n: int) -> nat
    decreases
            (if n < ALIGNED {
                ALIGNED - n
            } else {
                0
            }),
{
    if n <= 0 || n >= ALIGNED {
        0
    } else {
        1 + doublings(2 * n)
    }
}

/// How often a product is halved until it has no more than 53 bits.
pub open spec fn halvings(p: int) -> nat
    decreases p,
{
    if p < SIGNIFICANDS {
        0
    } else {
        1 + halvings(p / 2)
    }
}

/// Significand of the double nearest to `n / 120`; its exponent is
/// `-doublings(n)`.
pub open spec fn scale_significand(n: int) -> int {
    nearest_even(n * pow2(doublings(n)) as int, 120)
}

/// The integer `p` rounded to 53 significant bits.
pub open spec fn rounded_product(p: int) -> int {
    nearest_even(p, pow2(halvings(p)) as int) * pow2(halvings(p)) as int
}

/// The product of a length and a scale in double precision, rounded to an
/// integer, halves away from zero.
pub open spec fn scaled(length: int, n: int) -> int {
    let unit = pow2(doublings(n)) as int;
    (2 * rounded_product(length * scale_significand(n)) + unit) / (2 * unit)
}

/// Number of physical pixels that `length` logical ones take at `scale`: at
/// least one, and no more than a `u32` holds.
pub open spec fn extent(length: u32, scale: Scale) -> int {
    let n = scale.in_120ths();
    if n <= 0 || scaled(length as int, n) < 1 {
        1
    } else if scaled(length as int, n) > u32::MAX {
        u32::MAX as int
    } else {
        scaled(length as int, n)
    }
}

fn round_to_even(num: u128, den: u128) -> (r: u128)
    requires
        0 < den <= 0x1_0000_0000_0000_0000,
        num < 0x1_0000_0000_0000_0000_0000_0000,
    ensures
        r == nearest_even(num as int, den as int),
        num / den <= r <= num / den + 1,
{
    let q: u128 = num / den;
    let r: u128 = num % den;
    if 2 * r < den || (2 * r == den && q % 2 == 0) {
        q
    } else {
        q + 1
    }
}

/// A count of 120ths that is doubled until it is [`ALIGNED`] is not yet twice
/// that.
proof fn doublings_align(n: int)
    requires
        0 < n < 2 * ALIGNED,
    ensures
        n < ALIGNED ==> ALIGNED <= n * pow2(doublings(n)) < 2 * ALIGNED,
        n >= ALIGNED ==> doublings(n) == 0,
        pow2(doublings(n)) > 0,
        pow2(doublings(n)) < 2 * ALIGNED,
    decreases
            (if n < ALIGNED {
                ALIGNED - n
            } else {
                0
            }),
{
    lemma_pow2_pos(doublings(n));
    if n < ALIGNED {
        doublings_align(2 * n);
        let rest = doublings(2 * n);
        lemma_pow2_unfold(rest + 1);
        assert(n * (2 * pow2(rest)) == (2 * n) * pow2(rest)) by (nonlinear_arith);
        if 2 * n >= ALIGNED {
            vstd::arithmetic::power2::lemma2_to64();
        }
        let unit = pow2(doublings(n)) as int;
        assert(unit <= n * unit) by (nonlinear_arith)
            requires
                n >= 1,
                unit > 0,
        ;
    } else {
        vstd::arithmetic::power2::lemma2_to64();
    }
}

/// The significand of a scale has 53 bits, or is the first integer of 54.
proof fn significand_has_53_bits(n: int)
    requires
        0 < n < ALIGNED,
    ensures
        0x10_0000_0000_0000 <= scale_significand(n) <= 0x20_0000_0000_0000,
        pow2(doublings(n)) > 0,
{
    doublings_align(n);
}

/// Halving brings a product down to 53 bits, and no further.
proof fn halvings_fit(p: int)
    requires
        0 <= p,
    ensures
        0 <= p / (pow2(halvings(p)) as int) < SIGNIFICANDS,
        pow2(halvings(p)) > 0,
        halvings(p) > 0 ==> p >= 0x10_0000_0000_0000 * pow2(halvings(p)),
    decreases p,
{
    lemma_pow2_pos(halvings(p));
    if p < SIGNIFICANDS {
        vstd::arithmetic::power2::lemma2_to64();
    } else {
        halvings_fit(p / 2);
        let rest = halvings(p / 2);
        lemma_pow2_unfold(rest + 1);
        vstd::arithmetic::div_mod::lemma_div_denominator(p, 2, pow2(rest) as int);
        if rest > 0 {
            assert(p >= 0x10_0000_0000_0000 * (2 * pow2(rest)));
        } else {
            vstd::arithmetic::power2::lemma2_to64();
        }
    }
}

/// Number of physical pixels that `length` logical ones take at `scale`.
pub fn physical_extent(length: u32, scale: Scale) -> (r: u32)
    ensures
        r == extent(length, scale),
{
    let signed: i64 = scale.numerator();
    if signed <= 0 {
        return 1;
    }
    let n: u64 = signed as u64;
    let mut aligned: u64 = n;
    let mut unit: u64 = 1;
    let ghost mut k: nat = 0;
    proof {
        vstd::arithmetic::power2::lemma2_to64();
    }
    while aligned < ALIGNED
        invariant
            0 < aligned < 2 * ALIGNED,
            0 < unit <= aligned,
            aligned == n * unit,
            unit == pow2(k),
            doublings(n as int) == k + doublings(aligned as int),
        decreases
                (if aligned < ALIGNED {
                    ALIGNED - aligned
                } else {
                    0
                }),
    {
        proof {
            lemma_pow2_unfold(k + 1);
            k = k + 1;
            assert(n * (2 * unit) == 2 * (n * unit)) by (nonlinear_arith);
        }
        aligned = 2 * aligned;
        unit = 2 * unit;
    }
    assert(doublings(n as int) == k);
    let significand: u128 = round_to_even(aligned as u128, 120);
    assert(length * significand <= 0xffff_ffff * 0x20_0000_0000_0000) by (nonlinear_arith)
        requires
            length <= 0xffff_ffff,
            significand <= 0x20_0000_0000_0000,
    ;
    let product: u128 = length as u128 * significand;
    let mut high: u128 = product;
    let mut step: u128 = 1;
    let ghost mut j: nat = 0;
    assert(product as int / 1 == product);
    while high >= SIGNIFICANDS
        invariant
            step > 0,
            high == product / step,
            step == pow2(j),
            product <= 0xffff_ffff * 0x20_0000_0000_0000,
            halvings(product as int) == j + halvings(high as int),
            step <= 0x2_0000_0000,
        decreases high,
    {
        proof {
            lemma_pow2_unfold(j + 1);
            j = j + 1;
            vstd::arithmetic::div_mod::lemma_div_denominator(product as int, step as int, 2);
            vstd::arithmetic::div_mod::lemma_fundamental_div_mod(product as int, step as int);
            assert(step < 0x1_0000_0000) by (nonlinear_arith)
                requires
                    step * high <= 0xffff_ffff * 0x20_0000_0000_0000,
                    high >= 0x20_0000_0000_0000,
                    step > 0,
            ;
        }
        high = high / 2;
        step = 2 * step;
    }
    assert(halvings(product as int) == j);
    let top: u128 = round_to_even(product, step);
    assert(top * step <= 0x20_0000_0000_0000 * 0x2_0000_0000) by (nonlinear_arith)
        requires
            top <= 0x20_0000_0000_0000,
            step <= 0x2_0000_0000,
    ;
    let rounded: u128 = top * step;
    let value: u128 = (2 * rounded + unit as u128) / (2 * unit as u128);
    assert(value == scaled(length as int, n as int));
    if value < 1 {
        1
    } else if value > 0xffff_ffff {
        0xffff_ffff
    } else {
        value as u32
    }
}

/// Rounding to an integer is off by half a unit at most.
pub proof fn nearest_even_is_near(num: int, den: int)
    requires
        den > 0,
    ensures
        -den <= 2 * (den * nearest_even(num, den) - num) <= den,
{
    let q = num / den;
    let r = num % den;
    vstd::arithmetic::div_mod::lemma_fundamental_div_mod(num, den);
    assert(den * (q + 1) == den * q + den) by (nonlinear_arith);
}

/// Rounding to 53 bits is off by half of the last bit at most.
proof fn rounded_product_is_near(p: int)
    requires
        0 <= p,
    ensures
        ({
            let step = pow2(halvings(p)) as int;
            &&& step > 0
            &&& step == 1 || p >= 0x10_0000_0000_0000 * step
            &&& -step <= 2 * (rounded_product(p) - p) <= step
            &&& step == 1 ==> rounded_product(p) == p
        }),
{
    let step = pow2(halvings(p)) as int;
    halvings_fit(p);
    nearest_even_is_near(p, step);
    assert(step * nearest_even(p, step) == nearest_even(p, step) * step) by (nonlinear_arith);
    if halvings(p) == 0 {
        vstd::arithmetic::power2::lemma2_to64();
    }
}

/// What `scaled` works on: the unit in which the scale is held, its significand
/// and the product, with the bounds on what rounding does to each of them.
proof fn scaled_errors(length: int, n: int)
    requires
        0 <= length <= u32::MAX,
        0 < n < 0x40_0000_0000,
    ensures
        ({
            let unit = pow2(doublings(n)) as int;
            let m = scale_significand(n);
            let p = length * m;
            let step = pow2(halvings(p)) as int;
            let r = rounded_product(p);
            let v = scaled(length, n);
            &&& unit > 0x10_0000
            &&& n * unit >= ALIGNED
            &&& 0x10_0000_0000_0000 <= m <= 0x20_0000_0000_0000
            &&& -60 <= 120 * m - n * unit <= 60
            &&& p >= 0
            &&& step > 0
            &&& step == 1 || p >= 0x10_0000_0000_0000 * step
            &&& -step <= 2 * (r - p) <= step
            &&& step == 1 ==> r == p
            &&& -unit < 2 * (unit * v - r) <= unit
        }),
{
    let unit = pow2(doublings(n)) as int;
    let m = scale_significand(n);
    let p = length * m;
    doublings_align(n);
    significand_has_53_bits(n);
    nearest_even_is_near(n * unit, 120);
    assert(unit > 0x10_0000) by (nonlinear_arith)
        requires
            n * unit >= 540_431_955_284_459_520,
            0 < n < 0x40_0000_0000,
    ;
    assert(p >= 0) by (nonlinear_arith)
        requires
            p == length * m,
            length >= 0,
            m >= 0,
    ;
    rounded_product_is_near(p);
    let r = rounded_product(p);
    let v = scaled(length, n);
    vstd::arithmetic::div_mod::lemma_fundamental_div_mod(2 * r + unit, 2 * unit);
    assert((2 * unit) * v == 2 * (unit * v)) by (nonlinear_arith);
}

/// Double precision costs nothing here: as long as the exact product of length
/// and scale fits a `u32`, the number of pixels is an integer nearest to it.
pub proof fn scaled_is_nearest(length: u32, scale: Scale)
    requires
        scale.in_120ths() > 0,
        length * scale.in_120ths() < 120 * 0x1_0000_0000,
    ensures
        -120 <= 2 * (120 * scaled(length as int, scale.in_120ths()) - length * scale.in_120ths())
            <= 120,
{
    let w = length as int;
    let n = scale.in_120ths();
    scaled_errors(w, n);
    let unit = pow2(doublings(n)) as int;
    let m = scale_significand(n);
    let p = w * m;
    let step = pow2(halvings(p)) as int;
    let r = rounded_product(p);
    let v = scaled(w, n);
    // The significand is off by 60 / 120 of a unit at most.
    assert(-60 * w <= w * (120 * m - n * unit) <= 60 * w) by (nonlinear_arith)
        requires
            -60 <= 120 * m - n * unit <= 60,
            w >= 0,
    ;
    assert(w * (120 * m - n * unit) == 120 * p - (w * n) * unit) by (nonlinear_arith)
        requires
            p == w * m,
    ;
    // The product is small, so length and last bit are small against the unit.
    assert((w * n) * unit <= (120 * 0x1_0000_0000) * unit) by (nonlinear_arith)
        requires
            w * n < 120 * 0x1_0000_0000,
            unit > 0,
    ;
    assert(p >= w * 0x10_0000_0000_0000) by (nonlinear_arith)
        requires
            p == w * m,
            m >= 0x10_0000_0000_0000,
            w >= 0,
    ;
    assert(w * 0x8_0000 <= unit);
    assert(p <= 0x2_0000_0000 * unit);
    assert(step * 0x8_0000 <= unit);
    // Together the three errors stay below the next 120th.
    let e = 120 * v - w * n;
    assert(unit * e == 120 * (unit * v) - (w * n) * unit) by (nonlinear_arith)
        requires
            e == 120 * v - w * n,
    ;
    assert(2 * (unit * e) < 121 * unit);
    assert(2 * (unit * e) > -121 * unit);
    assert(-121 < 2 * e < 121) by (nonlinear_arith)
        requires
            -121 * unit < 2 * (unit * e) < 121 * unit,
            unit > 0,
    ;
}

/// Where the exact product of length and scale exceeds a `u32`, the number of
/// pixels is the largest that a `u32` holds.
pub proof fn extent_saturates(length: u32, scale: Scale)
    requires
        scale.in_120ths() > 0,
        length * scale.in_120ths() >= 120 * 0x1_0000_0000,
    ensures
        extent(length, scale) == u32::MAX,
{
    let w = length as int;
    let n = scale.in_120ths();
    scaled_errors(w, n);
    let unit = pow2(doublings(n)) as int;
    let m = scale_significand(n);
    let p = w * m;
    let step = pow2(halvings(p)) as int;
    let r = rounded_product(p);
    let v = scaled(w, n);
    let big = 0x20_0000_0000_0000int;
    // Each rounding loses one part in 2^53 at most.
    assert(120 * m * big >= (n * unit) * (big - 1)) by (nonlinear_arith)
        requires
            120 * m >= n * unit - 60,
            n * unit >= 540_431_955_284_459_520,
            big == 0x20_0000_0000_0000,
    ;
    assert(r * big >= p * (big - 1)) by (nonlinear_arith)
        requires
            2 * (r - p) >= -step,
            step == 1 ==> r == p,
            step == 1 || p >= 0x10_0000_0000_0000 * step,
            step > 0,
            p >= 0,
            big == 0x20_0000_0000_0000,
    ;
    let exact = (w * n) * unit;
    assert(120 * p * big >= exact * (big - 1)) by (nonlinear_arith)
        requires
            120 * m * big >= (n * unit) * (big - 1),
            p == w * m,
            exact == (w * n) * unit,
            w >= 0,
    ;
    assert(exact >= 120 * 0x1_0000_0000 * unit) by (nonlinear_arith)
        requires
            exact == (w * n) * unit,
            w * n >= 120 * 0x1_0000_0000,
            unit > 0,
    ;
    assert(120 * p * big >= 120 * 0x1_0000_0000 * unit * (big - 1)) by (nonlinear_arith)
        requires
            120 * p * big >= exact * (big - 1),
            exact >= 120 * 0x1_0000_0000 * unit,
            big == 0x20_0000_0000_0000,
    ;
    assert(p * 0x20_0000_0000_0000 >= (0x1_0000_0000 * unit) * 0x1f_ffff_ffff_ffff) by {
        assert(120 * 0x1_0000_0000 * unit * (big - 1) == 120 * ((0x1_0000_0000 * unit)
            * 0x1f_ffff_ffff_ffff)) by (nonlinear_arith)
            requires
                big == 0x20_0000_0000_0000,
        ;
    }
    assert(r * 0x20_0000_0000_0000 >= p * 0x1f_ffff_ffff_ffff);
    assert(r * 4 >= 0x1_0000_0000 * unit * 4 - unit);
    assert(4 * (unit * v) >= 4 * (0x1_0000_0000 * unit) - 3 * unit);
    assert(v >= 0x1_0000_0000) by (nonlinear_arith)
        requires
            4 * (unit * v) >= 4 * (0x1_0000_0000 * unit) - 3 * unit,
            unit > 0,
    ;
}

/// A whole scale multiplies exactly: the number of pixels is length times factor,
/// held between one and the largest `u32`.
pub proof fn whole_scale_is_exact(length: u32, factor: i32)
    requires
        factor > 0,
    ensures
        extent(length, Scale::Whole(factor)) == (if length == 0 {
            1
        } else if length * factor > u32::MAX {
            u32::MAX as int
        } else {
            length * factor
        }),
{
    let scale = Scale::Whole(factor);
    assert(length * (120 * factor) == 120 * (length * factor)) by (nonlinear_arith);
    if length * factor > u32::MAX {
        extent_saturates(length, scale);
        assert(length > 0) by (nonlinear_arith)
            requires
                length * factor > 0,
                factor > 0,
                length >= 0,
        ;
    } else {
        scaled_is_nearest(length, scale);
        assert(length == 0 ==> length * factor == 0) by (nonlinear_arith);
        assert(length > 0 ==> length * factor >= 1) by (nonlinear_arith)
            requires
                factor > 0,
        ;
    }
}

/// A whole factor is as many times 120 of the 120ths, so that both kinds of scale
/// can be the same number, and two of one kind are it only where they are equal.
pub proof fn scales_are_the_same_as_numbers(a: i32, b: i32, n: u32, k: u32)
    ensures
        Scale::Whole(a).in_120ths() == Scale::Fraction(n).in_120ths() <==> 120 * a == n,
        Scale::Whole(a).in_120ths() == Scale::Whole(b).in_120ths() <==> a == b,
        Scale::Fraction(n).in_120ths() == Scale::Fraction(k).in_120ths() <==> n == k,
        Scale::Whole(a).in_120ths() < Scale::Whole(b).in_120ths() <==> a < b,
        Scale::Fraction(n).in_120ths() < Scale::Fraction(k).in_120ths() <==> n < k,
        Scale::Whole(a).is_whole(),
        Scale::Fraction(n).is_whole() <==> n % 120 == 0,
{
}

/// A buffer of `length` logical pixels at `n` 120ths has a number of pixels nearest
/// to `length * n / 120`, and one where that is none.
pub proof fn fraction_is_nearest(length: u32, n: u32)
    requires
        length * n <= 120 * u32::MAX,
    ensures
        ({
            let pixels = extent(length, Scale::Fraction(n));
            ||| pixels == 1 && length * n <= 60
            ||| -60 <= 120 * pixels - length * n <= 60
        }),
{
    if n > 0 {
        scaled_is_nearest(length, Scale::Fraction(n));
    } else {
        assert(length * n == 0) by (nonlinear_arith)
            requires
                n == 0,
        ;
    }
}

/// A buffer takes all the pixels that can be counted where there should be more.
pub proof fn fraction_saturates(length: u32, n: u32)
    requires
        length * n >= 120 * 0x1_0000_0000,
    ensures
        extent(length, Scale::Fraction(n)) == u32::MAX,
{
    assert(n > 0) by (nonlinear_arith)
        requires
            length * n > 0,
            n >= 0,
    ;
    extent_saturates(length, Scale::Fraction(n));
}

/// A scale that is not above zero leaves one pixel, and so does a length of none.
pub proof fn no_scale_leaves_one_pixel(length: u32, factor: i32, n: u32)
    ensures
        factor <= 0 ==> extent(length, Scale::Whole(factor)) == 1,
        extent(length, Scale::Fraction(0)) == 1,
        extent(0, Scale::Whole(factor)) == 1,
        extent(0, Scale::Fraction(n)) == 1,
{
    if factor > 0 {
        whole_scale_is_exact(0, factor);
    }
    fraction_is_nearest(0, n);
    assert(0 * n == 0);
}

/// A multiple of the divisor is divided without a remainder.
proof fn nearest_even_of_multiple(k: int, den: int)
    requires
        den > 0,
    ensures
        nearest_even(k * den, den) == k,
{
    vstd::arithmetic::div_mod::lemma_div_multiples_vanish(k, den);
    vstd::arithmetic::div_mod::lemma_mod_multiples_basic(k, den);
    assert(k * den == den * k) by (nonlinear_arith);
}

proof fn eighths_above_zero_are_exact(length: u32, eighths: u32)
    requires
        eighths > 0,
        15 * eighths <= u32::MAX,
        length * eighths <= 8 * u32::MAX,
    ensures
        extent(length, Scale::Fraction((15 * eighths) as u32)) == (if length * eighths < 4 {
            1
        } else {
            (length * eighths + 4) / 8
        }),
{
    let w = length as int;
    let j = eighths as int;
    let n = 15 * j;
    scaled_errors(w, n);
    let d = doublings(n);
    let unit = pow2(d) as int;
    vstd::arithmetic::power2::lemma2_to64();
    assert(d >= 3);
    let c = (d - 3) as nat;
    let eighth = pow2(c) as int;
    lemma_pow2_pos(c);
    lemma_pow2_unfold(d);
    lemma_pow2_unfold((d - 1) as nat);
    lemma_pow2_unfold((d - 2) as nat);
    assert(unit == 8 * eighth);
    assert(n * unit == (j * eighth) * 120) by (nonlinear_arith)
        requires
            n == 15 * j,
            unit == 8 * eighth,
    ;
    nearest_even_of_multiple(j * eighth, 120);
    let m = scale_significand(n);
    assert(m == j * eighth);
    let a = w * j;
    let p = w * m;
    assert(p == a * eighth) by (nonlinear_arith)
        requires
            p == w * m,
            m == j * eighth,
            a == w * j,
    ;
    let h = halvings(p);
    let step = pow2(h) as int;
    if h > 0 {
        halvings_fit(p);
        assert(step < eighth) by (nonlinear_arith)
            requires
                0x10_0000_0000_0000 * step <= p,
                p == a * eighth,
                a <= 8 * 0xffff_ffff,
                eighth > 0,
                step > 0,
        ;
        if h > c {
            vstd::arithmetic::power2::lemma_pow2_strictly_increases(c, h);
        }
        assert(h <= c);
    } else {
        assert(step == 1);
    }
    if h <= c {
        vstd::arithmetic::power2::lemma_pow2_adds(h, (c - h) as nat);
        let times = pow2((c - h) as nat) as int;
        assert(eighth == step * times);
        assert(p == (a * times) * step) by (nonlinear_arith)
            requires
                p == a * eighth,
                eighth == step * times,
        ;
        lemma_pow2_pos(h);
        nearest_even_of_multiple(a * times, step);
    } else {
        assert(p * 1 == p);
        nearest_even_of_multiple(p, 1);
    }
    assert(rounded_product(p) == p);
    let v = scaled(w, n);
    assert(2 * p + unit == eighth * (2 * a + 8)) by (nonlinear_arith)
        requires
            p == a * eighth,
            unit == 8 * eighth,
    ;
    assert(2 * unit == eighth * 16);
    assert(a >= 0) by (nonlinear_arith)
        requires
            a == w * j,
            w >= 0,
            j >= 0,
    ;
    vstd::arithmetic::div_mod::lemma_div_denominator(eighth * (2 * a + 8), eighth, 16);
    vstd::arithmetic::div_mod::lemma_div_multiples_vanish(2 * a + 8, eighth);
    assert(v == (2 * a + 8) / 16);
    assert((2 * a + 8) / 16 == (a + 4) / 8);
}

/// Scales of whole eighths, which a compositor offers most, multiply exactly, and
/// halves of a pixel are rounded up.
pub proof fn eighths_are_exact(length: u32, eighths: u32)
    requires
        15 * eighths <= u32::MAX,
        length * eighths <= 8 * u32::MAX,
    ensures
        extent(length, Scale::Fraction((15 * eighths) as u32)) == (if length * eighths < 4 {
            1
        } else {
            (length * eighths + 4) / 8
        }),
{
    if eighths > 0 {
        eighths_above_zero_are_exact(length, eighths);
    } else {
        assert(length * eighths == 0) by (nonlinear_arith)
            requires
                eighths == 0,
        ;
    }
}

/// Rounding to an integer that is off by just half a unit gives the even one.
proof fn nearest_even_breaks_ties(num: int, den: int)
    requires
        den > 0,
        ({
            let off = 2 * (den * nearest_even(num, den) - num);
            off == den || off == -den
        }),
    ensures
        nearest_even(num, den) % 2 == 0,
{
    let q = num / den;
    vstd::arithmetic::div_mod::lemma_fundamental_div_mod(num, den);
    assert(den * (q + 1) == den * q + den) by (nonlinear_arith);
}

/// The size of a buffer is the product of its length and scale in double precision,
/// rounded to whole pixels. With the result `(k, m, h, q)`: `m / 2^k` is the double
/// nearest to the scale, `q * 2^h / 2^k` the double nearest to the product of that
/// with the length, each with a significand of 53 bits and the even one where two are
/// as near, and the number of pixels is that product rounded, halves up, and held
/// between one and the largest `u32`.
pub proof fn extent_is_that_of_doubles(length: u32, scale: Scale) -> (r: (nat, int, nat, int))
    requires
        scale.in_120ths() > 0,
    ensures
        ({
            let n = scale.in_120ths();
            let (k, m, h, q) = r;
            let unit = pow2(k) as int;
            let step = pow2(h) as int;
            let exact = length * m;
            &&& 120 * 0x10_0000_0000_0000 <= n * unit < 120 * 0x20_0000_0000_0000
            &&& -60 <= 120 * m - n * unit <= 60
            &&& 120 * m - n * unit == 60 || 120 * m - n * unit == -60 ==> m % 2 == 0
            &&& h > 0 ==> 0x10_0000_0000_0000 * step <= exact
            &&& exact < 0x20_0000_0000_0000 * step
            &&& -step <= 2 * (step * q - exact) <= step
            &&& 2 * (step * q - exact) == step || 2 * (step * q - exact) == -step ==> q % 2 == 0
            &&& extent(length, scale) == {
                let pixels = (2 * (step * q) + unit) / (2 * unit);
                if pixels < 1 {
                    1
                } else if pixels > 0xffff_ffff {
                    0xffff_ffff
                } else {
                    pixels
                }
            }
        }),
{
    let n = scale.in_120ths();
    let w = length as int;
    scaled_errors(w, n);
    doublings_align(n);
    let k = doublings(n);
    let unit = pow2(k) as int;
    let m = scale_significand(n);
    if 120 * m - n * unit == 60 || 120 * m - n * unit == -60 {
        nearest_even_breaks_ties(n * unit, 120);
    }
    let p = w * m;
    let h = halvings(p);
    let step = pow2(h) as int;
    halvings_fit(p);
    let q = nearest_even(p, step);
    nearest_even_is_near(p, step);
    if 2 * (step * q - p) == step || 2 * (step * q - p) == -step {
        nearest_even_breaks_ties(p, step);
    }
    assert(q * step == step * q) by (nonlinear_arith);
    vstd::arithmetic::div_mod::lemma_fundamental_div_mod(p, step);
    vstd::arithmetic::div_mod::lemma_mod_bound(p, step);
    assert(p < 0x20_0000_0000_0000 * step) by (nonlinear_arith)
        requires
            p == step * (p / step) + p % step,
            p % step < step,
            p / step <= 0x1f_ffff_ffff_ffff,
            step > 0,
    ;
    (k, m, h, q)
}

} // verus!
