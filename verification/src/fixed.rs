//! Fixed-point units and the arithmetic shared by every stage of the signal path.
//!
//! Levels (amplitudes, envelope values, samples) are signed integers counted in
//! billionths, so [`ONE`] stands for 1.0. Times are unsigned picoseconds,
//! frequencies are micro-hertz and phases are billionths of a turn. Every
//! quotient rounds towards negative infinity, which is what `/` means on `int`
//! for a positive divisor.

use vstd::arithmetic::div_mod::{
    lemma_div_by_multiple, lemma_div_is_ordered, lemma_fundamental_div_mod,
    lemma_fundamental_div_mod_converse,
};
use vstd::prelude::*;

verus! {

/// The level 1.0.
pub const ONE: i64 = 1_000_000_000;

/// One second, in picoseconds.
pub const PICOS_PER_SECOND: u64 = 1_000_000_000_000;

/// The largest magnitude that [`div_floor`] accepts.
pub const DIV_LIMIT: i128 = 0x1000_0000_0000_0000_0000_0000_0000_0000;

/// The largest argument that [`isqrt`] accepts.
pub const SQRT_LIMIT: u128 = 1_000_000_000_000_000_000_000_000_000_000;

/// `x` multiplied by the level `factor`.
pub open spec fn scaled(x: int, factor: int) -> int {
    x * factor / (ONE as int)
}

/// The part `num / den` of `level`.
pub open spec fn portion(level: int, num: int, den: int) -> int {
    level * num / den
}

/// `r` is the integer part of the square root of `x`.
pub open spec fn is_sqrt_floor(x: int, r: int) -> bool {
    0 <= r && r * r <= x < (r + 1) * (r + 1)
}

/// The integer part of the square root of `x`.
pub open spec fn sqrt_floor(x: int) -> int {
    choose|r: int| is_sqrt_floor(x, r)
}

/// A number has one integer square root only.
pub proof fn lemma_sqrt_floor_unique(x: int, a: int, b: int)
    requires
        is_sqrt_floor(x, a),
        is_sqrt_floor(x, b),
    ensures
        a == b,
{
    if a < b {
        assert((a + 1) * (a + 1) <= b * b) by (nonlinear_arith)
            requires
                0 <= a + 1 <= b,
        ;
    } else if b < a {
        assert((b + 1) * (b + 1) <= a * a) by (nonlinear_arith)
            requires
                0 <= b + 1 <= a,
        ;
    }
}

/// Every non-negative number has an integer square root.
pub proof fn lemma_sqrt_exists(x: int)
    requires
        0 <= x,
    ensures
        is_sqrt_floor(x, sqrt_floor(x)),
    decreases x,
{
    if x == 0 {
        assert(is_sqrt_floor(0, 0));
    } else {
        lemma_sqrt_exists(x - 1);
        let r = sqrt_floor(x - 1);
        if (r + 1) * (r + 1) <= x {
            assert((r + 1) * (r + 1) == x);
            assert(x < (r + 2) * (r + 2)) by (nonlinear_arith)
                requires
                    (r + 1) * (r + 1) == x,
                    0 <= r,
            ;
            assert(is_sqrt_floor(x, r + 1));
        } else {
            assert(is_sqrt_floor(x, r));
        }
    }
}

/// Whatever meets the definition of the integer square root is the square root.
pub proof fn lemma_sqrt_floor_is(x: int, r: int)
    requires
        is_sqrt_floor(x, r),
    ensures
        sqrt_floor(x) == r,
{
    lemma_sqrt_floor_unique(x, r, sqrt_floor(x));
}

/// A level times a level between 0 and 1 lies between zero and the first level.
pub proof fn lemma_scaled_bounds(x: int, factor: int)
    requires
        0 <= factor <= ONE,
    ensures
        x >= 0 ==> 0 <= scaled(x, factor) <= x,
        x <= 0 ==> x <= scaled(x, factor) <= 0,
{
    let one = ONE as int;
    if x >= 0 {
        assert(0 <= x * factor <= x * one) by (nonlinear_arith)
            requires
                0 <= x,
                0 <= factor <= one,
        ;
        lemma_div_is_ordered(0, x * factor, one);
        lemma_div_is_ordered(x * factor, x * one, one);
        lemma_div_by_multiple(x, one);
    } else {
        assert(x * one <= x * factor <= 0) by (nonlinear_arith)
            requires
                x <= 0,
                0 <= factor <= one,
        ;
        lemma_div_is_ordered(x * one, x * factor, one);
        lemma_div_is_ordered(x * factor, 0, one);
        assert((x * one) / one == x) by {
            assert(x * one == x * one + 0);
            lemma_fundamental_div_mod_converse(x * one, one, x, 0);
        }
    }
}

/// A part of a non-negative level lies between zero and the level.
pub proof fn lemma_portion_bounds(level: int, num: int, den: int)
    requires
        0 <= level,
        0 <= num <= den,
        0 < den,
    ensures
        0 <= portion(level, num, den) <= level,
{
    assert(0 <= level * num <= level * den) by (nonlinear_arith)
        requires
            0 <= level,
            0 <= num <= den,
    ;
    lemma_div_is_ordered(0, level * num, den);
    lemma_div_is_ordered(level * num, level * den, den);
    lemma_div_by_multiple(level, den);
}

/// A larger numerator gives a larger part.
pub proof fn lemma_portion_monotonic(level: int, a: int, b: int, den: int)
    requires
        0 <= level,
        a <= b,
        0 < den,
    ensures
        portion(level, a, den) <= portion(level, b, den),
{
    assert(level * a <= level * b) by (nonlinear_arith)
        requires
            0 <= level,
            a <= b,
    ;
    lemma_div_is_ordered(level * a, level * b, den);
}

/// The quotient of `n` by `d`, rounded towards negative infinity.
pub fn div_floor(n: i128, d: i128) -> (q: i128)
    requires
        0 < d <= DIV_LIMIT,
        -DIV_LIMIT <= n <= DIV_LIMIT,
    ensures
        q == n / d,
{
    if n >= 0 {
        n / d
    } else {
        let m: i128 = -n;
        let c: i128 = (m + (d - 1)) / d;
        proof {
            let up: int = m + (d - 1);
            let den: int = d as int;
            let quo: int = c as int;
            lemma_fundamental_div_mod(up, den);
            let r: int = up % den;
            assert(den * quo == quo * den) by (nonlinear_arith);
            assert((-quo) * den == -(quo * den)) by (nonlinear_arith);
            assert(n == (-quo) * den + (den - 1 - r));
            lemma_fundamental_div_mod_converse(n as int, den, -quo, den - 1 - r);
        }
        -c
    }
}

/// Multiplies `x` by a level between 0 and 1.
pub fn scale(x: i64, factor: i64) -> (r: i64)
    requires
        0 <= factor <= ONE,
    ensures
        r == scaled(x as int, factor as int),
        x >= 0 ==> 0 <= r <= x,
        x <= 0 ==> x <= r <= 0,
{
    proof {
        lemma_scaled_bounds(x as int, factor as int);
        assert(-DIV_LIMIT <= x * factor <= DIV_LIMIT) by (nonlinear_arith)
            requires
                -0x8000_0000_0000_0000 <= x <= 0x7fff_ffff_ffff_ffff,
                0 <= factor <= 1_000_000_000,
        ;
    }
    let wide: i128 = (x as i128) * (factor as i128);
    let q: i128 = div_floor(wide, ONE as i128);
    q as i64
}

/// Takes the part `num / den` of a non-negative level.
pub fn fraction(level: i64, num: u64, den: u64) -> (r: i64)
    requires
        0 <= level,
        num <= den,
        0 < den,
    ensures
        r == portion(level as int, num as int, den as int),
        0 <= r <= level,
{
    proof {
        lemma_portion_bounds(level as int, num as int, den as int);
        assert(0 <= level * num <= 0x7fff_ffff_ffff_ffff * 0xffff_ffff_ffff_ffff) by (nonlinear_arith)
            requires
                0 <= level <= 0x7fff_ffff_ffff_ffff,
                0 <= num <= 0xffff_ffff_ffff_ffff,
        ;
    }
    let wide: u128 = (level as u128) * (num as u128);
    let q: u128 = wide / (den as u128);
    q as i64
}

/// The integer part of the square root of `x`, found by bisection.
pub fn isqrt(x: u128) -> (r: u128)
    requires
        x <= SQRT_LIMIT,
    ensures
        r == sqrt_floor(x as int),
        is_sqrt_floor(x as int, r as int),
{
    let mut lo: u128 = 0;
    let mut hi: u128 = 1_000_000_000_000_001;
    while hi - lo > 1
        invariant
            lo < hi <= 1_000_000_000_000_001,
            lo * lo <= x < hi * hi,
        decreases hi - lo,
    {
        let mid: u128 = lo + (hi - lo) / 2;
        assert(mid * mid < hi * hi) by (nonlinear_arith)
            requires
                0 <= mid < hi,
        ;
        assert(hi * hi <= 1_000_000_000_000_001 * 1_000_000_000_000_001) by (nonlinear_arith)
            requires
                0 <= hi <= 1_000_000_000_000_001,
        ;
        if mid * mid <= x {
            lo = mid;
        } else {
            hi = mid;
        }
    }
    proof {
        lemma_sqrt_floor_is(x as int, lo as int);
    }
    lo
}

} // verus!
