//! The mixdown of one sample: loudness compensation for polyphony, soft
//! clipping, and the blend of the dry signal with the reverb.

use crate::fixed::{isqrt, lemma_scaled_bounds, lemma_sqrt_exists, scale, scaled, sqrt_floor, ONE};
use crate::reverb::OUTPUT_LIMIT;
use vstd::arithmetic::div_mod::{
    lemma_div_by_multiple, lemma_div_by_multiple_is_strongly_ordered, lemma_div_is_ordered,
    lemma_fundamental_div_mod,
};
use vstd::arithmetic::mul::{lemma_mul_inequality_converse, lemma_mul_strict_inequality_converse};
use vstd::prelude::*;

verus! {

/// The largest magnitude of a sum that [`normalize`] accepts.
pub const SUM_LIMIT: i64 = 1_000_000_000_000_000;

/// The magnitude at and above which the soft clip is saturated: 3.0.
pub const CLIP_KNEE: i64 = 3_000_000_000;

/// The share of the dry signal in the output: 0.7.
pub const DRY_LEVEL: i64 = 700_000_000;

/// The share of the reverb in the output: 0.3.
pub const WET_LEVEL: i64 = 300_000_000;

/// The sum of `count` voices, compensated for loudness: `sum / √count`,
/// rounded towards zero. This is not the average: `count` equal voices come
/// out `√count` times as loud as one.
pub open spec fn normalized(sum: int, count: int) -> int {
    if sum >= 0 {
        sqrt_floor(sum * sum / count)
    } else {
        -sqrt_floor(sum * sum / count)
    }
}

/// The soft clip of a magnitude `m`: `m · (27 + m²) / (27 + 9·m²)` below 3,
/// which is the Padé approximant of `tanh` with a cubic numerator and a
/// quadratic denominator, and the largest level below 1 from 3 on.
pub open spec fn clipped_magnitude(m: int) -> int {
    if m >= CLIP_KNEE {
        ONE - 1
    } else {
        m * (27 * ONE * ONE + m * m) / (27 * ONE * ONE + 9 * m * m)
    }
}

/// The soft clip of a level: the clipped magnitude with the level's sign.
pub open spec fn clipped(x: int) -> int {
    if x >= 0 {
        clipped_magnitude(x)
    } else {
        -clipped_magnitude(-x)
    }
}

/// The output for a dry and a wet level: `0.7 · dry + 0.3 · wet`.
pub open spec fn wet_dry_mix(dry: int, wet: int) -> int {
    scaled(dry, DRY_LEVEL as int) + scaled(wet, WET_LEVEL as int)
}

/// The normalized sum `n` is `sum / √count` rounded towards zero: it has the
/// sign of the sum, and `count · n²` is the largest such product that does
/// not exceed `sum²`.
pub proof fn lemma_normalized(sum: int, count: int)
    requires
        0 < count,
    ensures
        ({
            let n = normalized(sum, count);
            let m = if sum >= 0 {
                n
            } else {
                -n
            };
            &&& 0 <= m
            &&& count * (m * m) <= sum * sum < count * ((m + 1) * (m + 1))
        }),
{
    let sq = sum * sum;
    let q = sq / count;
    assert(sq >= 0) by (nonlinear_arith)
        requires
            sq == sum * sum,
    ;
    lemma_fundamental_div_mod(sq, count);
    lemma_div_is_ordered(0, sq, count);
    lemma_sqrt_exists(q);
    let m = sqrt_floor(q);
    assert(count * (m * m) <= sq && sq < count * ((m + 1) * (m + 1))) by (nonlinear_arith)
        requires
            sq == count * q + sq % count,
            0 <= sq % count < count,
            m * m <= q < (m + 1) * (m + 1),
    ;
}

/// Polyphony scales by the square root: `count` voices that each add `s` to
/// the sum give `s · √count` rounded towards zero, not `s · count`.
pub proof fn lemma_polyphony_scaling(s: int, count: int)
    requires
        0 < count,
    ensures
        ({
            let n = normalized(count * s, count);
            let m = if s >= 0 {
                n
            } else {
                -n
            };
            &&& 0 <= m
            &&& m * m <= count * (s * s) < (m + 1) * (m + 1)
        }),
{
    let sum = count * s;
    lemma_normalized(sum, count);
    let n = normalized(sum, count);
    let m = if sum >= 0 {
        n
    } else {
        -n
    };
    assert(sum >= 0 <==> s >= 0 || sum == 0) by (nonlinear_arith)
        requires
            sum == count * s,
            0 < count,
    ;
    assert(sum * sum == (count * (s * s)) * count) by (nonlinear_arith)
        requires
            sum == count * s,
    ;
    assert(count * (m * m) == (m * m) * count) by (nonlinear_arith);
    assert(count * ((m + 1) * (m + 1)) == ((m + 1) * (m + 1)) * count) by (nonlinear_arith);
    lemma_mul_inequality_converse(m * m, count * (s * s), count);
    lemma_mul_strict_inequality_converse(count * (s * s), (m + 1) * (m + 1), count);
    if sum == 0 {
        assert(m == 0) by (nonlinear_arith)
            requires
                0 <= m,
                count * (m * m) <= sum * sum,
                sum == 0,
                0 < count,
        ;
    }
}

/// Below the knee the clipped magnitude is below 1 and not above the input.
pub proof fn lemma_clipped_magnitude_bounds(m: int)
    requires
        0 <= m,
    ensures
        0 <= clipped_magnitude(m) < ONE,
        clipped_magnitude(m) <= m,
{
    if m < CLIP_KNEE {
        let one = ONE as int;
        let base = 27 * one * one;
        let num = m * (base + m * m);
        let den = base + 9 * m * m;
        assert(0 < den && 0 <= num && num <= m * den && num < one * den) by (nonlinear_arith)
            requires
                0 <= m < 3 * one,
                one == 1_000_000_000,
                base == 27 * one * one,
                num == m * (base + m * m),
                den == base + 9 * m * m,
        {
            let gap = 3 * one - m;
            assert(gap > 0);
            assert(gap * gap * gap > 0);
            assert(one * den - num == gap * gap * gap);
        }
        lemma_div_is_ordered(0, num, den);
        lemma_div_is_ordered(num, m * den, den);
        lemma_div_by_multiple(m, den);
        lemma_div_by_multiple_is_strongly_ordered(num, one * den, one, den);
        lemma_div_by_multiple(one, den);
    }
}

/// The soft clip bounds every level: its output is above −1 and below 1.
pub proof fn lemma_clipped_bounds(x: int)
    ensures
        -ONE < clipped(x) < ONE,
        x >= 0 ==> 0 <= clipped(x) <= x,
        x <= 0 ==> x <= clipped(x) <= 0,
{
    if x >= 0 {
        lemma_clipped_magnitude_bounds(x);
    } else {
        lemma_clipped_magnitude_bounds(-x);
    }
}

/// Compensates the sum of `count` voices for loudness.
pub fn normalize(sum: i64, count: usize) -> (n: i64)
    requires
        0 < count,
        -SUM_LIMIT <= sum <= SUM_LIMIT,
    ensures
        n == normalized(sum as int, count as int),
        -SUM_LIMIT <= n <= SUM_LIMIT,
{
    let magnitude: u128 = if sum >= 0 {
        sum as u128
    } else {
        (-sum) as u128
    };
    proof {
        assert(magnitude * magnitude == sum * sum) by (nonlinear_arith)
            requires
                magnitude == sum || magnitude == -sum,
        ;
        assert(0 <= magnitude * magnitude <= 1_000_000_000_000_000 * 1_000_000_000_000_000)
            by (nonlinear_arith)
            requires
                0 <= magnitude <= 1_000_000_000_000_000,
        ;
        lemma_div_is_ordered(0, (sum * sum) as int, count as int);
        lemma_div_is_ordered_by_denominator_bound((sum * sum) as int, count as int);
    }
    let square: u128 = magnitude * magnitude;
    let root: u128 = isqrt(square / (count as u128));
    proof {
        assert(root <= 1_000_000_000_000_000) by (nonlinear_arith)
            requires
                root * root <= square / (count as u128),
                square / (count as u128) <= 1_000_000_000_000_000 * 1_000_000_000_000_000,
                0 <= root,
        ;
    }
    if sum >= 0 {
        root as i64
    } else {
        -(root as i64)
    }
}

/// A non-negative number divided by a positive one is not above the number.
proof fn lemma_div_is_ordered_by_denominator_bound(x: int, d: int)
    requires
        0 <= x,
        0 < d,
    ensures
        x / d <= x,
{
    vstd::arithmetic::div_mod::lemma_div_is_ordered_by_denominator(x, 1, d);
}

/// Bounds a level smoothly: the output is above −1 and below 1.
pub fn soft_clip(x: i64) -> (y: i64)
    ensures
        y == clipped(x as int),
        -ONE < y < ONE,
{
    proof {
        lemma_clipped_bounds(x as int);
    }
    if x >= CLIP_KNEE {
        ONE - 1
    } else if x <= -CLIP_KNEE {
        -(ONE - 1)
    } else {
        let m: u128 = if x >= 0 {
            x as u128
        } else {
            (-x) as u128
        };
        proof {
            lemma_clipped_magnitude_bounds(m as int);
            assert(0 <= m * m <= 3_000_000_000 * 3_000_000_000) by (nonlinear_arith)
                requires
                    0 <= m <= 3_000_000_000,
            ;
            assert(0 <= 9 * m * m <= 9 * (3_000_000_000 * 3_000_000_000)) by (nonlinear_arith)
                requires
                    0 <= m * m <= 3_000_000_000 * 3_000_000_000,
            ;
            assert(0 <= m * (27 * ONE * ONE + m * m) <= 3_000_000_000 * (36
                * 1_000_000_000_000_000_000)) by (nonlinear_arith)
                requires
                    0 <= m <= 3_000_000_000,
                    0 <= m * m <= 3_000_000_000 * 3_000_000_000,
                    ONE == 1_000_000_000,
            ;
        }
        let base: u128 = 27 * (ONE as u128) * (ONE as u128);
        let square: u128 = m * m;
        let q: u128 = m * (base + square) / (base + 9 * square);
        proof {
            assert(9 * square == 9 * m * m) by (nonlinear_arith)
                requires
                    square == m * m,
            ;
        }
        if x >= 0 {
            q as i64
        } else {
            -(q as i64)
        }
    }
}

/// Blends the clipped signal with the reverb's output.
pub fn mix_wet_dry(dry: i64, wet: i64) -> (out: i64)
    requires
        -ONE <= dry <= ONE,
        -OUTPUT_LIMIT <= wet <= OUTPUT_LIMIT,
    ensures
        out == wet_dry_mix(dry as int, wet as int),
{
    proof {
        lemma_scaled_bounds(dry as int, DRY_LEVEL as int);
        lemma_scaled_bounds(wet as int, WET_LEVEL as int);
    }
    scale(dry, DRY_LEVEL) + scale(wet, WET_LEVEL)
}

} // verus!
