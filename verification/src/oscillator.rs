//! A band-limited sawtooth oscillator.
//!
//! The oscillator keeps no phase of its own: the caller owns the phase and
//! passes it in. The naive sawtooth `2·phase − 1` jumps where the phase wraps;
//! within one window of either edge of the phase range a quadratic correction
//! (polyBLEP) rounds the jump off, which removes most of the aliasing. The
//! window is one sample period wide, `1 / sample_rate`.

use crate::fixed::{
    fraction, lemma_portion_bounds, lemma_scaled_bounds, portion, scale, scaled, ONE,
};
use vstd::arithmetic::div_mod::{
    lemma_div_by_multiple, lemma_div_is_ordered, lemma_fundamental_div_mod_converse,
};
use vstd::prelude::*;

verus! {

/// A sawtooth generator for a fixed sample rate.
#[derive(Clone, Copy, Debug)]
pub struct Oscillator {
    sample_rate: u32,
}

/// The width of the correction window for a sample rate in hertz.
pub open spec fn blep_window(rate: int) -> int {
    (ONE as int) / rate
}

/// The uncorrected sawtooth at `phase`.
pub open spec fn naive_saw(phase: int) -> int {
    2 * phase - ONE
}

/// The correction at phase `t` for a window of width `w`. With `u` the
/// distance from the nearer edge as a share of the window, it is
/// `−(1 − u)²` just after the wrap and `(1 − u)²` just before it.
pub open spec fn poly_blep(t: int, w: int) -> int {
    if t < w {
        let u = portion(ONE as int, t, w);
        2 * u - scaled(u, u) - ONE
    } else if t > ONE - w {
        let u = portion(ONE as int, ONE - t, w);
        scaled(u, u) - 2 * u + ONE
    } else {
        0
    }
}

/// The band-limited sawtooth at `phase` for a sample rate in hertz.
pub open spec fn saw_sample(phase: int, rate: int) -> int {
    naive_saw(phase) - poly_blep(phase, blep_window(rate))
}

/// The square of a share, as a share, is at least `2·u − 1`.
proof fn lemma_square_above_tangent(u: int)
    requires
        0 <= u <= ONE,
    ensures
        2 * u - ONE <= scaled(u, u) <= u,
{
    let one = ONE as int;
    lemma_scaled_bounds(u, u);
    assert((2 * u - one) * one <= u * u) by (nonlinear_arith)
        requires
            0 <= u <= one,
    {
        assert((one - u) * (one - u) >= 0);
    }
    lemma_div_is_ordered((2 * u - one) * one, u * u, one);
    lemma_fundamental_div_mod_converse((2 * u - one) * one, one, 2 * u - one, 0);
}

/// A distance inside the window, as a share of the window, is at least the
/// distance itself.
proof fn lemma_share_above_distance(t: int, w: int)
    requires
        0 <= t < w <= ONE,
    ensures
        t <= portion(ONE as int, t, w) <= ONE,
{
    let one = ONE as int;
    lemma_portion_bounds(one, t, w);
    assert(t * w <= one * t) by (nonlinear_arith)
        requires
            0 <= t,
            w <= one,
    ;
    lemma_div_is_ordered(t * w, one * t, w);
    lemma_div_by_multiple(t, w);
}

/// Every sample lies between −1 and 1.
pub proof fn lemma_saw_sample_bounds(phase: int, rate: int)
    requires
        0 <= phase < ONE,
        0 < rate,
    ensures
        -ONE <= saw_sample(phase, rate) <= ONE,
{
    let one = ONE as int;
    let w = blep_window(rate);
    assert(0 <= w <= one) by {
        lemma_div_is_ordered(0, one, rate);
        vstd::arithmetic::div_mod::lemma_div_is_ordered_by_denominator(one, 1, rate);
    }
    if phase < w {
        let u = portion(one, phase, w);
        lemma_share_above_distance(phase, w);
        lemma_square_above_tangent(u);
    } else if phase > one - w {
        let v = one - phase;
        let u = portion(one, v, w);
        lemma_share_above_distance(v, w);
        lemma_square_above_tangent(u);
    }
}

impl View for Oscillator {
    type V = int;

    /// The sample rate in hertz.
    closed spec fn view(&self) -> int {
        self.sample_rate as int
    }
}

impl Oscillator {
    /// The sample rate is positive.
    pub open spec fn wf(&self) -> bool {
        self@ > 0
    }

    /// Creates an oscillator for the given sample rate in hertz.
    pub fn new(sample_rate: u32) -> (osc: Self)
        requires
            sample_rate > 0,
        ensures
            osc@ == sample_rate,
            osc.wf(),
    {
        Oscillator { sample_rate }
    }

    /// The sample at `phase`, a level between −1 and 1.
    pub fn generate(&self, phase: u64) -> (sample: i64)
        requires
            self.wf(),
            phase < ONE,
        ensures
            sample == saw_sample(phase as int, self@),
            -ONE <= sample <= ONE,
    {
        proof {
            lemma_saw_sample_bounds(phase as int, self@);
        }
        let w: u64 = (ONE as u64) / (self.sample_rate as u64);
        let naive: i64 = 2 * (phase as i64) - ONE;
        naive - Self::poly_blep(phase, w)
    }

    /// The correction at phase `t` for a window of width `w`, both in
    /// billionths of a turn.
    pub fn poly_blep(t: u64, w: u64) -> (c: i64)
        requires
            t < ONE,
            w <= ONE,
        ensures
            c == poly_blep(t as int, w as int),
            -ONE <= c <= ONE,
    {
        if t < w {
            let u = fraction(ONE, t, w);
            let uu = scale(u, u);
            2 * u - uu - ONE
        } else if t > (ONE as u64) - w {
            let u = fraction(ONE, (ONE as u64) - t, w);
            let uu = scale(u, u);
            uu - 2 * u + ONE
        } else {
            0
        }
    }
}

} // verus!
