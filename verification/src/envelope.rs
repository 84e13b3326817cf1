//! The ADSR amplitude envelope: a four-stage state machine over time.
//!
//! Each stage has a target level that depends on the time since the stage was
//! entered. The output does not jump to the target: every update moves it a
//! fraction of the remaining distance, which removes clicks at stage changes.
//! The decay stage falls linearly from 1.0 to the sustain level.

use crate::fixed::{
    fraction, lemma_portion_bounds, lemma_portion_monotonic, lemma_scaled_bounds, portion, scale,
    scaled, ONE,
};
use vstd::arithmetic::div_mod::lemma_div_by_multiple;
use vstd::prelude::*;

verus! {

/// The level at and below which a released envelope counts as silent (0.001).
pub const THRESHOLD: i64 = 1_000_000;

/// The time constant of the output smoothing: 1/50 of a second, in picoseconds.
pub const SMOOTHING_TIME: u64 = 20_000_000_000;

/// The longest time an envelope keeps track of, in picoseconds.
pub const CLOCK_MAX: u64 = 0xffff_ffff_ffff_ffff;

/// Stage durations in picoseconds and the sustain level.
#[derive(Clone, Copy, Debug)]
pub struct EnvelopeParams {
    pub attack_time: u64,
    pub decay_time: u64,
    pub sustain_level: i64,
    pub release_time: u64,
}

/// The stage of an envelope. Stages only advance in the order listed.
#[derive(Clone, Copy, Debug, PartialEq, Eq, Structural)]
pub enum EnvelopeState {
    Attack,
    Decay,
    Sustain,
    Release,
}

/// An envelope generator for one note.
#[derive(Clone, Copy, Debug)]
pub struct Envelope {
    params: EnvelopeParams,
    state: EnvelopeState,
    value: i64,
    elapsed: u64,
    release_level: i64,
}

/// What an [`Envelope`] holds, as mathematical integers.
pub struct EnvelopeView {
    pub params: EnvelopeParams,
    pub state: EnvelopeState,
    /// The smoothed output level.
    pub value: int,
    /// Time since the current stage was entered.
    pub elapsed: int,
    /// The output level at the moment of release.
    pub release_level: int,
}

/// The attack target after `elapsed`: a linear rise from 0 to 1.
pub open spec fn attack_level(p: EnvelopeParams, elapsed: int) -> int {
    if elapsed >= p.attack_time {
        ONE as int
    } else {
        portion(ONE as int, elapsed, p.attack_time as int)
    }
}

/// The decay target after `elapsed`: a linear fall from 1 to the sustain level.
pub open spec fn decay_level(p: EnvelopeParams, elapsed: int) -> int {
    if elapsed >= p.decay_time {
        p.sustain_level as int
    } else {
        p.sustain_level + portion(
            ONE - p.sustain_level,
            p.decay_time - elapsed,
            p.decay_time as int,
        )
    }
}

/// The release target after `elapsed`: a linear fall from `from` to 0.
pub open spec fn release_target(p: EnvelopeParams, from: int, elapsed: int) -> int {
    if elapsed >= p.release_time {
        0
    } else {
        portion(from, p.release_time - elapsed, p.release_time as int)
    }
}

/// The share of the distance to the target that one update of length `dt`
/// covers: `2·dt / (2·τ + dt)` with τ the smoothing time, at most 1. This is
/// the rational form of `1 − exp(−dt/τ)` that agrees with it to second order.
pub open spec fn smoothing_factor(dt: int) -> int {
    let q = 2 * ONE * dt / (2 * SMOOTHING_TIME + dt);
    if q >= ONE {
        ONE as int
    } else {
        q
    }
}

/// `value` moved towards `target` by the share `alpha` of their distance.
pub open spec fn smoothed(value: int, target: int, alpha: int) -> int {
    value + scaled(target - value, alpha)
}

/// The time `elapsed + dt`, held at the end of the clock's range.
pub open spec fn clock_after(elapsed: int, dt: int) -> int {
    if elapsed + dt > CLOCK_MAX {
        CLOCK_MAX as int
    } else {
        elapsed + dt
    }
}

impl EnvelopeState {
    /// The place of a stage in the order of stages.
    pub open spec fn rank(self) -> int {
        match self {
            EnvelopeState::Attack => 0,
            EnvelopeState::Decay => 1,
            EnvelopeState::Sustain => 2,
            EnvelopeState::Release => 3,
        }
    }
}

impl EnvelopeParams {
    /// The sustain level lies between 0 and 1.
    pub open spec fn wf(self) -> bool {
        0 <= self.sustain_level <= ONE
    }
}

/// The default parameters: a 5 ms attack, a 20 ms decay, sustain at 0.7 and a
/// 10 ms release.
pub open spec fn default_params() -> EnvelopeParams {
    EnvelopeParams {
        attack_time: 5_000_000_000,
        decay_time: 20_000_000_000,
        sustain_level: 700_000_000,
        release_time: 10_000_000_000,
    }
}

impl Default for EnvelopeParams {
    fn default() -> (p: Self)
        ensures
            p == default_params(),
            p.wf(),
    {
        EnvelopeParams {
            attack_time: 5_000_000_000,
            decay_time: 20_000_000_000,
            sustain_level: 700_000_000,
            release_time: 10_000_000_000,
        }
    }
}

impl EnvelopeView {
    /// Levels lie between 0 and 1, and a released envelope is never below its
    /// release target.
    pub open spec fn wf(self) -> bool {
        &&& self.params.wf()
        &&& 0 <= self.value <= ONE
        &&& 0 <= self.release_level <= ONE
        &&& 0 <= self.elapsed <= CLOCK_MAX
        &&& self.state == EnvelopeState::Release ==> release_target(
            self.params,
            self.release_level,
            self.elapsed,
        ) <= self.value
    }

    /// A fresh envelope: attack stage, output 0.
    pub open spec fn fresh(params: EnvelopeParams) -> EnvelopeView {
        EnvelopeView { params, state: EnvelopeState::Attack, value: 0, elapsed: 0, release_level: 0 }
    }

    /// The stage after an update of length `dt`.
    pub open spec fn next_state(self, dt: int) -> EnvelopeState {
        let e = clock_after(self.elapsed, dt);
        match self.state {
            EnvelopeState::Attack => if e >= self.params.attack_time {
                EnvelopeState::Decay
            } else {
                EnvelopeState::Attack
            },
            EnvelopeState::Decay => if decay_level(self.params, e) <= self.params.sustain_level {
                EnvelopeState::Sustain
            } else {
                EnvelopeState::Decay
            },
            EnvelopeState::Sustain => EnvelopeState::Sustain,
            EnvelopeState::Release => EnvelopeState::Release,
        }
    }

    /// The level that an update of length `dt` steers the output towards.
    pub open spec fn target(self, dt: int) -> int {
        let e = clock_after(self.elapsed, dt);
        match self.state {
            EnvelopeState::Attack => attack_level(self.params, e),
            EnvelopeState::Decay => decay_level(self.params, e),
            EnvelopeState::Sustain => self.params.sustain_level as int,
            EnvelopeState::Release => release_target(self.params, self.release_level, e),
        }
    }

    /// The envelope after an update of length `dt`. The clock restarts when
    /// the stage changes.
    pub open spec fn updated(self, dt: int) -> EnvelopeView {
        let next = self.next_state(dt);
        EnvelopeView {
            params: self.params,
            state: next,
            value: smoothed(self.value, self.target(dt), smoothing_factor(dt)),
            elapsed: if next == self.state {
                clock_after(self.elapsed, dt)
            } else {
                0
            },
            release_level: self.release_level,
        }
    }

    /// The envelope after `n` updates of length `dt` each.
    pub open spec fn after_updates(self, dt: int, n: nat) -> EnvelopeView
        decreases n,
    {
        if n == 0 {
            self
        } else {
            self.after_updates(dt, (n - 1) as nat).updated(dt)
        }
    }

    /// The envelope after a release: the release stage starts now, from the
    /// current output level.
    pub open spec fn released(self) -> EnvelopeView {
        EnvelopeView {
            params: self.params,
            state: EnvelopeState::Release,
            value: self.value,
            elapsed: 0,
            release_level: self.value,
        }
    }

    /// An envelope is active until it is released and has faded to the
    /// threshold.
    pub open spec fn is_active(self) -> bool {
        self.value > THRESHOLD || self.state != EnvelopeState::Release
    }
}

/// The smoothing factor is a level between 0 and 1.
pub proof fn lemma_smoothing_factor_bounds(dt: int)
    requires
        0 <= dt,
    ensures
        0 <= smoothing_factor(dt) <= ONE,
{
    let den = 2 * SMOOTHING_TIME + dt;
    assert(0 <= 2 * ONE * dt);
    vstd::arithmetic::div_mod::lemma_div_is_ordered(0, 2 * ONE * dt, den);
}

/// The smoothed value lies between the old value and the target.
pub proof fn lemma_smoothed_between(value: int, target: int, alpha: int)
    requires
        0 <= alpha <= ONE,
    ensures
        value <= target ==> value <= smoothed(value, target, alpha) <= target,
        target <= value ==> target <= smoothed(value, target, alpha) <= value,
{
    lemma_scaled_bounds(target - value, alpha);
}

/// Every stage target is a level between 0 and 1.
pub proof fn lemma_target_bounds(m: EnvelopeView, dt: int)
    requires
        m.wf(),
        0 <= dt,
    ensures
        0 <= m.target(dt) <= ONE,
{
    let e = clock_after(m.elapsed, dt);
    let p = m.params;
    match m.state {
        EnvelopeState::Attack => {
            if e < p.attack_time {
                lemma_portion_bounds(ONE as int, e, p.attack_time as int);
            }
        },
        EnvelopeState::Decay => {
            if e < p.decay_time {
                lemma_portion_bounds(ONE - p.sustain_level, p.decay_time - e, p.decay_time as int);
            }
        },
        EnvelopeState::Sustain => {},
        EnvelopeState::Release => {
            if e < p.release_time {
                lemma_portion_bounds(m.release_level, p.release_time - e, p.release_time as int);
            }
        },
    }
}

/// The release target never rises as time passes.
pub proof fn lemma_release_target_falls(p: EnvelopeParams, from: int, early: int, late: int)
    requires
        0 <= from,
        0 <= early <= late,
    ensures
        0 <= release_target(p, from, late) <= release_target(p, from, early) <= from,
{
    if early < p.release_time {
        lemma_portion_bounds(from, p.release_time - early, p.release_time as int);
        if late < p.release_time {
            lemma_portion_bounds(from, p.release_time - late, p.release_time as int);
            lemma_portion_monotonic(
                from,
                p.release_time - late,
                p.release_time - early,
                p.release_time as int,
            );
        }
    }
}

/// An update keeps an envelope well-formed, so its value stays between 0 and
/// 1; and once released, the value never rises again.
pub proof fn lemma_updated_wf(m: EnvelopeView, dt: int)
    requires
        m.wf(),
        0 <= dt,
    ensures
        m.updated(dt).wf(),
        m.state == EnvelopeState::Release ==> m.updated(dt).value <= m.value,
{
    let alpha = smoothing_factor(dt);
    let target = m.target(dt);
    lemma_smoothing_factor_bounds(dt);
    lemma_target_bounds(m, dt);
    lemma_smoothed_between(m.value, target, alpha);
    if m.state == EnvelopeState::Release {
        let e = clock_after(m.elapsed, dt);
        lemma_release_target_falls(m.params, m.release_level, m.elapsed, e);
    }
}

/// An update leaves the stage as it is or moves it one stage on. Only a
/// release ends the sustain stage, and nothing ends the release stage.
pub proof fn lemma_stages_advance(m: EnvelopeView, dt: int)
    ensures
        m.state.rank() <= m.updated(dt).state.rank() <= m.state.rank() + 1,
        m.state == EnvelopeState::Sustain ==> m.updated(dt).state == EnvelopeState::Sustain,
        m.state == EnvelopeState::Release ==> m.updated(dt).state == EnvelopeState::Release,
        m.released().state == EnvelopeState::Release,
{
}

/// Any number of updates keeps an envelope well-formed, so its value is
/// always between 0 and 1; and a released envelope stays released.
pub proof fn lemma_after_updates_wf(m: EnvelopeView, dt: int, n: nat)
    requires
        m.wf(),
        0 <= dt,
    ensures
        m.after_updates(dt, n).wf(),
        0 <= m.after_updates(dt, n).value <= ONE,
        m.state == EnvelopeState::Release ==> m.after_updates(dt, n).state
            == EnvelopeState::Release,
    decreases n,
{
    if n > 0 {
        lemma_after_updates_wf(m, dt, (n - 1) as nat);
        lemma_updated_wf(m.after_updates(dt, (n - 1) as nat), dt);
    }
}

/// After a release the value never rises: each update leaves it at or below
/// the value before.
pub proof fn lemma_release_decay_monotonic(m: EnvelopeView, dt: int, n: nat)
    requires
        m.wf(),
        0 <= dt,
    ensures
        m.released().after_updates(dt, n + 1).value <= m.released().after_updates(dt, n).value,
{
    lemma_released_wf(m);
    lemma_after_updates_wf(m.released(), dt, n);
    lemma_updated_wf(m.released().after_updates(dt, n), dt);
}

/// Once the release time is over, every update lowers a positive value,
/// provided the update is long enough to have a positive smoothing factor.
pub proof fn lemma_release_fades(m: EnvelopeView, dt: int)
    requires
        m.wf(),
        0 <= dt,
        m.state == EnvelopeState::Release,
        m.elapsed >= m.params.release_time,
        smoothing_factor(dt) > 0,
        m.value > 0,
    ensures
        m.updated(dt).value < m.value,
        m.updated(dt).elapsed >= m.params.release_time,
{
    let alpha = smoothing_factor(dt);
    let one = ONE as int;
    assert(m.target(dt) == 0);
    assert(-m.value * alpha <= -1) by (nonlinear_arith)
        requires
            m.value >= 1,
            alpha >= 1,
    ;
    vstd::arithmetic::div_mod::lemma_div_is_ordered(-m.value * alpha, -1, one);
    assert((-1int) / one == -1) by {
        vstd::arithmetic::div_mod::lemma_fundamental_div_mod_converse(-1, one, -1, one - 1);
    }
    assert((0 - m.value) * alpha == -m.value * alpha) by (nonlinear_arith);
}

/// A released envelope ends: once the release time is over, it is inactive
/// after at most as many updates as its value is above the threshold.
pub proof fn lemma_release_ends(m: EnvelopeView, dt: int, n: nat)
    requires
        m.wf(),
        0 <= dt,
        m.state == EnvelopeState::Release,
        m.elapsed >= m.params.release_time,
        smoothing_factor(dt) > 0,
        n >= m.value - THRESHOLD,
    ensures
        !m.after_updates(dt, n).is_active(),
{
    lemma_release_sinks(m, dt, n);
}

/// After `n` updates past the release time the value has fallen by `n` or to 0.
proof fn lemma_release_sinks(m: EnvelopeView, dt: int, n: nat)
    requires
        m.wf(),
        0 <= dt,
        m.state == EnvelopeState::Release,
        m.elapsed >= m.params.release_time,
        smoothing_factor(dt) > 0,
    ensures
        m.after_updates(dt, n).wf(),
        m.after_updates(dt, n).state == EnvelopeState::Release,
        m.after_updates(dt, n).elapsed >= m.params.release_time,
        m.after_updates(dt, n).params == m.params,
        m.after_updates(dt, n).value <= m.value - n || m.after_updates(dt, n).value == 0,
    decreases n,
{
    if n > 0 {
        let before = m.after_updates(dt, (n - 1) as nat);
        lemma_release_sinks(m, dt, (n - 1) as nat);
        lemma_updated_wf(before, dt);
        if before.value > 0 {
            lemma_release_fades(before, dt);
        }
    }
}

/// A release keeps an envelope well-formed.
pub proof fn lemma_released_wf(m: EnvelopeView)
    requires
        m.wf(),
    ensures
        m.released().wf(),
{
    let p = m.params;
    if 0 < p.release_time {
        lemma_div_by_multiple(m.value, p.release_time as int);
    }
}

/// Releasing twice in a row is the same as releasing once: both leave the
/// same envelope, and so the same envelope after any further updates.
pub proof fn lemma_release_idempotent(m: EnvelopeView, dt: int, n: nat)
    ensures
        m.released().released() == m.released(),
        m.released().released().after_updates(dt, n) == m.released().after_updates(dt, n),
{
}

/// The share of the distance to the target that an update of length `dt` covers.
pub fn compute_smoothing_factor(dt: u64) -> (alpha: i64)
    ensures
        alpha == smoothing_factor(dt as int),
        0 <= alpha <= ONE,
{
    proof {
        lemma_smoothing_factor_bounds(dt as int);
    }
    let num: u128 = 2 * (ONE as u128) * (dt as u128);
    let den: u128 = 2 * (SMOOTHING_TIME as u128) + (dt as u128);
    let q: u128 = num / den;
    if q >= ONE as u128 {
        ONE
    } else {
        q as i64
    }
}

impl View for Envelope {
    type V = EnvelopeView;

    closed spec fn view(&self) -> EnvelopeView {
        EnvelopeView {
            params: self.params,
            state: self.state,
            value: self.value as int,
            elapsed: self.elapsed as int,
            release_level: self.release_level as int,
        }
    }
}

impl Envelope {
    /// The envelope's invariant: see [`EnvelopeView::wf`].
    pub open spec fn wf(&self) -> bool {
        self@.wf()
    }

    /// Creates an envelope at the start of its attack, with output 0.
    pub fn new(params: EnvelopeParams) -> (env: Self)
        requires
            params.wf(),
        ensures
            env@ == EnvelopeView::fresh(params),
            env.wf(),
    {
        Envelope { params, state: EnvelopeState::Attack, value: 0, elapsed: 0, release_level: 0 }
    }

    /// Moves the envelope forward by `dt` picoseconds.
    pub fn update(&mut self, dt: u64)
        requires
            old(self).wf(),
        ensures
            final(self)@ == old(self)@.updated(dt as int),
            final(self).wf(),
            old(self)@.state == EnvelopeState::Release ==> final(self)@.value <= old(self)@.value,
    {
        let ghost before = self@;
        proof {
            lemma_updated_wf(before, dt as int);
            lemma_target_bounds(before, dt as int);
        }
        let p = self.params;
        let e = self.elapsed.saturating_add(dt);
        let mut target: i64 = p.sustain_level;
        let mut entered: Option<EnvelopeState> = None;
        match self.state {
            EnvelopeState::Attack => {
                if e >= p.attack_time {
                    entered = Some(EnvelopeState::Decay);
                    target = ONE;
                } else {
                    target = fraction(ONE, e, p.attack_time);
                }
            },
            EnvelopeState::Decay => {
                if e < p.decay_time {
                    target = p.sustain_level + fraction(
                        ONE - p.sustain_level,
                        p.decay_time - e,
                        p.decay_time,
                    );
                }
                if target <= p.sustain_level {
                    entered = Some(EnvelopeState::Sustain);
                }
            },
            EnvelopeState::Sustain => {},
            EnvelopeState::Release => {
                if e >= p.release_time {
                    target = 0;
                } else {
                    target = fraction(self.release_level, p.release_time - e, p.release_time);
                }
            },
        }
        assert(target == before.target(dt as int));
        let step = scale(target - self.value, compute_smoothing_factor(dt));
        self.value = self.value + step;
        match entered {
            Some(stage) => {
                self.state = stage;
                self.elapsed = 0;
            },
            None => {
                self.elapsed = e;
            },
        }
    }

    /// The current output level, between 0 and 1.
    pub fn value(&self) -> (v: i64)
        requires
            self.wf(),
        ensures
            v == self@.value,
            0 <= v <= ONE,
    {
        self.value
    }

    /// The current stage.
    pub fn state(&self) -> (s: EnvelopeState)
        ensures
            s == self@.state,
    {
        self.state
    }

    /// Whether the note still sounds: false only once the envelope is
    /// released and its value is at or below the threshold.
    pub fn is_active(&self) -> (active: bool)
        ensures
            active == self@.is_active(),
    {
        self.value > THRESHOLD || !matches!(self.state, EnvelopeState::Release)
    }

    /// Enters the release stage, which falls from the current output level.
    pub fn release(&mut self)
        requires
            old(self).wf(),
        ensures
            final(self)@ == old(self)@.released(),
            final(self).wf(),
    {
        proof {
            lemma_released_wf(self@);
        }
        self.state = EnvelopeState::Release;
        self.elapsed = 0;
        self.release_level = self.value;
    }
}

} // verus!
