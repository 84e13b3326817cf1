//! One sounding note: a phase that turns at the note's frequency, a fixed
//! amplitude taken from the key velocity, and an envelope.

use crate::envelope::{
    lemma_released_wf, lemma_updated_wf, Envelope, EnvelopeParams, EnvelopeState, EnvelopeView,
};
use crate::fixed::{fraction, lemma_scaled_bounds, portion, scale, scaled, ONE};
use vstd::prelude::*;

verus! {

/// The highest key velocity.
pub const MAX_VELOCITY: u8 = 127;

/// Micro-hertz times picoseconds, per billionth of a turn.
pub const PHASE_DIVISOR: u64 = 1_000_000_000;

/// A single voice of the synthesizer.
#[derive(Clone, Copy, Debug)]
pub struct Voice {
    frequency: u64,
    phase: u64,
    amplitude: i64,
    envelope: Envelope,
}

/// What a [`Voice`] holds, as mathematical integers.
pub struct VoiceView {
    /// The frequency in micro-hertz.
    pub frequency: int,
    /// The phase in billionths of a turn, at least 0 and below 1.
    pub phase: int,
    /// The amplitude set by the key velocity, between 0 and 1.
    pub amplitude: int,
    pub envelope: EnvelopeView,
}

/// The amplitude of a note struck with `velocity`: `velocity / 127`.
pub open spec fn velocity_amplitude(velocity: int) -> int {
    portion(ONE as int, velocity, MAX_VELOCITY as int)
}

/// How far the phase of an oscillation at `frequency` turns in the time `dt`.
pub open spec fn phase_step(frequency: int, dt: int) -> int {
    frequency * dt / (PHASE_DIVISOR as int)
}

impl VoiceView {
    /// Phase and amplitude are in range and the envelope is well-formed.
    pub open spec fn wf(self) -> bool {
        &&& 0 <= self.frequency <= u64::MAX
        &&& 0 <= self.phase < ONE
        &&& 0 <= self.amplitude <= ONE
        &&& self.envelope.wf()
    }

    /// A voice that starts to sound: phase 0, envelope at the start of its attack.
    pub open spec fn fresh(frequency: int, velocity: int, params: EnvelopeParams) -> VoiceView {
        VoiceView {
            frequency,
            phase: 0,
            amplitude: velocity_amplitude(velocity),
            envelope: EnvelopeView::fresh(params),
        }
    }

    /// The voice after the time `dt`: the phase has turned by
    /// `frequency · dt`, wrapped into one turn, and the envelope has moved on.
    pub open spec fn updated(self, dt: int) -> VoiceView {
        VoiceView {
            frequency: self.frequency,
            phase: (self.phase + phase_step(self.frequency, dt)) % (ONE as int),
            amplitude: self.amplitude,
            envelope: self.envelope.updated(dt),
        }
    }

    /// The voice after `n` updates of length `dt` each.
    pub open spec fn after_updates(self, dt: int, n: nat) -> VoiceView
        decreases n,
    {
        if n == 0 {
            self
        } else {
            self.after_updates(dt, (n - 1) as nat).updated(dt)
        }
    }

    /// The voice after a release: its envelope is released unless it already was.
    pub open spec fn released(self) -> VoiceView {
        if self.envelope.state == EnvelopeState::Release {
            self
        } else {
            VoiceView { envelope: self.envelope.released(), ..self }
        }
    }

    /// A voice is active exactly while its envelope is.
    pub open spec fn is_active(self) -> bool {
        self.envelope.is_active()
    }

    /// The amplitude the voice sounds at now: its own amplitude times the
    /// envelope's value.
    pub open spec fn current_amplitude(self) -> int {
        scaled(self.amplitude, self.envelope.value)
    }
}

/// An update keeps a voice well-formed.
pub proof fn lemma_voice_updated_wf(v: VoiceView, dt: int)
    requires
        v.wf(),
        0 <= dt,
    ensures
        v.updated(dt).wf(),
{
    lemma_updated_wf(v.envelope, dt);
}

/// The envelope of a voice is updated whenever the voice is.
pub proof fn lemma_voice_after_updates(v: VoiceView, dt: int, n: nat)
    ensures
        v.after_updates(dt, n).envelope == v.envelope.after_updates(dt, n),
    decreases n,
{
    if n > 0 {
        lemma_voice_after_updates(v, dt, (n - 1) as nat);
    }
}

/// A release keeps a voice well-formed.
pub proof fn lemma_voice_released_wf(v: VoiceView)
    requires
        v.wf(),
    ensures
        v.released().wf(),
{
    lemma_released_wf(v.envelope);
}

/// Releasing a voice twice is the same as releasing it once.
pub proof fn lemma_voice_release_idempotent(v: VoiceView)
    ensures
        v.released().released() == v.released(),
{
}

/// The sounding amplitude is a level between 0 and 1.
pub proof fn lemma_current_amplitude_bounds(v: VoiceView)
    requires
        v.wf(),
    ensures
        0 <= v.current_amplitude() <= ONE,
{
    lemma_scaled_bounds(v.amplitude, v.envelope.value);
}

impl View for Voice {
    type V = VoiceView;

    closed spec fn view(&self) -> VoiceView {
        VoiceView {
            frequency: self.frequency as int,
            phase: self.phase as int,
            amplitude: self.amplitude as int,
            envelope: self.envelope@,
        }
    }
}

impl Voice {
    /// The voice's invariant: see [`VoiceView::wf`].
    pub open spec fn wf(&self) -> bool {
        self@.wf()
    }

    /// Creates a voice at `frequency` micro-hertz for a key struck with
    /// `velocity`.
    pub fn new(frequency: u64, velocity: u8, envelope_params: EnvelopeParams) -> (voice: Self)
        requires
            velocity <= MAX_VELOCITY,
            envelope_params.wf(),
        ensures
            voice@ == VoiceView::fresh(frequency as int, velocity as int, envelope_params),
            voice.wf(),
    {
        Voice {
            frequency,
            phase: 0,
            amplitude: fraction(ONE, velocity as u64, MAX_VELOCITY as u64),
            envelope: Envelope::new(envelope_params),
        }
    }

    /// Moves the voice forward by `dt` picoseconds.
    pub fn update(&mut self, dt: u64)
        requires
            old(self).wf(),
        ensures
            final(self)@ == old(self)@.updated(dt as int),
            final(self).wf(),
    {
        proof {
            lemma_voice_updated_wf(self@, dt as int);
            assert(0 <= self.frequency * dt <= 0xffff_ffff_ffff_ffff * 0xffff_ffff_ffff_ffff)
                by (nonlinear_arith)
                requires
                    0 <= self.frequency <= 0xffff_ffff_ffff_ffff,
                    0 <= dt <= 0xffff_ffff_ffff_ffff,
            ;
        }
        let turned: u128 = (self.frequency as u128) * (dt as u128) / (PHASE_DIVISOR as u128);
        let wrapped: u128 = (self.phase as u128 + turned) % (ONE as u128);
        self.phase = wrapped as u64;
        self.envelope.update(dt);
    }

    /// Whether the voice still sounds.
    pub fn is_active(&self) -> (active: bool)
        ensures
            active == self@.is_active(),
    {
        self.envelope.is_active()
    }

    /// Lets the note go. A voice that is already released is left as it is.
    pub fn release(&mut self)
        requires
            old(self).wf(),
        ensures
            final(self)@ == old(self)@.released(),
            final(self).wf(),
    {
        proof {
            lemma_voice_released_wf(self@);
        }
        if !matches!(self.envelope.state(), EnvelopeState::Release) {
            self.envelope.release();
        }
    }

    /// The amplitude the voice sounds at now, between 0 and 1.
    pub fn current_amplitude(&self) -> (a: i64)
        requires
            self.wf(),
        ensures
            a == self@.current_amplitude(),
            0 <= a <= ONE,
    {
        scale(self.amplitude, self.envelope.value())
    }

    /// The frequency in micro-hertz.
    pub fn frequency(&self) -> (f: u64)
        ensures
            f == self@.frequency,
    {
        self.frequency
    }

    /// The phase in billionths of a turn.
    pub fn phase(&self) -> (p: u64)
        ensures
            p == self@.phase,
    {
        self.phase
    }
}

} // verus!
