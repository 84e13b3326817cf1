//! The synthesizer engine: it routes note events to voices and produces the
//! output signal one sample at a time.
//!
//! A sample is made in four steps. Every live voice adds its oscillator
//! sample times its sounding amplitude to a sum and then moves forward by one
//! sample period; voices that have faded out are dropped. The sum is divided
//! by the square root of the number of voices. The result is soft-clipped.
//! If there is a reverb, the output is 0.7 of the clipped signal plus 0.3 of
//! the reverb's output.

use crate::envelope::{
    default_params, lemma_release_ends, smoothing_factor, EnvelopeParams, EnvelopeState,
    SMOOTHING_TIME, THRESHOLD,
};
use crate::fixed::{lemma_portion_bounds, ONE, PICOS_PER_SECOND};
use crate::midi::{decode, decoded, NoteEvent, NoteKind};
use crate::mixer::{
    clipped, lemma_clipped_bounds, lemma_polyphony_scaling, mix_wet_dry, normalize, normalized,
    soft_clip, wet_dry_mix,
};
use crate::oscillator::Oscillator;
use crate::pitch::{frequency, lemma_note_frequency_in_range, note_frequency};
use crate::reverb::{lemma_processed_wf, Reverb, ReverbView};
use crate::table::{
    advanced, contribution, lemma_advanced_wf, lemma_mix_sum_bounds, lemma_mix_sum_identical,
    mix_sum, voices_wf, VoiceTable, NOTE_COUNT,
};
use crate::voice::{
    lemma_voice_after_updates, lemma_voice_released_wf, Voice, VoiceView, MAX_VELOCITY,
};
use vstd::arithmetic::div_mod::{
    lemma_div_by_multiple, lemma_div_is_ordered, lemma_div_is_ordered_by_denominator,
};
use vstd::prelude::*;
use vstd::set_lib::lemma_len_subset;

verus! {

/// The decay of the engine's own reverb: 0.2.
pub const REVERB_DECAY: i64 = 200_000_000;

/// The engine's own reverb keeps a tenth of a second of samples.
pub const REVERB_SPAN: u32 = 10;

/// The largest value of the sample counter.
pub const COUNT_MAX: u64 = 0xffff_ffff_ffff_ffff;

/// A polyphonic synthesizer.
pub struct Synth {
    voices: VoiceTable,
    sample_rate: u32,
    envelope_params: EnvelopeParams,
    oscillator: Oscillator,
    sample_count: u64,
    reverb: Option<Reverb>,
    retrigger_on_repeat: bool,
}

/// What a [`Synth`] holds, as mathematical values.
pub struct SynthView {
    /// The live voices, by note number.
    pub voices: Map<int, VoiceView>,
    /// The sample rate in hertz.
    pub sample_rate: int,
    /// The envelope parameters that new voices get.
    pub envelope_params: EnvelopeParams,
    /// The number of samples generated so far.
    pub sample_count: int,
    /// The reverb, if there is one.
    pub reverb: Option<ReverbView>,
    /// Whether a note-on for a note that still has a voice starts that note
    /// again. If not, such a note-on is ignored.
    pub retrigger_on_repeat: bool,
}

/// The time between two samples, in picoseconds.
pub open spec fn sample_period(rate: int) -> int {
    (PICOS_PER_SECOND as int) / rate
}

impl SynthView {
    /// The sample rate is positive and every part is well-formed.
    pub open spec fn wf(self) -> bool {
        &&& 0 < self.sample_rate <= u32::MAX
        &&& self.envelope_params.wf()
        &&& voices_wf(self.voices)
        &&& self.voices.dom().finite()
        &&& 0 <= self.sample_count <= COUNT_MAX
        &&& self.reverb matches Some(r) ==> r.wf()
    }

    /// An engine without voices, with the default envelope and a reverb of a
    /// tenth of a second.
    pub open spec fn fresh(rate: int) -> SynthView {
        SynthView {
            voices: Map::empty(),
            sample_rate: rate,
            envelope_params: default_params(),
            sample_count: 0,
            reverb: Some(ReverbView::fresh(rate / (REVERB_SPAN as int), REVERB_DECAY as int)),
            retrigger_on_repeat: false,
        }
    }

    /// The engine after a note-on. A note without a voice gets a new voice.
    /// A note that still has a voice gets a new one only if
    /// `retrigger_on_repeat` is set; otherwise nothing changes.
    pub open spec fn after_note_on(self, note: int, velocity: int) -> SynthView {
        if self.voices.contains_key(note) && !self.retrigger_on_repeat {
            self
        } else {
            SynthView {
                voices: self.voices.insert(
                    note,
                    VoiceView::fresh(note_frequency(note as nat), velocity, self.envelope_params),
                ),
                ..self
            }
        }
    }

    /// The engine after a note-off: the note's voice is released, if it has one.
    pub open spec fn after_note_off(self, note: int) -> SynthView {
        if self.voices.contains_key(note) {
            SynthView { voices: self.voices.insert(note, self.voices[note].released()), ..self }
        } else {
            self
        }
    }

    /// The engine after a note event.
    pub open spec fn after_event(self, event: NoteEvent) -> SynthView {
        match event.kind {
            NoteKind::On => self.after_note_on(event.note as int, event.velocity as int),
            NoteKind::Off => self.after_note_off(event.note as int),
        }
    }

    /// The engine after a raw message: after the event that it holds, or
    /// unchanged if it holds none.
    pub open spec fn after_message(self, message: Seq<u8>) -> SynthView {
        match decoded(message) {
            Some(event) => self.after_event(event),
            None => self,
        }
    }

    /// The engine after it has generated `n` samples.
    pub open spec fn after_samples(self, n: nat) -> SynthView
        decreases n,
    {
        if n == 0 {
            self
        } else {
            self.after_samples((n - 1) as nat).after_sample()
        }
    }

    /// The next sample before the reverb: the sum of the voices, normalized
    /// and soft-clipped, or 0 if there is no voice.
    pub open spec fn dry(self) -> int {
        if self.voices.len() > 0 {
            clipped(normalized(mix_sum(self.voices, self.sample_rate), self.voices.len() as int))
        } else {
            0
        }
    }

    /// The next output sample.
    pub open spec fn output(self) -> int {
        match self.reverb {
            Some(r) => wet_dry_mix(self.dry(), r.output(self.dry())),
            None => self.dry(),
        }
    }

    /// The engine after it has generated a sample.
    pub open spec fn after_sample(self) -> SynthView {
        SynthView {
            voices: advanced(self.voices, sample_period(self.sample_rate)),
            reverb: match self.reverb {
                Some(r) => Some(r.processed(self.dry())),
                None => None,
            },
            sample_count: if self.sample_count < COUNT_MAX {
                self.sample_count + 1
            } else {
                self.sample_count
            },
            ..self
        }
    }
}

/// Every operation keeps the engine well-formed: note events, samples, and
/// any number of samples in a row.
pub proof fn lemma_operations_keep_wf(engine: SynthView, note: int, velocity: int, n: nat)
    requires
        engine.wf(),
        0 <= note < NOTE_COUNT,
        0 <= velocity <= MAX_VELOCITY,
    ensures
        engine.after_note_on(note, velocity).wf(),
        engine.after_note_off(note).wf(),
        engine.after_sample().wf(),
        engine.after_samples(n).wf(),
    decreases n,
{
    let fresh = VoiceView::fresh(note_frequency(note as nat), velocity, engine.envelope_params);
    assert(fresh.wf()) by {
        lemma_note_frequency_in_range(note as nat);
        lemma_portion_bounds(ONE as int, velocity, MAX_VELOCITY as int);
    }
    assert(engine.after_note_on(note, velocity).wf());
    if engine.voices.contains_key(note) {
        lemma_voice_released_wf(engine.voices[note]);
    }
    assert(engine.after_note_off(note).wf());
    lemma_after_sample_wf(engine);
    if n > 0 {
        lemma_operations_keep_wf(engine, note, velocity, (n - 1) as nat);
        lemma_after_sample_wf(engine.after_samples((n - 1) as nat));
    }
}

/// A sample keeps the engine well-formed.
proof fn lemma_after_sample_wf(engine: SynthView)
    requires
        engine.wf(),
    ensures
        engine.after_sample().wf(),
{
    let dt = sample_period(engine.sample_rate);
    lemma_period_smooths(engine.sample_rate);
    lemma_advanced_wf(engine.voices, dt);
    let after = advanced(engine.voices, dt);
    assert(after.dom().subset_of(engine.voices.dom()));
    lemma_len_subset(after.dom(), engine.voices.dom());
    lemma_dry_bounds(engine);
    if let Some(r) = engine.reverb {
        lemma_processed_wf(r, engine.dry());
    }
}

/// The dry signal is above −1 and below 1.
pub proof fn lemma_dry_bounds(s: SynthView)
    ensures
        -ONE < s.dry() < ONE,
{
    if s.voices.len() > 0 {
        lemma_clipped_bounds(normalized(mix_sum(s.voices, s.sample_rate), s.voices.len() as int));
    }
}

/// Polyphony scales by the square root: with `k` voices that each add the
/// level `s` to the sum, the signal before the clip is `s · √k`, rounded
/// towards zero, and not `s · k`.
pub proof fn lemma_identical_voices(engine: SynthView, s: int)
    requires
        engine.wf(),
        engine.voices.len() > 0,
        forall|n: int| #[trigger]
            engine.voices.contains_key(n) ==> contribution(engine.voices[n], engine.sample_rate)
                == s,
    ensures
        ({
            let k = engine.voices.len() as int;
            let level = normalized(k * s, k);
            let m = if s >= 0 {
                level
            } else {
                -level
            };
            &&& engine.dry() == clipped(level)
            &&& 0 <= m
            &&& m * m <= k * (s * s) < (m + 1) * (m + 1)
        }),
{
    let k = engine.voices.len() as int;
    lemma_mix_sum_identical(engine.voices, engine.sample_rate, s);
    lemma_polyphony_scaling(s, k);
}

/// A note-off for a note without a voice changes nothing.
pub proof fn lemma_note_off_without_voice(s: SynthView, note: int)
    requires
        !s.voices.contains_key(note),
    ensures
        s.after_note_off(note) == s,
{
}

/// A second note-off for the same note changes nothing.
pub proof fn lemma_note_off_idempotent(s: SynthView, note: int)
    ensures
        s.after_note_off(note).after_note_off(note) == s.after_note_off(note),
{
    if s.voices.contains_key(note) {
        let once = s.after_note_off(note);
        assert(once.voices[note] == s.voices[note].released());
        assert(once.after_note_off(note).voices =~= once.voices);
    }
}

/// The sample period of every sample rate is long enough for a positive
/// smoothing factor.
proof fn lemma_period_smooths(rate: int)
    requires
        0 < rate <= u32::MAX,
    ensures
        0 <= sample_period(rate),
        smoothing_factor(sample_period(rate)) > 0,
{
    let dt = sample_period(rate);
    lemma_div_is_ordered_by_denominator(PICOS_PER_SECOND as int, rate, u32::MAX as int);
    assert(1_000_000_000_000int / 4_294_967_295int == 232);
    assert(dt >= 232);
    let den = 2 * SMOOTHING_TIME + dt;
    let num = 2 * ONE * dt;
    assert(num == 2_000_000_000 * dt) by (nonlinear_arith)
        requires
            num == 2 * ONE * dt,
            ONE == 1_000_000_000,
    ;
    assert(1 * den <= num);
    lemma_div_is_ordered(1 * den, num, den);
    lemma_div_by_multiple(1, den);
}

/// While a voice stays in the table through `n` samples, it is the voice of
/// the start after `n` updates, and after the first sample it is active.
proof fn lemma_voice_through_samples(engine: SynthView, note: int, n: nat)
    requires
        engine.voices.contains_key(note),
    ensures
        engine.after_samples(n).sample_rate == engine.sample_rate,
        engine.after_samples(n).voices.contains_key(note) ==> {
            &&& engine.after_samples(n).voices[note] == engine.voices[note].after_updates(
                sample_period(engine.sample_rate),
                n,
            )
            &&& n > 0 ==> engine.after_samples(n).voices[note].is_active()
        },
    decreases n,
{
    if n > 0 {
        lemma_voice_through_samples(engine, note, (n - 1) as nat);
    }
}

/// A released voice leaves the table: once its release time is over, it is
/// gone after at most as many samples as its envelope's value is above the
/// threshold, and after one sample if it is not above it.
pub proof fn lemma_released_voice_leaves(engine: SynthView, note: int, n: nat)
    requires
        engine.wf(),
        engine.voices.contains_key(note),
        engine.voices[note].envelope.state == EnvelopeState::Release,
        engine.voices[note].envelope.elapsed >= engine.voices[note].envelope.params.release_time,
        n >= 1,
        n >= engine.voices[note].envelope.value - THRESHOLD,
    ensures
        !engine.after_samples(n).voices.contains_key(note),
{
    let dt = sample_period(engine.sample_rate);
    let voice = engine.voices[note];
    lemma_period_smooths(engine.sample_rate);
    lemma_voice_through_samples(engine, note, n);
    lemma_voice_after_updates(voice, dt, n);
    lemma_release_ends(voice.envelope, dt, n);
}

/// A released voice that has faded to the threshold is gone after the next
/// sample.
pub proof fn lemma_faded_voice_leaves(s: SynthView, note: int)
    requires
        s.voices.contains_key(note),
        !s.voices[note].updated(sample_period(s.sample_rate)).is_active(),
    ensures
        !s.after_sample().voices.contains_key(note),
{
}

impl View for Synth {
    type V = SynthView;

    closed spec fn view(&self) -> SynthView {
        SynthView {
            voices: self.voices@,
            sample_rate: self.sample_rate as int,
            envelope_params: self.envelope_params,
            sample_count: self.sample_count as int,
            reverb: match self.reverb {
                Some(r) => Some(r@),
                None => None,
            },
            retrigger_on_repeat: self.retrigger_on_repeat,
        }
    }
}

impl Synth {
    /// The engine's invariant: its view is well-formed, see [`SynthView::wf`],
    /// and its parts agree with each other.
    pub closed spec fn wf(&self) -> bool {
        &&& self.voices.wf()
        &&& self.oscillator@ == self.sample_rate
        &&& self@.wf()
    }

    /// The invariant makes the view well-formed, and there are at most as
    /// many voices as note numbers.
    pub proof fn lemma_wf(&self)
        requires
            self.wf(),
        ensures
            self@.wf(),
            self@.voices.len() <= NOTE_COUNT,
    {
        self.voices.lemma_wf();
    }

    /// Creates an engine for the given sample rate in hertz.
    pub fn new(sample_rate: u32) -> (synth: Self)
        requires
            sample_rate > 0,
        ensures
            synth@ == SynthView::fresh(sample_rate as int),
            synth.wf(),
    {
        let voices = VoiceTable::new();
        proof {
            voices.lemma_wf();
        }
        Synth {
            voices,
            sample_rate,
            envelope_params: EnvelopeParams::default(),
            oscillator: Oscillator::new(sample_rate),
            sample_count: 0,
            reverb: Some(Reverb::new((sample_rate / REVERB_SPAN) as usize, REVERB_DECAY)),
            retrigger_on_repeat: false,
        }
    }

    /// Chooses what a note-on does to a note that still has a voice: start
    /// the note again, or leave it alone.
    pub fn set_retrigger_on_repeat(&mut self, on: bool)
        requires
            old(self).wf(),
        ensures
            final(self)@ == (SynthView { retrigger_on_repeat: on, ..old(self)@ }),
            final(self).wf(),
    {
        self.retrigger_on_repeat = on;
    }

    /// Installs a reverb, or removes the one there is.
    pub fn set_reverb(&mut self, reverb: Option<Reverb>)
        requires
            old(self).wf(),
            reverb matches Some(r) ==> r.wf(),
        ensures
            final(self)@ == (SynthView {
                reverb: match reverb {
                    Some(r) => Some(r@),
                    None => None,
                },
                ..old(self)@
            }),
            final(self).wf(),
    {
        self.reverb = reverb;
    }

    /// Starts the note `note` with the key velocity `velocity`.
    pub fn note_on(&mut self, note: u8, velocity: u8)
        requires
            old(self).wf(),
            note < NOTE_COUNT,
            velocity <= MAX_VELOCITY,
        ensures
            final(self)@ == old(self)@.after_note_on(note as int, velocity as int),
            final(self).wf(),
    {
        let freq = frequency(note);
        let present = self.voices.get(note).is_some();
        if self.retrigger_on_repeat || !present {
            let voice = Voice::new(freq, velocity, self.envelope_params);
            self.voices.insert(note, voice);
            proof {
                self.voices.lemma_wf();
            }
        }
    }

    /// Lets the note `note` go. Without a voice on that note nothing happens.
    pub fn note_off(&mut self, note: u8)
        requires
            old(self).wf(),
        ensures
            final(self)@ == old(self)@.after_note_off(note as int),
            final(self).wf(),
    {
        let _ = self.voices.release(note);
        proof {
            self.voices.lemma_wf();
        }
    }

    /// Applies a note event.
    pub fn handle_event(&mut self, event: NoteEvent)
        requires
            old(self).wf(),
            event.wf(),
        ensures
            final(self)@ == old(self)@.after_event(event),
            final(self).wf(),
    {
        match event.kind {
            NoteKind::On => self.note_on(event.note, event.velocity),
            NoteKind::Off => self.note_off(event.note),
        }
    }

    /// Applies a raw message and returns the event that it held. A message
    /// that holds no note event is dropped and changes nothing.
    pub fn handle_message(&mut self, message: &[u8]) -> (event: Option<NoteEvent>)
        requires
            old(self).wf(),
        ensures
            event == decoded(message@),
            final(self)@ == old(self)@.after_message(message@),
            final(self).wf(),
    {
        let event = decode(message);
        if let Some(e) = event {
            self.handle_event(e);
        }
        event
    }

    /// Generates the next output sample.
    pub fn generate_sample(&mut self) -> (sample: i64)
        requires
            old(self).wf(),
        ensures
            sample == old(self)@.output(),
            final(self)@ == old(self)@.after_sample(),
            final(self).wf(),
    {
        let ghost before = self@;
        let count = self.voices.len();
        let dt: u64 = PICOS_PER_SECOND / (self.sample_rate as u64);
        proof {
            lemma_mix_sum_bounds(&self.voices, self.sample_rate as int);
        }
        let sum = self.voices.render(&self.oscillator, dt);
        let level = if count > 0 {
            normalize(sum, count)
        } else {
            0
        };
        let dry = soft_clip(level);
        assert(dry == before.dry());
        let sample = match &mut self.reverb {
            Some(reverb) => {
                let wet = reverb.process(dry);
                mix_wet_dry(dry, wet)
            },
            None => dry,
        };
        self.sample_count = self.sample_count.saturating_add(1);
        proof {
            self.voices.lemma_wf();
        }
        sample
    }

    /// The number of live voices.
    pub fn voice_count(&self) -> (n: usize)
        requires
            self.wf(),
        ensures
            n == self@.voices.len(),
    {
        self.voices.len()
    }

    /// The voice on `note`, if there is one.
    pub fn voice(&self, note: u8) -> (voice: Option<Voice>)
        requires
            self.wf(),
        ensures
            match voice {
                Some(v) => self@.voices.contains_key(note as int) && v@ == self@.voices[note as int],
                None => !self@.voices.contains_key(note as int),
            },
    {
        self.voices.get(note)
    }

    /// The sample rate in hertz.
    pub fn sample_rate(&self) -> (rate: u32)
        ensures
            rate == self@.sample_rate,
    {
        self.sample_rate
    }

    /// The number of samples generated so far.
    pub fn sample_count(&self) -> (count: u64)
        ensures
            count == self@.sample_count,
    {
        self.sample_count
    }
}

} // verus!
