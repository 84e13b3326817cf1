//! A polyphonic synthesizer core: note events in, audio samples out.
//!
//! Every note that is held has a [`voice::Voice`]: a sawtooth
//! [`oscillator::Oscillator`] shaped by an ADSR [`envelope::Envelope`]. The
//! engine, [`synth::Synth`], keeps at most one voice per note number in a
//! [`table::VoiceTable`], sums the voices sample by sample, compensates the
//! sum for the number of voices, soft-clips it and blends it with a
//! [`reverb::Reverb`]. Notes arrive as [`midi::NoteEvent`]s, which
//! [`midi::decode`] reads from raw messages, and [`audio::write_data`]
//! fills an interleaved output buffer from the engine.
//!
//! The whole signal path is integer arithmetic in fixed point, see
//! [`fixed`]: the same events give the same samples on every machine, and
//! every sample is the value of a formula that the contracts state. Two
//! transcendental curves are replaced by rational ones of the same shape:
//! the envelope's smoothing factor, see [`envelope::smoothing_factor`], and
//! the soft clip, see [`mixer::clipped`].
//!
//! Each type has a view that holds its contents as mathematical values, and
//! every operation is specified as a function on views. The engine itself is
//! not synchronized: a caller that feeds it from several threads keeps it
//! behind a lock.

pub mod audio;
pub mod envelope;
pub mod fixed;
pub mod midi;
pub mod mixer;
pub mod oscillator;
pub mod pitch;
pub mod reverb;
pub mod synth;
pub mod table;
pub mod voice;
