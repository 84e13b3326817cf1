use polysynth::envelope::EnvelopeParams;
use polysynth::midi::{NoteEvent, NoteKind};
use polysynth::pitch::frequency;
use polysynth::reverb::Reverb;
use polysynth::synth::Synth;
use polysynth::voice::Voice;

/// The time between two samples at 44.1 kHz, in picoseconds.
const SAMPLE_PERIOD: u64 = 22_675_736;

#[test]
fn a_new_engine_is_silent() {
    let mut synth = Synth::new(44_100);
    assert_eq!(synth.sample_rate(), 44_100);
    assert_eq!(synth.voice_count(), 0);
    assert_eq!(synth.sample_count(), 0);
    for _ in 0..100 {
        assert_eq!(synth.generate_sample(), 0);
    }
    assert_eq!(synth.sample_count(), 100);
}

#[test]
fn note_on_creates_a_voice_at_the_notes_frequency() {
    let mut synth = Synth::new(44_100);
    synth.note_on(69, 127);
    assert_eq!(synth.voice_count(), 1);
    let voice = synth.voice(69).unwrap();
    assert_eq!(voice.frequency(), 440_000_000);
    assert_eq!(voice.phase(), 0);
    assert!(voice.is_active());
    assert!(synth.voice(70).is_none());
    synth.note_on(60, 1);
    assert_eq!(synth.voice_count(), 2);
    assert_eq!(synth.voice(60).unwrap().frequency(), frequency(60));
}

#[test]
fn a_held_note_sounds_and_a_released_note_fades_out_of_the_table() {
    let mut synth = Synth::new(44_100);
    synth.note_on(69, 127);
    // A voice of its own that goes through the same updates.
    let mut shadow = Voice::new(frequency(69), 127, EnvelopeParams::default());
    let mut loudest = 0;
    for _ in 0..10_000 {
        let sample = synth.generate_sample();
        shadow.update(SAMPLE_PERIOD);
        loudest = loudest.max(sample.abs());
    }
    assert_eq!(loudest, 657_242_125);
    assert_eq!(synth.voice_count(), 1);
    assert!(synth.voice(69).unwrap().is_active());
    synth.note_off(69);
    shadow.release();
    assert_eq!(synth.voice_count(), 1);
    // The release time is 10 ms, which is 441 samples; the smoothed value
    // needs longer to fade below the threshold.
    for _ in 0..441 {
        let _ = synth.generate_sample();
        shadow.update(SAMPLE_PERIOD);
    }
    assert_eq!(synth.voice_count(), 1);
    for _ in 441..6006 {
        let _ = synth.generate_sample();
        shadow.update(SAMPLE_PERIOD);
    }
    assert_eq!(synth.voice_count(), 1);
    assert!(synth.voice(69).unwrap().is_active());
    assert!(shadow.is_active());
    assert_eq!(synth.voice(69).unwrap().phase(), shadow.phase());
    let _ = synth.generate_sample();
    shadow.update(SAMPLE_PERIOD);
    assert!(!shadow.is_active());
    assert_eq!(synth.voice_count(), 0);
    assert!(synth.voice(69).is_none());
    assert_eq!(synth.sample_count(), 16_007);
    for _ in 0..20_000 {
        let _ = synth.generate_sample();
    }
    assert_eq!(synth.voice_count(), 0);
    assert!(synth.voice(69).is_none());
}

#[test]
fn the_output_follows_the_signal_path() {
    let mut synth = Synth::new(44_100);
    synth.note_on(69, 127);
    let mut out = Vec::new();
    for _ in 0..10_000 {
        out.push(synth.generate_sample());
    }
    assert_eq!(&out[..5], &[0, -5_036, -15_097, -29_913, -49_159]);
    assert_eq!(out[100], 26_665_797);
    assert_eq!(out[1000], 517_730_279);
    assert_eq!(out[9999], 379_767_210);
    assert_eq!(*out.iter().min().unwrap(), -635_144_406);
}

#[test]
fn the_reverb_rings_on_after_the_last_voice() {
    let mut synth = Synth::new(44_100);
    synth.note_on(69, 127);
    for _ in 0..10_000 {
        let _ = synth.generate_sample();
    }
    synth.note_off(69);
    for _ in 0..6007 {
        let _ = synth.generate_sample();
    }
    assert_eq!(synth.voice_count(), 0);
    let tail: Vec<i64> = (0..5).map(|_| synth.generate_sample()).collect();
    assert_eq!(tail, vec![29_215, 5_843, 1_168, 233, 46]);
}

#[test]
fn without_a_reverb_the_output_is_the_clipped_signal() {
    let mut synth = Synth::new(44_100);
    synth.set_reverb(None);
    synth.note_on(69, 127);
    let mut out = Vec::new();
    for _ in 0..2000 {
        out.push(synth.generate_sample());
    }
    assert_eq!(out[0], 0);
    assert_eq!(out[1], -5_035);
    assert_eq!(out[2], -14_794);
    assert_eq!(out[1000], 482_379_847);
    assert_eq!(out[1999], 527_170_801);
    for sample in out {
        assert!(-1_000_000_000 < sample && sample < 1_000_000_000);
    }
}

#[test]
fn a_reverb_can_be_installed() {
    let mut with_own = Synth::new(44_100);
    let mut with_other = Synth::new(44_100);
    with_other.set_reverb(Some(Reverb::new(4_410, 200_000_000)));
    with_own.note_on(40, 90);
    with_other.note_on(40, 90);
    for _ in 0..3000 {
        assert_eq!(with_own.generate_sample(), with_other.generate_sample());
    }
}

#[test]
fn a_chord_is_mixed() {
    let mut synth = Synth::new(48_000);
    for note in [60, 64, 67] {
        synth.note_on(note, 100);
    }
    assert_eq!(synth.voice_count(), 3);
    let mut out = Vec::new();
    for _ in 0..3000 {
        out.push(synth.generate_sample());
    }
    assert_eq!(out[1], -5_835);
    assert_eq!(out[2], -17_607);
    assert_eq!(out[500], -79_896_040);
    assert_eq!(out[2999], -45_939_238);
    assert_eq!(*out.iter().max().unwrap(), 680_883_309);
    assert_eq!(*out.iter().min().unwrap(), -710_294_840);
}

#[test]
fn note_off_without_a_voice_changes_nothing() {
    let mut touched = Synth::new(44_100);
    let mut untouched = Synth::new(44_100);
    touched.note_off(69);
    assert_eq!(touched.voice_count(), 0);
    touched.note_on(60, 100);
    untouched.note_on(60, 100);
    for step in 0..5000 {
        if step % 100 == 0 {
            touched.note_off(61);
            touched.note_off(0);
            touched.note_off(127);
            touched.note_off(200);
        }
        assert_eq!(touched.generate_sample(), untouched.generate_sample());
        assert_eq!(touched.voice_count(), untouched.voice_count());
    }
    assert_eq!(touched.voice_count(), 1);
    assert!(touched.voice(61).is_none());
    assert_eq!(touched.sample_count(), untouched.sample_count());
}

#[test]
fn note_off_releases_only_its_own_note() {
    let mut synth = Synth::new(44_100);
    synth.note_on(60, 100);
    synth.note_on(64, 100);
    for _ in 0..5000 {
        let _ = synth.generate_sample();
    }
    synth.note_off(60);
    for _ in 0..10_000 {
        let _ = synth.generate_sample();
    }
    assert_eq!(synth.voice_count(), 1);
    assert!(synth.voice(60).is_none());
    assert!(synth.voice(64).is_some());
}

#[test]
fn a_second_note_off_changes_nothing() {
    let mut once = Synth::new(44_100);
    let mut twice = Synth::new(44_100);
    once.note_on(69, 127);
    twice.note_on(69, 127);
    for _ in 0..3000 {
        assert_eq!(once.generate_sample(), twice.generate_sample());
    }
    once.note_off(69);
    twice.note_off(69);
    twice.note_off(69);
    for step in 0..7000 {
        if step == 200 {
            twice.note_off(69);
        }
        assert_eq!(once.generate_sample(), twice.generate_sample());
        assert_eq!(once.voice_count(), twice.voice_count());
    }
    assert_eq!(once.voice_count(), 0);
}

#[test]
fn a_repeated_note_on_is_ignored_while_the_note_has_a_voice() {
    let mut synth = Synth::new(44_100);
    synth.note_on(69, 127);
    for _ in 0..500 {
        let _ = synth.generate_sample();
    }
    let before = synth.voice(69).unwrap();
    synth.note_on(69, 1);
    let after = synth.voice(69).unwrap();
    assert_eq!(synth.voice_count(), 1);
    assert_eq!(after.phase(), before.phase());
    assert_eq!(after.current_amplitude(), before.current_amplitude());
    assert!(after.phase() != 0);
}

#[test]
fn a_repeated_note_on_is_ignored_while_the_note_fades() {
    let mut synth = Synth::new(44_100);
    synth.note_on(69, 127);
    for _ in 0..5000 {
        let _ = synth.generate_sample();
    }
    synth.note_off(69);
    for _ in 0..1000 {
        let _ = synth.generate_sample();
    }
    synth.note_on(69, 127);
    assert_eq!(synth.voice_count(), 1);
    for _ in 1000..6007 {
        let _ = synth.generate_sample();
    }
    assert_eq!(synth.voice_count(), 0);
    synth.note_on(69, 127);
    assert_eq!(synth.voice_count(), 1);
    assert_eq!(synth.voice(69).unwrap().phase(), 0);
}

#[test]
fn with_retrigger_a_repeated_note_on_starts_the_note_again() {
    let mut synth = Synth::new(44_100);
    synth.set_retrigger_on_repeat(true);
    synth.note_on(69, 127);
    for _ in 0..500 {
        let _ = synth.generate_sample();
    }
    assert!(synth.voice(69).unwrap().phase() != 0);
    assert!(synth.voice(69).unwrap().current_amplitude() > 0);
    synth.note_on(69, 1);
    assert_eq!(synth.voice_count(), 1);
    let voice = synth.voice(69).unwrap();
    assert_eq!(voice.phase(), 0);
    assert_eq!(voice.current_amplitude(), 0);
    synth.set_retrigger_on_repeat(false);
    let _ = synth.generate_sample();
    let phase = synth.voice(69).unwrap().phase();
    synth.note_on(69, 127);
    assert_eq!(synth.voice(69).unwrap().phase(), phase);
}

#[test]
fn every_note_can_sound_at_once() {
    let mut synth = Synth::new(44_100);
    for note in 0..128u8 {
        synth.note_on(note, 127);
    }
    assert_eq!(synth.voice_count(), 128);
    for note in 0..128u8 {
        synth.note_on(note, 127);
    }
    assert_eq!(synth.voice_count(), 128);
    for _ in 0..2000 {
        let sample = synth.generate_sample();
        // 0.7 of a clipped signal plus 0.3 of a reverb that stays below 1.25.
        assert!(-1_075_000_000 <= sample && sample <= 1_075_000_000);
    }
    for note in 0..128u8 {
        synth.note_off(note);
    }
    for _ in 0..7000 {
        let _ = synth.generate_sample();
    }
    assert_eq!(synth.voice_count(), 0);
}

#[test]
fn a_note_released_before_it_sounds_is_dropped_by_the_next_sample() {
    let mut synth = Synth::new(44_100);
    synth.note_on(69, 127);
    synth.note_off(69);
    assert_eq!(synth.voice_count(), 1);
    assert_eq!(synth.voice(69).unwrap().is_active(), false);
    assert_eq!(synth.generate_sample(), 0);
    assert_eq!(synth.voice_count(), 0);
}

#[test]
fn events_are_applied() {
    let mut synth = Synth::new(44_100);
    synth.handle_event(NoteEvent { kind: NoteKind::On, note: 72, velocity: 90 });
    assert_eq!(synth.voice_count(), 1);
    assert_eq!(synth.voice(72).unwrap().frequency(), frequency(72));
    for _ in 0..3000 {
        let _ = synth.generate_sample();
    }
    synth.handle_event(NoteEvent { kind: NoteKind::Off, note: 72, velocity: 0 });
    for _ in 0..7000 {
        let _ = synth.generate_sample();
    }
    assert_eq!(synth.voice_count(), 0);
}

#[test]
fn raw_messages_are_applied_or_dropped() {
    let mut synth = Synth::new(44_100);
    assert_eq!(
        synth.handle_message(&[0x93, 69, 127]),
        Some(NoteEvent { kind: NoteKind::On, note: 69, velocity: 127 })
    );
    assert_eq!(synth.voice_count(), 1);
    assert_eq!(synth.handle_message(&[0xb0, 7, 100]), None);
    assert_eq!(synth.handle_message(&[0x90, 200, 100]), None);
    assert_eq!(synth.handle_message(&[0x90, 60]), None);
    assert_eq!(synth.voice_count(), 1);
    for _ in 0..100 {
        let _ = synth.generate_sample();
    }
    assert_eq!(
        synth.handle_message(&[0x80, 69, 0]),
        Some(NoteEvent { kind: NoteKind::Off, note: 69, velocity: 0 })
    );
    for _ in 0..7000 {
        let _ = synth.generate_sample();
    }
    assert_eq!(synth.voice_count(), 0);
}

#[test]
fn a_voice_passes_through_the_stages_of_its_envelope() {
    let mut synth = Synth::new(44_100);
    synth.note_on(69, 127);
    let mut amplitudes = Vec::new();
    for _ in 0..2000 {
        let _ = synth.generate_sample();
        amplitudes.push(synth.voice(69).unwrap().current_amplitude());
    }
    assert_eq!(amplitudes[0], 5_138);
    assert_eq!(amplitudes[99], 25_007_697);
    assert_eq!(amplitudes[1999], 650_955_846);
}
