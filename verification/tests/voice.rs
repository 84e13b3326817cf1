use polysynth::envelope::EnvelopeParams;
use polysynth::pitch::frequency;
use polysynth::voice::Voice;

const DT: u64 = 22_675_736;

#[test]
fn a_new_voice_starts_at_phase_zero_and_silent() {
    let voice = Voice::new(440_000_000, 127, EnvelopeParams::default());
    assert_eq!(voice.frequency(), 440_000_000);
    assert_eq!(voice.phase(), 0);
    assert_eq!(voice.current_amplitude(), 0);
    assert!(voice.is_active());
}

#[test]
fn update_turns_the_phase_by_frequency_times_time() {
    let mut voice = Voice::new(440_000_000, 127, EnvelopeParams::default());
    voice.update(DT);
    assert_eq!(voice.phase(), 9_977_323);
    for _ in 1..100 {
        voice.update(DT);
    }
    assert_eq!(voice.phase(), 997_732_300);
}

#[test]
fn the_phase_wraps_into_one_turn() {
    let mut voice = Voice::new(440_000_000, 127, EnvelopeParams::default());
    for _ in 0..2000 {
        voice.update(DT);
        assert!(voice.phase() < 1_000_000_000);
    }
    assert_eq!(voice.phase(), 954_646_000);
    let mut voice = Voice::new(frequency(127), 100, EnvelopeParams::default());
    for _ in 0..10 {
        voice.update(DT);
    }
    assert_eq!(voice.phase(), 844_411_200);
}

#[test]
fn the_phase_wraps_however_far_it_turns() {
    let mut voice = Voice::new(u64::MAX, 1, EnvelopeParams::default());
    voice.update(u64::MAX);
    assert_eq!(voice.phase(), 481_119_284);
    voice.update(1_000_000_000_000);
    assert!(voice.phase() < 1_000_000_000);
}

#[test]
fn the_amplitude_is_velocity_times_envelope() {
    let mut voice = Voice::new(440_000_000, 127, EnvelopeParams::default());
    voice.update(DT);
    assert_eq!(voice.current_amplitude(), 5_138);
    for _ in 1..100 {
        voice.update(DT);
    }
    assert_eq!(voice.current_amplitude(), 25_007_697);
    let mut voice = Voice::new(440_000_000, 64, EnvelopeParams::default());
    for _ in 0..2000 {
        voice.update(DT);
    }
    assert_eq!(voice.current_amplitude(), 328_040_740);
    let mut voice = Voice::new(frequency(127), 100, EnvelopeParams::default());
    for _ in 0..10 {
        voice.update(DT);
    }
    assert_eq!(voice.current_amplitude(), 221_794);
}

#[test]
fn a_velocity_of_zero_gives_a_silent_voice() {
    let mut voice = Voice::new(440_000_000, 0, EnvelopeParams::default());
    for _ in 0..2000 {
        voice.update(DT);
        assert_eq!(voice.current_amplitude(), 0);
    }
    assert!(voice.is_active());
}

#[test]
fn a_voice_is_active_until_its_release_has_faded() {
    let mut voice = Voice::new(440_000_000, 127, EnvelopeParams::default());
    for _ in 0..10_000 {
        voice.update(DT);
    }
    assert!(voice.is_active());
    voice.release();
    assert!(voice.is_active());
    let mut updates = 0;
    while voice.is_active() {
        voice.update(DT);
        updates += 1;
        assert!(updates <= 10_000);
    }
    assert_eq!(updates, 6007);
}

#[test]
fn a_second_release_changes_nothing() {
    let mut once = Voice::new(440_000_000, 127, EnvelopeParams::default());
    let mut again = Voice::new(440_000_000, 127, EnvelopeParams::default());
    for _ in 0..3000 {
        once.update(DT);
        again.update(DT);
    }
    once.release();
    again.release();
    again.release();
    for step in 0..7000 {
        once.update(DT);
        again.update(DT);
        if step % 500 == 0 {
            // A voice that is already released ignores the release.
            again.release();
        }
        assert_eq!(once.current_amplitude(), again.current_amplitude());
        assert_eq!(once.phase(), again.phase());
        assert_eq!(once.is_active(), again.is_active());
    }
    assert!(!once.is_active());
}
