use polysynth::audio::write_data;
use polysynth::synth::Synth;

fn playing() -> Synth {
    let mut synth = Synth::new(44_100);
    synth.note_on(69, 127);
    synth.note_on(72, 80);
    for _ in 0..1000 {
        let _ = synth.generate_sample();
    }
    synth
}

#[test]
fn every_frame_holds_one_sample_on_all_channels() {
    let mut synth = playing();
    let mut reference = playing();
    let mut buffer = vec![0i64; 512];
    write_data(&mut buffer, 2, &mut synth);
    for frame in buffer.chunks(2) {
        let sample = reference.generate_sample();
        assert_eq!(frame, &[sample, sample]);
    }
    assert_eq!(synth.sample_count(), 1256);
    assert_eq!(synth.generate_sample(), reference.generate_sample());
}

#[test]
fn a_mono_buffer_takes_one_sample_per_entry() {
    let mut synth = playing();
    let mut reference = playing();
    let mut buffer = vec![0i64; 100];
    write_data(&mut buffer, 1, &mut synth);
    for entry in buffer {
        assert_eq!(entry, reference.generate_sample());
    }
    assert_eq!(synth.sample_count(), 1100);
}

#[test]
fn a_buffer_that_ends_inside_a_frame_gets_a_shorter_frame() {
    let mut synth = playing();
    let mut reference = playing();
    let mut buffer = vec![0i64; 11];
    write_data(&mut buffer, 4, &mut synth);
    let first = reference.generate_sample();
    let second = reference.generate_sample();
    let third = reference.generate_sample();
    assert_eq!(
        buffer,
        vec![first, first, first, first, second, second, second, second, third, third, third]
    );
    assert_eq!(synth.sample_count(), 1003);
}

#[test]
fn an_empty_buffer_takes_no_sample() {
    let mut synth = playing();
    let mut buffer: Vec<i64> = Vec::new();
    write_data(&mut buffer, 2, &mut synth);
    assert_eq!(synth.sample_count(), 1000);
}

#[test]
fn more_channels_than_entries_make_one_short_frame() {
    let mut synth = playing();
    let mut reference = playing();
    let mut buffer = vec![0i64; 3];
    write_data(&mut buffer, usize::MAX, &mut synth);
    let sample = reference.generate_sample();
    assert_eq!(buffer, vec![sample, sample, sample]);
    assert_eq!(synth.sample_count(), 1001);
}
