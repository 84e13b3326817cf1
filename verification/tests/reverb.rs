use polysynth::fixed::ONE;
use polysynth::reverb::{Reverb, OUTPUT_LIMIT};

#[test]
fn the_first_output_is_the_input() {
    let mut reverb = Reverb::new(4410, 200_000_000);
    assert_eq!(reverb.len(), 0);
    assert_eq!(reverb.process(123_456_789), 123_456_789);
    assert_eq!(reverb.len(), 1);
}

#[test]
fn each_output_adds_the_decayed_previous_output() {
    let mut reverb = Reverb::new(3, 200_000_000);
    let inputs = [ONE, ONE, ONE, -ONE, 0, 0, 500_000_000, -999_999_999];
    let expected = [
        1_000_000_000,
        1_200_000_000,
        1_240_000_000,
        -752_000_000,
        -150_400_000,
        -30_080_000,
        493_984_000,
        -901_203_199,
    ];
    for (input, output) in inputs.iter().zip(expected.iter()) {
        assert_eq!(reverb.process(*input), *output);
    }
}

#[test]
fn the_queue_never_grows_beyond_its_capacity() {
    let mut reverb = Reverb::new(3, 200_000_000);
    for step in 0..10usize {
        assert_eq!(reverb.len(), step.min(3));
        let _ = reverb.process(ONE);
    }
    assert_eq!(reverb.len(), 3);
}

#[test]
fn a_reverb_without_room_passes_the_input_through() {
    let mut reverb = Reverb::new(0, 999_999_999);
    for input in [ONE, -ONE, 5, 0, 999_999_999] {
        assert_eq!(reverb.process(input), input);
        assert_eq!(reverb.len(), 0);
    }
}

#[test]
fn a_decay_of_zero_passes_the_input_through() {
    let mut reverb = Reverb::new(8, 0);
    for input in [ONE, -ONE, 5, 0, 999_999_999] {
        assert_eq!(reverb.process(input), input);
    }
}

#[test]
fn a_negative_feedback_rounds_down() {
    let mut reverb = Reverb::new(2, 500_000_000);
    assert_eq!(reverb.process(-3), -3);
    assert_eq!(reverb.process(0), -2);
    assert_eq!(reverb.process(0), -1);
    assert_eq!(reverb.process(0), -1);
}

#[test]
fn the_output_stays_within_its_limit() {
    let mut up = Reverb::new(16, 999_999_999);
    let mut down = Reverb::new(16, 999_999_999);
    let mut high = 0;
    let mut low = 0;
    for _ in 0..200_000 {
        high = up.process(ONE);
        assert!(high <= OUTPUT_LIMIT);
        low = down.process(-ONE);
        assert!(low >= -OUTPUT_LIMIT);
    }
    assert_eq!(high, 199_980_001_342_140);
    assert_eq!(low, -199_980_001_542_119);
}
