use polysynth::envelope::{
    compute_smoothing_factor, Envelope, EnvelopeParams, EnvelopeState, THRESHOLD,
};
use polysynth::fixed::ONE;

const DT: u64 = 22_675_736;

fn sustained() -> Envelope {
    let mut env = Envelope::new(EnvelopeParams::default());
    for _ in 0..2000 {
        env.update(DT);
    }
    env
}

#[test]
fn default_parameters() {
    let p = EnvelopeParams::default();
    assert_eq!(p.attack_time, 5_000_000_000);
    assert_eq!(p.decay_time, 20_000_000_000);
    assert_eq!(p.sustain_level, 700_000_000);
    assert_eq!(p.release_time, 10_000_000_000);
}

#[test]
fn a_new_envelope_is_silent_and_in_attack() {
    let env = Envelope::new(EnvelopeParams::default());
    assert_eq!(env.state(), EnvelopeState::Attack);
    assert_eq!(env.value(), 0);
    assert!(env.is_active());
}

#[test]
fn smoothing_factor_values() {
    assert_eq!(compute_smoothing_factor(0), 0);
    assert_eq!(compute_smoothing_factor(12_345), 617);
    assert_eq!(compute_smoothing_factor(DT), 1_133_144);
    assert_eq!(compute_smoothing_factor(40_000_000_000), ONE);
    assert_eq!(compute_smoothing_factor(10_000_000_000_000), ONE);
    assert_eq!(compute_smoothing_factor(u64::MAX), ONE);
}

#[test]
fn smoothing_factor_is_close_to_the_exponential() {
    for rate in [8_000u64, 22_050, 44_100, 48_000, 96_000, 192_000] {
        let dt = 1_000_000_000_000 / rate;
        let exact = 1.0 - (-50.0 / rate as f64).exp();
        let ours = compute_smoothing_factor(dt) as f64 / 1.0e9;
        assert!((ours - exact).abs() < 1.0e-7, "rate {}", rate);
    }
}

#[test]
fn the_first_updates_follow_the_attack_ramp() {
    let mut env = Envelope::new(EnvelopeParams::default());
    env.update(DT);
    assert_eq!(env.value(), 5_138);
    env.update(DT);
    assert_eq!(env.value(), 15_410);
    for _ in 2..10 {
        env.update(DT);
    }
    assert_eq!(env.value(), 281_679);
    for _ in 10..100 {
        env.update(DT);
    }
    assert_eq!(env.value(), 25_007_697);
    assert_eq!(env.state(), EnvelopeState::Attack);
}

#[test]
fn attack_turns_into_decay_when_the_attack_time_is_over() {
    let mut env = Envelope::new(EnvelopeParams::default());
    for _ in 0..220 {
        env.update(DT);
    }
    assert_eq!(env.state(), EnvelopeState::Attack);
    assert_eq!(env.value(), 115_202_406);
    env.update(DT);
    assert_eq!(env.state(), EnvelopeState::Decay);
    assert_eq!(env.value(), 116_205_009);
    env.update(DT);
    assert_eq!(env.value(), 117_206_090);
}

#[test]
fn decay_turns_into_sustain_when_the_decay_time_is_over() {
    let mut env = Envelope::new(EnvelopeParams::default());
    for _ in 0..1103 {
        env.update(DT);
    }
    assert_eq!(env.state(), EnvelopeState::Decay);
    assert_eq!(env.value(), 564_398_322);
    env.update(DT);
    assert_eq!(env.state(), EnvelopeState::Sustain);
    assert_eq!(env.value(), 564_551_978);
}

#[test]
fn sustain_holds_until_release() {
    let mut env = sustained();
    assert_eq!(env.state(), EnvelopeState::Sustain);
    assert_eq!(env.value(), 650_955_846);
    for _ in 0..100_000 {
        env.update(DT);
    }
    assert_eq!(env.state(), EnvelopeState::Sustain);
    assert!(env.is_active());
    assert_eq!(env.value(), 699_999_118);
}

#[test]
fn one_long_update_ends_the_attack() {
    let mut env = Envelope::new(EnvelopeParams::default());
    env.update(5_000_000_000);
    assert_eq!(env.state(), EnvelopeState::Decay);
    // The target is 1.0 and the smoothing factor for 5 ms is 2·5/(2·20+5).
    assert_eq!(env.value(), 222_222_222);
}

#[test]
fn an_attack_time_of_zero_ends_the_attack_at_once() {
    let params = EnvelopeParams {
        attack_time: 0,
        decay_time: 0,
        sustain_level: 500_000_000,
        release_time: 0,
    };
    let mut env = Envelope::new(params);
    env.update(DT);
    assert_eq!(env.state(), EnvelopeState::Decay);
    env.update(DT);
    assert_eq!(env.state(), EnvelopeState::Sustain);
    env.release();
    assert_eq!(env.state(), EnvelopeState::Release);
    let before = env.value();
    env.update(DT);
    assert!(env.value() < before);
}

#[test]
fn a_sustain_level_of_one_skips_the_decay() {
    let params = EnvelopeParams {
        attack_time: 1_000,
        decay_time: 20_000_000_000,
        sustain_level: ONE,
        release_time: 10_000_000_000,
    };
    let mut env = Envelope::new(params);
    env.update(DT);
    assert_eq!(env.state(), EnvelopeState::Decay);
    env.update(DT);
    assert_eq!(env.state(), EnvelopeState::Sustain);
}

#[test]
fn release_enters_the_release_stage_and_keeps_the_value() {
    let mut env = sustained();
    let before = env.value();
    env.release();
    assert_eq!(env.state(), EnvelopeState::Release);
    assert_eq!(env.value(), before);
    assert!(env.is_active());
}

#[test]
fn releasing_twice_in_a_row_gives_the_same_trajectory() {
    let mut once = sustained();
    let mut twice = sustained();
    once.release();
    twice.release();
    twice.release();
    for _ in 0..8000 {
        once.update(DT);
        twice.update(DT);
        assert_eq!(once.value(), twice.value());
        assert_eq!(once.state(), twice.state());
        assert_eq!(once.is_active(), twice.is_active());
    }
}

#[test]
fn after_release_the_value_never_rises() {
    let mut env = sustained();
    env.release();
    let mut last = env.value();
    for _ in 0..8000 {
        env.update(DT);
        assert!(env.value() <= last);
        last = env.value();
    }
}

#[test]
fn release_during_attack_falls_from_the_value_reached() {
    let mut env = Envelope::new(EnvelopeParams::default());
    for _ in 0..100 {
        env.update(DT);
    }
    env.release();
    let mut last = env.value();
    assert_eq!(last, 25_007_697);
    for _ in 0..3000 {
        env.update(DT);
        assert!(env.value() <= last);
        last = env.value();
    }
}

#[test]
fn a_released_envelope_becomes_inactive() {
    let mut env = Envelope::new(EnvelopeParams::default());
    for _ in 0..10_000 {
        env.update(DT);
    }
    assert_eq!(env.value(), 699_993_917);
    env.release();
    let mut updates = 0;
    while env.is_active() {
        env.update(DT);
        updates += 1;
        assert!(updates <= 10_000);
    }
    assert_eq!(updates, 6007);
    assert_eq!(env.value(), 999_805);
    assert!(env.value() <= THRESHOLD);
    assert_eq!(env.state(), EnvelopeState::Release);
}

#[test]
fn an_envelope_released_at_zero_is_inactive_at_once() {
    let mut env = Envelope::new(EnvelopeParams::default());
    env.release();
    assert!(!env.is_active());
}

#[test]
fn the_value_stays_between_zero_and_one() {
    let mut env = Envelope::new(EnvelopeParams::default());
    for step in 0..20_000 {
        env.update(DT);
        assert!(0 <= env.value() && env.value() <= ONE);
        if step == 12_000 {
            env.release();
        }
    }
    let mut env = Envelope::new(EnvelopeParams {
        attack_time: 1,
        decay_time: u64::MAX,
        sustain_level: 0,
        release_time: u64::MAX,
    });
    for _ in 0..1000 {
        env.update(u64::MAX / 3);
        assert!(0 <= env.value() && env.value() <= ONE);
    }
}

#[test]
fn the_stages_come_in_order() {
    let mut env = Envelope::new(EnvelopeParams::default());
    let mut seen = vec![env.state()];
    for step in 0..9000 {
        env.update(DT);
        if step == 3000 {
            env.release();
        }
        if *seen.last().unwrap() != env.state() {
            seen.push(env.state());
        }
    }
    assert_eq!(
        seen,
        vec![
            EnvelopeState::Attack,
            EnvelopeState::Decay,
            EnvelopeState::Sustain,
            EnvelopeState::Release
        ]
    );
}
