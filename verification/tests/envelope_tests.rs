use malvolia::envelope::ADSR;
use malvolia::fixed::FP_ONE;

#[test]
fn instant_attack_reaches_full_level_on_first_sample() {
    let mut env = ADSR::new(44100);
    // attack 0, decay 1 s, sustain 0.5, release 1 s
    env.set_adsr(0, FP_ONE, FP_ONE / 2, FP_ONE);
    assert_eq!(env.step(true), FP_ONE);
}

#[test]
fn instant_release_is_silent_immediately() {
    let mut env = ADSR::new(44100);
    env.set_adsr(0, FP_ONE, FP_ONE, 0);
    assert_eq!(env.step(true), FP_ONE);
    assert_eq!(env.step(false), 0);
}

#[test]
fn attack_ramp_is_exact_and_non_decreasing() {
    let mut env = ADSR::new(44100);
    // attack of one second is 44100 samples at this rate
    env.set_adsr(FP_ONE, 0, FP_ONE / 2, FP_ONE);
    let first = env.step(true);
    assert_eq!(first, 0);
    let mut prev = first;
    for _ in 0..500 {
        let a = env.step(true);
        assert!(a >= prev);
        assert!(a <= FP_ONE);
        prev = a;
    }
    // sample at stage time 1 of the ramp was 65536 / 44100 = 1
    let mut env2 = ADSR::new(44100);
    env2.set_adsr(FP_ONE, 0, FP_ONE / 2, FP_ONE);
    env2.step(true);
    assert_eq!(env2.step(true), 1);
}

#[test]
fn release_never_exceeds_level_at_release_and_decreases() {
    let mut env = ADSR::new(44100);
    env.set_adsr(0, 0, FP_ONE / 2, FP_ONE);
    // instant attack with zero decay pins the envelope at the sustain level
    let held = env.step(true);
    assert_eq!(held, FP_ONE / 2);
    let mut prev = env.step(false);
    assert!(prev <= held);
    for _ in 0..500 {
        let a = env.step(false);
        assert!(a <= prev);
        assert!(a >= 0);
        prev = a;
    }
}

#[test]
fn long_release_fades_to_zero_and_stays_there() {
    let mut env = ADSR::new(44100);
    // a release of 1/65536 s rounds to 0 samples: silent at once
    env.set_adsr(0, 0, FP_ONE, 1);
    env.step(true);
    assert_eq!(env.step(false), 0);
    assert_eq!(env.step(false), 0);
}

#[test]
fn sustain_holds_while_gate_held() {
    let mut env = ADSR::new(44100);
    env.set_adsr(0, 0, 12345, FP_ONE);
    for _ in 0..100 {
        assert_eq!(env.step(true), 12345);
    }
}
