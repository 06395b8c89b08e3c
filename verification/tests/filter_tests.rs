use malvolia::filter::Filter;
use malvolia::fixed::FP_ONE;

#[test]
fn impulse_response_first_sample_is_exact() {
    let mut f = Filter::new();
    f.set_cutoff(FP_ONE / 2);
    f.set_resonance(0);
    // with cutoff one half, each integrator takes half of its predecessor
    assert_eq!(f.process(FP_ONE), 4096);
}

#[test]
fn zero_resonance_keeps_bounded_input_bounded() {
    let mut f = Filter::new();
    f.set_cutoff(13107);
    f.set_resonance(0);
    let out = f.process(FP_ONE);
    assert!(out.abs() <= FP_ONE);
    for _ in 0..2000 {
        let out = f.process(0);
        assert!(out.abs() <= FP_ONE);
    }
}

#[test]
fn zero_resonance_constant_input_stays_within_its_bound() {
    let mut f = Filter::new();
    f.set_cutoff(30000);
    f.set_resonance(0);
    for _ in 0..2000 {
        let out = f.process(12345);
        assert!(out.abs() <= 12345);
    }
}

#[test]
fn extreme_resonance_rails_instead_of_crashing() {
    let mut f = Filter::new();
    f.set_cutoff(65535);
    f.set_resonance(65535);
    // the feedback loop diverges at settings like these; the state clamps
    // at the signal limit and the filter keeps running
    for _ in 0..10000 {
        let out = f.process(65536);
        assert!(out.abs() <= 16777216);
    }
}

#[test]
fn zero_input_gives_zero_output_from_rest() {
    let mut f = Filter::new();
    f.set_cutoff(FP_ONE / 4);
    f.set_resonance(FP_ONE / 4);
    assert_eq!(f.process(0), 0);
}
