use malvolia::osc::{WaveTable, SinLFO};
use malvolia::fixed::FP_ONE;

// 440 Hz in Q16.16
const A4: i64 = 28835840;

#[test]
fn first_saw_sample_at_concert_pitch_is_exact() {
    let mut w = WaveTable::new(44100);
    // the phase advances by 1024 * 28835840 / 44100 = 669567 of the
    // 1024 * 65536 period; 440 Hz reads the 128-entry band, where that
    // phase lands between entries 1 and 2
    assert_eq!(w.step(A4, [0, FP_ONE, 0]), -64229);
}

#[test]
fn band_change_keeps_the_waveform_position() {
    let mut w = WaveTable::new(44100);
    // 440 Hz reads the 128-entry band, 55 Hz the 1024-entry band; the
    // phase carries across the change, so the saw keeps rising from where
    // it was instead of snapping back to the start of the period
    assert_eq!(w.step(A4, [0, FP_ONE, 0]), -64229);
    assert_eq!(w.step(55 * FP_ONE, [0, FP_ONE, 0]), -64065);
}

#[test]
fn first_sine_sample_at_concert_pitch_is_exact() {
    let mut w = WaveTable::new(44100);
    assert_eq!(w.step(A4, [FP_ONE, 0, 0]), 4163);
}

#[test]
fn zero_frequency_freezes_the_phase() {
    let mut w = WaveTable::new(44100);
    let first = w.step(0, [0, FP_ONE, 0]);
    for _ in 0..50 {
        assert_eq!(w.step(0, [0, FP_ONE, 0]), first);
    }
}

#[test]
fn blend_weights_scale_and_mix() {
    // a zero weight vector silences the oscillator
    let mut w = WaveTable::new(44100);
    assert_eq!(w.step(A4, [0, 0, 0]), 0);
    // square at phase just past zero reads full scale
    let mut w2 = WaveTable::new(44100);
    assert_eq!(w2.step(A4, [0, 0, FP_ONE]), FP_ONE);
}

#[test]
fn oscillator_output_stays_within_three_times_full_scale() {
    let mut w = WaveTable::new(44100);
    for i in 0..3000i64 {
        let out = w.step(A4 + (i % 7) * 1000, [FP_ONE, FP_ONE, FP_ONE]);
        assert!(out.abs() <= 3 * FP_ONE);
    }
}

#[test]
fn lfo_output_stays_within_unit_range() {
    let mut l = SinLFO::new(44100);
    for _ in 0..5000 {
        let v = l.step(16384);
        assert!(-FP_ONE <= v && v <= FP_ONE);
    }
}

#[test]
fn lfo_sine_starts_at_zero_and_rises() {
    let mut l = SinLFO::new(44100);
    // a quarter hertz moves the phase slowly; early samples sit on the
    // rising first quarter of the sine
    let v1 = l.step(16384);
    let mut prev = v1;
    let mut rising = true;
    for _ in 0..100 {
        let v = l.step(16384);
        if v < prev {
            rising = false;
        }
        prev = v;
    }
    assert!(v1 >= 0);
    assert!(rising);
}
