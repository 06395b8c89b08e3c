use malvolia::chorus::Chorus;
use malvolia::delay::Delay;
use malvolia::fixed::FP_ONE;

#[test]
fn chorus_below_threshold_returns_input_exactly() {
    let mut c = Chorus::new();
    // the default mix is zero: full bypass
    for x in [-123456i64, -1, 0, 1, 987654] {
        assert_eq!(c.step(x), (x, x));
    }
    // one percent, rounded down, still bypasses
    c.set_mix(655);
    for x in [-5i64, 42, 100000] {
        assert_eq!(c.step(x), (x, x));
    }
}

#[test]
fn chorus_above_threshold_mixes_the_delayed_signal() {
    let mut c = Chorus::new();
    c.set_mix(FP_ONE);
    // while the buffer is still silent the taps contribute nothing
    let (l, r) = c.step(1000);
    assert_eq!((l, r), (1000, 1000));
    // after the buffer fills with a constant, each tap reads that
    // constant and full mix doubles the signal
    for _ in 0..1500 {
        c.step(1000);
    }
    assert_eq!(c.step(1000), (2000, 2000));
}

#[test]
fn delay_with_zero_offset_passes_through() {
    let mut d = Delay::new();
    d.set_offset(0);
    for x in [-99999i64, -1, 0, 7, 54321] {
        assert_eq!(d.step(x), x);
    }
}

#[test]
fn delay_taps_line_up_after_the_offset() {
    let mut d = Delay::new();
    d.set_offset(3);
    // unity gains: output is input plus the tap three calls back
    assert_eq!(d.step(1), 1);
    assert_eq!(d.step(2), 2);
    assert_eq!(d.step(3), 3);
    assert_eq!(d.step(4), 4 + 1);
    assert_eq!(d.step(5), 5 + 2);
    assert_eq!(d.step(6), 6 + 3);
}

#[test]
fn delay_default_offset_is_twenty_milliseconds() {
    let mut d = Delay::new();
    // 882 samples of dry signal before the first wet tap
    for k in 0..882i64 {
        assert_eq!(d.step(7), 7, "call {k}");
    }
    assert_eq!(d.step(7), 14);
}

#[test]
fn delay_gains_scale_wet_and_dry() {
    let mut d = Delay::new();
    d.set_offset(1);
    d.set_dry(FP_ONE / 2);
    d.set_wet(FP_ONE / 4);
    assert_eq!(d.step(1000), 500);
    assert_eq!(d.step(1000), 500 + 250);
}
