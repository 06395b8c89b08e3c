use malvolia::engine::Engine;
use malvolia::midi::MidiController;

const NOTE_ON: u8 = 144;
const NOTE_OFF: u8 = 128;

#[test]
fn silence_in_gives_silence_out() {
    let mut e = Engine::new(44100);
    let m = MidiController::new();
    for _ in 0..100 {
        assert_eq!(e.process_sample(&m), (0, 0));
    }
}

#[test]
fn a_held_note_produces_sound() {
    let mut e = Engine::new(44100);
    let mut m = MidiController::new();
    m.process_event([NOTE_ON, 69, 100]);
    let mut heard = false;
    for _ in 0..2000 {
        let (l, r) = e.process_sample(&m);
        if l != 0 || r != 0 {
            heard = true;
        }
    }
    assert!(heard);
}

#[test]
fn rendering_is_deterministic() {
    let mut e1 = Engine::new(44100);
    let mut e2 = Engine::new(44100);
    let mut m = MidiController::new();
    m.process_event([NOTE_ON, 60, 100]);
    m.process_event([NOTE_ON, 64, 90]);
    for _ in 0..1000 {
        assert_eq!(e1.process_sample(&m), e2.process_sample(&m));
    }
}

#[test]
fn released_notes_fade_out() {
    let mut e = Engine::new(44100);
    let mut m = MidiController::new();
    m.process_event([NOTE_ON, 69, 100]);
    for _ in 0..5000 {
        e.process_sample(&m);
    }
    m.process_event([NOTE_OFF, 69, 0]);
    // the default release is 0.1 s (4410 samples); well after it, and
    // after the delay line has flushed, the output is silent again
    for _ in 0..20000 {
        e.process_sample(&m);
    }
    for _ in 0..100 {
        assert_eq!(e.process_sample(&m), (0, 0));
    }
}

#[test]
fn output_stays_within_the_engine_bound() {
    let mut e = Engine::new(44100);
    let mut m = MidiController::new();
    for p in 0..8u8 {
        m.process_event([NOTE_ON, 50 + 3 * p, 127]);
    }
    m.chorus_mix = 65536;
    for _ in 0..5000 {
        let (l, r) = e.process_sample(&m);
        assert!(l.abs() <= 2 * 0x20000000);
        assert!(r.abs() <= 2 * 0x20000000);
    }
}
