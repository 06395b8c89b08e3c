use malvolia::midi::MidiController;
use malvolia::fixed::FP_ONE;

const NOTE_ON: u8 = 144;
const NOTE_OFF: u8 = 128;
const CONTROL: u8 = 176;

#[test]
fn nine_note_ons_fill_exactly_eight_voices() {
    let mut m = MidiController::new();
    for p in 0..9u8 {
        m.process_event([NOTE_ON, 60 + p, 100]);
    }
    let active = m.notes.iter().filter(|n| n.gate).count();
    assert_eq!(active, 8);
    // the ninth pitch was dropped: no slot holds it
    assert!(m.notes.iter().all(|n| n.pitch != 68));
}

#[test]
fn note_off_for_unheld_pitch_is_a_no_op() {
    let mut m = MidiController::new();
    m.process_event([NOTE_ON, 60, 100]);
    let before: Vec<(u8, i64, i64, bool)> =
        m.notes.iter().map(|n| (n.pitch, n.freq, n.velocity, n.gate)).collect();
    m.process_event([NOTE_OFF, 61, 0]);
    let after: Vec<(u8, i64, i64, bool)> =
        m.notes.iter().map(|n| (n.pitch, n.freq, n.velocity, n.gate)).collect();
    assert_eq!(before, after);
}

#[test]
fn note_off_releases_every_slot_holding_the_pitch() {
    let mut m = MidiController::new();
    m.process_event([NOTE_ON, 60, 100]);
    m.process_event([NOTE_ON, 60, 100]);
    m.process_event([NOTE_ON, 62, 100]);
    m.process_event([NOTE_OFF, 60, 0]);
    assert!(!m.notes[0].gate);
    assert!(!m.notes[1].gate);
    assert!(m.notes[2].gate && m.notes[2].pitch == 62);
}

#[test]
fn sustain_control_round_trips_the_full_range() {
    let mut m = MidiController::new();
    m.process_event([CONTROL, 2, 127]);
    assert_eq!(m.adsr.2, FP_ONE);
    m.process_event([CONTROL, 2, 0]);
    assert_eq!(m.adsr.2, 0);
}

#[test]
fn envelope_time_controls_follow_the_exponential_curve() {
    let mut m = MidiController::new();
    // value 33 gives 2^1 - 1 = 1 second
    m.process_event([CONTROL, 0, 33]);
    assert_eq!(m.adsr.0, FP_ONE);
    // value 0 gives 2^0 - 1 = 0 seconds
    m.process_event([CONTROL, 1, 0]);
    assert_eq!(m.adsr.1, 0);
    // value 127 gives 2^(127/33) - 1, about 13.4 seconds
    m.process_event([CONTROL, 3, 127]);
    assert_eq!(m.adsr.3, 878504);
}

#[test]
fn mix_control_crossfades_the_three_waveforms() {
    let mut m = MidiController::new();
    m.process_event([CONTROL, 4, 0]);
    assert_eq!(m.osc_mix, [FP_ONE, 0, 0]);
    m.process_event([CONTROL, 4, 127]);
    assert_eq!(m.osc_mix, [0, 0, FP_ONE]);
    m.process_event([CONTROL, 4, 63]);
    assert_eq!(m.osc_mix, [518, 65018, 0]);
}

#[test]
fn note_on_sets_equal_tempered_frequency() {
    let mut m = MidiController::new();
    m.process_event([NOTE_ON, 69, 100]);
    // concert A is exactly 440 Hz in Q16.16
    assert_eq!(m.notes[0].freq, 440 * FP_ONE);
    assert_eq!(m.notes[0].pitch, 69);
    assert!(m.notes[0].gate);
}

#[test]
fn unknown_status_bytes_are_ignored() {
    let mut m = MidiController::new();
    let before: Vec<bool> = m.notes.iter().map(|n| n.gate).collect();
    m.process_event([200, 60, 100]);
    m.process_event([0, 60, 100]);
    let after: Vec<bool> = m.notes.iter().map(|n| n.gate).collect();
    assert_eq!(before, after);
    assert_eq!(m.adsr, (655, 0, 65536, 6553));
}
