//! Note routing and control-change handling.
//!
//! Incoming three-byte events drive a fixed pool of eight note slots and
//! the shared synthesis parameters.  A note-on takes the first released
//! slot (and is dropped silently when none is free); a note-off releases
//! every slot holding its pitch.  Control changes set the envelope times
//! (on an exponential curve), the sustain level, or the oscillator blend
//! weights (a triangular crossfade over the three waveforms).
//!
//! Pitch is mapped to frequency by the equal-tempered scale: a twelve-entry
//! Q16.16 table for the lowest octave, doubled once per octave above it.
//! The envelope-time curve `2^(v/33) - 1` seconds is likewise held as a
//! 33-entry Q16.16 table for the fractional part of the exponent.

use vstd::prelude::*;
use vstd::arithmetic::power2::{pow2, lemma2_to64, lemma_pow2_strictly_increases};
use crate::fixed::FP_ONE;
use crate::osc::FREQ_LIMIT;
use crate::envelope::ENV_SECS_LIMIT;

verus! {

/// One polyphony slot: the note it is sounding and whether it is held.
#[derive(Clone, Copy)]
pub struct Note {
    /// Key number, 0 to 127.
    pub pitch: u8,
    /// Q16.16 frequency in hertz, derived from the pitch.
    pub freq: i64,
    /// Q16.16 key velocity (0 to 127).
    pub velocity: i64,
    /// Whether the key is currently held.
    pub gate: bool,
}

impl Note {
    /// Range invariants.
    pub open spec fn wf(self) -> bool {
        &&& 0 <= self.freq <= FREQ_LIMIT
        &&& 0 <= self.velocity <= 127 * FP_ONE
    }

    /// The resting state of a slot: concert A, released.
    fn new() -> (n: Note)
        ensures
            n == (Note { pitch: 69, freq: 28835840, velocity: 6553600, gate: false }),
            n.wf(),
    {
        Note { pitch: 69, freq: 28835840, velocity: 6553600, gate: false }
    }
}

/// Q16.16 frequency of pitch `k` of the lowest octave (equal-tempered,
/// pitch 9 of this octave is 13.75 Hz).
pub open spec fn semitone_base(k: int) -> int {
    if k == 0 {
        535809
    } else if k == 1 {
        567670
    } else if k == 2 {
        601425
    } else if k == 3 {
        637188
    } else if k == 4 {
        675077
    } else if k == 5 {
        715219
    } else if k == 6 {
        757749
    } else if k == 7 {
        802807
    } else if k == 8 {
        850544
    } else if k == 9 {
        901120
    } else if k == 10 {
        954703
    } else {
        1011473
    }
}

/// A data byte held to the seven-bit MIDI range: anything above 127 is
/// treated as 127.
pub open spec fn clamp7(v: int) -> int {
    if v > 127 {
        127
    } else {
        v
    }
}

/// Q16.16 frequency of a pitch: the lowest-octave entry for its pitch
/// class, doubled once per octave.
pub open spec fn pitch_freq(p: int) -> int {
    semitone_base(clamp7(p) % 12) * pow2((clamp7(p) / 12) as nat)
}

/// `2^(k/33)` in Q16.16 for the fractional exponent `k/33`, `0 <= k < 33`.
pub open spec fn two_pow_frac33(k: int) -> int {
    if k == 0 {
        65536
    } else if k == 1 {
        66927
    } else if k == 2 {
        68348
    } else if k == 3 {
        69799
    } else if k == 4 {
        71280
    } else if k == 5 {
        72793
    } else if k == 6 {
        74338
    } else if k == 7 {
        75916
    } else if k == 8 {
        77528
    } else if k == 9 {
        79173
    } else if k == 10 {
        80854
    } else if k == 11 {
        82570
    } else if k == 12 {
        84323
    } else if k == 13 {
        86113
    } else if k == 14 {
        87941
    } else if k == 15 {
        89807
    } else if k == 16 {
        91714
    } else if k == 17 {
        93660
    } else if k == 18 {
        95648
    } else if k == 19 {
        97679
    } else if k == 20 {
        99752
    } else if k == 21 {
        101870
    } else if k == 22 {
        104032
    } else if k == 23 {
        106240
    } else if k == 24 {
        108495
    } else if k == 25 {
        110798
    } else if k == 26 {
        113150
    } else if k == 27 {
        115552
    } else if k == 28 {
        118005
    } else if k == 29 {
        120510
    } else if k == 30 {
        123068
    } else if k == 31 {
        125680
    } else {
        128348
    }
}

/// Q16.16 seconds for an envelope-time control value: `2^(v/33) - 1`.
pub open spec fn cc_env_time(v: int) -> int {
    two_pow_frac33(v % 33) * pow2((v / 33) as nat) - FP_ONE
}

/// Triangular blend weight of mix slot `i` for control value `v`: the
/// three slots sit at 0, 1/2 and 1 of the control range, and each weight
/// falls linearly from one to zero over one slot spacing.
pub open spec fn mix_weight(v: int, i: int) -> int {
    let reference = v * FP_ONE / 127;
    let dist = if 2 * reference >= i * FP_ONE {
        2 * reference - i * FP_ONE
    } else {
        i * FP_ONE - 2 * reference
    };
    if dist >= FP_ONE {
        0
    } else {
        FP_ONE - dist
    }
}

/// The lowest-octave frequency for a pitch class.
fn semitone_base_at(k: u8) -> (r: i64)
    requires
        k < 12,
    ensures
        r as int == semitone_base(k as int),
        0 < r <= 0x100000,
{
    match k {
        0 => 535809,
        1 => 567670,
        2 => 601425,
        3 => 637188,
        4 => 675077,
        5 => 715219,
        6 => 757749,
        7 => 802807,
        8 => 850544,
        9 => 901120,
        10 => 954703,
        _ => 1011473,
    }
}

/// `2^(k/33)` in Q16.16 for `k < 33`.
fn two_pow_frac33_at(k: u8) -> (r: i64)
    requires
        k < 33,
    ensures
        r as int == two_pow_frac33(k as int),
        FP_ONE <= r <= 2 * FP_ONE,
{
    match k {
        0 => 65536,
        1 => 66927,
        2 => 68348,
        3 => 69799,
        4 => 71280,
        5 => 72793,
        6 => 74338,
        7 => 75916,
        8 => 77528,
        9 => 79173,
        10 => 80854,
        11 => 82570,
        12 => 84323,
        13 => 86113,
        14 => 87941,
        15 => 89807,
        16 => 91714,
        17 => 93660,
        18 => 95648,
        19 => 97679,
        20 => 99752,
        21 => 101870,
        22 => 104032,
        23 => 106240,
        24 => 108495,
        25 => 110798,
        26 => 113150,
        27 => 115552,
        28 => 118005,
        29 => 120510,
        30 => 123068,
        31 => 125680,
        _ => 128348,
    }
}

/// `base * 2^n`, by repeated doubling.
fn times_pow2(base: i64, n: u8) -> (r: i64)
    requires
        0 < base <= 0x100000,
        n <= 10,
    ensures
        r as int == base * pow2(n as nat),
{
    proof {
        lemma2_to64();
    }
    let mut f = base;
    let mut j: u8 = 0;
    while j < n
        invariant
            j <= n <= 10,
            0 < base <= 0x100000,
            f as int == base * pow2(j as nat),
            0 < f,
        decreases n - j,
    {
        proof {
            lemma2_to64();
            vstd::arithmetic::power2::lemma_pow2_pos(j as nat);
            if (j as nat) < 9 {
                lemma_pow2_strictly_increases(j as nat, 9);
            }
            assert(base * pow2(j as nat) <= 0x100000 * 512) by (nonlinear_arith)
                requires
                    0 < base <= 0x100000,
                    0 < pow2(j as nat) <= 512;
            assert(2 * (base * pow2(j as nat)) == base * (2 * pow2(j as nat))) by (nonlinear_arith);
            assert(pow2((j + 1) as nat) == 2 * pow2(j as nat)) by {
                vstd::arithmetic::power2::lemma_pow2_unfold((j + 1) as nat);
            }
        }
        f = f * 2;
        j = j + 1;
    }
    f
}

/// The Q16.16 frequency of a pitch.
fn freq_from_pitch(p: u8) -> (r: i64)
    ensures
        r as int == pitch_freq(p as int),
        0 < r <= FREQ_LIMIT,
{
    let q = if p > 127 {
        127
    } else {
        p
    };
    let base = semitone_base_at(q % 12);
    let r = times_pow2(base, q / 12);
    proof {
        lemma2_to64();
        vstd::arithmetic::power2::lemma_pow2_pos((q / 12) as nat);
        if ((q / 12) as nat) < 10 {
            lemma_pow2_strictly_increases((q / 12) as nat, 10);
        }
        assert(base * pow2((q / 12) as nat) <= 0x100000 * 1024) by (nonlinear_arith)
            requires
                0 < base as int <= 0x100000,
                0 < pow2((q / 12) as nat) <= 1024;
        assert(base * pow2((q / 12) as nat) >= base * 1) by (nonlinear_arith)
            requires
                0 < base as int,
                1 <= pow2((q / 12) as nat);
    }
    r
}

/// The Q16.16 envelope time for a control value.
fn env_time_from_cc(v: u8) -> (r: i64)
    ensures
        r as int == cc_env_time(v as int),
        0 <= r <= ENV_SECS_LIMIT,
{
    let base = two_pow_frac33_at(v % 33);
    let f = times_pow2(base, v / 33);
    proof {
        lemma2_to64();
        vstd::arithmetic::power2::lemma_pow2_pos((v / 33) as nat);
        if ((v / 33) as nat) < 8 {
            lemma_pow2_strictly_increases((v / 33) as nat, 8);
        }
        assert(base * pow2((v / 33) as nat) <= 2 * FP_ONE * 256) by (nonlinear_arith)
            requires
                0 < base as int <= 2 * FP_ONE,
                0 < pow2((v / 33) as nat) <= 256;
        assert(base * pow2((v / 33) as nat) >= base * 1) by (nonlinear_arith)
            requires
                0 < base as int,
                1 <= pow2((v / 33) as nat);
    }
    f - FP_ONE
}

/// The triangular blend weight of a mix slot.
fn mix_weight_at(v: u8, i: u8) -> (r: i64)
    requires
        i < 3,
    ensures
        r as int == mix_weight(v as int, i as int),
        0 <= r <= FP_ONE,
{
    let reference = ((v as i64) * FP_ONE) / 127;
    let scaled = 2 * reference;
    let point = (i as i64) * FP_ONE;
    let dist = if scaled >= point {
        scaled - point
    } else {
        point - scaled
    };
    if dist >= FP_ONE {
        0
    } else {
        FP_ONE - dist
    }
}

/// The index of the first released slot, or the pool size when every slot
/// is held.
pub open spec fn first_free(notes: Seq<Note>) -> int
    decreases notes.len(),
{
    if notes.len() == 0 {
        0
    } else if !notes[0].gate {
        0
    } else {
        1 + first_free(notes.drop_first())
    }
}

/// The note a note-on event assigns to the slot it takes.
pub open spec fn made_note(pitch: u8, velocity: u8) -> Note {
    Note {
        pitch,
        freq: pitch_freq(pitch as int) as i64,
        velocity: (clamp7(velocity as int) * (FP_ONE as int)) as i64,
        gate: true,
    }
}

/// A note-on fills the first released slot, or does nothing when the pool
/// is full.
pub open spec fn note_on_spec(notes: Seq<Note>, pitch: u8, velocity: u8) -> Seq<Note> {
    let i = first_free(notes);
    if i < notes.len() {
        notes.update(i, made_note(pitch, velocity))
    } else {
        notes
    }
}

/// A note-off releases every slot holding the pitch and touches nothing
/// else.
pub open spec fn note_off_spec(notes: Seq<Note>, pitch: u8) -> Seq<Note> {
    Seq::new(
        notes.len(),
        |i: int|
            if notes[i].pitch == pitch {
                Note { gate: false, ..notes[i] }
            } else {
                notes[i]
            },
    )
}

/// When the first `i` slots are held and slot `i` (if any) is released,
/// slot `i` is the first free one.
proof fn lemma_first_free_at(notes: Seq<Note>, i: int)
    requires
        0 <= i <= notes.len(),
        forall|k: int| 0 <= k < i ==> (#[trigger] notes[k]).gate,
        i < notes.len() ==> !notes[i].gate,
    ensures
        first_free(notes) == i,
    decreases i,
{
    if i == 0 {
    } else {
        lemma_first_free_at(notes.drop_first(), i - 1);
    }
}

/// A note-on against a fully sounding pool changes nothing: polyphony
/// overflow drops the event.
pub proof fn lemma_note_on_full(notes: Seq<Note>, pitch: u8, velocity: u8)
    requires
        forall|i: int| 0 <= i < notes.len() ==> (#[trigger] notes[i]).gate,
    ensures
        note_on_spec(notes, pitch, velocity) == notes,
{
    lemma_first_free_at(notes, notes.len() as int);
}

/// A note-off for a pitch no slot holds is a no-op, and a note-off always
/// clears exactly the gates of the slots holding its pitch, leaving every
/// other field alone.
pub proof fn lemma_note_off_matching(notes: Seq<Note>, pitch: u8)
    ensures
        (forall|i: int| 0 <= i < notes.len() ==> (#[trigger] notes[i]).pitch != pitch)
            ==> note_off_spec(notes, pitch) == notes,
        forall|i: int|
            0 <= i < notes.len() ==> (#[trigger] note_off_spec(notes, pitch)[i]).gate == (notes[i].pitch
                != pitch && notes[i].gate),
        forall|i: int|
            0 <= i < notes.len() ==> (#[trigger] note_off_spec(notes, pitch)[i]).pitch
                == notes[i].pitch && note_off_spec(notes, pitch)[i].freq == notes[i].freq
                && note_off_spec(notes, pitch)[i].velocity == notes[i].velocity,
{
    if forall|i: int| 0 <= i < notes.len() ==> (#[trigger] notes[i]).pitch != pitch {
        assert(note_off_spec(notes, pitch) =~= notes);
    }
}

/// How a control change rewrites the shared parameters: ids 0, 1 and 3 set
/// the attack, decay and release times on the exponential curve, id 2 sets
/// the sustain level linearly, id 4 re-blends the oscillator mix, and any
/// other id changes nothing.
pub open spec fn control_changed(
    pre: MidiController,
    post: MidiController,
    id: u8,
    level: u8,
) -> bool {
    &&& post.notes == pre.notes
    &&& post.cutoff == pre.cutoff
    &&& post.resonance == pre.resonance
    &&& post.chorus_mix == pre.chorus_mix
    &&& post.adsr.0 as int == (if id == 0 {
        cc_env_time(level as int)
    } else {
        pre.adsr.0 as int
    })
    &&& post.adsr.1 as int == (if id == 1 {
        cc_env_time(level as int)
    } else {
        pre.adsr.1 as int
    })
    &&& post.adsr.2 as int == (if id == 2 {
        clamp7(level as int) * FP_ONE / 127
    } else {
        pre.adsr.2 as int
    })
    &&& post.adsr.3 as int == (if id == 3 {
        cc_env_time(level as int)
    } else {
        pre.adsr.3 as int
    })
    &&& (forall|k: int|
        0 <= k < 3 ==> #[trigger] post.osc_mix@[k] as int == (if id == 4 {
            mix_weight(level as int, k)
        } else {
            pre.osc_mix@[k] as int
        }))
}

/// The note router and shared parameter store: eight note slots, envelope
/// times in Q16.16 seconds, the sustain level, the oscillator blend
/// weights, and the filter and chorus settings.
pub struct MidiController {
    /// The eight polyphony slots.
    pub notes: Vec<Note>,
    /// Attack, decay, sustain, release: times in Q16.16 seconds, sustain a
    /// Q16.16 level.
    pub adsr: (i64, i64, i64, i64),
    /// Blend weights for sine, saw and square, each in `[0, FP_ONE]`.
    pub osc_mix: [i64; 3],
    /// Filter cutoff fraction, strictly inside `(0, FP_ONE)`.
    pub cutoff: i64,
    /// Filter resonance in `[0, FP_ONE)`.
    pub resonance: i64,
    /// Chorus wet mix in `[0, FP_ONE]`.
    pub chorus_mix: i64,
}

impl MidiController {
    /// Range invariants.
    pub open spec fn wf(self) -> bool {
        &&& self.notes@.len() == 8
        &&& forall|i: int| 0 <= i < self.notes@.len() ==> (#[trigger] self.notes@[i]).wf()
        &&& 0 <= self.adsr.0 <= ENV_SECS_LIMIT
        &&& 0 <= self.adsr.1 <= ENV_SECS_LIMIT
        &&& 0 <= self.adsr.2 <= FP_ONE
        &&& 0 <= self.adsr.3 <= ENV_SECS_LIMIT
        &&& forall|k: int| 0 <= k < 3 ==> 0 <= #[trigger] self.osc_mix@[k] <= FP_ONE
        &&& 0 < self.cutoff < FP_ONE
        &&& 0 <= self.resonance < FP_ONE
        &&& 0 <= self.chorus_mix <= FP_ONE
    }

    /// A fresh controller: all slots released, a short attack and release,
    /// full sustain, a pure sine blend, and a gentle filter setting.
    pub fn new() -> (m: MidiController)
        ensures
            m.wf(),
            m.notes@.len() == 8,
            forall|i: int|
                0 <= i < 8 ==> #[trigger] m.notes@[i] == (Note {
                    pitch: 69,
                    freq: 28835840,
                    velocity: 6553600,
                    gate: false,
                }),
            m.adsr == (655i64, 0i64, 65536i64, 6553i64),
            m.osc_mix@ == seq![FP_ONE, 0i64, 0i64],
            m.cutoff == 6553,
            m.resonance == 13107,
            m.chorus_mix == 0,
    {
        let mut notes: Vec<Note> = Vec::new();
        for i in 0..8usize
            invariant
                notes@.len() == i,
                forall|k: int|
                    0 <= k < i ==> #[trigger] notes@[k] == (Note {
                        pitch: 69,
                        freq: 28835840,
                        velocity: 6553600,
                        gate: false,
                    }),
        {
            notes.push(Note::new());
        }
        MidiController {
            notes,
            adsr: (655, 0, 65536, 6553),
            osc_mix: [FP_ONE, 0, 0],
            cutoff: 6553,
            resonance: 13107,
            chorus_mix: 0,
        }
    }

    /// Runtime check of the range invariants, for callers outside the
    /// verified world.
    pub fn is_wf(&self) -> (b: bool)
        ensures
            b == self.wf(),
    {
        if self.notes.len() != 8 {
            return false;
        }
        let mut i: usize = 0;
        while i < 8
            invariant
                self.notes@.len() == 8,
                i <= 8,
                forall|k: int| 0 <= k < i ==> (#[trigger] self.notes@[k]).wf(),
            decreases 8 - i,
        {
            let n = self.notes[i];
            if !(0 <= n.freq && n.freq <= FREQ_LIMIT && 0 <= n.velocity && n.velocity <= 127
                * FP_ONE) {
                return false;
            }
            i = i + 1;
        }
        0 <= self.adsr.0 && self.adsr.0 <= ENV_SECS_LIMIT && 0 <= self.adsr.1 && self.adsr.1
            <= ENV_SECS_LIMIT && 0 <= self.adsr.2 && self.adsr.2 <= FP_ONE && 0 <= self.adsr.3
            && self.adsr.3 <= ENV_SECS_LIMIT && 0 <= self.osc_mix[0] && self.osc_mix[0] <= FP_ONE
            && 0 <= self.osc_mix[1] && self.osc_mix[1] <= FP_ONE && 0 <= self.osc_mix[2]
            && self.osc_mix[2] <= FP_ONE && 0 < self.cutoff && self.cutoff < FP_ONE && 0
            <= self.resonance && self.resonance < FP_ONE && 0 <= self.chorus_mix && self.chorus_mix
            <= FP_ONE
    }

    /// Route one three-byte event: `data[0]` selects note-off (128),
    /// note-on (144) or control-change (176); anything else is ignored.
    /// `data[1]` and `data[2]` carry the pitch and velocity, or the
    /// controller id and value.
    pub fn process_event(&mut self, data: [u8; 3])
        requires
            old(self).wf(),
        ensures
            final(self).wf(),
            data@[0] == 128 ==> final(self).notes@ == note_off_spec(old(self).notes@, data@[1])
                && unchanged_params(*old(self), *final(self)),
            data@[0] == 144 ==> final(self).notes@ == note_on_spec(
                old(self).notes@,
                data@[1],
                data@[2],
            ) && unchanged_params(*old(self), *final(self)),
            data@[0] == 176 ==> control_changed(*old(self), *final(self), data@[1], data@[2]),
            data@[0] != 128 && data@[0] != 144 && data@[0] != 176 ==> *final(self) == *old(self),
    {
        match data[0] {
            128 => self.note_off(data[1]),
            144 => self.note_on(data[1], data[2]),
            176 => self.push_control_change(data[1], data[2]),
            _ => (),
        }
    }

    /// Assign the first released slot, if any, to the new note.
    fn note_on(&mut self, pitch: u8, velocity: u8)
        requires
            old(self).wf(),
        ensures
            final(self).wf(),
            final(self).notes@ == note_on_spec(old(self).notes@, pitch, velocity),
            unchanged_params(*old(self), *final(self)),
    {
        let freq = freq_from_pitch(pitch);
        let vel = if velocity > 127 {
            127
        } else {
            velocity
        };
        let note = Note { pitch, freq, velocity: (vel as i64) * FP_ONE, gate: true };
        proof {
            assert(note == made_note(pitch, velocity));
        }
        let mut i: usize = 0;
        while i < 8
            invariant
                old(self).wf(),
                *self == *old(self),
                i <= 8,
                note == made_note(pitch, velocity),
                note.wf(),
                forall|k: int| 0 <= k < i ==> (#[trigger] old(self).notes@[k]).gate,
            decreases 8 - i,
        {
            if !self.notes[i].gate {
                proof {
                    lemma_first_free_at(old(self).notes@, i as int);
                }
                self.notes[i] = note;
                proof {
                    assert(self.notes@ =~= note_on_spec(old(self).notes@, pitch, velocity));
                    assert forall|k: int|
                        0 <= k < self.notes@.len() implies (#[trigger] self.notes@[k]).wf() by {
                        if k == i as int {
                            assert(self.notes@[k] == note);
                            assert(0 <= note.freq <= FREQ_LIMIT);
                            assert(0 <= note.velocity <= 127 * FP_ONE);
                            assert(note.wf());
                        } else {
                            assert(self.notes@[k] == old(self).notes@[k]);
                            assert(old(self).notes@[k].wf());
                        }
                    }
                }
                return ;
            }
            i = i + 1;
        }
        proof {
            lemma_first_free_at(old(self).notes@, 8);
        }
    }

    /// Release every slot holding the pitch.
    fn note_off(&mut self, pitch: u8)
        requires
            old(self).wf(),
        ensures
            final(self).wf(),
            final(self).notes@ == note_off_spec(old(self).notes@, pitch),
            unchanged_params(*old(self), *final(self)),
    {
        let mut i: usize = 0;
        while i < 8
            invariant
                old(self).wf(),
                i <= 8,
                self.notes@.len() == 8,
                forall|k: int|
                    0 <= k < 8 ==> #[trigger] self.notes@[k] == (if 0 <= k < i {
                        note_off_spec(old(self).notes@, pitch)[k]
                    } else {
                        old(self).notes@[k]
                    }),
                self.adsr == old(self).adsr,
                self.osc_mix == old(self).osc_mix,
                self.cutoff == old(self).cutoff,
                self.resonance == old(self).resonance,
                self.chorus_mix == old(self).chorus_mix,
            decreases 8 - i,
        {
            if self.notes[i].pitch == pitch {
                let n = self.notes[i];
                self.notes[i] = Note { gate: false, ..n };
            }
            i = i + 1;
        }
        proof {
            assert(self.notes@ =~= note_off_spec(old(self).notes@, pitch));
        }
    }

    /// Apply one control change to the shared parameters.
    fn push_control_change(&mut self, id: u8, level: u8)
        requires
            old(self).wf(),
        ensures
            final(self).wf(),
            control_changed(*old(self), *final(self), id, level),
    {
        if id == 0 {
            let t = env_time_from_cc(level);
            self.adsr = (t, self.adsr.1, self.adsr.2, self.adsr.3);
        }
        if id == 1 {
            let t = env_time_from_cc(level);
            self.adsr = (self.adsr.0, t, self.adsr.2, self.adsr.3);
        }
        if id == 2 {
            let lv = if level > 127 {
                127
            } else {
                level
            };
            let s = ((lv as i64) * FP_ONE) / 127;
            proof {
                vstd::arithmetic::div_mod::lemma_div_pos_is_pos((lv as int) * FP_ONE, 127);
                vstd::arithmetic::div_mod::lemma_div_is_ordered(
                    (lv as int) * FP_ONE,
                    127 * FP_ONE,
                    127,
                );
                vstd::arithmetic::div_mod::lemma_div_multiples_vanish(FP_ONE as int, 127);
            }
            self.adsr = (self.adsr.0, self.adsr.1, s, self.adsr.3);
        }
        if id == 3 {
            let t = env_time_from_cc(level);
            self.adsr = (self.adsr.0, self.adsr.1, self.adsr.2, t);
        }
        if id == 4 {
            self.set_osc_mix(level);
        }
    }

    /// Re-blend the oscillator mix from one control value.
    fn set_osc_mix(&mut self, level: u8)
        requires
            old(self).wf(),
        ensures
            final(self).wf(),
            final(self).notes == old(self).notes,
            final(self).adsr == old(self).adsr,
            final(self).cutoff == old(self).cutoff,
            final(self).resonance == old(self).resonance,
            final(self).chorus_mix == old(self).chorus_mix,
            forall|k: int|
                0 <= k < 3 ==> #[trigger] final(self).osc_mix@[k] as int == mix_weight(
                    level as int,
                    k,
                ),
    {
        let w0 = mix_weight_at(level, 0);
        let w1 = mix_weight_at(level, 1);
        let w2 = mix_weight_at(level, 2);
        self.osc_mix = [w0, w1, w2];
    }
}

/// Everything a note event leaves untouched.
pub open spec fn unchanged_params(pre: MidiController, post: MidiController) -> bool {
    &&& post.adsr == pre.adsr
    &&& post.osc_mix == pre.osc_mix
    &&& post.cutoff == pre.cutoff
    &&& post.resonance == pre.resonance
    &&& post.chorus_mix == pre.chorus_mix
}

} // verus!
