//! The engine: eight voices, their post-effects, and the per-sample loop.
//!
//! Each sample, the shared parameters are broadcast to every voice, each
//! voice renders one sample (oscillator through filter, scaled by its
//! envelope), the voices are summed, the sum runs through the stereo
//! chorus and one delay per channel, and a fixed headroom gain of one
//! tenth compensates for the eight-voice summation.

use vstd::prelude::*;
use crate::fixed::{FP_ONE, SIG_LIMIT, fp_mul, fp_mul_spec, lemma_gain_fits, lemma_fp_mul_comm};
use crate::envelope::{ADSR, AdsrView, adsr_step_spec, RATE_LIMIT};
use crate::filter::{Filter, FilterView, filter_step_spec};
use crate::osc::{WaveTable, WaveTableView, osc_step_spec};
use crate::chorus::{Chorus, ChorusView, chorus_step_spec, CHORUS_IN_LIMIT};
use crate::delay::{Delay, DelayView, delay_step_spec, ECHO_LIMIT};
use crate::midi::{MidiController, Note};

verus! {

/// The number of polyphony slots.
pub const NUM_VOICES: usize = 8;

/// Q16.16 headroom gain applied to the final mix (one tenth, rounded
/// toward zero).
pub const HEADROOM: i64 = 6553;

/// One polyphony slot: an oscillator, a filter and an envelope.
pub struct Voice {
    /// The wavetable oscillator.
    pub osc: WaveTable,
    /// The low-pass filter.
    pub filter: Filter,
    /// The amplitude envelope.
    pub adsr: ADSR,
}

/// The mathematical state of a voice.
pub ghost struct VoiceView {
    /// Oscillator state.
    pub osc: WaveTableView,
    /// Filter state.
    pub filter: FilterView,
    /// Envelope state.
    pub adsr: AdsrView,
}

impl View for Voice {
    type V = VoiceView;

    closed spec fn view(&self) -> VoiceView {
        VoiceView { osc: self.osc@, filter: self.filter@, adsr: self.adsr@ }
    }
}

/// The shared parameters applied to a voice before it is stepped: the
/// filter takes the cutoff and resonance as they stand, and the envelope
/// durations are converted from Q16.16 seconds to samples at the voice's
/// rate.
pub open spec fn voice_with_params(v: VoiceView, m: MidiController) -> VoiceView {
    VoiceView {
        osc: v.osc,
        filter: FilterView { cutoff: m.cutoff as int, resonance: m.resonance as int, ..v.filter },
        adsr: AdsrView {
            attack: m.adsr.0 * v.adsr.sample_rate / (FP_ONE as int),
            decay: m.adsr.1 * v.adsr.sample_rate / (FP_ONE as int),
            sustain: m.adsr.2 as int,
            release: m.adsr.3 * v.adsr.sample_rate / (FP_ONE as int),
            ..v.adsr
        },
    }
}

/// One voice sample: apply the shared parameters, run the oscillator at
/// the note's frequency, filter it, and scale by the envelope of the
/// note's gate.
pub open spec fn voice_step_spec(v: VoiceView, note: Note, m: MidiController) -> (VoiceView, int) {
    let v1 = voice_with_params(v, m);
    let o = osc_step_spec(v1.osc, note.freq as int, m.osc_mix@);
    let f = filter_step_spec(v1.filter, o.1);
    let a = adsr_step_spec(v1.adsr, note.gate);
    (VoiceView { osc: o.0, filter: f.0, adsr: a.0 }, fp_mul_spec(f.1, a.1))
}

/// The state of a just-built voice: everything silent and released, the
/// nine octave bands in place, and the default filter and envelope
/// settings.
pub open spec fn voice_fresh(v: VoiceView, sample_rate: int) -> bool {
    &&& v.adsr.sample_rate == sample_rate
    &&& v.adsr.level == 0
    &&& !v.adsr.last_gate
    &&& v.adsr.ads_time == 0 && v.adsr.rel_time == 0
    &&& v.adsr.attack_base == 0 && v.adsr.release_level == 0
    &&& v.adsr.attack == 45875 * sample_rate / (FP_ONE as int)
    &&& v.adsr.decay == 32768 * sample_rate / (FP_ONE as int)
    &&& v.adsr.sustain == 32768
    &&& v.adsr.release == sample_rate
    &&& v.osc.sample_rate == sample_rate
    &&& v.osc.phase == 0
    &&& v.osc.sizes.len() == 9
    &&& (forall|j: int|
        0 <= j < 9 ==> #[trigger] v.osc.sizes[j] == 4 * vstd::arithmetic::power2::pow2(j as nat))
    &&& v.filter.cutoff == 6553
    &&& v.filter.resonance == 13107
    &&& v.filter.buf0 == 0 && v.filter.buf1 == 0 && v.filter.buf2 == 0 && v.filter.buf3 == 0
}

impl Voice {
    /// The components are well formed and the oscillator's tables are
    /// sound.
    pub closed spec fn inv(&self) -> bool {
        &&& self.osc.inv()
        &&& self.filter@.wf()
        &&& self.adsr@.wf()
    }

    /// A fresh, silent voice.
    pub fn new(sample_rate: i64) -> (v: Voice)
        requires
            1 <= sample_rate <= RATE_LIMIT,
        ensures
            v.inv(),
            voice_fresh(v@, sample_rate as int),
    {
        Voice {
            osc: WaveTable::new(sample_rate),
            filter: Filter::new(),
            adsr: ADSR::new(sample_rate),
        }
    }

    /// Render one sample of this voice under the shared parameters,
    /// exactly as `voice_step_spec` describes.
    pub fn step(&mut self, note: Note, m: &MidiController) -> (out: i64)
        requires
            old(self).inv(),
            m.wf(),
            note.wf(),
        ensures
            final(self).inv(),
            final(self)@ == voice_step_spec(old(self)@, note, *m).0,
            out as int == voice_step_spec(old(self)@, note, *m).1,
            -SIG_LIMIT <= out <= SIG_LIMIT,
    {
        self.adsr.set_adsr(m.adsr.0, m.adsr.1, m.adsr.2, m.adsr.3);
        self.filter.set_cutoff(m.cutoff);
        self.filter.set_resonance(m.resonance);
        let sig = self.osc.step(note.freq, m.osc_mix);
        let fsig = self.filter.process(sig);
        let att = self.adsr.step(note.gate);
        proof {
            lemma_gain_fits(att as int, fsig as int, SIG_LIMIT as int);
            lemma_fp_mul_comm(fsig as int, att as int);
        }
        fp_mul(fsig, att)
    }
}

/// The mathematical states of a sequence of voices.
pub open spec fn views_of(vs: Seq<Voice>) -> Seq<VoiceView> {
    Seq::new(vs.len(), |i: int| vs[i]@)
}

/// The sum of the first `n` voices' samples.
pub open spec fn mix_sum(vs: Seq<VoiceView>, notes: Seq<Note>, m: MidiController, n: int) -> int
    decreases n,
{
    if n <= 0 {
        0
    } else {
        mix_sum(vs, notes, m, n - 1) + voice_step_spec(vs[n - 1], notes[n - 1], m).1
    }
}

/// The mathematical state of the whole engine.
pub ghost struct EngineView {
    /// The polyphony slots.
    pub voices: Seq<VoiceView>,
    /// The chorus.
    pub chorus: ChorusView,
    /// The left channel's delay.
    pub delay_left: DelayView,
    /// The right channel's delay.
    pub delay_right: DelayView,
}

/// One engine sample: step every voice under the shared parameters, sum
/// them, run the sum through the chorus (at the controller's mix) and each
/// channel through its delay, and scale by the headroom gain.
pub open spec fn engine_step_spec(e: EngineView, m: MidiController) -> (EngineView, int, int) {
    let voices = Seq::new(e.voices.len(), |k: int| voice_step_spec(e.voices[k], m.notes@[k], m).0);
    let mono = mix_sum(e.voices, m.notes@, m, e.voices.len() as int);
    let c = chorus_step_spec(ChorusView { mix: m.chorus_mix as int, ..e.chorus }, mono);
    let dl = delay_step_spec(e.delay_left, c.1);
    let dr = delay_step_spec(e.delay_right, c.2);
    (
        EngineView { voices, chorus: c.0, delay_left: dl.0, delay_right: dr.0 },
        fp_mul_spec(dl.1, HEADROOM as int),
        fp_mul_spec(dr.1, HEADROOM as int),
    )
}

/// A released voice contributes exact silence: with its key up and its
/// envelope resting at zero, the envelope scales whatever the oscillator
/// and filter produce down to nothing.
pub proof fn lemma_voice_silent(v: VoiceView, note: Note, m: MidiController)
    requires
        !note.gate,
        !v.adsr.last_gate,
        v.adsr.release_level == 0,
    ensures
        voice_step_spec(v, note, m).1 == 0,
{
    let v1 = voice_with_params(v, m);
    let a = adsr_step_spec(v1.adsr, false);
    assert(a.1 == 0) by {
        lemma_mul_zero(FP_ONE - v1.adsr.rel_time * FP_ONE / v1.adsr.release);
    }
    let f = filter_step_spec(v1.filter, osc_step_spec(v1.osc, note.freq as int, m.osc_mix@).1);
    lemma_mul_zero(f.1);
    assert(fp_mul_spec(f.1, 0) == 0);
}

/// Scaling anything by a zero factor gives zero in Q16.16.
proof fn lemma_mul_zero(x: int)
    ensures
        fp_mul_spec(x, 0) == 0,
        fp_mul_spec(0, x) == 0,
{
    assert(x * 0 == 0) by (nonlinear_arith);
    assert(0 * x == 0) by (nonlinear_arith);
    assert(crate::fixed::div_fp(0) == 0) by {
        vstd::arithmetic::div_mod::lemma_div_of0(FP_ONE as int);
    }
}

/// The sum over a pool of released, resting voices is zero.
proof fn lemma_silent_mix(vs: Seq<VoiceView>, notes: Seq<Note>, m: MidiController, n: int)
    requires
        n <= vs.len(),
        n <= notes.len(),
        forall|k: int|
            0 <= k < n ==> !(#[trigger] vs[k]).adsr.last_gate && vs[k].adsr.release_level == 0,
        forall|k: int| 0 <= k < n ==> !(#[trigger] notes[k]).gate,
    ensures
        mix_sum(vs, notes, m, n) == 0,
    decreases n,
{
    if n > 0 {
        lemma_silent_mix(vs, notes, m, n - 1);
        lemma_voice_silent(vs[n - 1], notes[n - 1], m);
    }
}

/// A fully released engine renders exact digital silence: no key held,
/// every envelope resting at zero, and only silence in the chorus line and
/// the delay queues give zero on both channels.
pub proof fn lemma_engine_silent(e: EngineView, m: MidiController)
    requires
        e.voices.len() <= m.notes@.len(),
        forall|k: int|
            0 <= k < e.voices.len() ==> !(#[trigger] e.voices[k]).adsr.last_gate && e.voices[
                k
            ].adsr.release_level == 0,
        forall|k: int| 0 <= k < m.notes@.len() ==> !(#[trigger] m.notes@[k]).gate,
        e.chorus.line.len() == crate::chorus::CHORUS_BUFFER,
        0 <= e.chorus.cursor < crate::chorus::CHORUS_BUFFER,
        forall|i: int| 0 <= i < e.chorus.line.len() ==> #[trigger] e.chorus.line[i] == 0,
        forall|i: int| 0 <= i < e.delay_left.queue.len() ==> #[trigger] e.delay_left.queue[i] == 0,
        forall|i: int|
            0 <= i < e.delay_right.queue.len() ==> #[trigger] e.delay_right.queue[i] == 0,
    ensures
        engine_step_spec(e, m).1 == 0,
        engine_step_spec(e, m).2 == 0,
{
    lemma_silent_mix(e.voices, m.notes@, m, e.voices.len() as int);
    let c1 = ChorusView { mix: m.chorus_mix as int, ..e.chorus };
    let line1 = c1.line.update(c1.cursor, 0);
    assert(forall|i: int| 0 <= i < line1.len() ==> #[trigger] line1[i] == 0);
    if !(c1.mix <= crate::chorus::MIX_BYPASS) {
        crate::chorus::lemma_chorus_tap_silent(
            line1,
            c1.cursor,
            crate::osc::lfo_step_spec(c1.lfo0, crate::chorus::CHORUS_RATE as int).1,
        );
        crate::chorus::lemma_chorus_tap_silent(
            line1,
            c1.cursor,
            crate::osc::lfo_step_spec(c1.lfo1, 2 * crate::chorus::CHORUS_RATE as int).1,
        );
        lemma_mul_zero(c1.mix);
    }
    let c = chorus_step_spec(c1, 0);
    assert(c.1 == 0 && c.2 == 0);
    crate::delay::lemma_delay_silent(e.delay_left);
    crate::delay::lemma_delay_silent(e.delay_right);
    lemma_mul_zero(HEADROOM as int);
}

/// The synthesiser: the voice pool and the post-effects.
pub struct Engine {
    /// The polyphony slots.
    pub voices: Vec<Voice>,
    /// The stereo chorus.
    pub chorus: Chorus,
    /// The left channel's delay.
    pub delay_left: Delay,
    /// The right channel's delay.
    pub delay_right: Delay,
}

impl View for Engine {
    type V = EngineView;

    closed spec fn view(&self) -> EngineView {
        EngineView {
            voices: views_of(self.voices@),
            chorus: self.chorus@,
            delay_left: self.delay_left@,
            delay_right: self.delay_right@,
        }
    }
}

impl Engine {
    /// Every component is well formed and the pool is fully populated.
    pub closed spec fn inv(&self) -> bool {
        &&& self.voices@.len() == NUM_VOICES
        &&& forall|i: int| 0 <= i < self.voices@.len() ==> (#[trigger] self.voices@[i]).inv()
        &&& self.chorus@.wf()
        &&& self.delay_left@.wf()
        &&& self.delay_right@.wf()
    }

    /// A fresh engine: eight silent voices at the given sample rate, a
    /// silent chorus with its mix at zero, and one default delay per
    /// channel (20 ms tap, unit gains, empty line).
    pub fn new(sample_rate: i64) -> (e: Engine)
        requires
            1 <= sample_rate <= RATE_LIMIT,
        ensures
            e.inv(),
            e@.voices.len() == NUM_VOICES,
            forall|k: int|
                0 <= k < NUM_VOICES ==> voice_fresh(#[trigger] e@.voices[k], sample_rate as int),
            e@.chorus.mix == 0,
            e@.chorus.cursor == 0,
            e@.chorus.lfo0.phase == 0,
            e@.chorus.lfo1.phase == 0,
            forall|i: int| 0 <= i < e@.chorus.line.len() ==> #[trigger] e@.chorus.line[i] == 0,
            e@.delay_left.queue.len() == 0,
            e@.delay_left.offset == 882,
            e@.delay_left.wet == FP_ONE && e@.delay_left.dry == FP_ONE,
            e@.delay_right.queue.len() == 0,
            e@.delay_right.offset == 882,
            e@.delay_right.wet == FP_ONE && e@.delay_right.dry == FP_ONE,
    {
        let mut voices: Vec<Voice> = Vec::new();
        for i in 0..NUM_VOICES
            invariant
                voices@.len() == i,
                1 <= sample_rate <= RATE_LIMIT,
                forall|k: int| 0 <= k < i ==> (#[trigger] voices@[k]).inv(),
                forall|k: int|
                    0 <= k < i ==> voice_fresh(#[trigger] voices@[k]@, sample_rate as int),
        {
            voices.push(Voice::new(sample_rate));
        }
        Engine {
            voices,
            chorus: Chorus::new(),
            delay_left: Delay::new(),
            delay_right: Delay::new(),
        }
    }

    /// Render one stereo sample, exactly as `engine_step_spec` describes.
    pub fn process_sample(&mut self, midi: &MidiController) -> (out: (i64, i64))
        requires
            old(self).inv(),
            midi.wf(),
        ensures
            final(self).inv(),
            final(self)@ == engine_step_spec(old(self)@, *midi).0,
            out.0 as int == engine_step_spec(old(self)@, *midi).1,
            out.1 as int == engine_step_spec(old(self)@, *midi).2,
            -2 * ECHO_LIMIT <= out.0 <= 2 * ECHO_LIMIT,
            -2 * ECHO_LIMIT <= out.1 <= 2 * ECHO_LIMIT,
    {
        let ghost vs0 = views_of(old(self).voices@);
        let mut mono: i64 = 0;
        let mut i: usize = 0;
        while i < NUM_VOICES
            invariant
                i <= NUM_VOICES,
                midi.wf(),
                self.voices@.len() == NUM_VOICES,
                vs0 == views_of(old(self).voices@),
                vs0.len() == NUM_VOICES,
                forall|k: int| 0 <= k < NUM_VOICES ==> (#[trigger] self.voices@[k]).inv(),
                forall|k: int|
                    0 <= k < i ==> #[trigger] self.voices@[k]@ == voice_step_spec(
                        vs0[k],
                        midi.notes@[k],
                        *midi,
                    ).0,
                forall|k: int| i <= k < NUM_VOICES ==> #[trigger] self.voices@[k]@ == vs0[k],
                mono as int == mix_sum(vs0, midi.notes@, *midi, i as int),
                -(i as int) * SIG_LIMIT <= mono as int <= (i as int) * SIG_LIMIT,
                self.chorus == old(self).chorus,
                self.delay_left == old(self).delay_left,
                self.delay_right == old(self).delay_right,
            decreases NUM_VOICES - i,
        {
            let note = midi.notes[i];
            let v = self.voices[i].step(note, midi);
            mono = mono + v;
            i = i + 1;
        }
        self.chorus.set_mix(midi.chorus_mix);
        let (l, r) = self.chorus.step(mono);
        let dl = self.delay_left.step(l);
        let dr = self.delay_right.step(r);
        proof {
            lemma_gain_fits(HEADROOM as int, dl as int, 2 * ECHO_LIMIT as int);
            lemma_gain_fits(HEADROOM as int, dr as int, 2 * ECHO_LIMIT as int);
            lemma_fp_mul_comm(dl as int, HEADROOM as int);
            lemma_fp_mul_comm(dr as int, HEADROOM as int);
            assert(views_of(self.voices@) =~= engine_step_spec(old(self)@, *midi).0.voices);
        }
        (fp_mul(dl, HEADROOM), fp_mul(dr, HEADROOM))
    }
}

} // verus!
