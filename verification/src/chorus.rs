//! Chorus: a short modulated delay line mixed back into the dry signal.
//!
//! Every call writes the dry sample into a circular buffer.  Two voices
//! each read the buffer about a thousand samples back, with the exact
//! fractional position swept by a slow sine LFO (the second voice runs its
//! LFO twice as fast so the voices never move in lock-step), and the
//! interpolated taps are mixed onto the dry signal, one voice to the left
//! channel and one to the right.  The mixing law is `dry + wet * mix`: the
//! dry signal always passes at unit gain.  A mix at or below one percent
//! bypasses the effect entirely and leaves the LFOs and the cursor
//! untouched.

use vstd::prelude::*;
use crate::fixed::{FP_ONE, fp_mul, fp_mul_spec, lerp, lerp_spec, lemma_gain_fits};
use crate::osc::{SinLFO, LfoView, lfo_step_spec, FREQ_LIMIT};
use vstd::arithmetic::div_mod::{
    lemma_div_is_ordered, lemma_div_multiples_vanish, lemma_div_pos_is_pos,
    lemma_mod_division_less_than_divisor,
};

verus! {

/// Length of the circular buffer in samples.
pub const CHORUS_BUFFER: usize = 1200;

/// Base read offset behind the write cursor, in samples.
pub const CHORUS_BASE_OFFSET: i64 = 1000;

/// Peak sweep of a tap around the base offset, in samples.
pub const CHORUS_DEPTH: i64 = 100;

/// Q16.16 frequency of the first voice's LFO (a quarter hertz).
pub const CHORUS_RATE: i64 = 16384;

/// Largest mix that still bypasses the effect (one percent, rounded down).
pub const MIX_BYPASS: i64 = 655;

/// Largest input magnitude the chorus accepts (an eight-voice sum of
/// filter outputs).
pub const CHORUS_IN_LIMIT: i64 = 0x8000000;

/// The mathematical state of a chorus.
pub ghost struct ChorusView {
    /// The first voice's LFO.
    pub lfo0: LfoView,
    /// The second voice's LFO.
    pub lfo1: LfoView,
    /// Wet mix in `[0, FP_ONE]`.
    pub mix: int,
    /// The circular buffer of recent dry samples.
    pub line: Seq<int>,
    /// The write cursor.
    pub cursor: int,
}

impl ChorusView {
    /// Range invariants.
    pub open spec fn wf(self) -> bool {
        &&& self.lfo0.wf()
        &&& self.lfo1.wf()
        &&& 0 <= self.mix <= FP_ONE
        &&& self.line.len() == CHORUS_BUFFER
        &&& 0 <= self.cursor < CHORUS_BUFFER
        &&& forall|i: int|
            0 <= i < self.line.len() ==> -CHORUS_IN_LIMIT <= #[trigger] self.line[i]
                <= CHORUS_IN_LIMIT
    }
}

/// One voice's interpolated read: the LFO value sweeps the fractional
/// offset around the base, and the two straddling buffer entries (indices
/// wrapped behind the cursor) are blended by the fractional part.
pub open spec fn chorus_tap(line: Seq<int>, cursor: int, lfo_val: int) -> int {
    let raw = CHORUS_BASE_OFFSET * FP_ONE + lfo_val * CHORUS_DEPTH;
    let off0 = raw / (FP_ONE as int);
    let frac = raw % (FP_ONE as int);
    let i0 = (cursor + CHORUS_BUFFER - off0) % (CHORUS_BUFFER as int);
    let i1 = (cursor + CHORUS_BUFFER - (off0 + 1)) % (CHORUS_BUFFER as int);
    lerp_spec(line[i0], line[i1], frac)
}

/// One chorus step: write the dry sample at the cursor; below the bypass
/// threshold return it unchanged, otherwise advance both LFOs, read one
/// tap per voice, advance the cursor, and mix each tap onto the dry signal
/// (left gets the first voice, right the second).
pub open spec fn chorus_step_spec(s: ChorusView, x: int) -> (ChorusView, int, int) {
    let line1 = s.line.update(s.cursor, x);
    if s.mix <= MIX_BYPASS {
        (ChorusView { line: line1, ..s }, x, x)
    } else {
        let l0 = lfo_step_spec(s.lfo0, CHORUS_RATE as int);
        let l1 = lfo_step_spec(s.lfo1, 2 * CHORUS_RATE as int);
        let e0 = chorus_tap(line1, s.cursor, l0.1);
        let e1 = chorus_tap(line1, s.cursor, l1.1);
        let cur = (s.cursor + 1) % (CHORUS_BUFFER as int);
        (
            ChorusView { lfo0: l0.0, lfo1: l1.0, line: line1, cursor: cur, ..s },
            x + fp_mul_spec(e0, s.mix),
            x + fp_mul_spec(e1, s.mix),
        )
    }
}

/// With the mix at or below the bypass threshold, the chorus returns its
/// input exactly, whatever the buffer holds.
pub proof fn lemma_chorus_bypass(s: ChorusView, x: int)
    requires
        s.mix <= MIX_BYPASS,
    ensures
        chorus_step_spec(s, x).1 == x,
        chorus_step_spec(s, x).2 == x,
{
}

/// A tap over a silent buffer reads silence.
pub proof fn lemma_chorus_tap_silent(line: Seq<int>, cursor: int, lfo_val: int)
    requires
        line.len() == CHORUS_BUFFER,
        forall|i: int| 0 <= i < line.len() ==> #[trigger] line[i] == 0,
    ensures
        chorus_tap(line, cursor, lfo_val) == 0,
{
    let raw = CHORUS_BASE_OFFSET * FP_ONE + lfo_val * CHORUS_DEPTH;
    let off0 = raw / (FP_ONE as int);
    let frac = raw % (FP_ONE as int);
    lemma_mod_division_less_than_divisor(cursor + CHORUS_BUFFER - off0, CHORUS_BUFFER as int);
    lemma_mod_division_less_than_divisor(cursor + CHORUS_BUFFER - (off0 + 1), CHORUS_BUFFER as int);
    assert(frac * 0 == 0) by (nonlinear_arith);
    assert(crate::fixed::div_fp(0) == 0) by {
        vstd::arithmetic::div_mod::lemma_div_of0(FP_ONE as int);
    }
}

/// The sequence of buffer entries as mathematical integers.
pub open spec fn line_view(v: Seq<i64>) -> Seq<int> {
    Seq::new(v.len(), |i: int| v[i] as int)
}

/// The chorus effect.
pub struct Chorus {
    lfo0: SinLFO,
    lfo1: SinLFO,
    mix: i64,
    delay_line: Vec<i64>,
    last_step: usize,
}

impl View for Chorus {
    type V = ChorusView;

    closed spec fn view(&self) -> ChorusView {
        ChorusView {
            lfo0: self.lfo0@,
            lfo1: self.lfo1@,
            mix: self.mix as int,
            line: line_view(self.delay_line@),
            cursor: self.last_step as int,
        }
    }
}

impl Chorus {
    /// A fresh chorus: silent buffer, mix zero, both LFOs at phase zero
    /// (clocked at the 44.1 kHz reference rate).
    pub fn new() -> (c: Chorus)
        ensures
            c@.wf(),
            c@.mix == 0,
            c@.cursor == 0,
            c@.lfo0.phase == 0,
            c@.lfo1.phase == 0,
            c@.lfo0.sample_rate == 44100,
            c@.lfo1.sample_rate == 44100,
            forall|i: int| 0 <= i < CHORUS_BUFFER ==> #[trigger] c@.line[i] == 0,
    {
        let mut line: Vec<i64> = Vec::new();
        for i in 0..CHORUS_BUFFER
            invariant
                line@.len() == i,
                forall|k: int| 0 <= k < i ==> #[trigger] line@[k] == 0,
        {
            line.push(0);
        }
        Chorus {
            lfo0: SinLFO::new(44100),
            lfo1: SinLFO::new(44100),
            mix: 0,
            delay_line: line,
            last_step: 0,
        }
    }

    /// Set the wet mix in `[0, FP_ONE]`.
    pub fn set_mix(&mut self, mix: i64)
        requires
            old(self)@.wf(),
            0 <= mix <= FP_ONE,
        ensures
            final(self)@ == (ChorusView { mix: mix as int, ..old(self)@ }),
            final(self)@.wf(),
    {
        self.mix = mix;
    }

    /// One voice's interpolated tap.
    fn tap(line: &Vec<i64>, cursor: usize, lfo_val: i64) -> (r: i64)
        requires
            line@.len() == CHORUS_BUFFER,
            cursor < CHORUS_BUFFER,
            -FP_ONE <= lfo_val <= FP_ONE,
            forall|i: int|
                0 <= i < line@.len() ==> -CHORUS_IN_LIMIT <= #[trigger] line@[i] <= CHORUS_IN_LIMIT,
        ensures
            r as int == chorus_tap(line_view(line@), cursor as int, lfo_val as int),
            -CHORUS_IN_LIMIT <= r <= CHORUS_IN_LIMIT,
    {
        let raw = CHORUS_BASE_OFFSET * FP_ONE + lfo_val * CHORUS_DEPTH;
        proof {
            lemma_div_pos_is_pos(raw as int, FP_ONE as int);
            lemma_div_is_ordered(raw as int, 1100 * FP_ONE, FP_ONE as int);
            lemma_div_multiples_vanish(1100, FP_ONE as int);
            lemma_mod_division_less_than_divisor(raw as int, FP_ONE as int);
        }
        let off0 = raw / FP_ONE;
        let frac = raw % FP_ONE;
        let i0 = (cursor + CHORUS_BUFFER - (off0 as usize)) % CHORUS_BUFFER;
        let i1 = (cursor + CHORUS_BUFFER - (off0 as usize + 1)) % CHORUS_BUFFER;
        proof {
            lemma_mod_division_less_than_divisor(
                cursor as int + CHORUS_BUFFER - off0 as int,
                CHORUS_BUFFER as int,
            );
            lemma_mod_division_less_than_divisor(
                cursor as int + CHORUS_BUFFER - (off0 as int + 1),
                CHORUS_BUFFER as int,
            );
        }
        lerp(line[i0], line[i1], frac)
    }

    /// One chorus sample pair `(left, right)`, exactly as
    /// `chorus_step_spec` describes.
    pub fn step(&mut self, signal: i64) -> (out: (i64, i64))
        requires
            old(self)@.wf(),
            -CHORUS_IN_LIMIT <= signal <= CHORUS_IN_LIMIT,
        ensures
            final(self)@.wf(),
            final(self)@ == chorus_step_spec(old(self)@, signal as int).0,
            out.0 as int == chorus_step_spec(old(self)@, signal as int).1,
            out.1 as int == chorus_step_spec(old(self)@, signal as int).2,
            -2 * CHORUS_IN_LIMIT <= out.0 <= 2 * CHORUS_IN_LIMIT,
            -2 * CHORUS_IN_LIMIT <= out.1 <= 2 * CHORUS_IN_LIMIT,
    {
        self.delay_line[self.last_step] = signal;
        proof {
            assert(line_view(self.delay_line@) =~= old(self)@.line.update(
                old(self)@.cursor,
                signal as int,
            ));
        }
        if self.mix <= MIX_BYPASS {
            return (signal, signal);
        }
        let v0 = self.lfo0.step(CHORUS_RATE);
        let v1 = self.lfo1.step(2 * CHORUS_RATE);
        proof {
            assert forall|i: int|
                0 <= i < self.delay_line@.len() implies -CHORUS_IN_LIMIT
                <= #[trigger] self.delay_line@[i] <= CHORUS_IN_LIMIT by {
                assert(self@.line[i] == old(self)@.line.update(
                    old(self)@.cursor,
                    signal as int,
                )[i]);
                assert(self@.line[i] == self.delay_line@[i] as int);
            }
        }
        let e0 = Self::tap(&self.delay_line, self.last_step, v0);
        let e1 = Self::tap(&self.delay_line, self.last_step, v1);
        self.last_step = (self.last_step + 1) % CHORUS_BUFFER;
        proof {
            lemma_gain_fits(self@.mix, e0 as int, CHORUS_IN_LIMIT as int);
            lemma_gain_fits(self@.mix, e1 as int, CHORUS_IN_LIMIT as int);
        }
        (signal + fp_mul(e0, self.mix), signal + fp_mul(e1, self.mix))
    }
}

} // verus!
