//! Four-pole state-variable low-pass filter with resonance feedback.
//!
//! Each call feeds the input through four cascaded one-pole integrators; a
//! band-pass tap between the first two stages is fed back, scaled by the
//! resonance, to sharpen the cutoff.  The integrators are clamped to
//! `SIG_LIMIT`: resonance pushed too far makes the loop diverge (a known
//! property of the topology), and the state then rails instead of
//! overflowing.

use vstd::prelude::*;
use vstd::arithmetic::div_mod::{lemma_div_is_ordered, lemma_div_pos_is_pos, lemma_div_of0};
use crate::fixed::{FP_ONE, SIG_LIMIT, fp_mul, fp_mul_spec, clamp, clamp_spec, lemma_fp_mul_abs_bound, lemma_step_toward};

verus! {

/// The mathematical state of a filter.
pub ghost struct FilterView {
    /// Cutoff as a fraction of the sample rate, strictly inside `(0, FP_ONE)`.
    pub cutoff: int,
    /// Resonance in `[0, FP_ONE)`.
    pub resonance: int,
    /// First integrator.
    pub buf0: int,
    /// Second integrator.
    pub buf1: int,
    /// Third integrator.
    pub buf2: int,
    /// Fourth integrator; its value is the output.
    pub buf3: int,
}

impl FilterView {
    /// Range invariants on every field.
    pub open spec fn wf(self) -> bool {
        &&& 0 < self.cutoff < FP_ONE
        &&& 0 <= self.resonance < FP_ONE
        &&& -SIG_LIMIT <= self.buf0 <= SIG_LIMIT
        &&& -SIG_LIMIT <= self.buf1 <= SIG_LIMIT
        &&& -SIG_LIMIT <= self.buf2 <= SIG_LIMIT
        &&& -SIG_LIMIT <= self.buf3 <= SIG_LIMIT
    }
}

/// One filter step: the resonance feedback term is added to the input of the
/// first integrator, then each integrator moves toward its predecessor by
/// the cutoff fraction.  The fourth integrator is the output.
pub open spec fn filter_step_spec(s: FilterView, x: int) -> (FilterView, int) {
    let feedback = s.resonance + s.resonance * FP_ONE / (FP_ONE - s.cutoff);
    let bandpass = s.buf0 - s.buf1;
    let b0 = clamp_spec(
        s.buf0 + fp_mul_spec(s.cutoff, x - s.buf0 + fp_mul_spec(feedback, bandpass)),
        SIG_LIMIT as int,
    );
    let b1 = clamp_spec(s.buf1 + fp_mul_spec(s.cutoff, b0 - s.buf1), SIG_LIMIT as int);
    let b2 = clamp_spec(s.buf2 + fp_mul_spec(s.cutoff, b1 - s.buf2), SIG_LIMIT as int);
    let b3 = clamp_spec(s.buf3 + fp_mul_spec(s.cutoff, b2 - s.buf3), SIG_LIMIT as int);
    (FilterView { buf0: b0, buf1: b1, buf2: b2, buf3: b3, ..s }, b3)
}

pub struct Filter {
    cutoff: i64,
    resonance: i64,
    buf0: i64,
    buf1: i64,
    buf2: i64,
    buf3: i64,
}

impl View for Filter {
    type V = FilterView;

    closed spec fn view(&self) -> FilterView {
        FilterView {
            cutoff: self.cutoff as int,
            resonance: self.resonance as int,
            buf0: self.buf0 as int,
            buf1: self.buf1 as int,
            buf2: self.buf2 as int,
            buf3: self.buf3 as int,
        }
    }
}

impl Filter {
    /// A fresh filter at rest, with a gentle default cutoff (0.1) and
    /// resonance (0.2).
    pub fn new() -> (f: Filter)
        ensures
            f@.wf(),
            f@.cutoff == 6553,
            f@.resonance == 13107,
            f@.buf0 == 0 && f@.buf1 == 0 && f@.buf2 == 0 && f@.buf3 == 0,
    {
        Filter { cutoff: 6553, resonance: 13107, buf0: 0, buf1: 0, buf2: 0, buf3: 0 }
    }

    /// Set the cutoff fraction; it must lie strictly between 0 and 1.
    pub fn set_cutoff(&mut self, cutoff: i64)
        requires
            old(self)@.wf(),
            0 < cutoff < FP_ONE,
        ensures
            final(self)@ == (FilterView { cutoff: cutoff as int, ..old(self)@ }),
            final(self)@.wf(),
    {
        self.cutoff = cutoff;
    }

    /// Set the resonance; it must lie in `[0, 1)`.
    pub fn set_resonance(&mut self, resonance: i64)
        requires
            old(self)@.wf(),
            0 <= resonance < FP_ONE,
        ensures
            final(self)@ == (FilterView { resonance: resonance as int, ..old(self)@ }),
            final(self)@.wf(),
    {
        self.resonance = resonance;
    }

    /// Filter one sample, exactly as `filter_step_spec` describes.
    pub fn process(&mut self, signal: i64) -> (out: i64)
        requires
            old(self)@.wf(),
            -SIG_LIMIT <= signal <= SIG_LIMIT,
        ensures
            final(self)@.wf(),
            final(self)@ == filter_step_spec(old(self)@, signal as int).0,
            out as int == filter_step_spec(old(self)@, signal as int).1,
            -SIG_LIMIT <= out <= SIG_LIMIT,
    {
        let feedback = self.resonance + (self.resonance * FP_ONE) / (FP_ONE - self.cutoff);
        proof {
            lemma_div_is_ordered(
                self@.resonance * FP_ONE,
                FP_ONE * FP_ONE,
                FP_ONE - self@.cutoff,
            );
            lemma_div_is_ordered_by_denominator_local(
                FP_ONE * FP_ONE,
                1,
                FP_ONE - self@.cutoff,
            );
            lemma_div_pos_is_pos(self@.resonance * FP_ONE, FP_ONE - self@.cutoff);
        }
        let bandpass = self.buf0 - self.buf1;
        proof {
            assert(-(0x200000000i64 as int) * 0x2000000 <= (feedback as int) * (bandpass as int)
                <= (0x200000000i64 as int) * 0x2000000) by (nonlinear_arith)
                requires
                    0 <= feedback as int <= 0x200000000i64 as int,
                    -0x2000000 <= bandpass as int <= 0x2000000;
            lemma_fp_mul_abs_bound(feedback as int, bandpass as int, 0x200000000i64 * 0x2000000);
        }
        let fb_term = fp_mul(feedback, bandpass);
        let inner = signal - self.buf0 + fb_term;
        proof {
            assert(-(FP_ONE as int) * 0x80000000000i64 <= (self@.cutoff) * (inner as int)
                <= (FP_ONE as int) * 0x80000000000i64) by (nonlinear_arith)
                requires
                    0 <= self@.cutoff <= FP_ONE as int,
                    -0x80000000000i64 <= inner as int <= 0x80000000000i64;
            lemma_fp_mul_abs_bound(self@.cutoff, inner as int, (FP_ONE as int) * 0x80000000000i64);
        }
        let b0 = clamp(self.buf0 + fp_mul(self.cutoff, inner), SIG_LIMIT);
        let d1 = b0 - self.buf1;
        proof { self.lemma_stage_product(d1 as int); }
        let b1 = clamp(self.buf1 + fp_mul(self.cutoff, d1), SIG_LIMIT);
        let d2 = b1 - self.buf2;
        proof { self.lemma_stage_product(d2 as int); }
        let b2 = clamp(self.buf2 + fp_mul(self.cutoff, d2), SIG_LIMIT);
        let d3 = b2 - self.buf3;
        proof { self.lemma_stage_product(d3 as int); }
        let b3 = clamp(self.buf3 + fp_mul(self.cutoff, d3), SIG_LIMIT);
        self.buf0 = b0;
        self.buf1 = b1;
        self.buf2 = b2;
        self.buf3 = b3;
        b3
    }

    /// The product fed to a later integrator stage stays inside `i64`.
    proof fn lemma_stage_product(&self, d: int)
        requires
            self@.wf(),
            -2 * SIG_LIMIT <= d <= 2 * SIG_LIMIT,
        ensures
            -(FP_ONE as int) * 2 * SIG_LIMIT <= self@.cutoff * d <= (FP_ONE as int) * 2 * SIG_LIMIT,
            -0x7fff_ffff_ffff_ffff <= self@.cutoff * d <= 0x7fff_ffff_ffff_ffff,
            -2 * SIG_LIMIT <= fp_mul_spec(self@.cutoff, d) <= 2 * SIG_LIMIT,
    {
        assert(-(FP_ONE as int) * 2 * SIG_LIMIT <= self@.cutoff * d <= (FP_ONE as int) * 2
            * SIG_LIMIT) by (nonlinear_arith)
            requires
                0 <= self@.cutoff <= FP_ONE as int,
                -2 * SIG_LIMIT <= d <= 2 * SIG_LIMIT;
        crate::fixed::lemma_fp_mul_toward_zero(self@.cutoff, d);
    }
}

/// Dividing a nonnegative number by a larger denominator gives at most the
/// quotient by the smaller one.
proof fn lemma_div_is_ordered_by_denominator_local(x: int, d1: int, d2: int)
    requires
        0 <= x,
        1 <= d1 <= d2,
    ensures
        x / d2 <= x / d1,
{
    vstd::arithmetic::div_mod::lemma_div_is_ordered_by_denominator(x, d1, d2);
}

/// With zero resonance the filter is passive: any bound (up to `SIG_LIMIT`)
/// that holds of the input and of every integrator still holds of every
/// integrator and of the output after a step, so a bounded input stream can
/// never make the output grow.
pub proof fn lemma_filter_passive(s: FilterView, x: int, bound: int)
    requires
        s.wf(),
        s.resonance == 0,
        0 <= bound <= SIG_LIMIT,
        -bound <= x <= bound,
        -bound <= s.buf0 <= bound,
        -bound <= s.buf1 <= bound,
        -bound <= s.buf2 <= bound,
        -bound <= s.buf3 <= bound,
    ensures
        ({
            let (s2, out) = filter_step_spec(s, x);
            &&& -bound <= s2.buf0 <= bound
            &&& -bound <= s2.buf1 <= bound
            &&& -bound <= s2.buf2 <= bound
            &&& -bound <= s2.buf3 <= bound
            &&& -bound <= out <= bound
        }),
{
    let feedback = s.resonance + s.resonance * FP_ONE / (FP_ONE - s.cutoff);
    lemma_div_of0(FP_ONE - s.cutoff);
    assert(feedback == 0);
    let bandpass = s.buf0 - s.buf1;
    assert(fp_mul_spec(0, bandpass) == 0) by {
        assert(0 * bandpass == 0) by (nonlinear_arith);
    }
    lemma_step_toward(s.buf0, x, s.cutoff);
    let b0 = clamp_spec(s.buf0 + fp_mul_spec(s.cutoff, x - s.buf0), SIG_LIMIT as int);
    assert(b0 == s.buf0 + fp_mul_spec(s.cutoff, x - s.buf0));
    lemma_step_toward(s.buf1, b0, s.cutoff);
    let b1 = clamp_spec(s.buf1 + fp_mul_spec(s.cutoff, b0 - s.buf1), SIG_LIMIT as int);
    lemma_step_toward(s.buf2, b1, s.cutoff);
    let b2 = clamp_spec(s.buf2 + fp_mul_spec(s.cutoff, b1 - s.buf2), SIG_LIMIT as int);
    lemma_step_toward(s.buf3, b2, s.cutoff);
}

} // verus!
