//! Wavetable oscillator and low-frequency oscillator.
//!
//! The oscillator keeps a Q16.16 phase over one waveform period and
//! advances it by `frequency / sample_rate` of the period each sample,
//! wrapping when a period completes; nothing else ever moves it.  The
//! output is read by linear interpolation between adjacent table entries.
//! Tables come in octave bands (sizes 4 to 1024): high frequencies read a
//! short table so that one period never spans less than a few entries,
//! bounding aliasing.  Band selection is re-evaluated every call from the
//! frequency alone and only rescales where the same phase lands in the
//! chosen table, so a change of band keeps the waveform position.  Each
//! band holds a sine, a saw and a square wave; the three reads are blended
//! by a weight vector.
//!
//! The sine entries use a classical rational approximation of the half
//! period, `16 j (h - j) / (5 h^2 - 4 j (h - j))`, which is exact at the
//! zero crossings and at the peaks and stays within `[0, 1]` throughout.

use vstd::prelude::*;
use vstd::arithmetic::div_mod::{
    lemma_div_is_ordered, lemma_div_multiples_vanish, lemma_div_pos_is_pos,
    lemma_add_mod_noop_right, lemma_small_mod, lemma_mod_division_less_than_divisor,
};
use crate::fixed::{FP_ONE, fp_mul, fp_mul_spec, lerp, lerp_spec, lemma_fp_mul_toward_zero};
use crate::envelope::RATE_LIMIT;

verus! {

/// Largest Q16.16 frequency the oscillators accept (16384 Hz).
pub const FREQ_LIMIT: i64 = 0x40000000;

/// Length of the longest octave band's tables.
pub const TOP_SIZE: i64 = 1024;

/// The Q16.16 span of one full waveform period, measured against the
/// longest table.  The phase accumulator lives in `[0, PHASE_SPAN)`
/// whatever band is read, so a change of band never moves it.
pub const PHASE_SPAN: i64 = 1024 * FP_ONE;

/// Period, in table entries, of the low-frequency oscillator's sine.
pub const LFO_SIZE: i64 = 44100;

/// The three stored waveforms, in the order of the blend weights.
#[derive(Clone, Copy)]
pub enum Waveform {
    Sine,
    Saw,
    Square,
}

/// Half-period sine approximation at entry `j` of `h`, in Q16.16.
pub open spec fn sine_half(j: int, h: int) -> int {
    16 * j * (h - j) * FP_ONE / (5 * h * h - 4 * j * (h - j))
}

/// Full-period sine at entry `i` of `n` (the second half mirrors the first).
pub open spec fn wave_sine(i: int, n: int) -> int {
    let h = n / 2;
    if i < h {
        sine_half(i, h)
    } else {
        -sine_half(i - h, h)
    }
}

/// Rising saw from `-FP_ONE` toward `FP_ONE` over `n` entries.
pub open spec fn wave_saw(i: int, n: int) -> int {
    2 * i * FP_ONE / n - FP_ONE
}

/// Square wave: high for the first half period, low for the second.
pub open spec fn wave_square(i: int, n: int) -> int {
    if 2 * i < n {
        FP_ONE as int
    } else {
        -FP_ONE as int
    }
}

/// Entry `i` of the `n`-entry table for waveform `w`.
pub open spec fn wave_sample(w: Waveform, i: int, n: int) -> int {
    match w {
        Waveform::Sine => wave_sine(i, n),
        Waveform::Saw => wave_saw(i, n),
        Waveform::Square => wave_square(i, n),
    }
}

/// The half-period sine approximation stays within `[0, FP_ONE]`.
pub proof fn lemma_sine_half_bounds(j: int, h: int)
    requires
        0 <= j <= h,
        1 <= h,
    ensures
        0 <= sine_half(j, h) <= FP_ONE,
{
    let p = j * (h - j);
    let den = 5 * h * h - 4 * p;
    assert(0 <= j * (h - j) && 4 * (j * (h - j)) <= h * h && 1 <= h * h && 5 * h * h == 5 * (h * h)
        && 4 * j * (h - j) == 4 * (j * (h - j))
        && 16 * j * (h - j) * FP_ONE == 16 * (j * (h - j)) * FP_ONE) by (nonlinear_arith)
        requires
            0 <= j <= h,
            1 <= h;
    assert(den >= 4 * (h * h));
    assert(16 * p <= den);
    lemma_div_pos_is_pos(16 * p * FP_ONE, den);
    lemma_div_is_ordered(16 * p * FP_ONE, den * FP_ONE, den);
    lemma_div_multiples_vanish(FP_ONE as int, den);
}

/// Every table entry lies within `[-FP_ONE, FP_ONE]`.
pub proof fn lemma_wave_sample_bounds(w: Waveform, i: int, n: int)
    requires
        0 <= i < n,
        2 <= n,
        n % 2 == 0,
    ensures
        -FP_ONE <= wave_sample(w, i, n) <= FP_ONE,
{
    let h = n / 2;
    match w {
        Waveform::Sine => {
            if i < h {
                lemma_sine_half_bounds(i, h);
            } else {
                lemma_sine_half_bounds(i - h, h);
            }
        }
        Waveform::Saw => {
            assert(0 <= 2 * i * FP_ONE <= 2 * FP_ONE * n) by (nonlinear_arith)
                requires 0 <= i < n;
            lemma_div_pos_is_pos(2 * i * FP_ONE, n);
            lemma_div_is_ordered(2 * i * FP_ONE, 2 * FP_ONE * n, n);
            lemma_div_multiples_vanish(2 * FP_ONE as int, n);
        }
        Waveform::Square => {}
    }
}

/// Compute entry `i` of the `n`-entry table for waveform `w`.
fn wave_sample_at(w: Waveform, i: i64, n: i64) -> (r: i64)
    requires
        0 <= i < n,
        2 <= n <= 0x100000,
        n % 2 == 0,
    ensures
        r as int == wave_sample(w, i as int, n as int),
        -FP_ONE <= r <= FP_ONE,
{
    proof {
        lemma_wave_sample_bounds(w, i as int, n as int);
    }
    match w {
        Waveform::Sine => {
            let h = n / 2;
            let j = if i < h {
                i
            } else {
                i - h
            };
            proof {
                let ji = j as int;
                let hi = h as int;
                assert(0 <= ji * (hi - ji) && 4 * (ji * (hi - ji)) <= hi * hi && 1 <= hi * hi
                    && hi * hi <= 0x4000000000i64 && 5 * hi * hi == 5 * (hi * hi) && 4 * ji * (hi
                    - ji) == 4 * (ji * (hi - ji)) && 16 * (ji * (hi - ji)) * FP_ONE == 16 * ji * (
                hi - ji) * FP_ONE) by (nonlinear_arith)
                    requires
                        0 <= ji <= hi,
                        1 <= hi <= 0x80000;
            }
            let p = j * (h - j);
            let den = 5 * h * h - 4 * p;
            let v = (16 * p * FP_ONE) / den;
            proof {
                lemma_sine_half_bounds(j as int, h as int);
            }
            if i < h {
                v
            } else {
                -v
            }
        }
        Waveform::Saw => {
            proof {
                assert(0 <= 2 * (i as int) * FP_ONE <= 2 * FP_ONE * (n as int)) by (nonlinear_arith)
                    requires 0 <= (i as int) && (i as int) < (n as int);
                lemma_div_pos_is_pos(2 * (i as int) * FP_ONE, n as int);
                lemma_div_is_ordered(2 * (i as int) * FP_ONE, 2 * FP_ONE * (n as int), n as int);
                lemma_div_multiples_vanish(2 * FP_ONE as int, n as int);
            }
            (2 * i * FP_ONE) / n - FP_ONE
        }
        Waveform::Square => {
            if 2 * i < n {
                FP_ONE
            } else {
                -FP_ONE
            }
        }
    }
}

/// A phase advanced by `step` wraps modulo the table span `m`.
pub open spec fn advance_phase(p: int, step: int, m: int) -> int {
    (p + step) % m
}

/// Advancing twice is advancing once by the summed step, and a phase
/// advanced by a whole number of table spans comes back to where it
/// started: the oscillator is periodic in accumulated phase.
pub proof fn lemma_phase_periodic(p: int, s1: int, s2: int, m: int)
    requires
        0 < m,
        0 <= p < m,
        0 <= s1,
        0 <= s2,
    ensures
        advance_phase(advance_phase(p, s1, m), s2, m) == advance_phase(p, s1 + s2, m),
        (s1 + s2) % m == 0 ==> advance_phase(advance_phase(p, s1, m), s2, m) == p,
{
    lemma_add_mod_noop_right(s2, p + s1, m);
    assert(advance_phase(advance_phase(p, s1, m), s2, m) == (p + s1 + s2) % m) by {
        assert(((p + s1) % m + s2) % m == (s2 + (p + s1) % m) % m);
        assert((s2 + (p + s1)) % m == (p + s1 + s2) % m);
    }
    if (s1 + s2) % m == 0 {
        lemma_add_mod_noop_right(p, s1 + s2, m);
        lemma_small_mod(p as nat, m as nat);
    }
}

/// The Q16.16 share of the waveform period the phase advances by in one
/// sample: `freq / sample_rate` of the full span, which in phase units is
/// `TOP_SIZE * freq / sample_rate` (the frequency already carries the
/// Q16.16 scaling the phase units use).
pub open spec fn osc_step_size(sr: int, freq: int) -> int {
    TOP_SIZE * freq / sr
}

/// The oscillator state after a run of steps at the given frequencies.
pub open spec fn osc_run(s: WaveTableView, freqs: Seq<int>, mix: Seq<i64>) -> WaveTableView
    decreases freqs.len(),
{
    if freqs.len() == 0 {
        s
    } else {
        osc_run(osc_step_spec(s, freqs[0], mix).0, freqs.drop_first(), mix)
    }
}

/// The total Q16.16 phase a run of steps accumulates.
pub open spec fn accumulated_phase(sr: int, freqs: Seq<int>) -> int
    decreases freqs.len(),
{
    if freqs.len() == 0 {
        0
    } else {
        osc_step_size(sr, freqs[0]) + accumulated_phase(sr, freqs.drop_first())
    }
}

/// Every per-step advance is nonnegative, so accumulation never shrinks.
proof fn lemma_accumulated_phase_nonneg(sr: int, freqs: Seq<int>)
    requires
        1 <= sr,
        forall|i: int| 0 <= i < freqs.len() ==> 0 <= #[trigger] freqs[i],
    ensures
        accumulated_phase(sr, freqs) >= 0,
    decreases freqs.len(),
{
    if freqs.len() > 0 {
        lemma_div_pos_is_pos(TOP_SIZE * freqs[0], sr);
        assert(forall|i: int|
            0 <= i < freqs.drop_first().len() ==> 0 <= #[trigger] freqs.drop_first()[i]);
        lemma_accumulated_phase_nonneg(sr, freqs.drop_first());
    }
}

/// Over any run of steps, at steady or changing frequencies, the final
/// phase is the starting phase advanced by everything the run accumulated;
/// accumulating a whole number of waveform periods returns the phase to
/// exactly its starting value.
pub proof fn lemma_osc_run_periodic(s: WaveTableView, freqs: Seq<int>, mix: Seq<i64>)
    requires
        s.wf(),
        forall|i: int| 0 <= i < freqs.len() ==> 0 <= #[trigger] freqs[i],
    ensures
        osc_run(s, freqs, mix).wf(),
        osc_run(s, freqs, mix).sample_rate == s.sample_rate,
        osc_run(s, freqs, mix).sizes == s.sizes,
        osc_run(s, freqs, mix).phase == advance_phase(
            s.phase,
            accumulated_phase(s.sample_rate, freqs),
            PHASE_SPAN as int,
        ),
        accumulated_phase(s.sample_rate, freqs) % (PHASE_SPAN as int) == 0 ==> osc_run(
            s,
            freqs,
            mix,
        ).phase == s.phase,
    decreases freqs.len(),
{
    if freqs.len() == 0 {
        lemma_small_mod(s.phase as nat, PHASE_SPAN as nat);
    } else {
        let step0 = osc_step_size(s.sample_rate, freqs[0]);
        let rest = freqs.drop_first();
        let s1 = osc_step_spec(s, freqs[0], mix).0;
        lemma_div_pos_is_pos(TOP_SIZE * freqs[0], s.sample_rate);
        lemma_advance_phase_in_range(s.phase, step0, PHASE_SPAN as int);
        assert(forall|i: int| 0 <= i < rest.len() ==> 0 <= #[trigger] rest[i]);
        lemma_osc_run_periodic(s1, rest, mix);
        lemma_accumulated_phase_nonneg(s.sample_rate, rest);
        lemma_phase_periodic(s.phase, step0, accumulated_phase(s.sample_rate, rest),
            PHASE_SPAN as int);
    }
}

/// The wrapped phase always lands inside `[0, m)`.
pub proof fn lemma_advance_phase_in_range(p: int, step: int, m: int)
    requires
        0 < m,
        0 <= p,
        0 <= step,
    ensures
        0 <= advance_phase(p, step, m) < m,
{
    lemma_mod_division_less_than_divisor(p + step, m);
}

/// One octave band: three tables of the same power-of-two length.
struct Band {
    sine: Vec<i64>,
    saw: Vec<i64>,
    square: Vec<i64>,
}

/// The tables of a band hold exactly the pure waveform samples for its size.
spec fn band_ok(b: Band) -> bool {
    let n = b.sine@.len() as int;
    &&& 2 <= n <= 1024
    &&& n % 2 == 0
    &&& b.saw@.len() == n
    &&& b.square@.len() == n
    &&& forall|i: int| 0 <= i < n ==> b.sine@[i] as int == wave_sine(i, n)
    &&& forall|i: int| 0 <= i < n ==> b.saw@[i] as int == wave_saw(i, n)
    &&& forall|i: int| 0 <= i < n ==> b.square@[i] as int == wave_square(i, n)
    &&& forall|i: int| 0 <= i < n ==> -FP_ONE <= #[trigger] b.sine@[i] <= FP_ONE
    &&& forall|i: int| 0 <= i < n ==> -FP_ONE <= #[trigger] b.saw@[i] <= FP_ONE
    &&& forall|i: int| 0 <= i < n ==> -FP_ONE <= #[trigger] b.square@[i] <= FP_ONE
}

/// Fill the `n`-entry table for waveform `w`.
fn build_table(w: Waveform, n: usize) -> (t: Vec<i64>)
    requires
        2 <= n <= 1024,
        n % 2 == 0,
    ensures
        t@.len() == n,
        forall|i: int| 0 <= i < n ==> #[trigger] t@[i] as int == wave_sample(w, i, n as int),
        forall|i: int| 0 <= i < n ==> -FP_ONE <= #[trigger] t@[i] <= FP_ONE,
{
    let mut t: Vec<i64> = Vec::new();
    for i in 0..n
        invariant
            t@.len() == i,
            2 <= n <= 1024,
            n % 2 == 0,
            forall|k: int| 0 <= k < i ==> #[trigger] t@[k] as int == wave_sample(w, k, n as int),
            forall|k: int| 0 <= k < i ==> -FP_ONE <= #[trigger] t@[k] <= FP_ONE,
    {
        t.push(wave_sample_at(w, i as i64, n as i64));
    }
    t
}

/// Build one octave band of the given size.
fn build_band(n: usize) -> (b: Band)
    requires
        2 <= n <= 1024,
        n % 2 == 0,
    ensures
        band_ok(b),
        b.sine@.len() == n,
{
    Band {
        sine: build_table(Waveform::Sine, n),
        saw: build_table(Waveform::Saw, n),
        square: build_table(Waveform::Square, n),
    }
}

/// The table sizes of a sequence of bands.
spec fn sizes_of(bands: Seq<Band>) -> Seq<int> {
    Seq::new(bands.len(), |j: int| bands[j].sine@.len() as int)
}

/// The Q16.16 cutoff frequency above which a table of size `n` is used: the
/// frequency whose period is `n` samples.
pub open spec fn band_cutoff(sr: int, n: int) -> int {
    sr * FP_ONE / n
}

/// The band chosen for a frequency: the first whose cutoff the frequency
/// exceeds, or the last band (the longest table) for low frequencies.
pub open spec fn band_select(sizes: Seq<int>, sr: int, freq: int) -> int
    decreases sizes.len(),
{
    if sizes.len() <= 1 {
        0
    } else if freq > band_cutoff(sr, sizes[0]) {
        0
    } else {
        1 + band_select(sizes.drop_first(), sr, freq)
    }
}

/// The chosen band index is always valid.
pub proof fn lemma_band_select_range(sizes: Seq<int>, sr: int, freq: int)
    requires
        sizes.len() >= 1,
    ensures
        0 <= band_select(sizes, sr, freq) < sizes.len(),
    decreases sizes.len(),
{
    if sizes.len() > 1 && !(freq > band_cutoff(sr, sizes[0])) {
        lemma_band_select_range(sizes.drop_first(), sr, freq);
    }
}

/// The mathematical state of a wavetable oscillator.  The tables themselves
/// are pure functions of the band sizes, so the sizes describe them fully.
pub ghost struct WaveTableView {
    /// Samples per second.
    pub sample_rate: int,
    /// Position in the waveform period, in `[0, PHASE_SPAN)`.  It is held
    /// against the longest table; shorter bands read it rescaled, so the
    /// same phase always lands on the equivalent waveform position and a
    /// change of band (or of frequency) never moves it.
    pub phase: int,
    /// Table length of each octave band, shortest first.
    pub sizes: Seq<int>,
}

impl WaveTableView {
    /// Range invariants.
    pub open spec fn wf(self) -> bool {
        &&& 1 <= self.sample_rate <= RATE_LIMIT
        &&& self.sizes.len() >= 1
        &&& (forall|j: int|
            0 <= j < self.sizes.len() ==> 2 <= #[trigger] self.sizes[j] <= 1024 && self.sizes[j] % 2
                == 0)
        &&& 0 <= self.phase < PHASE_SPAN
    }
}

/// One oscillator step: pick the band for the frequency, advance the phase
/// by `freq / sample_rate` of a period (`size * freq / sample_rate` table
/// entries), rescale the phase to the band's table, and blend the
/// interpolated reads of the three waveforms by the given weights.
pub open spec fn osc_step_spec(s: WaveTableView, freq: int, mix: Seq<i64>) -> (WaveTableView, int) {
    let b = band_select(s.sizes, s.sample_rate, freq);
    let n = s.sizes[b];
    let p = advance_phase(s.phase, osc_step_size(s.sample_rate, freq), PHASE_SPAN as int);
    let ip = p * n / (TOP_SIZE as int);
    let idx = ip / (FP_ONE as int);
    let idx2 = (idx + 1) % n;
    let frac = ip % (FP_ONE as int);
    let v_sine = lerp_spec(wave_sine(idx, n), wave_sine(idx2, n), frac);
    let v_saw = lerp_spec(wave_saw(idx, n), wave_saw(idx2, n), frac);
    let v_square = lerp_spec(wave_square(idx, n), wave_square(idx2, n), frac);
    let out = fp_mul_spec(mix[0] as int, v_sine) + fp_mul_spec(mix[1] as int, v_saw) + fp_mul_spec(
        mix[2] as int,
        v_square,
    );
    (WaveTableView { phase: p, ..s }, out)
}

/// A phase-accumulating reader over octave-banded waveform tables.
pub struct WaveTable {
    sample_rate: i64,
    phase: i64,
    bands: Vec<Band>,
}

impl View for WaveTable {
    type V = WaveTableView;

    closed spec fn view(&self) -> WaveTableView {
        WaveTableView {
            sample_rate: self.sample_rate as int,
            phase: self.phase as int,
            sizes: sizes_of(self.bands@),
        }
    }
}

impl WaveTable {
    /// The view is well formed and the stored tables hold exactly the pure
    /// waveform samples for their band sizes.
    pub closed spec fn inv(&self) -> bool {
        &&& self@.wf()
        &&& forall|j: int| 0 <= j < self.bands@.len() ==> band_ok(#[trigger] self.bands@[j])
    }

    /// A fresh oscillator at phase zero with nine octave bands, table sizes
    /// 4 through 1024.
    pub fn new(sample_rate: i64) -> (w: WaveTable)
        requires
            1 <= sample_rate <= RATE_LIMIT,
        ensures
            w.inv(),
            w@.sample_rate == sample_rate,
            w@.phase == 0,
            w@.sizes.len() == 9,
            forall|j: int| 0 <= j < 9 ==> #[trigger] w@.sizes[j] == 4 * vstd::arithmetic::power2::pow2(j as nat),
    {
        let mut bands: Vec<Band> = Vec::new();
        let mut n: usize = 4;
        proof {
            vstd::arithmetic::power2::lemma2_to64();
        }
        for j in 0..9usize
            invariant
                bands@.len() == j,
                n == 4 * vstd::arithmetic::power2::pow2(j as nat),
                j < 9 ==> n <= 1024,
                forall|k: int| 0 <= k < j ==> band_ok(#[trigger] bands@[k]),
                forall|k: int|
                    0 <= k < j ==> #[trigger] bands@[k].sine@.len() == 4 * vstd::arithmetic::power2::pow2(
                        k as nat),
        {
            proof {
                lemma_pow2_even(j as nat);
            }
            bands.push(build_band(n));
            proof {
                lemma_pow2_step(j as nat);
                vstd::arithmetic::power2::lemma2_to64();
                if j + 1 < 8 {
                    vstd::arithmetic::power2::lemma_pow2_strictly_increases((j + 1) as nat, 8);
                }
            }
            n = n * 2;
        }
        let w = WaveTable { sample_rate, phase: 0, bands };
        proof {
            assert forall|k: int| 0 <= k < w@.sizes.len() implies 2 <= #[trigger] w@.sizes[k]
                <= 1024 && w@.sizes[k] % 2 == 0 by {
                assert(band_ok(w.bands@[k]));
            }
        }
        w
    }

    /// The band index the oscillator will use for a frequency.
    fn select_band(bands: &Vec<Band>, sample_rate: i64, at: usize, freq: i64) -> (r: usize)
        requires
            1 <= sample_rate <= RATE_LIMIT,
            at < bands@.len(),
            forall|j: int| 0 <= j < bands@.len() ==> band_ok(#[trigger] bands@[j]),
        ensures
            r == at + band_select(sizes_of(bands@).skip(at as int), sample_rate as int, freq as int),
            at <= r < bands@.len(),
        decreases bands@.len() - at,
    {
        proof {
            lemma_band_select_range(sizes_of(bands@).skip(at as int), sample_rate as int,
                freq as int);
        }
        let len = bands.len();
        if at + 1 == len {
            at
        } else {
            proof {
                assert(band_ok(bands@[at as int]));
            }
            let n = bands[at].sine.len();
            let cutoff = (sample_rate * FP_ONE) / (n as i64);
            if freq > cutoff {
                at
            } else {
                proof {
                    assert(sizes_of(bands@).skip(at as int).drop_first() =~= sizes_of(
                        bands@).skip(at as int + 1));
                }
                Self::select_band(bands, sample_rate, at + 1, freq)
            }
        }
    }

    /// One oscillator sample, exactly as `osc_step_spec` describes; the
    /// output of the three-way blend stays within three times full scale.
    #[verifier::rlimit(60)]
    pub fn step(&mut self, freq: i64, mix: [i64; 3]) -> (out: i64)
        requires
            old(self).inv(),
            0 <= freq <= FREQ_LIMIT,
            forall|k: int| 0 <= k < 3 ==> 0 <= #[trigger] mix@[k] <= FP_ONE,
        ensures
            final(self).inv(),
            final(self)@ == osc_step_spec(old(self)@, freq as int, mix@).0,
            out as int == osc_step_spec(old(self)@, freq as int, mix@).1,
            -3 * FP_ONE <= out <= 3 * FP_ONE,
    {
        let b = Self::select_band(&self.bands, self.sample_rate, 0, freq);
        proof {
            assert(sizes_of(self.bands@).skip(0) =~= sizes_of(self.bands@));
        }
        let band = &self.bands[b];
        proof {
            assert(band_ok(self.bands@[b as int]));
        }
        let n_usize = band.sine.len();
        let n = n_usize as i64;
        let step = (TOP_SIZE * freq) / self.sample_rate;
        proof {
            lemma_div_pos_is_pos((TOP_SIZE as int) * (freq as int), self@.sample_rate);
            lemma_div_is_ordered(
                (TOP_SIZE as int) * (freq as int),
                (TOP_SIZE as int) * (FREQ_LIMIT as int),
                self@.sample_rate,
            );
            lemma_advance_phase_in_range(self@.phase, step as int, PHASE_SPAN as int);
        }
        let p = (self.phase + step) % PHASE_SPAN;
        proof {
            assert(0 <= (p as int) * (n as int) && (p as int) * (n as int) < (TOP_SIZE as int) * (
            (FP_ONE as int) * (n as int))) by (nonlinear_arith)
                requires
                    0 <= (p as int) && (p as int) < (TOP_SIZE as int) * (FP_ONE as int),
                    2 <= (n as int),
                    PHASE_SPAN as int == (TOP_SIZE as int) * (FP_ONE as int);
            lemma_div_below((p as int) * (n as int), (FP_ONE as int) * (n as int), TOP_SIZE as int);
            lemma_div_pos_is_pos((p as int) * (n as int), TOP_SIZE as int);
        }
        let ip = (p * n) / TOP_SIZE;
        let idx_i = ip / FP_ONE;
        let frac = ip % FP_ONE;
        proof {
            assert((ip as int) < (n as int) * FP_ONE) by (nonlinear_arith)
                requires (ip as int) < (FP_ONE as int) * (n as int);
            lemma_div_pos_is_pos(ip as int, FP_ONE as int);
            lemma_div_below(ip as int, n as int, FP_ONE as int);
            lemma_mod_division_less_than_divisor(ip as int, FP_ONE as int);
            lemma_mod_division_less_than_divisor(idx_i as int + 1, n as int);
        }
        let idx = idx_i as usize;
        let idx2 = (idx + 1) % n_usize;
        let v_sine = lerp(band.sine[idx], band.sine[idx2], frac);
        let v_saw = lerp(band.saw[idx], band.saw[idx2], frac);
        let v_square = lerp(band.square[idx], band.square[idx2], frac);
        proof {
            lemma_fp_mul_toward_zero(mix@[0] as int, v_sine as int);
            lemma_fp_mul_toward_zero(mix@[1] as int, v_saw as int);
            lemma_fp_mul_toward_zero(mix@[2] as int, v_square as int);
            lemma_mul_fits(mix@[0] as int, v_sine as int);
            lemma_mul_fits(mix@[1] as int, v_saw as int);
            lemma_mul_fits(mix@[2] as int, v_square as int);
        }
        let out = fp_mul(mix[0], v_sine) + fp_mul(mix[1], v_saw) + fp_mul(mix[2], v_square);
        self.phase = p;
        out
    }
}

/// A product of a weight and a sample value fits comfortably in `i64`.
proof fn lemma_mul_fits(a: int, b: int)
    requires
        0 <= a <= FP_ONE,
        -FP_ONE <= b <= FP_ONE,
    ensures
        -0x7fff_ffff_ffff_ffff <= a * b <= 0x7fff_ffff_ffff_ffff,
{
    assert(-(FP_ONE as int) * FP_ONE <= a * b <= (FP_ONE as int) * FP_ONE) by (nonlinear_arith)
        requires 0 <= a <= FP_ONE as int && -(FP_ONE as int) <= b <= FP_ONE as int;
}

/// A nonnegative number below `k * d` divides by `d` to below `k`.
proof fn lemma_div_below(x: int, k: int, d: int)
    requires
        0 <= x < k * d,
        1 <= k,
        1 <= d,
    ensures
        x / d < k,
{
    assert(x <= k * d - 1);
    lemma_div_is_ordered(x, k * d - 1, d);
    assert((k * d - 1) / d == k - 1) by {
        assert(d * (k - 1) + (d - 1) == k * d - 1) by (nonlinear_arith);
        vstd::arithmetic::div_mod::lemma_div_multiples_vanish_fancy(k - 1, d - 1, d);
    }
}

/// Doubling moves one step up the power-of-two ladder.
proof fn lemma_pow2_step(j: nat)
    ensures
        vstd::arithmetic::power2::pow2(j + 1) == 2 * vstd::arithmetic::power2::pow2(j),
{
    vstd::arithmetic::power2::lemma_pow2_unfold(j + 1);
}

/// Band sizes are even and at least four.
proof fn lemma_pow2_even(j: nat)
    ensures
        vstd::arithmetic::power2::pow2(j) >= 1,
        4 * vstd::arithmetic::power2::pow2(j) % 2 == 0,
{
    vstd::arithmetic::power2::lemma_pow2_pos(j);
    let p = vstd::arithmetic::power2::pow2(j);
    assert(4 * p == 2 * (2 * p));
    assert(2 * (2 * p) % 2 == 0) by (nonlinear_arith);
}

/// The mathematical state of the low-frequency oscillator: a phase into a
/// fixed-size sine period.
pub ghost struct LfoView {
    /// Samples per second.
    pub sample_rate: int,
    /// Q16.16 index into the sine period.
    pub phase: int,
}

impl LfoView {
    /// Range invariants.
    pub open spec fn wf(self) -> bool {
        &&& 1 <= self.sample_rate <= RATE_LIMIT
        &&& 0 <= self.phase < LFO_SIZE * FP_ONE
    }
}

/// One LFO step: advance the phase by `LFO_SIZE * freq / sample_rate` and
/// read the sine by linear interpolation.
pub open spec fn lfo_step_spec(s: LfoView, freq: int) -> (LfoView, int) {
    let p = advance_phase(s.phase, LFO_SIZE * freq / s.sample_rate, LFO_SIZE * FP_ONE);
    let idx = p / (FP_ONE as int);
    let idx2 = (idx + 1) % (LFO_SIZE as int);
    let frac = p % (FP_ONE as int);
    (LfoView { phase: p, ..s }, lerp_spec(wave_sine(idx, LFO_SIZE as int), wave_sine(idx2,
        LFO_SIZE as int), frac))
}

/// A sine low-frequency oscillator, used to modulate the chorus taps.  It
/// evaluates the sine approximation directly instead of storing a table.
pub struct SinLFO {
    sample_rate: i64,
    phase: i64,
}

impl View for SinLFO {
    type V = LfoView;

    closed spec fn view(&self) -> LfoView {
        LfoView { sample_rate: self.sample_rate as int, phase: self.phase as int }
    }
}

impl SinLFO {
    /// A fresh LFO at phase zero.
    pub fn new(sample_rate: i64) -> (l: SinLFO)
        requires
            1 <= sample_rate <= RATE_LIMIT,
        ensures
            l@.wf(),
            l@.sample_rate == sample_rate,
            l@.phase == 0,
    {
        SinLFO { sample_rate, phase: 0 }
    }

    /// One LFO sample in `[-FP_ONE, FP_ONE]`, exactly as `lfo_step_spec`
    /// describes.
    pub fn step(&mut self, freq: i64) -> (out: i64)
        requires
            old(self)@.wf(),
            0 <= freq <= FREQ_LIMIT,
        ensures
            final(self)@.wf(),
            final(self)@ == lfo_step_spec(old(self)@, freq as int).0,
            out as int == lfo_step_spec(old(self)@, freq as int).1,
            -FP_ONE <= out <= FP_ONE,
    {
        let step = (LFO_SIZE * freq) / self.sample_rate;
        let m = LFO_SIZE * FP_ONE;
        proof {
            assert(0 <= (LFO_SIZE as int) * (freq as int) <= (LFO_SIZE as int) * (FREQ_LIMIT as int))
                by (nonlinear_arith)
                requires 0 <= freq as int <= FREQ_LIMIT as int;
            lemma_div_pos_is_pos((LFO_SIZE as int) * (freq as int), self@.sample_rate);
            lemma_div_is_ordered((LFO_SIZE as int) * (freq as int), (LFO_SIZE as int) * (
            FREQ_LIMIT as int), self@.sample_rate);
            lemma_advance_phase_in_range(self@.phase, step as int, m as int);
        }
        let p = (self.phase + step) % m;
        let idx = p / FP_ONE;
        let frac = p % FP_ONE;
        proof {
            lemma_div_pos_is_pos(p as int, FP_ONE as int);
            lemma_div_below(p as int, LFO_SIZE as int, FP_ONE as int);
            lemma_mod_division_less_than_divisor(p as int, FP_ONE as int);
            lemma_mod_division_less_than_divisor(idx as int + 1, LFO_SIZE as int);
            lemma_wave_sample_bounds(Waveform::Sine, idx as int, LFO_SIZE as int);
            lemma_wave_sample_bounds(Waveform::Sine, (idx as int + 1) % (LFO_SIZE as int), LFO_SIZE as int);
        }
        let s0 = wave_sample_at(Waveform::Sine, idx, LFO_SIZE);
        let s1 = wave_sample_at(Waveform::Sine, (idx + 1) % LFO_SIZE, LFO_SIZE);
        let out = lerp(s0, s1, frac);
        self.phase = p;
        out
    }
}

} // verus!
