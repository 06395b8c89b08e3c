//! Four-stage amplitude envelope (attack, decay, sustain, release).
//!
//! The envelope is a state machine driven by a gate boolean.  A rising gate
//! edge starts the attack ramp from the current attenuation; once the stage
//! timer passes the attack duration the envelope decays toward the sustain
//! level and stays there for as long as the key stays down.  A falling edge takes the
//! attenuation at that instant and scales it down linearly over the release
//! duration.  All durations are in whole samples; attenuations are Q16.16
//! values in `[0, FP_ONE]`.

use vstd::prelude::*;
use vstd::math::max;
use vstd::arithmetic::div_mod::{lemma_div_is_ordered, lemma_div_multiples_vanish, lemma_div_pos_is_pos};
use crate::fixed::{FP_ONE, fp_mul, fp_mul_spec, lemma_fp_mul_toward_zero, lemma_fp_mul_mono};

verus! {

/// Upper bound on a stage duration in samples.
pub const DUR_LIMIT: i64 = 0x40000000;

/// Upper bound on a stage duration given to `set_adsr`, in Q16.16 seconds.
pub const ENV_SECS_LIMIT: i64 = 0x4000000;

/// Upper bound on the sample rate accepted at construction.
pub const RATE_LIMIT: i64 = 0x100000;

/// Cap at which the stage timers stop counting.  It is far beyond any stage
/// duration, so saturation never changes the attenuation.
pub const TIME_LIMIT: i64 = 0x1000000000000000;

/// The mathematical state of an envelope.
pub ghost struct AdsrView {
    /// Attack duration in samples.
    pub attack: int,
    /// Decay duration in samples.
    pub decay: int,
    /// Sustain attenuation in `[0, FP_ONE]`.
    pub sustain: int,
    /// Release duration in samples.
    pub release: int,
    /// Samples per second.
    pub sample_rate: int,
    /// The most recent gate input.
    pub last_gate: bool,
    /// Samples since the attack stage started.
    pub ads_time: int,
    /// Samples since the release stage started.
    pub rel_time: int,
    /// The attenuation returned by the previous step.
    pub level: int,
    /// The attenuation at the most recent rising gate edge.
    pub attack_base: int,
    /// The attenuation at the most recent falling gate edge.
    pub release_level: int,
}

impl AdsrView {
    /// Range invariants on every field.
    pub open spec fn wf(self) -> bool {
        &&& 0 <= self.attack <= DUR_LIMIT
        &&& 0 <= self.decay <= DUR_LIMIT
        &&& 0 <= self.sustain <= FP_ONE
        &&& 0 <= self.release <= DUR_LIMIT
        &&& 1 <= self.sample_rate <= RATE_LIMIT
        &&& 0 <= self.ads_time <= TIME_LIMIT
        &&& 0 <= self.rel_time <= TIME_LIMIT
        &&& 0 <= self.level <= FP_ONE
        &&& 0 <= self.attack_base <= FP_ONE
        &&& 0 <= self.release_level <= FP_ONE
    }
}

/// A stage timer advances by one sample per step and saturates at
/// `TIME_LIMIT`.
pub open spec fn advance_time(t: int) -> int {
    if t < TIME_LIMIT {
        t + 1
    } else {
        t
    }
}

/// Attenuation with the key held down, `t` samples after the attack began:
/// the attack ramp (never below the attenuation the stage started from),
/// then the decay ramp down to the sustain level.
pub open spec fn held_attenuation(s: AdsrView, t: int) -> int {
    if t < s.attack {
        max(t * FP_ONE / s.attack, s.attack_base)
    } else if s.decay <= 0 {
        s.sustain
    } else {
        max(FP_ONE - (t - s.attack) * FP_ONE / s.decay, s.sustain)
    }
}

/// Attenuation with the key up, `t` samples after the falling
/// edge: the level at the release instant scaled by `1 - t / release`,
/// never below zero.  A release duration of zero silences at once.
pub open spec fn released_attenuation(s: AdsrView, t: int) -> int {
    if s.release <= 0 || t >= s.release {
        0
    } else {
        fp_mul_spec(s.release_level, FP_ONE - t * FP_ONE / s.release)
    }
}

/// Gate edges reset the stage timers and record the current attenuation.
pub open spec fn adsr_edge(s: AdsrView, gate: bool) -> AdsrView {
    if gate && !s.last_gate {
        AdsrView { ads_time: 0, attack_base: s.level, ..s }
    } else if !gate && s.last_gate {
        AdsrView { rel_time: 0, release_level: s.level, ..s }
    } else {
        s
    }
}

/// One envelope step: apply gate edges, read the attenuation for the current
/// stage time, then advance that stage's timer.
pub open spec fn adsr_step_spec(s: AdsrView, gate: bool) -> (AdsrView, int) {
    let e = adsr_edge(s, gate);
    if gate {
        let att = held_attenuation(e, e.ads_time);
        (AdsrView { ads_time: advance_time(e.ads_time), level: att, last_gate: true, ..e }, att)
    } else {
        let att = released_attenuation(e, e.rel_time);
        (AdsrView { rel_time: advance_time(e.rel_time), level: att, last_gate: false, ..e }, att)
    }
}

/// Attenuations of the spec model stay in `[0, FP_ONE]`.
pub proof fn lemma_held_attenuation_in_range(s: AdsrView, t: int)
    requires
        s.wf(),
        0 <= t,
    ensures
        0 <= held_attenuation(s, t) <= FP_ONE,
{
    if t < s.attack {
        lemma_ramp_le_one(t, s.attack);
        lemma_div_pos_is_pos(t * FP_ONE, s.attack);
    } else if s.decay <= 0 {
    } else {
        lemma_div_pos_is_pos((t - s.attack) * FP_ONE, s.decay);
    }
}

/// The attack ramp never exceeds `FP_ONE` while the stage lasts.
proof fn lemma_ramp_le_one(t: int, dur: int)
    requires
        0 <= t < dur,
    ensures
        t * FP_ONE / dur <= FP_ONE,
{
    assert(t * FP_ONE <= dur * FP_ONE) by (nonlinear_arith)
        requires 0 <= t < dur;
    lemma_div_is_ordered(t * FP_ONE, dur * FP_ONE, dur);
    lemma_div_multiples_vanish(FP_ONE as int, dur);
}

pub proof fn lemma_released_attenuation_in_range(s: AdsrView, t: int)
    requires
        s.wf(),
        0 <= t,
    ensures
        0 <= released_attenuation(s, t) <= s.release_level,
{
    if s.release <= 0 || t >= s.release {
    } else {
        let unb = FP_ONE - t * FP_ONE / s.release;
        assert(t * FP_ONE <= s.release * FP_ONE) by (nonlinear_arith)
            requires 0 <= t <= s.release;
        lemma_div_is_ordered(t * FP_ONE, s.release * FP_ONE, s.release);
        lemma_div_multiples_vanish(FP_ONE as int, s.release);
        lemma_div_pos_is_pos(t * FP_ONE, s.release);
        assert(0 <= unb <= FP_ONE);
        lemma_fp_mul_toward_zero(unb, s.release_level);
        assert(fp_mul_spec(s.release_level, unb) == fp_mul_spec(unb, s.release_level));
    }
}

/// A step of the model keeps the state well formed and its attenuation in
/// range, so the step lemmas can be chained over any run of steps.
pub proof fn lemma_adsr_step_wf(s: AdsrView, gate: bool)
    requires
        s.wf(),
    ensures
        adsr_step_spec(s, gate).0.wf(),
        0 <= adsr_step_spec(s, gate).1 <= FP_ONE,
{
    let e = adsr_edge(s, gate);
    if gate {
        lemma_held_attenuation_in_range(e, e.ads_time);
    } else {
        lemma_released_attenuation_in_range(e, e.rel_time);
    }
}

/// The envelope.  Durations are held in samples; `set_adsr` converts from
/// Q16.16 seconds using the sample rate fixed at construction.
pub struct ADSR {
    attack: i64,
    decay: i64,
    sustain: i64,
    release: i64,
    sample_rate: i64,
    last_gate: bool,
    ads_time: i64,
    rel_time: i64,
    level: i64,
    attack_base: i64,
    release_level: i64,
}

impl View for ADSR {
    type V = AdsrView;

    closed spec fn view(&self) -> AdsrView {
        AdsrView {
            attack: self.attack as int,
            decay: self.decay as int,
            sustain: self.sustain as int,
            release: self.release as int,
            sample_rate: self.sample_rate as int,
            last_gate: self.last_gate,
            ads_time: self.ads_time as int,
            rel_time: self.rel_time as int,
            level: self.level as int,
            attack_base: self.attack_base as int,
            release_level: self.release_level as int,
        }
    }
}

impl ADSR {
    /// A fresh envelope: idle and silent, with moderate default stage times
    /// (0.7 s attack, 0.5 s decay, sustain one half, 1 s release).
    pub fn new(sample_rate: i64) -> (adsr: ADSR)
        requires
            1 <= sample_rate <= RATE_LIMIT,
        ensures
            adsr@.wf(),
            adsr@.sample_rate == sample_rate,
            !adsr@.last_gate,
            adsr@.level == 0,
            adsr@.ads_time == 0,
            adsr@.rel_time == 0,
            adsr@.attack_base == 0,
            adsr@.release_level == 0,
            adsr@.attack == 45875 * sample_rate / (FP_ONE as int),
            adsr@.decay == 32768 * sample_rate / (FP_ONE as int),
            adsr@.sustain == 32768,
            adsr@.release == sample_rate,
    {
        let attack = secs_to_samples(45875, sample_rate);
        let decay = secs_to_samples(32768, sample_rate);
        ADSR {
            attack,
            decay,
            sustain: 32768,
            release: sample_rate,
            sample_rate,
            last_gate: false,
            ads_time: 0,
            rel_time: 0,
            level: 0,
            attack_base: 0,
            release_level: 0,
        }
    }

    /// Replace the four stage parameters.  Times are Q16.16 seconds; the
    /// sustain level is a Q16.16 attenuation.
    pub fn set_adsr(&mut self, a: i64, d: i64, s: i64, r: i64)
        requires
            old(self)@.wf(),
            0 <= a <= ENV_SECS_LIMIT,
            0 <= d <= ENV_SECS_LIMIT,
            0 <= s <= FP_ONE,
            0 <= r <= ENV_SECS_LIMIT,
        ensures
            final(self)@.wf(),
            final(self)@ == (AdsrView {
                attack: a * old(self)@.sample_rate / (FP_ONE as int),
                decay: d * old(self)@.sample_rate / (FP_ONE as int),
                sustain: s as int,
                release: r * old(self)@.sample_rate / (FP_ONE as int),
                ..old(self)@
            }),
    {
        self.attack = secs_to_samples(a, self.sample_rate);
        self.decay = secs_to_samples(d, self.sample_rate);
        self.sustain = s;
        self.release = secs_to_samples(r, self.sample_rate);
    }

    /// One sample of the envelope: returns the attenuation to scale the
    /// voice by, exactly as `adsr_step_spec` describes.
    pub fn step(&mut self, gate: bool) -> (att: i64)
        requires
            old(self)@.wf(),
        ensures
            final(self)@.wf(),
            final(self)@ == adsr_step_spec(old(self)@, gate).0,
            att as int == adsr_step_spec(old(self)@, gate).1,
            0 <= att <= FP_ONE,
    {
        if gate && !self.last_gate {
            self.ads_time = 0;
            self.attack_base = self.level;
        } else if !gate && self.last_gate {
            self.rel_time = 0;
            self.release_level = self.level;
        }
        let att: i64;
        if gate {
            proof {
                lemma_held_attenuation_in_range(self@, self@.ads_time);
            }
            if self.ads_time < self.attack {
                let ramp = (self.ads_time * FP_ONE) / self.attack;
                att = if ramp < self.attack_base {
                    self.attack_base
                } else {
                    ramp
                };
            } else if self.decay <= 0 {
                att = self.sustain;
            } else if self.ads_time - self.attack >= self.decay {
                att = self.sustain;
                proof {
                    lemma_decay_done(self@, self@.ads_time);
                }
            } else {
                let amount = ((self.ads_time - self.attack) * FP_ONE) / self.decay;
                proof {
                    lemma_div_pos_is_pos((self@.ads_time - self@.attack) * FP_ONE, self@.decay);
                }
                let v = FP_ONE - amount;
                att = if v < self.sustain {
                    self.sustain
                } else {
                    v
                };
            }
            if self.ads_time < TIME_LIMIT {
                self.ads_time = self.ads_time + 1;
            }
            self.last_gate = true;
        } else {
            proof {
                lemma_released_attenuation_in_range(self@, self@.rel_time);
            }
            if self.release <= 0 || self.rel_time >= self.release {
                att = 0;
            } else {
                let unb = FP_ONE - (self.rel_time * FP_ONE) / self.release;
                proof {
                    assert(self@.rel_time * FP_ONE <= self@.release * FP_ONE) by (nonlinear_arith)
                        requires 0 <= self@.rel_time <= self@.release;
                    lemma_div_is_ordered(self@.rel_time * FP_ONE, self@.release * FP_ONE, self@.release);
                    lemma_div_multiples_vanish(FP_ONE as int, self@.release);
                    lemma_div_pos_is_pos(self@.rel_time * FP_ONE, self@.release);
                }
                att = fp_mul(self.release_level, unb);
            }
            if self.rel_time < TIME_LIMIT {
                self.rel_time = self.rel_time + 1;
            }
            self.last_gate = false;
        }
        self.level = att;
        att
    }
}

/// Once the stage time has passed attack plus decay, the decay ramp has
/// reached or crossed the sustain level.
proof fn lemma_decay_done(s: AdsrView, t: int)
    requires
        s.wf(),
        s.decay > 0,
        t - s.attack >= s.decay,
    ensures
        max(FP_ONE - (t - s.attack) * FP_ONE / s.decay, s.sustain) == s.sustain,
{
    let u = t - s.attack;
    assert(u * FP_ONE >= s.decay * FP_ONE) by (nonlinear_arith)
        requires u >= s.decay >= 1;
    lemma_div_is_ordered(s.decay * FP_ONE, u * FP_ONE, s.decay);
    lemma_div_multiples_vanish(FP_ONE as int, s.decay);
}

/// Convert Q16.16 seconds to whole samples.
fn secs_to_samples(secs: i64, sample_rate: i64) -> (n: i64)
    requires
        0 <= secs <= ENV_SECS_LIMIT,
        1 <= sample_rate <= RATE_LIMIT,
    ensures
        n == secs * sample_rate / (FP_ONE as int),
        0 <= n <= DUR_LIMIT,
{
    proof {
        assert(0 <= secs * sample_rate <= ENV_SECS_LIMIT * RATE_LIMIT) by (nonlinear_arith)
            requires 0 <= secs <= ENV_SECS_LIMIT && 1 <= sample_rate <= RATE_LIMIT;
        lemma_div_is_ordered(secs * sample_rate, ENV_SECS_LIMIT * RATE_LIMIT, FP_ONE as int);
        lemma_div_pos_is_pos(secs * sample_rate, FP_ONE as int);
    }
    (secs * sample_rate) / FP_ONE
}

/// Throughout the attack stage the attenuation never falls as the stage
/// time advances.
pub proof fn lemma_attack_ramp_monotone(s: AdsrView, t1: int, t2: int)
    requires
        s.wf(),
        0 <= t1 <= t2 < s.attack,
    ensures
        held_attenuation(s, t1) <= held_attenuation(s, t2),
{
    assert(t1 * FP_ONE <= t2 * FP_ONE) by (nonlinear_arith)
        requires 0 <= t1 <= t2;
    lemma_div_is_ordered(t1 * FP_ONE, t2 * FP_ONE, s.attack);
}

/// Throughout the release stage the attenuation never rises as the stage
/// time advances, and never exceeds the level taken at the falling edge.
pub proof fn lemma_release_ramp_monotone(s: AdsrView, t1: int, t2: int)
    requires
        s.wf(),
        0 <= t1 <= t2,
    ensures
        released_attenuation(s, t2) <= released_attenuation(s, t1),
        released_attenuation(s, t1) <= s.release_level,
{
    lemma_released_attenuation_in_range(s, t1);
    lemma_released_attenuation_in_range(s, t2);
    if !(s.release <= 0 || t2 >= s.release) {
        assert(t1 * FP_ONE <= t2 * FP_ONE) by (nonlinear_arith)
            requires 0 <= t1 <= t2;
        lemma_div_is_ordered(t1 * FP_ONE, t2 * FP_ONE, s.release);
        lemma_fp_mul_mono(s.release_level, FP_ONE - t2 * FP_ONE / s.release,
            FP_ONE - t1 * FP_ONE / s.release);
    }
}

/// During the attack stage, successive gated steps yield a non-decreasing
/// attenuation.
pub proof fn lemma_attack_monotone(s: AdsrView)
    requires
        s.wf(),
        (if s.last_gate { s.ads_time } else { 0 }) + 1 < s.attack,
    ensures
        adsr_step_spec(s, true).1 <= adsr_step_spec(adsr_step_spec(s, true).0, true).1,
{
    let e = adsr_edge(s, true);
    let t = e.ads_time;
    let (s1, a1) = adsr_step_spec(s, true);
    assert(t * FP_ONE <= (t + 1) * FP_ONE) by (nonlinear_arith)
        requires t >= 0;
    lemma_div_is_ordered(t * FP_ONE, (t + 1) * FP_ONE, s.attack);
}

/// During release, each step's attenuation is at most the previous step's,
/// and never exceeds the level recorded at the falling edge.
pub proof fn lemma_release_monotone(s: AdsrView)
    requires
        s.wf(),
    ensures
        adsr_step_spec(s, false).1 <= adsr_edge(s, false).release_level,
        adsr_step_spec(adsr_step_spec(s, false).0, false).1 <= adsr_step_spec(s, false).1,
{
    let e = adsr_edge(s, false);
    let (s1, a1) = adsr_step_spec(s, false);
    let (s2, a2) = adsr_step_spec(s1, false);
    lemma_released_attenuation_in_range(e, e.rel_time);
    lemma_released_attenuation_in_range(s1, s1.rel_time);
    if !(s1.release <= 0 || s1.rel_time >= s1.release) {
        // Both outputs come from the scaled release ramp; the ramp factor
        // shrinks as the timer advances.
        let t1 = e.rel_time;
        let t2 = s1.rel_time;
        assert(t1 * FP_ONE <= t2 * FP_ONE) by (nonlinear_arith)
            requires 0 <= t1 <= t2;
        lemma_div_is_ordered(t1 * FP_ONE, t2 * FP_ONE, s1.release);
        lemma_fp_mul_mono(s1.release_level, FP_ONE - t2 * FP_ONE / s1.release,
            FP_ONE - t1 * FP_ONE / s1.release);
    }
}

/// A rising gate edge with a zero attack duration reaches full attenuation
/// on the very first sample, provided the decay stage has room to start
/// from full level (a zero decay pins the envelope at the sustain level
/// instead).
pub proof fn lemma_attack_instant(s: AdsrView)
    requires
        s.wf(),
        !s.last_gate,
        s.attack <= 0,
        s.decay > 0,
    ensures
        adsr_step_spec(s, true).1 == FP_ONE,
{
    let e = adsr_edge(s, true);
    assert(0 * FP_ONE == 0) by (nonlinear_arith);
    assert((0 - e.attack) * FP_ONE == 0);
    assert((0 - e.attack) * FP_ONE / e.decay == 0) by {
        lemma_div_pos_is_pos(0, e.decay);
        lemma_div_is_ordered(0, 0, e.decay);
        assert(0int / e.decay == 0);
    }
}

/// A zero release duration silences the envelope immediately.
pub proof fn lemma_release_instant(s: AdsrView)
    requires
        s.wf(),
        s.release <= 0,
    ensures
        adsr_step_spec(s, false).1 == 0,
{
}

} // verus!
