//! Q16.16 fixed-point scalars: truncated products, clamping, interpolation.
//!
//! Every signal value and parameter in this crate is an `i64` read as a
//! Q16.16 fixed-point number: `FP_ONE` stands for 1.0.  Products are
//! truncated toward zero, matching Rust's `/` on `i64`.

use vstd::prelude::*;
use vstd::arithmetic::div_mod::{lemma_div_is_ordered, lemma_div_multiples_vanish, lemma_div_pos_is_pos};
use vstd::arithmetic::mul::lemma_mul_unary_negation;

verus! {

/// The value 1.0 in Q16.16 fixed point.
pub const FP_ONE: i64 = 65536;

/// Hard magnitude limit for filter state (256 times full scale): resonance
/// can make the filter diverge, and its state rails here instead of
/// overflowing.
pub const SIG_LIMIT: i64 = 16777216;

/// Largest endpoint magnitude `lerp` accepts; covers an 8-voice sum of
/// filter outputs with room to spare.
pub const LERP_LIMIT: i64 = 134217728;

/// Division by `FP_ONE` rounded toward zero, as Rust's `/` computes it.
pub open spec fn div_fp(x: int) -> int {
    if x >= 0 {
        x / (FP_ONE as int)
    } else {
        -((-x) / (FP_ONE as int))
    }
}

/// Product of two Q16.16 numbers, rounded toward zero.
pub open spec fn fp_mul_spec(a: int, b: int) -> int {
    div_fp(a * b)
}

/// `x` clamped to `[-limit, limit]`.
pub open spec fn clamp_spec(x: int, limit: int) -> int {
    if x < -limit {
        -limit
    } else if x > limit {
        limit
    } else {
        x
    }
}

/// Linear interpolation from `a` toward `b` by `frac / FP_ONE`.
pub open spec fn lerp_spec(a: int, b: int, frac: int) -> int {
    a + fp_mul_spec(frac, b - a)
}

/// Truncating division by `FP_ONE` preserves order.
pub proof fn lemma_div_fp_ordered(x: int, y: int)
    requires
        x <= y,
    ensures
        div_fp(x) <= div_fp(y),
{
    let f = FP_ONE as int;
    if x >= 0 {
        lemma_div_is_ordered(x, y, f);
    } else if y >= 0 {
        lemma_div_pos_is_pos(y, f);
        lemma_div_pos_is_pos(-x, f);
    } else {
        lemma_div_is_ordered(-y, -x, f);
    }
}

/// Scaling `d` by `c / FP_ONE` with `0 <= c <= FP_ONE` moves it toward zero
/// without crossing zero or growing in magnitude.
pub proof fn lemma_fp_mul_toward_zero(c: int, d: int)
    requires
        0 <= c <= FP_ONE,
    ensures
        d >= 0 ==> 0 <= fp_mul_spec(c, d) <= d,
        d <= 0 ==> d <= fp_mul_spec(c, d) <= 0,
{
    let f = FP_ONE as int;
    if d >= 0 {
        assert(0 <= c * d <= f * d) by (nonlinear_arith)
            requires 0 <= c <= f && d >= 0;
        lemma_div_is_ordered(c * d, f * d, f);
        lemma_div_multiples_vanish(d, f);
        lemma_div_pos_is_pos(c * d, f);
    } else {
        let e = -d;
        assert(0 <= c * e <= f * e) by (nonlinear_arith)
            requires 0 <= c <= f && e >= 0;
        lemma_mul_unary_negation(c, d);
        lemma_div_is_ordered(c * e, f * e, f);
        lemma_div_multiples_vanish(e, f);
        lemma_div_pos_is_pos(c * e, f);
    }
}

/// A truncated product with a nonnegative left factor is monotone in the
/// right factor.
pub proof fn lemma_fp_mul_mono(c: int, d1: int, d2: int)
    requires
        0 <= c,
        d1 <= d2,
    ensures
        fp_mul_spec(c, d1) <= fp_mul_spec(c, d2),
{
    assert(c * d1 <= c * d2) by (nonlinear_arith)
        requires 0 <= c && d1 <= d2;
    lemma_div_fp_ordered(c * d1, c * d2);
}

/// A bound on a product gives a bound on the truncated fixed-point product.
pub proof fn lemma_fp_mul_abs_bound(a: int, b: int, m: int)
    requires
        0 <= m,
        -m <= a * b <= m,
    ensures
        -(m / (FP_ONE as int)) <= fp_mul_spec(a, b) <= m / (FP_ONE as int),
{
    let f = FP_ONE as int;
    let x = a * b;
    if x >= 0 {
        lemma_div_is_ordered(x, m, f);
        lemma_div_pos_is_pos(x, f);
    } else {
        lemma_div_is_ordered(-x, m, f);
        lemma_div_pos_is_pos(-x, f);
    }
}

/// Moving `cur` toward `target` by the fraction `c / FP_ONE` lands between
/// the two.
pub proof fn lemma_step_toward(cur: int, target: int, c: int)
    requires
        0 <= c <= FP_ONE,
    ensures
        cur <= target ==> cur <= cur + fp_mul_spec(c, target - cur) <= target,
        target <= cur ==> target <= cur + fp_mul_spec(c, target - cur) <= cur,
{
    lemma_fp_mul_toward_zero(c, target - cur);
}

/// The truncated product does not depend on the order of its factors.
pub proof fn lemma_fp_mul_comm(a: int, b: int)
    ensures
        fp_mul_spec(a, b) == fp_mul_spec(b, a),
{
    assert(a * b == b * a);
}

/// Applying a gain in `[0, FP_ONE]` to a bounded value neither overflows
/// nor grows the value.
pub proof fn lemma_gain_fits(g: int, x: int, lim: int)
    requires
        0 <= g <= FP_ONE,
        0 <= lim <= 0x4000_0000_0000i64,
        -lim <= x <= lim,
    ensures
        -0x7fff_ffff_ffff_ffff <= g * x <= 0x7fff_ffff_ffff_ffff,
        -lim <= fp_mul_spec(g, x) <= lim,
{
    assert(-(FP_ONE as int) * lim <= g * x <= (FP_ONE as int) * lim) by (nonlinear_arith)
        requires
            0 <= g <= FP_ONE as int,
            -lim <= x <= lim;
    lemma_fp_mul_toward_zero(g, x);
}

/// Clamp `x` to `[-limit, limit]`.
pub fn clamp(x: i64, limit: i64) -> (r: i64)
    requires
        0 <= limit,
    ensures
        r == clamp_spec(x as int, limit as int),
{
    if x < -limit {
        -limit
    } else if x > limit {
        limit
    } else {
        x
    }
}

/// `a * b / FP_ONE`, rounded toward zero.
pub fn fp_mul(a: i64, b: i64) -> (r: i64)
    requires
        -0x7fff_ffff_ffff_ffff <= a * b <= 0x7fff_ffff_ffff_ffff,
    ensures
        r == fp_mul_spec(a as int, b as int),
{
    let p: i64 = a * b;
    if p >= 0 {
        p / FP_ONE
    } else {
        -((-p) / FP_ONE)
    }
}

/// Interpolate from `a` toward `b` by `frac / FP_ONE`; the result lies
/// between `a` and `b`.
pub fn lerp(a: i64, b: i64, frac: i64) -> (r: i64)
    requires
        0 <= frac <= FP_ONE,
        -LERP_LIMIT <= a <= LERP_LIMIT,
        -LERP_LIMIT <= b <= LERP_LIMIT,
    ensures
        r == lerp_spec(a as int, b as int, frac as int),
        a <= b ==> a <= r <= b,
        b <= a ==> b <= r <= a,
{
    let d: i64 = b - a;
    proof {
        assert(-(FP_ONE as int) * 2 * (LERP_LIMIT as int) <= frac * d <= (FP_ONE as int) * 2 * (
        LERP_LIMIT as int)) by (nonlinear_arith)
            requires
                0 <= frac <= FP_ONE as int,
                -2 * (LERP_LIMIT as int) <= d <= 2 * (LERP_LIMIT as int);
        lemma_fp_mul_toward_zero(frac as int, d as int);
    }
    a + fp_mul(frac, d)
}

} // verus!
