//! Fixed-point scale and shared smoothing math.
//!
//! A value `v: i64` stands for the real number `v / UNIT`; `UNIT` is a
//! power of two so the scale plays well with the power-of-two lattice
//! wraparound used by the gradient noise sources.

use vstd::prelude::*;

verus! {

/// 1.0 in fixed point: 2^16.
pub const UNIT: i64 = 65536;

/// 1.0 * 1.0 in fixed point (scale of a product of two values): 2^32.
pub const UNIT_SQ: i64 = UNIT * UNIT;

/// Quintic fade numerator `t^3 * (6 t^2 - 15 UNIT t + 10 UNIT^2)`,
/// the C2-continuous easing polynomial at scale `UNIT^5`.
pub open spec fn fade_num(t: int) -> int {
    t * t * t * (6 * t * t - 15 * (UNIT as int) * t + 10 * (UNIT as int) * (UNIT as int))
}

/// The fade curve `6 t^5 - 15 t^4 + 10 t^3` over fixed-point values:
/// maps `[0, UNIT]` onto `[0, UNIT]` with zero slope at both ends.
pub open spec fn spec_fade(t: int) -> int {
    fade_num(t) / ((UNIT as int) * (UNIT as int) * (UNIT as int) * (UNIT as int))
}

/// The quadratic factor of the fade numerator is at least `UNIT^2`
/// throughout `[0, UNIT]` (its discriminant is negative).
proof fn lemma_fade_quad_lower(t: int)
    requires
        0 <= t <= UNIT as int,
    ensures
        6 * t * t - 15 * (UNIT as int) * t + 10 * (UNIT as int) * (UNIT as int)
            >= (UNIT as int) * (UNIT as int),
{
    let u = UNIT as int;
    assert(6 * t * t - 15 * u * t + 10 * u * u - u * u == 3 * ((3 * u - 2 * t) * (u - t)))
        by (nonlinear_arith);
    assert((3 * u - 2 * t) * (u - t) >= 0) by (nonlinear_arith)
        requires 0 <= t <= u;
}

/// A product of a value in `[0, a]` and a value in `[-b, b]` lies in
/// `[-(a * b), a * b]`.
pub proof fn lemma_mul_abs_bound(x: int, a: int, y: int, b: int)
    by (nonlinear_arith)
    requires
        0 <= x <= a,
        -b <= y <= b,
    ensures
        -(a * b) <= x * y <= a * b,
{
}

/// Point symmetry of the fade numerator about the centre of `[0, UNIT]`:
/// `fade_num(t) + fade_num(UNIT - t) == UNIT^5`.
proof fn lemma_fade_num_symmetry(t: int)
    ensures
        fade_num(t) + fade_num((UNIT as int) - t)
            == (UNIT as int) * (UNIT as int) * (UNIT as int) * (UNIT as int) * (UNIT as int),
{
    let u = UNIT as int;
    let s = u - t;
    let t2 = t * t;
    let t3 = t2 * t;
    let s2 = s * s;
    let s3 = s2 * s;
    let u2 = u * u;
    let u3 = u2 * u;
    let u5 = u3 * u2;
    // Substituting `u == s + t` collapses both quadratic factors.
    assert(6 * t2 - 15 * (u * t) + 10 * (u * u) == t2 + 5 * (t * s) + 10 * s2) by (nonlinear_arith)
        requires u == s + t && t2 == t * t && s2 == s * s;
    assert(fade_num(t) == t3 * (6 * t2 - 15 * (u * t) + 10 * (u * u))) by (nonlinear_arith)
        requires
            fade_num(t) == t * t * t * (6 * t * t - 15 * u * t + 10 * u * u) && t2 == t * t
                && t3 == t2 * t;
    assert(t3 * (t2 + 5 * (t * s) + 10 * s2)
        == t3 * t2 + 5 * (t3 * (t * s)) + 10 * (t3 * s2)) by (nonlinear_arith);
    assert(6 * s2 - 15 * (u * s) + 10 * (u * u) == s2 + 5 * (s * t) + 10 * t2) by (nonlinear_arith)
        requires u == s + t && t2 == t * t && s2 == s * s;
    assert(fade_num(s) == s3 * (6 * s2 - 15 * (u * s) + 10 * (u * u))) by (nonlinear_arith)
        requires
            fade_num(s) == s * s * s * (6 * s * s - 15 * u * s + 10 * u * u) && s2 == s * s
                && s3 == s2 * s;
    assert(s3 * (s2 + 5 * (s * t) + 10 * t2)
        == s3 * s2 + 5 * (s3 * (s * t)) + 10 * (s3 * t2)) by (nonlinear_arith);
    // The binomial expansion of `(t + s)^5`, square by square.
    assert(u2 == t2 + 2 * (t * s) + s2) by (nonlinear_arith)
        requires u2 == u * u && u == t + s && t2 == t * t && s2 == s * s;
    assert(u3 == t3 + 3 * (t2 * s) + 3 * (t * s2) + s3) by (nonlinear_arith)
        requires
            u3 == u2 * u && u == t + s && u2 == t2 + 2 * (t * s) + s2 && t2 == t * t
                && t3 == t2 * t && s2 == s * s && s3 == s2 * s;
    assert(u5 == u3 * t2 + 2 * (u3 * (t * s)) + u3 * s2) by (nonlinear_arith)
        requires u5 == u3 * u2 && u2 == t2 + 2 * (t * s) + s2;
    assert(u3 * t2 == t3 * t2 + 3 * ((t2 * s) * t2) + 3 * ((t * s2) * t2) + s3 * t2)
        by (nonlinear_arith)
        requires u3 == t3 + 3 * (t2 * s) + 3 * (t * s2) + s3;
    assert(u3 * (t * s) == t3 * (t * s) + 3 * ((t2 * s) * (t * s)) + 3 * ((t * s2) * (t * s))
        + s3 * (t * s)) by (nonlinear_arith)
        requires u3 == t3 + 3 * (t2 * s) + 3 * (t * s2) + s3;
    assert(u3 * s2 == t3 * s2 + 3 * ((t2 * s) * s2) + 3 * ((t * s2) * s2) + s3 * s2)
        by (nonlinear_arith)
        requires u3 == t3 + 3 * (t2 * s) + 3 * (t * s2) + s3;
    // Normal forms of the mixed monomials.
    assert((t2 * s) * t2 == t3 * (t * s) && (t * s2) * t2 == t3 * s2
        && (t2 * s) * (t * s) == t3 * s2 && (t * s2) * (t * s) == s3 * t2
        && s3 * (t * s) == s3 * (s * t) && (t2 * s) * s2 == s3 * t2
        && (t * s2) * s2 == s3 * (s * t)) by (nonlinear_arith)
        requires t2 == t * t && t3 == t2 * t && s2 == s * s && s3 == s2 * s;
    assert(u5 == fade_num(t) + fade_num(s));
    assert(u5 == u * u * u * u * u) by (nonlinear_arith)
        requires u5 == u3 * u2 && u3 == u2 * u && u2 == u * u;
}

/// The fade numerator stays within `[0, UNIT^5]` on `[0, UNIT]`.
proof fn lemma_fade_num_range(t: int)
    requires
        0 <= t <= UNIT as int,
    ensures
        0 <= fade_num(t),
        fade_num(t) <= (UNIT as int) * (UNIT as int) * (UNIT as int) * (UNIT as int) * (UNIT as int),
{
    let u = UNIT as int;
    lemma_fade_quad_lower(t);
    assert(t * t * t >= 0) by (nonlinear_arith)
        requires t >= 0;
    assert(t * t * t * (6 * t * t - 15 * u * t + 10 * u * u) >= 0) by (nonlinear_arith)
        requires t * t * t >= 0 && 6 * t * t - 15 * u * t + 10 * u * u >= u * u && u * u >= 0;
    lemma_fade_quad_lower(u - t);
    assert((u - t) * (u - t) * (u - t) >= 0) by (nonlinear_arith)
        requires 0 <= u - t;
    assert(fade_num(u - t) >= 0) by (nonlinear_arith)
        requires
            (u - t) * (u - t) * (u - t) >= 0
                && 6 * (u - t) * (u - t) - 15 * u * (u - t) + 10 * u * u >= u * u && u * u >= 0;
    lemma_fade_num_symmetry(t);
}

/// On the lower half of `[0, UNIT]` the fade numerator stays below half
/// of `UNIT^5`: the surplus `UNIT^5 - 2 fade_num(t)` expands, with
/// `w = UNIT - 2 t`, into a polynomial with nonnegative terms only.
proof fn lemma_fade_num_half(t: int)
    requires
        0 <= 2 * t <= UNIT as int,
    ensures
        2 * fade_num(t)
            <= (UNIT as int) * (UNIT as int) * (UNIT as int) * (UNIT as int) * (UNIT as int),
{
    let u = UNIT as int;
    let s = u - t;
    let t2 = t * t;
    let t3 = t2 * t;
    let s2 = s * s;
    let s3 = s2 * s;
    // With `u == s + t` the quadratic factor of the fade numerator
    // collapses, giving `fade_num(t) == t^3 (t^2 + 5 t s + 10 s^2)`.
    assert(6 * t2 - 15 * (u * t) + 10 * (u * u) == t2 + 5 * (t * s) + 10 * s2) by (nonlinear_arith)
        requires u == s + t && t2 == t * t && s2 == s * s;
    assert(fade_num(t) == t3 * (6 * t2 - 15 * (u * t) + 10 * (u * u))) by (nonlinear_arith)
        requires
            fade_num(t) == t * t * t * (6 * t * t - 15 * u * t + 10 * u * u) && t2 == t * t
                && t3 == t2 * t;
    assert(t3 * (t2 + 5 * (t * s) + 10 * s2)
        == t3 * t2 + 5 * (t3 * (t * s)) + 10 * (t3 * s2)) by (nonlinear_arith);
    assert(fade_num(t) == t3 * t2 + 5 * (t3 * (t * s)) + 10 * (t3 * s2));
    // The same expansion at the mirrored argument `s == u - t`.
    assert(6 * s2 - 15 * (u * s) + 10 * (u * u) == s2 + 5 * (s * t) + 10 * t2) by (nonlinear_arith)
        requires u == s + t && t2 == t * t && s2 == s * s;
    assert(fade_num(s) == s3 * (6 * s2 - 15 * (u * s) + 10 * (u * u))) by (nonlinear_arith)
        requires
            fade_num(s) == s * s * s * (6 * s * s - 15 * u * s + 10 * u * u) && s2 == s * s
                && s3 == s2 * s;
    assert(s3 * (s2 + 5 * (s * t) + 10 * t2)
        == s3 * s2 + 5 * (s3 * (s * t)) + 10 * (s3 * t2)) by (nonlinear_arith);
    assert(fade_num(s) == s3 * s2 + 5 * (s3 * (s * t)) + 10 * (s3 * t2));
    // Term by term, the numerator at `t` is dominated by the one at `s`.
    assert(t3 * t2 <= s3 * s2 && t3 * (t * s) <= s3 * (s * t) && t3 * s2 <= s3 * t2)
        by (nonlinear_arith)
        requires
            0 <= t <= s && t2 == t * t && t3 == t2 * t && s2 == s * s && s3 == s2 * s;
    assert(fade_num(t) <= fade_num(s));
    lemma_fade_num_symmetry(t);
}

/// The fade curve never crosses the centre line before its argument
/// does: `UNIT - 2 t` and `UNIT - 2 fade(t)` share their sign.
pub proof fn lemma_fade_centered(t: int)
    requires
        0 <= t <= UNIT as int,
    ensures
        ((UNIT as int) - 2 * t) * ((UNIT as int) - 2 * spec_fade(t)) >= 0,
{
    let u = UNIT as int;
    let d = u * u * u * u;
    let half = u / 2;
    assert(d == 0x1_0000_0000_0000_0000 && half == 32768 && half * d == 0x8000_0000_0000_0000_0000
        && u * d == 0x1_0000_0000_0000_0000_0000) by (nonlinear_arith)
        requires u == 65536 && d == u * u * u * u && half == u / 2;
    if 2 * t <= u {
        lemma_fade_num_half(t);
        lemma_fade_num_range(t);
        vstd::arithmetic::div_mod::lemma_div_is_ordered(fade_num(t), half * d, d);
        vstd::arithmetic::div_mod::lemma_div_by_multiple(half, d);
        assert(spec_fade(t) <= half);
        lemma_fade_bounds(t);
        assert((u - 2 * t) * (u - 2 * spec_fade(t)) >= 0) by (nonlinear_arith)
            requires u - 2 * t >= 0 && u - 2 * spec_fade(t) >= 0;
    } else {
        lemma_fade_num_half(u - t);
        lemma_fade_num_symmetry(t);
        lemma_fade_num_range(t);
        vstd::arithmetic::div_mod::lemma_div_is_ordered(half * d, fade_num(t), d);
        vstd::arithmetic::div_mod::lemma_div_by_multiple(half, d);
        assert(spec_fade(t) >= half);
        lemma_fade_bounds(t);
        assert((u - 2 * t) * (u - 2 * spec_fade(t)) >= 0) by (nonlinear_arith)
            requires u - 2 * t <= 0 && u - 2 * spec_fade(t) <= 0;
    }
}

/// The fade curve stays within `[0, UNIT]` on `[0, UNIT]`.
pub proof fn lemma_fade_bounds(t: int)
    requires
        0 <= t <= UNIT as int,
    ensures
        0 <= spec_fade(t) <= UNIT as int,
{
    let u = UNIT as int;
    let d = u * u * u * u;
    lemma_fade_num_range(t);
    assert(d > 0) by (nonlinear_arith)
        requires d == u * u * u * u && u > 0;
    assert(u * d == u * u * u * u * u) by (nonlinear_arith)
        requires d == u * u * u * u;
    vstd::arithmetic::div_mod::lemma_div_is_ordered(0, fade_num(t), d);
    vstd::arithmetic::div_mod::lemma_div_is_ordered(fade_num(t), u * d, d);
    vstd::arithmetic::div_mod::lemma_div_by_multiple(u, d);
}

/// The quintic fade curve `6 t^5 - 15 t^4 + 10 t^3` over `[0, UNIT]`,
/// used to smooth fractional lattice offsets.
pub fn fade(t: i64) -> (r: i64)
    requires
        0 <= t <= UNIT,
    ensures
        r == spec_fade(t as int),
        0 <= r <= UNIT,
{
    proof {
        lemma_fade_num_range(t as int);
        lemma_fade_bounds(t as int);
    }
    let u: i128 = UNIT as i128;
    let t1: i128 = t as i128;
    assert(0 <= t1 * t1 <= 0x1_0000_0000 && 0 <= u * t1 <= 0x1_0000_0000
        && u * u == 0x1_0000_0000) by (nonlinear_arith)
        requires 0 <= t1 <= 65536 && u == 65536;
    let t2: i128 = t1 * t1;
    assert(0 <= t2 * t1 <= 0x1_0000_0000_0000) by (nonlinear_arith)
        requires 0 <= t1 <= 65536 && 0 <= t2 <= 0x1_0000_0000;
    let t3: i128 = t2 * t1;
    let quad: i128 = 6 * t2 - 15 * (u * t1) + 10 * (u * u);
    proof {
        lemma_mul_abs_bound(t3 as int, 0x1_0000_0000_0000, quad as int, 0x10_0000_0000_0000);
    }
    let num: i128 = t3 * quad;
    let den: i128 = u * u * u * u;
    assert(den == 0x1_0000_0000_0000_0000) by (nonlinear_arith)
        requires u == 65536 && den == u * u * u * u;
    assert(num == fade_num(t as int)) by (nonlinear_arith)
        requires
            t1 == t as int && t2 == t1 * t1 && t3 == t2 * t1 && u == UNIT as int
                && quad == 6 * t2 - 15 * (u * t1) + 10 * (u * u) && num == t3 * quad;
    assert(num <= u * den) by (nonlinear_arith)
        requires
            num <= u * u * u * u * u && den == u * u * u * u && u > 0;
    assert(num / den == spec_fade(t as int));
    assert(num / den <= UNIT as int) by {
        vstd::arithmetic::div_mod::lemma_div_is_ordered(num as int, u * den, den as int);
        vstd::arithmetic::div_mod::lemma_div_by_multiple(u as int, den as int);
    }
    (num / den) as i64
}

} // verus!
