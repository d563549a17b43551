//! Shared lattice machinery of the gradient noise sources: coordinate
//! splitting, permutation-table lookups, gradient selection, and the
//! faded corner interpolation for one octave.

use vstd::prelude::*;
use crate::fixed::{UNIT, UNIT_SQ, spec_fade, fade, lemma_fade_bounds, lemma_fade_centered,
    lemma_mul_abs_bound};

verus! {

/// Largest accepted lattice wrap size.
pub const WRAP_MAX: usize = 65536;

/// 1.0 cubed in fixed point (scale of a product of three values): 2^48.
pub const UNIT_CB: i64 = UNIT * UNIT * UNIT;

/// Offset added to scaled coordinates before splitting them into a
/// lattice cell and a fractional part. It keeps the dividend positive
/// for every representable coordinate, and being a multiple of
/// `wrap * UNIT^2` for every accepted power-of-two `wrap`, it does not
/// change the wrapped cell index: 2^96.
pub const COORD_SHIFT: i128 = 0x1_0000_0000_0000_0000_0000_0000;

/// A permutation table: `copies` concatenated copies of a shuffled
/// index sequence `0..wrap`, so that `table[table[i] + j]` stays in
/// bounds for `i < wrap`, `j <= wrap` without a modulo.
pub open spec fn table_wf(perm: Seq<usize>, wrap: int, copies: int) -> bool {
    &&& perm.len() == copies * wrap
    &&& 2 <= copies
    &&& 1 <= wrap <= WRAP_MAX as int
    &&& forall|i: int| 0 <= i < perm.len() ==> perm[i] < wrap
}

/// The wrapped lattice cell a scaled coordinate falls in.
pub open spec fn spec_cell(x: int, freq: int, wrap: int) -> int {
    ((x * freq + COORD_SHIFT as int) / (UNIT_SQ as int)) % wrap
}

/// The fractional offset of a scaled coordinate within its lattice
/// cell, in `[0, UNIT)`.
pub open spec fn spec_frac(x: int, freq: int) -> int {
    ((x * freq + COORD_SHIFT as int) % (UNIT_SQ as int)) / (UNIT as int)
}

/// Splits the coordinate `x`, scaled by the fixed-point factor `freq`,
/// into its wrapped lattice cell and its fractional offset.
pub(crate) fn axis_split(x: i64, freq: i64, wrap: usize) -> (r: (usize, i64))
    requires
        -UNIT_SQ <= freq <= UNIT_SQ,
        1 <= wrap <= WRAP_MAX,
    ensures
        r.0 == spec_cell(x as int, freq as int, wrap as int),
        r.0 < wrap,
        r.1 == spec_frac(x as int, freq as int),
        0 <= r.1 < UNIT,
{
    proof {
        assert(-0x8000_0000_0000_0000_0000_0000 <= (x as int) * (freq as int)
            <= 0x8000_0000_0000_0000_0000_0000) by (nonlinear_arith)
            requires
                -0x8000_0000_0000_0000 <= x as int <= 0x7FFF_FFFF_FFFF_FFFF
                    && -0x1_0000_0000 <= freq as int <= 0x1_0000_0000;
    }
    let p: i128 = (x as i128) * (freq as i128) + COORD_SHIFT;
    let cell: i128 = p / (UNIT_SQ as i128);
    proof {
        vstd::arithmetic::div_mod::lemma_div_pos_is_pos(p as int, UNIT_SQ as int);
        vstd::arithmetic::div_mod::lemma_mod_bound(cell as int, wrap as int);
        vstd::arithmetic::div_mod::lemma_mod_bound(p as int, UNIT_SQ as int);
        vstd::arithmetic::div_mod::lemma_div_is_ordered(
            (p as int) % (UNIT_SQ as int), UNIT_SQ - 1, UNIT as int);
        vstd::arithmetic::div_mod::lemma_div_pos_is_pos(
            (p as int) % (UNIT_SQ as int), UNIT as int);
        assert((UNIT_SQ - 1) as int / (UNIT as int) == UNIT - 1);
    }
    let m: i128 = cell % (wrap as i128);
    let frac: i128 = (p % (UNIT_SQ as i128)) / (UNIT as i128);
    (m as usize, frac as i64)
}

/// The gradient dot product at a corner for 2D noise: the low two bits
/// of the corner hash pick one of the four diagonal directions
/// `(1,1), (-1,1), (-1,-1), (1,-1)`, dotted with the offset `(ox, oy)`
/// from the corner to the sample point.
pub open spec fn spec_grad2(h: int, ox: int, oy: int) -> int {
    if h % 4 == 0 {
        ox + oy
    } else if h % 4 == 1 {
        -ox + oy
    } else if h % 4 == 2 {
        -ox - oy
    } else {
        ox - oy
    }
}

pub(crate) fn grad2_dot(h: usize, ox: i64, oy: i64) -> (r: i64)
    requires
        -UNIT <= ox <= UNIT,
        -UNIT <= oy <= UNIT,
    ensures
        r == spec_grad2(h as int, ox as int, oy as int),
        -(ox + oy) <= r <= ox + oy || -(ox - oy) <= r <= ox - oy
            || -(-ox + oy) <= r <= -ox + oy || -(-ox - oy) <= r <= -ox - oy,
{
    match h % 4 {
        0 => ox + oy,
        1 => -ox + oy,
        2 => -ox - oy,
        _ => ox - oy,
    }
}

/// The hash the doubled permutation table assigns to the 2D lattice
/// corner `(xi, yi)` through double indexing.
pub open spec fn corner2(perm: Seq<usize>, xi: int, yi: int) -> int {
    perm[perm[xi] as int + yi] as int
}

/// The faded bilinear blend of the four corner dot products, at scale
/// `UNIT^3`: `u` and `v` are the faded fractional offsets.
pub open spec fn octave2_num(bl: int, tl: int, br: int, tr: int, u: int, v: int) -> int {
    ((UNIT as int) - u) * (((UNIT as int) - v) * bl + v * tl)
        + u * (((UNIT as int) - v) * br + v * tr)
}

/// One octave of 2D gradient noise at lattice cell `(xi, yi)` with
/// fractional offsets `(xf, yf)`, back at scale `UNIT`, in
/// `[-UNIT, UNIT]`.
pub open spec fn spec_octave2(perm: Seq<usize>, xi: int, yi: int, xf: int, yf: int) -> int {
    let u = spec_fade(xf);
    let v = spec_fade(yf);
    let bl = spec_grad2(corner2(perm, xi, yi), xf, yf);
    let tl = spec_grad2(corner2(perm, xi, yi + 1), xf, yf - UNIT);
    let br = spec_grad2(corner2(perm, xi + 1, yi), xf - UNIT, yf);
    let tr = spec_grad2(corner2(perm, xi + 1, yi + 1), xf - UNIT, yf - UNIT);
    (octave2_num(bl, tl, br, tr, u, v) + UNIT_CB) / (UNIT_SQ as int) - UNIT
}

/// The bilinear blend of corner dot products is bounded by `UNIT^3`
/// whenever each corner dot product is bounded by the taxicab distance
/// from its own corner to the sample point. This is what keeps one
/// noise octave inside `[-1, 1]`.
pub proof fn lemma_octave2_num_bound(
    bl: int, tl: int, br: int, tr: int, xf: int, yf: int, u: int, v: int,
)
    requires
        0 <= xf <= UNIT as int,
        0 <= yf <= UNIT as int,
        u == spec_fade(xf),
        v == spec_fade(yf),
        -(xf + yf) <= bl <= xf + yf,
        -(xf + (UNIT - yf)) <= tl <= xf + (UNIT - yf),
        -((UNIT - xf) + yf) <= br <= (UNIT - xf) + yf,
        -((UNIT - xf) + (UNIT - yf)) <= tr <= (UNIT - xf) + (UNIT - yf),
    ensures
        -(UNIT_CB as int) <= octave2_num(bl, tl, br, tr, u, v) <= UNIT_CB as int,
{
    let q = UNIT as int;
    lemma_fade_bounds(xf);
    lemma_fade_bounds(yf);
    lemma_fade_centered(xf);
    lemma_fade_centered(yf);
    let hx = (q - u) * xf + u * (q - xf);
    let hy = (q - v) * yf + v * (q - yf);
    let a = (q - v) * bl + v * tl;
    let b = (q - v) * br + v * tr;
    assert(-(q * xf + hy) <= a <= q * xf + hy) by (nonlinear_arith)
        requires
            0 <= v <= q && -(xf + yf) <= bl <= xf + yf
                && -(xf + (q - yf)) <= tl <= xf + (q - yf) && a == (q - v) * bl + v * tl
                && hy == (q - v) * yf + v * (q - yf);
    assert(-(q * (q - xf) + hy) <= b <= q * (q - xf) + hy) by (nonlinear_arith)
        requires
            0 <= v <= q && -((q - xf) + yf) <= br <= (q - xf) + yf
                && -((q - xf) + (q - yf)) <= tr <= (q - xf) + (q - yf)
                && b == (q - v) * br + v * tr && hy == (q - v) * yf + v * (q - yf);
    assert(-(q * hx + q * hy) <= (q - u) * a + u * b <= q * hx + q * hy) by (nonlinear_arith)
        requires
            0 <= u <= q && -(q * xf + hy) <= a <= q * xf + hy
                && -(q * (q - xf) + hy) <= b <= q * (q - xf) + hy
                && hx == (q - u) * xf + u * (q - xf);
    assert(2 * hx <= q * q) by (nonlinear_arith)
        requires hx == (q - u) * xf + u * (q - xf) && (q - 2 * xf) * (q - 2 * u) >= 0;
    assert(2 * hy <= q * q) by (nonlinear_arith)
        requires hy == (q - v) * yf + v * (q - yf) && (q - 2 * yf) * (q - 2 * v) >= 0;
    assert(hx >= 0 && hy >= 0) by (nonlinear_arith)
        requires
            0 <= u <= q && 0 <= v <= q && 0 <= xf <= q && 0 <= yf <= q
                && hx == (q - u) * xf + u * (q - xf) && hy == (q - v) * yf + v * (q - yf);
    assert(q * hx + q * hy <= UNIT_CB as int) by (nonlinear_arith)
        requires 2 * hx <= q * q && 2 * hy <= q * q && q == 65536 && UNIT_CB == q * q * q;
    assert(octave2_num(bl, tl, br, tr, u, v) == (q - u) * a + u * b);
}

/// One octave of 2D gradient noise: hashes the four corners of the
/// lattice cell through the doubled permutation table, dots each
/// corner's gradient with the offset to the sample point, and blends
/// the four products with the faded fractional offsets.
pub(crate) fn octave2(perm: &Vec<usize>, wrap: usize, xi: usize, yi: usize, xf: i64, yf: i64)
    -> (r: i64)
    requires
        table_wf(perm@, wrap as int, 2),
        xi < wrap,
        yi < wrap,
        0 <= xf < UNIT,
        0 <= yf < UNIT,
    ensures
        r == spec_octave2(perm@, xi as int, yi as int, xf as int, yf as int),
        -UNIT <= r <= UNIT,
{
    let col_lo = perm[xi];
    let col_hi = perm[xi + 1];
    let v_bl = perm[col_lo + yi];
    let v_tl = perm[col_lo + yi + 1];
    let v_br = perm[col_hi + yi];
    let v_tr = perm[col_hi + yi + 1];
    let d_bl = grad2_dot(v_bl, xf, yf);
    let d_tl = grad2_dot(v_tl, xf, yf - UNIT);
    let d_br = grad2_dot(v_br, xf - UNIT, yf);
    let d_tr = grad2_dot(v_tr, xf - UNIT, yf - UNIT);
    let u = fade(xf);
    let v = fade(yf);
    proof {
        lemma_octave2_num_bound(
            d_bl as int, d_tl as int, d_br as int, d_tr as int,
            xf as int, yf as int, u as int, v as int,
        );
        lemma_mul_abs_bound((UNIT - v) as int, UNIT as int, d_bl as int, 2 * UNIT as int);
        lemma_mul_abs_bound(v as int, UNIT as int, d_tl as int, 2 * UNIT as int);
        lemma_mul_abs_bound((UNIT - v) as int, UNIT as int, d_br as int, 2 * UNIT as int);
        lemma_mul_abs_bound(v as int, UNIT as int, d_tr as int, 2 * UNIT as int);
        lemma_mul_abs_bound((UNIT - u) as int, UNIT as int,
            (UNIT - v) as int * d_bl as int + v as int * d_tl as int, 4 * UNIT_SQ as int);
        lemma_mul_abs_bound(u as int, UNIT as int,
            (UNIT - v) as int * d_br as int + v as int * d_tr as int, 4 * UNIT_SQ as int);
    }
    let n: i128 = ((UNIT - u) as i128) * (((UNIT - v) as i128) * (d_bl as i128)
            + (v as i128) * (d_tl as i128))
        + (u as i128) * (((UNIT - v) as i128) * (d_br as i128) + (v as i128) * (d_tr as i128));
    proof {
        vstd::arithmetic::div_mod::lemma_div_pos_is_pos(
            n as int + UNIT_CB as int, UNIT_SQ as int);
        vstd::arithmetic::div_mod::lemma_div_is_ordered(
            n as int + UNIT_CB as int, 2 * (UNIT_CB as int), UNIT_SQ as int);
        assert(2 * (UNIT_CB as int) == (2 * UNIT as int) * (UNIT_SQ as int)) by (nonlinear_arith)
            requires UNIT_CB == (UNIT as int) * (UNIT as int) * (UNIT as int)
                && UNIT_SQ == (UNIT as int) * (UNIT as int);
        vstd::arithmetic::div_mod::lemma_div_by_multiple(2 * UNIT as int, UNIT_SQ as int);
    }
    ((n + UNIT_CB as i128) / (UNIT_SQ as i128)) as i64 - UNIT
}

/// The gradient dot product at a corner for 3D noise: the low four
/// bits of the corner hash pick one of sixteen edge directions (each a
/// signed pair of two axes), dotted with the offset `(x, y, z)` from
/// the corner to the sample point. The table is the classic reference
/// one, duplicate final branches included.
pub open spec fn spec_grad3(h: int, x: int, y: int, z: int) -> int {
    let s = h % 16;
    if s == 0 {
        x + y
    } else if s == 1 {
        -x + y
    } else if s == 2 {
        x - y
    } else if s == 3 {
        -x - y
    } else if s == 4 {
        x + z
    } else if s == 5 {
        -x + z
    } else if s == 6 {
        x - z
    } else if s == 7 {
        -x - z
    } else if s == 8 {
        y + z
    } else if s == 9 {
        -y + z
    } else if s == 10 {
        y - z
    } else if s == 11 {
        -y - z
    } else if s == 12 {
        y + x
    } else if s == 13 {
        -y + z
    } else if s == 14 {
        y - x
    } else {
        -y - z
    }
}

pub fn grad3_dot(h: usize, x: i64, y: i64, z: i64) -> (r: i64)
    requires
        -UNIT <= x <= UNIT,
        -UNIT <= y <= UNIT,
        -UNIT <= z <= UNIT,
    ensures
        r == spec_grad3(h as int, x as int, y as int, z as int),
        -2 * UNIT <= r <= 2 * UNIT,
{
    match h % 16 {
        0 => x + y,
        1 => -x + y,
        2 => x - y,
        3 => -x - y,
        4 => x + z,
        5 => -x + z,
        6 => x - z,
        7 => -x - z,
        8 => y + z,
        9 => -y + z,
        10 => y - z,
        11 => -y - z,
        12 => y + x,
        13 => -y + z,
        14 => y - x,
        _ => -y - z,
    }
}

/// The hash the tripled permutation table assigns to the 3D lattice
/// corner `(xi, yi, zi)` through triple indexing.
pub open spec fn corner3(perm: Seq<usize>, xi: int, yi: int, zi: int) -> int {
    perm[perm[perm[xi] as int + yi] as int + zi] as int
}

/// The faded trilinear blend of the eight corner dot products, at scale
/// `UNIT^4`. Corner names give the low/high side per axis, x first.
#[verifier::inline]
pub open spec fn octave3_num(
    aaa: int, baa: int, aba: int, bba: int, aab: int, bab: int, abb: int, bbb: int,
    u: int, v: int, w: int,
) -> int {
    ((UNIT as int) - w) * (((UNIT as int) - v) * (((UNIT as int) - u) * aaa + u * baa)
            + v * (((UNIT as int) - u) * aba + u * bba))
        + w * (((UNIT as int) - v) * (((UNIT as int) - u) * aab + u * bab)
            + v * (((UNIT as int) - u) * abb + u * bbb))
}

/// One octave of 3D gradient noise at lattice cell `(xi, yi, zi)` with
/// fractional offsets `(xf, yf, zf)`, back at scale `UNIT`, within
/// `[-2 UNIT, 2 UNIT]` (each gradient is a signed pair of axes, so a
/// corner dot product never exceeds twice the unit).
pub open spec fn spec_octave3(
    perm: Seq<usize>, xi: int, yi: int, zi: int, xf: int, yf: int, zf: int,
) -> int {
    let q = UNIT as int;
    let u = spec_fade(xf);
    let v = spec_fade(yf);
    let w = spec_fade(zf);
    let n = octave3_num(
        spec_grad3(corner3(perm, xi, yi, zi), xf, yf, zf),
        spec_grad3(corner3(perm, xi + 1, yi, zi), xf - q, yf, zf),
        spec_grad3(corner3(perm, xi, yi + 1, zi), xf, yf - q, zf),
        spec_grad3(corner3(perm, xi + 1, yi + 1, zi), xf - q, yf - q, zf),
        spec_grad3(corner3(perm, xi, yi, zi + 1), xf, yf, zf - q),
        spec_grad3(corner3(perm, xi + 1, yi, zi + 1), xf - q, yf, zf - q),
        spec_grad3(corner3(perm, xi, yi + 1, zi + 1), xf, yf - q, zf - q),
        spec_grad3(corner3(perm, xi + 1, yi + 1, zi + 1), xf - q, yf - q, zf - q),
        u, v, w,
    );
    (n + 2 * ((UNIT_CB as int) * q)) / (UNIT_CB as int) - 2 * q
}

/// A blend `(q - v) * a + v * b` with `0 <= v <= q` of two values with
/// symmetric bounds is bounded by the same blend of the bounds.
pub proof fn lemma_blend_bound(a: int, ba: int, b: int, bb: int, v: int, q: int)
    by (nonlinear_arith)
    requires
        0 <= v <= q,
        -ba <= a <= ba,
        -bb <= b <= bb,
    ensures
        -((q - v) * ba + v * bb) <= (q - v) * a + v * b <= (q - v) * ba + v * bb,
{
}

/// The trilinear blend of corner dot products is bounded by
/// `2 UNIT^4` whenever each corner dot product is bounded by `2 UNIT`,
/// since every blend stage is a convex combination at scale `UNIT`.
pub proof fn lemma_octave3_num_bound(
    aaa: int, baa: int, aba: int, bba: int, aab: int, bab: int, abb: int, bbb: int,
    u: int, v: int, w: int,
)
    requires
        0 <= u <= UNIT as int,
        0 <= v <= UNIT as int,
        0 <= w <= UNIT as int,
        -2 * UNIT <= aaa <= 2 * UNIT,
        -2 * UNIT <= baa <= 2 * UNIT,
        -2 * UNIT <= aba <= 2 * UNIT,
        -2 * UNIT <= bba <= 2 * UNIT,
        -2 * UNIT <= aab <= 2 * UNIT,
        -2 * UNIT <= bab <= 2 * UNIT,
        -2 * UNIT <= abb <= 2 * UNIT,
        -2 * UNIT <= bbb <= 2 * UNIT,
    ensures
        -2 * ((UNIT_CB as int) * (UNIT as int))
            <= octave3_num(aaa, baa, aba, bba, aab, bab, abb, bbb, u, v, w)
            <= 2 * ((UNIT_CB as int) * (UNIT as int)),
{
    let q = UNIT as int;
    let b0: int = 2 * q;
    let b1: int = 0x2_0000_0000;
    let b2: int = 0x2_0000_0000_0000;
    let b3: int = 0x2_0000_0000_0000_0000;
    lemma_blend_bound(aaa, b0, baa, b0, u, q);
    lemma_blend_bound(aba, b0, bba, b0, u, q);
    lemma_blend_bound(aab, b0, bab, b0, u, q);
    lemma_blend_bound(abb, b0, bbb, b0, u, q);
    let xaa = (q - u) * aaa + u * baa;
    let xba = (q - u) * aba + u * bba;
    let xab = (q - u) * aab + u * bab;
    let xbb = (q - u) * abb + u * bbb;
    assert((q - u) * b0 + u * b0 == b1) by (nonlinear_arith)
        requires q == 65536 && b0 == 131072 && b1 == 0x2_0000_0000;
    lemma_blend_bound(xaa, b1, xba, b1, v, q);
    lemma_blend_bound(xab, b1, xbb, b1, v, q);
    let ya = (q - v) * xaa + v * xba;
    let yb = (q - v) * xab + v * xbb;
    assert((q - v) * b1 + v * b1 == b2) by (nonlinear_arith)
        requires q == 65536 && b1 == 0x2_0000_0000 && b2 == 0x2_0000_0000_0000;
    lemma_blend_bound(ya, b2, yb, b2, w, q);
    assert((q - w) * b2 + w * b2 == b3) by (nonlinear_arith)
        requires q == 65536 && b2 == 0x2_0000_0000_0000 && b3 == 0x2_0000_0000_0000_0000;
    assert(2 * ((UNIT_CB as int) * (UNIT as int)) == b3);
    assert(octave3_num(aaa, baa, aba, bba, aab, bab, abb, bbb, u, v, w)
        == (q - w) * ya + w * yb);
}

/// One octave of 3D gradient noise: hashes the eight corners of the
/// lattice cell through the tripled permutation table, dots each
/// corner's gradient with the offset to the sample point, and blends
/// the eight products with the faded fractional offsets.
pub(crate) fn octave3(
    perm: &Vec<usize>, wrap: usize, xi: usize, yi: usize, zi: usize, xf: i64, yf: i64, zf: i64,
) -> (r: i64)
    requires
        table_wf(perm@, wrap as int, 3),
        xi < wrap,
        yi < wrap,
        zi < wrap,
        0 <= xf < UNIT,
        0 <= yf < UNIT,
        0 <= zf < UNIT,
    ensures
        r == spec_octave3(perm@, xi as int, yi as int, zi as int, xf as int, yf as int, zf as int),
        -2 * UNIT <= r <= 2 * UNIT,
{
    let col_lo = perm[xi];
    let col_hi = perm[xi + 1];
    let row_ll = perm[col_lo + yi];
    let row_lh = perm[col_lo + yi + 1];
    let row_hl = perm[col_hi + yi];
    let row_hh = perm[col_hi + yi + 1];
    let h_aaa = perm[row_ll + zi];
    let h_aab = perm[row_ll + zi + 1];
    let h_aba = perm[row_lh + zi];
    let h_abb = perm[row_lh + zi + 1];
    let h_baa = perm[row_hl + zi];
    let h_bab = perm[row_hl + zi + 1];
    let h_bba = perm[row_hh + zi];
    let h_bbb = perm[row_hh + zi + 1];
    let d_aaa = grad3_dot(h_aaa, xf, yf, zf);
    let d_baa = grad3_dot(h_baa, xf - UNIT, yf, zf);
    let d_aba = grad3_dot(h_aba, xf, yf - UNIT, zf);
    let d_bba = grad3_dot(h_bba, xf - UNIT, yf - UNIT, zf);
    let d_aab = grad3_dot(h_aab, xf, yf, zf - UNIT);
    let d_bab = grad3_dot(h_bab, xf - UNIT, yf, zf - UNIT);
    let d_abb = grad3_dot(h_abb, xf, yf - UNIT, zf - UNIT);
    let d_bbb = grad3_dot(h_bbb, xf - UNIT, yf - UNIT, zf - UNIT);
    let u = fade(xf);
    let v = fade(yf);
    let w = fade(zf);
    proof {
        lemma_octave3_num_bound(
            d_aaa as int, d_baa as int, d_aba as int, d_bba as int,
            d_aab as int, d_bab as int, d_abb as int, d_bbb as int,
            u as int, v as int, w as int,
        );
        lemma_mul_abs_bound((UNIT - u) as int, UNIT as int, d_aaa as int, 3 * UNIT as int);
        lemma_mul_abs_bound(u as int, UNIT as int, d_baa as int, 3 * UNIT as int);
        lemma_mul_abs_bound((UNIT - u) as int, UNIT as int, d_aba as int, 3 * UNIT as int);
        lemma_mul_abs_bound(u as int, UNIT as int, d_bba as int, 3 * UNIT as int);
        lemma_mul_abs_bound((UNIT - u) as int, UNIT as int, d_aab as int, 3 * UNIT as int);
        lemma_mul_abs_bound(u as int, UNIT as int, d_bab as int, 3 * UNIT as int);
        lemma_mul_abs_bound((UNIT - u) as int, UNIT as int, d_abb as int, 3 * UNIT as int);
        lemma_mul_abs_bound(u as int, UNIT as int, d_bbb as int, 3 * UNIT as int);
    }
    let xaa: i128 = ((UNIT - u) as i128) * (d_aaa as i128) + (u as i128) * (d_baa as i128);
    let xba: i128 = ((UNIT - u) as i128) * (d_aba as i128) + (u as i128) * (d_bba as i128);
    let xab: i128 = ((UNIT - u) as i128) * (d_aab as i128) + (u as i128) * (d_bab as i128);
    let xbb: i128 = ((UNIT - u) as i128) * (d_abb as i128) + (u as i128) * (d_bbb as i128);
    proof {
        lemma_mul_abs_bound((UNIT - v) as int, UNIT as int, xaa as int, 6 * UNIT_SQ as int);
        lemma_mul_abs_bound(v as int, UNIT as int, xba as int, 6 * UNIT_SQ as int);
        lemma_mul_abs_bound((UNIT - v) as int, UNIT as int, xab as int, 6 * UNIT_SQ as int);
        lemma_mul_abs_bound(v as int, UNIT as int, xbb as int, 6 * UNIT_SQ as int);
    }
    let ya: i128 = ((UNIT - v) as i128) * xaa + (v as i128) * xba;
    let yb: i128 = ((UNIT - v) as i128) * xab + (v as i128) * xbb;
    proof {
        lemma_mul_abs_bound((UNIT - w) as int, UNIT as int, ya as int, 12 * UNIT_CB as int);
        lemma_mul_abs_bound(w as int, UNIT as int, yb as int, 12 * UNIT_CB as int);
    }
    let n: i128 = ((UNIT - w) as i128) * ya + (w as i128) * yb;
    let shift: i128 = 2 * (UNIT_CB as i128) * (UNIT as i128);
    proof {
        let m = n as int + shift as int;
        assert(shift as int == 2 * ((UNIT_CB as int) * (UNIT as int))) by (nonlinear_arith)
            requires shift as int == 2 * (UNIT_CB as int) * (UNIT as int);
        assert(0 <= m <= 262144 * (UNIT_CB as int));
        vstd::arithmetic::div_mod::lemma_div_pos_is_pos(m, UNIT_CB as int);
        vstd::arithmetic::div_mod::lemma_div_is_ordered(
            m, 262144 * (UNIT_CB as int), UNIT_CB as int);
        vstd::arithmetic::div_mod::lemma_div_by_multiple(262144, UNIT_CB as int);
    }
    ((n + shift) / (UNIT_CB as i128)) as i64 - 2 * UNIT
}

} // verus!
