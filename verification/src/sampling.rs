//! The full multi-octave samplers shared by the gradient noise
//! sources: permutation-table construction and the weighted octave
//! accumulation, in two and three dimensions.

use vstd::prelude::*;
use crate::fixed::{UNIT, UNIT_SQ, lemma_mul_abs_bound};
use crate::gradient::{WRAP_MAX, UNIT_CB, table_wf, spec_cell, spec_frac, spec_octave2,
    spec_octave3, octave2_num, octave3_num, spec_grad2, spec_grad3, corner2, corner3,
    lemma_octave2_num_bound, lemma_octave3_num_bound, axis_split, octave2, octave3};
use crate::layers::{sum_weights, layer_in_bounds, lemma_sum_weights_bounds};
use crate::seeded::{shuffled_of, shuffled_indices};
use crate::fixed::{spec_fade, lemma_fade_bounds};

verus! {

/// `n` is a power of two.
pub open spec fn is_pow2(n: int) -> bool
    decreases n,
{
    if n <= 0 {
        false
    } else if n == 1 {
        true
    } else {
        n % 2 == 0 && is_pow2(n / 2)
    }
}

/// Decides whether `n` is a power of two by stripping factors of two.
pub fn check_pow2(n: usize) -> (r: bool)
    ensures
        r == is_pow2(n as int),
{
    if n == 0 {
        return false;
    }
    let mut m: usize = n;
    while m > 1 && m % 2 == 0
        invariant
            1 <= m <= n,
            is_pow2(n as int) == is_pow2(m as int),
        decreases m,
    {
        m = m / 2;
    }
    m == 1
}

/// `copies` concatenated copies of a sequence.
pub open spec fn repeat_seq(s: Seq<usize>, copies: int) -> Seq<usize>
    decreases copies,
{
    if copies <= 0 {
        Seq::empty()
    } else {
        repeat_seq(s, copies - 1) + s
    }
}

proof fn lemma_repeat_seq_props(s: Seq<usize>, copies: int, wrap: int)
    requires
        0 <= copies,
        s.len() == wrap,
        forall|i: int| 0 <= i < s.len() ==> s[i] < wrap,
    ensures
        repeat_seq(s, copies).len() == copies * wrap,
        forall|i: int| 0 <= i < repeat_seq(s, copies).len() ==> repeat_seq(s, copies)[i] < wrap,
    decreases copies,
{
    if copies > 0 {
        lemma_repeat_seq_props(s, copies - 1, wrap);
        assert(copies * wrap == (copies - 1) * wrap + wrap) by (nonlinear_arith);
    }
}

/// Builds a permutation table: the seed-shuffled indices `0..wrap`,
/// self-concatenated `copies` times so that chained lookups stay in
/// bounds without a modulo.
pub(crate) fn build_table(wrap: usize, seed: u64, copies: usize) -> (t: Vec<usize>)
    requires
        1 <= wrap <= WRAP_MAX,
        2 <= copies <= 3,
    ensures
        t@ == repeat_seq(shuffled_of(wrap, seed), copies as int),
        table_wf(t@, wrap as int, copies as int),
{
    let base = shuffled_indices(wrap, seed);
    let mut t: Vec<usize> = Vec::new();
    let mut c: usize = 0;
    while c < copies
        invariant
            0 <= c <= copies,
            copies <= 3,
            wrap <= WRAP_MAX,
            base@ == shuffled_of(wrap, seed),
            base@.len() == wrap as int,
            forall|i: int| 0 <= i < base@.len() ==> base@[i] < wrap,
            t@ == repeat_seq(base@, c as int),
        decreases copies - c,
    {
        let mut j: usize = 0;
        while j < wrap
            invariant
                0 <= j <= wrap,
                wrap <= WRAP_MAX,
                base@.len() == wrap as int,
                t@ == repeat_seq(base@, c as int) + base@.take(j as int),
            decreases wrap - j,
        {
            t.push(base[j]);
            proof {
                assert(t@ =~= repeat_seq(base@, c as int) + base@.take(j as int + 1));
            }
            j = j + 1;
        }
        proof {
            assert(base@.take(wrap as int) =~= base@);
            assert(t@ =~= repeat_seq(base@, c as int + 1));
        }
        c = c + 1;
    }
    proof {
        lemma_repeat_seq_props(base@, copies as int, wrap as int);
    }
    t
}

/// One octave of 2D noise stays within one unit of either sign.
pub proof fn lemma_octave2_range(perm: Seq<usize>, wrap: int, xi: int, yi: int, xf: int, yf: int)
    requires
        table_wf(perm, wrap, 2),
        0 <= xi < wrap,
        0 <= yi < wrap,
        0 <= xf < UNIT as int,
        0 <= yf < UNIT as int,
    ensures
        -UNIT <= spec_octave2(perm, xi, yi, xf, yf) <= UNIT,
{
    let u = spec_fade(xf);
    let v = spec_fade(yf);
    assert(2 * wrap <= perm.len());
    let bl = spec_grad2(corner2(perm, xi, yi), xf, yf);
    let tl = spec_grad2(corner2(perm, xi, yi + 1), xf, yf - UNIT);
    let br = spec_grad2(corner2(perm, xi + 1, yi), xf - UNIT, yf);
    let tr = spec_grad2(corner2(perm, xi + 1, yi + 1), xf - UNIT, yf - UNIT);
    lemma_octave2_num_bound(bl, tl, br, tr, xf, yf, u, v);
    let n = octave2_num(bl, tl, br, tr, u, v);
    vstd::arithmetic::div_mod::lemma_div_pos_is_pos(n + UNIT_CB, UNIT_SQ as int);
    vstd::arithmetic::div_mod::lemma_div_is_ordered(n + UNIT_CB, 2 * (UNIT_CB as int),
        UNIT_SQ as int);
    assert(2 * (UNIT_CB as int) == (2 * UNIT as int) * (UNIT_SQ as int)) by (nonlinear_arith)
        requires
            UNIT_CB == (UNIT as int) * (UNIT as int) * (UNIT as int)
                && UNIT_SQ == (UNIT as int) * (UNIT as int);
    vstd::arithmetic::div_mod::lemma_div_by_multiple(2 * UNIT as int, UNIT_SQ as int);
}

/// One octave of 3D noise stays within two units of either sign.
pub proof fn lemma_octave3_range(
    perm: Seq<usize>, wrap: int, xi: int, yi: int, zi: int, xf: int, yf: int, zf: int,
)
    requires
        table_wf(perm, wrap, 3),
        0 <= xi < wrap,
        0 <= yi < wrap,
        0 <= zi < wrap,
        0 <= xf < UNIT as int,
        0 <= yf < UNIT as int,
        0 <= zf < UNIT as int,
    ensures
        -2 * UNIT <= spec_octave3(perm, xi, yi, zi, xf, yf, zf) <= 2 * UNIT,
{
    let q = UNIT as int;
    let u = spec_fade(xf);
    let v = spec_fade(yf);
    let w = spec_fade(zf);
    lemma_fade_bounds(xf);
    lemma_fade_bounds(yf);
    lemma_fade_bounds(zf);
    assert(3 * wrap <= perm.len());
    let aaa = spec_grad3(corner3(perm, xi, yi, zi), xf, yf, zf);
    let baa = spec_grad3(corner3(perm, xi + 1, yi, zi), xf - q, yf, zf);
    let aba = spec_grad3(corner3(perm, xi, yi + 1, zi), xf, yf - q, zf);
    let bba = spec_grad3(corner3(perm, xi + 1, yi + 1, zi), xf - q, yf - q, zf);
    let aab = spec_grad3(corner3(perm, xi, yi, zi + 1), xf, yf, zf - q);
    let bab = spec_grad3(corner3(perm, xi + 1, yi, zi + 1), xf - q, yf, zf - q);
    let abb = spec_grad3(corner3(perm, xi, yi + 1, zi + 1), xf, yf - q, zf - q);
    let bbb = spec_grad3(corner3(perm, xi + 1, yi + 1, zi + 1), xf - q, yf - q, zf - q);
    lemma_octave3_num_bound(aaa, baa, aba, bba, aab, bab, abb, bbb, u, v, w);
    let n = octave3_num(aaa, baa, aba, bba, aab, bab, abb, bbb, u, v, w);
    let shift = 2 * ((UNIT_CB as int) * q);
    vstd::arithmetic::div_mod::lemma_div_pos_is_pos(n + shift, UNIT_CB as int);
    vstd::arithmetic::div_mod::lemma_div_is_ordered(n + shift, 2 * shift, UNIT_CB as int);
    assert(2 * shift == 262144 * (UNIT_CB as int)) by (nonlinear_arith)
        requires shift == 2 * ((UNIT_CB as int) * q) && q == 65536;
    vstd::arithmetic::div_mod::lemma_div_by_multiple(262144, UNIT_CB as int);
}

/// The contribution of one layer to a 2D sample: the octave at the
/// layer's frequency, weighted by its normalized weight.
pub open spec fn octave_term2(perm: Seq<usize>, wrap: int, layer: (i64, i64), x: int, y: int)
    -> int {
    spec_octave2(
        perm,
        spec_cell(x, layer.1 as int, wrap),
        spec_cell(y, layer.1 as int, wrap),
        spec_frac(x, layer.1 as int),
        spec_frac(y, layer.1 as int),
    ) * layer.0
}

/// The weighted octave sum of the first `k` layers of a 2D sample.
pub open spec fn layer_acc2(
    perm: Seq<usize>, wrap: int, layers: Seq<(i64, i64)>, x: int, y: int, k: int,
) -> int
    decreases k,
{
    if k <= 0 {
        0
    } else {
        layer_acc2(perm, wrap, layers, x, y, k - 1) + octave_term2(perm, wrap, layers[k - 1], x, y)
    }
}

/// A full 2D gradient-noise sample: the weighted octave sum over all
/// layers, scaled back by one unit and mapped from `[-1, 1]` to
/// `[0, 1]`.
pub open spec fn spec_noise2(
    perm: Seq<usize>, wrap: int, layers: Seq<(i64, i64)>, x: int, y: int,
) -> int {
    let acc = layer_acc2(perm, wrap, layers, x, y, layers.len() as int);
    let total = (acc + UNIT_SQ) / (UNIT as int) - UNIT;
    ((UNIT as int) + total) / 2
}

/// Stored layers of a live noise source: normalized weights and
/// bounded frequencies whose weight sum is at most one unit.
pub open spec fn stored_layers_wf(layers: Seq<(i64, i64)>) -> bool {
    &&& 1 <= layers.len() <= crate::layers::LAYERS_MAX
    &&& forall|i: int| 0 <= i < layers.len() ==> (0 <= (#[trigger] layers[i]).0 <= UNIT
        && -UNIT_SQ <= layers[i].1 <= UNIT_SQ)
    &&& sum_weights(layers, layers.len() as int) <= UNIT
}

/// Samples multi-octave 2D gradient noise over a doubled permutation
/// table: the full pipeline of scaling, splitting, corner blending and
/// weight accumulation. The result always lies in `[0, UNIT]`.
pub(crate) fn sample2(
    perm: &Vec<usize>, wrap: usize, layers: &Vec<(i64, i64)>, x: i64, y: i64,
) -> (r: i64)
    requires
        table_wf(perm@, wrap as int, 2),
        stored_layers_wf(layers@),
    ensures
        r == spec_noise2(perm@, wrap as int, layers@, x as int, y as int),
        0 <= r <= UNIT,
{
    let ghost gperm = perm@;
    let ghost glayers = layers@;
    let mut acc: i64 = 0;
    let mut k: usize = 0;
    while k < layers.len()
        invariant
            table_wf(gperm, wrap as int, 2),
            stored_layers_wf(glayers),
            perm@ == gperm,
            layers@ == glayers,
            0 <= k <= glayers.len(),
            acc == layer_acc2(gperm, wrap as int, glayers, x as int, y as int, k as int),
            -((UNIT as int) * sum_weights(glayers, k as int)) <= acc,
            acc <= (UNIT as int) * sum_weights(glayers, k as int),
        decreases glayers.len() - k,
    {
        let (nw, freq) = layers[k];
        let (xi, xf) = axis_split(x, freq, wrap);
        let (yi, yf) = axis_split(y, freq, wrap);
        let oct = octave2(perm, wrap, xi, yi, xf, yf);
        proof {
            lemma_sum_weights_bounds_stored(glayers, k as int + 1);
            lemma_sum_weights_bounds_stored(glayers, k as int);
            lemma_mul_abs_bound(nw as int, nw as int, oct as int, UNIT as int);
            assert((oct as int) * (nw as int) == (nw as int) * (oct as int)) by (nonlinear_arith);
            assert((UNIT as int) * (sum_weights(glayers, k as int) + nw as int)
                == (UNIT as int) * sum_weights(glayers, k as int) + (UNIT as int) * (nw as int)
                && (nw as int) * (UNIT as int) == (UNIT as int) * (nw as int))
                by (nonlinear_arith);
            assert(0 <= (UNIT as int) * sum_weights(glayers, k as int)
                <= (UNIT as int) * (UNIT as int)) by (nonlinear_arith)
                requires 0 <= sum_weights(glayers, k as int) <= UNIT as int;
        }
        acc = acc + oct * nw;
        k = k + 1;
    }
    proof {
        lemma_sum_weights_bounds_stored(glayers, glayers.len() as int);
        assert((UNIT as int) * sum_weights(glayers, glayers.len() as int)
            <= (UNIT as int) * (UNIT as int)) by (nonlinear_arith)
            requires 0 <= sum_weights(glayers, glayers.len() as int) <= UNIT as int;
        vstd::arithmetic::div_mod::lemma_div_pos_is_pos(acc as int + UNIT_SQ as int, UNIT as int);
        vstd::arithmetic::div_mod::lemma_div_is_ordered(acc as int + UNIT_SQ as int,
            2 * (UNIT_SQ as int), UNIT as int);
        assert(2 * (UNIT_SQ as int) == (2 * UNIT as int) * (UNIT as int)) by (nonlinear_arith)
            requires UNIT_SQ == (UNIT as int) * (UNIT as int);
        vstd::arithmetic::div_mod::lemma_div_by_multiple(2 * UNIT as int, UNIT as int);
    }
    let total = (acc + UNIT_SQ) / UNIT - UNIT;
    (UNIT + total) / 2
}

/// Prefix weight sums of stored layers stay within `[0, UNIT]`.
proof fn lemma_sum_weights_bounds_stored(layers: Seq<(i64, i64)>, k: int)
    requires
        0 <= k <= layers.len(),
        stored_layers_wf(layers),
    ensures
        0 <= sum_weights(layers, k) <= sum_weights(layers, layers.len() as int),
{
    assert(forall|i: int| 0 <= i < layers.len() ==> layer_in_bounds(#[trigger] layers[i]));
    lemma_sum_weights_bounds(layers, k);
}

/// A sampled 2D value lies in `[0, UNIT]` for every well-formed source
/// and every input.
pub proof fn lemma_noise2_range(
    perm: Seq<usize>, wrap: int, layers: Seq<(i64, i64)>, x: int, y: int,
)
    requires
        table_wf(perm, wrap, 2),
        stored_layers_wf(layers),
    ensures
        0 <= spec_noise2(perm, wrap, layers, x, y) <= UNIT,
{
    lemma_layer_acc2_range(perm, wrap, layers, x, y, layers.len() as int);
    let acc = layer_acc2(perm, wrap, layers, x, y, layers.len() as int);
    lemma_sum_weights_bounds_stored(layers, layers.len() as int);
    assert((UNIT as int) * sum_weights(layers, layers.len() as int)
        <= (UNIT as int) * (UNIT as int)) by (nonlinear_arith)
        requires 0 <= sum_weights(layers, layers.len() as int) <= UNIT as int;
    vstd::arithmetic::div_mod::lemma_div_pos_is_pos(acc + UNIT_SQ as int, UNIT as int);
    vstd::arithmetic::div_mod::lemma_div_is_ordered(acc + UNIT_SQ as int, 2 * (UNIT_SQ as int),
        UNIT as int);
    assert(2 * (UNIT_SQ as int) == (2 * UNIT as int) * (UNIT as int)) by (nonlinear_arith)
        requires UNIT_SQ == (UNIT as int) * (UNIT as int);
    vstd::arithmetic::div_mod::lemma_div_by_multiple(2 * UNIT as int, UNIT as int);
}

/// The weighted octave sum of any prefix of stored layers is bounded
/// by one unit times the prefix weight sum.
proof fn lemma_layer_acc2_range(
    perm: Seq<usize>, wrap: int, layers: Seq<(i64, i64)>, x: int, y: int, k: int,
)
    requires
        table_wf(perm, wrap, 2),
        stored_layers_wf(layers),
        0 <= k <= layers.len(),
    ensures
        -((UNIT as int) * sum_weights(layers, k)) <= layer_acc2(perm, wrap, layers, x, y, k),
        layer_acc2(perm, wrap, layers, x, y, k) <= (UNIT as int) * sum_weights(layers, k),
    decreases k,
{
    if k > 0 {
        lemma_layer_acc2_range(perm, wrap, layers, x, y, k - 1);
        let l = layers[k - 1];
        let f = l.1 as int;
        vstd::arithmetic::div_mod::lemma_mod_bound(
            (x * f + crate::gradient::COORD_SHIFT as int) / (UNIT_SQ as int), wrap);
        vstd::arithmetic::div_mod::lemma_mod_bound(
            (y * f + crate::gradient::COORD_SHIFT as int) / (UNIT_SQ as int), wrap);
        vstd::arithmetic::div_mod::lemma_mod_bound(x * f + crate::gradient::COORD_SHIFT as int,
            UNIT_SQ as int);
        vstd::arithmetic::div_mod::lemma_mod_bound(y * f + crate::gradient::COORD_SHIFT as int,
            UNIT_SQ as int);
        vstd::arithmetic::div_mod::lemma_div_pos_is_pos(
            (x * f + crate::gradient::COORD_SHIFT as int) % (UNIT_SQ as int), UNIT as int);
        vstd::arithmetic::div_mod::lemma_div_pos_is_pos(
            (y * f + crate::gradient::COORD_SHIFT as int) % (UNIT_SQ as int), UNIT as int);
        vstd::arithmetic::div_mod::lemma_div_is_ordered(
            (x * f + crate::gradient::COORD_SHIFT as int) % (UNIT_SQ as int), UNIT_SQ - 1,
            UNIT as int);
        vstd::arithmetic::div_mod::lemma_div_is_ordered(
            (y * f + crate::gradient::COORD_SHIFT as int) % (UNIT_SQ as int), UNIT_SQ - 1,
            UNIT as int);
        assert((UNIT_SQ - 1) as int / (UNIT as int) == UNIT - 1);
        lemma_octave2_range(perm, wrap, spec_cell(x, f, wrap), spec_cell(y, f, wrap),
            spec_frac(x, f), spec_frac(y, f));
        lemma_mul_abs_bound(l.0 as int, l.0 as int,
            spec_octave2(perm, spec_cell(x, f, wrap), spec_cell(y, f, wrap), spec_frac(x, f),
                spec_frac(y, f)), UNIT as int);
        lemma_sum_weights_bounds_stored(layers, k);
        lemma_sum_weights_bounds_stored(layers, k - 1);
        assert((UNIT as int) * sum_weights(layers, k)
            == (UNIT as int) * sum_weights(layers, k - 1) + (UNIT as int) * (l.0 as int)
            && (l.0 as int) * (UNIT as int) == (UNIT as int) * (l.0 as int))
            by (nonlinear_arith)
            requires sum_weights(layers, k) == sum_weights(layers, k - 1) + l.0 as int;
    }
}


/// The contribution of one layer to a 3D sample.
pub open spec fn octave_term3(
    perm: Seq<usize>, wrap: int, layer: (i64, i64), x: int, y: int, z: int,
) -> int {
    spec_octave3(
        perm,
        spec_cell(x, layer.1 as int, wrap),
        spec_cell(y, layer.1 as int, wrap),
        spec_cell(z, layer.1 as int, wrap),
        spec_frac(x, layer.1 as int),
        spec_frac(y, layer.1 as int),
        spec_frac(z, layer.1 as int),
    ) * layer.0
}

/// The weighted octave sum of the first `k` layers of a 3D sample.
pub open spec fn layer_acc3(
    perm: Seq<usize>, wrap: int, layers: Seq<(i64, i64)>, x: int, y: int, z: int, k: int,
) -> int
    decreases k,
{
    if k <= 0 {
        0
    } else {
        layer_acc3(perm, wrap, layers, x, y, z, k - 1)
            + octave_term3(perm, wrap, layers[k - 1], x, y, z)
    }
}

/// A full 3D gradient-noise sample: the weighted octave sum over all
/// layers, scaled back by one unit, mapped through `(1 + total) / 2`
/// (written with a nonnegative dividend) and clamped onto `[0, 1]`.
/// The clamp is needed because a 3D corner gradient is a signed pair
/// of axes whose dot product can reach twice the unit, so in rare
/// corner cases the raw mapped value leaves `[0, 1]` by up to half a
/// unit.
pub open spec fn spec_noise3(
    perm: Seq<usize>, wrap: int, layers: Seq<(i64, i64)>, x: int, y: int, z: int,
) -> int {
    let acc = layer_acc3(perm, wrap, layers, x, y, z, layers.len() as int);
    let total = (acc + 2 * UNIT_SQ) / (UNIT as int) - 2 * UNIT;
    let mapped = (5 * (UNIT as int) + total) / 2 - 2 * UNIT;
    if mapped < 0 {
        0
    } else if mapped > UNIT as int {
        UNIT as int
    } else {
        mapped
    }
}

/// Samples multi-octave 3D gradient noise over a tripled permutation
/// table. The result always lies in `[0, UNIT]`.
pub(crate) fn sample3(
    perm: &Vec<usize>, wrap: usize, layers: &Vec<(i64, i64)>, x: i64, y: i64, z: i64,
) -> (r: i64)
    requires
        table_wf(perm@, wrap as int, 3),
        stored_layers_wf(layers@),
    ensures
        r == spec_noise3(perm@, wrap as int, layers@, x as int, y as int, z as int),
        0 <= r <= UNIT,
{
    let ghost gperm = perm@;
    let ghost glayers = layers@;
    let mut acc: i64 = 0;
    let mut k: usize = 0;
    while k < layers.len()
        invariant
            table_wf(gperm, wrap as int, 3),
            stored_layers_wf(glayers),
            perm@ == gperm,
            layers@ == glayers,
            0 <= k <= glayers.len(),
            acc == layer_acc3(gperm, wrap as int, glayers, x as int, y as int, z as int, k as int),
            -(2 * (UNIT as int) * sum_weights(glayers, k as int)) <= acc,
            acc <= 2 * (UNIT as int) * sum_weights(glayers, k as int),
        decreases glayers.len() - k,
    {
        let (nw, freq) = layers[k];
        let (xi, xf) = axis_split(x, freq, wrap);
        let (yi, yf) = axis_split(y, freq, wrap);
        let (zi, zf) = axis_split(z, freq, wrap);
        let oct = octave3(perm, wrap, xi, yi, zi, xf, yf, zf);
        proof {
            lemma_sum_weights_bounds_stored(glayers, k as int + 1);
            lemma_sum_weights_bounds_stored(glayers, k as int);
            lemma_mul_abs_bound(nw as int, nw as int, oct as int, 2 * UNIT as int);
            assert((oct as int) * (nw as int) == (nw as int) * (oct as int)) by (nonlinear_arith);
            assert(2 * (UNIT as int) * (sum_weights(glayers, k as int) + nw as int)
                == 2 * (UNIT as int) * sum_weights(glayers, k as int)
                    + 2 * ((UNIT as int) * (nw as int))
                && (nw as int) * (2 * UNIT as int) == 2 * ((UNIT as int) * (nw as int)))
                by (nonlinear_arith);
            assert(0 <= 2 * (UNIT as int) * sum_weights(glayers, k as int)
                <= 2 * ((UNIT as int) * (UNIT as int))) by (nonlinear_arith)
                requires 0 <= sum_weights(glayers, k as int) <= UNIT as int;
        }
        acc = acc + oct * nw;
        k = k + 1;
    }
    proof {
        lemma_sum_weights_bounds_stored(glayers, glayers.len() as int);
        assert(0 <= 2 * (UNIT as int) * sum_weights(glayers, glayers.len() as int)
            <= 2 * ((UNIT as int) * (UNIT as int))) by (nonlinear_arith)
            requires 0 <= sum_weights(glayers, glayers.len() as int) <= UNIT as int;
        vstd::arithmetic::div_mod::lemma_div_pos_is_pos(acc as int + 2 * (UNIT_SQ as int),
            UNIT as int);
        vstd::arithmetic::div_mod::lemma_div_is_ordered(acc as int + 2 * (UNIT_SQ as int),
            4 * (UNIT_SQ as int), UNIT as int);
        assert(4 * (UNIT_SQ as int) == (4 * UNIT as int) * (UNIT as int)) by (nonlinear_arith)
            requires UNIT_SQ == (UNIT as int) * (UNIT as int);
        vstd::arithmetic::div_mod::lemma_div_by_multiple(4 * UNIT as int, UNIT as int);
    }
    let total = (acc + 2 * UNIT_SQ) / UNIT - 2 * UNIT;
    let mapped = (5 * UNIT + total) / 2 - 2 * UNIT;
    if mapped < 0 {
        0
    } else if mapped > UNIT {
        UNIT
    } else {
        mapped
    }
}

/// A sampled 3D value lies in `[0, UNIT]` for every well-formed
/// source and every input.
pub proof fn lemma_noise3_range(
    perm: Seq<usize>, wrap: int, layers: Seq<(i64, i64)>, x: int, y: int, z: int,
)
    requires
        table_wf(perm, wrap, 3),
        stored_layers_wf(layers),
    ensures
        0 <= spec_noise3(perm, wrap, layers, x, y, z) <= UNIT as int,
{
    lemma_layer_acc3_range(perm, wrap, layers, x, y, z, layers.len() as int);
    let acc = layer_acc3(perm, wrap, layers, x, y, z, layers.len() as int);
    lemma_sum_weights_bounds_stored(layers, layers.len() as int);
    assert(0 <= 2 * (UNIT as int) * sum_weights(layers, layers.len() as int)
        <= 2 * ((UNIT as int) * (UNIT as int))) by (nonlinear_arith)
        requires 0 <= sum_weights(layers, layers.len() as int) <= UNIT as int;
    vstd::arithmetic::div_mod::lemma_div_pos_is_pos(acc + 2 * (UNIT_SQ as int), UNIT as int);
    vstd::arithmetic::div_mod::lemma_div_is_ordered(acc + 2 * (UNIT_SQ as int),
        4 * (UNIT_SQ as int), UNIT as int);
    assert(4 * (UNIT_SQ as int) == (4 * UNIT as int) * (UNIT as int)) by (nonlinear_arith)
        requires UNIT_SQ == (UNIT as int) * (UNIT as int);
    vstd::arithmetic::div_mod::lemma_div_by_multiple(4 * UNIT as int, UNIT as int);
}

/// The weighted octave sum of any prefix of stored layers of a 3D
/// sample is bounded by two units times the prefix weight sum.
proof fn lemma_layer_acc3_range(
    perm: Seq<usize>, wrap: int, layers: Seq<(i64, i64)>, x: int, y: int, z: int, k: int,
)
    requires
        table_wf(perm, wrap, 3),
        stored_layers_wf(layers),
        0 <= k <= layers.len(),
    ensures
        -(2 * (UNIT as int) * sum_weights(layers, k))
            <= layer_acc3(perm, wrap, layers, x, y, z, k),
        layer_acc3(perm, wrap, layers, x, y, z, k) <= 2 * (UNIT as int) * sum_weights(layers, k),
    decreases k,
{
    if k > 0 {
        lemma_layer_acc3_range(perm, wrap, layers, x, y, z, k - 1);
        let l = layers[k - 1];
        let f = l.1 as int;
        lemma_frac_cell_ranges(x, f, wrap);
        lemma_frac_cell_ranges(y, f, wrap);
        lemma_frac_cell_ranges(z, f, wrap);
        lemma_octave3_range(perm, wrap, spec_cell(x, f, wrap), spec_cell(y, f, wrap),
            spec_cell(z, f, wrap), spec_frac(x, f), spec_frac(y, f), spec_frac(z, f));
        lemma_mul_abs_bound(l.0 as int, l.0 as int,
            spec_octave3(perm, spec_cell(x, f, wrap), spec_cell(y, f, wrap),
                spec_cell(z, f, wrap), spec_frac(x, f), spec_frac(y, f), spec_frac(z, f)),
            2 * UNIT as int);
        lemma_sum_weights_bounds_stored(layers, k);
        lemma_sum_weights_bounds_stored(layers, k - 1);
        assert(2 * (UNIT as int) * sum_weights(layers, k)
            == 2 * (UNIT as int) * sum_weights(layers, k - 1) + 2 * ((UNIT as int) * (l.0 as int))
            && (l.0 as int) * (2 * UNIT as int) == 2 * ((UNIT as int) * (l.0 as int)))
            by (nonlinear_arith)
            requires sum_weights(layers, k) == sum_weights(layers, k - 1) + l.0 as int;
    }
}

/// The cell and fraction of any scaled coordinate are in range.
pub proof fn lemma_frac_cell_ranges(x: int, f: int, wrap: int)
    requires
        1 <= wrap,
    ensures
        0 <= spec_cell(x, f, wrap) < wrap,
        0 <= spec_frac(x, f) < UNIT as int,
{
    vstd::arithmetic::div_mod::lemma_mod_bound(
        (x * f + crate::gradient::COORD_SHIFT as int) / (UNIT_SQ as int), wrap);
    vstd::arithmetic::div_mod::lemma_mod_bound(x * f + crate::gradient::COORD_SHIFT as int,
        UNIT_SQ as int);
    vstd::arithmetic::div_mod::lemma_div_pos_is_pos(
        (x * f + crate::gradient::COORD_SHIFT as int) % (UNIT_SQ as int), UNIT as int);
    vstd::arithmetic::div_mod::lemma_div_is_ordered(
        (x * f + crate::gradient::COORD_SHIFT as int) % (UNIT_SQ as int), UNIT_SQ - 1,
        UNIT as int);
    assert((UNIT_SQ - 1) as int / (UNIT as int) == UNIT - 1);
}

} // verus!
