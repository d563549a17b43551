//! Octave layers of gradient noise: `(weight, frequency)` pairs whose
//! weights are rescaled at construction so that they sum to one unit,
//! and the construction errors of the noise sources.

use vstd::prelude::*;
use crate::fixed::{UNIT, lemma_mul_abs_bound};

verus! {

/// Largest accepted number of octave layers.
pub const LAYERS_MAX: usize = 4096;

/// Largest accepted raw layer weight: 2^32.
pub const WEIGHT_MAX: i64 = 0x1_0000_0000;

/// Why a noise source refused to be constructed.
#[derive(Clone, Copy, Debug, PartialEq, Eq, Structural)]
pub enum NoiseError {
    /// The lattice wrap size is not a power of two, so bitmask-style
    /// wraparound would be corrupted.
    WrapNotPowerOfTwo,
    /// The layer list is empty: weight normalization would divide by
    /// zero.
    NoLayers,
    /// All layer weights are zero: weight normalization would divide
    /// by zero.
    ZeroWeightSum,
}

/// A `(weight, frequency)` pair acceptable as an input layer: the
/// weight nonnegative (weights are normalized into shares of their
/// sum), the frequency of either sign within one squared unit.
pub open spec fn layer_in_bounds(l: (i64, i64)) -> bool {
    0 <= l.0 <= WEIGHT_MAX && -crate::fixed::UNIT_SQ <= l.1 <= crate::fixed::UNIT_SQ
}

/// Sum of the weights of the first `k` layers.
pub open spec fn sum_weights(layers: Seq<(i64, i64)>, k: int) -> int
    decreases k,
{
    if k <= 0 {
        0
    } else {
        sum_weights(layers, k - 1) + layers[k - 1].0
    }
}

/// The raw weight sum a layer list is normalized by.
pub open spec fn total_weight(layers: Seq<(i64, i64)>) -> int {
    sum_weights(layers, layers.len() as int)
}

/// One layer after normalization: its weight rescaled to the share
/// `weight / total` of one unit, its frequency kept.
pub open spec fn norm_layer(l: (i64, i64), total: int) -> (i64, i64) {
    ((l.0 * (UNIT as int) / total) as i64, l.1)
}

/// A layer list after normalization by its own weight sum.
pub open spec fn norm_layers(layers: Seq<(i64, i64)>) -> Seq<(i64, i64)> {
    Seq::new(layers.len(), |i: int| norm_layer(layers[i], total_weight(layers)))
}

/// Weight sums of prefixes are monotone and bounded when every layer
/// is in bounds.
pub proof fn lemma_sum_weights_bounds(layers: Seq<(i64, i64)>, k: int)
    requires
        0 <= k <= layers.len(),
        forall|i: int| 0 <= i < layers.len() ==> layer_in_bounds(#[trigger] layers[i]),
    ensures
        0 <= sum_weights(layers, k) <= k * (WEIGHT_MAX as int),
        sum_weights(layers, k) <= total_weight(layers),
    decreases layers.len() - k,
{
    if k == layers.len() {
        assert(sum_weights(layers, k) >= 0) by {
            lemma_sum_weights_nonneg(layers, k);
        }
    } else {
        lemma_sum_weights_bounds(layers, k + 1);
        lemma_sum_weights_nonneg(layers, k);
    }
    assert(k * (WEIGHT_MAX as int) >= sum_weights(layers, k)) by {
        lemma_sum_weights_upper(layers, k);
    }
}

proof fn lemma_sum_weights_nonneg(layers: Seq<(i64, i64)>, k: int)
    requires
        0 <= k <= layers.len(),
        forall|i: int| 0 <= i < layers.len() ==> layer_in_bounds(#[trigger] layers[i]),
    ensures
        0 <= sum_weights(layers, k),
    decreases k,
{
    if k > 0 {
        lemma_sum_weights_nonneg(layers, k - 1);
    }
}

proof fn lemma_sum_weights_upper(layers: Seq<(i64, i64)>, k: int)
    requires
        0 <= k <= layers.len(),
        forall|i: int| 0 <= i < layers.len() ==> layer_in_bounds(#[trigger] layers[i]),
    ensures
        sum_weights(layers, k) <= k * (WEIGHT_MAX as int),
    decreases k,
{
    if k > 0 {
        lemma_sum_weights_upper(layers, k - 1);
        assert(k * (WEIGHT_MAX as int) == (k - 1) * (WEIGHT_MAX as int) + WEIGHT_MAX as int)
            by (nonlinear_arith);
    }
}

/// Floor division distributes superadditively over a sum of
/// nonnegative numerators.
proof fn lemma_div_superadd(a: int, b: int, d: int)
    requires
        0 <= a,
        0 <= b,
        0 < d,
    ensures
        a / d + b / d <= (a + b) / d,
{
    vstd::arithmetic::div_mod::lemma_fundamental_div_mod(a, d);
    vstd::arithmetic::div_mod::lemma_fundamental_div_mod(b, d);
    vstd::arithmetic::div_mod::lemma_mod_bound(a, d);
    vstd::arithmetic::div_mod::lemma_mod_bound(b, d);
    vstd::arithmetic::div_mod::lemma_div_pos_is_pos(a, d);
    vstd::arithmetic::div_mod::lemma_div_pos_is_pos(b, d);
    let s = a / d + b / d;
    assert(a + b == d * s + (a % d + b % d)) by (nonlinear_arith)
        requires
            a == d * (a / d) + a % d && b == d * (b / d) + b % d && s == a / d + b / d;
    vstd::arithmetic::div_mod::lemma_div_is_ordered(d * s, a + b, d);
    vstd::arithmetic::div_mod::lemma_div_by_multiple(s, d);
}

/// Weight normalization: the normalized weights of any valid layer
/// list sum to one unit within a deficit smaller than the number of
/// layers (each floor division loses less than one).
pub proof fn lemma_norm_weight_sum(layers: Seq<(i64, i64)>, k: int)
    requires
        0 <= k <= layers.len(),
        0 < total_weight(layers),
        forall|i: int| 0 <= i < layers.len() ==> layer_in_bounds(#[trigger] layers[i]),
    ensures
        sum_weights(norm_layers(layers), k)
            <= sum_weights(layers, k) * (UNIT as int) / total_weight(layers),
        sum_weights(layers, k) * (UNIT as int) / total_weight(layers) - k
            <= sum_weights(norm_layers(layers), k),
    decreases k,
{
    let t = total_weight(layers);
    if k > 0 {
        lemma_norm_weight_sum(layers, k - 1);
        let w = layers[k - 1].0 as int;
        let su = sum_weights(layers, k - 1);
        lemma_sum_weights_nonneg(layers, k - 1);
        assert(0 <= su * (UNIT as int) && 0 <= w * (UNIT as int)
            && su * (UNIT as int) + w * (UNIT as int) == (su + w) * (UNIT as int))
            by (nonlinear_arith)
            requires 0 <= su && 0 <= w;
        lemma_div_superadd(su * (UNIT as int), w * (UNIT as int), t);
        assert(norm_layers(layers)[k - 1] == norm_layer(layers[k - 1], t));
        // The lower bound: each true share loses less than 1 to the floor.
        vstd::arithmetic::div_mod::lemma_fundamental_div_mod(su * (UNIT as int), t);
        vstd::arithmetic::div_mod::lemma_fundamental_div_mod(w * (UNIT as int), t);
        vstd::arithmetic::div_mod::lemma_fundamental_div_mod((su + w) * (UNIT as int), t);
        vstd::arithmetic::div_mod::lemma_mod_bound(su * (UNIT as int), t);
        vstd::arithmetic::div_mod::lemma_mod_bound(w * (UNIT as int), t);
        vstd::arithmetic::div_mod::lemma_mod_bound((su + w) * (UNIT as int), t);
        let qa = su * (UNIT as int) / t;
        let qb = w * (UNIT as int) / t;
        let qs = (su + w) * (UNIT as int) / t;
        assert(t * qs <= t * qa + t * qb + 2 * t - 2) by (nonlinear_arith)
            requires
                t * qs + ((su + w) * (UNIT as int)) % t == (su + w) * (UNIT as int)
                    && t * qa + (su * (UNIT as int)) % t == su * (UNIT as int)
                    && t * qb + (w * (UNIT as int)) % t == w * (UNIT as int)
                    && su * (UNIT as int) + w * (UNIT as int) == (su + w) * (UNIT as int)
                    && 0 <= (su * (UNIT as int)) % t < t && 0 <= (w * (UNIT as int)) % t < t
                    && 0 <= ((su + w) * (UNIT as int)) % t;
        assert(qs <= qa + qb + 1) by (nonlinear_arith)
            requires t * qs <= t * qa + t * qb + 2 * t - 2 && t > 0;
    }
}

/// Each normalized layer keeps its frequency, and its weight is a
/// share of one unit.
pub proof fn lemma_norm_layer_bounds(layers: Seq<(i64, i64)>, i: int)
    requires
        0 <= i < layers.len(),
        0 < total_weight(layers),
        forall|j: int| 0 <= j < layers.len() ==> layer_in_bounds(#[trigger] layers[j]),
    ensures
        0 <= norm_layers(layers)[i].0 <= UNIT as int,
        norm_layers(layers)[i].1 == layers[i].1,
{
    let t = total_weight(layers);
    let w = layers[i].0 as int;
    lemma_sum_weights_bounds(layers, i + 1);
    lemma_sum_weights_nonneg(layers, i);
    assert(w <= t);
    vstd::arithmetic::div_mod::lemma_div_pos_is_pos(w * (UNIT as int), t);
    assert(w * (UNIT as int) <= (UNIT as int) * t) by (nonlinear_arith)
        requires 0 <= w <= t;
    vstd::arithmetic::div_mod::lemma_div_is_ordered(w * (UNIT as int), (UNIT as int) * t, t);
    vstd::arithmetic::div_mod::lemma_div_by_multiple(UNIT as int, t);
}

/// The weight-normalization law: after construction the effective
/// weights of a valid layer list sum to one unit, up to a deficit
/// smaller than the number of layers (each share is rounded down by
/// less than one).
pub proof fn lemma_weight_normalization(layers: Seq<(i64, i64)>)
    requires
        layers.len() > 0,
        0 < total_weight(layers),
        forall|i: int| 0 <= i < layers.len() ==> layer_in_bounds(#[trigger] layers[i]),
    ensures
        (UNIT as int) - layers.len() <= total_weight(norm_layers(layers)) <= UNIT as int,
{
    let t = total_weight(layers);
    let n = layers.len() as int;
    lemma_norm_weight_sum(layers, n);
    assert(t * (UNIT as int) == (UNIT as int) * t) by (nonlinear_arith);
    vstd::arithmetic::div_mod::lemma_div_by_multiple(UNIT as int, t);
    assert(norm_layers(layers).len() == layers.len());
}

/// Normalizes a layer list: each weight becomes its share of one unit.
/// Errs on an empty list and on an all-zero weight sum, the two inputs
/// on which the share is undefined.
pub(crate) fn normalize_layers(layers: &Vec<(i64, i64)>) -> (r: Result<
    Vec<(i64, i64)>,
    NoiseError,
>)
    requires
        layers@.len() <= LAYERS_MAX,
        forall|i: int| 0 <= i < layers@.len() ==> layer_in_bounds(#[trigger] layers@[i]),
    ensures
        r == Err::<Vec<(i64, i64)>, NoiseError>(NoiseError::NoLayers) <==> layers@.len() == 0,
        r == Err::<Vec<(i64, i64)>, NoiseError>(NoiseError::ZeroWeightSum) <==> (layers@.len() > 0
            && total_weight(layers@) == 0),
        r is Ok <==> (layers@.len() > 0 && total_weight(layers@) > 0),
        r is Ok ==> r->Ok_0@ == norm_layers(layers@),
{
    if layers.len() == 0 {
        return Err(NoiseError::NoLayers);
    }
    let mut total: i64 = 0;
    let mut k: usize = 0;
    while k < layers.len()
        invariant
            0 <= k <= layers@.len(),
            layers@.len() <= LAYERS_MAX,
            forall|i: int| 0 <= i < layers@.len() ==> layer_in_bounds(#[trigger] layers@[i]),
            total == sum_weights(layers@, k as int),
            0 <= total <= k * (WEIGHT_MAX as int),
        decreases layers@.len() - k,
    {
        proof {
            lemma_sum_weights_bounds(layers@, k + 1);
            assert((k + 1) * (WEIGHT_MAX as int) <= LAYERS_MAX * (WEIGHT_MAX as int))
                by (nonlinear_arith)
                requires k + 1 <= LAYERS_MAX as int;
        }
        total = total + layers[k].0;
        k = k + 1;
    }
    if total == 0 {
        return Err(NoiseError::ZeroWeightSum);
    }
    let ghost t = total_weight(layers@);
    let mut out: Vec<(i64, i64)> = Vec::new();
    let mut k: usize = 0;
    while k < layers.len()
        invariant
            0 <= k <= layers@.len(),
            forall|i: int| 0 <= i < layers@.len() ==> layer_in_bounds(#[trigger] layers@[i]),
            0 < total,
            total == t,
            t == total_weight(layers@),
            out@.len() == k as int,
            forall|i: int| 0 <= i < k ==> out@[i] == norm_layers(layers@)[i],
        decreases layers@.len() - k,
    {
        let (w, f) = layers[k];
        proof {
            lemma_mul_abs_bound(w as int, WEIGHT_MAX as int, UNIT as int, UNIT as int);
            vstd::arithmetic::div_mod::lemma_div_pos_is_pos(
                (w as int) * (UNIT as int), t);
            vstd::arithmetic::div_mod::lemma_div_is_ordered(
                (w as int) * (UNIT as int), (WEIGHT_MAX as int) * (UNIT as int), t);
            vstd::arithmetic::div_mod::lemma_div_is_ordered_by_denominator(
                (WEIGHT_MAX as int) * (UNIT as int), 1, t);
        }
        let nw: i64 = ((w as i128) * (UNIT as i128) / (total as i128)) as i64;
        out.push((nw, f));
        k = k + 1;
        proof {
            assert(out@[k - 1] == norm_layers(layers@)[k - 1]);
        }
    }
    Ok(out)
}

} // verus!
