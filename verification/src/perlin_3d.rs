//! Multi-octave 3D gradient noise over a seeded permutation table.

use vstd::prelude::*;
use crate::fixed::UNIT;
use crate::gradient::{WRAP_MAX, table_wf};
use crate::layers::{NoiseError, LAYERS_MAX, layer_in_bounds, norm_layers, total_weight,
    normalize_layers};
use crate::noise::Noise;
use crate::sampling::{is_pow2, check_pow2, repeat_seq, build_table, stored_layers_wf,
    spec_noise3, sample3, lemma_noise3_range};
use crate::seeded::{shuffled_of, seed_or_default};
use crate::perlin_2d::lemma_stored_wf_after_normalization;

verus! {

/// Seeded, multi-octave 3D gradient noise: a tripled permutation table
/// and an ordered list of normalized `(weight, frequency)` layers.
pub struct Perlin3D {
    pub permutation: Vec<usize>,
    pub wrap: usize,
    pub seed: u64,
    pub layers: Vec<(i64, i64)>,
}

impl Perlin3D {
    /// The state `new` leaves behind for given arguments.
    pub open spec fn constructed_from(self, layers: Seq<(i64, i64)>, wrap: usize, seed: u64)
        -> bool {
        &&& self.wrap == wrap
        &&& self.seed == seed
        &&& self.permutation@ == repeat_seq(shuffled_of(wrap, seed), 3)
        &&& self.layers@ == norm_layers(layers)
    }

    /// Builds a 3D gradient-noise source: shuffles the indices
    /// `0..wrap` with the seed (default 0), triples the table, and
    /// normalizes the layer weights to shares of one unit. Rejects a
    /// non-power-of-two wrap, an empty layer list and an all-zero
    /// weight sum.
    pub fn new(layers: &Vec<(i64, i64)>, wrap: usize, seed: Option<u64>) -> (r: Result<
        Perlin3D,
        NoiseError,
    >)
        requires
            layers@.len() <= LAYERS_MAX,
            forall|i: int| 0 <= i < layers@.len() ==> layer_in_bounds(#[trigger] layers@[i]),
            wrap <= WRAP_MAX,
        ensures
            r == Err::<Perlin3D, NoiseError>(NoiseError::WrapNotPowerOfTwo)
                <==> !is_pow2(wrap as int),
            r == Err::<Perlin3D, NoiseError>(NoiseError::NoLayers)
                <==> (is_pow2(wrap as int) && layers@.len() == 0),
            r == Err::<Perlin3D, NoiseError>(NoiseError::ZeroWeightSum)
                <==> (is_pow2(wrap as int) && layers@.len() > 0 && total_weight(layers@) == 0),
            r is Ok <==> (is_pow2(wrap as int) && layers@.len() > 0 && total_weight(layers@) > 0),
            r is Ok ==> r->Ok_0.wf() && r->Ok_0.constructed_from(
                layers@, wrap, seed_or_default(seed)),
    {
        if !check_pow2(wrap) {
            return Err(NoiseError::WrapNotPowerOfTwo);
        }
        let seed = match seed {
            Some(s) => s,
            None => 0,
        };
        proof {
            crate::layers::lemma_sum_weights_bounds(layers@, layers@.len() as int);
        }
        let norm = match normalize_layers(layers) {
            Ok(n) => n,
            Err(e) => {
                return Err(e);
            },
        };
        let permutation = build_table(wrap, seed, 3);
        proof {
            lemma_stored_wf_after_normalization(layers@);
        }
        Ok(Perlin3D { permutation, wrap, seed, layers: norm })
    }
}

impl Noise for Perlin3D {
    type Input = (i64, i64, i64);

    type Output = i64;

    /// The table is tripled and in bounds, the wrap a power of two,
    /// and the stored layers normalized.
    open spec fn wf(&self) -> bool {
        &&& table_wf(self.permutation@, self.wrap as int, 3)
        &&& is_pow2(self.wrap as int)
        &&& stored_layers_wf(self.layers@)
    }

    open spec fn spec_get(&self, input: (i64, i64, i64)) -> i64 {
        spec_noise3(
            self.permutation@,
            self.wrap as int,
            self.layers@,
            input.0 as int,
            input.1 as int,
            input.2 as int,
        ) as i64
    }

    /// Samples the noise at a coordinate triple. The result is a
    /// fixed function of the constructed state and lies in
    /// `[0, UNIT]` (the final mapping clamps the rare corner cases in
    /// which the summed octaves leave `[-1, 1]`).
    fn get(&self, input: (i64, i64, i64)) -> (r: i64) {
        proof {
            lemma_noise3_range(
                self.permutation@,
                self.wrap as int,
                self.layers@,
                input.0 as int,
                input.1 as int,
                input.2 as int,
            );
        }
        sample3(&self.permutation, self.wrap, &self.layers, input.0, input.1, input.2)
    }
}

/// Determinism of construction: two 3D gradient-noise sources built
/// from the same layer list, wrap and seed hold the same permutation
/// table and assign the same value to every input.
pub proof fn lemma_gradient3_deterministic(
    a: Perlin3D, b: Perlin3D, layers: Seq<(i64, i64)>, wrap: usize, seed: u64,
    input: (i64, i64, i64),
)
    requires
        a.constructed_from(layers, wrap, seed),
        b.constructed_from(layers, wrap, seed),
    ensures
        a.permutation@ == b.permutation@,
        a.spec_get(input) == b.spec_get(input),
{
}

/// For every well-formed 3D gradient-noise source and every input, the
/// sampled value lies in `[0, 1]` (scaled by `UNIT`).
pub proof fn lemma_gradient3_output_range(n: Perlin3D, input: (i64, i64, i64))
    requires
        n.wf(),
    ensures
        0 <= n.spec_get(input) <= UNIT,
{
    lemma_noise3_range(
        n.permutation@,
        n.wrap as int,
        n.layers@,
        input.0 as int,
        input.1 as int,
        input.2 as int,
    );
}

} // verus!
