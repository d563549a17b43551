//! The reconfigurable multi-octave 2D gradient noise source: same
//! sampling as [`crate::perlin_2d::Perlin2D`], plus in-place
//! replacement of the layer list and of the wrap size.

use vstd::prelude::*;
use crate::fixed::UNIT;
use crate::gradient::{WRAP_MAX, table_wf};
use crate::layers::{NoiseError, LAYERS_MAX, layer_in_bounds, norm_layers, total_weight,
    normalize_layers};
use crate::noise::Noise;
use crate::sampling::{is_pow2, check_pow2, repeat_seq, build_table, stored_layers_wf,
    spec_noise2, sample2, lemma_noise2_range};
use crate::seeded::{shuffled_of, seed_or_default};
use crate::perlin_2d::lemma_stored_wf_after_normalization;

verus! {

/// Seeded, reconfigurable multi-octave 2D gradient noise. The
/// permutation table keeps its seed-derived content across layer
/// changes; only a wrap change rebuilds it (from the stored seed).
pub struct Perlin {
    pub permutation: Vec<usize>,
    pub wrap: usize,
    pub seed: u64,
    pub layers: Vec<(i64, i64)>,
}

impl Perlin {
    /// The state `new` leaves behind for given arguments.
    pub open spec fn constructed_from(self, layers: Seq<(i64, i64)>, wrap: usize, seed: u64)
        -> bool {
        &&& self.wrap == wrap
        &&& self.seed == seed
        &&& self.permutation@ == repeat_seq(shuffled_of(wrap, seed), 2)
        &&& self.layers@ == norm_layers(layers)
    }

    /// Builds the source exactly as [`crate::perlin_2d::Perlin2D::new`]
    /// does, with the same validation.
    pub fn new(layers: &Vec<(i64, i64)>, wrap: usize, seed: Option<u64>) -> (r: Result<
        Perlin,
        NoiseError,
    >)
        requires
            layers@.len() <= LAYERS_MAX,
            forall|i: int| 0 <= i < layers@.len() ==> layer_in_bounds(#[trigger] layers@[i]),
            wrap <= WRAP_MAX,
        ensures
            r == Err::<Perlin, NoiseError>(NoiseError::WrapNotPowerOfTwo)
                <==> !is_pow2(wrap as int),
            r == Err::<Perlin, NoiseError>(NoiseError::NoLayers)
                <==> (is_pow2(wrap as int) && layers@.len() == 0),
            r == Err::<Perlin, NoiseError>(NoiseError::ZeroWeightSum)
                <==> (is_pow2(wrap as int) && layers@.len() > 0 && total_weight(layers@) == 0),
            r is Ok <==> (is_pow2(wrap as int) && layers@.len() > 0 && total_weight(layers@) > 0),
            r is Ok ==> r->Ok_0.wf() && r->Ok_0.constructed_from(
                layers@, wrap, seed_or_default(seed)),
    {
        if !check_pow2(wrap) {
            return Err(NoiseError::WrapNotPowerOfTwo);
        }
        let seed = match seed {
            Some(s) => s,
            None => 0,
        };
        proof {
            crate::layers::lemma_sum_weights_bounds(layers@, layers@.len() as int);
        }
        let norm = match normalize_layers(layers) {
            Ok(n) => n,
            Err(e) => {
                return Err(e);
            },
        };
        let permutation = build_table(wrap, seed, 2);
        proof {
            lemma_stored_wf_after_normalization(layers@);
        }
        Ok(Perlin { permutation, wrap, seed, layers: norm })
    }

    /// Replaces the layer list, re-normalizing the new weights. The
    /// permutation table, wrap and seed are untouched. On a rejected
    /// list (empty, or all-zero weights) the source is unchanged.
    pub fn set_layers(&mut self, layers: &Vec<(i64, i64)>) -> (r: Result<(), NoiseError>)
        requires
            old(self).wf(),
            layers@.len() <= LAYERS_MAX,
            forall|i: int| 0 <= i < layers@.len() ==> layer_in_bounds(#[trigger] layers@[i]),
        ensures
            final(self).wf(),
            r == Err::<(), NoiseError>(NoiseError::NoLayers) <==> layers@.len() == 0,
            r == Err::<(), NoiseError>(NoiseError::ZeroWeightSum)
                <==> (layers@.len() > 0 && total_weight(layers@) == 0),
            r is Ok <==> (layers@.len() > 0 && total_weight(layers@) > 0),
            r is Ok ==> final(self).layers@ == norm_layers(layers@),
            r is Err ==> final(self).layers@ == old(self).layers@,
            final(self).permutation@ == old(self).permutation@,
            final(self).wrap == old(self).wrap,
            final(self).seed == old(self).seed,
    {
        proof {
            crate::layers::lemma_sum_weights_bounds(layers@, layers@.len() as int);
        }
        let norm = match normalize_layers(layers) {
            Ok(n) => n,
            Err(e) => {
                return Err(e);
            },
        };
        proof {
            lemma_stored_wf_after_normalization(layers@);
        }
        self.layers = norm;
        Ok(())
    }

    /// Replaces the wrap size, rebuilding the permutation table from
    /// the stored seed. The layers are untouched. On a rejected wrap
    /// (not a power of two) the source is unchanged.
    pub fn set_wrap(&mut self, wrap: usize) -> (r: Result<(), NoiseError>)
        requires
            old(self).wf(),
            wrap <= WRAP_MAX,
        ensures
            final(self).wf(),
            r == Err::<(), NoiseError>(NoiseError::WrapNotPowerOfTwo) <==> !is_pow2(wrap as int),
            r is Ok <==> is_pow2(wrap as int),
            r is Ok ==> (final(self).wrap == wrap && final(self).permutation@ == repeat_seq(
                shuffled_of(wrap, old(self).seed), 2)),
            r is Err ==> (final(self).wrap == old(self).wrap && final(self).permutation@ == old(
                self,
            ).permutation@),
            final(self).layers@ == old(self).layers@,
            final(self).seed == old(self).seed,
    {
        if !check_pow2(wrap) {
            return Err(NoiseError::WrapNotPowerOfTwo);
        }
        self.permutation = build_table(wrap, self.seed, 2);
        self.wrap = wrap;
        Ok(())
    }
}

impl Noise for Perlin {
    type Input = (i64, i64);

    type Output = i64;

    open spec fn wf(&self) -> bool {
        &&& table_wf(self.permutation@, self.wrap as int, 2)
        &&& is_pow2(self.wrap as int)
        &&& stored_layers_wf(self.layers@)
    }

    open spec fn spec_get(&self, input: (i64, i64)) -> i64 {
        spec_noise2(
            self.permutation@,
            self.wrap as int,
            self.layers@,
            input.0 as int,
            input.1 as int,
        ) as i64
    }

    /// Samples the noise at a coordinate pair. The result is a fixed
    /// function of the current state and lies in `[0, UNIT]`.
    fn get(&self, input: (i64, i64)) -> (r: i64) {
        proof {
            lemma_noise2_range(
                self.permutation@,
                self.wrap as int,
                self.layers@,
                input.0 as int,
                input.1 as int,
            );
        }
        sample2(&self.permutation, self.wrap, &self.layers, input.0, input.1)
    }
}

/// For every well-formed reconfigurable source and every input, the
/// sampled value lies in `[0, 1]` (scaled by `UNIT`), also after any
/// sequence of `set_layers` / `set_wrap` calls, since each preserves
/// well-formedness.
pub proof fn lemma_gradient_output_range(n: Perlin, input: (i64, i64))
    requires
        n.wf(),
    ensures
        0 <= n.spec_get(input) <= UNIT,
{
    lemma_noise2_range(n.permutation@, n.wrap as int, n.layers@, input.0 as int, input.1 as int);
}

} // verus!
