//! Seeded randomness, drawn from the `rand` crate behind trusted
//! declarations. Everything else in the crate is verified against the
//! contracts stated here.

use vstd::prelude::*;

verus! {

/// What the seeded Fisher-Yates shuffle leaves of the freshly built
/// index table `0..wrap`: a fixed function of `wrap` and `seed` alone,
/// since the generator is fully determined by the seed.
pub uninterp spec fn shuffled_of(wrap: usize, seed: u64) -> Seq<usize>;

/// Relies on `rand::seq::SliceRandom::shuffle`, a Fisher-Yates shuffle
/// that reorders the slice in place, driven by
/// `rand::rngs::StdRng::seed_from_u64`, whose output stream is a
/// documented value-stable function of the seed: the result holds the
/// indices `0..wrap` in an order that depends on `wrap` and `seed`
/// alone.
#[verifier::external_body]
pub(crate) fn shuffled_indices(wrap: usize, seed: u64) -> (r: Vec<usize>)
    ensures
        r@ == shuffled_of(wrap, seed),
        r@.len() == wrap as int,
        forall|i: int| 0 <= i < r@.len() ==> r@[i] < wrap,
        r@.to_multiset() == Seq::new(wrap as nat, |i: int| i as usize).to_multiset(),
{
    let mut indices: Vec<usize> = (0..wrap).collect();
    let mut rng = <rand::rngs::StdRng as rand::SeedableRng>::seed_from_u64(seed);
    rand::seq::SliceRandom::shuffle(indices.as_mut_slice(), &mut rng);
    indices
}

/// The feature points a seeded generator fills a bordered
/// `(width + 2) x (height + 2)` cellular grid with, row by row, two
/// draws per cell: a fixed function of `width`, `height` and `seed`
/// alone, since the generator is fully determined by the seed.
pub uninterp spec fn grid_of(width: u64, height: u64, seed: u64) -> Seq<(i64, i64)>;

/// Relies on `rand::Rng::gen_range` over the non-empty range
/// `0..UNIT` (each drawn value lies in that range whatever the
/// generator state), driven by `rand::rngs::StdRng::seed_from_u64`,
/// whose output stream is a documented value-stable function of the
/// seed: the grid depends on `width`, `height` and `seed` alone.
#[verifier::external_body]
pub(crate) fn feature_grid(width: u64, height: u64, seed: u64) -> (r: Vec<(i64, i64)>)
    requires
        width <= 4096,
        height <= 4096,
    ensures
        r@ == grid_of(width, height, seed),
        r@.len() == (width + 2) * (height + 2),
        forall|i: int| 0 <= i < r@.len() ==> (0 <= (#[trigger] r@[i]).0 < crate::fixed::UNIT && 0
            <= r@[i].1 < crate::fixed::UNIT),
{
    let mut rng = <rand::rngs::StdRng as rand::SeedableRng>::seed_from_u64(seed);
    (0..(width + 2) * (height + 2)).map(|_| {
        (rand::Rng::gen_range(&mut rng, 0..crate::fixed::UNIT),
            rand::Rng::gen_range(&mut rng, 0..crate::fixed::UNIT))
    }).collect()
}

/// The seed a noise source falls back to when none is given.
pub open spec fn seed_or_default(seed: Option<u64>) -> u64 {
    match seed {
        Some(s) => s,
        None => 0,
    }
}

} // verus!
