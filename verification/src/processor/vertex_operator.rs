use rand::SeedableRng;
use rand_pcg::{Lcg64Xsh32, Pcg32};
use vstd::prelude::*;

verus! {

/// rand_pcg's PCG32 generator (`Pcg32` is its name for `Lcg64Xsh32`), held
/// as an opaque value.
#[verifier::external_type_specification]
#[verifier::external_body]
pub struct ExLcg64Xsh32(Lcg64Xsh32);

/// The generator that rand_pcg's `SeedableRng::seed_from_u64` gives for
/// `seed`: the source derives its whole state from `seed` alone.
pub uninterp spec fn seeded_pcg32(seed: u64) -> Pcg32;

/// A PCG32 generator seeded by rand_pcg through `SeedableRng::seed_from_u64`:
/// the contract claims only that it is the generator that call gives for
/// `seed`, which Verus sees as an opaque value.
#[verifier::external_body]
pub(crate) fn pcg32_from_seed(seed: u64) -> (rng: Pcg32)
    ensures
        rng == seeded_pcg32(seed),
{
    Pcg32::seed_from_u64(seed)
}

/// Places the vertex that splits an edge, drawing what randomness it needs
/// from the generator it is handed.
pub trait VertexOperator {
    /// What the operator places: a vertex position.
    type Point: Copy;

    /// The vertex that splits the edge from `a` to `b`, placed with the
    /// generator `rng`, and the generator's state after the draws it took.
    fn split_point(&self, rng: &Pcg32, a: &Self::Point, b: &Self::Point) -> (Self::Point, Pcg32);
}

/// `operator.split_point` may place `point` for the edge from `a` to `b`
/// when handed the generator in state `before`, leaving it in state `after`.
pub open spec fn places<O: VertexOperator>(operator: O, before: Pcg32, after: Pcg32, a: O::Point, b: O::Point, point: O::Point) -> bool {
    call_ensures(O::split_point, (&operator, &before, &a, &b), (point, after))
}

} // verus!
