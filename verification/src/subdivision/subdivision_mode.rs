use vstd::prelude::*;

use crate::geometry::vertex::is_default;

use super::seed::Seed;
use super::strategies::uniform_red_split::UniformRedSplit;
use crate::processor::vertex_operator::{seeded_pcg32, VertexOperator};

verus! {

/// How each triangle of a round is split.
#[derive(Debug, Clone, Copy, PartialEq, Eq, Structural, Hash)]
pub enum SubdivisionMode {
    UniformRedSplit,
}

impl Default for SubdivisionMode {
    fn default() -> (mode: SubdivisionMode)
        ensures
            mode == SubdivisionMode::UniformRedSplit,
    {
        SubdivisionMode::UniformRedSplit
    }
}

impl SubdivisionMode {
    /// The splitting strategy of this mode, its generator seeded with `seed`.
    pub fn strategy<O: VertexOperator + Default>(&self, seed: Seed) -> (strategy: UniformRedSplit<O>)
        ensures
            strategy.spec_rng() == seeded_pcg32(seed@),
            is_default(strategy.spec_operator()),
    {
        match self {
            SubdivisionMode::UniformRedSplit => UniformRedSplit::new(seed),
        }
    }
}

} // verus!
