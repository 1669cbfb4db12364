use vstd::prelude::*;

use crate::geometry::vertex::is_default;

use crate::processor::vertex_operator::{seeded_pcg32, VertexOperator};
use crate::subdivision::seed::Seed;
use crate::subdivision::strategies::uniform_red_split::UniformRedSplit;

verus! {

/// How each triangle of a round is split.
#[derive(Debug, Clone, Copy, PartialEq, Eq, Structural)]
pub enum SubdivisionMode {
    UniformRedSplit,
}

impl Default for SubdivisionMode {
    fn default() -> (mode: SubdivisionMode)
        ensures
            mode == SubdivisionMode::UniformRedSplit,
    {
        SubdivisionMode::UniformRedSplit
    }
}

impl SubdivisionMode {
    /// The splitting strategy of this mode; its generator is seeded with 0.
    pub fn strategy<O: VertexOperator + Default>(&self) -> (strategy: UniformRedSplit<O>)
        ensures
            strategy.spec_rng() == seeded_pcg32(0),
            is_default(strategy.spec_operator()),
    {
        match self {
            SubdivisionMode::UniformRedSplit => UniformRedSplit::new(Seed::default()),
        }
    }
}

} // verus!
