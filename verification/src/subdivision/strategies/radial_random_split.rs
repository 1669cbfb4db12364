use vstd::prelude::*;

use rand_pcg::Pcg32;

use super::uniform_red_split::split_into_four;
use crate::processor::vertex_operator::{pcg32_from_seed, seeded_pcg32, VertexOperator};
use crate::subdivision::seed::Seed;
use crate::subdivision::edge::EdgeCache;
use crate::subdivision::subdivide::{placed_along, red_children, triangle_visits, visit_all};

verus! {

/// Splits every triangle into four, each edge at a point that the operator
/// moves off the midpoint (radially and along the edge's plane normal).
pub struct RadialRandomSplit<O> {
    rng: Pcg32,
    operator: O,
}

impl<O> RadialRandomSplit<O> {
    /// The generator the strategy draws from.
    pub closed spec fn spec_rng(&self) -> Pcg32 {
        self.rng
    }

    /// The operator that places the split points.
    pub closed spec fn spec_operator(&self) -> O {
        self.operator
    }
}

impl<O: VertexOperator> RadialRandomSplit<O> {
    /// The strategy that places split points with `operator`, drawing from
    /// a generator seeded with `seed`.
    pub fn new(seed: Seed, operator: O) -> (strategy: RadialRandomSplit<O>)
        ensures
            strategy.spec_rng() == seeded_pcg32(seed@),
            strategy.spec_operator() == operator,
    {
        RadialRandomSplit { rng: pcg32_from_seed(seed.value()), operator }
    }

    /// Splits the triangle a, b, c into (a, ab, ca), (b, bc, ab), (c, ca, bc)
    /// and (ab, bc, ca), as the uniform red split does.
    pub fn split_triangle(
        &mut self,
        vertices: &mut Vec<O::Point>,
        edges: &mut EdgeCache,
        triangle: (usize, usize, usize),
    ) -> (children: Vec<(usize, usize, usize)>)
        requires
            triangle.0 < old(vertices).len(),
            triangle.1 < old(vertices).len(),
            triangle.2 < old(vertices).len(),
        ensures
            (final(edges)@, final(vertices).len() as nat) == visit_all(old(edges)@, old(vertices).len() as nat, triangle_visits(triangle)),
            final(vertices)@.take(old(vertices).len() as int) == old(vertices)@,
            children@ == red_children(triangle, final(edges)@),
            final(self).spec_operator() == old(self).spec_operator(),
            placed_along(
                old(self).spec_operator(),
                old(edges)@,
                old(vertices).len() as nat,
                triangle_visits(triangle),
                final(vertices)@,
                old(self).spec_rng(),
                final(self).spec_rng(),
            ),
    {
        split_into_four(&self.operator, &mut self.rng, vertices, edges, triangle)
    }
}

} // verus!
