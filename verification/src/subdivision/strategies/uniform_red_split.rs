use vstd::prelude::*;

use rand_pcg::Pcg32;

use crate::processor::vertex_operator::{pcg32_from_seed, seeded_pcg32, VertexOperator};
use crate::subdivision::edge::{lemma_edge_placed_frame, EdgeCache};
use crate::geometry::vertex::is_default;
use crate::subdivision::seed::Seed;
use crate::subdivision::subdivide::{
    lemma_placed_along_empty, lemma_placed_along_push, lemma_visit_all_triangle, placed_along, red_children, triangle_visits,
    visit_all,
};

verus! {

/// Splits every triangle into four: each edge at a vertex that the operator
/// places, shared with the neighbour across that edge.
pub struct UniformRedSplit<O> {
    rng: Pcg32,
    operator: O,
}

impl<O> UniformRedSplit<O> {
    /// The generator the strategy draws from.
    pub closed spec fn spec_rng(&self) -> Pcg32 {
        self.rng
    }

    /// The operator that places the split points.
    pub closed spec fn spec_operator(&self) -> O {
        self.operator
    }
}

impl<O: VertexOperator + Default> UniformRedSplit<O> {
    /// The strategy whose generator is seeded with `seed`, with the default
    /// operator.
    pub fn new(seed: Seed) -> (strategy: UniformRedSplit<O>)
        ensures
            strategy.spec_rng() == seeded_pcg32(seed@),
            is_default(strategy.spec_operator()),
    {
        UniformRedSplit { rng: pcg32_from_seed(seed.value()), operator: O::default() }
    }
}

impl<O: VertexOperator> UniformRedSplit<O> {
    /// Splits the triangle a, b, c into (a, ab, ca), (b, bc, ab), (c, ca, bc)
    /// and (ab, bc, ca), where xy is the vertex that splits the edge between
    /// x and y: the cached one, or a new one pushed onto `vertices`.
    pub fn split_triangle(
        &mut self,
        vertices: &mut Vec<O::Point>,
        edges: &mut EdgeCache,
        triangle: (usize, usize, usize),
    ) -> (children: Vec<(usize, usize, usize)>)
        requires
            triangle.0 < old(vertices).len(),
            triangle.1 < old(vertices).len(),
            triangle.2 < old(vertices).len(),
        ensures
            (final(edges)@, final(vertices).len() as nat) == visit_all(old(edges)@, old(vertices).len() as nat, triangle_visits(triangle)),
            final(vertices)@.take(old(vertices).len() as int) == old(vertices)@,
            children@ == red_children(triangle, final(edges)@),
            final(self).spec_operator() == old(self).spec_operator(),
            placed_along(
                old(self).spec_operator(),
                old(edges)@,
                old(vertices).len() as nat,
                triangle_visits(triangle),
                final(vertices)@,
                old(self).spec_rng(),
                final(self).spec_rng(),
            ),
    {
        split_into_four(&self.operator, &mut self.rng, vertices, edges, triangle)
    }
}

/// Splits the triangle a, b, c into (a, ab, ca), (b, bc, ab), (c, ca, bc) and
/// (ab, bc, ca), where xy is the vertex that splits the edge between x and y:
/// the cached one, or a new one that `operator` places with `rng`, pushed
/// onto `vertices`. The edges are split in the order ab, bc, ca.
pub fn split_into_four<O: VertexOperator>(
    operator: &O,
    rng: &mut Pcg32,
    vertices: &mut Vec<O::Point>,
    edges: &mut EdgeCache,
    triangle: (usize, usize, usize),
) -> (children: Vec<(usize, usize, usize)>)
    requires
        triangle.0 < old(vertices).len(),
        triangle.1 < old(vertices).len(),
        triangle.2 < old(vertices).len(),
    ensures
        (final(edges)@, final(vertices).len() as nat) == visit_all(old(edges)@, old(vertices).len() as nat, triangle_visits(triangle)),
        final(vertices)@.take(old(vertices).len() as int) == old(vertices)@,
        children@ == red_children(triangle, final(edges)@),
        placed_along(*operator, old(edges)@, old(vertices).len() as nat, triangle_visits(triangle), final(vertices)@, *old(rng), *final(rng)),
{
    let (a, b, c) = triangle;
    let ghost v0 = vertices@;
    let ghost c0 = edges@;
    let ghost r0 = *rng;
    let ab = edges.get_or_insert_with(a, b, vertices, operator, rng);
    let ghost v1 = vertices@;
    let ghost c1 = edges@;
    let ghost r1 = *rng;
    let bc = edges.get_or_insert_with(b, c, vertices, operator, rng);
    let ghost v2 = vertices@;
    let ghost c2 = edges@;
    let ghost r2 = *rng;
    let ca = edges.get_or_insert_with(c, a, vertices, operator, rng);
    proof {
        let v3 = vertices@;
        let n0 = v0.len() as nat;
        lemma_visit_all_triangle(c0, n0, triangle);
        assert(v1.take(v0.len() as int) == v0);
        assert(v2.take(v1.len() as int) == v1);
        assert(v3.take(v2.len() as int) == v2);
        assert(v3.take(v0.len() as int) =~= v0);
        assert(v3.take(v1.len() as int) =~= v1);
        let e0 = Seq::<(usize, usize)>::empty();
        let e1 = e0.push((a, b));
        let e2 = e1.push((b, c));
        let e3 = e2.push((c, a));
        assert(e1.drop_last() =~= e0);
        assert(e2.drop_last() =~= e1);
        assert(e3 =~= triangle_visits(triangle));
        assert(visit_all(c0, n0, e0) == (c0, n0));
        assert(e1.last() == (a, b));
        assert(visit_all(c0, n0, e1) == (c1, v1.len() as nat));
        assert(e2.last() == (b, c));
        assert(visit_all(c0, n0, e2) == (c2, v2.len() as nat));
        lemma_placed_along_empty(*operator, c0, n0, v3, r0);
        lemma_edge_placed_frame(*operator, c0, n0, a, b, v1, v3, r0, r1);
        lemma_placed_along_push(*operator, c0, n0, e0, (a, b), v3, r0, r0, r1);
        lemma_edge_placed_frame(*operator, c1, v1.len() as nat, b, c, v2, v3, r1, r2);
        lemma_placed_along_push(*operator, c0, n0, e1, (b, c), v3, r0, r1, r2);
        lemma_placed_along_push(*operator, c0, n0, e2, (c, a), v3, r0, r2, *rng);
    }
    let mut children: Vec<(usize, usize, usize)> = Vec::new();
    children.push((a, ab, ca));
    children.push((b, bc, ab));
    children.push((c, ca, bc));
    children.push((ab, bc, ca));
    proof {
        assert(children@ =~= red_children(triangle, edges@));
    }
    children
}

} // verus!
