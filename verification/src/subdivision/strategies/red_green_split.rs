use vstd::prelude::*;

use rand_pcg::Pcg32;

use crate::geometry::orientation::{
    boundary_piece, cuts_fresh, lemma_one_of_four, one_of_four_runs_along, runs_along, some_runs_along, tiles_oriented,
};
use crate::processor::vertex_operator::{pcg32_from_seed, seeded_pcg32, VertexOperator};
use crate::subdivision::seed::Seed;
use crate::subdivision::edge::{edge_placed, key_of, visit_edge, EdgeCache};

verus! {

/// Decides which edges are long enough to split.
pub trait EdgeSplitRule: VertexOperator {
    /// Whether the edge from `a` to `b` is split.
    fn splits_edge(&self, a: &Self::Point, b: &Self::Point) -> bool;
}

/// The children of the triangle a, b, c given the vertex, if any, at which
/// each of its edges ab, bc and ca is split: four triangles when all three
/// are split, three when two are, two when one is, and the triangle itself
/// when none is.
pub open spec fn red_green_children(
    t: (usize, usize, usize),
    ab: Option<usize>,
    bc: Option<usize>,
    ca: Option<usize>,
) -> Seq<(usize, usize, usize)> {
    let (a, b, c) = t;
    match (ab, bc, ca) {
        (Some(ab), Some(bc), Some(ca)) => seq![(a, ab, ca), (b, bc, ab), (c, ca, bc), (ab, bc, ca)],
        (Some(ab), Some(bc), None) => seq![(ab, b, bc), (ab, bc, c), (ab, c, a)],
        (None, Some(bc), Some(ca)) => seq![(bc, c, ca), (bc, ca, a), (bc, a, b)],
        (Some(ab), None, Some(ca)) => seq![(ab, b, c), (ab, c, ca), (ab, ca, a)],
        (Some(ab), None, None) => seq![(a, ab, c), (ab, b, c)],
        (None, Some(bc), None) => seq![(b, bc, a), (bc, c, a)],
        (None, None, Some(ca)) => seq![(c, ca, b), (ca, a, b)],
        (None, None, None) => seq![t],
    }
}

/// The number of the three that are present.
pub open spec fn split_count(ab: Option<usize>, bc: Option<usize>, ca: Option<usize>) -> nat {
    (if ab is Some { 1nat } else { 0nat }) + (if bc is Some { 1nat } else { 0nat }) + (if ca is Some { 1nat } else { 0nat })
}

/// A triangle with `k` split edges has `k + 1` children.
pub proof fn lemma_red_green_child_count(t: (usize, usize, usize), ab: Option<usize>, bc: Option<usize>, ca: Option<usize>)
    ensures
        red_green_children(t, ab, bc, ca).len() == split_count(ab, bc, ca) + 1,
{
}

/// The law of a red-green split: when the triangle's corners are three
/// different vertices and each side that is cut is cut at a vertex of its
/// own, the pieces tile the triangle with its orientation, one more piece
/// than there are cut sides.
pub proof fn lemma_red_green_children_tile(t: (usize, usize, usize), ab: Option<usize>, bc: Option<usize>, ca: Option<usize>)
    requires
        cuts_fresh(t, ab, bc, ca),
    ensures
        red_green_children(t, ab, bc, ca).len() == split_count(ab, bc, ca) + 1,
        tiles_oriented(t, ab, bc, ca, red_green_children(t, ab, bc, ca)),
{
    let kids = red_green_children(t, ab, bc, ca);
    assert(kids.len() <= 4);
    assert forall|e: (usize, usize)| #[trigger] boundary_piece(t, ab, bc, ca, e) implies some_runs_along(kids, e) by {
        assert(one_of_four_runs_along(kids, e));
        lemma_one_of_four(kids, e);
    }
    assert forall|i: int, e: (usize, usize)|
        0 <= i < kids.len() && #[trigger] runs_along(kids[i], e) implies boundary_piece(t, ab, bc, ca, e) || some_runs_along(
            kids,
            (e.1, e.0),
        ) by {
        if !boundary_piece(t, ab, bc, ca, e) {
            assert(one_of_four_runs_along(kids, (e.1, e.0)));
            lemma_one_of_four(kids, (e.1, e.0));
        }
    }
}

/// The children of the triangle for the given split vertices; see
/// `red_green_children`.
pub fn red_green_pattern(
    triangle: (usize, usize, usize),
    ab: Option<usize>,
    bc: Option<usize>,
    ca: Option<usize>,
) -> (children: Vec<(usize, usize, usize)>)
    ensures
        children@ == red_green_children(triangle, ab, bc, ca),
{
    let (a, b, c) = triangle;
    let children = match (ab, bc, ca) {
        (Some(ab), Some(bc), Some(ca)) => vec![(a, ab, ca), (b, bc, ab), (c, ca, bc), (ab, bc, ca)],
        (Some(ab), Some(bc), None) => vec![(ab, b, bc), (ab, bc, c), (ab, c, a)],
        (None, Some(bc), Some(ca)) => vec![(bc, c, ca), (bc, ca, a), (bc, a, b)],
        (Some(ab), None, Some(ca)) => vec![(ab, b, c), (ab, c, ca), (ab, ca, a)],
        (Some(ab), None, None) => vec![(a, ab, c), (ab, b, c)],
        (None, Some(bc), None) => vec![(b, bc, a), (bc, c, a)],
        (None, None, Some(ca)) => vec![(c, ca, b), (ca, a, b)],
        (None, None, None) => vec![triangle],
    };
    assert(children@ =~= red_green_children(triangle, ab, bc, ca));
    children
}

/// What one edge visit did once it was decided whether to split the edge,
/// over the cache, the vertices and the generator: nothing, or the visit of
/// `visit_edge`, giving the vertex filed for the edge, with any new vertex
/// placed by the operator.
pub open spec fn split_step<O: VertexOperator>(
    operator: O,
    before: (Map<(usize, usize), usize>, Seq<O::Point>, Pcg32),
    a: usize,
    b: usize,
    after: (Map<(usize, usize), usize>, Seq<O::Point>, Pcg32),
    split: Option<usize>,
) -> bool {
    match split {
        None => after == before,
        Some(index) => {
            &&& (after.0, after.1.len() as nat) == visit_edge(before.0, before.1.len() as nat, a, b)
            &&& after.1.take(before.1.len() as int) == before.1
            &&& index == after.0[key_of(a, b)]
            &&& edge_placed(operator, before.0, before.1.len() as nat, a, b, after.1, before.2, after.2)
        },
    }
}

/// What one edge visit of the red-green split did: the edge is split
/// exactly when the operator's rule says so for its two end vertices, and
/// then as `split_step` says.
pub open spec fn maybe_split_step<O: EdgeSplitRule>(
    operator: O,
    before: (Map<(usize, usize), usize>, Seq<O::Point>, Pcg32),
    a: usize,
    b: usize,
    after: (Map<(usize, usize), usize>, Seq<O::Point>, Pcg32),
    split: Option<usize>,
) -> bool {
    &&& call_ensures(O::splits_edge, (&operator, &before.1[a as int], &before.1[b as int]), split is Some)
    &&& split_step(operator, before, a, b, after, split)
}

/// Splits only the edges that are long enough: the red split when all three
/// are, the green splits into three or two when some are, and the triangle
/// unchanged when none is.
pub struct RedGreenSplit<O> {
    rng: Pcg32,
    operator: O,
}

impl<O> RedGreenSplit<O> {
    /// The generator the strategy draws from.
    pub closed spec fn spec_rng(&self) -> Pcg32 {
        self.rng
    }

    /// The operator that places split points and picks edges.
    pub closed spec fn spec_operator(&self) -> O {
        self.operator
    }
}

impl<O: EdgeSplitRule> RedGreenSplit<O> {
    /// The strategy that places split points and picks edges with
    /// `operator`, drawing from a generator seeded with `seed`.
    pub fn new(seed: Seed, operator: O) -> (strategy: RedGreenSplit<O>)
        ensures
            strategy.spec_rng() == seeded_pcg32(seed@),
            strategy.spec_operator() == operator,
    {
        RedGreenSplit { rng: pcg32_from_seed(seed.value()), operator }
    }

    /// The vertex that splits the edge from `a` to `b`, or nothing when the
    /// operator's rule says the edge is not split.
    pub fn maybe_split(&mut self, a: usize, b: usize, vertices: &mut Vec<O::Point>, edges: &mut EdgeCache) -> (split: Option<usize>)
        requires
            a < old(vertices).len(),
            b < old(vertices).len(),
        ensures
            maybe_split_step(
                old(self).spec_operator(),
                (old(edges)@, old(vertices)@, old(self).spec_rng()),
                a,
                b,
                (final(edges)@, final(vertices)@, final(self).spec_rng()),
                split,
            ),
            final(self).spec_operator() == old(self).spec_operator(),
    {
        let splits = self.operator.splits_edge(&vertices[a], &vertices[b]);
        self.split_if(splits, a, b, vertices, edges)
    }

    /// Given whether the edge from `a` to `b` is to be split: nothing if it
    /// is not, else the vertex that splits it, the cached one or a new one
    /// that the operator places.
    pub fn split_if(&mut self, splits: bool, a: usize, b: usize, vertices: &mut Vec<O::Point>, edges: &mut EdgeCache) -> (split: Option<usize>)
        requires
            a < old(vertices).len(),
            b < old(vertices).len(),
        ensures
            split is Some <==> splits,
            split_step(
                old(self).spec_operator(),
                (old(edges)@, old(vertices)@, old(self).spec_rng()),
                a,
                b,
                (final(edges)@, final(vertices)@, final(self).spec_rng()),
                split,
            ),
            final(self).spec_operator() == old(self).spec_operator(),
    {
        if !splits {
            return None;
        }
        Some(edges.get_or_insert_with(a, b, vertices, &self.operator, &mut self.rng))
    }

    /// The children of the triangle: the edges that the operator's rule
    /// picks split, in the order ab, bc, ca, and the pieces laid out by
    /// `red_green_children`.
    pub fn split_triangle(
        &mut self,
        vertices: &mut Vec<O::Point>,
        edges: &mut EdgeCache,
        triangle: (usize, usize, usize),
    ) -> (children: Vec<(usize, usize, usize)>)
        requires
            triangle.0 < old(vertices).len(),
            triangle.1 < old(vertices).len(),
            triangle.2 < old(vertices).len(),
        ensures
            final(self).spec_operator() == old(self).spec_operator(),
            exists|
                s1: (Map<(usize, usize), usize>, Seq<O::Point>, Pcg32),
                s2: (Map<(usize, usize), usize>, Seq<O::Point>, Pcg32),
                ab: Option<usize>,
                bc: Option<usize>,
                ca: Option<usize>,
            | {
                &&& maybe_split_step(old(self).spec_operator(), (old(edges)@, old(vertices)@, old(self).spec_rng()), triangle.0, triangle.1, s1, ab)
                &&& maybe_split_step(old(self).spec_operator(), s1, triangle.1, triangle.2, s2, bc)
                &&& maybe_split_step(
                    old(self).spec_operator(),
                    s2,
                    triangle.2,
                    triangle.0,
                    (final(edges)@, final(vertices)@, final(self).spec_rng()),
                    ca,
                )
                &&& children@ == red_green_children(triangle, ab, bc, ca)
            },
    {
        let (a, b, c) = triangle;
        let ghost s0 = (edges@, vertices@, self.spec_rng());
        let ab = self.maybe_split(a, b, vertices, edges);
        let ghost s1 = (edges@, vertices@, self.spec_rng());
        let bc = self.maybe_split(b, c, vertices, edges);
        let ghost s2 = (edges@, vertices@, self.spec_rng());
        let ca = self.maybe_split(c, a, vertices, edges);
        let children = red_green_pattern(triangle, ab, bc, ca);
        assert(maybe_split_step(self.spec_operator(), s0, a, b, s1, ab));
        children
    }
}

} // verus!
