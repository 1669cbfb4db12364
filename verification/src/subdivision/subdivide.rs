use vstd::prelude::*;

use rand_pcg::Pcg32;

use super::edge::{edge_placed, key_of, visit_edge, EdgeCache};
use super::strategies::uniform_red_split::UniformRedSplit;
use super::subdivision_args::{SubdivisionArgs, UpdateCallback};
use crate::geometry::mesh::{all_in_bounds, corner_in_bounds, is_default, same_face, same_vertex, Mesh, MeshError};
use crate::geometry::orientation::{
    boundary_piece, cuts_fresh, lemma_one_of_four, one_of_four_runs_along, runs_along, some_runs_along, tiles_oriented,
};
use crate::processor::vertex_operator::seeded_pcg32;
use crate::processor::vertex_operator::{places, VertexOperator};

verus! {

/// The edges that a triangle walks, in order: a to b, b to c, c to a.
pub open spec fn triangle_visits(t: (usize, usize, usize)) -> Seq<(usize, usize)> {
    seq![(t.0, t.1), (t.1, t.2), (t.2, t.0)]
}

/// The edges that the triangles walk, triangle by triangle.
pub open spec fn visits(tris: Seq<(usize, usize, usize)>) -> Seq<(usize, usize)>
    decreases tris.len(),
{
    if tris.len() == 0 {
        Seq::empty()
    } else {
        visits(tris.drop_last()) + triangle_visits(tris.last())
    }
}

/// The cache and the vertex count after visiting the edges `es` in order.
pub open spec fn visit_all(cache: Map<(usize, usize), usize>, count: nat, es: Seq<(usize, usize)>) -> (Map<(usize, usize), usize>, nat)
    decreases es.len(),
{
    if es.len() == 0 {
        (cache, count)
    } else {
        let s = visit_all(cache, count, es.drop_last());
        visit_edge(s.0, s.1, es.last().0, es.last().1)
    }
}

/// `states` are the generator's states as the edges `es` are visited in
/// order, starting with `cache` and `count` vertices: one before each edge
/// and one after the last. Each edge not yet filed has its vertex in
/// `points` placed by the operator, taking the generator from its state
/// before that edge to its state after.
pub open spec fn placement_chain<O: VertexOperator>(
    operator: O,
    cache: Map<(usize, usize), usize>,
    count: nat,
    es: Seq<(usize, usize)>,
    points: Seq<O::Point>,
    states: Seq<Pcg32>,
) -> bool
    decreases es.len(),
{
    if es.len() == 0 {
        states.len() == 1
    } else {
        let s = visit_all(cache, count, es.drop_last());
        &&& states.len() == es.len() + 1
        &&& placement_chain(operator, cache, count, es.drop_last(), points, states.drop_last())
        &&& edge_placed(operator, s.0, s.1, es.last().0, es.last().1, points, states[es.len() - 1], states.last())
    }
}

/// The generator goes from `before` to `after` as the edges `es` are visited
/// in order, starting with `cache` and `count` vertices, each new vertex in
/// `points` placed by the operator: see `placement_chain`.
pub open spec fn placed_along<O: VertexOperator>(
    operator: O,
    cache: Map<(usize, usize), usize>,
    count: nat,
    es: Seq<(usize, usize)>,
    points: Seq<O::Point>,
    before: Pcg32,
    after: Pcg32,
) -> bool {
    exists|states: Seq<Pcg32>|
        #[trigger] placement_chain(operator, cache, count, es, points, states) && states[0] == before && states.last() == after
}

/// Every edge of `es` runs between vertices below `n`.
pub open spec fn edges_below(es: Seq<(usize, usize)>, n: nat) -> bool {
    forall|i: int| 0 <= i < es.len() ==> (#[trigger] es[i]).0 < n && es[i].1 < n
}

proof fn lemma_chain_len<O: VertexOperator>(
    operator: O,
    cache: Map<(usize, usize), usize>,
    count: nat,
    es: Seq<(usize, usize)>,
    points: Seq<O::Point>,
    states: Seq<Pcg32>,
)
    requires
        placement_chain(operator, cache, count, es, points, states),
    ensures
        states.len() == es.len() + 1,
{
}

/// One more edge placed extends the chain.
pub proof fn lemma_placed_along_push<O: VertexOperator>(
    operator: O,
    cache: Map<(usize, usize), usize>,
    count: nat,
    es: Seq<(usize, usize)>,
    e: (usize, usize),
    points: Seq<O::Point>,
    before: Pcg32,
    mid: Pcg32,
    after: Pcg32,
)
    requires
        placed_along(operator, cache, count, es, points, before, mid),
        ({
            let s = visit_all(cache, count, es);
            edge_placed(operator, s.0, s.1, e.0, e.1, points, mid, after)
        }),
    ensures
        placed_along(operator, cache, count, es.push(e), points, before, after),
{
    let states = choose|states: Seq<Pcg32>|
        #[trigger] placement_chain(operator, cache, count, es, points, states) && states[0] == before && states.last() == mid;
    lemma_chain_len(operator, cache, count, es, points, states);
    let next = states.push(after);
    assert(es.push(e).drop_last() =~= es);
    assert(next.drop_last() =~= states);
    assert(placement_chain(operator, cache, count, es.push(e), points, next));
}

/// Nothing visited: the generator is where it was.
pub proof fn lemma_placed_along_empty<O: VertexOperator>(
    operator: O,
    cache: Map<(usize, usize), usize>,
    count: nat,
    points: Seq<O::Point>,
    rng: Pcg32,
)
    ensures
        placed_along(operator, cache, count, Seq::empty(), points, rng, rng),
{
    assert(placement_chain(operator, cache, count, Seq::empty(), points, seq![rng]));
}

/// The edges of triangles whose corners are below `n` run between vertices
/// below `n`.
pub proof fn lemma_visits_below(tris: Seq<(usize, usize, usize)>, n: nat)
    requires
        all_in_bounds(tris, n as int),
    ensures
        edges_below(visits(tris), n),
    decreases tris.len(),
{
    if tris.len() > 0 {
        let init = tris.drop_last();
        assert(all_in_bounds(init, n as int)) by {
            assert forall|j: int| 0 <= j < init.len() implies #[trigger] corner_in_bounds(init[j], n as int) by {
                assert(corner_in_bounds(tris[j], n as int));
            }
        }
        lemma_visits_below(init, n);
        assert(corner_in_bounds(tris[tris.len() - 1], n as int));
        lemma_visits_len(init);
        let es = visits(tris);
        assert forall|i: int| 0 <= i < es.len() implies (#[trigger] es[i]).0 < n && es[i].1 < n by {
            if i < visits(init).len() {
                assert(es[i] == visits(init)[i]);
            } else {
                assert(es[i] == triangle_visits(tris.last())[i - visits(init).len()]);
            }
        }
    }
}

/// Visiting edges never lowers the vertex count.
pub proof fn lemma_visit_all_grows(cache: Map<(usize, usize), usize>, count: nat, es: Seq<(usize, usize)>)
    ensures
        count <= visit_all(cache, count, es).1,
    decreases es.len(),
{
    if es.len() > 0 {
        lemma_visit_all_grows(cache, count, es.drop_last());
    }
}

proof fn lemma_chain_frame<O: VertexOperator>(
    operator: O,
    cache: Map<(usize, usize), usize>,
    count: nat,
    es: Seq<(usize, usize)>,
    p: Seq<O::Point>,
    q: Seq<O::Point>,
    states: Seq<Pcg32>,
)
    requires
        placement_chain(operator, cache, count, es, p, states),
        edges_below(es, count),
        visit_all(cache, count, es).1 <= p.len(),
        visit_all(cache, count, es).1 <= q.len(),
        forall|i: int| 0 <= i < visit_all(cache, count, es).1 ==> #[trigger] p[i] == q[i],
    ensures
        placement_chain(operator, cache, count, es, q, states),
    decreases es.len(),
{
    if es.len() > 0 {
        let init = es.drop_last();
        let s = visit_all(cache, count, init);
        lemma_visit_all_grows(cache, count, init);
        assert(edges_below(init, count)) by {
            assert forall|i: int| 0 <= i < init.len() implies (#[trigger] init[i]).0 < count && init[i].1 < count by {
                assert(es[i] == init[i]);
            }
        }
        assert(es[es.len() - 1] == es.last());
        let (a, b) = es.last();
        if s.0.contains_key(key_of(a, b)) {
            assert(visit_all(cache, count, es) == s);
        } else {
            assert(visit_all(cache, count, es).1 == s.1 + 1);
            assert(p[s.1 as int] == q[s.1 as int]);
        }
        assert(s.1 <= visit_all(cache, count, es).1);
        lemma_chain_frame(operator, cache, count, init, p, q, states.drop_last());
        assert(p[a as int] == q[a as int]);
        assert(p[b as int] == q[b as int]);
    }
}

/// The chain reads `points` only below the final vertex count, so any
/// sequence that agrees with it there carries the same chain.
pub proof fn lemma_placed_along_frame<O: VertexOperator>(
    operator: O,
    cache: Map<(usize, usize), usize>,
    count: nat,
    es: Seq<(usize, usize)>,
    p: Seq<O::Point>,
    q: Seq<O::Point>,
    before: Pcg32,
    after: Pcg32,
)
    requires
        placed_along(operator, cache, count, es, p, before, after),
        edges_below(es, count),
        visit_all(cache, count, es).1 <= p.len(),
        visit_all(cache, count, es).1 <= q.len(),
        forall|i: int| 0 <= i < visit_all(cache, count, es).1 ==> #[trigger] p[i] == q[i],
    ensures
        placed_along(operator, cache, count, es, q, before, after),
{
    let states = choose|states: Seq<Pcg32>|
        #[trigger] placement_chain(operator, cache, count, es, p, states) && states[0] == before && states.last() == after;
    lemma_chain_frame(operator, cache, count, es, p, q, states);
}

proof fn lemma_chain_concat<O: VertexOperator>(
    operator: O,
    cache: Map<(usize, usize), usize>,
    count: nat,
    es1: Seq<(usize, usize)>,
    es2: Seq<(usize, usize)>,
    points: Seq<O::Point>,
    st1: Seq<Pcg32>,
    st2: Seq<Pcg32>,
)
    requires
        placement_chain(operator, cache, count, es1, points, st1),
        ({
            let s = visit_all(cache, count, es1);
            placement_chain(operator, s.0, s.1, es2, points, st2)
        }),
        st1.last() == st2[0],
    ensures
        placement_chain(operator, cache, count, es1 + es2, points, st1 + st2.drop_first()),
    decreases es2.len(),
{
    lemma_chain_len(operator, cache, count, es1, points, st1);
    let s = visit_all(cache, count, es1);
    lemma_chain_len(operator, s.0, s.1, es2, points, st2);
    if es2.len() == 0 {
        assert(es1 + es2 =~= es1);
        assert(st1 + st2.drop_first() =~= st1);
    } else {
        let init = es2.drop_last();
        lemma_chain_concat(operator, cache, count, es1, init, points, st1, st2.drop_last());
        lemma_visit_all_concat(cache, count, es1, init);
        assert((es1 + es2).drop_last() =~= es1 + init);
        assert((es1 + es2).last() == es2.last());
        let all = st1 + st2.drop_first();
        assert(all.drop_last() =~= st1 + st2.drop_last().drop_first());
        assert(all.last() == st2.last());
        assert(all[(es1 + es2).len() - 1] == st2[es2.len() - 1]);
    }
}

/// Two chains, one after the other, make the chain along both.
pub proof fn lemma_placed_along_concat<O: VertexOperator>(
    operator: O,
    cache: Map<(usize, usize), usize>,
    count: nat,
    es1: Seq<(usize, usize)>,
    es2: Seq<(usize, usize)>,
    points: Seq<O::Point>,
    before: Pcg32,
    mid: Pcg32,
    after: Pcg32,
)
    requires
        placed_along(operator, cache, count, es1, points, before, mid),
        ({
            let s = visit_all(cache, count, es1);
            placed_along(operator, s.0, s.1, es2, points, mid, after)
        }),
    ensures
        placed_along(operator, cache, count, es1 + es2, points, before, after),
{
    let s = visit_all(cache, count, es1);
    let st1 = choose|states: Seq<Pcg32>|
        #[trigger] placement_chain(operator, cache, count, es1, points, states) && states[0] == before && states.last() == mid;
    let st2 = choose|states: Seq<Pcg32>|
        #[trigger] placement_chain(operator, s.0, s.1, es2, points, states) && states[0] == mid && states.last() == after;
    lemma_chain_len(operator, cache, count, es1, points, st1);
    lemma_chain_len(operator, s.0, s.1, es2, points, st2);
    lemma_chain_concat(operator, cache, count, es1, es2, points, st1, st2);
    let all = st1 + st2.drop_first();
    assert(all[0] == before);
    if es2.len() == 0 {
        assert(all =~= st1);
    } else {
        assert(all.last() == st2.last());
    }
}

/// Every vertex that the cache holds is below `count`.
pub open spec fn cache_bounded(cache: Map<(usize, usize), usize>, count: nat) -> bool {
    forall|k: (usize, usize)| #[trigger] cache.contains_key(k) ==> cache[k] < count
}

/// `big` holds every edge of `small`, with the same vertex.
pub open spec fn cache_extends(small: Map<(usize, usize), usize>, big: Map<(usize, usize), usize>) -> bool {
    forall|k: (usize, usize)| #[trigger] small.contains_key(k) ==> big.contains_key(k) && big[k] == small[k]
}

/// The cache holds all three edges of the triangle.
pub open spec fn triangle_keyed(cache: Map<(usize, usize), usize>, t: (usize, usize, usize)) -> bool {
    cache.contains_key(key_of(t.0, t.1)) && cache.contains_key(key_of(t.1, t.2)) && cache.contains_key(key_of(t.2, t.0))
}

/// The cache holds every edge of every triangle.
pub open spec fn tris_keyed(cache: Map<(usize, usize), usize>, tris: Seq<(usize, usize, usize)>) -> bool {
    forall|i: int| 0 <= i < tris.len() ==> #[trigger] triangle_keyed(cache, tris[i])
}

/// The four children of the triangle a, b, c once its edges are split at
/// the vertices the cache gives them: one at each corner, one in the middle.
pub open spec fn red_children(t: (usize, usize, usize), cache: Map<(usize, usize), usize>) -> Seq<(usize, usize, usize)> {
    let ab = cache[key_of(t.0, t.1)];
    let bc = cache[key_of(t.1, t.2)];
    let ca = cache[key_of(t.2, t.0)];
    seq![(t.0, ab, ca), (t.1, bc, ab), (t.2, ca, bc), (ab, bc, ca)]
}

/// The law of a red split: once the sides ab, bc and ca of the triangle
/// a, b, c are cut at three new vertices of their own, its four children
/// tile it with its orientation, the corner children starting at a, b and c
/// and the middle one at the vertex of ab.
pub proof fn lemma_red_children_tile(t: (usize, usize, usize), cache: Map<(usize, usize), usize>)
    requires
        cuts_fresh(t, Some(cache[key_of(t.0, t.1)]), Some(cache[key_of(t.1, t.2)]), Some(cache[key_of(t.2, t.0)])),
    ensures
        ({
            let ab = cache[key_of(t.0, t.1)];
            let bc = cache[key_of(t.1, t.2)];
            let ca = cache[key_of(t.2, t.0)];
            let kids = red_children(t, cache);
            &&& kids.len() == 4
            &&& tiles_oriented(t, Some(ab), Some(bc), Some(ca), kids)
            &&& kids[0].0 == t.0 && kids[1].0 == t.1 && kids[2].0 == t.2 && kids[3].0 == ab
        }),
{
    let ab = cache[key_of(t.0, t.1)];
    let bc = cache[key_of(t.1, t.2)];
    let ca = cache[key_of(t.2, t.0)];
    let kids = red_children(t, cache);
    assert forall|e: (usize, usize)| #[trigger] boundary_piece(t, Some(ab), Some(bc), Some(ca), e) implies some_runs_along(kids, e) by {
        assert(one_of_four_runs_along(kids, e));
        lemma_one_of_four(kids, e);
    }
    assert forall|i: int, e: (usize, usize)|
        0 <= i < kids.len() && #[trigger] runs_along(kids[i], e) implies boundary_piece(t, Some(ab), Some(bc), Some(ca), e)
            || some_runs_along(kids, (e.1, e.0)) by {
        if !boundary_piece(t, Some(ab), Some(bc), Some(ca), e) {
            assert(one_of_four_runs_along(kids, (e.1, e.0)));
            lemma_one_of_four(kids, (e.1, e.0));
        }
    }
}

/// The children of all the triangles, four per triangle, in order.
pub open spec fn red_split_all(tris: Seq<(usize, usize, usize)>, cache: Map<(usize, usize), usize>) -> Seq<(usize, usize, usize)>
    decreases tris.len(),
{
    if tris.len() == 0 {
        Seq::empty()
    } else {
        red_split_all(tris.drop_last(), cache) + red_children(tris.last(), cache)
    }
}

/// One round of uniform red splitting of the triangles over `n` vertices:
/// the new vertex count and the new triangles. Each edge is split once, at
/// a new vertex numbered in the order the edges are first walked.
pub open spec fn red_split_round(n: nat, tris: Seq<(usize, usize, usize)>) -> (nat, Seq<(usize, usize, usize)>) {
    let s = visit_all(Map::empty(), n, visits(tris));
    (s.1, red_split_all(tris, s.0))
}

/// `k` rounds of uniform red splitting.
pub open spec fn red_split_steps(n: nat, tris: Seq<(usize, usize, usize)>, k: nat) -> (nat, Seq<(usize, usize, usize)>)
    decreases k,
{
    if k == 0 {
        (n, tris)
    } else {
        let r = red_split_steps(n, tris, (k - 1) as nat);
        red_split_round(r.0, r.1)
    }
}

pub proof fn lemma_visits_len(tris: Seq<(usize, usize, usize)>)
    ensures
        visits(tris).len() == 3 * tris.len(),
    decreases tris.len(),
{
    if tris.len() > 0 {
        lemma_visits_len(tris.drop_last());
    }
}

pub proof fn lemma_visit_all_concat(cache: Map<(usize, usize), usize>, count: nat, a: Seq<(usize, usize)>, b: Seq<(usize, usize)>)
    ensures
        visit_all(cache, count, a + b) == ({
            let s = visit_all(cache, count, a);
            visit_all(s.0, s.1, b)
        }),
    decreases b.len(),
{
    if b.len() == 0 {
        assert(a + b =~= a);
    } else {
        assert((a + b).drop_last() =~= a + b.drop_last());
        assert((a + b).last() == b.last());
        lemma_visit_all_concat(cache, count, a, b.drop_last());
    }
}

pub proof fn lemma_visit_all_triangle(cache: Map<(usize, usize), usize>, count: nat, t: (usize, usize, usize))
    ensures
        visit_all(cache, count, triangle_visits(t)) == ({
            let s1 = visit_edge(cache, count, t.0, t.1);
            let s2 = visit_edge(s1.0, s1.1, t.1, t.2);
            visit_edge(s2.0, s2.1, t.2, t.0)
        }),
{
    let es = triangle_visits(t);
    assert(es.drop_last() =~= seq![(t.0, t.1), (t.1, t.2)]);
    assert(es.drop_last().drop_last() =~= seq![(t.0, t.1)]);
    assert(es.drop_last().drop_last().drop_last() =~= Seq::<(usize, usize)>::empty());
    let s0 = visit_all(cache, count, es.drop_last().drop_last().drop_last());
    assert(s0 == (cache, count));
    let s1 = visit_all(cache, count, es.drop_last().drop_last());
    assert(s1 == visit_edge(cache, count, t.0, t.1));
    let s2 = visit_all(cache, count, es.drop_last());
    assert(s2 == visit_edge(s1.0, s1.1, t.1, t.2));
}

/// Visiting a triangle's edges keeps what the cache held, files all three
/// edges, adds at most three vertices, and keeps every cached vertex below
/// the count.
pub proof fn lemma_visit_triangle(cache: Map<(usize, usize), usize>, count: nat, t: (usize, usize, usize))
    ensures
        ({
            let s = visit_all(cache, count, triangle_visits(t));
            &&& cache_extends(cache, s.0)
            &&& triangle_keyed(s.0, t)
            &&& count <= s.1 <= count + 3
            &&& cache_bounded(cache, count) ==> cache_bounded(s.0, s.1)
        }),
{
    lemma_visit_all_triangle(cache, count, t);
}

/// Visiting the triangles' edges keeps what the cache held, files every
/// edge, adds at most three vertices per triangle, and keeps every cached
/// vertex below the count.
pub proof fn lemma_visit_tris(cache: Map<(usize, usize), usize>, count: nat, tris: Seq<(usize, usize, usize)>)
    ensures
        ({
            let s = visit_all(cache, count, visits(tris));
            &&& cache_extends(cache, s.0)
            &&& tris_keyed(s.0, tris)
            &&& count <= s.1 <= count + 3 * tris.len()
            &&& cache_bounded(cache, count) ==> cache_bounded(s.0, s.1)
        }),
    decreases tris.len(),
{
    if tris.len() > 0 {
        let init = tris.drop_last();
        let t = tris.last();
        lemma_visit_tris(cache, count, init);
        lemma_visit_all_concat(cache, count, visits(init), triangle_visits(t));
        let s1 = visit_all(cache, count, visits(init));
        lemma_visit_triangle(s1.0, s1.1, t);
        let s = visit_all(cache, count, visits(tris));
        assert forall|i: int| 0 <= i < tris.len() implies #[trigger] triangle_keyed(s.0, tris[i]) by {
            if i < tris.len() - 1 {
                assert(triangle_keyed(s1.0, init[i]));
            }
        }
    }
}

/// Children read from a cache stay the same in any cache that extends it,
/// once the cache holds all their parents' edges.
pub proof fn lemma_red_split_all_stable(tris: Seq<(usize, usize, usize)>, small: Map<(usize, usize), usize>, big: Map<(usize, usize), usize>)
    requires
        tris_keyed(small, tris),
        cache_extends(small, big),
    ensures
        red_split_all(tris, small) == red_split_all(tris, big),
    decreases tris.len(),
{
    if tris.len() > 0 {
        assert(triangle_keyed(small, tris[tris.len() - 1]));
        lemma_red_split_all_stable(tris.drop_last(), small, big);
    }
}

pub proof fn lemma_red_split_all_len(tris: Seq<(usize, usize, usize)>, cache: Map<(usize, usize), usize>)
    ensures
        red_split_all(tris, cache).len() == 4 * tris.len(),
    decreases tris.len(),
{
    if tris.len() > 0 {
        lemma_red_split_all_len(tris.drop_last(), cache);
    }
}

/// The children of in-bounds triangles, read from a cache that holds their
/// edges at in-bounds vertices, are in bounds.
pub proof fn lemma_red_split_all_in_bounds(tris: Seq<(usize, usize, usize)>, cache: Map<(usize, usize), usize>, count: nat)
    requires
        all_in_bounds(tris, count as int),
        tris_keyed(cache, tris),
        cache_bounded(cache, count),
    ensures
        all_in_bounds(red_split_all(tris, cache), count as int),
    decreases tris.len(),
{
    if tris.len() > 0 {
        let init = tris.drop_last();
        let t = tris.last();
        assert(tris_keyed(cache, init)) by {
            assert forall|i: int| 0 <= i < init.len() implies #[trigger] triangle_keyed(cache, init[i]) by {
                assert(triangle_keyed(cache, tris[i]));
            }
        }
        assert(all_in_bounds(init, count as int)) by {
            assert forall|i: int| 0 <= i < init.len() implies #[trigger] corner_in_bounds(init[i], count as int) by {
                assert(corner_in_bounds(tris[i], count as int));
            }
        }
        lemma_red_split_all_in_bounds(init, cache, count);
        assert(triangle_keyed(cache, tris[tris.len() - 1]));
        assert(corner_in_bounds(tris[tris.len() - 1], count as int));
        let head = red_split_all(init, cache);
        let kids = red_children(t, cache);
        assert forall|i: int| 0 <= i < head.len() + kids.len() implies #[trigger] corner_in_bounds((head + kids)[i], count as int) by {
            if i < head.len() {
                assert(corner_in_bounds(head[i], count as int));
            }
        }
    }
}

/// `states` are the generator's states over `k` rounds of uniform red
/// splitting from `n` vertices and the triangles `tris`: one before each
/// round and one after the last. Each round places its new vertices in
/// `points` along the chain of `placed_along`, from its state before to its
/// state after.
pub open spec fn rounds_chain<O: VertexOperator>(
    operator: O,
    n: nat,
    tris: Seq<(usize, usize, usize)>,
    k: nat,
    points: Seq<O::Point>,
    states: Seq<Pcg32>,
) -> bool
    decreases k,
{
    if k == 0 {
        states.len() == 1
    } else {
        let r = red_split_steps(n, tris, (k - 1) as nat);
        &&& states.len() == k + 1
        &&& rounds_chain(operator, n, tris, (k - 1) as nat, points, states.drop_last())
        &&& placed_along(operator, Map::empty(), r.0, visits(r.1), points, states[k - 1], states[k as int])
    }
}

/// The generator goes from `before` to `after` over `k` rounds of uniform
/// red splitting, each new vertex in `points` placed by the operator: see
/// `rounds_chain`.
pub open spec fn rounds_placed<O: VertexOperator>(
    operator: O,
    n: nat,
    tris: Seq<(usize, usize, usize)>,
    k: nat,
    points: Seq<O::Point>,
    before: Pcg32,
    after: Pcg32,
) -> bool {
    exists|states: Seq<Pcg32>| #[trigger] rounds_chain(operator, n, tris, k, points, states) && states[0] == before && states.last() == after
}

proof fn lemma_rounds_chain_len<O: VertexOperator>(
    operator: O,
    n: nat,
    tris: Seq<(usize, usize, usize)>,
    k: nat,
    points: Seq<O::Point>,
    states: Seq<Pcg32>,
)
    requires
        rounds_chain(operator, n, tris, k, points, states),
    ensures
        states.len() == k + 1,
{
}

/// No round: the generator is where it was.
pub proof fn lemma_rounds_placed_zero<O: VertexOperator>(
    operator: O,
    n: nat,
    tris: Seq<(usize, usize, usize)>,
    points: Seq<O::Point>,
    rng: Pcg32,
)
    ensures
        rounds_placed(operator, n, tris, 0, points, rng, rng),
{
    assert(rounds_chain(operator, n, tris, 0, points, seq![rng]));
}

/// One more round placed extends the chain.
pub proof fn lemma_rounds_placed_push<O: VertexOperator>(
    operator: O,
    n: nat,
    tris: Seq<(usize, usize, usize)>,
    k: nat,
    points: Seq<O::Point>,
    before: Pcg32,
    mid: Pcg32,
    after: Pcg32,
)
    requires
        rounds_placed(operator, n, tris, k, points, before, mid),
        ({
            let r = red_split_steps(n, tris, k);
            placed_along(operator, Map::empty(), r.0, visits(r.1), points, mid, after)
        }),
    ensures
        rounds_placed(operator, n, tris, k + 1, points, before, after),
{
    let states = choose|states: Seq<Pcg32>| #[trigger] rounds_chain(operator, n, tris, k, points, states) && states[0] == before && states.last() == mid;
    lemma_rounds_chain_len(operator, n, tris, k, points, states);
    let next = states.push(after);
    assert(next.drop_last() =~= states);
    assert(rounds_chain(operator, n, tris, k + 1, points, next));
}

/// After a round, every triangle's corners are below the new vertex count,
/// and that count is no lower than before.
pub proof fn lemma_red_split_round_in_bounds(n: nat, tris: Seq<(usize, usize, usize)>)
    requires
        all_in_bounds(tris, n as int),
    ensures
        n <= red_split_round(n, tris).0,
        all_in_bounds(red_split_round(n, tris).1, red_split_round(n, tris).0 as int),
{
    let s = visit_all(Map::empty(), n, visits(tris));
    lemma_visit_tris(Map::empty(), n, tris);
    assert forall|j: int| 0 <= j < tris.len() implies #[trigger] corner_in_bounds(tris[j], s.1 as int) by {
        assert(corner_in_bounds(tris[j], n as int));
    }
    lemma_red_split_all_in_bounds(tris, s.0, s.1);
}

/// After any number of rounds, every triangle's corners are below the
/// vertex count, and the count never drops from round to round.
pub proof fn lemma_red_split_steps_in_bounds(n: nat, tris: Seq<(usize, usize, usize)>, k: nat)
    requires
        all_in_bounds(tris, n as int),
    ensures
        all_in_bounds(red_split_steps(n, tris, k).1, red_split_steps(n, tris, k).0 as int),
        k > 0 ==> red_split_steps(n, tris, (k - 1) as nat).0 <= red_split_steps(n, tris, k).0,
    decreases k,
{
    if k > 0 {
        lemma_red_split_steps_in_bounds(n, tris, (k - 1) as nat);
        let r = red_split_steps(n, tris, (k - 1) as nat);
        lemma_red_split_round_in_bounds(r.0, r.1);
    }
}

proof fn lemma_rounds_chain_frame<O: VertexOperator>(
    operator: O,
    n: nat,
    tris: Seq<(usize, usize, usize)>,
    k: nat,
    p: Seq<O::Point>,
    q: Seq<O::Point>,
    states: Seq<Pcg32>,
)
    requires
        rounds_chain(operator, n, tris, k, p, states),
        all_in_bounds(tris, n as int),
        red_split_steps(n, tris, k).0 <= p.len(),
        red_split_steps(n, tris, k).0 <= q.len(),
        forall|i: int| 0 <= i < red_split_steps(n, tris, k).0 ==> #[trigger] p[i] == q[i],
    ensures
        rounds_chain(operator, n, tris, k, q, states),
    decreases k,
{
    if k > 0 {
        let k1 = (k - 1) as nat;
        let r = red_split_steps(n, tris, k1);
        lemma_red_split_steps_in_bounds(n, tris, k);
        lemma_red_split_steps_in_bounds(n, tris, k1);
        lemma_rounds_chain_frame(operator, n, tris, k1, p, q, states.drop_last());
        lemma_visits_below(r.1, r.0);
        assert(red_split_steps(n, tris, k) == red_split_round(r.0, r.1));
        lemma_placed_along_frame(operator, Map::empty(), r.0, visits(r.1), p, q, states[k1 as int], states[k as int]);
    }
}

/// The rounds read `points` only below the final vertex count, so any
/// sequence that agrees with it there carries the same rounds.
pub proof fn lemma_rounds_placed_frame<O: VertexOperator>(
    operator: O,
    n: nat,
    tris: Seq<(usize, usize, usize)>,
    k: nat,
    p: Seq<O::Point>,
    q: Seq<O::Point>,
    before: Pcg32,
    after: Pcg32,
)
    requires
        rounds_placed(operator, n, tris, k, p, before, after),
        all_in_bounds(tris, n as int),
        red_split_steps(n, tris, k).0 <= p.len(),
        red_split_steps(n, tris, k).0 <= q.len(),
        forall|i: int| 0 <= i < red_split_steps(n, tris, k).0 ==> #[trigger] p[i] == q[i],
    ensures
        rounds_placed(operator, n, tris, k, q, before, after),
{
    let states = choose|states: Seq<Pcg32>| #[trigger] rounds_chain(operator, n, tris, k, p, states) && states[0] == before && states.last() == after;
    lemma_rounds_chain_frame(operator, n, tris, k, p, q, states);
}

/// The operator places split points as a function of the generator's state
/// and the edge's end vertices: the same state and ends give the same point
/// and leave the generator in the same state.
pub open spec fn places_deterministically<O: VertexOperator>(operator: O) -> bool {
    forall|before: Pcg32, a: O::Point, b: O::Point, p1: O::Point, r1: Pcg32, p2: O::Point, r2: Pcg32|
        #[trigger] places(operator, before, r1, a, b, p1) && #[trigger] places(operator, before, r2, a, b, p2) ==> p1 == p2 && r1 == r2
}

proof fn lemma_chain_deterministic<O: VertexOperator>(
    operator: O,
    cache: Map<(usize, usize), usize>,
    count: nat,
    es: Seq<(usize, usize)>,
    p: Seq<O::Point>,
    q: Seq<O::Point>,
    st1: Seq<Pcg32>,
    st2: Seq<Pcg32>,
)
    requires
        places_deterministically(operator),
        placement_chain(operator, cache, count, es, p, st1),
        placement_chain(operator, cache, count, es, q, st2),
        st1[0] == st2[0],
        edges_below(es, count),
        visit_all(cache, count, es).1 <= p.len(),
        visit_all(cache, count, es).1 <= q.len(),
        forall|i: int| 0 <= i < count ==> #[trigger] p[i] == q[i],
    ensures
        st1.last() == st2.last(),
        forall|i: int| 0 <= i < visit_all(cache, count, es).1 ==> #[trigger] p[i] == q[i],
    decreases es.len(),
{
    if es.len() > 0 {
        let init = es.drop_last();
        let s = visit_all(cache, count, init);
        lemma_visit_all_grows(cache, count, init);
        assert(edges_below(init, count)) by {
            assert forall|i: int| 0 <= i < init.len() implies (#[trigger] init[i]).0 < count && init[i].1 < count by {
                assert(es[i] == init[i]);
            }
        }
        assert(es[es.len() - 1] == es.last());
        assert(s.1 <= visit_all(cache, count, es).1);
        lemma_chain_deterministic(operator, cache, count, init, p, q, st1.drop_last(), st2.drop_last());
        let (a, b) = es.last();
        assert(p[a as int] == q[a as int]);
        assert(p[b as int] == q[b as int]);
        assert(st1[es.len() - 1] == st1.drop_last().last());
        assert(st2[es.len() - 1] == st2.drop_last().last());
        if !s.0.contains_key(key_of(a, b)) {
            assert(places(operator, st1[es.len() - 1], st1.last(), p[a as int], p[b as int], p[s.1 as int]));
            assert(places(operator, st1[es.len() - 1], st2.last(), p[a as int], p[b as int], q[s.1 as int]));
        }
    }
}

proof fn lemma_rounds_chain_deterministic<O: VertexOperator>(
    operator: O,
    n: nat,
    tris: Seq<(usize, usize, usize)>,
    k: nat,
    p: Seq<O::Point>,
    q: Seq<O::Point>,
    st1: Seq<Pcg32>,
    st2: Seq<Pcg32>,
)
    requires
        places_deterministically(operator),
        rounds_chain(operator, n, tris, k, p, st1),
        rounds_chain(operator, n, tris, k, q, st2),
        st1[0] == st2[0],
        all_in_bounds(tris, n as int),
        red_split_steps(n, tris, k).0 <= p.len(),
        red_split_steps(n, tris, k).0 <= q.len(),
        forall|i: int| 0 <= i < n ==> #[trigger] p[i] == q[i],
    ensures
        st1.last() == st2.last(),
        forall|i: int| 0 <= i < red_split_steps(n, tris, k).0 ==> #[trigger] p[i] == q[i],
    decreases k,
{
    if k > 0 {
        let k1 = (k - 1) as nat;
        let r = red_split_steps(n, tris, k1);
        lemma_red_split_steps_in_bounds(n, tris, k);
        lemma_red_split_steps_in_bounds(n, tris, k1);
        lemma_rounds_chain_deterministic(operator, n, tris, k1, p, q, st1.drop_last(), st2.drop_last());
        lemma_visits_below(r.1, r.0);
        assert(red_split_steps(n, tris, k) == red_split_round(r.0, r.1));
        let c1 = choose|c: Seq<Pcg32>|
            #[trigger] placement_chain(operator, Map::empty(), r.0, visits(r.1), p, c) && c[0] == st1[k1 as int] && c.last() == st1[k as int];
        let c2 = choose|c: Seq<Pcg32>|
            #[trigger] placement_chain(operator, Map::empty(), r.0, visits(r.1), q, c) && c[0] == st2[k1 as int] && c.last() == st2[k as int];
        assert(st1[k1 as int] == st1.drop_last().last());
        assert(st2[k1 as int] == st2.drop_last().last());
        lemma_chain_deterministic(operator, Map::empty(), r.0, visits(r.1), p, q, c1, c2);
    }
}

/// `next` is what `k` rounds of uniform red splitting make of `mesh`, with
/// the split points placed by a default operator drawing from the
/// generator seeded with `seed`.
pub open spec fn subdivided<O: VertexOperator + Default>(mesh: Mesh<O::Point>, k: nat, seed: u64, next: Mesh<O::Point>) -> bool {
    &&& (next.spec_vertices().len() as nat, next.spec_triangles()) == red_split_steps(mesh.spec_vertices().len() as nat, mesh.spec_triangles(), k)
    &&& next.spec_positions().take(mesh.spec_vertices().len() as int) == mesh.spec_positions()
    &&& exists|operator: O, after: Pcg32|
        is_default(operator) && #[trigger] rounds_placed(
            operator,
            mesh.spec_vertices().len() as nat,
            mesh.spec_triangles(),
            k,
            next.spec_positions(),
            seeded_pcg32(seed),
            after,
        )
}

/// Rounds placed by an operator that is a function of its generator and edge
/// ends, from the same generator state and over vertices that agree at the
/// start, agree on every vertex and end in the same generator state.
pub proof fn lemma_rounds_placed_deterministic<O: VertexOperator>(
    operator: O,
    n: nat,
    tris: Seq<(usize, usize, usize)>,
    k: nat,
    p: Seq<O::Point>,
    q: Seq<O::Point>,
    before: Pcg32,
    after1: Pcg32,
    after2: Pcg32,
)
    requires
        places_deterministically(operator),
        rounds_placed(operator, n, tris, k, p, before, after1),
        rounds_placed(operator, n, tris, k, q, before, after2),
        all_in_bounds(tris, n as int),
        red_split_steps(n, tris, k).0 <= p.len(),
        red_split_steps(n, tris, k).0 <= q.len(),
        forall|i: int| 0 <= i < n ==> #[trigger] p[i] == q[i],
    ensures
        after1 == after2,
        forall|i: int| 0 <= i < red_split_steps(n, tris, k).0 ==> #[trigger] p[i] == q[i],
{
    let st1 = choose|st: Seq<Pcg32>| #[trigger] rounds_chain(operator, n, tris, k, p, st) && st[0] == before && st.last() == after1;
    let st2 = choose|st: Seq<Pcg32>| #[trigger] rounds_chain(operator, n, tris, k, q, st) && st[0] == before && st.last() == after2;
    lemma_rounds_chain_deterministic(operator, n, tris, k, p, q, st1, st2);
}

/// The same mesh, number of rounds and seed give the same subdivided mesh,
/// so long as the operator is a function of its generator and edge ends and
/// its default is one value.
pub proof fn lemma_subdivided_deterministic<O: VertexOperator + Default>(
    mesh: Mesh<O::Point>,
    k: nat,
    seed: u64,
    first: Mesh<O::Point>,
    second: Mesh<O::Point>,
)
    requires
        mesh.inv(),
        forall|o1: O, o2: O| is_default(o1) && is_default(o2) ==> o1 == o2,
        forall|o: O| is_default(o) ==> places_deterministically(o),
        subdivided::<O>(mesh, k, seed, first),
        subdivided::<O>(mesh, k, seed, second),
    ensures
        first.spec_positions() == second.spec_positions(),
        first.spec_triangles() == second.spec_triangles(),
{
    let n = mesh.spec_vertices().len() as nat;
    let tris = mesh.spec_triangles();
    let (o1, a1) = choose|o: O, a: Pcg32| is_default(o) && #[trigger] rounds_placed(o, n, tris, k, first.spec_positions(), seeded_pcg32(seed), a);
    let (o2, a2) = choose|o: O, a: Pcg32| is_default(o) && #[trigger] rounds_placed(o, n, tris, k, second.spec_positions(), seeded_pcg32(seed), a);
    assert(o1 == o2);
    let p = first.spec_positions();
    let q = second.spec_positions();
    assert(all_in_bounds(tris, n as int)) by {
        assert forall|j: int| 0 <= j < tris.len() implies #[trigger] corner_in_bounds(tris[j], n as int) by {
            lemma_face_in_bounds(mesh, j);
        }
    }
    lemma_red_split_steps_size(n, tris, k);
    assert forall|i: int| 0 <= i < n implies #[trigger] p[i] == q[i] by {
        assert(p.take(n as int)[i] == mesh.spec_positions()[i]);
        assert(q.take(n as int)[i] == mesh.spec_positions()[i]);
    }
    lemma_rounds_placed_deterministic(o1, n, tris, k, p, q, seeded_pcg32(seed), a1, a2);
    assert(p =~= q);
}

/// `4^k`.
pub open spec fn pow4(k: nat) -> nat
    decreases k,
{
    if k == 0 {
        1
    } else {
        4 * pow4((k - 1) as nat)
    }
}

/// After `k` rounds from `n` vertices and `t` triangles there are
/// `t * 4^k` triangles and at most `n + t * (4^k - 1)` vertices.
pub proof fn lemma_red_split_steps_size(n: nat, tris: Seq<(usize, usize, usize)>, k: nat)
    ensures
        red_split_steps(n, tris, k).1.len() == tris.len() * pow4(k),
        n <= red_split_steps(n, tris, k).0,
        red_split_steps(n, tris, k).0 + tris.len() <= n + tris.len() * pow4(k),
    decreases k,
{
    if k == 0 {
        assert(tris.len() * pow4(0) == tris.len()) by (nonlinear_arith)
            requires
                pow4(0) == 1,
        ;
    } else {
        let k1 = (k - 1) as nat;
        lemma_red_split_steps_size(n, tris, k1);
        let r = red_split_steps(n, tris, k1);
        let s = visit_all(Map::empty(), r.0, visits(r.1));
        lemma_red_split_all_len(r.1, s.0);
        lemma_visit_tris(Map::empty(), r.0, r.1);
        assert(red_split_steps(n, tris, k) == red_split_round(r.0, r.1));
        assert(red_split_round(r.0, r.1) == (s.1, red_split_all(r.1, s.0)));
        assert(pow4(k) == 4 * pow4(k1));
        let x = tris.len() * pow4(k1);
        assert(tris.len() * pow4(k) == 4 * x) by (nonlinear_arith)
            requires
                pow4(k) == 4 * pow4(k1),
                x == tris.len() * pow4(k1),
        ;
        assert(r.1.len() == x);
        assert(s.1 <= r.0 + 3 * r.1.len());
    }
}

/// Distinct edges are split at distinct vertices.
pub open spec fn cache_distinct(cache: Map<(usize, usize), usize>) -> bool {
    forall|k1: (usize, usize), k2: (usize, usize)|
        #[trigger] cache.contains_key(k1) && #[trigger] cache.contains_key(k2) && k1 != k2 ==> cache[k1] != cache[k2]
}

/// Every vertex that the cache holds lies in `lo..hi`.
pub open spec fn cache_within(cache: Map<(usize, usize), usize>, lo: nat, hi: nat) -> bool {
    forall|k: (usize, usize)| #[trigger] cache.contains_key(k) ==> lo <= cache[k] < hi
}

proof fn lemma_visit_all_fresh(cache: Map<(usize, usize), usize>, lo: nat, count: nat, es: Seq<(usize, usize)>)
    requires
        cache_distinct(cache),
        cache_within(cache, lo, count),
        lo <= count,
        count + es.len() <= usize::MAX + 1,
    ensures
        cache_distinct(visit_all(cache, count, es).0),
        cache_within(visit_all(cache, count, es).0, lo, visit_all(cache, count, es).1),
        count <= visit_all(cache, count, es).1 <= count + es.len(),
    decreases es.len(),
{
    if es.len() > 0 {
        lemma_visit_all_fresh(cache, lo, count, es.drop_last());
    }
}

/// The undirected edges among `es`.
pub open spec fn edge_keys(es: Seq<(usize, usize)>) -> Set<(usize, usize)>
    decreases es.len(),
{
    if es.len() == 0 {
        Set::empty()
    } else {
        edge_keys(es.drop_last()).insert(key_of(es.last().0, es.last().1))
    }
}

/// Visiting edges files exactly the edges visited, and adds one vertex per
/// edge not filed before.
pub proof fn lemma_visit_all_keys(cache: Map<(usize, usize), usize>, count: nat, es: Seq<(usize, usize)>)
    requires
        cache.dom().finite(),
    ensures
        visit_all(cache, count, es).0.dom() == cache.dom().union(edge_keys(es)),
        visit_all(cache, count, es).0.dom().finite(),
        visit_all(cache, count, es).1 + cache.dom().len() == count + visit_all(cache, count, es).0.dom().len(),
    decreases es.len(),
{
    if es.len() > 0 {
        let init = es.drop_last();
        lemma_visit_all_keys(cache, count, init);
        let s1 = visit_all(cache, count, init);
        let k = key_of(es.last().0, es.last().1);
        assert(cache.dom().union(edge_keys(es)) =~= cache.dom().union(edge_keys(init)).insert(k));
        if s1.0.contains_key(k) {
            assert(s1.0.dom().insert(k) =~= s1.0.dom());
        } else {
            assert(s1.0.insert(k, s1.1 as usize).dom() =~= s1.0.dom().insert(k));
        }
    }
}

/// The law of a round: its triangles are four per input triangle, it adds at
/// most three vertices per input triangle, one per distinct edge, and every edge is split at a new
/// vertex of its own, the same one for every triangle that has the edge,
/// whichever way it walks it.
pub proof fn lemma_red_split_round(n: nat, tris: Seq<(usize, usize, usize)>)
    requires
        n + 3 * tris.len() <= usize::MAX + 1,
    ensures
        ({
            let s = visit_all(Map::empty(), n, visits(tris));
            &&& red_split_round(n, tris).1.len() == 4 * tris.len()
            &&& n <= red_split_round(n, tris).0 <= n + 3 * tris.len()
            &&& red_split_round(n, tris).0 == n + edge_keys(visits(tris)).len()
            &&& s.0.dom() == edge_keys(visits(tris))
            &&& tris_keyed(s.0, tris)
            &&& cache_distinct(s.0)
            &&& cache_within(s.0, n, s.1)
            &&& red_split_round(n, tris).1 == red_split_all(tris, s.0)
            &&& forall|a: usize, b: usize| s.0.contains_key(key_of(a, b)) ==> #[trigger] key_of(a, b) == key_of(b, a)
        }),
        all_in_bounds(tris, n as int) ==> all_in_bounds(red_split_round(n, tris).1, red_split_round(n, tris).0 as int),
{
    let s = visit_all(Map::empty(), n, visits(tris));
    lemma_visits_len(tris);
    lemma_red_split_all_len(tris, s.0);
    lemma_visit_tris(Map::empty(), n, tris);
    lemma_visit_all_fresh(Map::empty(), n, n, visits(tris));
    lemma_visit_all_keys(Map::empty(), n, visits(tris));
    assert(Map::<(usize, usize), usize>::empty().dom().union(edge_keys(visits(tris))) =~= edge_keys(visits(tris)));
    if all_in_bounds(tris, n as int) {
        assert forall|j: int| 0 <= j < tris.len() implies #[trigger] corner_in_bounds(tris[j], s.1 as int) by {
            assert(corner_in_bounds(tris[j], n as int));
        }
        lemma_red_split_all_in_bounds(tris, s.0, s.1);
    }
}

/// Every triangle has three different corners.
pub open spec fn nondegenerate(tris: Seq<(usize, usize, usize)>) -> bool {
    forall|i: int| 0 <= i < tris.len() ==> (#[trigger] tris[i]).0 != tris[i].1 && tris[i].1 != tris[i].2 && tris[i].2 != tris[i].0
}

/// The children of triangle `i` are the four from `4i` on.
pub proof fn lemma_red_split_all_chunk(tris: Seq<(usize, usize, usize)>, cache: Map<(usize, usize), usize>, i: int)
    requires
        0 <= i < tris.len(),
    ensures
        4 * i + 4 <= red_split_all(tris, cache).len(),
        red_split_all(tris, cache).subrange(4 * i, 4 * i + 4) == red_children(tris[i], cache),
    decreases tris.len(),
{
    let init = tris.drop_last();
    lemma_red_split_all_len(tris, cache);
    lemma_red_split_all_len(init, cache);
    let all = red_split_all(tris, cache);
    if i < tris.len() - 1 {
        lemma_red_split_all_chunk(init, cache, i);
        assert(all.subrange(4 * i, 4 * i + 4) =~= red_split_all(init, cache).subrange(4 * i, 4 * i + 4));
    } else {
        assert(all.subrange(4 * i, 4 * i + 4) =~= red_children(tris.last(), cache));
    }
}

/// The law of a round, triangle by triangle: the four children of triangle
/// `i`, when its corners are three different vertices, tile it with its
/// orientation, around three new vertices of its own, numbered from `n` up,
/// at which its sides are cut; the corner children start at its corners.
pub proof fn lemma_red_split_round_tiles(n: nat, tris: Seq<(usize, usize, usize)>, i: int)
    requires
        n + 3 * tris.len() <= usize::MAX + 1,
        all_in_bounds(tris, n as int),
        nondegenerate(tris),
        0 <= i < tris.len(),
    ensures
        exists|m: (usize, usize, usize)| {
            let round = red_split_round(n, tris);
            let kids = round.1.subrange(4 * i, 4 * i + 4);
            &&& n <= m.0 < round.0 && n <= m.1 < round.0 && n <= m.2 < round.0
            &&& #[trigger] tiles_oriented(tris[i], Some(m.0), Some(m.1), Some(m.2), red_split_round(n, tris).1.subrange(4 * i, 4 * i + 4))
            &&& kids[0].0 == tris[i].0 && kids[1].0 == tris[i].1 && kids[2].0 == tris[i].2 && kids[3].0 == m.0
        },
{
    let s = visit_all(Map::empty(), n, visits(tris));
    lemma_red_split_round(n, tris);
    let t = tris[i];
    assert(triangle_keyed(s.0, t));
    assert(corner_in_bounds(t, n as int));
    let kab = key_of(t.0, t.1);
    let kbc = key_of(t.1, t.2);
    let kca = key_of(t.2, t.0);
    assert(kab != kbc && kbc != kca && kca != kab);
    let m = (s.0[kab], s.0[kbc], s.0[kca]);
    assert(cuts_fresh(t, Some(m.0), Some(m.1), Some(m.2)));
    lemma_red_children_tile(t, s.0);
    lemma_red_split_all_chunk(tris, s.0, i);
    assert(red_split_round(n, tris).1 == red_split_all(tris, s.0));
}

/// A triangle produces at most one new vertex per edge: at most three new
/// vertices per triangle.
pub fn max_new_vertices(triangle_count: usize) -> (bound: usize)
    requires
        3 * triangle_count <= usize::MAX,
    ensures
        bound == 3 * triangle_count,
{
    3 * triangle_count
}

/// A triangle produces at most four children.
pub fn max_round_triangles(triangle_count: usize) -> (bound: usize)
    requires
        4 * triangle_count <= usize::MAX,
    ensures
        bound == 4 * triangle_count,
{
    4 * triangle_count
}

/// The triangle that face `face_index` of the mesh spans.
pub fn face_triangle<P>(mesh: &Mesh<P>, face_index: usize) -> (triangle: (usize, usize, usize))
    requires
        face_index < mesh.spec_faces().len(),
    ensures
        triangle == mesh.spec_triangles()[face_index as int],
        triangle.0 < mesh.spec_vertices().len(),
        triangle.1 < mesh.spec_vertices().len(),
        triangle.2 < mesh.spec_vertices().len(),
{
    let faces = mesh.faces();
    let edges = mesh.edges();
    let face = &faces[face_index];
    proof {
        assert(crate::geometry::mesh::face_is_triangle(
            edges@,
            faces@[face_index as int],
            face_index as int,
            crate::geometry::mesh::face_triangle_of(edges@, face_index as int),
        ));
    }
    let a = edges[face.edges[0]].start;
    let b = edges[face.edges[1]].start;
    let c = edges[face.edges[2]].start;
    (a, b, c)
}

/// Splits each triangle in turn with the strategy, growing `vertices` with
/// the split points: one round of uniform red splitting.
pub fn split_triangles<O: VertexOperator>(
    strategy: &mut UniformRedSplit<O>,
    vertices: Vec<O::Point>,
    triangles: &Vec<(usize, usize, usize)>,
) -> (result: (Vec<O::Point>, Vec<(usize, usize, usize)>))
    requires
        all_in_bounds(triangles@, vertices.len() as int),
    ensures
        (result.0.len() as nat, result.1@) == red_split_round(vertices.len() as nat, triangles@),
        result.0@.take(vertices.len() as int) == vertices@,
        result.1.len() == 4 * triangles.len(),
        all_in_bounds(result.1@, result.0.len() as int),
        final(strategy).spec_operator() == old(strategy).spec_operator(),
        placed_along(
            old(strategy).spec_operator(),
            Map::empty(),
            vertices.len() as nat,
            visits(triangles@),
            result.0@,
            old(strategy).spec_rng(),
            final(strategy).spec_rng(),
        ),
{
    let ghost tris = triangles@;
    let ghost op = strategy.spec_operator();
    let ghost r0 = strategy.spec_rng();
    let n = vertices.len();
    let mut vertices = vertices;
    let ghost given = vertices@;
    proof {
        assert(tris.take(0) =~= Seq::<(usize, usize, usize)>::empty());
        assert(visits(tris.take(0)) =~= Seq::<(usize, usize)>::empty());
        assert(vertices@.take(n as int) =~= vertices@);
    }
    let mut edges = EdgeCache::new();
    let mut children_all: Vec<(usize, usize, usize)> = Vec::new();
    let mut f: usize = 0;
    proof {
        lemma_placed_along_empty(op, Map::empty(), n as nat, vertices@, r0);
    }
    while f < triangles.len()
        invariant
            strategy.spec_operator() == op,
            placed_along(op, Map::empty(), n as nat, visits(tris.take(f as int)), vertices@, r0, strategy.spec_rng()),
            f <= triangles.len(),
            tris == triangles@,
            all_in_bounds(tris, n as int),
            n <= vertices.len(),
            given.len() == n,
            ({
                let s = visit_all(Map::empty(), n as nat, visits(tris.take(f as int)));
                edges@ == s.0 && vertices.len() == s.1
            }),
            vertices@.take(n as int) == given,
            children_all@ == red_split_all(tris.take(f as int), edges@),
            cache_bounded(edges@, vertices.len() as nat),
            tris_keyed(edges@, tris.take(f as int)),
        decreases triangles.len() - f,
    {
        let triangle = triangles[f];
        assert(corner_in_bounds(tris[f as int], n as int));
        let ghost old_edges = edges@;
        let ghost old_vertices = vertices@;
        let ghost old_children = children_all@;
        let ghost r_mid = strategy.spec_rng();
        let children = strategy.split_triangle(&mut vertices, &mut edges, triangle);
        children_all.push(children[0]);
        children_all.push(children[1]);
        children_all.push(children[2]);
        children_all.push(children[3]);
        proof {
            let prefix = tris.take(f as int);
            let next = tris.take(f + 1);
            assert(next.drop_last() =~= prefix);
            assert(next.last() == triangle);
            lemma_visit_all_concat(Map::empty(), n as nat, visits(prefix), triangle_visits(triangle));
            lemma_visit_triangle(old_edges, old_vertices.len() as nat, triangle);
            assert forall|j: int| 0 <= j < next.len() implies #[trigger] triangle_keyed(edges@, next[j]) by {
                if j < f {
                    assert(triangle_keyed(old_edges, prefix[j]));
                }
            }
            lemma_red_split_all_stable(prefix, old_edges, edges@);
            assert(children_all@ =~= old_children + red_children(triangle, edges@));
            assert(vertices@.take(n as int) =~= old_vertices.take(n as int)) by {
                assert(vertices@.take(old_vertices.len() as int) == old_vertices);
            }
            assert(all_in_bounds(prefix, n as int)) by {
                assert forall|j: int| 0 <= j < prefix.len() implies #[trigger] corner_in_bounds(prefix[j], n as int) by {
                    assert(corner_in_bounds(tris[j], n as int));
                }
            }
            lemma_visits_below(prefix, n as nat);
            assert forall|i: int| 0 <= i < old_vertices.len() implies #[trigger] old_vertices[i] == vertices@[i] by {
                assert(vertices@.take(old_vertices.len() as int)[i] == vertices@[i]);
            }
            lemma_placed_along_frame(op, Map::empty(), n as nat, visits(prefix), old_vertices, vertices@, r0, r_mid);
            lemma_placed_along_concat(op, Map::empty(), n as nat, visits(prefix), triangle_visits(triangle), vertices@, r0, r_mid, strategy.spec_rng());
            assert(visits(next) == visits(prefix) + triangle_visits(triangle));
        }
        f = f + 1;
    }
    proof {
        assert(tris.take(triangles.len() as int) =~= tris);
        lemma_red_split_all_len(tris, edges@);
        assert forall|j: int| 0 <= j < tris.len() implies #[trigger] corner_in_bounds(tris[j], vertices.len() as int) by {
            assert(corner_in_bounds(tris[j], n as int));
        }
        lemma_red_split_all_in_bounds(tris, edges@, vertices.len() as nat);
    }
    (vertices, children_all)
}

/// One round of uniform red splitting: every face split into four, each edge
/// at one vertex shared by the faces on both sides.
pub fn split_round<O: VertexOperator>(mesh: &Mesh<O::Point>, strategy: &mut UniformRedSplit<O>) -> (result: Result<Mesh<O::Point>, MeshError>)
    where
        O::Point: Default,
    requires
        12 * mesh.spec_faces().len() <= usize::MAX,
    ensures
        result is Ok,
        final(strategy).spec_operator() == old(strategy).spec_operator(),
        result matches Ok(next) ==> {
            &&& (next.spec_vertices().len() as nat, next.spec_triangles()) == red_split_round(mesh.spec_vertices().len() as nat, mesh.spec_triangles())
            &&& next.spec_positions().take(mesh.spec_vertices().len() as int) == mesh.spec_positions()
            &&& placed_along(
                old(strategy).spec_operator(),
                Map::empty(),
                mesh.spec_vertices().len() as nat,
                visits(mesh.spec_triangles()),
                next.spec_positions(),
                old(strategy).spec_rng(),
                final(strategy).spec_rng(),
            )
            &&& forall|v: int| 0 <= v < next.spec_vertices().len() ==> is_default(#[trigger] next.spec_vertices()[v].normal)
            &&& forall|g: int| 0 <= g < next.spec_faces().len() ==> is_default(#[trigger] next.spec_faces()[g].normal)
        },
{
    proof {
        use_type_invariant(mesh);
    }
    let ghost tris = mesh.spec_triangles();
    let mesh_vertices = mesh.vertices();
    let n = mesh_vertices.len();
    let face_count = mesh.faces().len();
    let mut positions: Vec<O::Point> = Vec::new();
    let mut i: usize = 0;
    while i < n
        invariant
            i <= n,
            n == mesh.spec_vertices().len(),
            mesh_vertices@ == mesh.spec_vertices(),
            positions@ == mesh.spec_positions().take(i as int),
        decreases n - i,
    {
        positions.push(mesh_vertices[i].position);
        proof {
            assert(mesh.spec_positions().take(i + 1) =~= mesh.spec_positions().take(i as int).push(mesh_vertices@[i as int].position));
        }
        i = i + 1;
    }
    proof {
        assert(mesh.spec_positions().take(n as int) =~= mesh.spec_positions());
    }
    let mut triangles: Vec<(usize, usize, usize)> = Vec::new();
    let mut f: usize = 0;
    while f < face_count
        invariant
            f <= face_count,
            face_count == mesh.spec_faces().len(),
            tris == mesh.spec_triangles(),
            n == mesh.spec_vertices().len(),
            triangles@ == tris.take(f as int),
        decreases face_count - f,
    {
        triangles.push(face_triangle(mesh, f));
        proof {
            assert(tris.take(f + 1) =~= tris.take(f as int).push(tris[f as int]));
        }
        f = f + 1;
    }
    proof {
        assert(tris.take(face_count as int) =~= tris);
        assert(all_in_bounds(tris, n as int)) by {
            assert forall|j: int| 0 <= j < tris.len() implies #[trigger] corner_in_bounds(tris[j], n as int) by {
                lemma_face_in_bounds(*mesh, j);
            }
        }
    }
    let (positions, children) = split_triangles(strategy, positions, &triangles);
    Mesh::new(positions, children)
}

/// The corners of every face of a mesh name vertices of the mesh.
proof fn lemma_face_in_bounds<P>(mesh: Mesh<P>, g: int)
    requires
        0 <= g < mesh.spec_faces().len(),
        mesh.inv(),
    ensures
        corner_in_bounds(mesh.spec_triangles()[g], mesh.spec_vertices().len() as int),
{
    let edges = mesh.spec_edges();
    assert(crate::geometry::mesh::face_is_triangle(edges, mesh.spec_faces()[g], g, crate::geometry::mesh::face_triangle_of(edges, g)));
    assert(edges[3 * g].start < mesh.spec_vertices().len());
    assert(edges[3 * g + 1].start < mesh.spec_vertices().len());
    assert(edges[3 * g + 2].start < mesh.spec_vertices().len());
}

/// Subdivides the mesh `args.steps()` times with the strategy that
/// `args.mode()` names, seeded with `args.seed()`, showing each round's mesh
/// to the update callback if there is one.
pub fn subdivide<O: VertexOperator + Default, C: UpdateCallback<O::Point>>(mesh: &Mesh<O::Point>, args: SubdivisionArgs<C>) -> (result: Result<Mesh<O::Point>, MeshError>)
    where
        O::Point: Default,
    requires
        3 * mesh.spec_faces().len() * pow4(args.spec_steps()@ as nat) <= usize::MAX,
    ensures
        result is Ok,
        result matches Ok(next) ==> {
            &&& subdivided::<O>(*mesh, args.spec_steps()@ as nat, args.spec_seed()@, next)
            &&& args.spec_steps()@ == 0 ==> same_mesh(*mesh, next)
            &&& args.spec_steps()@ > 0 ==> default_normals(next)
            &&& args.spec_update_cb() matches Some(callback) ==> exists|states: Seq<C>, meshes: Seq<Mesh<O::Point>>| {
                &&& #[trigger] shown_rounds(states, meshes)
                &&& states[0] == callback
                &&& meshes.len() == args.spec_steps()@
                &&& forall|k: int| 0 <= k < meshes.len() ==> round_mesh(*mesh, (k + 1) as nat, next.spec_positions(), #[trigger] meshes[k])
            }
        },
{
    proof {
        use_type_invariant(mesh);
        assert(all_in_bounds(mesh.spec_triangles(), mesh.spec_vertices().len() as int)) by {
            assert forall|j: int| 0 <= j < mesh.spec_triangles().len() implies #[trigger] corner_in_bounds(mesh.spec_triangles()[j], mesh.spec_vertices().len() as int) by {
                lemma_face_in_bounds(*mesh, j);
            }
        }
    }
    let ghost cb0 = args.spec_update_cb();
    let ghost seed0 = args.spec_seed()@;
    let steps = args.steps().value();
    let seed = args.seed();
    let mut strategy: UniformRedSplit<O> = args.mode().strategy(seed);
    let ghost op = strategy.spec_operator();
    let ghost r0 = strategy.spec_rng();
    let mut update_cb = args.into_update_cb();
    let ghost mut states: Seq<C> = match cb0 {
        Some(c) => seq![c],
        None => Seq::empty(),
    };
    let ghost mut meshes: Seq<Mesh<O::Point>> = Seq::empty();
    let mut current = mesh.duplicate();
    let ghost n = mesh.spec_vertices().len() as nat;
    let ghost tris = mesh.spec_triangles();
    let mut step: usize = 1;
    proof {
        lemma_rounds_placed_zero(op, n, tris, current.spec_positions(), r0);
    }
    while step <= steps
        invariant
            1 <= step <= steps + 1,
            steps == args.spec_steps()@,
            all_in_bounds(tris, n as int),
            strategy.spec_operator() == op,
            is_default(op),
            r0 == seeded_pcg32(seed0),
            n == mesh.spec_vertices().len(),
            tris == mesh.spec_triangles(),
            update_cb is Some <==> cb0 is Some,
            cb0 matches Some(c) ==> {
                &&& shown_rounds(states, meshes)
                &&& states[0] == c
                &&& update_cb == Some(states.last())
            },
            meshes.len() == step - 1,
            forall|k: int| 0 <= k < meshes.len() ==> round_mesh(*mesh, (k + 1) as nat, current.spec_positions(), #[trigger] meshes[k]),
            rounds_placed(op, n, tris, (step - 1) as nat, current.spec_positions(), r0, strategy.spec_rng()),
            step == 1 ==> same_mesh(*mesh, current),
            step > 1 ==> default_normals(current),
            steps <= crate::subdivision::steps::MAX_SUBDIVISION_STEPS,
            3 * tris.len() * pow4(steps as nat) <= usize::MAX,
            tris.len() == mesh.spec_faces().len(),
            n <= current.spec_vertices().len(),
            (current.spec_vertices().len() as nat, current.spec_triangles()) == red_split_steps(n, tris, (step - 1) as nat),
            current.spec_positions().take(n as int) == mesh.spec_positions(),
        decreases steps + 1 - step,
    {
        proof {
            lemma_red_split_steps_size(n, tris, (step - 1) as nat);
            use_type_invariant(&current);
            lemma_pow4_monotone(step as nat, steps as nat);
            assert(12 * (tris.len() * pow4((step - 1) as nat)) == 3 * tris.len() * pow4(step as nat)) by (nonlinear_arith)
                requires
                    pow4(step as nat) == 4 * pow4((step - 1) as nat),
            ;
            assert(3 * tris.len() * pow4(step as nat) <= 3 * tris.len() * pow4(steps as nat)) by (nonlinear_arith)
                requires
                    pow4(step as nat) <= pow4(steps as nat),
            ;
        }
        let ghost before = current.spec_positions();
        let ghost before_tris = current.spec_triangles();
        let ghost r_mid = strategy.spec_rng();
        assert(before.len() == current.spec_vertices().len());
        current = match split_round(&current, &mut strategy) {
            Ok(next) => next,
            Err(error) => return Err(error),
        };
        proof {
            lemma_red_split_steps_size(n, tris, step as nat);
            lemma_visit_tris(Map::empty(), before.len() as nat, before_tris);
            assert(before.len() <= current.spec_positions().len());
            assert(current.spec_positions().take(n as int) =~= current.spec_positions().take(before.len() as int).take(n as int));
            let k1 = (step - 1) as nat;
            assert forall|i: int| 0 <= i < before.len() implies #[trigger] before[i] == current.spec_positions()[i] by {
                assert(current.spec_positions().take(before.len() as int)[i] == current.spec_positions()[i]);
            }
            lemma_rounds_placed_frame(op, n, tris, k1, before, current.spec_positions(), r0, r_mid);
            lemma_rounds_placed_push(op, n, tris, k1, current.spec_positions(), r0, r_mid, strategy.spec_rng());
            assert(k1 + 1 == step as nat);
        }
        proof {
            use_type_invariant(&current);
            assert forall|k: int| 0 <= k < meshes.len() implies round_mesh(*mesh, (k + 1) as nat, current.spec_positions(), #[trigger] meshes[k]) by {
                let count = meshes[k].spec_vertices().len() as int;
                assert(round_mesh(*mesh, (k + 1) as nat, before, meshes[k]));
                assert(current.spec_positions().take(count) =~= before.take(count)) by {
                    assert forall|i: int| 0 <= i < count implies current.spec_positions().take(count)[i] == before.take(count)[i] by {
                        assert(current.spec_positions().take(before.len() as int)[i] == current.spec_positions()[i]);
                    }
                }
            }
            assert(current.spec_positions().take(current.spec_vertices().len() as int) =~= current.spec_positions());
            assert(round_mesh(*mesh, step as nat, current.spec_positions(), current));
        }
        update_cb = match update_cb {
            Some(callback) => Some(callback.update(&current, step)),
            None => None,
        };
        proof {
            let old_states = states;
            let old_meshes = meshes;
            meshes = meshes.push(current);
            if update_cb is Some {
                states = states.push(update_cb->0);
                assert forall|k: int| 0 <= k < meshes.len() implies #[trigger] shown_round(states, meshes, k) by {
                    if k < old_meshes.len() {
                        assert(shown_round(old_states, old_meshes, k));
                    }
                }
            }
        }
        step = step + 1;
    }
    proof {
        assert((step - 1) as nat == steps as nat);
        assert(is_default(op) && rounds_placed(op, n, tris, steps as nat, current.spec_positions(), seeded_pcg32(args.spec_seed()@), strategy.spec_rng()));
    }
    Ok(current)
}

/// The call that showed round `k + 1`: the callback in state `states[k]`
/// was shown `meshes[k]` as step `k + 1` and was left in state
/// `states[k + 1]`.
pub open spec fn shown_round<P, C: UpdateCallback<P>>(states: Seq<C>, meshes: Seq<Mesh<P>>, k: int) -> bool {
    call_ensures(C::update, (states[k], &meshes[k], (k + 1) as usize), states[k + 1])
}

/// The callback was shown the meshes in order, once each, as steps 1, 2, and
/// so on, going through the states `states`.
pub open spec fn shown_rounds<P, C: UpdateCallback<P>>(states: Seq<C>, meshes: Seq<Mesh<P>>) -> bool {
    &&& states.len() == meshes.len() + 1
    &&& forall|k: int| 0 <= k < meshes.len() ==> #[trigger] shown_round(states, meshes, k)
}

/// `round` is the mesh after `k` rounds from `mesh`: its shape is that of
/// `red_split_steps`, its positions are the first of `points`, and its
/// normals are the default.
pub open spec fn round_mesh<P: Default>(mesh: Mesh<P>, k: nat, points: Seq<P>, round: Mesh<P>) -> bool {
    let r = red_split_steps(mesh.spec_vertices().len() as nat, mesh.spec_triangles(), k);
    &&& r.0 <= points.len()
    &&& round.spec_vertices().len() == r.0
    &&& round.spec_triangles() == r.1
    &&& round.spec_positions() == points.take(r.0 as int)
    &&& default_normals(round)
    &&& round.inv()
}

/// `b` holds what `a` holds: the same vertices, edges and faces.
pub open spec fn same_mesh<P>(a: Mesh<P>, b: Mesh<P>) -> bool {
    &&& b.spec_vertices().len() == a.spec_vertices().len()
    &&& forall|v: int| 0 <= v < a.spec_vertices().len() ==> #[trigger] same_vertex(a.spec_vertices()[v], b.spec_vertices()[v])
    &&& b.spec_edges() == a.spec_edges()
    &&& b.spec_faces().len() == a.spec_faces().len()
    &&& forall|g: int| 0 <= g < a.spec_faces().len() ==> #[trigger] same_face(a.spec_faces()[g], b.spec_faces()[g])
    &&& b.spec_positions() == a.spec_positions()
    &&& b.spec_triangles() == a.spec_triangles()
}

/// Every vertex and every face of the mesh has the default normal.
pub open spec fn default_normals<P: Default>(mesh: Mesh<P>) -> bool {
    &&& forall|v: int| 0 <= v < mesh.spec_vertices().len() ==> is_default(#[trigger] mesh.spec_vertices()[v].normal)
    &&& forall|g: int| 0 <= g < mesh.spec_faces().len() ==> is_default(#[trigger] mesh.spec_faces()[g].normal)
}

pub proof fn lemma_pow4_monotone(a: nat, b: nat)
    requires
        a <= b,
    ensures
        1 <= pow4(a) <= pow4(b),
    decreases b,
{
    if a < b {
        lemma_pow4_monotone(a, (b - 1) as nat);
    } else if a > 0 {
        lemma_pow4_monotone((a - 1) as nat, (a - 1) as nat);
    }
}

} // verus!
