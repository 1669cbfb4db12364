use std::collections::HashMap;
use vstd::prelude::*;

use rand_pcg::Pcg32;

use crate::processor::vertex_operator::{places, VertexOperator};

verus! {

broadcast use vstd::std_specs::hash::group_hash_axioms;

/// An undirected edge, named by its two end vertices with the lower first.
#[derive(Debug, Clone, Copy, PartialEq, Eq, Structural, Hash)]
pub struct EdgeKey {
    pub low: usize,
    pub high: usize,
}

/// The key of the edge between `a` and `b`, whichever way it is walked.
pub open spec fn key_of(a: usize, b: usize) -> (usize, usize) {
    if a <= b {
        (a, b)
    } else {
        (b, a)
    }
}

/// The number under which an edge key is filed.
pub open spec fn edge_code(key: (usize, usize)) -> u128 {
    (key.0 as int * 0x1_0000_0000_0000_0000 + key.1 as int) as u128
}

proof fn lemma_edge_code_injective(k1: (usize, usize), k2: (usize, usize))
    requires
        edge_code(k1) == edge_code(k2),
    ensures
        k1 == k2,
{
    let b: int = 0x1_0000_0000_0000_0000;
    assert(k1.0 as int * b + k1.1 as int <= (usize::MAX as int) * b + usize::MAX as int);
    assert(k2.0 as int * b + k2.1 as int <= (usize::MAX as int) * b + usize::MAX as int);
    if k1.0 < k2.0 {
        assert((k1.0 as int) * b + (k1.1 as int) < (k2.0 as int) * b) by (nonlinear_arith)
            requires
                k1.0 < k2.0,
                0 <= k1.1 < b,
                b > 0,
        ;
    } else if k2.0 < k1.0 {
        assert((k2.0 as int) * b + (k2.1 as int) < (k1.0 as int) * b) by (nonlinear_arith)
            requires
                k2.0 < k1.0,
                0 <= k2.1 < b,
                b > 0,
        ;
    }
}

/// An edge has one key, whichever way it is walked.
pub proof fn lemma_edge_key_symmetric(a: usize, b: usize)
    ensures
        key_of(a, b) == key_of(b, a),
{
}

/// Visiting an edge a second time, either way round, changes nothing: the
/// cache hands back the vertex it filed the first time.
pub proof fn lemma_visit_edge_again(cache: Map<(usize, usize), usize>, count: nat, a: usize, b: usize)
    ensures
        ({
            let s = visit_edge(cache, count, a, b);
            &&& visit_edge(s.0, s.1, a, b) == s
            &&& visit_edge(s.0, s.1, b, a) == s
            &&& s.0.contains_key(key_of(a, b))
        }),
{
}

impl EdgeKey {
    /// The key of the edge between `a` and `b`.
    pub fn new(a: usize, b: usize) -> (key: EdgeKey)
        ensures
            (key.low, key.high) == key_of(a, b),
    {
        if a <= b {
            EdgeKey { low: a, high: b }
        } else {
            EdgeKey { low: b, high: a }
        }
    }

    fn code(&self) -> (code: u128)
        ensures
            code == edge_code((self.low, self.high)),
    {
        (self.low as u128) * 0x1_0000_0000_0000_0000u128 + (self.high as u128)
    }
}

/// The vertex that each edge split so far was given.
pub struct EdgeCache {
    midpoints: HashMap<u128, usize>,
}

impl View for EdgeCache {
    type V = Map<(usize, usize), usize>;

    closed spec fn view(&self) -> Map<(usize, usize), usize> {
        Map::new(
            |key: (usize, usize)| self.midpoints@.contains_key(edge_code(key)),
            |key: (usize, usize)| self.midpoints@[edge_code(key)],
        )
    }
}

/// After the edge from `a` to `b` is visited: the cache and the number of
/// vertices. An edge seen before keeps its vertex; a new one gets the next.
pub open spec fn visit_edge(cache: Map<(usize, usize), usize>, count: nat, a: usize, b: usize) -> (Map<(usize, usize), usize>, nat) {
    if cache.contains_key(key_of(a, b)) {
        (cache, count)
    } else {
        (cache.insert(key_of(a, b), count as usize), count + 1)
    }
}

/// The generator goes from `before` to `after` as the edge from `a` to `b`
/// is visited with `cache` and `count` vertices: untouched when the edge is
/// filed, else through the operator placing vertex `count` of `points` for
/// the edge's end vertices.
pub open spec fn edge_placed<O: VertexOperator>(
    operator: O,
    cache: Map<(usize, usize), usize>,
    count: nat,
    a: usize,
    b: usize,
    points: Seq<O::Point>,
    before: Pcg32,
    after: Pcg32,
) -> bool {
    if cache.contains_key(key_of(a, b)) {
        after == before
    } else {
        places(operator, before, after, points[a as int], points[b as int], points[count as int])
    }
}

/// A visit reads `points` only at its end vertices and at the vertex it
/// adds, so a longer sequence with the same start carries the same visit.
pub proof fn lemma_edge_placed_frame<O: VertexOperator>(
    operator: O,
    cache: Map<(usize, usize), usize>,
    count: nat,
    a: usize,
    b: usize,
    p: Seq<O::Point>,
    q: Seq<O::Point>,
    before: Pcg32,
    after: Pcg32,
)
    requires
        edge_placed(operator, cache, count, a, b, p, before, after),
        a < count,
        b < count,
        !cache.contains_key(key_of(a, b)) ==> count < p.len(),
        p.len() <= q.len(),
        q.take(p.len() as int) == p,
    ensures
        edge_placed(operator, cache, count, a, b, q, before, after),
{
    if !cache.contains_key(key_of(a, b)) {
        assert(q[a as int] == q.take(p.len() as int)[a as int]);
        assert(q[b as int] == q.take(p.len() as int)[b as int]);
        assert(q[count as int] == q.take(p.len() as int)[count as int]);
    }
}

impl EdgeCache {
    /// An empty cache.
    pub fn new() -> (cache: EdgeCache)
        ensures
            cache@ == Map::<(usize, usize), usize>::empty(),
    {
        let cache = EdgeCache { midpoints: HashMap::new() };
        assert(cache@ =~= Map::<(usize, usize), usize>::empty());
        cache
    }

    /// The vertex that splits the edge between `a` and `b`: the one the
    /// cache holds for it, or else a new one that `operator` places with
    /// `rng`, pushed onto `vertices` and filed in the cache.
    pub fn get_or_insert_with<O: VertexOperator>(
        &mut self,
        a: usize,
        b: usize,
        vertices: &mut Vec<O::Point>,
        operator: &O,
        rng: &mut Pcg32,
    ) -> (index: usize)
        requires
            a < old(vertices).len(),
            b < old(vertices).len(),
        ensures
            (final(self)@, final(vertices).len() as nat) == visit_edge(old(self)@, old(vertices).len() as nat, a, b),
            final(vertices)@.take(old(vertices).len() as int) == old(vertices)@,
            index == final(self)@[key_of(a, b)],
            edge_placed(*operator, old(self)@, old(vertices).len() as nat, a, b, final(vertices)@, *old(rng), *final(rng)),
    {
        let key = EdgeKey::new(a, b);
        let code = key.code();
        let ghost k = (key.low, key.high);
        proof {
            assert(k == key_of(a, b));
        }
        match self.midpoints.get(&code) {
            Some(index) => {
                let index = *index;
                proof {
                    assert(self@.contains_key(k));
                }
                return index;
            },
            None => {},
        }
        let ghost before = self@;
        proof {
            assert(!before.contains_key(k));
        }
        let ghost rng0 = *rng;
        let (point, next) = operator.split_point(rng, &vertices[a], &vertices[b]);
        *rng = next;
        proof {
            assert(places(*operator, rng0, *rng, vertices@[a as int], vertices@[b as int], point));
        }
        let index = vertices.len();
        vertices.push(point);
        self.midpoints.insert(code, index);
        proof {
            assert forall|key2: (usize, usize)| #[trigger] self@.contains_key(key2) == before.insert(k, index).contains_key(key2) by {
                if edge_code(key2) == edge_code(k) {
                    lemma_edge_code_injective(key2, k);
                }
            }
            assert forall|key2: (usize, usize)| self@.contains_key(key2) implies #[trigger] self@[key2] == before.insert(k, index)[key2] by {
                if edge_code(key2) == edge_code(k) {
                    lemma_edge_code_injective(key2, k);
                }
            }
            assert(self@ =~= before.insert(k, index));
            assert(vertices@.take(old(vertices).len() as int) =~= old(vertices)@);
        }
        index
    }
}

} // verus!
