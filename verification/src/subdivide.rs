use vstd::prelude::*;

use crate::geometry::mesh::all_in_bounds;
use crate::mesh::{triangle_tuple, triangle_tuples, Mesh, MeshError, Triangle, Vertex};
use crate::processor::vertex_operator::VertexOperator;
use crate::subdivision::strategies::uniform_red_split::UniformRedSplit;
use rand_pcg::Pcg32;

use crate::geometry::orientation::tiles_oriented;
use crate::geometry::vertex::is_default;
use crate::processor::vertex_operator::seeded_pcg32;
use crate::subdivision::subdivide::{
    lemma_red_split_all_len, lemma_red_split_round_tiles, lemma_red_split_steps_size, lemma_rounds_placed_deterministic, nondegenerate,
    visit_all, lemma_rounds_placed_frame, lemma_rounds_placed_push,
    lemma_rounds_placed_zero, lemma_visit_tris, placed_along, places_deterministically, red_split_round, red_split_steps,
    rounds_placed, split_triangles, visits,
};
use crate::subdivision_args::{SubdivisionArgs, UpdateCallback};

verus! {

/// One round of uniform red splitting: every triangle split into four, each
/// edge at one vertex shared by the triangles on both sides.
pub fn split_round<P: Copy, O: VertexOperator<Point = Vertex<P>>>(mesh: &Mesh<P>, strategy: &mut UniformRedSplit<O>) -> (result: Result<Mesh<P>, MeshError>)
    ensures
        result is Ok,
        final(strategy).spec_operator() == old(strategy).spec_operator(),
        result matches Ok(next) ==> {
            &&& (next.spec_vertices().len() as nat, triangle_tuples(next.spec_triangles()))
                == red_split_round(mesh.spec_vertices().len() as nat, triangle_tuples(mesh.spec_triangles()))
            &&& next.spec_vertices().take(mesh.spec_vertices().len() as int) == mesh.spec_vertices()
            &&& placed_along(
                old(strategy).spec_operator(),
                Map::empty(),
                mesh.spec_vertices().len() as nat,
                visits(triangle_tuples(mesh.spec_triangles())),
                next.spec_vertices(),
                old(strategy).spec_rng(),
                final(strategy).spec_rng(),
            )
        },
{
    let mesh_vertices = mesh.vertices();
    let mesh_triangles = mesh.triangles();
    let ghost tris = triangle_tuples(mesh.spec_triangles());
    let mut vertices: Vec<Vertex<P>> = Vec::new();
    let mut i: usize = 0;
    while i < mesh_vertices.len()
        invariant
            i <= mesh_vertices@.len(),
            vertices@ == mesh_vertices@.take(i as int),
        decreases mesh_vertices@.len() - i,
    {
        vertices.push(mesh_vertices[i]);
        proof {
            assert(mesh_vertices@.take(i + 1) == mesh_vertices@.take(i as int).push(mesh_vertices@[i as int]));
        }
        i = i + 1;
    }
    proof {
        assert(mesh_vertices@.take(mesh_vertices@.len() as int) == mesh_vertices@);
    }
    let mut tuples: Vec<(usize, usize, usize)> = Vec::new();
    let mut t: usize = 0;
    while t < mesh_triangles.len()
        invariant
            t <= mesh_triangles@.len(),
            mesh_triangles@ == mesh.spec_triangles(),
            tris == triangle_tuples(mesh.spec_triangles()),
            tuples@ == tris.take(t as int),
        decreases mesh_triangles@.len() - t,
    {
        let triangle = mesh_triangles[t];
        tuples.push((triangle.a, triangle.b, triangle.c));
        proof {
            assert(tris.take(t + 1) =~= tris.take(t as int).push(tris[t as int]));
        }
        t = t + 1;
    }
    proof {
        assert(tris.take(mesh_triangles@.len() as int) =~= tris);
    }
    let n = vertices.len();
    let (vertices, children) = split_triangles(strategy, vertices, &tuples);
    let mut triangles: Vec<Triangle> = Vec::new();
    let mut c: usize = 0;
    while c < children.len()
        invariant
            c <= children.len(),
            triangles.len() == c,
            forall|j: int| 0 <= j < c ==> #[trigger] triangle_tuple(triangles@[j]) == children@[j],
        decreases children.len() - c,
    {
        let (a, b, d) = children[c];
        triangles.push(Triangle::new(a, b, d));
        c = c + 1;
    }
    proof {
        assert(triangle_tuples(triangles@) =~= children@) by {
            assert forall|j: int| 0 <= j < children.len() implies #[trigger] triangle_tuples(triangles@)[j] == children@[j] by {
                assert(triangle_tuple(triangles@[j]) == children@[j]);
            }
        }
    }
    Mesh::new(vertices, triangles)
}

/// Subdivides the mesh `args.steps()` times with the strategy that
/// `args.mode()` names, showing each round's mesh to the update callback if
/// there is one.
pub fn subdivide<P: Copy, O: VertexOperator<Point = Vertex<P>> + Default, C: UpdateCallback<P>>(mesh: &Mesh<P>, args: SubdivisionArgs<C>) -> (result: Result<Mesh<P>, MeshError>)
    ensures
        result is Ok,
        result matches Ok(next) ==> {
            &&& subdivided::<P, O>(*mesh, args.spec_steps()@ as nat, next)
            &&& args.spec_steps()@ == 0 ==> next.spec_vertices() == mesh.spec_vertices() && next.spec_triangles() == mesh.spec_triangles()
            &&& args.spec_update_cb() matches Some(callback) ==> exists|states: Seq<C>, meshes: Seq<Mesh<P>>| {
                &&& #[trigger] shown_rounds(states, meshes)
                &&& states[0] == callback
                &&& meshes.len() == args.spec_steps()@
                &&& forall|k: int| 0 <= k < meshes.len() ==> round_mesh(*mesh, (k + 1) as nat, next.spec_vertices(), #[trigger] meshes[k])
            }
        },
{
    proof {
        use_type_invariant(mesh);
    }
    let ghost cb0 = args.spec_update_cb();
    let steps = args.steps().value();
    let mut strategy: UniformRedSplit<O> = args.mode().strategy();
    let ghost op = strategy.spec_operator();
    let ghost r0 = strategy.spec_rng();
    let mut update_cb = args.into_update_cb();
    let ghost mut states: Seq<C> = match cb0 {
        Some(c) => seq![c],
        None => Seq::empty(),
    };
    let ghost mut meshes: Seq<Mesh<P>> = Seq::empty();
    let mut current = mesh.duplicate();
    let ghost n = mesh.spec_vertices().len() as nat;
    let ghost tris = triangle_tuples(mesh.spec_triangles());
    let mut step: usize = 1;
    proof {
        lemma_rounds_placed_zero(op, n, tris, current.spec_vertices(), r0);
    }
    while step <= steps
        invariant
            1 <= step <= steps + 1,
            steps == args.spec_steps()@,
            all_in_bounds(tris, n as int),
            strategy.spec_operator() == op,
            is_default(op),
            r0 == seeded_pcg32(0),
            rounds_placed(op, n, tris, (step - 1) as nat, current.spec_vertices(), r0, strategy.spec_rng()),
            step == 1 ==> current.spec_vertices() == mesh.spec_vertices() && current.spec_triangles() == mesh.spec_triangles(),
            steps <= crate::subdivision::steps::MAX_SUBDIVISION_STEPS,
            n <= current.spec_vertices().len(),
            (current.spec_vertices().len() as nat, triangle_tuples(current.spec_triangles())) == red_split_steps(n, tris, (step - 1) as nat),
            current.spec_vertices().take(n as int) == mesh.spec_vertices(),
            n == mesh.spec_vertices().len(),
            tris == triangle_tuples(mesh.spec_triangles()),
            update_cb is Some <==> cb0 is Some,
            cb0 matches Some(c) ==> {
                &&& shown_rounds(states, meshes)
                &&& states[0] == c
                &&& update_cb == Some(states.last())
            },
            meshes.len() == step - 1,
            forall|k: int| 0 <= k < meshes.len() ==> round_mesh(*mesh, (k + 1) as nat, current.spec_vertices(), #[trigger] meshes[k]),
        decreases steps + 1 - step,
    {
        let ghost before = current.spec_vertices();
        let ghost before_tris = triangle_tuples(current.spec_triangles());
        let ghost r_mid = strategy.spec_rng();
        current = match split_round(&current, &mut strategy) {
            Ok(next) => next,
            Err(error) => return Err(error),
        };
        proof {
            lemma_visit_tris(Map::empty(), before.len() as nat, before_tris);
            assert(before.len() <= current.spec_vertices().len());
            assert(current.spec_vertices().take(n as int) =~= current.spec_vertices().take(before.len() as int).take(n as int));
            let k1 = (step - 1) as nat;
            assert forall|i: int| 0 <= i < before.len() implies #[trigger] before[i] == current.spec_vertices()[i] by {
                assert(current.spec_vertices().take(before.len() as int)[i] == current.spec_vertices()[i]);
            }
            lemma_rounds_placed_frame(op, n, tris, k1, before, current.spec_vertices(), r0, r_mid);
            lemma_rounds_placed_push(op, n, tris, k1, current.spec_vertices(), r0, r_mid, strategy.spec_rng());
            assert(k1 + 1 == step as nat);
        }
        proof {
            assert forall|k: int| 0 <= k < meshes.len() implies round_mesh(*mesh, (k + 1) as nat, current.spec_vertices(), #[trigger] meshes[k]) by {
                let count = meshes[k].spec_vertices().len() as int;
                assert(round_mesh(*mesh, (k + 1) as nat, before, meshes[k]));
                assert(current.spec_vertices().take(count) =~= before.take(count)) by {
                    assert forall|i: int| 0 <= i < count implies current.spec_vertices().take(count)[i] == before.take(count)[i] by {
                        assert(current.spec_vertices().take(before.len() as int)[i] == current.spec_vertices()[i]);
                    }
                }
            }
            assert(current.spec_vertices().take(current.spec_vertices().len() as int) =~= current.spec_vertices());
            assert(round_mesh(*mesh, step as nat, current.spec_vertices(), current));
        }
        update_cb = match update_cb {
            Some(callback) => Some(callback.update(&current, step)),
            None => None,
        };
        proof {
            let old_states = states;
            let old_meshes = meshes;
            meshes = meshes.push(current);
            if update_cb is Some {
                states = states.push(update_cb->0);
                assert forall|k: int| 0 <= k < meshes.len() implies #[trigger] shown_round(states, meshes, k) by {
                    if k < old_meshes.len() {
                        assert(shown_round(old_states, old_meshes, k));
                    }
                }
            }
        }
        step = step + 1;
    }
    proof {
        assert((step - 1) as nat == steps as nat);
        assert(is_default(op) && rounds_placed(op, n, tris, steps as nat, current.spec_vertices(), seeded_pcg32(0), strategy.spec_rng()));
    }
    Ok(current)
}

/// The corners a, b, c of the `count` triangles of the mesh from `start` on.
pub open spec fn corners_from<P>(mesh: Mesh<P>, start: int, count: nat) -> Seq<(usize, usize, usize)> {
    Seq::new(count, |k: int| (mesh.spec_triangles()[start + k].a, mesh.spec_triangles()[start + k].b, mesh.spec_triangles()[start + k].c))
}

/// The law of a flat round, triangle by triangle: when triangle `i` of
/// `mesh` has three different corners, the four triangles of `next` from
/// `4i` on, read corner a, b, c, tile it (read the same way) with its
/// orientation, around three new vertices at which its sides are cut; the
/// corner children start at its corners a, b and c.
pub proof fn lemma_flat_round_tiles<P>(mesh: Mesh<P>, next: Mesh<P>, i: int)
    requires
        mesh.inv(),
        mesh.spec_vertices().len() + 3 * mesh.spec_triangles().len() <= usize::MAX + 1,
        0 <= i < mesh.spec_triangles().len(),
        forall|j: int| 0 <= j < mesh.spec_triangles().len() ==> {
            let t = #[trigger] mesh.spec_triangles()[j];
            t.a != t.b && t.b != t.c && t.c != t.a
        },
        (next.spec_vertices().len() as nat, triangle_tuples(next.spec_triangles()))
            == red_split_round(mesh.spec_vertices().len() as nat, triangle_tuples(mesh.spec_triangles())),
    ensures
        exists|m: (usize, usize, usize)| {
            let parent = mesh.spec_triangles()[i];
            let n = mesh.spec_vertices().len();
            let kids = corners_from(next, 4 * i, 4);
            &&& n <= m.0 < next.spec_vertices().len() && n <= m.1 < next.spec_vertices().len() && n <= m.2 < next.spec_vertices().len()
            &&& #[trigger] tiles_oriented(
                (mesh.spec_triangles()[i].a, mesh.spec_triangles()[i].b, mesh.spec_triangles()[i].c),
                Some(m.0),
                Some(m.1),
                Some(m.2),
                corners_from(next, 4 * i, 4),
            )
            &&& kids[0].0 == parent.a && kids[1].0 == parent.b && kids[2].0 == parent.c && kids[3].0 == m.0
        },
{
    let n = mesh.spec_vertices().len() as nat;
    let tt = triangle_tuples(mesh.spec_triangles());
    assert(nondegenerate(tt)) by {
        assert forall|j: int| 0 <= j < tt.len() implies (#[trigger] tt[j]).0 != tt[j].1 && tt[j].1 != tt[j].2 && tt[j].2 != tt[j].0 by {
            let t = mesh.spec_triangles()[j];
            assert(t.a != t.b && t.b != t.c && t.c != t.a);
        }
    }
    lemma_red_split_round_tiles(n, tt, i);
    let round = red_split_round(n, tt);
    let m = choose|m: (usize, usize, usize)| {
        &&& n <= m.0 < round.0 && n <= m.1 < round.0 && n <= m.2 < round.0
        &&& #[trigger] tiles_oriented(tt[i], Some(m.0), Some(m.1), Some(m.2), round.1.subrange(4 * i, 4 * i + 4))
        &&& round.1.subrange(4 * i, 4 * i + 4)[0].0 == tt[i].0 && round.1.subrange(4 * i, 4 * i + 4)[1].0 == tt[i].1
            && round.1.subrange(4 * i, 4 * i + 4)[2].0 == tt[i].2 && round.1.subrange(4 * i, 4 * i + 4)[3].0 == m.0
    };
    let kids = corners_from(next, 4 * i, 4);
    lemma_red_split_all_len(tt, visit_all(Map::empty(), n, visits(tt)).0);
    assert(kids =~= round.1.subrange(4 * i, 4 * i + 4)) by {
        assert forall|k: int| 0 <= k < 4 implies kids[k] == round.1.subrange(4 * i, 4 * i + 4)[k] by {
            assert(triangle_tuples(next.spec_triangles())[4 * i + k] == triangle_tuple(next.spec_triangles()[4 * i + k]));
        }
    }
    assert(tt[i] == (mesh.spec_triangles()[i].a, mesh.spec_triangles()[i].b, mesh.spec_triangles()[i].c));
}

/// `next` is what `k` rounds of uniform red splitting make of `mesh`, with
/// the split points placed by a default operator drawing from the
/// generator seeded with 0.
pub open spec fn subdivided<P, O: VertexOperator<Point = Vertex<P>> + Default>(mesh: Mesh<P>, k: nat, next: Mesh<P>) -> bool {
    &&& (next.spec_vertices().len() as nat, triangle_tuples(next.spec_triangles()))
        == red_split_steps(mesh.spec_vertices().len() as nat, triangle_tuples(mesh.spec_triangles()), k)
    &&& next.spec_vertices().take(mesh.spec_vertices().len() as int) == mesh.spec_vertices()
    &&& exists|operator: O, after: Pcg32|
        is_default(operator) && #[trigger] rounds_placed(
            operator,
            mesh.spec_vertices().len() as nat,
            triangle_tuples(mesh.spec_triangles()),
            k,
            next.spec_vertices(),
            seeded_pcg32(0),
            after,
        )
}

/// The same mesh and number of rounds give the same subdivided mesh, so
/// long as the operator is a function of its generator and edge ends and
/// its default is one value.
pub proof fn lemma_subdivided_deterministic<P, O: VertexOperator<Point = Vertex<P>> + Default>(
    mesh: Mesh<P>,
    k: nat,
    first: Mesh<P>,
    second: Mesh<P>,
)
    requires
        mesh.inv(),
        forall|o1: O, o2: O| is_default(o1) && is_default(o2) ==> o1 == o2,
        forall|o: O| is_default(o) ==> places_deterministically(o),
        subdivided::<P, O>(mesh, k, first),
        subdivided::<P, O>(mesh, k, second),
    ensures
        first.spec_vertices() == second.spec_vertices(),
        first.spec_triangles() == second.spec_triangles(),
{
    let n = mesh.spec_vertices().len() as nat;
    let tris = triangle_tuples(mesh.spec_triangles());
    let (o1, a1) = choose|o: O, a: Pcg32| is_default(o) && #[trigger] rounds_placed(o, n, tris, k, first.spec_vertices(), seeded_pcg32(0), a);
    let (o2, a2) = choose|o: O, a: Pcg32| is_default(o) && #[trigger] rounds_placed(o, n, tris, k, second.spec_vertices(), seeded_pcg32(0), a);
    assert(o1 == o2);
    let p = first.spec_vertices();
    let q = second.spec_vertices();
    lemma_red_split_steps_size(n, tris, k);
    assert forall|i: int| 0 <= i < n implies #[trigger] p[i] == q[i] by {
        assert(p.take(n as int)[i] == mesh.spec_vertices()[i]);
        assert(q.take(n as int)[i] == mesh.spec_vertices()[i]);
    }
    lemma_rounds_placed_deterministic(o1, n, tris, k, p, q, seeded_pcg32(0), a1, a2);
    assert(p =~= q);
    assert(first.spec_triangles() =~= second.spec_triangles()) by {
        assert forall|j: int| 0 <= j < first.spec_triangles().len() implies #[trigger] first.spec_triangles()[j] == second.spec_triangles()[j] by {
            assert(triangle_tuples(first.spec_triangles())[j] == triangle_tuples(second.spec_triangles())[j]);
        }
    }
}

/// The call that showed round `k + 1`: the callback in state `states[k]`
/// was shown `meshes[k]` as step `k + 1` and was left in state
/// `states[k + 1]`.
pub open spec fn shown_round<P, C: UpdateCallback<P>>(states: Seq<C>, meshes: Seq<Mesh<P>>, k: int) -> bool {
    call_ensures(C::update, (states[k], &meshes[k], (k + 1) as usize), states[k + 1])
}

/// The callback was shown the meshes in order, once each, as steps 1, 2, and
/// so on, going through the states `states`.
pub open spec fn shown_rounds<P, C: UpdateCallback<P>>(states: Seq<C>, meshes: Seq<Mesh<P>>) -> bool {
    &&& states.len() == meshes.len() + 1
    &&& forall|k: int| 0 <= k < meshes.len() ==> #[trigger] shown_round(states, meshes, k)
}

/// `round` is the mesh after `k` rounds from `mesh`: its triangles are
/// those of `red_split_steps` and its vertices are the first of `vertices`.
pub open spec fn round_mesh<P>(mesh: Mesh<P>, k: nat, vertices: Seq<Vertex<P>>, round: Mesh<P>) -> bool {
    let r = red_split_steps(mesh.spec_vertices().len() as nat, triangle_tuples(mesh.spec_triangles()), k);
    &&& r.0 <= vertices.len()
    &&& round.spec_vertices() == vertices.take(r.0 as int)
    &&& triangle_tuples(round.spec_triangles()) == r.1
}

} // verus!
