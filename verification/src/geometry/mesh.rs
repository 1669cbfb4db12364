use vstd::prelude::*;

pub use super::edge::Edge;
pub use super::face::Face;
pub use super::vertex::{is_default, Vertex};
use super::orientation::{closed_oriented, count_upto, edge_count, hits, runs_along};

verus! {

/// Why a mesh could not be built.
#[derive(Debug, Clone, PartialEq, Eq, Structural)]
pub enum MeshError {
    VertexIndexOutOfBounds { index: usize, vertex_count: usize },
}

/// Every corner of every triangle is below `n`.
pub open spec fn all_in_bounds(tris: Seq<(usize, usize, usize)>, n: int) -> bool {
    forall|t: int| 0 <= t < tris.len() ==> #[trigger] corner_in_bounds(tris[t], n)
}

/// Every corner of the triangle is below `n`.
pub open spec fn corner_in_bounds(t: (usize, usize, usize), n: int) -> bool {
    t.0 < n && t.1 < n && t.2 < n
}

/// The first corner that is not below `n`, reading the triangles in order
/// and each triangle's corners as a, b, c; none if every corner is below `n`.
pub open spec fn first_out_of_bounds(tris: Seq<(usize, usize, usize)>, n: int) -> Option<usize>
    decreases tris.len(),
{
    if tris.len() == 0 {
        None
    } else if tris[0].0 >= n {
        Some(tris[0].0)
    } else if tris[0].1 >= n {
        Some(tris[0].1)
    } else if tris[0].2 >= n {
        Some(tris[0].2)
    } else {
        first_out_of_bounds(tris.drop_first(), n)
    }
}

/// Skipping triangles that are in bounds does not change the first corner
/// out of bounds; there is none exactly when every triangle is in bounds.
pub proof fn lemma_first_out_of_bounds(tris: Seq<(usize, usize, usize)>, n: int, t: int)
    requires
        0 <= t <= tris.len(),
        all_in_bounds(tris.take(t), n),
    ensures
        first_out_of_bounds(tris, n) == first_out_of_bounds(tris.skip(t), n),
        first_out_of_bounds(tris, n) is None <==> all_in_bounds(tris, n),
    decreases tris.len(),
{
    if tris.len() > 0 {
        let rest = tris.drop_first();
        if t > 0 {
            assert(corner_in_bounds(tris.take(t)[0], n));
            assert(rest.take(t - 1) =~= tris.take(t).drop_first());
            assert(all_in_bounds(rest.take(t - 1), n)) by {
                assert forall|i: int| 0 <= i < rest.take(t - 1).len() implies #[trigger] corner_in_bounds(rest.take(t - 1)[i], n) by {
                    assert(corner_in_bounds(tris.take(t)[i + 1], n));
                }
            }
            lemma_first_out_of_bounds(rest, n, t - 1);
            assert(rest.skip(t - 1) =~= tris.skip(t));
        } else {
            assert(tris.skip(0) =~= tris);
            assert(rest.take(0) =~= Seq::<(usize, usize, usize)>::empty());
            lemma_first_out_of_bounds(rest, n, 0);
        }
        if all_in_bounds(tris, n) {
            assert(corner_in_bounds(tris[0], n));
            assert forall|i: int| 0 <= i < rest.len() implies #[trigger] corner_in_bounds(rest[i], n) by {
                assert(corner_in_bounds(tris[i + 1], n));
            }
        }
        if first_out_of_bounds(tris, n) is None {
            assert forall|i: int| 0 <= i < tris.len() implies #[trigger] corner_in_bounds(tris[i], n) by {
                if i > 0 {
                    assert(corner_in_bounds(rest[i - 1], n));
                }
            }
        }
    }
}

/// The ascending list of the edges among the first `k` whose start is `v`.
pub open spec fn incident_prefix(edges: Seq<Edge>, v: usize, k: int) -> Seq<usize>
    decreases k,
{
    if k <= 0 {
        Seq::empty()
    } else if edges[k - 1].start == v {
        incident_prefix(edges, v, k - 1).push((k - 1) as usize)
    } else {
        incident_prefix(edges, v, k - 1)
    }
}

/// A vertex's edge list holds exactly the edges that start at the vertex, in
/// ascending order.
pub proof fn lemma_incident_prefix(edges: Seq<Edge>, v: usize, k: int)
    requires
        0 <= k <= edges.len(),
        edges.len() <= usize::MAX,
    ensures
        forall|e: usize| #[trigger] incident_prefix(edges, v, k).contains(e) <==> (e < k && edges[e as int].start == v),
        forall|i: int, j: int| 0 <= i < j < incident_prefix(edges, v, k).len() ==> incident_prefix(edges, v, k)[i] < incident_prefix(edges, v, k)[j],
        forall|i: int| 0 <= i < incident_prefix(edges, v, k).len() ==> incident_prefix(edges, v, k)[i] < k,
    decreases k,
{
    if k > 0 {
        lemma_incident_prefix(edges, v, k - 1);
        let p = incident_prefix(edges, v, k - 1);
        if edges[k - 1].start == v {
            let q = p.push((k - 1) as usize);
            assert forall|e: usize| #[trigger] q.contains(e) <==> (e < k && edges[e as int].start == v) by {
                if e == (k - 1) as usize {
                    assert(q[p.len() as int] == e);
                } else if q.contains(e) {
                    let i = choose|i: int| 0 <= i < q.len() && q[i] == e;
                    assert(i < p.len());
                    assert(p[i] == e);
                    assert(p.contains(e));
                } else if e < k - 1 && edges[e as int].start == v {
                    assert(p.contains(e));
                    let i = choose|i: int| 0 <= i < p.len() && p[i] == e;
                    assert(q[i] == p[i]);
                    assert(q.contains(e));
                }
            }
        } else {
            assert forall|e: usize| #[trigger] p.contains(e) <==> (e < k && edges[e as int].start == v) by {
                if e == (k - 1) as usize {
                    assert(!p.contains(e));
                }
            }
        }
    }
}

/// Face `g` is the triangle `t`: its three edges are `3g`, `3g + 1`, `3g + 2`,
/// and they run a to b, b to c and c to a.
pub open spec fn face_is_triangle<P>(edges: Seq<Edge>, face: Face<P>, g: int, t: (usize, usize, usize)) -> bool {
    &&& face.edges@ == seq![(3 * g) as usize, (3 * g + 1) as usize, (3 * g + 2) as usize]
    &&& face.order == 3
    &&& edges[3 * g].start == t.0 && edges[3 * g].end == t.1 && edges[3 * g].face == g
    &&& edges[3 * g + 1].start == t.1 && edges[3 * g + 1].end == t.2 && edges[3 * g + 1].face == g
    &&& edges[3 * g + 2].start == t.2 && edges[3 * g + 2].end == t.0 && edges[3 * g + 2].face == g
}

/// The triangle that face `g` spans, read from its edges' starts.
pub open spec fn face_triangle_of(edges: Seq<Edge>, g: int) -> (usize, usize, usize) {
    (edges[3 * g].start, edges[3 * g + 1].start, edges[3 * g + 2].start)
}

/// The triangles of a mesh with these edges and `face_count` faces.
pub open spec fn triangles_of(edges: Seq<Edge>, face_count: int) -> Seq<(usize, usize, usize)> {
    Seq::new(face_count as nat, |g: int| face_triangle_of(edges, g))
}

/// The shape of every mesh: three edges per face, in face order, each
/// running between vertices of the mesh, and each vertex listing the edges
/// that start at it.
pub open spec fn mesh_wf<P>(vertices: Seq<Vertex<P>>, edges: Seq<Edge>, faces: Seq<Face<P>>) -> bool {
    &&& edges.len() == 3 * faces.len()
    &&& forall|g: int| 0 <= g < faces.len() ==> #[trigger] face_is_triangle(edges, faces[g], g, face_triangle_of(edges, g))
    &&& forall|e: int| 0 <= e < edges.len() ==> #[trigger] edges[e].start < vertices.len() && edges[e].end < vertices.len()
    &&& forall|v: int| 0 <= v < vertices.len() ==> (#[trigger] vertices[v]).edges@ == incident_prefix(edges, v as usize, edges.len() as int)
}

/// A triangle mesh whose vertices, edges and faces always index each other
/// in bounds.
#[derive(Debug, PartialEq)]
pub struct Mesh<P> {
    vertices: Vec<Vertex<P>>,
    edges: Vec<Edge>,
    faces: Vec<Face<P>>,
}

impl<P> Mesh<P> {
    pub closed spec fn spec_vertices(self) -> Seq<Vertex<P>> {
        self.vertices@
    }

    pub closed spec fn spec_edges(self) -> Seq<Edge> {
        self.edges@
    }

    pub closed spec fn spec_faces(self) -> Seq<Face<P>> {
        self.faces@
    }

    /// The positions of the vertices, in order.
    pub open spec fn spec_positions(self) -> Seq<P> {
        self.spec_vertices().map_values(|v: Vertex<P>| v.position)
    }

    /// The triangles of the faces, in order.
    pub open spec fn spec_triangles(self) -> Seq<(usize, usize, usize)> {
        triangles_of(self.spec_edges(), self.spec_faces().len() as int)
    }

    /// Every mesh has the shape that `mesh_wf` describes.
    #[verifier::type_invariant]
    pub open spec fn inv(self) -> bool {
        mesh_wf(self.spec_vertices(), self.spec_edges(), self.spec_faces())
    }
}

impl<P: Copy + Default> Mesh<P> {
    /// Builds the mesh with these vertex positions and these triangles. Fails
    /// with the first corner (triangle by triangle, a then b then c) that
    /// names no vertex.
    pub fn new(positions: Vec<P>, triangles: Vec<(usize, usize, usize)>) -> (result: Result<Mesh<P>, MeshError>)
        requires
            3 * triangles.len() <= usize::MAX,
        ensures
            result is Ok <==> all_in_bounds(triangles@, positions.len() as int),
            match result {
                Ok(mesh) => {
                    &&& mesh.spec_positions() == positions@
                    &&& mesh.spec_triangles() == triangles@
                    &&& mesh_wf(mesh.spec_vertices(), mesh.spec_edges(), mesh.spec_faces())
                    &&& forall|v: int| 0 <= v < mesh.spec_vertices().len() ==> is_default(#[trigger] mesh.spec_vertices()[v].normal)
                    &&& forall|g: int| 0 <= g < mesh.spec_faces().len() ==> is_default(#[trigger] mesh.spec_faces()[g].normal)
                },
                Err(MeshError::VertexIndexOutOfBounds { index, vertex_count }) => {
                    &&& vertex_count == positions.len()
                    &&& first_out_of_bounds(triangles@, positions.len() as int) == Some(index)
                },
            },
    {
        let vertex_count = positions.len();
        let mut t: usize = 0;
        while t < triangles.len()
            invariant
                t <= triangles.len(),
                vertex_count == positions.len(),
                all_in_bounds(triangles@.take(t as int), vertex_count as int),
            decreases triangles.len() - t,
        {
            let (a, b, c) = triangles[t];
            if a >= vertex_count {
                proof {
                    assert(!corner_in_bounds(triangles@[t as int], vertex_count as int));
                    lemma_first_out_of_bounds(triangles@, vertex_count as int, t as int);
                    assert(triangles@.skip(t as int)[0] == triangles@[t as int]);
                }
                return Err(MeshError::VertexIndexOutOfBounds { index: a, vertex_count });
            }
            if b >= vertex_count {
                proof {
                    assert(!corner_in_bounds(triangles@[t as int], vertex_count as int));
                    lemma_first_out_of_bounds(triangles@, vertex_count as int, t as int);
                    assert(triangles@.skip(t as int)[0] == triangles@[t as int]);
                }
                return Err(MeshError::VertexIndexOutOfBounds { index: b, vertex_count });
            }
            if c >= vertex_count {
                proof {
                    assert(!corner_in_bounds(triangles@[t as int], vertex_count as int));
                    lemma_first_out_of_bounds(triangles@, vertex_count as int, t as int);
                    assert(triangles@.skip(t as int)[0] == triangles@[t as int]);
                }
                return Err(MeshError::VertexIndexOutOfBounds { index: c, vertex_count });
            }
            proof {
                assert(triangles@.take(t + 1) == triangles@.take(t as int).push(triangles@[t as int]));
                assert(corner_in_bounds(triangles@[t as int], vertex_count as int));
            }
            t = t + 1;
        }
        proof {
            assert(triangles@.take(triangles.len() as int) == triangles@);
        }

        let mut vertices: Vec<Vertex<P>> = Vec::new();
        let mut i: usize = 0;
        while i < positions.len()
            invariant
                i <= positions.len(),
                vertices.len() == i,
                forall|j: int| 0 <= j < i ==> (#[trigger] vertices@[j]).position == positions@[j],
                forall|j: int| 0 <= j < i ==> (#[trigger] vertices@[j]).edges@ == Seq::<usize>::empty(),
                forall|j: int| 0 <= j < i ==> is_default((#[trigger] vertices@[j]).normal),
            decreases positions.len() - i,
        {
            vertices.push(Vertex::at(positions[i]));
            i = i + 1;
        }

        let mut edges: Vec<Edge> = Vec::new();
        let mut faces: Vec<Face<P>> = Vec::new();
        let mut f: usize = 0;
        while f < triangles.len()
            invariant
                f <= triangles.len(),
                3 * triangles.len() <= usize::MAX,
                all_in_bounds(triangles@, vertex_count as int),
                edges.len() == 3 * f,
                faces.len() == f,
                forall|g: int| 0 <= g < f ==> #[trigger] face_is_triangle(edges@, faces@[g], g, triangles@[g]),
                forall|e: int| 0 <= e < edges.len() ==> #[trigger] edges@[e].start < vertex_count && edges@[e].end < vertex_count,
                forall|g: int| 0 <= g < f ==> is_default((#[trigger] faces@[g]).normal),
            decreases triangles.len() - f,
        {
            let (a, b, c) = triangles[f];
            let ghost prev_edges = edges@;
            assert(corner_in_bounds(triangles@[f as int], vertex_count as int));
            let base = edges.len();
            edges.push(Edge { start: a, end: b, face: f });
            edges.push(Edge { start: b, end: c, face: f });
            edges.push(Edge { start: c, end: a, face: f });
            let normal = P::default();
            faces.push(Face { edges: vec![base, base + 1, base + 2], order: 3, normal });
            proof {
                assert forall|g: int| 0 <= g < f + 1 implies #[trigger] face_is_triangle(edges@, faces@[g], g, triangles@[g]) by {
                    if g < f {
                        assert(face_is_triangle(prev_edges, faces@[g], g, triangles@[g]));
                    }
                }
            }
            f = f + 1;
        }

        let mut e: usize = 0;
        while e < edges.len()
            invariant
                e <= edges.len(),
                vertices.len() == vertex_count,
                forall|j: int| 0 <= j < edges.len() ==> #[trigger] edges@[j].start < vertex_count,
                forall|j: int| 0 <= j < vertex_count ==> (#[trigger] vertices@[j]).position == positions@[j],
                forall|v: int| 0 <= v < vertex_count ==> (#[trigger] vertices@[v]).edges@ == incident_prefix(edges@, v as usize, e as int),
                forall|v: int| 0 <= v < vertex_count ==> is_default((#[trigger] vertices@[v]).normal),
                forall|g: int| 0 <= g < faces.len() ==> is_default((#[trigger] faces@[g]).normal),
            decreases edges.len() - e,
        {
            let s = edges[e].start;
            vertices[s].edges.push(e);
            e = e + 1;
        }

        proof {
            assert forall|g: int| 0 <= g < faces.len() implies #[trigger] face_is_triangle(edges@, faces@[g], g, face_triangle_of(edges@, g)) by {
                assert(face_is_triangle(edges@, faces@[g], g, triangles@[g]));
            }
        }
        let mesh = Mesh { vertices, edges, faces };
        proof {
            assert(mesh.spec_positions() =~= positions@);
            assert(mesh.spec_triangles() =~= triangles@) by {
                assert forall|g: int| 0 <= g < triangles.len() implies #[trigger] mesh.spec_triangles()[g] == triangles@[g] by {
                    assert(face_is_triangle(mesh.edges@, mesh.faces@[g], g, triangles@[g]));
                }
            }
        }
        Ok(mesh)
    }
}

/// The law of a mesh's faces: the three half-edges of face `g` run around
/// its triangle a, b, c in order, from a to b, from b to c and from c to a,
/// so each ends where the next starts and the last ends where the first
/// starts.
pub proof fn lemma_face_half_edges<P>(mesh: Mesh<P>, g: int)
    requires
        mesh.inv(),
        0 <= g < mesh.spec_faces().len(),
    ensures
        ({
            let edges = mesh.spec_edges();
            let t = mesh.spec_triangles()[g];
            &&& edges[3 * g].start == t.0 && edges[3 * g].end == t.1 && edges[3 * g].face == g
            &&& edges[3 * g + 1].start == t.1 && edges[3 * g + 1].end == t.2 && edges[3 * g + 1].face == g
            &&& edges[3 * g + 2].start == t.2 && edges[3 * g + 2].end == t.0 && edges[3 * g + 2].face == g
            &&& edges[3 * g].end == edges[3 * g + 1].start
            &&& edges[3 * g + 1].end == edges[3 * g + 2].start
            &&& edges[3 * g + 2].end == edges[3 * g].start
            &&& mesh.spec_faces()[g].edges@ == seq![(3 * g) as usize, (3 * g + 1) as usize, (3 * g + 2) as usize]
        }),
{
    assert(face_is_triangle(mesh.spec_edges(), mesh.spec_faces()[g], g, face_triangle_of(mesh.spec_edges(), g)));
}

/// `b` holds what `a` holds.
pub open spec fn same_vertex<P>(a: Vertex<P>, b: Vertex<P>) -> bool {
    a.position == b.position && a.normal == b.normal && a.edges@ == b.edges@
}

/// `b` holds what `a` holds.
pub open spec fn same_face<P>(a: Face<P>, b: Face<P>) -> bool {
    a.edges@ == b.edges@ && a.order == b.order && a.normal == b.normal
}

/// The triangles of the icosahedron over its twelve corners.
pub open spec fn icosahedron_spec() -> Seq<(usize, usize, usize)> {
    seq![
        (0usize, 11usize, 5usize), (0, 5, 1), (0, 1, 7), (0, 7, 10), (0, 10, 11),
        (1, 5, 9), (5, 11, 4), (11, 10, 2), (10, 7, 6), (7, 1, 8),
        (3, 9, 4), (3, 4, 2), (3, 2, 6), (3, 6, 8), (3, 8, 9),
        (4, 9, 5), (2, 4, 11), (6, 2, 10), (8, 6, 7), (9, 8, 1),
    ]
}

/// How many of the icosahedron's faces run along `e`, face by face.
spec fn icosahedron_count(e: (usize, usize)) -> nat {
    hits((0usize, 11usize, 5usize), e) + hits((0usize, 5usize, 1usize), e) + hits((0usize, 1usize, 7usize), e) + hits((0usize, 7usize, 10usize), e) + hits((0usize, 10usize, 11usize), e) + hits((1usize, 5usize, 9usize), e) + hits((5usize, 11usize, 4usize), e) + hits((11usize, 10usize, 2usize), e) + hits((10usize, 7usize, 6usize), e) + hits((7usize, 1usize, 8usize), e) + hits((3usize, 9usize, 4usize), e) + hits((3usize, 4usize, 2usize), e) + hits((3usize, 2usize, 6usize), e) + hits((3usize, 6usize, 8usize), e) + hits((3usize, 8usize, 9usize), e) + hits((4usize, 9usize, 5usize), e) + hits((2usize, 4usize, 11usize), e) + hits((6usize, 2usize, 10usize), e) + hits((8usize, 6usize, 7usize), e) + hits((9usize, 8usize, 1usize), e)
}

proof fn lemma_icosahedron_entries()
    ensures
        icosahedron_spec().len() == 20,
        icosahedron_spec()[0] == (0usize, 11usize, 5usize),
        icosahedron_spec()[1] == (0usize, 5usize, 1usize),
        icosahedron_spec()[2] == (0usize, 1usize, 7usize),
        icosahedron_spec()[3] == (0usize, 7usize, 10usize),
        icosahedron_spec()[4] == (0usize, 10usize, 11usize),
        icosahedron_spec()[5] == (1usize, 5usize, 9usize),
        icosahedron_spec()[6] == (5usize, 11usize, 4usize),
        icosahedron_spec()[7] == (11usize, 10usize, 2usize),
        icosahedron_spec()[8] == (10usize, 7usize, 6usize),
        icosahedron_spec()[9] == (7usize, 1usize, 8usize),
        icosahedron_spec()[10] == (3usize, 9usize, 4usize),
        icosahedron_spec()[11] == (3usize, 4usize, 2usize),
        icosahedron_spec()[12] == (3usize, 2usize, 6usize),
        icosahedron_spec()[13] == (3usize, 6usize, 8usize),
        icosahedron_spec()[14] == (3usize, 8usize, 9usize),
        icosahedron_spec()[15] == (4usize, 9usize, 5usize),
        icosahedron_spec()[16] == (2usize, 4usize, 11usize),
        icosahedron_spec()[17] == (6usize, 2usize, 10usize),
        icosahedron_spec()[18] == (8usize, 6usize, 7usize),
        icosahedron_spec()[19] == (9usize, 8usize, 1usize),
{
}

proof fn lemma_icosahedron_count(e: (usize, usize))
    ensures
        edge_count(icosahedron_spec(), e) == icosahedron_count(e),
{
    let tris = icosahedron_spec();
    lemma_icosahedron_entries();
    assert(count_upto(tris, e, 0) == 0);
    assert(count_upto(tris, e, 1) == count_upto(tris, e, 0) + hits((0usize, 11usize, 5usize), e));
    assert(count_upto(tris, e, 2) == count_upto(tris, e, 1) + hits((0usize, 5usize, 1usize), e));
    assert(count_upto(tris, e, 3) == count_upto(tris, e, 2) + hits((0usize, 1usize, 7usize), e));
    assert(count_upto(tris, e, 4) == count_upto(tris, e, 3) + hits((0usize, 7usize, 10usize), e));
    assert(count_upto(tris, e, 5) == count_upto(tris, e, 4) + hits((0usize, 10usize, 11usize), e));
    assert(count_upto(tris, e, 6) == count_upto(tris, e, 5) + hits((1usize, 5usize, 9usize), e));
    assert(count_upto(tris, e, 7) == count_upto(tris, e, 6) + hits((5usize, 11usize, 4usize), e));
    assert(count_upto(tris, e, 8) == count_upto(tris, e, 7) + hits((11usize, 10usize, 2usize), e));
    assert(count_upto(tris, e, 9) == count_upto(tris, e, 8) + hits((10usize, 7usize, 6usize), e));
    assert(count_upto(tris, e, 10) == count_upto(tris, e, 9) + hits((7usize, 1usize, 8usize), e));
    assert(count_upto(tris, e, 11) == count_upto(tris, e, 10) + hits((3usize, 9usize, 4usize), e));
    assert(count_upto(tris, e, 12) == count_upto(tris, e, 11) + hits((3usize, 4usize, 2usize), e));
    assert(count_upto(tris, e, 13) == count_upto(tris, e, 12) + hits((3usize, 2usize, 6usize), e));
    assert(count_upto(tris, e, 14) == count_upto(tris, e, 13) + hits((3usize, 6usize, 8usize), e));
    assert(count_upto(tris, e, 15) == count_upto(tris, e, 14) + hits((3usize, 8usize, 9usize), e));
    assert(count_upto(tris, e, 16) == count_upto(tris, e, 15) + hits((4usize, 9usize, 5usize), e));
    assert(count_upto(tris, e, 17) == count_upto(tris, e, 16) + hits((2usize, 4usize, 11usize), e));
    assert(count_upto(tris, e, 18) == count_upto(tris, e, 17) + hits((6usize, 2usize, 10usize), e));
    assert(count_upto(tris, e, 19) == count_upto(tris, e, 18) + hits((8usize, 6usize, 7usize), e));
    assert(count_upto(tris, e, 20) == count_upto(tris, e, 19) + hits((9usize, 8usize, 1usize), e));
}

/// Each directed edge of the triangle, and its reverse, is run along by
/// exactly one face of the icosahedron.
spec fn icosahedron_paired(t: (usize, usize, usize)) -> bool {
    let tris = icosahedron_spec();
    &&& edge_count(tris, (t.0, t.1)) == 1 && edge_count(tris, (t.1, t.0)) == 1
    &&& edge_count(tris, (t.1, t.2)) == 1 && edge_count(tris, (t.2, t.1)) == 1
    &&& edge_count(tris, (t.2, t.0)) == 1 && edge_count(tris, (t.0, t.2)) == 1
}

proof fn lemma_icosahedron_paired_0()
    ensures
        icosahedron_paired((0usize, 11usize, 5usize)),
        icosahedron_paired((0usize, 5usize, 1usize)),
        icosahedron_paired((0usize, 1usize, 7usize)),
        icosahedron_paired((0usize, 7usize, 10usize)),
        icosahedron_paired((0usize, 10usize, 11usize)),
{
    lemma_icosahedron_count((0usize, 11usize));
    assert(icosahedron_count((0usize, 11usize)) == 1);
    lemma_icosahedron_count((11usize, 0usize));
    assert(icosahedron_count((11usize, 0usize)) == 1);
    lemma_icosahedron_count((11usize, 5usize));
    assert(icosahedron_count((11usize, 5usize)) == 1);
    lemma_icosahedron_count((5usize, 11usize));
    assert(icosahedron_count((5usize, 11usize)) == 1);
    lemma_icosahedron_count((5usize, 0usize));
    assert(icosahedron_count((5usize, 0usize)) == 1);
    lemma_icosahedron_count((0usize, 5usize));
    assert(icosahedron_count((0usize, 5usize)) == 1);
    lemma_icosahedron_count((0usize, 5usize));
    assert(icosahedron_count((0usize, 5usize)) == 1);
    lemma_icosahedron_count((5usize, 0usize));
    assert(icosahedron_count((5usize, 0usize)) == 1);
    lemma_icosahedron_count((5usize, 1usize));
    assert(icosahedron_count((5usize, 1usize)) == 1);
    lemma_icosahedron_count((1usize, 5usize));
    assert(icosahedron_count((1usize, 5usize)) == 1);
    lemma_icosahedron_count((1usize, 0usize));
    assert(icosahedron_count((1usize, 0usize)) == 1);
    lemma_icosahedron_count((0usize, 1usize));
    assert(icosahedron_count((0usize, 1usize)) == 1);
    lemma_icosahedron_count((0usize, 1usize));
    assert(icosahedron_count((0usize, 1usize)) == 1);
    lemma_icosahedron_count((1usize, 0usize));
    assert(icosahedron_count((1usize, 0usize)) == 1);
    lemma_icosahedron_count((1usize, 7usize));
    assert(icosahedron_count((1usize, 7usize)) == 1);
    lemma_icosahedron_count((7usize, 1usize));
    assert(icosahedron_count((7usize, 1usize)) == 1);
    lemma_icosahedron_count((7usize, 0usize));
    assert(icosahedron_count((7usize, 0usize)) == 1);
    lemma_icosahedron_count((0usize, 7usize));
    assert(icosahedron_count((0usize, 7usize)) == 1);
    lemma_icosahedron_count((0usize, 7usize));
    assert(icosahedron_count((0usize, 7usize)) == 1);
    lemma_icosahedron_count((7usize, 0usize));
    assert(icosahedron_count((7usize, 0usize)) == 1);
    lemma_icosahedron_count((7usize, 10usize));
    assert(icosahedron_count((7usize, 10usize)) == 1);
    lemma_icosahedron_count((10usize, 7usize));
    assert(icosahedron_count((10usize, 7usize)) == 1);
    lemma_icosahedron_count((10usize, 0usize));
    assert(icosahedron_count((10usize, 0usize)) == 1);
    lemma_icosahedron_count((0usize, 10usize));
    assert(icosahedron_count((0usize, 10usize)) == 1);
    lemma_icosahedron_count((0usize, 10usize));
    assert(icosahedron_count((0usize, 10usize)) == 1);
    lemma_icosahedron_count((10usize, 0usize));
    assert(icosahedron_count((10usize, 0usize)) == 1);
    lemma_icosahedron_count((10usize, 11usize));
    assert(icosahedron_count((10usize, 11usize)) == 1);
    lemma_icosahedron_count((11usize, 10usize));
    assert(icosahedron_count((11usize, 10usize)) == 1);
    lemma_icosahedron_count((11usize, 0usize));
    assert(icosahedron_count((11usize, 0usize)) == 1);
    lemma_icosahedron_count((0usize, 11usize));
    assert(icosahedron_count((0usize, 11usize)) == 1);
}

proof fn lemma_icosahedron_paired_1()
    ensures
        icosahedron_paired((1usize, 5usize, 9usize)),
        icosahedron_paired((5usize, 11usize, 4usize)),
        icosahedron_paired((11usize, 10usize, 2usize)),
        icosahedron_paired((10usize, 7usize, 6usize)),
        icosahedron_paired((7usize, 1usize, 8usize)),
{
    lemma_icosahedron_count((1usize, 5usize));
    assert(icosahedron_count((1usize, 5usize)) == 1);
    lemma_icosahedron_count((5usize, 1usize));
    assert(icosahedron_count((5usize, 1usize)) == 1);
    lemma_icosahedron_count((5usize, 9usize));
    assert(icosahedron_count((5usize, 9usize)) == 1);
    lemma_icosahedron_count((9usize, 5usize));
    assert(icosahedron_count((9usize, 5usize)) == 1);
    lemma_icosahedron_count((9usize, 1usize));
    assert(icosahedron_count((9usize, 1usize)) == 1);
    lemma_icosahedron_count((1usize, 9usize));
    assert(icosahedron_count((1usize, 9usize)) == 1);
    lemma_icosahedron_count((5usize, 11usize));
    assert(icosahedron_count((5usize, 11usize)) == 1);
    lemma_icosahedron_count((11usize, 5usize));
    assert(icosahedron_count((11usize, 5usize)) == 1);
    lemma_icosahedron_count((11usize, 4usize));
    assert(icosahedron_count((11usize, 4usize)) == 1);
    lemma_icosahedron_count((4usize, 11usize));
    assert(icosahedron_count((4usize, 11usize)) == 1);
    lemma_icosahedron_count((4usize, 5usize));
    assert(icosahedron_count((4usize, 5usize)) == 1);
    lemma_icosahedron_count((5usize, 4usize));
    assert(icosahedron_count((5usize, 4usize)) == 1);
    lemma_icosahedron_count((11usize, 10usize));
    assert(icosahedron_count((11usize, 10usize)) == 1);
    lemma_icosahedron_count((10usize, 11usize));
    assert(icosahedron_count((10usize, 11usize)) == 1);
    lemma_icosahedron_count((10usize, 2usize));
    assert(icosahedron_count((10usize, 2usize)) == 1);
    lemma_icosahedron_count((2usize, 10usize));
    assert(icosahedron_count((2usize, 10usize)) == 1);
    lemma_icosahedron_count((2usize, 11usize));
    assert(icosahedron_count((2usize, 11usize)) == 1);
    lemma_icosahedron_count((11usize, 2usize));
    assert(icosahedron_count((11usize, 2usize)) == 1);
    lemma_icosahedron_count((10usize, 7usize));
    assert(icosahedron_count((10usize, 7usize)) == 1);
    lemma_icosahedron_count((7usize, 10usize));
    assert(icosahedron_count((7usize, 10usize)) == 1);
    lemma_icosahedron_count((7usize, 6usize));
    assert(icosahedron_count((7usize, 6usize)) == 1);
    lemma_icosahedron_count((6usize, 7usize));
    assert(icosahedron_count((6usize, 7usize)) == 1);
    lemma_icosahedron_count((6usize, 10usize));
    assert(icosahedron_count((6usize, 10usize)) == 1);
    lemma_icosahedron_count((10usize, 6usize));
    assert(icosahedron_count((10usize, 6usize)) == 1);
    lemma_icosahedron_count((7usize, 1usize));
    assert(icosahedron_count((7usize, 1usize)) == 1);
    lemma_icosahedron_count((1usize, 7usize));
    assert(icosahedron_count((1usize, 7usize)) == 1);
    lemma_icosahedron_count((1usize, 8usize));
    assert(icosahedron_count((1usize, 8usize)) == 1);
    lemma_icosahedron_count((8usize, 1usize));
    assert(icosahedron_count((8usize, 1usize)) == 1);
    lemma_icosahedron_count((8usize, 7usize));
    assert(icosahedron_count((8usize, 7usize)) == 1);
    lemma_icosahedron_count((7usize, 8usize));
    assert(icosahedron_count((7usize, 8usize)) == 1);
}

proof fn lemma_icosahedron_paired_2()
    ensures
        icosahedron_paired((3usize, 9usize, 4usize)),
        icosahedron_paired((3usize, 4usize, 2usize)),
        icosahedron_paired((3usize, 2usize, 6usize)),
        icosahedron_paired((3usize, 6usize, 8usize)),
        icosahedron_paired((3usize, 8usize, 9usize)),
{
    lemma_icosahedron_count((3usize, 9usize));
    assert(icosahedron_count((3usize, 9usize)) == 1);
    lemma_icosahedron_count((9usize, 3usize));
    assert(icosahedron_count((9usize, 3usize)) == 1);
    lemma_icosahedron_count((9usize, 4usize));
    assert(icosahedron_count((9usize, 4usize)) == 1);
    lemma_icosahedron_count((4usize, 9usize));
    assert(icosahedron_count((4usize, 9usize)) == 1);
    lemma_icosahedron_count((4usize, 3usize));
    assert(icosahedron_count((4usize, 3usize)) == 1);
    lemma_icosahedron_count((3usize, 4usize));
    assert(icosahedron_count((3usize, 4usize)) == 1);
    lemma_icosahedron_count((3usize, 4usize));
    assert(icosahedron_count((3usize, 4usize)) == 1);
    lemma_icosahedron_count((4usize, 3usize));
    assert(icosahedron_count((4usize, 3usize)) == 1);
    lemma_icosahedron_count((4usize, 2usize));
    assert(icosahedron_count((4usize, 2usize)) == 1);
    lemma_icosahedron_count((2usize, 4usize));
    assert(icosahedron_count((2usize, 4usize)) == 1);
    lemma_icosahedron_count((2usize, 3usize));
    assert(icosahedron_count((2usize, 3usize)) == 1);
    lemma_icosahedron_count((3usize, 2usize));
    assert(icosahedron_count((3usize, 2usize)) == 1);
    lemma_icosahedron_count((3usize, 2usize));
    assert(icosahedron_count((3usize, 2usize)) == 1);
    lemma_icosahedron_count((2usize, 3usize));
    assert(icosahedron_count((2usize, 3usize)) == 1);
    lemma_icosahedron_count((2usize, 6usize));
    assert(icosahedron_count((2usize, 6usize)) == 1);
    lemma_icosahedron_count((6usize, 2usize));
    assert(icosahedron_count((6usize, 2usize)) == 1);
    lemma_icosahedron_count((6usize, 3usize));
    assert(icosahedron_count((6usize, 3usize)) == 1);
    lemma_icosahedron_count((3usize, 6usize));
    assert(icosahedron_count((3usize, 6usize)) == 1);
    lemma_icosahedron_count((3usize, 6usize));
    assert(icosahedron_count((3usize, 6usize)) == 1);
    lemma_icosahedron_count((6usize, 3usize));
    assert(icosahedron_count((6usize, 3usize)) == 1);
    lemma_icosahedron_count((6usize, 8usize));
    assert(icosahedron_count((6usize, 8usize)) == 1);
    lemma_icosahedron_count((8usize, 6usize));
    assert(icosahedron_count((8usize, 6usize)) == 1);
    lemma_icosahedron_count((8usize, 3usize));
    assert(icosahedron_count((8usize, 3usize)) == 1);
    lemma_icosahedron_count((3usize, 8usize));
    assert(icosahedron_count((3usize, 8usize)) == 1);
    lemma_icosahedron_count((3usize, 8usize));
    assert(icosahedron_count((3usize, 8usize)) == 1);
    lemma_icosahedron_count((8usize, 3usize));
    assert(icosahedron_count((8usize, 3usize)) == 1);
    lemma_icosahedron_count((8usize, 9usize));
    assert(icosahedron_count((8usize, 9usize)) == 1);
    lemma_icosahedron_count((9usize, 8usize));
    assert(icosahedron_count((9usize, 8usize)) == 1);
    lemma_icosahedron_count((9usize, 3usize));
    assert(icosahedron_count((9usize, 3usize)) == 1);
    lemma_icosahedron_count((3usize, 9usize));
    assert(icosahedron_count((3usize, 9usize)) == 1);
}

proof fn lemma_icosahedron_paired_3()
    ensures
        icosahedron_paired((4usize, 9usize, 5usize)),
        icosahedron_paired((2usize, 4usize, 11usize)),
        icosahedron_paired((6usize, 2usize, 10usize)),
        icosahedron_paired((8usize, 6usize, 7usize)),
        icosahedron_paired((9usize, 8usize, 1usize)),
{
    lemma_icosahedron_count((4usize, 9usize));
    assert(icosahedron_count((4usize, 9usize)) == 1);
    lemma_icosahedron_count((9usize, 4usize));
    assert(icosahedron_count((9usize, 4usize)) == 1);
    lemma_icosahedron_count((9usize, 5usize));
    assert(icosahedron_count((9usize, 5usize)) == 1);
    lemma_icosahedron_count((5usize, 9usize));
    assert(icosahedron_count((5usize, 9usize)) == 1);
    lemma_icosahedron_count((5usize, 4usize));
    assert(icosahedron_count((5usize, 4usize)) == 1);
    lemma_icosahedron_count((4usize, 5usize));
    assert(icosahedron_count((4usize, 5usize)) == 1);
    lemma_icosahedron_count((2usize, 4usize));
    assert(icosahedron_count((2usize, 4usize)) == 1);
    lemma_icosahedron_count((4usize, 2usize));
    assert(icosahedron_count((4usize, 2usize)) == 1);
    lemma_icosahedron_count((4usize, 11usize));
    assert(icosahedron_count((4usize, 11usize)) == 1);
    lemma_icosahedron_count((11usize, 4usize));
    assert(icosahedron_count((11usize, 4usize)) == 1);
    lemma_icosahedron_count((11usize, 2usize));
    assert(icosahedron_count((11usize, 2usize)) == 1);
    lemma_icosahedron_count((2usize, 11usize));
    assert(icosahedron_count((2usize, 11usize)) == 1);
    lemma_icosahedron_count((6usize, 2usize));
    assert(icosahedron_count((6usize, 2usize)) == 1);
    lemma_icosahedron_count((2usize, 6usize));
    assert(icosahedron_count((2usize, 6usize)) == 1);
    lemma_icosahedron_count((2usize, 10usize));
    assert(icosahedron_count((2usize, 10usize)) == 1);
    lemma_icosahedron_count((10usize, 2usize));
    assert(icosahedron_count((10usize, 2usize)) == 1);
    lemma_icosahedron_count((10usize, 6usize));
    assert(icosahedron_count((10usize, 6usize)) == 1);
    lemma_icosahedron_count((6usize, 10usize));
    assert(icosahedron_count((6usize, 10usize)) == 1);
    lemma_icosahedron_count((8usize, 6usize));
    assert(icosahedron_count((8usize, 6usize)) == 1);
    lemma_icosahedron_count((6usize, 8usize));
    assert(icosahedron_count((6usize, 8usize)) == 1);
    lemma_icosahedron_count((6usize, 7usize));
    assert(icosahedron_count((6usize, 7usize)) == 1);
    lemma_icosahedron_count((7usize, 6usize));
    assert(icosahedron_count((7usize, 6usize)) == 1);
    lemma_icosahedron_count((7usize, 8usize));
    assert(icosahedron_count((7usize, 8usize)) == 1);
    lemma_icosahedron_count((8usize, 7usize));
    assert(icosahedron_count((8usize, 7usize)) == 1);
    lemma_icosahedron_count((9usize, 8usize));
    assert(icosahedron_count((9usize, 8usize)) == 1);
    lemma_icosahedron_count((8usize, 9usize));
    assert(icosahedron_count((8usize, 9usize)) == 1);
    lemma_icosahedron_count((8usize, 1usize));
    assert(icosahedron_count((8usize, 1usize)) == 1);
    lemma_icosahedron_count((1usize, 8usize));
    assert(icosahedron_count((1usize, 8usize)) == 1);
    lemma_icosahedron_count((1usize, 9usize));
    assert(icosahedron_count((1usize, 9usize)) == 1);
    lemma_icosahedron_count((9usize, 1usize));
    assert(icosahedron_count((9usize, 1usize)) == 1);
}

/// The law of the icosahedron's triangles: they form a closed surface with
/// one orientation, every directed edge run along by one face and its
/// reverse by exactly one other.
pub proof fn lemma_icosahedron_closed_oriented()
    ensures
        closed_oriented(icosahedron_spec()),
        icosahedron_spec().len() == 20,
{
    let tris = icosahedron_spec();
    lemma_icosahedron_entries();
    lemma_icosahedron_paired_0();
    lemma_icosahedron_paired_1();
    lemma_icosahedron_paired_2();
    lemma_icosahedron_paired_3();
    assert forall|i: int, e: (usize, usize)|
        0 <= i < tris.len() && #[trigger] runs_along(tris[i], e) implies edge_count(tris, e) == 1 && edge_count(tris, (e.1, e.0)) == 1 by {
        assert(icosahedron_paired(tris[i])) by {
        if i == 0 {
            assert(icosahedron_paired((0usize, 11usize, 5usize)));
        } else if i == 1 {
            assert(icosahedron_paired((0usize, 5usize, 1usize)));
        } else if i == 2 {
            assert(icosahedron_paired((0usize, 1usize, 7usize)));
        } else if i == 3 {
            assert(icosahedron_paired((0usize, 7usize, 10usize)));
        } else if i == 4 {
            assert(icosahedron_paired((0usize, 10usize, 11usize)));
        } else if i == 5 {
            assert(icosahedron_paired((1usize, 5usize, 9usize)));
        } else if i == 6 {
            assert(icosahedron_paired((5usize, 11usize, 4usize)));
        } else if i == 7 {
            assert(icosahedron_paired((11usize, 10usize, 2usize)));
        } else if i == 8 {
            assert(icosahedron_paired((10usize, 7usize, 6usize)));
        } else if i == 9 {
            assert(icosahedron_paired((7usize, 1usize, 8usize)));
        } else if i == 10 {
            assert(icosahedron_paired((3usize, 9usize, 4usize)));
        } else if i == 11 {
            assert(icosahedron_paired((3usize, 4usize, 2usize)));
        } else if i == 12 {
            assert(icosahedron_paired((3usize, 2usize, 6usize)));
        } else if i == 13 {
            assert(icosahedron_paired((3usize, 6usize, 8usize)));
        } else if i == 14 {
            assert(icosahedron_paired((3usize, 8usize, 9usize)));
        } else if i == 15 {
            assert(icosahedron_paired((4usize, 9usize, 5usize)));
        } else if i == 16 {
            assert(icosahedron_paired((2usize, 4usize, 11usize)));
        } else if i == 17 {
            assert(icosahedron_paired((6usize, 2usize, 10usize)));
        } else if i == 18 {
            assert(icosahedron_paired((8usize, 6usize, 7usize)));
        } else if i == 19 {
            assert(icosahedron_paired((9usize, 8usize, 1usize)));
            }
        }
    }
}

/// The twenty triangles of the icosahedron, over corners 0 to 11.
pub fn icosahedron_triangles() -> (triangles: Vec<(usize, usize, usize)>)
    ensures
        triangles@ == icosahedron_spec(),
        all_in_bounds(triangles@, 12),
{
    let triangles = vec![
        (0usize, 11usize, 5usize), (0, 5, 1), (0, 1, 7), (0, 7, 10), (0, 10, 11),
        (1, 5, 9), (5, 11, 4), (11, 10, 2), (10, 7, 6), (7, 1, 8),
        (3, 9, 4), (3, 4, 2), (3, 2, 6), (3, 6, 8), (3, 8, 9),
        (4, 9, 5), (2, 4, 11), (6, 2, 10), (8, 6, 7), (9, 8, 1),
    ];
    assert(triangles@ =~= icosahedron_spec());
    triangles
}

impl<P> Mesh<P> {
    /// The vertices, in order.
    pub fn vertices(&self) -> (vertices: &[Vertex<P>])
        ensures
            vertices@ == self.spec_vertices(),
            mesh_wf(self.spec_vertices(), self.spec_edges(), self.spec_faces()),
    {
        proof {
            use_type_invariant(self);
        }
        self.vertices.as_slice()
    }

    /// The edges, three per face, in face order.
    pub fn edges(&self) -> (edges: &[Edge])
        ensures
            edges@ == self.spec_edges(),
            mesh_wf(self.spec_vertices(), self.spec_edges(), self.spec_faces()),
    {
        proof {
            use_type_invariant(self);
        }
        self.edges.as_slice()
    }

    /// The faces, in order.
    pub fn faces(&self) -> (faces: &[Face<P>])
        ensures
            faces@ == self.spec_faces(),
            mesh_wf(self.spec_vertices(), self.spec_edges(), self.spec_faces()),
    {
        proof {
            use_type_invariant(self);
        }
        self.faces.as_slice()
    }

    /// Rebuilds a mesh from parts that already have the shape of a mesh.
    pub fn from_parts(vertices: Vec<Vertex<P>>, edges: Vec<Edge>, faces: Vec<Face<P>>) -> (mesh: Mesh<P>)
        requires
            mesh_wf(vertices@, edges@, faces@),
        ensures
            mesh.spec_vertices() == vertices@,
            mesh.spec_edges() == edges@,
            mesh.spec_faces() == faces@,
    {
        Mesh { vertices, edges, faces }
    }
}

/// A copy of a list of vertex indices.
fn copy_indices(indices: &Vec<usize>) -> (copy: Vec<usize>)
    ensures
        copy@ == indices@,
{
    let mut copy: Vec<usize> = Vec::new();
    let mut i: usize = 0;
    while i < indices.len()
        invariant
            i <= indices.len(),
            copy@ == indices@.take(i as int),
        decreases indices.len() - i,
    {
        copy.push(indices[i]);
        proof {
            assert(indices@.take(i + 1) == indices@.take(i as int).push(indices@[i as int]));
        }
        i = i + 1;
    }
    proof {
        assert(indices@.take(indices.len() as int) == indices@);
    }
    copy
}

/// A copy of the faces.
fn copy_faces<P: Copy>(faces: &[Face<P>]) -> (copy: Vec<Face<P>>)
    ensures
        copy.len() == faces@.len(),
        forall|g: int| 0 <= g < faces@.len() ==> #[trigger] same_face(faces@[g], copy@[g]),
{
    let mut copy: Vec<Face<P>> = Vec::new();
    let mut g: usize = 0;
    while g < faces.len()
        invariant
            g <= faces@.len(),
            copy.len() == g,
            forall|h: int| 0 <= h < g ==> #[trigger] same_face(faces@[h], copy@[h]),
        decreases faces@.len() - g,
    {
        let face = &faces[g];
        copy.push(Face { edges: copy_indices(&face.edges), order: face.order, normal: face.normal });
        g = g + 1;
    }
    copy
}

/// A copy of the edges.
fn copy_edges(edges: &[Edge]) -> (copy: Vec<Edge>)
    ensures
        copy@ == edges@,
{
    let mut copy: Vec<Edge> = Vec::new();
    let mut e: usize = 0;
    while e < edges.len()
        invariant
            e <= edges@.len(),
            copy@ == edges@.take(e as int),
        decreases edges@.len() - e,
    {
        copy.push(edges[e]);
        proof {
            assert(edges@.take(e + 1) == edges@.take(e as int).push(edges@[e as int]));
        }
        e = e + 1;
    }
    proof {
        assert(edges@.take(edges@.len() as int) == edges@);
    }
    copy
}

impl<P: Copy> Mesh<P> {
    /// The same mesh, held anew.
    pub fn duplicate(&self) -> (copy: Mesh<P>)
        ensures
            copy.spec_vertices().len() == self.spec_vertices().len(),
            forall|v: int| 0 <= v < self.spec_vertices().len() ==> #[trigger] same_vertex(self.spec_vertices()[v], copy.spec_vertices()[v]),
            copy.spec_edges() == self.spec_edges(),
            copy.spec_faces().len() == self.spec_faces().len(),
            forall|g: int| 0 <= g < self.spec_faces().len() ==> #[trigger] same_face(self.spec_faces()[g], copy.spec_faces()[g]),
            copy.spec_positions() == self.spec_positions(),
            copy.spec_triangles() == self.spec_triangles(),
    {
        proof {
            use_type_invariant(self);
        }
        let mut vertices: Vec<Vertex<P>> = Vec::new();
        let mut v: usize = 0;
        while v < self.vertices.len()
            invariant
                v <= self.vertices.len(),
                vertices.len() == v,
                forall|w: int| 0 <= w < v ==> #[trigger] same_vertex(self.vertices@[w], vertices@[w]),
            decreases self.vertices.len() - v,
        {
            let vertex = &self.vertices[v];
            vertices.push(Vertex { position: vertex.position, normal: vertex.normal, edges: copy_indices(&vertex.edges) });
            v = v + 1;
        }
        let edges = copy_edges(self.edges.as_slice());
        let faces = copy_faces(self.faces.as_slice());
        proof {
            assert forall|w: int| 0 <= w < vertices.len() implies (#[trigger] vertices@[w]).edges@ == incident_prefix(edges@, w as usize, edges@.len() as int) by {
                assert(same_vertex(self.vertices@[w], vertices@[w]));
            }
            assert forall|g: int| 0 <= g < faces.len() implies #[trigger] face_is_triangle(edges@, faces@[g], g, face_triangle_of(edges@, g)) by {
                assert(same_face(self.faces@[g], faces@[g]));
                assert(face_is_triangle(self.edges@, self.faces@[g], g, face_triangle_of(self.edges@, g)));
            }
        }
        let copy = Mesh { vertices, edges, faces };
        proof {
            assert(copy.spec_positions() =~= self.spec_positions()) by {
                assert forall|w: int| 0 <= w < vertices.len() implies #[trigger] copy.spec_positions()[w] == self.spec_positions()[w] by {
                    assert(same_vertex(self.vertices@[w], vertices@[w]));
                }
            }
        }
        copy
    }

    /// The same edges, faces and vertex normals, with vertex `i` moved to
    /// `positions[i]`.
    pub fn with_repositioned(&self, positions: Vec<P>) -> (mesh: Mesh<P>)
        requires
            positions.len() >= self.spec_vertices().len(),
        ensures
            mesh.spec_positions() == positions@.take(self.spec_vertices().len() as int),
            mesh.spec_vertices().len() == self.spec_vertices().len(),
            forall|v: int| 0 <= v < self.spec_vertices().len() ==> {
                &&& (#[trigger] mesh.spec_vertices()[v]).normal == self.spec_vertices()[v].normal
                &&& mesh.spec_vertices()[v].edges@ == self.spec_vertices()[v].edges@
            },
            mesh.spec_edges() == self.spec_edges(),
            mesh.spec_faces().len() == self.spec_faces().len(),
            forall|g: int| 0 <= g < self.spec_faces().len() ==> #[trigger] same_face(self.spec_faces()[g], mesh.spec_faces()[g]),
            mesh.spec_triangles() == self.spec_triangles(),
    {
        proof {
            use_type_invariant(self);
        }
        let mut vertices: Vec<Vertex<P>> = Vec::new();
        let mut v: usize = 0;
        while v < self.vertices.len()
            invariant
                v <= self.vertices.len(),
                positions.len() >= self.vertices.len(),
                vertices.len() == v,
                forall|w: int| 0 <= w < v ==> {
                    &&& (#[trigger] vertices@[w]).position == positions@[w]
                    &&& vertices@[w].normal == self.vertices@[w].normal
                    &&& vertices@[w].edges@ == self.vertices@[w].edges@
                },
            decreases self.vertices.len() - v,
        {
            let vertex = &self.vertices[v];
            vertices.push(Vertex { position: positions[v], normal: vertex.normal, edges: copy_indices(&vertex.edges) });
            v = v + 1;
        }
        let edges = copy_edges(self.edges.as_slice());
        let faces = copy_faces(self.faces.as_slice());
        proof {
            assert forall|g: int| 0 <= g < faces.len() implies #[trigger] face_is_triangle(edges@, faces@[g], g, face_triangle_of(edges@, g)) by {
                assert(same_face(self.faces@[g], faces@[g]));
                assert(face_is_triangle(self.edges@, self.faces@[g], g, face_triangle_of(self.edges@, g)));
            }
        }
        let mesh = Mesh { vertices, edges, faces };
        proof {
            assert(mesh.spec_positions() =~= positions@.take(self.vertices@.len() as int));
        }
        mesh
    }

    /// The same mesh with vertex `v` given normal `vertex_normals[v]` and face
    /// `g` given normal `face_normals[g]`.
    pub fn with_normals(&self, vertex_normals: Vec<P>, face_normals: Vec<P>) -> (mesh: Mesh<P>)
        requires
            vertex_normals.len() == self.spec_vertices().len(),
            face_normals.len() == self.spec_faces().len(),
        ensures
            mesh.spec_positions() == self.spec_positions(),
            mesh.spec_vertices().len() == self.spec_vertices().len(),
            forall|v: int| 0 <= v < self.spec_vertices().len() ==> {
                &&& (#[trigger] mesh.spec_vertices()[v]).normal == vertex_normals@[v]
                &&& mesh.spec_vertices()[v].edges@ == self.spec_vertices()[v].edges@
            },
            mesh.spec_edges() == self.spec_edges(),
            mesh.spec_faces().len() == self.spec_faces().len(),
            forall|g: int| 0 <= g < self.spec_faces().len() ==> {
                &&& (#[trigger] mesh.spec_faces()[g]).normal == face_normals@[g]
                &&& mesh.spec_faces()[g].edges@ == self.spec_faces()[g].edges@
                &&& mesh.spec_faces()[g].order == self.spec_faces()[g].order
            },
            mesh.spec_triangles() == self.spec_triangles(),
    {
        proof {
            use_type_invariant(self);
        }
        let mut vertices: Vec<Vertex<P>> = Vec::new();
        let mut v: usize = 0;
        while v < self.vertices.len()
            invariant
                v <= self.vertices.len(),
                vertex_normals.len() == self.vertices.len(),
                vertices.len() == v,
                forall|w: int| 0 <= w < v ==> {
                    &&& (#[trigger] vertices@[w]).position == self.vertices@[w].position
                    &&& vertices@[w].normal == vertex_normals@[w]
                    &&& vertices@[w].edges@ == self.vertices@[w].edges@
                },
            decreases self.vertices.len() - v,
        {
            let vertex = &self.vertices[v];
            vertices.push(Vertex { position: vertex.position, normal: vertex_normals[v], edges: copy_indices(&vertex.edges) });
            v = v + 1;
        }
        let mut faces: Vec<Face<P>> = Vec::new();
        let mut g: usize = 0;
        while g < self.faces.len()
            invariant
                g <= self.faces.len(),
                face_normals.len() == self.faces.len(),
                faces.len() == g,
                forall|h: int| 0 <= h < g ==> {
                    &&& (#[trigger] faces@[h]).normal == face_normals@[h]
                    &&& faces@[h].edges@ == self.faces@[h].edges@
                    &&& faces@[h].order == self.faces@[h].order
                },
            decreases self.faces.len() - g,
        {
            let face = &self.faces[g];
            faces.push(Face { edges: copy_indices(&face.edges), order: face.order, normal: face_normals[g] });
            g = g + 1;
        }
        let edges = copy_edges(self.edges.as_slice());
        proof {
            assert forall|h: int| 0 <= h < faces.len() implies #[trigger] face_is_triangle(edges@, faces@[h], h, face_triangle_of(edges@, h)) by {
                assert(face_is_triangle(self.edges@, self.faces@[h], h, face_triangle_of(self.edges@, h)));
            }
        }
        let mesh = Mesh { vertices, edges, faces };
        proof {
            assert(mesh.spec_positions() =~= self.spec_positions());
        }
        mesh
    }
}

impl<P: Copy + Default> Mesh<P> {
    /// The icosahedron with these twelve corners.
    pub fn icosahedron(corners: [P; 12]) -> (result: Result<Mesh<P>, MeshError>)
        ensures
            result is Ok,
            result matches Ok(mesh) ==> {
                &&& mesh.spec_positions() == corners@
                &&& mesh.spec_triangles() == icosahedron_spec()
            },
    {
        let mut positions: Vec<P> = Vec::new();
        let mut i: usize = 0;
        while i < 12
            invariant
                i <= 12,
                positions@ == corners@.take(i as int),
            decreases 12 - i,
        {
            positions.push(corners[i]);
            proof {
                assert(corners@.take(i + 1) == corners@.take(i as int).push(corners@[i as int]));
            }
            i = i + 1;
        }
        proof {
            assert(corners@.take(12) == corners@);
        }
        Mesh::new(positions, icosahedron_triangles())
    }
}


impl<P: Copy> Clone for Mesh<P> {
    /// The same mesh, held anew; see `duplicate`.
    fn clone(&self) -> (copy: Mesh<P>)
        ensures
            copy.spec_vertices().len() == self.spec_vertices().len(),
            forall|v: int| 0 <= v < self.spec_vertices().len() ==> #[trigger] same_vertex(self.spec_vertices()[v], copy.spec_vertices()[v]),
            copy.spec_faces().len() == self.spec_faces().len(),
            forall|g: int| 0 <= g < self.spec_faces().len() ==> #[trigger] same_face(self.spec_faces()[g], copy.spec_faces()[g]),
            copy.spec_edges() == self.spec_edges(),
            copy.spec_positions() == self.spec_positions(),
            copy.spec_triangles() == self.spec_triangles(),
    {
        self.duplicate()
    }
}

} // verus!
