use vstd::prelude::*;

use crate::geometry::mesh::{all_in_bounds, corner_in_bounds, first_out_of_bounds, lemma_first_out_of_bounds};

verus! {

/// A vertex: where it is.
#[derive(Debug, Clone, Copy, PartialEq)]
pub struct Vertex<P> {
    pub position: P,
}

/// A triangle, by the indices of its three corners.
#[derive(Debug, Clone, Copy, PartialEq, Eq, Structural)]
pub struct Triangle {
    pub a: usize,
    pub b: usize,
    pub c: usize,
}

impl Triangle {
    /// The triangle with corners `a`, `b`, `c`.
    pub fn new(a: usize, b: usize, c: usize) -> (triangle: Triangle)
        ensures
            triangle.a == a,
            triangle.b == b,
            triangle.c == c,
    {
        Triangle { a, b, c }
    }
}

/// The corners of a triangle as a triple.
pub open spec fn triangle_tuple(t: Triangle) -> (usize, usize, usize) {
    (t.a, t.b, t.c)
}

/// The corners of each triangle as triples.
pub open spec fn triangle_tuples(ts: Seq<Triangle>) -> Seq<(usize, usize, usize)> {
    ts.map_values(|t: Triangle| triangle_tuple(t))
}

/// Why a mesh could not be built.
#[derive(Debug, Clone, PartialEq, Eq, Structural)]
pub enum MeshError {
    VertexIndexOutOfBounds { index: usize, vertex_count: usize },
}

/// A list of vertices and the triangles over them, every corner naming one
/// of the vertices.
#[derive(Debug, PartialEq)]
pub struct Mesh<P> {
    vertices: Vec<Vertex<P>>,
    triangles: Vec<Triangle>,
}

impl<P> Mesh<P> {
    pub closed spec fn spec_vertices(self) -> Seq<Vertex<P>> {
        self.vertices@
    }

    pub closed spec fn spec_triangles(self) -> Seq<Triangle> {
        self.triangles@
    }

    /// Every corner names a vertex.
    #[verifier::type_invariant]
    pub open spec fn inv(self) -> bool {
        all_in_bounds(triangle_tuples(self.spec_triangles()), self.spec_vertices().len() as int)
    }

    /// The vertices, in order.
    pub fn vertices(&self) -> (vertices: &[Vertex<P>])
        ensures
            vertices@ == self.spec_vertices(),
            all_in_bounds(triangle_tuples(self.spec_triangles()), self.spec_vertices().len() as int),
    {
        proof {
            use_type_invariant(self);
        }
        self.vertices.as_slice()
    }

    /// The triangles, in order.
    pub fn triangles(&self) -> (triangles: &[Triangle])
        ensures
            triangles@ == self.spec_triangles(),
            all_in_bounds(triangle_tuples(self.spec_triangles()), self.spec_vertices().len() as int),
    {
        proof {
            use_type_invariant(self);
        }
        self.triangles.as_slice()
    }

    /// The mesh with these vertices and triangles. Fails with the first
    /// corner (triangle by triangle, a then b then c) that names no vertex.
    pub fn new(vertices: Vec<Vertex<P>>, triangles: Vec<Triangle>) -> (result: Result<Mesh<P>, MeshError>)
        ensures
            result is Ok <==> all_in_bounds(triangle_tuples(triangles@), vertices.len() as int),
            match result {
                Ok(mesh) => mesh.spec_vertices() == vertices@ && mesh.spec_triangles() == triangles@,
                Err(MeshError::VertexIndexOutOfBounds { index, vertex_count }) => {
                    &&& vertex_count == vertices.len()
                    &&& first_out_of_bounds(triangle_tuples(triangles@), vertices.len() as int) == Some(index)
                },
            },
    {
        let vertex_count = vertices.len();
        let ghost tris = triangle_tuples(triangles@);
        let mut t: usize = 0;
        while t < triangles.len()
            invariant
                t <= triangles.len(),
                vertex_count == vertices.len(),
                tris == triangle_tuples(triangles@),
                all_in_bounds(tris.take(t as int), vertex_count as int),
            decreases triangles.len() - t,
        {
            let triangle = triangles[t];
            proof {
                assert(tris[t as int] == triangle_tuple(triangle));
            }
            if triangle.a >= vertex_count {
                proof {
                    assert(!corner_in_bounds(tris[t as int], vertex_count as int));
                    lemma_first_out_of_bounds(tris, vertex_count as int, t as int);
                    assert(tris.skip(t as int)[0] == tris[t as int]);
                }
                return Err(MeshError::VertexIndexOutOfBounds { index: triangle.a, vertex_count });
            }
            if triangle.b >= vertex_count {
                proof {
                    assert(!corner_in_bounds(tris[t as int], vertex_count as int));
                    lemma_first_out_of_bounds(tris, vertex_count as int, t as int);
                    assert(tris.skip(t as int)[0] == tris[t as int]);
                }
                return Err(MeshError::VertexIndexOutOfBounds { index: triangle.b, vertex_count });
            }
            if triangle.c >= vertex_count {
                proof {
                    assert(!corner_in_bounds(tris[t as int], vertex_count as int));
                    lemma_first_out_of_bounds(tris, vertex_count as int, t as int);
                    assert(tris.skip(t as int)[0] == tris[t as int]);
                }
                return Err(MeshError::VertexIndexOutOfBounds { index: triangle.c, vertex_count });
            }
            proof {
                assert(tris.take(t + 1) == tris.take(t as int).push(tris[t as int]));
                assert(corner_in_bounds(tris[t as int], vertex_count as int));
            }
            t = t + 1;
        }
        proof {
            assert(tris.take(triangles.len() as int) == tris);
        }
        Ok(Mesh { vertices, triangles })
    }
}

impl<P: Copy> Mesh<P> {
    /// The same mesh, held anew.
    pub fn duplicate(&self) -> (copy: Mesh<P>)
        ensures
            copy.spec_vertices() == self.spec_vertices(),
            copy.spec_triangles() == self.spec_triangles(),
    {
        proof {
            use_type_invariant(self);
        }
        let mut vertices: Vec<Vertex<P>> = Vec::new();
        let mut v: usize = 0;
        while v < self.vertices.len()
            invariant
                v <= self.vertices.len(),
                vertices@ == self.vertices@.take(v as int),
            decreases self.vertices.len() - v,
        {
            vertices.push(self.vertices[v]);
            proof {
                assert(self.vertices@.take(v + 1) == self.vertices@.take(v as int).push(self.vertices@[v as int]));
            }
            v = v + 1;
        }
        let mut triangles: Vec<Triangle> = Vec::new();
        let mut t: usize = 0;
        while t < self.triangles.len()
            invariant
                t <= self.triangles.len(),
                triangles@ == self.triangles@.take(t as int),
            decreases self.triangles.len() - t,
        {
            triangles.push(self.triangles[t]);
            proof {
                assert(self.triangles@.take(t + 1) == self.triangles@.take(t as int).push(self.triangles@[t as int]));
            }
            t = t + 1;
        }
        proof {
            assert(self.vertices@.take(self.vertices@.len() as int) == self.vertices@);
            assert(self.triangles@.take(self.triangles@.len() as int) == self.triangles@);
        }
        Mesh { vertices, triangles }
    }
}


impl<P: Copy> Clone for Mesh<P> {
    /// The same mesh, held anew; see `duplicate`.
    fn clone(&self) -> (copy: Mesh<P>)
        ensures
            copy.spec_vertices() == self.spec_vertices(),
            copy.spec_triangles() == self.spec_triangles(),
    {
        self.duplicate()
    }
}

} // verus!
