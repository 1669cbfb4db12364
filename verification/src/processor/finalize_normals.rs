use vstd::prelude::*;

use crate::geometry::face::Face;
use crate::geometry::mesh::Mesh;

verus! {

/// The start vertices of the face's first three edges, in order; a corner
/// for which the face has no edge stays 0.
pub fn face_corners<P>(mesh: &Mesh<P>, face: &Face<P>) -> (corners: [usize; 3])
    requires
        forall|k: int| 0 <= k < 3 && k < face.edges@.len() ==> #[trigger] face.edges@[k] < mesh.spec_edges().len(),
    ensures
        forall|k: int| 0 <= k < 3 ==> #[trigger] corners@[k] == if k < face.edges@.len() {
            mesh.spec_edges()[face.edges@[k] as int].start
        } else {
            0
        },
{
    let edges = mesh.edges();
    let count = face.edges.len();
    let c0 = if count > 0 { edges[face.edges[0]].start } else { 0 };
    let c1 = if count > 1 { edges[face.edges[1]].start } else { 0 };
    let c2 = if count > 2 { edges[face.edges[2]].start } else { 0 };
    let corners = [c0, c1, c2];
    assert(corners@[0] == c0 && corners@[1] == c1 && corners@[2] == c2);
    corners
}

} // verus!
