use vstd::prelude::*;

verus! {

/// A mesh vertex: where it is, its (area-weighted) normal, and the indices of
/// the mesh edges that start at it, in ascending order.
#[derive(Debug, Clone, PartialEq)]
pub struct Vertex<P> {
    pub position: P,
    pub normal: P,
    pub edges: Vec<usize>,
}

/// `p` is a value that `P::default()` returns: for the vector types of
/// the geometry, the zero vector.
pub open spec fn is_default<P: Default>(p: P) -> bool {
    call_ensures(P::default, (), p)
}

impl<P: Default> Vertex<P> {
    /// A vertex at `position` with the default (zero) normal and no edges.
    pub fn at(position: P) -> (vertex: Vertex<P>)
        ensures
            vertex.position == position,
            is_default(vertex.normal),
            vertex.edges@ == Seq::<usize>::empty(),
    {
        Vertex { position, normal: P::default(), edges: Vec::new() }
    }
}

} // verus!
