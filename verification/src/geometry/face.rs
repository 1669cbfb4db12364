use vstd::prelude::*;

verus! {

/// A face of the mesh: the indices of its edges, how many there are, and its
/// flat normal.
#[derive(Debug, Clone, PartialEq)]
pub struct Face<P> {
    pub edges: Vec<usize>,
    pub order: usize,
    pub normal: P,
}

} // verus!
