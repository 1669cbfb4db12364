use vstd::prelude::*;

verus! {

/// A directed half-edge of a face: from vertex `start` to vertex `end`,
/// belonging to face `face`.
#[derive(Debug, Clone, Copy, PartialEq, Eq, Structural)]
pub struct Edge {
    pub start: usize,
    pub end: usize,
    pub face: usize,
}

} // verus!
