use vstd::prelude::*;

verus! {

/// The triangle runs along the directed edge `e`: from its first corner to
/// its second, from its second to its third, or from its third to its first.
pub open spec fn runs_along(t: (usize, usize, usize), e: (usize, usize)) -> bool {
    e == (t.0, t.1) || e == (t.1, t.2) || e == (t.2, t.0)
}

/// Some triangle of `tris` runs along the directed edge `e`.
pub open spec fn some_runs_along(tris: Seq<(usize, usize, usize)>, e: (usize, usize)) -> bool {
    exists|i: int| 0 <= i < tris.len() && #[trigger] runs_along(tris[i], e)
}

/// One of the first four triangles of `tris` runs along `e`.
pub open spec fn one_of_four_runs_along(tris: Seq<(usize, usize, usize)>, e: (usize, usize)) -> bool {
    ||| (0 < tris.len() && runs_along(tris[0], e))
    ||| (1 < tris.len() && runs_along(tris[1], e))
    ||| (2 < tris.len() && runs_along(tris[2], e))
    ||| (3 < tris.len() && runs_along(tris[3], e))
}

pub proof fn lemma_one_of_four(tris: Seq<(usize, usize, usize)>, e: (usize, usize))
    requires
        one_of_four_runs_along(tris, e),
    ensures
        some_runs_along(tris, e),
{
    if 0 < tris.len() && runs_along(tris[0], e) {
    } else if 1 < tris.len() && runs_along(tris[1], e) {
    } else if 2 < tris.len() && runs_along(tris[2], e) {
    } else {
        assert(runs_along(tris[3], e));
    }
}

/// `e` is a piece of the side from `x` to `y` once the side is cut at `m`,
/// if it is: `x` to `m` or `m` to `y`; else the whole side.
pub open spec fn side_piece(x: usize, y: usize, m: Option<usize>, e: (usize, usize)) -> bool {
    match m {
        Some(m) => e == (x, m) || e == (m, y),
        None => e == (x, y),
    }
}

/// `e` is a piece of the boundary of the triangle a, b, c, run in the
/// triangle's direction, once its sides ab, bc and ca are cut at the
/// vertices given, where they are cut.
pub open spec fn boundary_piece(
    t: (usize, usize, usize),
    ab: Option<usize>,
    bc: Option<usize>,
    ca: Option<usize>,
    e: (usize, usize),
) -> bool {
    side_piece(t.0, t.1, ab, e) || side_piece(t.1, t.2, bc, e) || side_piece(t.2, t.0, ca, e)
}

/// A cut vertex is none of the triangle's corners.
pub open spec fn off_corners(m: Option<usize>, t: (usize, usize, usize)) -> bool {
    match m {
        Some(v) => v != t.0 && v != t.1 && v != t.2,
        None => true,
    }
}

/// Two cut vertices, where both sides are cut, are different.
pub open spec fn apart(m1: Option<usize>, m2: Option<usize>) -> bool {
    match (m1, m2) {
        (Some(x), Some(y)) => x != y,
        _ => true,
    }
}

/// The corners of the triangle are three different vertices, and each side
/// that is cut is cut at a vertex of its own, none of the corners.
pub open spec fn cuts_fresh(t: (usize, usize, usize), ab: Option<usize>, bc: Option<usize>, ca: Option<usize>) -> bool {
    &&& t.0 != t.1 && t.1 != t.2 && t.2 != t.0
    &&& off_corners(ab, t) && off_corners(bc, t) && off_corners(ca, t)
    &&& apart(ab, bc) && apart(bc, ca) && apart(ca, ab)
}

/// The pieces tile the triangle a, b, c with its orientation, once its sides
/// are cut where given: every piece of the boundary is run along, in the
/// triangle's direction, by some piece; every other directed edge of a piece
/// is run the other way by a piece too, so the pieces meet inside the
/// triangle edge to edge with opposite directions; and no directed edge is
/// run along by two pieces.
pub open spec fn tiles_oriented(
    t: (usize, usize, usize),
    ab: Option<usize>,
    bc: Option<usize>,
    ca: Option<usize>,
    pieces: Seq<(usize, usize, usize)>,
) -> bool {
    &&& forall|e: (usize, usize)| #[trigger] boundary_piece(t, ab, bc, ca, e) ==> some_runs_along(pieces, e)
    &&& forall|i: int, e: (usize, usize)|
        0 <= i < pieces.len() && #[trigger] runs_along(pieces[i], e) ==> boundary_piece(t, ab, bc, ca, e) || some_runs_along(pieces, (e.1, e.0))
    &&& forall|i: int, j: int, e: (usize, usize)|
        0 <= i < pieces.len() && 0 <= j < pieces.len() && i != j && #[trigger] runs_along(pieces[i], e) ==> !#[trigger] runs_along(pieces[j], e)
}

/// One if the triangle runs along the directed edge `e`, else zero.
pub open spec fn hits(t: (usize, usize, usize), e: (usize, usize)) -> nat {
    if runs_along(t, e) {
        1
    } else {
        0
    }
}

/// How many of the first `k` triangles run along the directed edge `e`.
pub open spec fn count_upto(tris: Seq<(usize, usize, usize)>, e: (usize, usize), k: nat) -> nat
    decreases k,
{
    if k == 0 {
        0
    } else {
        count_upto(tris, e, (k - 1) as nat) + hits(tris[k - 1], e)
    }
}

/// How many of the triangles run along the directed edge `e`.
pub open spec fn edge_count(tris: Seq<(usize, usize, usize)>, e: (usize, usize)) -> nat {
    count_upto(tris, e, tris.len())
}

/// The triangles form a closed surface with one orientation: every directed
/// edge of a triangle is run along by that triangle alone, and its reverse
/// by exactly one triangle.
pub open spec fn closed_oriented(tris: Seq<(usize, usize, usize)>) -> bool {
    forall|i: int, e: (usize, usize)|
        0 <= i < tris.len() && #[trigger] runs_along(tris[i], e) ==> edge_count(tris, e) == 1 && edge_count(tris, (e.1, e.0)) == 1
}

} // verus!
