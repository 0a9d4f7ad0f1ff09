//! Straight-line alignment along the three hex axes.
use vstd::prelude::*;
use crate::cube::CubeCoordinate;

verus! {

/// `a` and `b` lie on one of the three straight lines through `a`.
pub open spec fn aligned(a: CubeCoordinate, b: CubeCoordinate) -> bool {
    a.q == b.q || a.r == b.r || a.s == b.s
}

/// Whether `a` and `b` share their `q`, `r` or `s` component.
pub fn shares_axis(a: &CubeCoordinate, b: &CubeCoordinate) -> (res: bool)
    ensures
        res == aligned(*a, *b),
{
    a.q == b.q || a.r == b.r || a.s == b.s
}

/// Alignment does not depend on which cell is taken as the center.
pub proof fn lemma_shares_axis_symmetric(a: CubeCoordinate, b: CubeCoordinate)
    ensures
        aligned(a, b) == aligned(b, a),
{
}

} // verus!
