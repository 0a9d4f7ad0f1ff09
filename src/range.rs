//! The cells within a bounded hex distance of a center.
use vstd::prelude::*;
use crate::cube::{CubeCoordinate, HexError, MAX_RING};
use crate::spiral::{
    cell_of_index, index_of, lemma_index_in_ring, lemma_index_injective,
    lemma_ring_start_monotone, lemma_tile_limit, ring_start, ring_start_exec, TILE_LIMIT,
};

verus! {

/// Every cell within `max_distance` of `center`.
#[derive(Clone, Copy, Debug, PartialEq, Eq, Structural)]
pub struct MovementRange {
    pub center: CubeCoordinate,
    pub max_distance: i64,
}

impl MovementRange {
    /// The center is a valid cell and every cell of the range stays within `MAX_RING`.
    pub open spec fn wf(self) -> bool {
        &&& self.center.wf()
        &&& 0 <= self.max_distance
        &&& self.center.ring() + self.max_distance <= MAX_RING
    }

    /// Membership: `c` lies within `max_distance` of the center.
    pub open spec fn holds(self, c: CubeCoordinate) -> bool {
        self.center.dist(c) <= self.max_distance
    }

    /// Whether `c` is in the range: a distance test against the center.
    pub fn contains(&self, c: &CubeCoordinate) -> (b: bool)
        requires
            self.wf(),
            c.wf(),
        ensures
            b == self.holds(*c),
    {
        self.center.distance(c) <= self.max_distance
    }

    /// The number of cells in the range, `1 + 3 * k * (k + 1)` for `k = max_distance`.
    pub fn len(&self) -> (n: u64)
        requires
            self.wf(),
        ensures
            n == 1 + 3 * self.max_distance * (self.max_distance + 1),
            n == ring_start(self.max_distance + 1),
    {
        let k = self.max_distance;
        assert(3 * (k + 1) * k == 3 * k * (k + 1)) by (nonlinear_arith);
        ring_start_exec((k + 1) as u64)
    }

    /// The cells of the range, ring by ring outward from the center: the cell at
    /// position `m` is the center moved by the cell with spiral index `m`.
    pub fn tiles(&self) -> (v: Vec<CubeCoordinate>)
        requires
            self.wf(),
        ensures
            v@.len() == 1 + 3 * self.max_distance * (self.max_distance + 1),
            forall|m: int|
                0 <= m < v@.len() ==> {
                    &&& (#[trigger] v@[m]).wf()
                    &&& self.holds(v@[m])
                    &&& index_of(v@[m].relative_to(self.center)) == m
                },
            forall|a: int, b: int| 0 <= a < b < v@.len() ==> v@[a] != v@[b],
            forall|c: CubeCoordinate| c.wf() && self.holds(c) ==> v@.contains(c),
    {
        let count = self.len();
        let k = self.max_distance;
        let center = self.center;
        proof {
            lemma_tile_limit();
            lemma_ring_start_monotone(k as int, MAX_RING as int + 1);
        }
        let mut v: Vec<CubeCoordinate> = Vec::new();
        let mut j: u64 = 0;
        while j < count
            invariant
                self.wf(),
                center == self.center,
                k == self.max_distance,
                count == ring_start(k + 1),
                count <= TILE_LIMIT,
                j <= count,
                v@.len() == j,
                forall|m: int|
                    0 <= m < j ==> {
                        &&& (#[trigger] v@[m]).wf()
                        &&& v@[m].relative_to(center).wf()
                        &&& index_of(v@[m].relative_to(center)) == m
                    },
            decreases count - j,
        {
            let d = cell_of_index(j);
            proof {
                lemma_index_in_ring(d);
                if d.ring() > k {
                    lemma_ring_start_monotone(k as int, d.ring());
                }
            }
            let c = CubeCoordinate { q: center.q + d.q, r: center.r + d.r, s: center.s + d.s };
            assert(c.relative_to(center) == d);
            v.push(c);
            j = j + 1;
        }
        assert forall|m: int| 0 <= m < v@.len() implies self.holds(#[trigger] v@[m]) by {
            let d = v@[m].relative_to(center);
            lemma_index_in_ring(d);
            if d.ring() > k {
                lemma_ring_start_monotone(k as int, d.ring());
            }
        }
        assert forall|c: CubeCoordinate| c.wf() && self.holds(c) implies v@.contains(c) by {
            let d = c.relative_to(center);
            lemma_index_in_ring(d);
            if d.ring() < k {
                lemma_ring_start_monotone(d.ring(), k as int + 1);
            }
            let m = index_of(d);
            lemma_index_injective(v@[m].relative_to(center), d);
            assert(v@[m] == c);
        }
        assert(3 * (k + 1) * k == 3 * k * (k + 1)) by (nonlinear_arith);
        v
    }
}

/// The range of cells within `max_distance` of `center`.
/// A negative distance is refused, and so is a range that would reach past `MAX_RING`.
pub fn movement_range(center: &CubeCoordinate, max_distance: i64) -> (res: Result<
    MovementRange,
    HexError,
>)
    requires
        center.wf(),
    ensures
        res is Ok <==> 0 <= max_distance && center.ring() + max_distance <= MAX_RING,
        res matches Ok(m) ==> m.center == *center && m.max_distance == max_distance && m.wf(),
        max_distance < 0 ==> res == Err::<MovementRange, HexError>(HexError::DegenerateQuery),
        0 <= max_distance && center.ring() + max_distance > MAX_RING ==> res == Err::<
            MovementRange,
            HexError,
        >(HexError::OutOfBounds),
{
    if max_distance < 0 {
        return Err(HexError::DegenerateQuery);
    }
    let ring = center.distance(&CubeCoordinate::origin());
    if max_distance > MAX_RING - ring {
        return Err(HexError::OutOfBounds);
    }
    Ok(MovementRange { center: *center, max_distance })
}

} // verus!
