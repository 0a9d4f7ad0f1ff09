//! Cube coordinates `(q, r, s)` with `q + r + s == 0`.
use vstd::prelude::*;

verus! {

/// Largest distance from the origin that a coordinate of this library may have.
/// It keeps every tile index below `u64::MAX`.
pub const MAX_RING: i64 = 1_000_000_000;

/// Errors of the coordinate and indexing operations.
#[derive(Clone, Copy, Debug, PartialEq, Eq, Structural)]
pub enum HexError {
    /// A tile index outside the indexed part of the grid.
    InvalidIndex,
    /// Components whose sum is not zero.
    InvariantViolation,
    /// A negative movement distance.
    DegenerateQuery,
    /// A coordinate, or a range, that reaches past `MAX_RING`.
    OutOfBounds,
}

/// One hexagonal cell. Every value made by this library satisfies `wf`.
#[derive(Clone, Copy, Debug, PartialEq, Eq, Hash, Structural)]
pub struct CubeCoordinate {
    pub q: i64,
    pub r: i64,
    pub s: i64,
}

pub open spec fn abs(x: int) -> int {
    if x < 0 {
        -x
    } else {
        x
    }
}

/// Hex distance between two cells given as integer triples.
pub open spec fn hex_distance(aq: int, ar: int, as_: int, bq: int, br: int, bs: int) -> int {
    (abs(aq - bq) + abs(ar - br) + abs(as_ - bs)) / 2
}

/// The six unit steps, counter-clockwise from `+q`.
pub open spec fn direction(k: int) -> (int, int, int) {
    if k == 0 {
        (1, 0, -1)
    } else if k == 1 {
        (1, -1, 0)
    } else if k == 2 {
        (0, -1, 1)
    } else if k == 3 {
        (-1, 0, 1)
    } else if k == 4 {
        (-1, 1, 0)
    } else {
        (0, 1, -1)
    }
}

impl CubeCoordinate {
    /// The components sum to zero and the cell lies within `MAX_RING` of the origin.
    pub open spec fn wf(self) -> bool {
        &&& self.q + self.r + self.s == 0
        &&& -MAX_RING <= self.q <= MAX_RING
        &&& -MAX_RING <= self.r <= MAX_RING
        &&& -MAX_RING <= self.s <= MAX_RING
    }

    pub open spec fn dist(self, other: CubeCoordinate) -> int {
        hex_distance(self.q as int, self.r as int, self.s as int, other.q as int, other.r as int, other.s as int)
    }

    /// Distance from the origin: the ring the cell lies on.
    pub open spec fn ring(self) -> int {
        (abs(self.q as int) + abs(self.r as int) + abs(self.s as int)) / 2
    }

    /// The step from `from` to this cell, as a cell relative to the origin.
    pub open spec fn relative_to(self, from: CubeCoordinate) -> CubeCoordinate {
        CubeCoordinate {
            q: (self.q - from.q) as i64,
            r: (self.r - from.r) as i64,
            s: (self.s - from.s) as i64,
        }
    }

    pub open spec fn same_cell(self, t: (int, int, int)) -> bool {
        self.q == t.0 && self.r == t.1 && self.s == t.2
    }

    /// Builds a cell; the components must sum to zero and stay within `MAX_RING`.
    pub fn new(q: i64, r: i64, s: i64) -> (res: Result<CubeCoordinate, HexError>)
        ensures
            res matches Ok(c) ==> c.q == q && c.r == r && c.s == s && c.wf(),
            res is Err ==> res == Err::<CubeCoordinate, HexError>(
                if -MAX_RING <= q <= MAX_RING && -MAX_RING <= r <= MAX_RING
                    && -MAX_RING <= s <= MAX_RING {
                    HexError::InvariantViolation
                } else {
                    HexError::OutOfBounds
                },
            ),
            res is Ok <==> (CubeCoordinate { q, r, s }).wf(),
    {
        if q < -MAX_RING || q > MAX_RING || r < -MAX_RING || r > MAX_RING || s < -MAX_RING || s
            > MAX_RING {
            return Err(HexError::OutOfBounds);
        }
        if q + r + s != 0 {
            return Err(HexError::InvariantViolation);
        }
        Ok(CubeCoordinate { q, r, s })
    }

    /// Builds a cell from `q` and `r`, deriving `s = -q - r`.
    pub fn from_axial(q: i64, r: i64) -> (res: Result<CubeCoordinate, HexError>)
        ensures
            res matches Ok(c) ==> c.q == q && c.r == r && c.s == -q - r && c.wf(),
            res is Err ==> res == Err::<CubeCoordinate, HexError>(HexError::OutOfBounds),
            res is Ok <==> (-MAX_RING <= q <= MAX_RING && -MAX_RING <= r <= MAX_RING
                && -MAX_RING <= -q - r <= MAX_RING),
    {
        if q < -MAX_RING || q > MAX_RING || r < -MAX_RING || r > MAX_RING {
            return Err(HexError::OutOfBounds);
        }
        let s = -q - r;
        if s < -MAX_RING || s > MAX_RING {
            return Err(HexError::OutOfBounds);
        }
        Ok(CubeCoordinate { q, r, s })
    }

    /// The center cell `(0, 0, 0)`.
    pub fn origin() -> (c: CubeCoordinate)
        ensures
            c.q == 0 && c.r == 0 && c.s == 0,
            c.wf(),
    {
        CubeCoordinate { q: 0, r: 0, s: 0 }
    }

    /// The components as a tuple `(q, r, s)`.
    pub fn into_qrs_tuple(&self) -> (t: (i64, i64, i64))
        ensures
            t == (self.q, self.r, self.s),
    {
        (self.q, self.r, self.s)
    }

    /// Hex distance `(|dq| + |dr| + |ds|) / 2`.
    pub fn distance(&self, other: &CubeCoordinate) -> (d: i64)
        requires
            self.wf(),
            other.wf(),
        ensures
            d == self.dist(*other),
            (abs(self.q - other.q) + abs(self.r - other.r) + abs(self.s - other.s)) % 2 == 0,
            0 <= d <= 2 * MAX_RING,
    {
        let dq = if self.q >= other.q { self.q - other.q } else { other.q - self.q };
        let dr = if self.r >= other.r { self.r - other.r } else { other.r - self.r };
        let ds = if self.s >= other.s { self.s - other.s } else { other.s - self.s };
        (dq + dr + ds) / 2
    }

    /// The cell one step away in direction `k` (see `direction`).
    pub fn neighbor(&self, k: usize) -> (c: CubeCoordinate)
        requires
            self.wf(),
            self.ring() < MAX_RING,
            k < 6,
        ensures
            c.wf(),
            c.q == self.q + direction(k as int).0,
            c.r == self.r + direction(k as int).1,
            c.s == self.s + direction(k as int).2,
            self.dist(c) == 1,
    {
        let (dq, dr, ds): (i64, i64, i64) = if k == 0 {
            (1, 0, -1)
        } else if k == 1 {
            (1, -1, 0)
        } else if k == 2 {
            (0, -1, 1)
        } else if k == 3 {
            (-1, 0, 1)
        } else if k == 4 {
            (-1, 1, 0)
        } else {
            (0, 1, -1)
        };
        CubeCoordinate { q: self.q + dq, r: self.r + dr, s: self.s + ds }
    }

    /// The six adjacent cells, in the order of `direction`.
    pub fn neighbors(&self) -> (v: Vec<CubeCoordinate>)
        requires
            self.wf(),
            self.ring() < MAX_RING,
        ensures
            v@.len() == 6,
            forall|k: int|
                0 <= k < 6 ==> {
                    let c = #[trigger] v@[k];
                    &&& c.wf()
                    &&& c.q == self.q + direction(k).0
                    &&& c.r == self.r + direction(k).1
                    &&& c.s == self.s + direction(k).2
                    &&& self.dist(c) == 1
                },
    {
        let mut v: Vec<CubeCoordinate> = Vec::new();
        let mut k: usize = 0;
        while k < 6
            invariant
                k <= 6,
                v@.len() == k,
                self.wf(),
                self.ring() < MAX_RING,
                forall|j: int|
                    0 <= j < k ==> {
                        let c = #[trigger] v@[j];
                        &&& c.wf()
                        &&& c.q == self.q + direction(j).0
                        &&& c.r == self.r + direction(j).1
                        &&& c.s == self.s + direction(j).2
                        &&& self.dist(c) == 1
                    },
            decreases 6 - k,
        {
            let c = self.neighbor(k);
            v.push(c);
            k = k + 1;
        }
        v
    }
}

} // verus!
