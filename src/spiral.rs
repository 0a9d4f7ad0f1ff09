//! The spiral numbering: index 0 is the origin, ring `n >= 1` holds the
//! `6 * n` indices from `ring_start(n)` on. Ring `n` is walked in six sides of
//! `n` cells; side `k` starts at the corner `n * direction(k)` and steps along
//! `direction((k + 2) % 6)`.
use vstd::prelude::*;
use crate::cube::{abs, direction, CubeCoordinate, HexError, MAX_RING};

verus! {

/// Number of indexed cells: every cell within `MAX_RING` of the origin.
pub const TILE_LIMIT: u64 = 3_000_000_003_000_000_001;

/// The first index of ring `n`: the number of cells on the rings before it.
pub open spec fn ring_start(n: int) -> int {
    if n <= 0 {
        0
    } else {
        3 * n * (n - 1) + 1
    }
}

/// Number of cells on ring `n`.
pub open spec fn ring_size(n: int) -> int {
    if n == 0 {
        1
    } else {
        6 * n
    }
}

/// The cell at position `p` of side `k` on ring `n`: the corner
/// `n * direction(k)` plus `p * direction((k + 2) % 6)`.
pub open spec fn ring_cell(n: int, k: int, p: int) -> (int, int, int) {
    if k == 0 {
        (n, -p, p - n)
    } else if k == 1 {
        (n - p, -n, p)
    } else if k == 2 {
        (-p, p - n, n)
    } else if k == 3 {
        (-n, p, n - p)
    } else if k == 4 {
        (p - n, n, -p)
    } else {
        (p, n - p, -n)
    }
}

/// The side of its ring that a cell lies on.
pub open spec fn side_of(c: CubeCoordinate) -> int {
    let n = c.ring();
    if c.q == n && c.r > -n {
        0
    } else if c.r == -n && c.q > 0 {
        1
    } else if c.s == n && c.q > -n {
        2
    } else if c.q == -n && c.s > 0 {
        3
    } else if c.r == n && c.q < 0 {
        4
    } else {
        5
    }
}

/// How many steps from the corner of its side a cell lies.
pub open spec fn position_of(c: CubeCoordinate) -> int {
    let k = side_of(c);
    if k == 0 {
        -c.r
    } else if k == 1 {
        c.s as int
    } else if k == 2 {
        -c.q
    } else if k == 3 {
        c.r as int
    } else if k == 4 {
        -c.s
    } else {
        c.q as int
    }
}

/// The spiral index of a cell.
pub open spec fn index_of(c: CubeCoordinate) -> int {
    let n = c.ring();
    if n == 0 {
        0
    } else {
        ring_start(n) + side_of(c) * n + position_of(c)
    }
}

/// On a well-formed cell the ring is the largest absolute component.
pub proof fn lemma_ring_bounds(c: CubeCoordinate)
    requires
        c.wf(),
    ensures
        abs(c.q as int) <= c.ring(),
        abs(c.r as int) <= c.ring(),
        abs(c.s as int) <= c.ring(),
        abs(c.q as int) == c.ring() || abs(c.r as int) == c.ring() || abs(c.s as int) == c.ring(),
        0 <= c.ring() <= MAX_RING,
        c.ring() == 0 <==> (c.q == 0 && c.r == 0 && c.s == 0),
{
}

/// A cell of ring `n >= 1` is the cell that its side and position name.
pub proof fn lemma_decompose(c: CubeCoordinate)
    requires
        c.wf(),
        c.ring() >= 1,
    ensures
        0 <= side_of(c) < 6,
        0 <= position_of(c) < c.ring(),
        c.same_cell(ring_cell(c.ring(), side_of(c), position_of(c))),
{
    lemma_ring_bounds(c);
}

/// Side `k`, position `p` of ring `n` names a cell of ring `n` with that side and position.
pub proof fn lemma_compose(n: int, k: int, p: int)
    requires
        1 <= n <= MAX_RING,
        0 <= k < 6,
        0 <= p < n,
    ensures
        ({
            let t = ring_cell(n, k, p);
            let c = CubeCoordinate { q: t.0 as i64, r: t.1 as i64, s: t.2 as i64 };
            &&& c.same_cell(t)
            &&& c.wf()
            &&& c.ring() == n
            &&& side_of(c) == k
            &&& position_of(c) == p
        }),
{
}

/// Ring `n` ends where ring `n + 1` starts.
pub proof fn lemma_ring_start_step(n: int)
    requires
        n >= 0,
    ensures
        ring_start(n + 1) == ring_start(n) + ring_size(n),
{
    if n >= 1 {
        assert(3 * (n + 1) * n + 1 == 3 * n * (n - 1) + 1 + 6 * n) by (nonlinear_arith);
    }
}

/// Rings start in increasing order.
pub proof fn lemma_ring_start_monotone(a: int, b: int)
    requires
        0 <= a < b,
    ensures
        ring_start(a + 1) <= ring_start(b),
    decreases b - a,
{
    if a + 1 < b {
        lemma_ring_start_monotone(a, b - 1);
        lemma_ring_start_step(b - 1);
    }
}

/// The index of a cell of ring `n` lies in `[ring_start(n), ring_start(n + 1))`.
pub proof fn lemma_index_in_ring(c: CubeCoordinate)
    requires
        c.wf(),
    ensures
        ring_start(c.ring()) <= index_of(c) < ring_start(c.ring() + 1),
        index_of(c) < TILE_LIMIT,
{
    let n = c.ring();
    lemma_ring_bounds(c);
    lemma_ring_start_step(n);
    if n >= 1 {
        lemma_decompose(c);
        let k = side_of(c);
        let p = position_of(c);
        assert(0 <= k * n + p < 6 * n) by (nonlinear_arith)
            requires
                0 <= k < 6,
                0 <= p < n,
        ;
    }
    lemma_tile_limit();
    if n < MAX_RING {
        lemma_ring_start_monotone(n, MAX_RING as int);
        lemma_ring_start_step(MAX_RING as int);
    }
}

/// `TILE_LIMIT` counts the cells of rings `0..=MAX_RING`.
pub proof fn lemma_tile_limit()
    ensures
        TILE_LIMIT == ring_start(MAX_RING + 1),
{
    assert(3 * (MAX_RING + 1) * MAX_RING + 1 == 3_000_000_003_000_000_001) by (nonlinear_arith);
}

/// The index of the cell at side `k`, position `p` of ring `n`.
pub proof fn lemma_index_of_ring_cell(n: int, k: int, p: int)
    requires
        1 <= n <= MAX_RING,
        0 <= k < 6,
        0 <= p < n,
    ensures
        ({
            let t = ring_cell(n, k, p);
            index_of(CubeCoordinate { q: t.0 as i64, r: t.1 as i64, s: t.2 as i64 })
                == ring_start(n) + k * n + p
        }),
{
    lemma_compose(n, k, p);
}

/// Two cells with the same index are the same cell.
pub proof fn lemma_index_injective(a: CubeCoordinate, b: CubeCoordinate)
    requires
        a.wf(),
        b.wf(),
        index_of(a) == index_of(b),
    ensures
        a == b,
{
    lemma_index_in_ring(a);
    lemma_index_in_ring(b);
    let n = a.ring();
    if n < b.ring() {
        lemma_ring_start_monotone(n, b.ring());
    } else if b.ring() < n {
        lemma_ring_start_monotone(b.ring(), n);
    }
    assert(n == b.ring());
    lemma_ring_bounds(a);
    lemma_ring_bounds(b);
    if n >= 1 {
        lemma_decompose(a);
        lemma_decompose(b);
        let ka = side_of(a);
        let kb = side_of(b);
        let pa = position_of(a);
        let pb = position_of(b);
        assert(ka == kb && pa == pb) by (nonlinear_arith)
            requires
                ka * n + pa == kb * n + pb,
                0 <= ka < 6,
                0 <= kb < 6,
                0 <= pa < n,
                0 <= pb < n,
        {
            if ka < kb {
                assert(ka * n + n <= kb * n);
            } else if kb < ka {
                assert(kb * n + n <= ka * n);
            }
        }
    }
}

/// Largest `r` with `r * r <= x`, by bisection.
pub fn floor_sqrt(x: u128) -> (r: u128)
    requires
        x < 0x4_0000_0000_0000_0000,
    ensures
        r * r <= x < (r + 1) * (r + 1),
        r < 0x2_0000_0000,
{
    let mut lo: u128 = 0;
    let mut hi: u128 = 0x2_0000_0000;
    assert(hi * hi == 0x4_0000_0000_0000_0000) by (nonlinear_arith)
        requires
            hi == 0x2_0000_0000,
    ;
    while hi - lo > 1
        invariant
            lo < hi <= 0x2_0000_0000,
            lo * lo <= x < hi * hi,
        decreases hi - lo,
    {
        let mid = lo + (hi - lo) / 2;
        assert(mid * mid <= 0x4_0000_0000_0000_0000) by (nonlinear_arith)
            requires
                mid <= 0x2_0000_0000,
        ;
        if mid * mid <= x {
            lo = mid;
        } else {
            hi = mid;
        }
    }
    lo
}

/// Executable `ring_start` for the rings in range.
pub(crate) fn ring_start_exec(n: u64) -> (r: u64)
    requires
        n <= MAX_RING + 1,
    ensures
        r == ring_start(n as int),
{
    if n == 0 {
        0
    } else {
        assert(0 <= 3 * n * (n - 1) + 1 <= 3_000_000_003_000_000_001) by (nonlinear_arith)
            requires
                1 <= n <= MAX_RING + 1,
        ;
        3 * n * (n - 1) + 1
    }
}

/// The cell at position `p` of side `k` on ring `n`.
fn ring_cell_exec(n: i64, k: i64, p: i64) -> (c: CubeCoordinate)
    requires
        1 <= n <= MAX_RING,
        0 <= k < 6,
        0 <= p < n,
    ensures
        c.same_cell(ring_cell(n as int, k as int, p as int)),
        c.wf(),
        index_of(c) == ring_start(n as int) + k * n + p,
{
    proof {
        lemma_compose(n as int, k as int, p as int);
        lemma_index_of_ring_cell(n as int, k as int, p as int);
    }
    if k == 0 {
        CubeCoordinate { q: n, r: -p, s: p - n }
    } else if k == 1 {
        CubeCoordinate { q: n - p, r: -n, s: p }
    } else if k == 2 {
        CubeCoordinate { q: -p, r: p - n, s: n }
    } else if k == 3 {
        CubeCoordinate { q: -n, r: p, s: n - p }
    } else if k == 4 {
        CubeCoordinate { q: p - n, r: n, s: -p }
    } else {
        CubeCoordinate { q: p, r: n - p, s: -n }
    }
}

/// The ring that index `i` falls on, in closed form:
/// `floor((3 + sqrt(12 * i - 3)) / 6)` for `i >= 1`.
fn ring_of_index(i: u64) -> (n: u64)
    requires
        1 <= i < TILE_LIMIT,
    ensures
        1 <= n <= MAX_RING,
        ring_start(n as int) <= i < ring_start(n + 1),
{
    let x: u128 = 12 * (i as u128) - 3;
    let root = floor_sqrt(x);
    let n128 = (root + 3) / 6;
    proof {
        let rt = root as int;
        let nn = n128 as int;
        let xx = x as int;
        assert(rt >= 3) by (nonlinear_arith)
            requires
                xx >= 9,
                xx < (rt + 1) * (rt + 1),
                rt >= 0,
        ;
        assert(6 * nn <= rt + 3 < 6 * nn + 6);
        assert((6 * nn - 3) * (6 * nn - 3) <= xx) by (nonlinear_arith)
            requires
                0 <= 6 * nn - 3 <= rt,
                rt * rt <= xx,
        ;
        assert(xx < (6 * nn + 3) * (6 * nn + 3)) by (nonlinear_arith)
            requires
                0 <= rt + 1 <= 6 * nn + 3,
                xx < (rt + 1) * (rt + 1),
        ;
        assert(3 * nn * (nn - 1) + 1 <= i < 3 * (nn + 1) * nn + 1) by (nonlinear_arith)
            requires
                (6 * nn - 3) * (6 * nn - 3) <= xx,
                xx < (6 * nn + 3) * (6 * nn + 3),
                xx == 12 * i - 3,
        ;
        lemma_tile_limit();
        if nn > MAX_RING {
            lemma_ring_start_monotone(MAX_RING as int, nn);
        }
    }
    n128 as u64
}

/// The cell with spiral index `index`.
/// Index 0 is the origin; indices from `TILE_LIMIT` on are refused.
pub fn index_to_cube(index: u64) -> (res: Result<CubeCoordinate, HexError>)
    ensures
        res is Ok <==> index < TILE_LIMIT,
        res matches Ok(c) ==> c.wf() && index_of(c) == index && c == cube_of_index(index as int),
        res is Err ==> res == Err::<CubeCoordinate, HexError>(HexError::InvalidIndex),
{
    if index >= TILE_LIMIT {
        return Err(HexError::InvalidIndex);
    }
    Ok(cell_of_index(index))
}

/// The cell with spiral index `index`, for an index in range.
pub(crate) fn cell_of_index(index: u64) -> (c: CubeCoordinate)
    requires
        index < TILE_LIMIT,
    ensures
        c.wf(),
        index_of(c) == index,
        c == cube_of_index(index as int),
{
    let c = cell_of_index_walk(index);
    proof {
        lemma_cube_of_index(c);
    }
    c
}

/// Finds the ring of `index`, then its side and position on that ring.
fn cell_of_index_walk(index: u64) -> (c: CubeCoordinate)
    requires
        index < TILE_LIMIT,
    ensures
        c.wf(),
        index_of(c) == index,
{
    if index == 0 {
        return CubeCoordinate::origin();
    }
    let n = ring_of_index(index);
    let offset = index - ring_start_exec(n);
    proof {
        lemma_ring_start_step(n as int);
    }
    let k = offset / n;
    let p = offset % n;
    assert(k < 6) by (nonlinear_arith)
        requires
            offset < 6 * n,
            k == offset / n,
            n >= 1,
    ;
    assert(offset == k * n + p) by (nonlinear_arith)
        requires
            k == offset / n,
            p == offset % n,
            n >= 1,
    ;
    ring_cell_exec(n as i64, k as i64, p as i64)
}

/// The spiral index of a cell.
pub fn cube_to_index(c: &CubeCoordinate) -> (i: u64)
    requires
        c.wf(),
    ensures
        i == index_of(*c),
        i < TILE_LIMIT,
{
    proof {
        lemma_ring_bounds(*c);
        lemma_index_in_ring(*c);
    }
    let aq = if c.q < 0 { -c.q } else { c.q };
    let ar = if c.r < 0 { -c.r } else { c.r };
    let as_ = if c.s < 0 { -c.s } else { c.s };
    let n = (aq + ar + as_) / 2;
    if n == 0 {
        return 0;
    }
    let (k, p): (i64, i64) = if c.q == n && c.r > -n {
        (0, -c.r)
    } else if c.r == -n && c.q > 0 {
        (1, c.s)
    } else if c.s == n && c.q > -n {
        (2, -c.q)
    } else if c.q == -n && c.s > 0 {
        (3, c.r)
    } else if c.r == n && c.q < 0 {
        (4, -c.s)
    } else {
        (5, c.q)
    };
    proof {
        lemma_decompose(*c);
    }
    ring_start_exec(n as u64) + (k as u64) * (n as u64) + (p as u64)
}

/// The ring that holds index `i`.
pub proof fn lemma_ring_containing(i: int) -> (n: int)
    requires
        i >= 0,
    ensures
        n >= 0,
        ring_start(n) <= i < ring_start(n + 1),
    decreases i,
{
    if i == 0 {
        lemma_ring_start_step(0);
        0
    } else {
        let m = lemma_ring_containing(i - 1);
        lemma_ring_start_step(m);
        lemma_ring_start_step(m + 1);
        if i < ring_start(m + 1) {
            m
        } else {
            m + 1
        }
    }
}

/// The spiral numbering is a bijection between the well-formed cells and the
/// indices `0..TILE_LIMIT`: every cell has an index in that range, two cells
/// share an index only if they are the same cell, and every index in that
/// range belongs to a cell.
pub proof fn lemma_bijection(a: CubeCoordinate, b: CubeCoordinate, i: int)
    requires
        a.wf(),
        b.wf(),
        0 <= i < TILE_LIMIT,
    ensures
        0 <= index_of(a) < TILE_LIMIT,
        index_of(a) == index_of(b) <==> a == b,
        exists|c: CubeCoordinate| c.wf() && index_of(c) == i,
{
    lemma_index_in_ring(a);
    if index_of(a) == index_of(b) {
        lemma_index_injective(a, b);
    }
    let n = lemma_ring_containing(i);
    lemma_tile_limit();
    if n > MAX_RING {
        lemma_ring_start_monotone(MAX_RING as int, n);
    }
    if n == 0 {
        let c = CubeCoordinate { q: 0, r: 0, s: 0 };
        assert(c.wf() && index_of(c) == i);
    } else {
        lemma_ring_start_step(n);
        let off = i - ring_start(n);
        let k = off / n;
        let p = off % n;
        assert(0 <= k < 6 && 0 <= p < n && off == k * n + p) by (nonlinear_arith)
            requires
                0 <= off < 6 * n,
                k == off / n,
                p == off % n,
                n >= 1,
        ;
        lemma_compose(n, k, p);
        lemma_index_of_ring_cell(n, k, p);
        let t = ring_cell(n, k, p);
        let c = CubeCoordinate { q: t.0 as i64, r: t.1 as i64, s: t.2 as i64 };
        assert(c.wf() && index_of(c) == i);
    }
}

/// Ring `n` holds exactly the `ring_size(n)` indices from `ring_start(n)` on:
/// one for the origin, `6 * n` for `n >= 1`.
pub proof fn lemma_ring_sizing(c: CubeCoordinate, n: int)
    requires
        c.wf(),
        n >= 0,
    ensures
        c.ring() == n <==> ring_start(n) <= index_of(c) < ring_start(n) + ring_size(n),
        ring_size(n) == (if n == 0 { 1 } else { 6 * n }),
        ring_start(n + 1) == ring_start(n) + ring_size(n),
{
    lemma_index_in_ring(c);
    lemma_ring_start_step(n);
    lemma_ring_start_step(c.ring());
    if c.ring() < n {
        lemma_ring_start_monotone(c.ring(), n);
    } else if n < c.ring() {
        lemma_ring_start_monotone(n, c.ring());
    }
}

/// A cell whose index lies on ring `n` is at distance `n` from the origin.
pub proof fn lemma_ring_distance(c: CubeCoordinate, n: int)
    requires
        c.wf(),
        n >= 0,
        ring_start(n) <= index_of(c) < ring_start(n + 1),
    ensures
        (CubeCoordinate { q: 0, r: 0, s: 0 }).dist(c) == n,
{
    lemma_ring_sizing(c, n);
}

/// The cell with spiral index `i` (meaningful for `0 <= i < TILE_LIMIT`).
pub open spec fn cube_of_index(i: int) -> CubeCoordinate {
    choose|c: CubeCoordinate| c.wf() && index_of(c) == i
}

/// `cube_of_index` undoes `index_of`.
pub proof fn lemma_cube_of_index(c: CubeCoordinate)
    requires
        c.wf(),
    ensures
        cube_of_index(index_of(c)) == c,
{
    let i = index_of(c);
    assert(c.wf() && index_of(c) == i);
    let d = cube_of_index(i);
    lemma_index_injective(d, c);
}

/// Index to cell and back gives the index; cell to index and back gives the
/// cell. These are the results of `index_to_cube` and `cube_to_index`.
pub proof fn lemma_round_trip(i: int, c: CubeCoordinate)
    requires
        0 <= i < TILE_LIMIT,
        c.wf(),
    ensures
        cube_of_index(i).wf(),
        index_of(cube_of_index(i)) == i,
        cube_of_index(index_of(c)) == c,
{
    lemma_bijection(c, c, i);
    lemma_cube_of_index(c);
}

} // verus!
