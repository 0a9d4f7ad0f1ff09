//! Snapping a fractional cube position to the nearest cell. Fractional
//! components are fixed-point numbers in units of `1 / FRACTION_ONE`.
use vstd::prelude::*;
use vstd::arithmetic::div_mod::{lemma_fundamental_div_mod, lemma_fundamental_div_mod_converse};
use crate::cube::{abs, CubeCoordinate, HexError, MAX_RING};

verus! {

/// One whole cell step in fixed-point units.
pub const FRACTION_ONE: i64 = 1_000_000;

/// Largest fixed-point magnitude accepted: `MAX_RING` whole steps.
pub const FRACTION_LIMIT: i64 = 1_000_000_000_000_000;

/// The nearest whole number to `x / FRACTION_ONE`, halves rounded up.
pub open spec fn nearest(x: int) -> int {
    (x + FRACTION_ONE / 2) / (FRACTION_ONE as int)
}

/// How far `x` lies from its nearest whole step, in fixed-point units.
pub open spec fn rounding_error(x: int) -> int {
    abs(nearest(x) * FRACTION_ONE - x)
}

/// Round each component, then recompute the one with the largest rounding
/// error from the other two so that the components sum to zero.
pub open spec fn round_cube(fq: int, fr: int, fs: int) -> (int, int, int) {
    let q = nearest(fq);
    let r = nearest(fr);
    let s = nearest(fs);
    let eq = rounding_error(fq);
    let er = rounding_error(fr);
    let es = rounding_error(fs);
    if eq > er && eq > es {
        (-r - s, r, s)
    } else if er > es {
        (q, -q - s, s)
    } else {
        (q, r, -q - r)
    }
}

fn nearest_exec(x: i64) -> (n: i64)
    requires
        -FRACTION_LIMIT <= x <= FRACTION_LIMIT,
    ensures
        n == nearest(x as int),
        -MAX_RING <= n <= MAX_RING,
{
    let shift: i64 = (MAX_RING + 1) * FRACTION_ONE;
    let y = x + FRACTION_ONE / 2 + shift;
    let a = y / FRACTION_ONE;
    proof {
        lemma_fundamental_div_mod(y as int, FRACTION_ONE as int);
        let m = (MAX_RING + 1) as int;
        assert(x + FRACTION_ONE / 2 == (a - m) * FRACTION_ONE + y % FRACTION_ONE) by (
        nonlinear_arith)
            requires
                y == a * FRACTION_ONE + y % FRACTION_ONE,
                y == x + FRACTION_ONE / 2 + m * FRACTION_ONE,
        ;
        lemma_fundamental_div_mod_converse(
            x + FRACTION_ONE / 2,
            FRACTION_ONE as int,
            a - m,
            (y % FRACTION_ONE) as int,
        );
    }
    a - (MAX_RING + 1)
}

fn rounding_error_exec(x: i64, n: i64) -> (e: i64)
    requires
        -FRACTION_LIMIT <= x <= FRACTION_LIMIT,
        n == nearest(x as int),
        -MAX_RING <= n <= MAX_RING,
    ensures
        e == rounding_error(x as int),
{
    let d = n * FRACTION_ONE - x;
    if d < 0 {
        -d
    } else {
        d
    }
}

/// The cell nearest to the fractional position `(fq, fr, fs)`.
/// Refused with `OutOfBounds` where a component's magnitude exceeds
/// `FRACTION_LIMIT` or the cell lies past `MAX_RING`.
pub fn cube_round(fq: i64, fr: i64, fs: i64) -> (res: Result<CubeCoordinate, HexError>)
    ensures
        ({
            let fits = -FRACTION_LIMIT <= fq <= FRACTION_LIMIT && -FRACTION_LIMIT <= fr
                <= FRACTION_LIMIT && -FRACTION_LIMIT <= fs <= FRACTION_LIMIT;
            let t = round_cube(fq as int, fr as int, fs as int);
            &&& res is Ok <==> fits && -MAX_RING <= t.0 <= MAX_RING && -MAX_RING <= t.1
                <= MAX_RING && -MAX_RING <= t.2 <= MAX_RING
            &&& res matches Ok(c) ==> c.wf() && c.same_cell(t)
            &&& res is Err ==> res == Err::<CubeCoordinate, HexError>(HexError::OutOfBounds)
        }),
{
    if fq < -FRACTION_LIMIT || fq > FRACTION_LIMIT || fr < -FRACTION_LIMIT || fr > FRACTION_LIMIT
        || fs < -FRACTION_LIMIT || fs > FRACTION_LIMIT {
        return Err(HexError::OutOfBounds);
    }
    let q = nearest_exec(fq);
    let r = nearest_exec(fr);
    let s = nearest_exec(fs);
    let eq = rounding_error_exec(fq, q);
    let er = rounding_error_exec(fr, r);
    let es = rounding_error_exec(fs, s);
    let (q, r, s) = if eq > er && eq > es {
        (-r - s, r, s)
    } else if er > es {
        (q, -q - s, s)
    } else {
        (q, r, -q - r)
    };
    CubeCoordinate::new(q, r, s)
}

/// A position that lies exactly on a cell rounds to that cell.
pub proof fn lemma_round_exact(c: CubeCoordinate)
    requires
        c.wf(),
    ensures
        round_cube(
            c.q * FRACTION_ONE as int,
            c.r * FRACTION_ONE as int,
            c.s * FRACTION_ONE as int,
        ) == (c.q as int, c.r as int, c.s as int),
{
    lemma_fundamental_div_mod_converse(
        c.q * FRACTION_ONE + FRACTION_ONE / 2,
        FRACTION_ONE as int,
        c.q as int,
        FRACTION_ONE / 2,
    );
    lemma_fundamental_div_mod_converse(
        c.r * FRACTION_ONE + FRACTION_ONE / 2,
        FRACTION_ONE as int,
        c.r as int,
        FRACTION_ONE / 2,
    );
    lemma_fundamental_div_mod_converse(
        c.s * FRACTION_ONE + FRACTION_ONE / 2,
        FRACTION_ONE as int,
        c.s as int,
        FRACTION_ONE / 2,
    );
}

} // verus!
