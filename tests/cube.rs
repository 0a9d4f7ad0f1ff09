use hex_spiral::axis::shares_axis;
use hex_spiral::cube::{CubeCoordinate, HexError, MAX_RING};

fn cell(q: i64, r: i64, s: i64) -> CubeCoordinate {
    CubeCoordinate::new(q, r, s).unwrap()
}

#[test]
fn construction_checks_the_sum() {
    assert_eq!(CubeCoordinate::new(1, 1, 1), Err(HexError::InvariantViolation));
    assert_eq!(CubeCoordinate::new(MAX_RING + 1, -MAX_RING - 1, 0), Err(HexError::OutOfBounds));
    assert_eq!(cell(2, -1, -1).into_qrs_tuple(), (2, -1, -1));
    assert_eq!(CubeCoordinate::from_axial(2, -1).unwrap(), cell(2, -1, -1));
    assert_eq!(CubeCoordinate::from_axial(MAX_RING, 1), Err(HexError::OutOfBounds));
}

#[test]
fn distances() {
    assert_eq!(cell(0, 0, 0).distance(&cell(0, 0, 0)), 0);
    assert_eq!(cell(0, 0, 0).distance(&cell(2, -1, -1)), 2);
    assert_eq!(cell(-3, 1, 2).distance(&cell(2, -1, -1)), 5);
    assert_eq!(
        cell(MAX_RING, -MAX_RING, 0).distance(&cell(-MAX_RING, MAX_RING, 0)),
        2 * MAX_RING
    );
}

#[test]
fn neighbors_in_order() {
    let c = cell(1, -2, 1);
    let n = c.neighbors();
    assert_eq!(n.len(), 6);
    assert_eq!(n[0], cell(2, -2, 0));
    assert_eq!(n[1], cell(2, -3, 1));
    assert_eq!(n[2], cell(1, -3, 2));
    assert_eq!(n[3], cell(0, -2, 2));
    assert_eq!(n[4], cell(0, -1, 1));
    assert_eq!(n[5], cell(1, -1, 0));
    for m in &n {
        assert_eq!(c.distance(m), 1);
    }
    assert_eq!(c.neighbor(3), n[3]);
}

#[test]
fn axis_alignment_examples() {
    let o = cell(0, 0, 0);
    assert!(shares_axis(&o, &cell(1, -1, 0)));
    assert!(shares_axis(&o, &cell(1, 0, -1)));
    assert!(!shares_axis(&o, &cell(2, -1, -1)));
    assert!(shares_axis(&cell(0, 3, -3), &o));
}

#[test]
fn axis_alignment_is_symmetric() {
    let cells: Vec<CubeCoordinate> = (-3i64..=3)
        .flat_map(|q| (-3i64..=3).map(move |r| CubeCoordinate::from_axial(q, r).unwrap()))
        .collect();
    for a in &cells {
        for b in &cells {
            assert_eq!(shares_axis(a, b), shares_axis(b, a));
        }
    }
}
