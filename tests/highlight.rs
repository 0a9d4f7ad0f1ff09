use hex_spiral::cube::{CubeCoordinate, HexError};
use hex_spiral::highlight::{axis_highlights, movement_range_highlights};
use hex_spiral::rounding::{cube_round, FRACTION_LIMIT, FRACTION_ONE};
use hex_spiral::spiral::TILE_LIMIT;

#[test]
fn movement_highlights_from_center() {
    let tiles: Vec<u64> = (1..36).collect();
    let flags = movement_range_highlights(0, &tiles, 2).unwrap();
    assert_eq!(flags.len(), 35);
    for (t, f) in tiles.iter().zip(flags.iter()) {
        assert_eq!(*f, *t < 19, "tile {}", t);
    }
}

#[test]
fn movement_highlights_from_side_tile() {
    let tiles: Vec<u64> = vec![0, 1, 4, 7, 13, 19, 25];
    let flags = movement_range_highlights(1, &tiles, 2).unwrap();
    assert_eq!(flags, vec![true, true, true, true, false, true, false]);
}

#[test]
fn movement_highlight_errors() {
    assert_eq!(movement_range_highlights(TILE_LIMIT, &vec![1], 2), Err(HexError::InvalidIndex));
    assert_eq!(movement_range_highlights(3, &vec![1], -2), Err(HexError::DegenerateQuery));
    assert_eq!(movement_range_highlights(3, &vec![1, TILE_LIMIT], 2), Err(HexError::InvalidIndex));
    assert_eq!(movement_range_highlights(TILE_LIMIT - 1, &vec![1], 2), Err(HexError::OutOfBounds));
}

#[test]
fn axis_highlights_from_center() {
    let tiles: Vec<u64> = (0..19).collect();
    let flags = axis_highlights(0, &tiles).unwrap();
    let expected: Vec<bool> = (0..19).map(|i| i < 7 || [7, 9, 11, 13, 15, 17].contains(&i)).collect();
    assert_eq!(flags, expected);
    assert_eq!(axis_highlights(0, &vec![TILE_LIMIT]), Err(HexError::InvalidIndex));
    assert_eq!(axis_highlights(TILE_LIMIT, &vec![]), Err(HexError::InvalidIndex));
}

#[test]
fn rounding_exact_cells() {
    for (q, r) in [(0i64, 0i64), (3, -1), (-7, 2), (1000, -999)] {
        let c = CubeCoordinate::from_axial(q, r).unwrap();
        let got = cube_round(q * FRACTION_ONE, r * FRACTION_ONE, c.s * FRACTION_ONE).unwrap();
        assert_eq!(got, c);
    }
}

#[test]
fn rounding_fixes_the_worst_component() {
    // (0.4, 0.3, -0.7): rounds to (0, 0, -1); q errs by 0.4, r and s by 0.3, so q is recomputed.
    let c = cube_round(400_000, 300_000, -700_000).unwrap();
    assert_eq!(c.into_qrs_tuple(), (1, 0, -1));
    // (1.2, -0.6, -0.6): rounds to (1, -1, -1); r and s tie, s is recomputed.
    let c = cube_round(1_200_000, -600_000, -600_000).unwrap();
    assert_eq!(c.into_qrs_tuple(), (1, -1, 0));
    // (-0.2, 0.9, -0.7): rounds to (0, 1, -1), already summing to zero.
    let c = cube_round(-200_000, 900_000, -700_000).unwrap();
    assert_eq!(c.into_qrs_tuple(), (0, 1, -1));
    assert_eq!(cube_round(FRACTION_LIMIT + 1, 0, 0), Err(HexError::OutOfBounds));
}
