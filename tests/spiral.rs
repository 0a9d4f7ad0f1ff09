use hex_spiral::cube::{CubeCoordinate, HexError, MAX_RING};
use hex_spiral::spiral::{cube_to_index, floor_sqrt, index_to_cube, TILE_LIMIT};
use std::collections::HashSet;

fn cell(q: i64, r: i64, s: i64) -> CubeCoordinate {
    CubeCoordinate::new(q, r, s).unwrap()
}

#[test]
fn index_round_trip_and_no_duplicates() {
    let mut seen = HashSet::new();
    for i in 0..10_000u64 {
        let c = index_to_cube(i).unwrap();
        assert_eq!(cube_to_index(&c), i);
        assert!(seen.insert(c), "index {} repeats a cell", i);
    }
}

#[test]
fn every_cell_near_origin_has_an_index() {
    let mut indices = HashSet::new();
    for q in -20i64..=20 {
        for r in -20i64..=20 {
            let c = CubeCoordinate::from_axial(q, r).unwrap();
            let i = cube_to_index(&c);
            assert_eq!(index_to_cube(i).unwrap(), c);
            assert!(indices.insert(i));
        }
    }
}

#[test]
fn ring_sizes() {
    let origin = CubeCoordinate::origin();
    let mut counts = vec![0u64; 40];
    for i in 0..(1 + 3 * 39 * 40) {
        let c = index_to_cube(i).unwrap();
        counts[origin.distance(&c) as usize] += 1;
    }
    assert_eq!(counts[0], 1);
    for n in 1..40 {
        assert_eq!(counts[n], 6 * n as u64);
    }
    assert_eq!(index_to_cube(0).unwrap(), origin);
}

#[test]
fn distance_matches_ring() {
    let origin = CubeCoordinate::origin();
    let mut start = 1u64;
    for n in 1..30u64 {
        for i in start..start + 6 * n {
            let c = index_to_cube(i).unwrap();
            assert_eq!(origin.distance(&c), n as i64);
            assert_eq!(c.distance(&origin), n as i64);
        }
        start += 6 * n;
    }
}

#[test]
fn first_ring_in_side_order() {
    assert_eq!(index_to_cube(0).unwrap().into_qrs_tuple(), (0, 0, 0));
    let expected = [(1, 0, -1), (1, -1, 0), (0, -1, 1), (-1, 0, 1), (-1, 1, 0), (0, 1, -1)];
    for (k, e) in expected.iter().enumerate() {
        assert_eq!(index_to_cube(k as u64 + 1).unwrap().into_qrs_tuple(), *e);
    }
}

#[test]
fn second_ring_corners_and_sides() {
    assert_eq!(index_to_cube(7).unwrap(), cell(2, 0, -2));
    assert_eq!(index_to_cube(8).unwrap(), cell(2, -1, -1));
    assert_eq!(index_to_cube(9).unwrap(), cell(2, -2, 0));
    assert_eq!(index_to_cube(11).unwrap(), cell(0, -2, 2));
    assert_eq!(index_to_cube(18).unwrap(), cell(1, 1, -2));
    assert_eq!(index_to_cube(19).unwrap(), cell(3, 0, -3));
    assert_eq!(cube_to_index(&cell(0, 2, -2)), 17);
    assert_eq!(cube_to_index(&cell(-2, 2, 0)), 15);
}

#[test]
fn largest_indices() {
    let last = index_to_cube(TILE_LIMIT - 1).unwrap();
    assert_eq!(last, cell(MAX_RING - 1, 1, -MAX_RING));
    assert_eq!(cube_to_index(&last), TILE_LIMIT - 1);
    let corner = cell(MAX_RING, 0, -MAX_RING);
    assert_eq!(cube_to_index(&corner), 1 + 3 * (MAX_RING as u64) * (MAX_RING as u64 - 1));
    assert_eq!(index_to_cube(TILE_LIMIT), Err(HexError::InvalidIndex));
    assert_eq!(index_to_cube(u64::MAX), Err(HexError::InvalidIndex));
}

#[test]
fn ring_boundaries_round_trip() {
    for n in [1u64, 2, 10, 999, 1000, 65_536, 3_037_000, 999_999_999, 1_000_000_000] {
        let start = 1 + 3 * n * (n - 1);
        for i in [start, start + 1, start + n - 1, start + n, start + 6 * n - 1] {
            let c = index_to_cube(i).unwrap();
            assert_eq!(CubeCoordinate::origin().distance(&c), n as i64);
            assert_eq!(cube_to_index(&c), i);
        }
    }
}

#[test]
fn square_roots() {
    assert_eq!(floor_sqrt(0), 0);
    assert_eq!(floor_sqrt(1), 1);
    assert_eq!(floor_sqrt(8), 2);
    assert_eq!(floor_sqrt(9), 3);
    assert_eq!(floor_sqrt(1u128 << 64), 1u128 << 32);
    assert_eq!(floor_sqrt((1u128 << 66) - 1), (1u128 << 33) - 1);
}
