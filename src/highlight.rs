//! What a click on a tile highlights: the tiles within reach of the clicked
//! one, and the tiles on its three straight lines. Tiles are named by their
//! spiral indices.
use vstd::prelude::*;
use crate::axis::{aligned, shares_axis};
use crate::cube::{HexError, MAX_RING};
use crate::range::movement_range;
use crate::spiral::{cube_of_index, index_to_cube, TILE_LIMIT};

verus! {

/// Every index names an indexed cell.
pub open spec fn all_indexed(tiles: Seq<u64>) -> bool {
    forall|i: int| 0 <= i < tiles.len() ==> tiles[i] < TILE_LIMIT
}

/// For each of `tiles`, whether its cell lies within `max_distance` of the cell
/// of `selected`.
pub fn movement_range_highlights(selected: u64, tiles: &Vec<u64>, max_distance: i64) -> (res:
    Result<Vec<bool>, HexError>)
    ensures
        res is Ok <==> selected < TILE_LIMIT && 0 <= max_distance && cube_of_index(
            selected as int,
        ).ring() + max_distance <= MAX_RING && all_indexed(tiles@),
        selected >= TILE_LIMIT ==> res == Err::<Vec<bool>, HexError>(HexError::InvalidIndex),
        selected < TILE_LIMIT && max_distance < 0 ==> res == Err::<Vec<bool>, HexError>(
            HexError::DegenerateQuery,
        ),
        selected < TILE_LIMIT && 0 <= max_distance && cube_of_index(selected as int).ring()
            + max_distance > MAX_RING ==> res == Err::<Vec<bool>, HexError>(HexError::OutOfBounds),
        res is Err && selected < TILE_LIMIT && 0 <= max_distance && cube_of_index(
            selected as int,
        ).ring() + max_distance <= MAX_RING ==> res == Err::<Vec<bool>, HexError>(
            HexError::InvalidIndex,
        ),
        res matches Ok(flags) ==> {
            &&& flags@.len() == tiles@.len()
            &&& forall|i: int|
                0 <= i < tiles@.len() ==> #[trigger] flags@[i] == (cube_of_index(
                    selected as int,
                ).dist(cube_of_index(tiles@[i] as int)) <= max_distance)
        },
{
    let center = match index_to_cube(selected) {
        Ok(c) => c,
        Err(e) => {
            return Err(e);
        },
    };
    let range = match movement_range(&center, max_distance) {
        Ok(m) => m,
        Err(e) => {
            return Err(e);
        },
    };
    let mut flags: Vec<bool> = Vec::new();
    let mut i: usize = 0;
    while i < tiles.len()
        invariant
            range.wf(),
            range.center == cube_of_index(selected as int),
            range.max_distance == max_distance,
            i <= tiles@.len(),
            flags@.len() == i,
            forall|j: int| 0 <= j < i ==> tiles@[j] < TILE_LIMIT,
            forall|j: int|
                0 <= j < i ==> #[trigger] flags@[j] == (cube_of_index(selected as int).dist(
                    cube_of_index(tiles@[j] as int),
                ) <= max_distance),
        decreases tiles@.len() - i,
    {
        let cell = match index_to_cube(tiles[i]) {
            Ok(c) => c,
            Err(e) => {
                return Err(e);
            },
        };
        flags.push(range.contains(&cell));
        i = i + 1;
    }
    Ok(flags)
}

/// For each of `tiles`, whether its cell shares an axis with the cell of `selected`.
pub fn axis_highlights(selected: u64, tiles: &Vec<u64>) -> (res: Result<Vec<bool>, HexError>)
    ensures
        res is Ok <==> selected < TILE_LIMIT && all_indexed(tiles@),
        res is Err ==> res == Err::<Vec<bool>, HexError>(HexError::InvalidIndex),
        res matches Ok(flags) ==> {
            &&& flags@.len() == tiles@.len()
            &&& forall|i: int|
                0 <= i < tiles@.len() ==> #[trigger] flags@[i] == aligned(
                    cube_of_index(selected as int),
                    cube_of_index(tiles@[i] as int),
                )
        },
{
    let center = match index_to_cube(selected) {
        Ok(c) => c,
        Err(e) => {
            return Err(e);
        },
    };
    let mut flags: Vec<bool> = Vec::new();
    let mut i: usize = 0;
    while i < tiles.len()
        invariant
            center == cube_of_index(selected as int),
            i <= tiles@.len(),
            flags@.len() == i,
            forall|j: int| 0 <= j < i ==> tiles@[j] < TILE_LIMIT,
            forall|j: int|
                0 <= j < i ==> #[trigger] flags@[j] == aligned(
                    cube_of_index(selected as int),
                    cube_of_index(tiles@[j] as int),
                ),
        decreases tiles@.len() - i,
    {
        let cell = match index_to_cube(tiles[i]) {
            Ok(c) => c,
            Err(e) => {
                return Err(e);
            },
        };
        flags.push(shares_axis(&center, &cell));
        i = i + 1;
    }
    Ok(flags)
}

} // verus!
