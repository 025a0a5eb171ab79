//! Regions: square tiles of the grid, numbered, by which plots are filed.

use crate::error::LandError;
use vstd::prelude::*;

verus! {

/// Edge length of a region tile, in grid units.
pub const REGION_SIZE: u64 = 1000;

/// The number of the region that holds the cell `(x, y)`: the tile's column
/// plus `REGION_SIZE` times the tile's row.
///
/// The numbering is not one-to-one: from column `REGION_SIZE` on, a tile
/// shares its number with a tile of a later row; see
/// [`lemma_region_numbers_collide`].
pub open spec fn region_of(x: int, y: int) -> int {
    x / (REGION_SIZE as int) + (y / (REGION_SIZE as int)) * (REGION_SIZE as int)
}

/// The number of the region that holds the cell `(x, y)`.
///
/// Fails only where that number does not fit in a `u64`.
pub fn calculate_region_id(x: u64, y: u64) -> (id: Result<u64, LandError>)
    ensures
        region_of(x as int, y as int) <= u64::MAX ==> id == Ok::<u64, LandError>(
            region_of(x as int, y as int) as u64,
        ),
        region_of(x as int, y as int) > u64::MAX ==> id == Err::<u64, LandError>(
            LandError::CalculationError,
        ),
{
    let column = x / REGION_SIZE;
    let row = y / REGION_SIZE;
    assert(row * REGION_SIZE <= y) by (nonlinear_arith)
        requires
            row == y / REGION_SIZE,
            REGION_SIZE == 1000,
    ;
    match column.checked_add(row * REGION_SIZE) {
        Some(id) => Ok(id),
        None => Err(LandError::CalculationError),
    }
}

/// The region number depends on the coordinate alone: equal coordinates
/// have equal numbers.
pub proof fn lemma_region_is_function(x1: int, y1: int, x2: int, y2: int)
    requires
        x1 == x2,
        y1 == y2,
    ensures
        region_of(x1, y1) == region_of(x2, y2),
{
}

/// Two different tiles can have one number: the tile at column 1000 of the
/// first row and the tile at column 0 of the second row are both number
/// 1000.
pub proof fn lemma_region_numbers_collide()
    ensures
        region_of(1_000_000, 0) == region_of(0, 1000),
        region_of(1_000_000, 0) == 1000,
{
}

/// Inside a country whose unit count fits in a `u64`, every cell has a
/// region number that fits too.
pub proof fn lemma_region_fits(width: int, height: int, x: int, y: int)
    requires
        width * height <= u64::MAX,
        0 <= x < width,
        0 <= y < height,
    ensures
        0 <= region_of(x, y) <= u64::MAX,
{
    assert((width - 1) * (height - 1) >= 0) by (nonlinear_arith)
        requires
            width >= 1,
            height >= 1,
    ;
    assert((width - 1) * (height - 1) == width * height - width - height + 1)
        by (nonlinear_arith);
}

} // verus!
