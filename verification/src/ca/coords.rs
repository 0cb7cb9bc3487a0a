//! Grid coordinates and buffer positions.
//!
//! The cells of a grid of width `W` and height `H` lie row by row in a linear
//! buffer of `W * H` cells: the cell `(x, y)` lies at position `y * W + x`,
//! and the cell at position `i` has the coordinates `(i % W, i / W)`.

use vstd::prelude::*;

verus! {

/// The buffer position of the cell `(x, y)` in a grid of the given width.
pub open spec fn coord_index(width: int, x: int, y: int) -> int {
    y * width + x
}

/// The coordinates `(x, y)` of the cell at buffer position `idx` in a grid of
/// the given width.
pub open spec fn index_coord(width: int, idx: int) -> (int, int) {
    (idx % width, idx / width)
}

/// Whether `(x, y)` is a cell of the grid `[0, width) x [0, height)`.
pub open spec fn in_grid(x: int, y: int, width: int, height: int) -> bool {
    0 <= x < width && 0 <= y < height
}

/// The grid sizes that a simulation can have: no side is negative, and every
/// buffer position fits the `i32` in which coordinates are counted.
pub open spec fn valid_dims(width: int, height: int) -> bool {
    0 <= width && 0 <= height && width * height <= i32::MAX
}

/// The number of cells of a grid of the given size, or `None` if no
/// simulation can have that size.
pub fn cell_count(width: i32, height: i32) -> (count: Option<usize>)
    ensures
        match count {
            Some(n) => valid_dims(width as int, height as int) && n == width * height,
            None => !valid_dims(width as int, height as int),
        },
{
    if width < 0 || height < 0 {
        return None;
    }
    assert(0 <= width * height <= 0x4000_0000_0000_0000) by (nonlinear_arith)
        requires
            0 <= width < 0x8000_0000,
            0 <= height < 0x8000_0000,
    ;
    let count: i64 = (width as i64) * (height as i64);
    if count > i32::MAX as i64 {
        None
    } else {
        Some(count as usize)
    }
}

/// A cell of the grid lies at a position below `width * height`.
pub proof fn lemma_index_in_buffer(width: int, height: int, x: int, y: int)
    requires
        in_grid(x, y, width, height),
    ensures
        0 <= coord_index(width, x, y) < width * height,
{
    assert(y * width + x < width * height) by (nonlinear_arith)
        requires
            0 <= x < width,
            0 <= y < height,
    ;
    assert(0 <= y * width) by (nonlinear_arith)
        requires
            0 <= width,
            0 <= y,
    ;
}

/// Going from a buffer position to coordinates and back gives the position
/// again, and the coordinates on the way are those of a cell of the grid.
pub proof fn lemma_index_round_trip(width: int, height: int, idx: int)
    requires
        width >= 1,
        0 <= idx < width * height,
    ensures
        coord_index(width, index_coord(width, idx).0, index_coord(width, idx).1) == idx,
        in_grid(index_coord(width, idx).0, index_coord(width, idx).1, width, height),
{
    let x: int = idx % width;
    let y: int = idx / width;
    assert(idx == width * y + x && 0 <= x < width) by (nonlinear_arith)
        requires
            width >= 1,
            x == idx % width,
            y == idx / width,
    ;
    assert(y * width == width * y) by (nonlinear_arith);
    assert(0 <= y < height) by (nonlinear_arith)
        requires
            width >= 1,
            0 <= idx < width * height,
            idx == width * y + x,
            0 <= x < width,
    ;
}

/// Going from the coordinates of a cell to its buffer position and back gives
/// the coordinates again.
pub proof fn lemma_coord_round_trip(width: int, x: int, y: int)
    requires
        0 <= x < width,
        0 <= y,
    ensures
        index_coord(width, coord_index(width, x, y)) == (x, y),
{
    let idx: int = y * width + x;
    assert(idx % width == x && idx / width == y) by (nonlinear_arith)
        requires
            0 <= x < width,
            0 <= y,
            idx == y * width + x,
    ;
}

/// The buffer position of the cell `(x, y)` in a grid of the given width.
///
/// The coordinates are taken as they are: those of a point outside the grid
/// give the position that the formula gives, which then names another cell
/// or none. Where the formula's value does not fit a `usize` (a negative one
/// does not), its low bits come back.
pub fn coord_to_idx(width: i32, x: i32, y: i32) -> (idx: usize)
    ensures
        idx == coord_index(width as int, x as int, y as int) as usize,
        0 <= coord_index(width as int, x as int, y as int) <= usize::MAX ==> idx
            == coord_index(width as int, x as int, y as int),
{
    assert(-0x4000_0000_0000_0000 < y * width <= 0x4000_0000_0000_0000) by (nonlinear_arith)
        requires
            -0x8000_0000 <= y < 0x8000_0000,
            -0x8000_0000 <= width < 0x8000_0000,
    ;
    let wide: i64 = (y as i64) * (width as i64) + (x as i64);
    #[verifier::truncate]
    (wide as usize)
}

/// The coordinates `(x, y)` of the cell at buffer position `idx` in a grid of
/// the given width, which is not zero.
///
/// A coordinate that does not fit an `i32` comes back as its low bits.
pub fn idx_to_coord(width: usize, idx: usize) -> (coord: (i32, i32))
    requires
        width > 0,
    ensures
        coord.0 == index_coord(width as int, idx as int).0 as i32,
        coord.1 == index_coord(width as int, idx as int).1 as i32,
        idx / width <= i32::MAX && idx % width <= i32::MAX ==> (coord.0 as int, coord.1 as int)
            == index_coord(width as int, idx as int),
{
    let x: usize = idx % width;
    let y: usize = idx / width;
    (#[verifier::truncate] (x as i32), #[verifier::truncate] (y as i32))
}

} // verus!
