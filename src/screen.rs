//! Where the cells of a board lie on screen, and which cell a pixel falls in.
use vstd::prelude::*;

use crate::CELL_SIZE;

verus! {

/// The index along one axis of the cell that holds pixel `p`, for a board whose
/// first cell starts at pixel `origin`.
pub open spec fn cell_index(origin: int, p: int) -> int {
    (p - origin) / (CELL_SIZE as int)
}

/// Whether pixel `(px, py)` lies on a cell of an `n` by `n` board at `origin`.
pub open spec fn on_board(origin: int, n: int, px: int, py: int) -> bool {
    origin <= px && origin <= py && cell_index(origin, px) < n && cell_index(origin, py) < n
}

/// The pixel at which cell `i` (or, for `i == n`, the far edge) begins along one axis.
pub open spec fn pixel_start(origin: int, i: int) -> int {
    origin + i * (CELL_SIZE as int)
}

/// The pixel in the middle of cell `i` along one axis.
pub open spec fn cell_center(origin: int, i: int) -> int {
    pixel_start(origin, i) + (CELL_SIZE as int) / 2
}

/// The centre of every cell maps back to that cell.
pub proof fn lemma_center_maps_back(origin: int, n: int, x: int, y: int)
    requires
        0 <= x < n,
        0 <= y < n,
    ensures
        on_board(origin, n, cell_center(origin, x), cell_center(origin, y)),
        cell_index(origin, cell_center(origin, x)) == x,
        cell_index(origin, cell_center(origin, y)) == y,
{
}

/// A pixel outside the rectangle that the board covers lies on no cell.
pub proof fn lemma_outside_maps_nowhere(origin: int, n: int, px: int, py: int)
    requires
        !(pixel_start(origin, 0) <= px < pixel_start(origin, n) && pixel_start(origin, 0) <= py
            < pixel_start(origin, n)),
    ensures
        !on_board(origin, n, px, py),
{
}

} // verus!
