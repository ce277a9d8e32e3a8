//! Conway's Game of Life on a fixed square board with a dead border.
use vstd::prelude::*;

pub mod board;
pub mod life;
pub mod screen;

verus! {

/// Cells along each side of the board that `Board::init` makes.
pub const BOARD_SIZE: usize = 40;

/// Width and height of one cell on screen, in pixels.
pub const CELL_SIZE: usize = 16;

/// Distance in pixels from the window's top-left corner to the board's.
pub const BOARD_OFFSET: usize = 40;

} // verus!
