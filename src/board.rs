//! The board: an `n` by `n` generation stored row after row in one vector,
//! and the operations that the presentation loop calls on it.
use vstd::arithmetic::div_mod::lemma_fundamental_div_mod_converse;
use vstd::prelude::*;

use crate::life::{all_dead, live, live_bit, live_neighbors, pattern, step, toggled};
use crate::screen::{cell_index, on_board, pixel_start};
use crate::{BOARD_OFFSET, BOARD_SIZE, CELL_SIZE};

verus! {

/// A square Game of Life board placed on screen.
pub struct Board {
    /// Cell `(x, y)` is at index `x * size + y`; `true` is alive.
    cells: Vec<bool>,
    size: usize,
    offset: usize,
}

/// Cell `(x, y)` of an `n` by `n` board sits at flat index `x * n + y`, and
/// that index gives back `x` and `y`.
proof fn lemma_flat_index(n: int, x: int, y: int)
    requires
        0 <= x < n,
        0 <= y < n,
    ensures
        0 <= x * n,
        x * n + y < n * n,
        (x * n + y) / n == x,
        (x * n + y) % n == y,
{
    lemma_fundamental_div_mod_converse(x * n + y, n, x, y);
    assert(0 <= x * n && x * n + y < n * n) by (nonlinear_arith)
        requires
            0 <= x < n,
            0 <= y < n,
    ;
}

/// A vector of `count` dead cells.
fn dead_cells(count: usize) -> (v: Vec<bool>)
    ensures
        v@.len() == count,
        forall|i: int| 0 <= i < count ==> !#[trigger] v@[i],
{
    let mut v: Vec<bool> = Vec::new();
    let mut i: usize = 0;
    while i < count
        invariant
            i <= count,
            v@.len() == i,
            forall|k: int| 0 <= k < i ==> !#[trigger] v@[k],
        decreases count - i,
    {
        v.push(false);
        i += 1;
    }
    v
}

/// The generation that seeding from `draws` gives: cell `(x, y)` takes draw
/// `x * n + y`, and is alive exactly when that draw is 0.
pub open spec fn seeded(n: nat, draws: Seq<u32>) -> Seq<Seq<bool>> {
    pattern(n, |x: int, y: int| draws[x * n + y] == 0)
}

/// Relies on macroquad::rand::gen_range (quad-rand's global generator): with a
/// lower bound of 0 it scales a 32-bit draw in [0, 1) by `high` and truncates,
/// so for small `high` the result is below `high`.
#[verifier::external_body]
fn random_below(high: u32) -> (r: u32)
    requires
        0 < high <= 65536,
    ensures
        r < high,
{
    macroquad::rand::gen_range(0, high)
}

impl View for Board {
    type V = Seq<Seq<bool>>;

    closed spec fn view(&self) -> Seq<Seq<bool>> {
        let n = self.size as int;
        Seq::new(self.size as nat, |x: int| Seq::new(self.size as nat, |y: int| self.cells@[x * n + y]))
    }
}

impl Board {
    /// The board's cells are all stored, and every pixel of it fits in a `usize`.
    pub closed spec fn wf(&self) -> bool {
        &&& self.size * self.size <= usize::MAX
        &&& self.cells@.len() == self.size * self.size
        &&& self.offset + self.size * CELL_SIZE <= usize::MAX
    }

    /// The pixel at which the board's first cell begins, on both axes.
    pub closed spec fn origin(&self) -> int {
        self.offset as int
    }

    /// An all-dead board of `size` by `size` cells at the usual place on screen.
    pub fn with_size(size: usize) -> (b: Board)
        requires
            size * size <= usize::MAX,
            BOARD_OFFSET + size * CELL_SIZE <= usize::MAX,
        ensures
            b.wf(),
            b@ == all_dead(size as nat),
            b.origin() == BOARD_OFFSET,
    {
        let b = Board { cells: dead_cells(size * size), size, offset: BOARD_OFFSET };
        proof {
            assert forall|x: int| 0 <= x < size implies #[trigger] b@[x] =~= all_dead(size as nat)[x] by {
                assert forall|y: int| 0 <= y < size implies !#[trigger] b@[x][y] by {
                    lemma_flat_index(size as int, x, y);
                }
            }
            assert(b@ =~= all_dead(size as nat));
        }
        b
    }

    /// The standard board: `BOARD_SIZE` by `BOARD_SIZE` cells, all dead.
    pub fn init() -> (b: Board)
        ensures
            b.wf(),
            b@ == all_dead(BOARD_SIZE as nat),
            b.origin() == BOARD_OFFSET,
    {
        Board::with_size(BOARD_SIZE)
    }

    /// Cells along each side.
    pub fn size(&self) -> (r: usize)
        requires
            self.wf(),
        ensures
            r == self@.len(),
    {
        self.size
    }

    /// The pixel at which the board's first cell begins, on both axes.
    pub fn offset(&self) -> (r: usize)
        ensures
            r == self.origin(),
    {
        self.offset
    }

    fn flat_index(&self, x: usize, y: usize) -> (i: usize)
        requires
            self.wf(),
            x < self.size,
            y < self.size,
        ensures
            i == x * self.size + y,
            i < self.cells@.len(),
    {
        proof {
            lemma_flat_index(self.size as int, x as int, y as int);
        }
        x * self.size + y
    }

    /// Whether `(x, y)` is a cell of the board and alive; `false` off the board.
    pub fn is_alive(&self, x: usize, y: usize) -> (r: bool)
        requires
            self.wf(),
        ensures
            r == live(self@, x as int, y as int),
    {
        if x < self.size && y < self.size {
            self.cells[self.flat_index(x, y)]
        } else {
            false
        }
    }

    fn live_bit(&self, x: usize, y: usize) -> (r: u8)
        requires
            self.wf(),
        ensures
            r == live_bit(self@, x as int, y as int),
            r <= 1,
    {
        if self.is_alive(x, y) {
            1
        } else {
            0
        }
    }

    /// The number of live cells among the eight around `(x, y)`; positions off
    /// the board count as dead.
    pub fn live_neighbors(&self, x: usize, y: usize) -> (r: u8)
        requires
            self.wf(),
            x < self@.len(),
            y < self@.len(),
        ensures
            r == live_neighbors(self@, x as int, y as int),
    {
        let mut count: u8 = 0;
        if x > 0 {
            if y > 0 {
                count += self.live_bit(x - 1, y - 1);
            }
            count += self.live_bit(x - 1, y);
            count += self.live_bit(x - 1, y + 1);
        }
        if y > 0 {
            count += self.live_bit(x, y - 1);
            count += self.live_bit(x + 1, y - 1);
        }
        count += self.live_bit(x, y + 1);
        count += self.live_bit(x + 1, y);
        count += self.live_bit(x + 1, y + 1);
        count
    }

    /// The cells of the next generation, in the board's storage order.
    fn next_cells(&self) -> (v: Vec<bool>)
        requires
            self.wf(),
        ensures
            v@.len() == self.cells@.len(),
            forall|i: int|
                0 <= i < v@.len() ==> #[trigger] v@[i] == step(self@)[i / self.size as int][i
                    % self.size as int],
    {
        let n = self.size;
        let mut v: Vec<bool> = Vec::new();
        let mut x: usize = 0;
        while x < n
            invariant
                self.wf(),
                n == self.size,
                x <= n,
                v@.len() == x * n,
                forall|i: int|
                    0 <= i < v@.len() ==> #[trigger] v@[i] == step(self@)[i / n as int][i
                        % n as int],
            decreases n - x,
        {
            let mut y: usize = 0;
            while y < n
                invariant
                    self.wf(),
                    n == self.size,
                    x < n,
                    y <= n,
                    v@.len() == x * n + y,
                    forall|i: int|
                        0 <= i < v@.len() ==> #[trigger] v@[i] == step(self@)[i / n as int][i
                            % n as int],
                decreases n - y,
            {
                let alive = self.is_alive(x, y);
                let count = self.live_neighbors(x, y);
                proof {
                    lemma_flat_index(n as int, x as int, y as int);
                }
                v.push((alive && count == 2) || count == 3);
                y += 1;
            }
            assert(x * n + n == (x + 1) * n) by (nonlinear_arith);
            x += 1;
        }
        v
    }

    /// Advances the board by one generation. Every cell of the new generation
    /// is computed from the old one; nothing is updated in place.
    pub fn tick(&mut self)
        requires
            old(self).wf(),
        ensures
            final(self).wf(),
            final(self)@ == step(old(self)@),
            final(self).origin() == old(self).origin(),
    {
        let next = self.next_cells();
        let ghost before = self@;
        let ghost n = self.size as int;
        self.cells = next;
        proof {
            assert forall|x: int| 0 <= x < n implies #[trigger] self@[x] =~= step(before)[x] by {
                assert forall|y: int| 0 <= y < n implies #[trigger] self@[x][y] == step(before)[x][y] by {
                    lemma_flat_index(n, x, y);
                }
            }
            assert(self@ =~= step(before));
        }
    }

    /// Kills every cell; the size and the place on screen stay.
    pub fn reset(&mut self)
        requires
            old(self).wf(),
        ensures
            final(self).wf(),
            final(self)@ == all_dead(old(self)@.len()),
            final(self).origin() == old(self).origin(),
    {
        let n = self.size;
        self.cells = dead_cells(n * n);
        proof {
            assert forall|x: int| 0 <= x < n implies #[trigger] self@[x] =~= all_dead(n as nat)[x] by {
                assert forall|y: int| 0 <= y < n implies !#[trigger] self@[x][y] by {
                    lemma_flat_index(n as int, x, y);
                }
            }
            assert(self@ =~= all_dead(n as nat));
        }
    }

    /// Flips cell `(x, y)` between alive and dead.
    pub fn switch_cell(&mut self, x: usize, y: usize)
        requires
            old(self).wf(),
            x < old(self)@.len(),
            y < old(self)@.len(),
        ensures
            final(self).wf(),
            final(self)@ == toggled(old(self)@, x as int, y as int),
            final(self).origin() == old(self).origin(),
    {
        let ghost before = self@;
        let ghost n = self.size as int;
        let i = self.flat_index(x, y);
        let alive = self.cells[i];
        self.cells.set(i, !alive);
        proof {
            let t = toggled(before, x as int, y as int);
            assert forall|a: int| 0 <= a < n implies #[trigger] self@[a] =~= t[a] by {
                assert forall|b: int| 0 <= b < n implies #[trigger] self@[a][b] == t[a][b] by {
                    lemma_flat_index(n, a, b);
                    lemma_flat_index(n, x as int, y as int);
                }
            }
            assert(self@ =~= t);
        }
    }

    /// Sets every cell from one draw each, taken in storage order: a cell is
    /// alive exactly when its draw is 0.
    pub fn fill_from_draws(&mut self, draws: &Vec<u32>)
        requires
            old(self).wf(),
            draws@.len() == old(self)@.len() * old(self)@.len(),
        ensures
            final(self).wf(),
            final(self)@ == seeded(old(self)@.len(), draws@),
            final(self).origin() == old(self).origin(),
    {
        let n = self.size;
        let mut cells: Vec<bool> = Vec::new();
        let mut i: usize = 0;
        while i < draws.len()
            invariant
                i <= draws@.len(),
                cells@.len() == i,
                forall|k: int| 0 <= k < i ==> #[trigger] cells@[k] == (draws@[k] == 0),
            decreases draws@.len() - i,
        {
            cells.push(draws[i] == 0);
            i += 1;
        }
        self.cells = cells;
        proof {
            let s = seeded(n as nat, draws@);
            assert forall|x: int| 0 <= x < n implies #[trigger] self@[x] =~= s[x] by {
                assert forall|y: int| 0 <= y < n implies #[trigger] self@[x][y] == s[x][y] by {
                    lemma_flat_index(n as int, x, y);
                }
            }
            assert(self@ =~= s);
        }
    }

    /// Sets every cell alive or dead with even odds, from macroquad's global
    /// random generator. Whatever it hands out, the board keeps its size and
    /// place and is some seeding of that size.
    pub fn fill_random(&mut self)
        requires
            old(self).wf(),
        ensures
            final(self).wf(),
            final(self).origin() == old(self).origin(),
            exists|draws: Seq<u32>|
                draws.len() == old(self)@.len() * old(self)@.len() && final(self)@ == seeded(
                    old(self)@.len(),
                    draws,
                ),
    {
        let count = self.size * self.size;
        let mut draws: Vec<u32> = Vec::new();
        let mut i: usize = 0;
        while i < count
            invariant
                i <= count,
                draws@.len() == i,
                forall|k: int| 0 <= k < i ==> #[trigger] draws@[k] < 2,
            decreases count - i,
        {
            draws.push(random_below(2));
            i += 1;
        }
        self.fill_from_draws(&draws);
    }

    /// The pixel at which cell `i` begins along either axis; for `i` equal to
    /// the size, the pixel just past the board's far edge.
    pub fn pixel_start(&self, i: usize) -> (r: usize)
        requires
            self.wf(),
            i <= self@.len(),
        ensures
            r == pixel_start(self.origin(), i as int),
    {
        assert(i * CELL_SIZE <= self.size * CELL_SIZE) by (nonlinear_arith)
            requires
                i <= self.size,
        ;
        self.offset + i * CELL_SIZE
    }

    /// The cell under pixel `(px, py)`, or `None` where that pixel lies off
    /// the board.
    pub fn mouse_to_cell_position(&self, px: i64, py: i64) -> (r: Option<(usize, usize)>)
        requires
            self.wf(),
        ensures
            r == (if on_board(self.origin(), self@.len() as int, px as int, py as int) {
                Some(
                    (
                        cell_index(self.origin(), px as int) as usize,
                        cell_index(self.origin(), py as int) as usize,
                    ),
                )
            } else {
                None
            }),
    {
        if px < 0 || py < 0 {
            return None;
        }
        let origin = self.offset as u64;
        let (ux, uy) = (px as u64, py as u64);
        if ux < origin || uy < origin {
            return None;
        }
        let cx = (ux - origin) / (CELL_SIZE as u64);
        let cy = (uy - origin) / (CELL_SIZE as u64);
        if cx >= self.size as u64 || cy >= self.size as u64 {
            return None;
        }
        Some((cx as usize, cy as usize))
    }
}

} // verus!
