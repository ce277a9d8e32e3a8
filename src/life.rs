//! The mathematical model of a generation: a square grid of booleans indexed
//! `g[x][y]`, with `x` the column and `y` the row. Outside `[0, n)` on either
//! axis there is no cell: the board has a dead border, it does not wrap.
use vstd::prelude::*;

verus! {

/// Every row of `g` is as long as `g` has rows.
pub open spec fn is_square(g: Seq<Seq<bool>>) -> bool {
    forall|x: int| 0 <= x < g.len() ==> (#[trigger] g[x]).len() == g.len()
}

/// Whether `(x, y)` is a cell of `g` and that cell is alive.
pub open spec fn live(g: Seq<Seq<bool>>, x: int, y: int) -> bool {
    0 <= x < g.len() && 0 <= y < g.len() && g[x][y]
}

/// 1 for a live cell, 0 for a dead one or for a position off the board.
pub open spec fn live_bit(g: Seq<Seq<bool>>, x: int, y: int) -> int {
    if live(g, x, y) {
        1
    } else {
        0
    }
}

/// The number of live cells among the eight that surround `(x, y)`.
pub open spec fn live_neighbors(g: Seq<Seq<bool>>, x: int, y: int) -> int {
    live_bit(g, x - 1, y - 1) + live_bit(g, x - 1, y) + live_bit(g, x - 1, y + 1)
        + live_bit(g, x, y - 1) + live_bit(g, x, y + 1)
        + live_bit(g, x + 1, y - 1) + live_bit(g, x + 1, y) + live_bit(g, x + 1, y + 1)
}

/// The rule B3/S23: a live cell survives with two or three live neighbours,
/// a dead cell is born with exactly three.
pub open spec fn next_state(alive: bool, neighbors: int) -> bool {
    (alive && neighbors == 2) || neighbors == 3
}

/// The next generation of `g`, every cell computed from `g` alone.
pub open spec fn step(g: Seq<Seq<bool>>) -> Seq<Seq<bool>> {
    Seq::new(
        g.len(),
        |x: int| Seq::new(g.len(), |y: int| next_state(live(g, x, y), live_neighbors(g, x, y))),
    )
}

/// An `n` by `n` grid with every cell dead.
pub open spec fn all_dead(n: nat) -> Seq<Seq<bool>> {
    Seq::new(n, |x: int| Seq::new(n, |y: int| false))
}

/// An `n` by `n` grid whose live cells are exactly those for which `alive` holds.
pub open spec fn pattern(n: nat, alive: spec_fn(int, int) -> bool) -> Seq<Seq<bool>> {
    Seq::new(n, |x: int| Seq::new(n, |y: int| alive(x, y)))
}

/// `g` with the cell `(x, y)` flipped.
pub open spec fn toggled(g: Seq<Seq<bool>>, x: int, y: int) -> Seq<Seq<bool>> {
    g.update(x, g[x].update(y, !g[x][y]))
}

/// The 2x2 block whose top-left cell is `(i, j)`.
pub open spec fn block(n: nat, i: int, j: int) -> Seq<Seq<bool>> {
    pattern(n, |x: int, y: int| (x == i || x == i + 1) && (y == j || y == j + 1))
}

/// Three cells in a row along the x axis, centred on `(i, j)`.
pub open spec fn blinker_horizontal(n: nat, i: int, j: int) -> Seq<Seq<bool>> {
    pattern(n, |x: int, y: int| y == j && i - 1 <= x <= i + 1)
}

/// Three cells in a column along the y axis, centred on `(i, j)`.
pub open spec fn blinker_vertical(n: nat, i: int, j: int) -> Seq<Seq<bool>> {
    pattern(n, |x: int, y: int| x == i && j - 1 <= y <= j + 1)
}

/// An `n` by `n` grid whose only live cell is `(i, j)`.
pub open spec fn single(n: nat, i: int, j: int) -> Seq<Seq<bool>> {
    pattern(n, |x: int, y: int| x == i && y == j)
}

/// An all-dead board stays all dead, whatever its size.
pub proof fn lemma_empty_is_still(n: nat)
    ensures
        step(all_dead(n)) == all_dead(n),
{
    let g = all_dead(n);
    assert forall|x: int| 0 <= x < n implies #[trigger] step(g)[x] =~= all_dead(n)[x] by {
        assert forall|y: int| 0 <= y < n implies !#[trigger] step(g)[x][y] by {
            assert(live_neighbors(g, x, y) == 0);
        }
    }
    assert(step(g) =~= all_dead(n));
}

/// A 2x2 block is a still life: one step leaves it as it was.
pub proof fn lemma_block_is_still(n: nat, i: int, j: int)
    requires
        1 <= i,
        1 <= j,
        i + 2 < n,
        j + 2 < n,
    ensures
        step(block(n, i, j)) == block(n, i, j),
{
    let g = block(n, i, j);
    assert forall|x: int| 0 <= x < n implies #[trigger] step(g)[x] =~= g[x] by {
        assert forall|y: int| 0 <= y < n implies #[trigger] step(g)[x][y] == g[x][y] by {}
    }
    assert(step(g) =~= g);
}

/// A horizontal blinker turns vertical after one step.
pub proof fn lemma_blinker_turns(n: nat, i: int, j: int)
    requires
        1 <= i,
        1 <= j,
        i + 1 < n,
        j + 1 < n,
    ensures
        step(blinker_horizontal(n, i, j)) == blinker_vertical(n, i, j),
{
    let g = blinker_horizontal(n, i, j);
    let h = blinker_vertical(n, i, j);
    assert forall|x: int| 0 <= x < n implies #[trigger] step(g)[x] =~= h[x] by {
        assert forall|y: int| 0 <= y < n implies #[trigger] step(g)[x][y] == h[x][y] by {}
    }
    assert(step(g) =~= h);
}

/// A vertical blinker turns horizontal after one step.
pub proof fn lemma_blinker_turns_back(n: nat, i: int, j: int)
    requires
        1 <= i,
        1 <= j,
        i + 1 < n,
        j + 1 < n,
    ensures
        step(blinker_vertical(n, i, j)) == blinker_horizontal(n, i, j),
{
    let g = blinker_vertical(n, i, j);
    let h = blinker_horizontal(n, i, j);
    assert forall|x: int| 0 <= x < n implies #[trigger] step(g)[x] =~= h[x] by {
        assert forall|y: int| 0 <= y < n implies #[trigger] step(g)[x][y] == h[x][y] by {}
    }
    assert(step(g) =~= h);
}

/// A blinker away from the border alternates between its two orientations
/// and is back where it started after exactly two steps.
pub proof fn lemma_blinker_period_two(n: nat, i: int, j: int)
    requires
        1 <= i,
        1 <= j,
        i + 1 < n,
        j + 1 < n,
    ensures
        step(blinker_horizontal(n, i, j)) == blinker_vertical(n, i, j),
        step(blinker_horizontal(n, i, j)) != blinker_horizontal(n, i, j),
        step(step(blinker_horizontal(n, i, j))) == blinker_horizontal(n, i, j),
{
    lemma_blinker_turns(n, i, j);
    lemma_blinker_turns_back(n, i, j);
    let h = blinker_horizontal(n, i, j);
    let v = blinker_vertical(n, i, j);
    assert(h[i - 1][j] && !v[i - 1][j]);
}

/// A lone live cell in the corner has no neighbours, since the board does not
/// wrap, and dies after one step.
pub proof fn lemma_corner_cell_dies(n: nat)
    requires
        n >= 1,
    ensures
        step(single(n, 0, 0)) == all_dead(n),
{
    let g = single(n, 0, 0);
    assert forall|x: int| 0 <= x < n implies #[trigger] step(g)[x] =~= all_dead(n)[x] by {
        assert forall|y: int| 0 <= y < n implies !#[trigger] step(g)[x][y] by {
            assert(live_neighbors(g, x, y) <= 1);
        }
    }
    assert(step(g) =~= all_dead(n));
}

/// Flipping the same cell twice gives back the grid one started from.
pub proof fn lemma_toggle_twice(g: Seq<Seq<bool>>, x: int, y: int)
    requires
        is_square(g),
        0 <= x < g.len(),
        0 <= y < g.len(),
    ensures
        toggled(toggled(g, x, y), x, y) == g,
{
    let t = toggled(toggled(g, x, y), x, y);
    assert forall|i: int| 0 <= i < g.len() implies #[trigger] t[i] =~= g[i] by {}
    assert(t =~= g);
}

} // verus!
