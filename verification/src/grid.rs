//! Mathematical model of the board: grid shape, 8-connected adjacency,
//! and counts of cells with a given property.

use vstd::prelude::*;
use crate::cell::{Cell, CellState};

verus! {

/// Which property of a cell a count is taken over.
pub enum CellTest {
    IsMine,
    IsFlagged,
    IsHidden,
    IsSafeRevealed,
    IsSafe,
}

/// Whether a cell satisfies the given property.
pub open spec fn hits(c: Cell, t: CellTest) -> bool {
    match t {
        CellTest::IsMine => c.is_mine,
        CellTest::IsFlagged => c.state == CellState::Flagged,
        CellTest::IsHidden => c.state == CellState::Hidden,
        CellTest::IsSafeRevealed => c.state == CellState::Revealed && !c.is_mine,
        CellTest::IsSafe => !c.is_mine,
    }
}

/// 1 if the cell satisfies the property, else 0.
pub open spec fn hit_val(c: Cell, t: CellTest) -> int {
    if hits(c, t) { 1 } else { 0 }
}

/// A grid is a sequence of `h` rows, each of width `w`.
pub open spec fn grid_wf(g: Seq<Seq<Cell>>, w: int, h: int) -> bool {
    &&& g.len() == h
    &&& forall|y: int| 0 <= y < h ==> (#[trigger] g[y]).len() == w
}

/// (x, y) lies on a `w` by `h` grid.
pub open spec fn in_bounds(w: int, h: int, x: int, y: int) -> bool {
    0 <= x < w && 0 <= y < h
}

/// (x2, y2) is one of the up-to-8 neighbors of (x1, y1).
pub open spec fn adjacent(x1: int, y1: int, x2: int, y2: int) -> bool {
    &&& -1 <= x2 - x1 <= 1
    &&& -1 <= y2 - y1 <= 1
    &&& !(x1 == x2 && y1 == y2)
}

/// 1 if (x, y) is on the grid and holds a mine, else 0.
pub open spec fn mine_val(g: Seq<Seq<Cell>>, w: int, h: int, x: int, y: int) -> int {
    if in_bounds(w, h, x, y) && g[y][x].is_mine { 1 } else { 0 }
}

/// Number of mines among the up-to-8 neighbors of (x, y), clipped to the grid.
#[verifier::opaque]
pub open spec fn adj_mines(g: Seq<Seq<Cell>>, w: int, h: int, x: int, y: int) -> int {
    mine_val(g, w, h, x - 1, y - 1) + mine_val(g, w, h, x, y - 1) + mine_val(g, w, h, x + 1, y - 1)
        + mine_val(g, w, h, x - 1, y) + mine_val(g, w, h, x + 1, y)
        + mine_val(g, w, h, x - 1, y + 1) + mine_val(g, w, h, x, y + 1)
        + mine_val(g, w, h, x + 1, y + 1)
}

/// A cell with no adjacent mines has no mine among its neighbors.
pub proof fn lemma_zero_adj_no_mine(
    g: Seq<Seq<Cell>>, w: int, h: int, x: int, y: int, a: int, b: int,
)
    requires
        adj_mines(g, w, h, x, y) == 0,
        adjacent(x, y, a, b),
        in_bounds(w, h, a, b),
    ensures
        !g[b][a].is_mine,
{
    reveal(adj_mines);
    assert(mine_val(g, w, h, a, b) == 0);
}

/// Count, among the first `n` cells of a row, of those satisfying `t`.
pub open spec fn row_count_to(row: Seq<Cell>, n: int, t: CellTest) -> int
    decreases n,
{
    if n <= 0 {
        0
    } else {
        row_count_to(row, n - 1, t) + hit_val(row[n - 1], t)
    }
}

/// Count over a whole row.
pub open spec fn row_count(row: Seq<Cell>, t: CellTest) -> int {
    row_count_to(row, row.len() as int, t)
}

/// Count over the first `n` rows of a grid.
pub open spec fn grid_count_to(g: Seq<Seq<Cell>>, n: int, t: CellTest) -> int
    decreases n,
{
    if n <= 0 {
        0
    } else {
        grid_count_to(g, n - 1, t) + row_count(g[n - 1], t)
    }
}

/// Count over the whole grid.
pub open spec fn grid_count(g: Seq<Seq<Cell>>, t: CellTest) -> int {
    grid_count_to(g, g.len() as int, t)
}

pub proof fn lemma_row_count_to_bounds(row: Seq<Cell>, n: int, t: CellTest)
    requires
        0 <= n,
    ensures
        0 <= row_count_to(row, n, t) <= n,
    decreases n,
{
    if n > 0 {
        lemma_row_count_to_bounds(row, n - 1, t);
    }
}

pub proof fn lemma_row_count_to_update(row: Seq<Cell>, i: int, c: Cell, n: int, t: CellTest)
    requires
        0 <= i < row.len(),
        n <= row.len(),
    ensures
        row_count_to(row.update(i, c), n, t) == row_count_to(row, n, t)
            + if i < n { hit_val(c, t) - hit_val(row[i], t) } else { 0 },
    decreases n,
{
    if n > 0 {
        lemma_row_count_to_update(row, i, c, n - 1, t);
    }
}

pub proof fn lemma_row_count_to_agree(r1: Seq<Cell>, r2: Seq<Cell>, n: int, t: CellTest)
    requires
        forall|k: int| 0 <= k < n ==> hits(#[trigger] r1[k], t) == hits(r2[k], t),
    ensures
        row_count_to(r1, n, t) == row_count_to(r2, n, t),
    decreases n,
{
    if n > 0 {
        lemma_row_count_to_agree(r1, r2, n - 1, t);
    }
}

pub proof fn lemma_row_count_to_zero(row: Seq<Cell>, n: int, t: CellTest)
    requires
        forall|k: int| 0 <= k < n ==> !hits(#[trigger] row[k], t),
    ensures
        row_count_to(row, n, t) == 0,
    decreases n,
{
    if n > 0 {
        lemma_row_count_to_zero(row, n - 1, t);
    }
}

pub proof fn lemma_row_count_to_mono(row: Seq<Cell>, n: int, t1: CellTest, t2: CellTest)
    requires
        forall|k: int| 0 <= k < n && hits(#[trigger] row[k], t1) ==> hits(row[k], t2),
    ensures
        row_count_to(row, n, t1) <= row_count_to(row, n, t2),
        (row_count_to(row, n, t1) == row_count_to(row, n, t2)) <==> (forall|k: int|
            0 <= k < n && hits(#[trigger] row[k], t2) ==> hits(row[k], t1)),
    decreases n,
{
    if n > 0 {
        lemma_row_count_to_mono(row, n - 1, t1, t2);
    }
}

pub proof fn lemma_row_count_to_mine_safe(row: Seq<Cell>, n: int)
    requires
        0 <= n,
    ensures
        row_count_to(row, n, CellTest::IsMine) + row_count_to(row, n, CellTest::IsSafe) == n,
    decreases n,
{
    if n > 0 {
        lemma_row_count_to_mine_safe(row, n - 1);
    }
}

pub proof fn lemma_grid_count_to_bounds(g: Seq<Seq<Cell>>, n: int, w: int, t: CellTest)
    requires
        0 <= n <= g.len(),
        0 <= w,
        forall|k: int| 0 <= k < g.len() ==> (#[trigger] g[k]).len() == w,
    ensures
        0 <= grid_count_to(g, n, t) <= n * w,
    decreases n,
{
    if n > 0 {
        lemma_grid_count_to_bounds(g, n - 1, w, t);
        lemma_row_count_to_bounds(g[n - 1], w, t);
        assert((n - 1) * w + w == n * w) by (nonlinear_arith);
    }
}

pub proof fn lemma_grid_count_to_update(
    g: Seq<Seq<Cell>>, x: int, y: int, c: Cell, n: int, t: CellTest,
)
    requires
        0 <= y < g.len(),
        0 <= x < g[y].len(),
        n <= g.len(),
    ensures
        grid_count_to(g.update(y, g[y].update(x, c)), n, t) == grid_count_to(g, n, t)
            + if y < n { hit_val(c, t) - hit_val(g[y][x], t) } else { 0 },
    decreases n,
{
    if n > 0 {
        lemma_grid_count_to_update(g, x, y, c, n - 1, t);
        let g2 = g.update(y, g[y].update(x, c));
        if y == n - 1 {
            assert(g2[n - 1] == g[y].update(x, c));
            lemma_row_count_to_update(g[y], x, c, g[y].len() as int, t);
        } else {
            assert(g2[n - 1] == g[n - 1]);
        }
    }
}

pub proof fn lemma_grid_count_to_agree(g1: Seq<Seq<Cell>>, g2: Seq<Seq<Cell>>, n: int, t: CellTest)
    requires
        n <= g1.len(),
        n <= g2.len(),
        forall|k: int| 0 <= k < n ==> (#[trigger] g1[k]).len() == g2[k].len(),
        forall|k: int, i: int|
            0 <= k < n && 0 <= i < g1[k].len() ==> hits(#[trigger] g1[k][i], t) == hits(g2[k][i], t),
    ensures
        grid_count_to(g1, n, t) == grid_count_to(g2, n, t),
    decreases n,
{
    if n > 0 {
        lemma_grid_count_to_agree(g1, g2, n - 1, t);
        lemma_row_count_to_agree(g1[n - 1], g2[n - 1], g1[n - 1].len() as int, t);
    }
}

pub proof fn lemma_grid_count_to_zero(g: Seq<Seq<Cell>>, n: int, t: CellTest)
    requires
        n <= g.len(),
        forall|k: int, i: int|
            0 <= k < n && 0 <= i < g[k].len() ==> !hits(#[trigger] g[k][i], t),
    ensures
        grid_count_to(g, n, t) == 0,
    decreases n,
{
    if n > 0 {
        lemma_grid_count_to_zero(g, n - 1, t);
        lemma_row_count_to_zero(g[n - 1], g[n - 1].len() as int, t);
    }
}

pub proof fn lemma_grid_count_to_mono(g: Seq<Seq<Cell>>, n: int, t1: CellTest, t2: CellTest)
    requires
        n <= g.len(),
        forall|k: int, i: int|
            0 <= k < n && 0 <= i < g[k].len() && hits(#[trigger] g[k][i], t1) ==> hits(g[k][i], t2),
    ensures
        grid_count_to(g, n, t1) <= grid_count_to(g, n, t2),
        (grid_count_to(g, n, t1) == grid_count_to(g, n, t2)) <==> (forall|k: int, i: int|
            0 <= k < n && 0 <= i < g[k].len() && hits(#[trigger] g[k][i], t2) ==> hits(g[k][i], t1)),
    decreases n,
{
    if n > 0 {
        lemma_grid_count_to_mono(g, n - 1, t1, t2);
        lemma_row_count_to_mono(g[n - 1], g[n - 1].len() as int, t1, t2);
    }
}

/// Every non-mine cell carries the exact count of mines among its neighbors.
pub open spec fn neighbors_ok(g: Seq<Seq<Cell>>, w: int, h: int) -> bool {
    forall|x: int, y: int|
        in_bounds(w, h, x, y) && !(#[trigger] g[y][x]).is_mine
            ==> g[y][x].neighbor_mines == adj_mines(g, w, h, x, y)
}

/// Both grids have the same shape, mine layout, and neighbor counts.
pub open spec fn same_layout(g0: Seq<Seq<Cell>>, g1: Seq<Seq<Cell>>, w: int, h: int) -> bool {
    &&& grid_wf(g0, w, h)
    &&& grid_wf(g1, w, h)
    &&& forall|x: int, y: int|
        in_bounds(w, h, x, y) ==> (#[trigger] g1[y][x]).is_mine == g0[y][x].is_mine
            && g1[y][x].neighbor_mines == g0[y][x].neighbor_mines
}

/// Every state change from `g0` to `g1` turns a Hidden non-mine cell into a
/// Revealed one; Revealed and Flagged cells are untouched.
pub open spec fn only_reveals(g0: Seq<Seq<Cell>>, g1: Seq<Seq<Cell>>, w: int, h: int) -> bool {
    forall|x: int, y: int|
        in_bounds(w, h, x, y) ==> ((#[trigger] g1[y][x]).state == g0[y][x].state || (g0[y][x].state
            == CellState::Hidden && g1[y][x].state == CellState::Revealed && !g0[y][x].is_mine))
}

/// The cell at (x, y) went from Hidden to Revealed.
pub open spec fn newly_revealed(g0: Seq<Seq<Cell>>, g1: Seq<Seq<Cell>>, x: int, y: int) -> bool {
    g0[y][x].state == CellState::Hidden && g1[y][x].state == CellState::Revealed
}

/// No newly revealed zero-neighbor cell has a Hidden neighbor left.
pub open spec fn flood_closed(g0: Seq<Seq<Cell>>, g1: Seq<Seq<Cell>>, w: int, h: int) -> bool {
    forall|x: int, y: int, a: int, b: int|
        #![trigger newly_revealed(g0, g1, x, y), adjacent(x, y, a, b)]
        in_bounds(w, h, x, y) && in_bounds(w, h, a, b) && newly_revealed(g0, g1, x, y)
            && g1[y][x].neighbor_mines == 0 && adjacent(x, y, a, b)
            ==> g1[b][a].state != CellState::Hidden
}

/// Every newly revealed cell other than the seed (sx, sy) borders a newly
/// revealed zero-neighbor cell, so nothing outside the flooded region changed.
pub open spec fn flood_from(
    g0: Seq<Seq<Cell>>, g1: Seq<Seq<Cell>>, w: int, h: int, sx: int, sy: int,
) -> bool {
    forall|x: int, y: int|
        in_bounds(w, h, x, y) && #[trigger] newly_revealed(g0, g1, x, y) && !(x == sx && y == sy)
            ==> exists|a: int, b: int|
                in_bounds(w, h, a, b) && adjacent(a, b, x, y) && newly_revealed(g0, g1, a, b)
                    && g1[b][a].neighbor_mines == 0
}

/// The full relation between the board before and after a successful reveal
/// of the Hidden, non-mine cell (x, y).
pub open spec fn flood_reveal_rel(
    g0: Seq<Seq<Cell>>, g1: Seq<Seq<Cell>>, w: int, h: int, x: int, y: int,
) -> bool {
    &&& same_layout(g0, g1, w, h)
    &&& only_reveals(g0, g1, w, h)
    &&& newly_revealed(g0, g1, x, y)
    &&& flood_closed(g0, g1, w, h)
    &&& flood_from(g0, g1, w, h, x, y)
}

/// Mine layouts that agree cell for cell give the same neighbor counts.
pub proof fn lemma_adj_mines_agree(
    g0: Seq<Seq<Cell>>, g1: Seq<Seq<Cell>>, w: int, h: int, x: int, y: int,
)
    requires
        grid_wf(g0, w, h),
        grid_wf(g1, w, h),
        forall|a: int, b: int|
            in_bounds(w, h, a, b) ==> (#[trigger] g1[b][a]).is_mine == g0[b][a].is_mine,
    ensures
        adj_mines(g1, w, h, x, y) == adj_mines(g0, w, h, x, y),
{
    reveal(adj_mines);
    assert(mine_val(g1, w, h, x - 1, y - 1) == mine_val(g0, w, h, x - 1, y - 1));
    assert(mine_val(g1, w, h, x, y - 1) == mine_val(g0, w, h, x, y - 1));
    assert(mine_val(g1, w, h, x + 1, y - 1) == mine_val(g0, w, h, x + 1, y - 1));
    assert(mine_val(g1, w, h, x - 1, y) == mine_val(g0, w, h, x - 1, y));
    assert(mine_val(g1, w, h, x + 1, y) == mine_val(g0, w, h, x + 1, y));
    assert(mine_val(g1, w, h, x - 1, y + 1) == mine_val(g0, w, h, x - 1, y + 1));
    assert(mine_val(g1, w, h, x, y + 1) == mine_val(g0, w, h, x, y + 1));
    assert(mine_val(g1, w, h, x + 1, y + 1) == mine_val(g0, w, h, x + 1, y + 1));
}

/// Correct neighbor counts carry over to any board with the same layout.
pub proof fn lemma_neighbors_ok_preserved(g0: Seq<Seq<Cell>>, g1: Seq<Seq<Cell>>, w: int, h: int)
    requires
        neighbors_ok(g0, w, h),
        same_layout(g0, g1, w, h),
    ensures
        neighbors_ok(g1, w, h),
{
    assert forall|x: int, y: int|
        in_bounds(w, h, x, y) && !(#[trigger] g1[y][x]).is_mine implies g1[y][x].neighbor_mines
        == adj_mines(g1, w, h, x, y) by {
        lemma_adj_mines_agree(g0, g1, w, h, x, y);
    }
}

pub proof fn lemma_grid_count_to_mine_safe(g: Seq<Seq<Cell>>, n: int, w: int)
    requires
        0 <= n <= g.len(),
        forall|k: int| 0 <= k < g.len() ==> (#[trigger] g[k]).len() == w,
    ensures
        grid_count_to(g, n, CellTest::IsMine) + grid_count_to(g, n, CellTest::IsSafe) == n * w,
    decreases n,
{
    if n > 0 {
        lemma_grid_count_to_mine_safe(g, n - 1, w);
        lemma_row_count_to_mine_safe(g[n - 1], w);
        assert(g[n - 1].len() == w);
        assert((n - 1) * w + w == n * w) by (nonlinear_arith);
    } else {
        assert(n * w == 0) by (nonlinear_arith)
            requires n == 0;
    }
}

} // verus!
