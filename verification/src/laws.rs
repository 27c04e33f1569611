//! The engine's global laws, stated and proved once over the specs that the
//! methods' contracts use.

use vstd::prelude::*;
use crate::cell::{Cell, CellState};
use crate::game::Game;
use crate::grid::{
    adjacent, adj_mines, flood_reveal_rel, grid_count, grid_wf, in_bounds, newly_revealed,
    neighbors_ok, CellTest, lemma_grid_count_to_mine_safe, lemma_grid_count_to_mono,
};

verus! {

/// Mine count invariant: every well-formed board holds exactly `mines` mines.
pub proof fn lemma_mine_count(g: Game)
    requires
        g.wf(),
    ensures
        grid_count(g.grid(), CellTest::IsMine) == g.mines,
{
}

/// Neighbor count correctness: on a well-formed board, every non-mine cell
/// carries the exact number of mines among its up-to-8 neighbors.
pub proof fn lemma_neighbor_counts(g: Game, x: int, y: int)
    requires
        g.wf(),
        in_bounds(g.width as int, g.height as int, x, y),
        !g.grid()[y][x].is_mine,
    ensures
        g.grid()[y][x].neighbor_mines == adj_mines(
            g.grid(), g.width as int, g.height as int, x, y,
        ),
{
}

/// Flag budget: the number of placed flags never exceeds the mine count.
pub proof fn lemma_flag_budget(g: Game)
    requires
        g.wf(),
    ensures
        g.flags <= g.mines,
        g.flags == grid_count(g.grid(), CellTest::IsFlagged),
{
}

/// Victory condition: on a board with exactly `m` mines, the revealed-safe
/// count reaches `w * h - m` exactly when every non-mine cell is Revealed;
/// cell flags (in particular flags on mines) play no part.
pub proof fn lemma_victory_condition(g: Seq<Seq<Cell>>, w: int, h: int, m: int)
    requires
        grid_wf(g, w, h),
        grid_count(g, CellTest::IsMine) == m,
    ensures
        (grid_count(g, CellTest::IsSafeRevealed) == w * h - m) <==> (forall|x: int, y: int|
            in_bounds(w, h, x, y) && !(#[trigger] g[y][x]).is_mine ==> g[y][x].state
                == CellState::Revealed),
{
    lemma_grid_count_to_mine_safe(g, h, w);
    lemma_grid_count_to_mono(g, h, CellTest::IsSafeRevealed, CellTest::IsSafe);
    assert(h * w == w * h) by (nonlinear_arith);
}

/// In any well-formed engine state that has recorded victory, every
/// non-mine cell is Revealed.
pub proof fn lemma_victory_all_safe_revealed(g: Game)
    requires
        g.wf(),
        g.victory,
    ensures
        forall|x: int, y: int|
            in_bounds(g.width as int, g.height as int, x, y) && !(#[trigger] g.grid()[y][x]).is_mine
                ==> g.grid()[y][x].state == CellState::Revealed,
{
    lemma_victory_condition(g.grid(), g.width as int, g.height as int, g.mines as int);
}

/// Time freezing: once the game has ended, the reported elapsed time no
/// longer depends on the clock.
pub proof fn lemma_time_frozen(g: Game, now1: u64, now2: u64)
    requires
        g.wf(),
        g.is_over(),
    ensures
        g.elapsed_spec(now1) == g.elapsed_spec(now2),
{
}

/// Flood-fill completeness: after a reveal related to the old board by
/// `flood_reveal_rel`, every cell reachable from the seed along a chain of
/// formerly Hidden zero-neighbor cells is Revealed, and so is each formerly
/// Hidden cell on the one-cell ring around that chain.
pub proof fn lemma_flood_completeness(
    g0: Seq<Seq<Cell>>, g1: Seq<Seq<Cell>>, w: int, h: int, x: int, y: int,
    path: Seq<(int, int)>, a: int, b: int,
)
    requires
        neighbors_ok(g0, w, h),
        flood_reveal_rel(g0, g1, w, h, x, y),
        path.len() > 0,
        path[0] == (x, y),
        forall|k: int|
            0 <= k < path.len() ==> in_bounds(w, h, (#[trigger] path[k]).0, path[k].1)
                && g0[path[k].1][path[k].0].state == CellState::Hidden
                && g0[path[k].1][path[k].0].neighbor_mines == 0,
        forall|k: int|
            0 <= k < path.len() - 1 ==> adjacent(
                (#[trigger] path[k]).0, path[k].1, path[k + 1].0, path[k + 1].1,
            ),
        in_bounds(w, h, a, b),
        g0[b][a].state == CellState::Hidden,
        (a, b) == path[path.len() - 1] || adjacent(path[path.len() - 1].0, path[path.len() - 1].1, a, b),
    ensures
        g1[b][a].state == CellState::Revealed,
    decreases path.len(),
{
    let lx = path[path.len() - 1].0;
    let ly = path[path.len() - 1].1;
    if path.len() == 1 {
        assert(newly_revealed(g0, g1, x, y));
    } else {
        let prefix = path.take(path.len() - 1);
        assert(prefix[0] == (x, y));
        assert(forall|k: int|
            0 <= k < prefix.len() ==> #[trigger] prefix[k] == path[k]);
        lemma_flood_completeness(g0, g1, w, h, x, y, prefix, lx, ly);
    }
    // The last path cell is newly revealed and has no adjacent mines, so the
    // closure of the flood leaves no Hidden neighbor of it.
    assert(newly_revealed(g0, g1, lx, ly));
    assert(g1[ly][lx].neighbor_mines == 0);
    if !((a, b) == path[path.len() - 1]) {
        assert(adjacent(lx, ly, a, b));
        assert(g1[b][a].state != CellState::Hidden);
    }
}

} // verus!
