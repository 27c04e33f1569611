//! The game engine: a board of cells plus the session state of one game.

use vstd::prelude::*;
use crate::cell::{Cell, CellState};
use crate::grid::{
    adjacent, adj_mines, flood_closed, flood_from, flood_reveal_rel, grid_count, grid_count_to,
    grid_wf, in_bounds, newly_revealed, only_reveals, row_count_to, same_layout, neighbors_ok,
    CellTest, lemma_adj_mines_agree, lemma_grid_count_to_agree, lemma_grid_count_to_bounds,
    lemma_grid_count_to_mine_safe, lemma_grid_count_to_update, lemma_grid_count_to_zero,
    lemma_neighbors_ok_preserved, lemma_row_count_to_bounds, lemma_zero_adj_no_mine,
};
use crate::rng::random_below;

verus! {

/// One game: the board plus cursor, terminal flags, timestamps, and the
/// number of flags currently placed. Timestamps are monotonic-clock readings
/// in seconds, handed in by the caller at each interaction.
pub struct Game {
    pub width: usize,
    pub height: usize,
    pub mines: usize,
    pub cells: Vec<Vec<Cell>>,
    pub cursor_x: usize,
    pub cursor_y: usize,
    pub game_over: bool,
    pub victory: bool,
    pub start_time: Option<u64>,
    pub end_time: Option<u64>,
    pub flags: usize,
}

/// The mathematical view of a vector of rows.
pub open spec fn rows_view(rows: Seq<Vec<Cell>>) -> Seq<Seq<Cell>> {
    rows.map_values(|r: Vec<Cell>| r@)
}

impl Game {
    /// The board as a sequence of rows of cells.
    pub open spec fn grid(self) -> Seq<Seq<Cell>> {
        rows_view(self.cells@)
    }

    /// The board has positive dimensions that fit the machine, a mine target
    /// no larger than the board, and `height` rows of `width` cells.
    pub open spec fn wf_dims(self) -> bool {
        &&& self.width > 0
        &&& self.height > 0
        &&& self.width * self.height <= usize::MAX
        &&& self.mines <= self.width * self.height
        &&& grid_wf(self.grid(), self.width as int, self.height as int)
    }

    /// The engine invariant: exactly `mines` mines, correct neighbor counts,
    /// `flags` Flagged cells within the budget, the cursor on the board,
    /// at most one terminal flag set, and a recorded end time once a game
    /// has ended. Once victory holds, every safe cell is Revealed.
    pub open spec fn wf(self) -> bool {
        &&& self.wf_dims()
        &&& grid_count(self.grid(), CellTest::IsMine) == self.mines
        &&& neighbors_ok(self.grid(), self.width as int, self.height as int)
        &&& self.flags == grid_count(self.grid(), CellTest::IsFlagged)
        &&& self.flags <= self.mines
        &&& self.cursor_x < self.width
        &&& self.cursor_y < self.height
        &&& !(self.game_over && self.victory)
        &&& (self.game_over || self.victory) ==> self.end_time is Some
        &&& self.victory ==> grid_count(self.grid(), CellTest::IsSafeRevealed)
            == self.width * self.height - self.mines
    }

    /// A terminal state: no board-mutating command has any effect.
    pub open spec fn is_over(self) -> bool {
        self.game_over || self.victory
    }

    /// The elapsed seconds reported at clock reading `now`: zero before the
    /// first interaction, running while the game is live, frozen at the
    /// recorded end once the game has ended.
    pub open spec fn elapsed_spec(self, now: u64) -> u64 {
        match self.start_time {
            None => 0u64,
            Some(s) => match self.end_time {
                None => if now >= s { (now - s) as u64 } else { 0u64 },
                Some(e) => if e >= s { (e - s) as u64 } else { 0u64 },
            },
        }
    }

    /// Read one cell of the board.
    pub fn get_cell(&self, x: usize, y: usize) -> (c: Cell)
        requires
            y < self.grid().len(),
            x < self.grid()[y as int].len(),
        ensures
            c == self.grid()[y as int][x as int],
    {
        proof {
            assert(self.cells@.len() == self.grid().len());
            assert(self.cells@[y as int]@ == self.grid()[y as int]);
        }
        self.cells[y][x]
    }

    /// Returns the elapsed seconds at clock reading `now`.
    pub fn get_elapsed_time(&self, now: u64) -> (t: u64)
        ensures
            t == self.elapsed_spec(now),
    {
        match (self.start_time, self.end_time) {
            (None, _) => 0,
            (Some(s), None) => if now >= s { now - s } else { 0 },
            (Some(s), Some(e)) => if e >= s { e - s } else { 0 },
        }
    }

    /// Moves the cursor one cell up unless at the edge or the game is over.
    pub fn move_up(&mut self)
        requires
            old(self).wf(),
        ensures
            final(self).wf(),
            final(self).cursor_y == if !old(self).is_over() && old(self).cursor_y > 0 {
                (old(self).cursor_y - 1) as usize
            } else {
                old(self).cursor_y
            },
            *final(self) == (Game { cursor_y: final(self).cursor_y, ..*old(self) }),
    {
        if !self.game_over && !self.victory && self.cursor_y > 0 {
            self.cursor_y = self.cursor_y - 1;
        }
    }

    /// Moves the cursor one cell down unless at the edge or the game is over.
    pub fn move_down(&mut self)
        requires
            old(self).wf(),
        ensures
            final(self).wf(),
            final(self).cursor_y == if !old(self).is_over() && old(self).cursor_y + 1 < old(self).height {
                (old(self).cursor_y + 1) as usize
            } else {
                old(self).cursor_y
            },
            *final(self) == (Game { cursor_y: final(self).cursor_y, ..*old(self) }),
    {
        if !self.game_over && !self.victory && self.cursor_y + 1 < self.height {
            self.cursor_y = self.cursor_y + 1;
        }
    }

    /// Moves the cursor one cell left unless at the edge or the game is over.
    pub fn move_left(&mut self)
        requires
            old(self).wf(),
        ensures
            final(self).wf(),
            final(self).cursor_x == if !old(self).is_over() && old(self).cursor_x > 0 {
                (old(self).cursor_x - 1) as usize
            } else {
                old(self).cursor_x
            },
            *final(self) == (Game { cursor_x: final(self).cursor_x, ..*old(self) }),
    {
        if !self.game_over && !self.victory && self.cursor_x > 0 {
            self.cursor_x = self.cursor_x - 1;
        }
    }

    /// Moves the cursor one cell right unless at the edge or the game is over.
    pub fn move_right(&mut self)
        requires
            old(self).wf(),
        ensures
            final(self).wf(),
            final(self).cursor_x == if !old(self).is_over() && old(self).cursor_x + 1 < old(self).width {
                (old(self).cursor_x + 1) as usize
            } else {
                old(self).cursor_x
            },
            *final(self) == (Game { cursor_x: final(self).cursor_x, ..*old(self) }),
    {
        if !self.game_over && !self.victory && self.cursor_x + 1 < self.width {
            self.cursor_x = self.cursor_x + 1;
        }
    }
}

impl Game {
    /// Counts the mines among the up-to-8 neighbors of (x, y).
    pub fn count_adjacent_mines(&self, x: usize, y: usize) -> (n: u8)
        requires
            grid_wf(self.grid(), self.width as int, self.height as int),
            x < self.width,
            y < self.height,
        ensures
            n as int == adj_mines(
                self.grid(), self.width as int, self.height as int, x as int, y as int,
            ),
            n <= 8,
    {
        proof {
            reveal(adj_mines);
        }
        let mut n: u8 = 0;
        if x > 0 && y > 0 && self.get_cell(x - 1, y - 1).is_mine {
            n = n + 1;
        }
        if y > 0 && self.get_cell(x, y - 1).is_mine {
            n = n + 1;
        }
        if x + 1 < self.width && y > 0 && self.get_cell(x + 1, y - 1).is_mine {
            n = n + 1;
        }
        if x > 0 && self.get_cell(x - 1, y).is_mine {
            n = n + 1;
        }
        if x + 1 < self.width && self.get_cell(x + 1, y).is_mine {
            n = n + 1;
        }
        if x > 0 && y + 1 < self.height && self.get_cell(x - 1, y + 1).is_mine {
            n = n + 1;
        }
        if y + 1 < self.height && self.get_cell(x, y + 1).is_mine {
            n = n + 1;
        }
        if x + 1 < self.width && y + 1 < self.height && self.get_cell(x + 1, y + 1).is_mine {
            n = n + 1;
        }
        n
    }

    /// Recomputes `neighbor_mines` for every non-mine cell from the current
    /// mine layout; mine cells and all cell states are left as they were.
    #[verifier::loop_isolation(false)]
    pub fn calculate_neighbors(&mut self)
        requires
            old(self).wf_dims(),
        ensures
            final(self).wf_dims(),
            *final(self) == (Game { cells: final(self).cells, ..*old(self) }),
            forall|i: int, j: int|
                in_bounds(old(self).width as int, old(self).height as int, i, j)
                    ==> (#[trigger] final(self).grid()[j][i]).is_mine == old(self).grid()[j][i].is_mine
                    && final(self).grid()[j][i].state == old(self).grid()[j][i].state,
            forall|i: int, j: int|
                in_bounds(old(self).width as int, old(self).height as int, i, j)
                    && (#[trigger] old(self).grid()[j][i]).is_mine
                    ==> final(self).grid()[j][i] == old(self).grid()[j][i],
            neighbors_ok(final(self).grid(), old(self).width as int, old(self).height as int),
    {
        let ghost g0 = old(self).grid();
        let ghost w = old(self).width as int;
        let ghost h = old(self).height as int;
        let mut y: usize = 0;
        while y < self.height
            invariant
                y <= self.height,
                *self == (Game { cells: self.cells, ..*old(self) }),
                grid_wf(self.grid(), w, h),
                forall|i: int, j: int|
                    in_bounds(w, h, i, j) ==> (#[trigger] self.grid()[j][i]).is_mine
                        == g0[j][i].is_mine && self.grid()[j][i].state == g0[j][i].state,
                forall|i: int, j: int|
                    in_bounds(w, h, i, j) && j >= y ==> #[trigger] self.grid()[j][i] == g0[j][i],
                forall|i: int, j: int|
                    in_bounds(w, h, i, j) && j < y && (#[trigger] g0[j][i]).is_mine
                        ==> self.grid()[j][i] == g0[j][i],
                forall|i: int, j: int|
                    in_bounds(w, h, i, j) && j < y && !(#[trigger] g0[j][i]).is_mine
                        ==> self.grid()[j][i].neighbor_mines == adj_mines(g0, w, h, i, j),
            decreases self.height - y,
        {
            let mut x: usize = 0;
            while x < self.width
                invariant
                    x <= self.width,
                    y < self.height,
                    *self == (Game { cells: self.cells, ..*old(self) }),
                    grid_wf(self.grid(), w, h),
                    forall|i: int, j: int|
                        in_bounds(w, h, i, j) ==> (#[trigger] self.grid()[j][i]).is_mine
                            == g0[j][i].is_mine && self.grid()[j][i].state == g0[j][i].state,
                    forall|i: int, j: int|
                        in_bounds(w, h, i, j) && j > y ==> #[trigger] self.grid()[j][i]
                            == g0[j][i],
                    forall|i: int|
                        x <= i < w ==> #[trigger] self.grid()[y as int][i] == g0[y as int][i],
                    forall|i: int, j: int|
                        in_bounds(w, h, i, j) && (j < y || (j == y && i < x))
                            && (#[trigger] g0[j][i]).is_mine ==> self.grid()[j][i] == g0[j][i],
                    forall|i: int, j: int|
                        in_bounds(w, h, i, j) && (j < y || (j == y && i < x))
                            && !(#[trigger] g0[j][i]).is_mine
                            ==> self.grid()[j][i].neighbor_mines == adj_mines(g0, w, h, i, j),
                decreases self.width - x,
            {
                let c = self.get_cell(x, y);
                if !c.is_mine {
                    let n = self.count_adjacent_mines(x, y);
                    proof {
                        lemma_adj_mines_agree(self.grid(), g0, w, h, x as int, y as int);
                    }
                    let ghost gprev = self.grid();
                    grid_set(
                        &mut self.cells,
                        x,
                        y,
                        Cell { is_mine: c.is_mine, state: c.state, neighbor_mines: n },
                    );
                    proof {
                        assert(self.grid() == gprev.update(
                            y as int,
                            gprev[y as int].update(
                                x as int,
                                Cell { is_mine: c.is_mine, state: c.state, neighbor_mines: n },
                            ),
                        ));
                        assert(forall|j: int|
                            0 <= j < h && j != y ==> #[trigger] self.grid()[j] == gprev[j]);
                        assert(self.grid()[y as int].len() == gprev[y as int].len());
                    }
                }
                x = x + 1;
            }
            y = y + 1;
        }
        proof {
            assert forall|i: int, j: int|
                in_bounds(w, h, i, j) && !(#[trigger] self.grid()[j][i]).is_mine
                implies self.grid()[j][i].neighbor_mines == adj_mines(self.grid(), w, h, i, j) by {
                lemma_adj_mines_agree(g0, self.grid(), w, h, i, j);
            }
        }
    }

    /// Returns the position of the `r`-th mine-free cell in row-major order.
    #[verifier::loop_isolation(false)]
    fn nth_free_cell(&self, r: usize) -> (p: (usize, usize))
        requires
            grid_wf(self.grid(), self.width as int, self.height as int),
            r < grid_count(self.grid(), CellTest::IsSafe),
        ensures
            in_bounds(self.width as int, self.height as int, p.0 as int, p.1 as int),
            !self.grid()[p.1 as int][p.0 as int].is_mine,
    {
        let ghost g = self.grid();
        let ghost w = self.width as int;
        let ghost h = self.height as int;
        let mut seen: usize = 0;
        let mut y: usize = 0;
        while y < self.height
            invariant
                y <= self.height,
                seen <= r,
                seen == grid_count_to(g, y as int, CellTest::IsSafe),
            decreases self.height - y,
        {
            let mut x: usize = 0;
            while x < self.width
                invariant
                    y < self.height,
                    x <= self.width,
                    seen <= r,
                    seen == grid_count_to(g, y as int, CellTest::IsSafe)
                        + row_count_to(g[y as int], x as int, CellTest::IsSafe),
                decreases self.width - x,
            {
                let c = self.get_cell(x, y);
                if !c.is_mine {
                    if seen == r {
                        return (x, y);
                    }
                    seen = seen + 1;
                }
                x = x + 1;
            }
            proof {
                assert(g[y as int].len() == w);
            }
            y = y + 1;
        }
        proof {
            assert(seen == grid_count(g, CellTest::IsSafe));
            assert(false);
        }
        (0, 0)
    }

    /// Places exactly `mines` mines, each drawn uniformly at random from the
    /// cells that are still free, so the layout is a uniform sample of
    /// `mines` distinct cells. States and neighbor counts are untouched.
    #[verifier::loop_isolation(false)]
    pub fn place_mines(&mut self)
        requires
            old(self).wf_dims(),
            grid_count(old(self).grid(), CellTest::IsMine) == 0,
        ensures
            final(self).wf_dims(),
            *final(self) == (Game { cells: final(self).cells, ..*old(self) }),
            grid_count(final(self).grid(), CellTest::IsMine) == final(self).mines,
            forall|i: int, j: int|
                in_bounds(old(self).width as int, old(self).height as int, i, j)
                    ==> (#[trigger] final(self).grid()[j][i]).state == old(self).grid()[j][i].state
                    && final(self).grid()[j][i].neighbor_mines
                        == old(self).grid()[j][i].neighbor_mines,
    {
        let ghost g0 = old(self).grid();
        let ghost w = old(self).width as int;
        let ghost h = old(self).height as int;
        let mut placed: usize = 0;
        while placed < self.mines
            invariant
                placed <= self.mines,
                *self == (Game { cells: self.cells, ..*old(self) }),
                grid_wf(self.grid(), w, h),
                grid_count(self.grid(), CellTest::IsMine) == placed,
                forall|i: int, j: int|
                    in_bounds(w, h, i, j) ==> (#[trigger] self.grid()[j][i]).state
                        == g0[j][i].state && self.grid()[j][i].neighbor_mines
                        == g0[j][i].neighbor_mines,
            decreases self.mines - placed,
        {
            proof {
                lemma_grid_count_to_mine_safe(self.grid(), h, w);
                assert(h * w == w * h) by (nonlinear_arith);
            }
            let free = self.width * self.height - placed;
            let r = random_below(free);
            let p = self.nth_free_cell(r);
            let x = p.0;
            let y = p.1;
            let c = self.get_cell(x, y);
            let ghost gprev = self.grid();
            let newc = Cell { is_mine: true, state: c.state, neighbor_mines: c.neighbor_mines };
            grid_set(&mut self.cells, x, y, newc);
            proof {
                lemma_grid_count_to_update(gprev, x as int, y as int, newc, h, CellTest::IsMine);
                assert(forall|j: int|
                    0 <= j < h && j != y ==> #[trigger] self.grid()[j] == gprev[j]);
                assert(self.grid()[y as int].len() == gprev[y as int].len());
            }
            placed = placed + 1;
        }
    }

    /// Builds a fresh board: `mines` mines placed uniformly at random without
    /// replacement, neighbor counts computed, every cell Hidden, the cursor at
    /// the origin, no flags, and the clock not yet started.
    pub fn new(width: usize, height: usize, mines: usize) -> (g: Game)
        requires
            width > 0,
            height > 0,
            mines <= width * height,
            width * height <= usize::MAX,
        ensures
            g.wf(),
            g.width == width,
            g.height == height,
            g.mines == mines,
            g.cursor_x == 0,
            g.cursor_y == 0,
            !g.game_over,
            !g.victory,
            g.start_time is None,
            g.end_time is None,
            g.flags == 0,
            forall|i: int, j: int|
                in_bounds(width as int, height as int, i, j)
                    ==> (#[trigger] g.grid()[j][i]).state == CellState::Hidden,
    {
        let mut game = Game::blank(width, height, mines);
        proof {
            lemma_grid_count_to_zero(game.grid(), height as int, CellTest::IsMine);
        }
        game.place_mines();
        let ghost gmid = game.grid();
        game.calculate_neighbors();
        proof {
            lemma_grid_count_to_agree(game.grid(), gmid, height as int, CellTest::IsMine);
            lemma_grid_count_to_zero(game.grid(), height as int, CellTest::IsFlagged);
        }
        game
    }

    /// Builds an all-Hidden board with no mines and fresh session state.
    #[verifier::loop_isolation(false)]
    fn blank(width: usize, height: usize, mines: usize) -> (g: Game)
        requires
            width > 0,
            height > 0,
            mines <= width * height,
            width * height <= usize::MAX,
        ensures
            g.wf_dims(),
            g.width == width,
            g.height == height,
            g.mines == mines,
            g.cursor_x == 0,
            g.cursor_y == 0,
            !g.game_over,
            !g.victory,
            g.start_time is None,
            g.end_time is None,
            g.flags == 0,
            forall|i: int, j: int|
                in_bounds(width as int, height as int, i, j) ==> #[trigger] g.grid()[j][i]
                    == (Cell { is_mine: false, state: CellState::Hidden, neighbor_mines: 0 }),
    {
        let blank_cell = Cell { is_mine: false, state: CellState::Hidden, neighbor_mines: 0 };
        let mut cells: Vec<Vec<Cell>> = Vec::new();
        let mut y: usize = 0;
        while y < height
            invariant
                y <= height,
                cells@.len() == y,
                forall|j: int| 0 <= j < y ==> (#[trigger] cells@[j])@.len() == width,
                forall|j: int, i: int|
                    0 <= j < y && 0 <= i < width ==> #[trigger] cells@[j]@[i] == (Cell {
                        is_mine: false,
                        state: CellState::Hidden,
                        neighbor_mines: 0,
                    }),
            decreases height - y,
        {
            let mut row: Vec<Cell> = Vec::new();
            let mut i: usize = 0;
            while i < width
                invariant
                    i <= width,
                    row@.len() == i,
                    forall|k: int|
                        0 <= k < i ==> #[trigger] row@[k] == (Cell {
                            is_mine: false,
                            state: CellState::Hidden,
                            neighbor_mines: 0,
                        }),
                decreases width - i,
            {
                row.push(blank_cell);
                i = i + 1;
            }
            cells.push(row);
            y = y + 1;
        }
        Game {
            width,
            height,
            mines,
            cells,
            cursor_x: 0,
            cursor_y: 0,
            game_over: false,
            victory: false,
            start_time: None,
            end_time: None,
            flags: 0,
        }
    }
}

/// The worklist holds (a, b).
pub open spec fn stack_has(s: Seq<(usize, usize)>, a: int, b: int) -> bool {
    exists|k: int| 0 <= k < s.len() && (#[trigger] s[k]).0 == a && s[k].1 == b
}

/// (a, b) borders a cell that this reveal has already opened and that has no
/// adjacent mines, so the flood fill is right to visit it.
pub open spec fn justified(
    g0: Seq<Seq<Cell>>, g1: Seq<Seq<Cell>>, w: int, h: int, a: int, b: int,
) -> bool {
    exists|i: int, j: int|
        in_bounds(w, h, i, j) && adjacent(i, j, a, b) && newly_revealed(g0, g1, i, j)
            && g1[j][i].neighbor_mines == 0
}

impl Game {
    /// Builds a board with mines at exactly the given distinct positions:
    /// the deterministic counterpart of `new`.
    #[verifier::loop_isolation(false)]
    pub fn with_mines(width: usize, height: usize, mine_list: &Vec<(usize, usize)>) -> (g: Game)
        requires
            width > 0,
            height > 0,
            width * height <= usize::MAX,
            mine_list@.len() <= width * height,
            forall|k: int|
                0 <= k < mine_list@.len() ==> in_bounds(
                    width as int, height as int,
                    (#[trigger] mine_list@[k]).0 as int, mine_list@[k].1 as int,
                ),
            forall|k1: int, k2: int|
                #![trigger mine_list@[k1], mine_list@[k2]]
                0 <= k1 < k2 < mine_list@.len() ==> mine_list@[k1] != mine_list@[k2],
        ensures
            g.wf(),
            g.width == width,
            g.height == height,
            g.mines == mine_list@.len(),
            g.cursor_x == 0,
            g.cursor_y == 0,
            !g.game_over,
            !g.victory,
            g.start_time is None,
            g.end_time is None,
            g.flags == 0,
            forall|i: int, j: int|
                in_bounds(width as int, height as int, i, j)
                    ==> (#[trigger] g.grid()[j][i]).state == CellState::Hidden,
            forall|i: int, j: int|
                in_bounds(width as int, height as int, i, j)
                    ==> ((#[trigger] g.grid()[j][i]).is_mine <==> exists|k: int|
                        0 <= k < mine_list@.len() && (#[trigger] mine_list@[k]).0 == i
                            && mine_list@[k].1 == j),
    {
        let ghost w = width as int;
        let ghost h = height as int;
        let mut game = Game::blank(width, height, mine_list.len());
        proof {
            lemma_grid_count_to_zero(game.grid(), h, CellTest::IsMine);
        }
        let mut k: usize = 0;
        while k < mine_list.len()
            invariant
                k <= mine_list@.len(),
                game.width == width,
                game.height == height,
                game.mines == mine_list@.len(),
                game.cursor_x == 0,
                game.cursor_y == 0,
                !game.game_over,
                !game.victory,
                game.start_time is None,
                game.end_time is None,
                game.flags == 0,
                grid_wf(game.grid(), w, h),
                grid_count(game.grid(), CellTest::IsMine) == k,
                forall|i: int, j: int|
                    in_bounds(w, h, i, j) ==> (#[trigger] game.grid()[j][i]).state
                        == CellState::Hidden && game.grid()[j][i].neighbor_mines == 0,
                forall|i: int, j: int|
                    in_bounds(w, h, i, j) ==> ((#[trigger] game.grid()[j][i]).is_mine
                        <==> exists|k2: int|
                            0 <= k2 < k && (#[trigger] mine_list@[k2]).0 == i
                                && mine_list@[k2].1 == j),
            decreases mine_list@.len() - k,
        {
            let p = mine_list[k];
            let x = p.0;
            let y = p.1;
            let c = game.get_cell(x, y);
            proof {
                if c.is_mine {
                    let k2 = choose|k2: int|
                        0 <= k2 < k && (#[trigger] mine_list@[k2]).0 == x as int
                            && mine_list@[k2].1 == y as int;
                    assert(mine_list@[k2] != mine_list@[k as int]);
                    assert(false);
                }
            }
            let ghost gprev = game.grid();
            let newc = Cell { is_mine: true, state: c.state, neighbor_mines: c.neighbor_mines };
            grid_set(&mut game.cells, x, y, newc);
            proof {
                lemma_grid_count_to_update(gprev, x as int, y as int, newc, h, CellTest::IsMine);
                assert(forall|j: int|
                    0 <= j < h && j != y ==> #[trigger] game.grid()[j] == gprev[j]);
                assert(game.grid()[y as int].len() == gprev[y as int].len());
                assert forall|i: int, j: int| in_bounds(w, h, i, j) implies (
                    (#[trigger] game.grid()[j][i]).is_mine <==> exists|k2: int|
                        0 <= k2 < k + 1 && (#[trigger] mine_list@[k2]).0 == i
                            && mine_list@[k2].1 == j) by {
                    if i == x as int && j == y as int {
                        assert((mine_list@[k as int]).0 == i && mine_list@[k as int].1 == j);
                    } else {
                        assert(game.grid()[j][i] == gprev[j][i]);
                        if game.grid()[j][i].is_mine {
                            let k2 = choose|k2: int|
                                0 <= k2 < k && (#[trigger] mine_list@[k2]).0 == i
                                    && mine_list@[k2].1 == j;
                            assert(0 <= k2 < k + 1 && (mine_list@[k2]).0 == i
                                && mine_list@[k2].1 == j);
                        } else {
                            if exists|k2: int|
                                0 <= k2 < k + 1 && (#[trigger] mine_list@[k2]).0 == i
                                    && mine_list@[k2].1 == j {
                                let k2 = choose|k2: int|
                                    0 <= k2 < k + 1 && (#[trigger] mine_list@[k2]).0 == i
                                        && mine_list@[k2].1 == j;
                                assert(k2 != k);
                                assert(false);
                            }
                        }
                    }
                }
            }
            k = k + 1;
        }
        let ghost gmid = game.grid();
        game.calculate_neighbors();
        proof {
            lemma_grid_count_to_agree(game.grid(), gmid, h, CellTest::IsMine);
            lemma_grid_count_to_zero(game.grid(), h, CellTest::IsFlagged);
        }
        game
    }
}

impl Game {
    /// Toggles a flag on the cell at (x, y). A Hidden cell is Flagged only
    /// while the budget allows (fewer than `mines` flags placed); a Flagged
    /// cell reverts to Hidden; a Revealed cell, or a Hidden cell with the
    /// budget exhausted, is left alone. The whole call is a no-op once the
    /// game has ended. The first interaction starts the clock.
    pub fn toggle_flag(&mut self, x: usize, y: usize, now: u64)
        requires
            old(self).wf(),
            x < old(self).width,
            y < old(self).height,
        ensures
            final(self).wf(),
            old(self).is_over() ==> *final(self) == *old(self),
            !old(self).is_over() ==> *final(self) == (Game {
                cells: final(self).cells,
                flags: final(self).flags,
                start_time: final(self).start_time,
                ..*old(self)
            }),
            !old(self).is_over() ==> final(self).start_time == (if old(self).start_time is Some {
                old(self).start_time
            } else {
                Some(now)
            }),
            !old(self).is_over() && old(self).grid()[y as int][x as int].state == CellState::Hidden
                && old(self).flags < old(self).mines ==> final(self).grid() == old(self).grid()
                .update(
                y as int,
                old(self).grid()[y as int].update(
                    x as int,
                    (Cell { state: CellState::Flagged, ..old(self).grid()[y as int][x as int] }),
                ),
            ) && final(self).flags == old(self).flags + 1,
            !old(self).is_over() && old(self).grid()[y as int][x as int].state == CellState::Flagged
                ==> final(self).grid() == old(self).grid().update(
                y as int,
                old(self).grid()[y as int].update(
                    x as int,
                    (Cell { state: CellState::Hidden, ..old(self).grid()[y as int][x as int] }),
                ),
            ) && final(self).flags == old(self).flags - 1,
            !old(self).is_over() && (old(self).grid()[y as int][x as int].state
                == CellState::Revealed || (old(self).grid()[y as int][x as int].state
                == CellState::Hidden && old(self).flags >= old(self).mines)) ==> final(self).grid()
                == old(self).grid() && final(self).flags == old(self).flags,
    {
        if self.game_over || self.victory {
            return;
        }
        if self.start_time.is_none() {
            self.start_time = Some(now);
        }
        let ghost g0 = old(self).grid();
        let ghost w = old(self).width as int;
        let ghost h = old(self).height as int;
        let c = self.get_cell(x, y);
        if c.state == CellState::Hidden && self.flags < self.mines {
            let newc = Cell { is_mine: c.is_mine, state: CellState::Flagged, neighbor_mines: c.neighbor_mines };
            grid_set(&mut self.cells, x, y, newc);
            self.flags = self.flags + 1;
            proof {
                lemma_grid_count_to_update(g0, x as int, y as int, newc, h, CellTest::IsMine);
                lemma_grid_count_to_update(g0, x as int, y as int, newc, h, CellTest::IsFlagged);
                assert(forall|j: int|
                    0 <= j < h && j != y ==> #[trigger] self.grid()[j] == g0[j]);
                assert(self.grid()[y as int].len() == g0[y as int].len());
                assert(same_layout(g0, self.grid(), w, h));
                lemma_neighbors_ok_preserved(g0, self.grid(), w, h);
            }
        } else if c.state == CellState::Flagged {
            let newc = Cell { is_mine: c.is_mine, state: CellState::Hidden, neighbor_mines: c.neighbor_mines };
            grid_set(&mut self.cells, x, y, newc);
            proof {
                lemma_grid_count_to_update(g0, x as int, y as int, newc, h, CellTest::IsMine);
                lemma_grid_count_to_update(g0, x as int, y as int, newc, h, CellTest::IsFlagged);
                lemma_grid_count_to_bounds(self.grid(), h, w, CellTest::IsFlagged);
                assert(forall|j: int|
                    0 <= j < h && j != y ==> #[trigger] self.grid()[j] == g0[j]);
                assert(self.grid()[y as int].len() == g0[y as int].len());
                assert(same_layout(g0, self.grid(), w, h));
                lemma_neighbors_ok_preserved(g0, self.grid(), w, h);
            }
            self.flags = self.flags - 1;
        }
    }

    /// Rescans the whole board and records victory exactly when every
    /// non-mine cell is Revealed; flags play no part. The first transition
    /// into victory freezes the clock at `now`.
    #[verifier::loop_isolation(false)]
    #[verifier::rlimit(50)]
    pub fn check_victory(&mut self, now: u64)
        requires
            old(self).wf(),
            !old(self).game_over,
        ensures
            final(self).wf(),
            *final(self) == (Game {
                victory: final(self).victory,
                end_time: final(self).end_time,
                ..*old(self)
            }),
            final(self).victory == (grid_count(old(self).grid(), CellTest::IsSafeRevealed)
                == old(self).width * old(self).height - old(self).mines),
            final(self).end_time == (if final(self).victory && old(self).end_time is None {
                Some(now)
            } else {
                old(self).end_time
            }),
    {
        let ghost g = self.grid();
        let ghost w = self.width as int;
        let ghost h = self.height as int;
        let mut revealed_count: usize = 0;
        let mut y: usize = 0;
        while y < self.height
            invariant
                y <= self.height,
                revealed_count == grid_count_to(g, y as int, CellTest::IsSafeRevealed),
            decreases self.height - y,
        {
            let mut x: usize = 0;
            while x < self.width
                invariant
                    y < self.height,
                    x <= self.width,
                    revealed_count == grid_count_to(g, y as int, CellTest::IsSafeRevealed)
                        + row_count_to(g[y as int], x as int, CellTest::IsSafeRevealed),
                decreases self.width - x,
            {
                let c = self.get_cell(x, y);
                if c.state == CellState::Revealed && !c.is_mine {
                    proof {
                        lemma_grid_count_to_bounds(g, y as int, w, CellTest::IsSafeRevealed);
                        lemma_row_count_to_bounds(g[y as int], x as int, CellTest::IsSafeRevealed);
                        assert(y * w <= (h - 1) * w) by (nonlinear_arith)
                            requires y <= h - 1, w >= 0;
                        assert((h - 1) * w + w == h * w) by (nonlinear_arith);
                        assert(h * w == w * h) by (nonlinear_arith);
                    }
                    revealed_count = revealed_count + 1;
                }
                x = x + 1;
            }
            proof {
                assert(g[y as int].len() == w);
            }
            y = y + 1;
        }
        let total_safe = self.width * self.height - self.mines;
        self.victory = revealed_count == total_safe;
        if self.victory && self.end_time.is_none() {
            self.end_time = Some(now);
        }
    }
}

/// A longer worklist that keeps a prefix keeps everything the prefix held.
proof fn lemma_stack_has_extend(s1: Seq<(usize, usize)>, s2: Seq<(usize, usize)>, a: int, b: int)
    requires
        stack_has(s1, a, b),
        s2.len() >= s1.len(),
        forall|k: int| 0 <= k < s1.len() ==> #[trigger] s2[k] == s1[k],
    ensures
        stack_has(s2, a, b),
{
    let k = choose|k: int| 0 <= k < s1.len() && (#[trigger] s1[k]).0 == a && s1[k].1 == b;
    assert((s2[k]).0 == a && s2[k].1 == b);
}

/// Pushes every in-bounds neighbor of (x, y) onto the worklist.
fn push_neighbors(stack: &mut Vec<(usize, usize)>, x: usize, y: usize, w: usize, h: usize)
    requires
        x < w,
        y < h,
    ensures
        final(stack)@.len() >= old(stack)@.len(),
        forall|k: int| 0 <= k < old(stack)@.len() ==> #[trigger] final(stack)@[k] == old(stack)@[k],
        forall|k: int|
            old(stack)@.len() <= k < final(stack)@.len() ==> in_bounds(
                w as int, h as int,
                (#[trigger] final(stack)@[k]).0 as int, final(stack)@[k].1 as int,
            ) && adjacent(
                x as int, y as int,
                final(stack)@[k].0 as int, final(stack)@[k].1 as int,
            ),
        forall|a: int, b: int|
            in_bounds(w as int, h as int, a, b) && adjacent(x as int, y as int, a, b)
                ==> stack_has(final(stack)@, a, b),
{
    let ghost s0 = stack@;
    if x > 0 && y > 0 {
        stack.push((x - 1, y - 1));
    }
    let ghost s1 = stack@;
    if y > 0 {
        stack.push((x, y - 1));
    }
    let ghost s2 = stack@;
    if x + 1 < w && y > 0 {
        stack.push((x + 1, y - 1));
    }
    let ghost s3 = stack@;
    if x > 0 {
        stack.push((x - 1, y));
    }
    let ghost s4 = stack@;
    if x + 1 < w {
        stack.push((x + 1, y));
    }
    let ghost s5 = stack@;
    if x > 0 && y + 1 < h {
        stack.push((x - 1, y + 1));
    }
    let ghost s6 = stack@;
    if y + 1 < h {
        stack.push((x, y + 1));
    }
    let ghost s7 = stack@;
    if x + 1 < w && y + 1 < h {
        stack.push((x + 1, y + 1));
    }
    let ghost s8 = stack@;
    proof {
        assert(stack@ == s8);
        assert(forall|k: int| 0 <= k < s1.len() ==> #[trigger] s8[k] == s1[k]);
        assert(forall|k: int| 0 <= k < s2.len() ==> #[trigger] s8[k] == s2[k]);
        assert(forall|k: int| 0 <= k < s3.len() ==> #[trigger] s8[k] == s3[k]);
        assert(forall|k: int| 0 <= k < s4.len() ==> #[trigger] s8[k] == s4[k]);
        assert(forall|k: int| 0 <= k < s5.len() ==> #[trigger] s8[k] == s5[k]);
        assert(forall|k: int| 0 <= k < s6.len() ==> #[trigger] s8[k] == s6[k]);
        assert(forall|k: int| 0 <= k < s7.len() ==> #[trigger] s8[k] == s7[k]);
        assert(forall|k: int| 0 <= k < s8.len() ==> #[trigger] s8[k] == s8[k]);
        assert forall|a: int, b: int|
            in_bounds(w as int, h as int, a, b) && adjacent(x as int, y as int, a, b)
            implies stack_has(stack@, a, b) by {
            let xi = x as int;
            let yi = y as int;
            if a == xi - 1 && b == yi - 1 {
                assert((s1[s0.len() as int]).0 == a && (s1[s0.len() as int]).1 == b);
                assert(stack_has(s1, a, b));
                lemma_stack_has_extend(s1, stack@, a, b);
            } else if a == xi && b == yi - 1 {
                assert((s2[s1.len() as int]).0 == a && (s2[s1.len() as int]).1 == b);
                assert(stack_has(s2, a, b));
                lemma_stack_has_extend(s2, stack@, a, b);
            } else if a == xi + 1 && b == yi - 1 {
                assert((s3[s2.len() as int]).0 == a && (s3[s2.len() as int]).1 == b);
                assert(stack_has(s3, a, b));
                lemma_stack_has_extend(s3, stack@, a, b);
            } else if a == xi - 1 && b == yi {
                assert((s4[s3.len() as int]).0 == a && (s4[s3.len() as int]).1 == b);
                assert(stack_has(s4, a, b));
                lemma_stack_has_extend(s4, stack@, a, b);
            } else if a == xi + 1 && b == yi {
                assert((s5[s4.len() as int]).0 == a && (s5[s4.len() as int]).1 == b);
                assert(stack_has(s5, a, b));
                lemma_stack_has_extend(s5, stack@, a, b);
            } else if a == xi - 1 && b == yi + 1 {
                assert((s6[s5.len() as int]).0 == a && (s6[s5.len() as int]).1 == b);
                assert(stack_has(s6, a, b));
                lemma_stack_has_extend(s6, stack@, a, b);
            } else if a == xi && b == yi + 1 {
                assert((s7[s6.len() as int]).0 == a && (s7[s6.len() as int]).1 == b);
                assert(stack_has(s7, a, b));
                lemma_stack_has_extend(s7, stack@, a, b);
            } else {
                assert(a == xi + 1 && b == yi + 1);
                assert((s8[s7.len() as int]).0 == a && (s8[s7.len() as int]).1 == b);
                assert(stack_has(s8, a, b));
                lemma_stack_has_extend(s8, stack@, a, b);
            }
        }
    }
}

impl Game {
    /// Reveals the cell at (x, y). The first interaction starts the clock.
    /// A Revealed or Flagged target leaves the board alone. A Hidden mine
    /// ends the game, freezing the clock and touching no other cell. A
    /// Hidden safe cell is opened; if it has no adjacent mines, a worklist
    /// flood fill opens its whole connected zero-neighbor region together
    /// with the one-cell ring around it, and nothing else. Any successful
    /// reveal then rechecks victory. The whole call is a no-op once the
    /// game has ended.
    #[verifier::loop_isolation(false)]
    #[verifier::rlimit(100)]
    pub fn reveal_cell(&mut self, x: usize, y: usize, now: u64)
        requires
            old(self).wf(),
            x < old(self).width,
            y < old(self).height,
        ensures
            final(self).wf(),
            old(self).is_over() ==> *final(self) == *old(self),
            !old(self).is_over() ==> *final(self) == (Game {
                cells: final(self).cells,
                game_over: final(self).game_over,
                victory: final(self).victory,
                start_time: final(self).start_time,
                end_time: final(self).end_time,
                ..*old(self)
            }) && final(self).flags == old(self).flags,
            !old(self).is_over() ==> final(self).start_time == (if old(self).start_time is Some {
                old(self).start_time
            } else {
                Some(now)
            }),
            !old(self).is_over() && old(self).grid()[y as int][x as int].state != CellState::Hidden
                ==> final(self).grid() == old(self).grid() && final(self).game_over
                == old(self).game_over && final(self).victory == old(self).victory
                && final(self).end_time == old(self).end_time,
            !old(self).is_over() && old(self).grid()[y as int][x as int].state == CellState::Hidden
                && old(self).grid()[y as int][x as int].is_mine ==> final(self).grid()
                == old(self).grid() && final(self).game_over && !final(self).victory
                && final(self).end_time == (if old(self).end_time is None {
                Some(now)
            } else {
                old(self).end_time
            }),
            !old(self).is_over() && old(self).grid()[y as int][x as int].state == CellState::Hidden
                && !old(self).grid()[y as int][x as int].is_mine ==> flood_reveal_rel(
                old(self).grid(),
                final(self).grid(),
                old(self).width as int,
                old(self).height as int,
                x as int,
                y as int,
            ) && !final(self).game_over && final(self).victory == (grid_count(
                final(self).grid(),
                CellTest::IsSafeRevealed,
            ) == old(self).width * old(self).height - old(self).mines) && final(self).end_time
                == (if final(self).victory && old(self).end_time is None {
                Some(now)
            } else {
                old(self).end_time
            }),
            !old(self).is_over() && old(self).grid()[y as int][x as int].state == CellState::Hidden
                && !old(self).grid()[y as int][x as int].is_mine
                && old(self).grid()[y as int][x as int].neighbor_mines != 0 ==> forall|i: int, j: int|
                in_bounds(old(self).width as int, old(self).height as int, i, j)
                    && !(i == x as int && j == y as int)
                    ==> #[trigger] final(self).grid()[j][i] == old(self).grid()[j][i],
    {
        if self.game_over || self.victory {
            return;
        }
        if self.start_time.is_none() {
            self.start_time = Some(now);
        }
        let ghost g0 = old(self).grid();
        let ghost w = old(self).width as int;
        let ghost h = old(self).height as int;
        let c = self.get_cell(x, y);
        if c.state != CellState::Hidden {
            return;
        }
        if c.is_mine {
            self.game_over = true;
            if self.end_time.is_none() {
                self.end_time = Some(now);
            }
            return;
        }
        let newc = Cell { is_mine: false, state: CellState::Revealed, neighbor_mines: c.neighbor_mines };
        grid_set(&mut self.cells, x, y, newc);
        proof {
            lemma_grid_count_to_update(g0, x as int, y as int, newc, h, CellTest::IsMine);
            lemma_grid_count_to_update(g0, x as int, y as int, newc, h, CellTest::IsFlagged);
            lemma_grid_count_to_update(g0, x as int, y as int, newc, h, CellTest::IsHidden);
            assert(forall|j: int| 0 <= j < h && j != y ==> #[trigger] self.grid()[j] == g0[j]);
            assert(self.grid()[y as int].len() == g0[y as int].len());
            assert(same_layout(g0, self.grid(), w, h));
            lemma_grid_count_to_bounds(self.grid(), h, w, CellTest::IsHidden);
        }
        if c.neighbor_mines == 0 {
            let mut stack: Vec<(usize, usize)> = Vec::new();
            push_neighbors(&mut stack, x, y, self.width, self.height);
            while stack.len() > 0
                invariant
                    *self == (Game {
                        cells: self.cells,
                        start_time: self.start_time,
                        ..*old(self)
                    }),
                    self.start_time == (if old(self).start_time is Some {
                        old(self).start_time
                    } else {
                        Some(now)
                    }),
                    grid_wf(self.grid(), w, h),
                    same_layout(g0, self.grid(), w, h),
                    only_reveals(g0, self.grid(), w, h),
                    newly_revealed(g0, self.grid(), x as int, y as int),
                    grid_count(self.grid(), CellTest::IsMine) == old(self).mines,
                    grid_count(self.grid(), CellTest::IsFlagged) == old(self).flags,
                    grid_count(self.grid(), CellTest::IsHidden) >= 0,
                    forall|k: int|
                        0 <= k < stack@.len() ==> in_bounds(
                            w, h,
                            (#[trigger] stack@[k]).0 as int, stack@[k].1 as int,
                        ),
                    forall|k: int|
                        0 <= k < stack@.len() ==> justified(
                            g0, self.grid(), w, h,
                            (#[trigger] stack@[k]).0 as int, stack@[k].1 as int,
                        ),
                    forall|i: int, j: int, a: int, b: int|
                        #![trigger newly_revealed(g0, self.grid(), i, j), adjacent(i, j, a, b)]
                        in_bounds(w, h, i, j) && in_bounds(w, h, a, b) && newly_revealed(
                            g0, self.grid(), i, j,
                        ) && self.grid()[j][i].neighbor_mines == 0 && adjacent(i, j, a, b)
                            ==> self.grid()[b][a].state != CellState::Hidden || stack_has(
                            stack@, a, b,
                        ) || g0[b][a].is_mine,
                    flood_from(g0, self.grid(), w, h, x as int, y as int),
                decreases grid_count(self.grid(), CellTest::IsHidden), stack@.len(),
            {
                let ghost sentry = stack@;
                let p = stack.pop().unwrap();
                let cx = p.0;
                let cy = p.1;
                let ghost spopped = stack@;
                proof {
                    assert(sentry.len() == spopped.len() + 1);
                    assert(forall|k: int|
                        0 <= k < spopped.len() ==> #[trigger] sentry[k] == spopped[k]);
                    assert(sentry[spopped.len() as int] == p);
                }
                let cc = self.get_cell(cx, cy);
                if cc.state == CellState::Hidden && !cc.is_mine {
                    let ghost gprev = self.grid();
                    let newc2 = Cell {
                        is_mine: false,
                        state: CellState::Revealed,
                        neighbor_mines: cc.neighbor_mines,
                    };
                    grid_set(&mut self.cells, cx, cy, newc2);
                    proof {
                        lemma_grid_count_to_update(
                            gprev, cx as int, cy as int, newc2, h, CellTest::IsMine,
                        );
                        lemma_grid_count_to_update(
                            gprev, cx as int, cy as int, newc2, h, CellTest::IsFlagged,
                        );
                        lemma_grid_count_to_update(
                            gprev, cx as int, cy as int, newc2, h, CellTest::IsHidden,
                        );
                        assert(forall|j: int|
                            0 <= j < h && j != cy ==> #[trigger] self.grid()[j] == gprev[j]);
                        assert(self.grid()[cy as int].len() == gprev[cy as int].len());
                        lemma_grid_count_to_bounds(self.grid(), h, w, CellTest::IsHidden);
                        assert(newly_revealed(g0, self.grid(), cx as int, cy as int));
                    }
                    if cc.neighbor_mines == 0 {
                        push_neighbors(&mut stack, cx, cy, self.width, self.height);
                    }
                    proof {
                        assert forall|k: int| 0 <= k < stack@.len() implies justified(
                            g0, self.grid(), w, h,
                            (#[trigger] stack@[k]).0 as int, stack@[k].1 as int,
                        ) by {
                            if k < spopped.len() {
                                assert(stack@[k] == spopped[k]);
                                assert(justified(
                                    g0, gprev, w, h,
                                    stack@[k].0 as int, stack@[k].1 as int,
                                ));
                                let (i2, j2) = choose|i2: int, j2: int|
                                    in_bounds(w, h, i2, j2) && adjacent(
                                        i2, j2,
                                        stack@[k].0 as int, stack@[k].1 as int,
                                    ) && newly_revealed(g0, gprev, i2, j2)
                                        && gprev[j2][i2].neighbor_mines == 0;
                                assert(newly_revealed(g0, self.grid(), i2, j2));
                                assert(self.grid()[j2][i2].neighbor_mines == 0);
                            } else {
                                assert(adjacent(
                                    cx as int, cy as int,
                                    stack@[k].0 as int, stack@[k].1 as int,
                                ));
                            }
                        }
                        assert forall|i: int, j: int, a: int, b: int|
                            in_bounds(w, h, i, j) && in_bounds(w, h, a, b) && #[trigger]
                            newly_revealed(g0, self.grid(), i, j)
                                && self.grid()[j][i].neighbor_mines == 0 && #[trigger] adjacent(
                                i, j, a, b,
                            ) implies self.grid()[b][a].state != CellState::Hidden || stack_has(
                            stack@, a, b,
                        ) || g0[b][a].is_mine by {
                            if i == cx as int && j == cy as int {
                                if cc.neighbor_mines == 0 {
                                    assert(stack_has(stack@, a, b));
                                }
                            } else {
                                assert(newly_revealed(g0, gprev, i, j));
                                assert(gprev[j][i].neighbor_mines == 0);
                                assert(gprev[b][a].state != CellState::Hidden || stack_has(
                                    sentry, a, b,
                                ) || g0[b][a].is_mine);
                                if gprev[b][a].state != CellState::Hidden {
                                    assert(self.grid()[b][a].state != CellState::Hidden);
                                } else if stack_has(sentry, a, b) {
                                    let k = choose|k: int|
                                        0 <= k < sentry.len()
                                            && (#[trigger] sentry[k]).0 as int == a
                                            && sentry[k].1 as int == b;
                                    if k < spopped.len() {
                                        assert(stack@[k] == spopped[k]);
                                        assert(stack_has(stack@, a, b));
                                    } else {
                                        assert(sentry[k] == p);
                                        assert(a == cx as int && b == cy as int);
                                        assert(self.grid()[b][a].state != CellState::Hidden);
                                    }
                                }
                            }
                        }
                        assert forall|i: int, j: int|
                            in_bounds(w, h, i, j) && #[trigger] newly_revealed(
                                g0, self.grid(), i, j,
                            ) && !(i == x as int && j == y as int) implies exists|a: int, b: int|
                            in_bounds(w, h, a, b) && adjacent(a, b, i, j) && newly_revealed(
                                g0, self.grid(), a, b,
                            ) && self.grid()[b][a].neighbor_mines == 0 by {
                            if i == cx as int && j == cy as int {
                                assert(justified(g0, gprev, w, h, cx as int, cy as int));
                                let (a2, b2) = choose|a2: int, b2: int|
                                    in_bounds(w, h, a2, b2) && adjacent(
                                        a2, b2, cx as int, cy as int,
                                    ) && newly_revealed(g0, gprev, a2, b2)
                                        && gprev[b2][a2].neighbor_mines == 0;
                                assert(newly_revealed(g0, self.grid(), a2, b2));
                                assert(self.grid()[b2][a2].neighbor_mines == 0);
                            } else {
                                assert(newly_revealed(g0, gprev, i, j));
                                let (a2, b2) = choose|a2: int, b2: int|
                                    in_bounds(w, h, a2, b2) && adjacent(a2, b2, i, j)
                                        && newly_revealed(g0, gprev, a2, b2)
                                        && gprev[b2][a2].neighbor_mines == 0;
                                assert(newly_revealed(g0, self.grid(), a2, b2));
                                assert(self.grid()[b2][a2].neighbor_mines == 0);
                            }
                        }
                    }
                } else {
                    proof {
                        assert forall|i: int, j: int, a: int, b: int|
                            in_bounds(w, h, i, j) && in_bounds(w, h, a, b) && #[trigger]
                            newly_revealed(g0, self.grid(), i, j)
                                && self.grid()[j][i].neighbor_mines == 0 && #[trigger] adjacent(
                                i, j, a, b,
                            ) implies self.grid()[b][a].state != CellState::Hidden || stack_has(
                            stack@, a, b,
                        ) || g0[b][a].is_mine by {
                            assert(self.grid()[b][a].state != CellState::Hidden || stack_has(
                                sentry, a, b,
                            ) || g0[b][a].is_mine);
                            if self.grid()[b][a].state == CellState::Hidden
                                && !g0[b][a].is_mine {
                                let k = choose|k: int|
                                    0 <= k < sentry.len()
                                        && (#[trigger] sentry[k]).0 as int == a
                                        && sentry[k].1 as int == b;
                                if k < spopped.len() {
                                    assert(stack@[k] == spopped[k]);
                                    assert(stack_has(stack@, a, b));
                                } else {
                                    assert(sentry[k] == p);
                                    assert(a == cx as int && b == cy as int);
                                    assert(cc.state != CellState::Hidden || cc.is_mine);
                                    assert(cc == self.grid()[b][a]);
                                    assert(g0[b][a].is_mine == cc.is_mine);
                                    assert(false);
                                }
                            }
                        }
                    }
                }
            }
            proof {
                assert forall|i: int, j: int, a: int, b: int|
                    #![trigger newly_revealed(g0, self.grid(), i, j), adjacent(i, j, a, b)]
                    in_bounds(w, h, i, j) && in_bounds(w, h, a, b) && newly_revealed(
                        g0, self.grid(), i, j,
                    ) && self.grid()[j][i].neighbor_mines == 0 && adjacent(i, j, a, b)
                    implies self.grid()[b][a].state != CellState::Hidden by {
                    assert(!stack_has(stack@, a, b));
                    if g0[b][a].is_mine {
                        assert(!g0[j][i].is_mine);
                        assert(g0[j][i].neighbor_mines == 0);
                        assert(adj_mines(g0, w, h, i, j) == 0);
                        lemma_zero_adj_no_mine(g0, w, h, i, j, a, b);
                        assert(false);
                    }
                }
                assert(flood_closed(g0, self.grid(), w, h));
                lemma_neighbors_ok_preserved(g0, self.grid(), w, h);
            }
        } else {
            proof {
                assert forall|i: int, j: int, a: int, b: int|
                    #![trigger newly_revealed(g0, self.grid(), i, j), adjacent(i, j, a, b)]
                    in_bounds(w, h, i, j) && in_bounds(w, h, a, b) && newly_revealed(
                        g0, self.grid(), i, j,
                    ) && self.grid()[j][i].neighbor_mines == 0 && adjacent(i, j, a, b)
                    implies self.grid()[b][a].state != CellState::Hidden by {
                    assert(i == x as int && j == y as int);
                    assert(false);
                }
                assert(flood_closed(g0, self.grid(), w, h));
                assert(flood_from(g0, self.grid(), w, h, x as int, y as int));
                lemma_neighbors_ok_preserved(g0, self.grid(), w, h);
            }
        }
        self.check_victory(now);
    }
}

/// Replace the cell at (x, y), leaving the rest of the board as it was.
fn grid_set(cells: &mut Vec<Vec<Cell>>, x: usize, y: usize, c: Cell)
    requires
        y < old(cells)@.len(),
        x < old(cells)@[y as int]@.len(),
    ensures
        rows_view(final(cells)@) == rows_view(old(cells)@).update(
            y as int,
            rows_view(old(cells)@)[y as int].update(x as int, c),
        ),
{
    let mut row: Vec<Cell> = cells.remove(y);
    row.set(x, c);
    cells.insert(y, row);
    proof {
        let s0 = old(cells)@;
        let s1 = cells@;
        let target = rows_view(s0).update(y as int, rows_view(s0)[y as int].update(x as int, c));
        assert(s1.len() == s0.len());
        assert forall|k: int| 0 <= k < s1.len() implies rows_view(s1)[k] == target[k] by {
            if k < y {
                assert(s1[k] == s0[k]);
            } else if k == y {
                assert(s1[k]@ == s0[y as int]@.update(x as int, c));
            } else {
                assert(s1[k] == s0[k]);
            }
        }
        assert(rows_view(s1) =~= target);
    }
}

} // verus!
