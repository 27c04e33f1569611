//! One grid position of the board.

use vstd::prelude::*;

verus! {

/// The visibility state of a cell: the three states are mutually exclusive,
/// and every cell starts out `Hidden`.
#[derive(Clone, Copy, PartialEq, Eq, Structural, Debug)]
pub enum CellState {
    Hidden,
    Revealed,
    Flagged,
}

/// One cell of the board. `is_mine` and `neighbor_mines` are fixed once the
/// board is constructed; only `state` changes during play.
#[derive(Clone, Copy, PartialEq, Eq, Structural, Debug)]
pub struct Cell {
    pub is_mine: bool,
    pub state: CellState,
    pub neighbor_mines: u8,
}

} // verus!
