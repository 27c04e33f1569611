use minesweeper::cell::CellState;
use minesweeper::game::Game;

fn mine_count(g: &Game) -> usize {
    let mut n = 0;
    for row in &g.cells {
        for c in row {
            if c.is_mine {
                n += 1;
            }
        }
    }
    n
}

fn states(g: &Game) -> Vec<Vec<CellState>> {
    g.cells.iter().map(|row| row.iter().map(|c| c.state).collect()).collect()
}

#[test]
fn new_board_has_exact_mine_count() {
    let g = Game::new(8, 8, 10);
    assert_eq!(mine_count(&g), 10);
    assert_eq!(g.mines, 10);
    assert_eq!(g.flags, 0);
    assert!(!g.game_over && !g.victory);
    for row in &g.cells {
        for c in row {
            assert_eq!(c.state, CellState::Hidden);
        }
    }
}

#[test]
fn new_board_neighbor_counts_match_layout() {
    let g = Game::new(8, 8, 10);
    for y in 0..8usize {
        for x in 0..8usize {
            if g.cells[y][x].is_mine {
                continue;
            }
            let mut expect = 0u8;
            for dy in -1i32..=1 {
                for dx in -1i32..=1 {
                    if dx == 0 && dy == 0 {
                        continue;
                    }
                    let nx = x as i32 + dx;
                    let ny = y as i32 + dy;
                    if nx >= 0 && nx < 8 && ny >= 0 && ny < 8 && g.cells[ny as usize][nx as usize].is_mine {
                        expect += 1;
                    }
                }
            }
            assert_eq!(g.cells[y][x].neighbor_mines, expect);
        }
    }
}

#[test]
fn three_by_three_neighbor_counts() {
    let mines = vec![(2usize, 2usize)];
    let g = Game::with_mines(3, 3, &mines);
    assert_eq!(g.mines, 1);
    assert!(g.cells[2][2].is_mine);
    assert_eq!(g.cells[1][1].neighbor_mines, 1);
    assert_eq!(g.cells[2][1].neighbor_mines, 1);
    assert_eq!(g.cells[1][2].neighbor_mines, 1);
    assert_eq!(g.cells[0][0].neighbor_mines, 0);
    assert_eq!(g.cells[1][0].neighbor_mines, 0);
    assert_eq!(g.cells[2][0].neighbor_mines, 0);
    assert_eq!(g.cells[0][1].neighbor_mines, 0);
    assert_eq!(g.cells[0][2].neighbor_mines, 0);
}

#[test]
fn flood_fill_reveals_zero_region_and_border() {
    let mines = vec![(2usize, 2usize)];
    let mut g = Game::with_mines(3, 3, &mines);
    g.reveal_cell(0, 0, 5);
    for y in 0..3usize {
        for x in 0..3usize {
            if x == 2 && y == 2 {
                assert_eq!(g.cells[y][x].state, CellState::Hidden);
            } else {
                assert_eq!(g.cells[y][x].state, CellState::Revealed);
            }
        }
    }
    assert!(g.victory);
    assert!(!g.game_over);
    assert_eq!(g.start_time, Some(5));
    assert_eq!(g.end_time, Some(5));
}

#[test]
fn flood_fill_stops_at_flagged_cell() {
    let mines = vec![(2usize, 2usize)];
    let mut g = Game::with_mines(3, 3, &mines);
    g.toggle_flag(1, 1, 1);
    g.reveal_cell(0, 0, 2);
    assert_eq!(g.cells[1][1].state, CellState::Flagged);
    assert!(!g.victory);
    assert_eq!(g.cells[0][0].state, CellState::Revealed);
    assert_eq!(g.cells[2][0].state, CellState::Revealed);
    assert_eq!(g.cells[0][2].state, CellState::Revealed);
}

#[test]
fn revealing_a_mine_ends_the_game_and_changes_nothing_else() {
    let mines = vec![(2usize, 2usize)];
    let mut g = Game::with_mines(3, 3, &mines);
    g.reveal_cell(2, 2, 7);
    assert!(g.game_over);
    assert!(!g.victory);
    assert_eq!(g.end_time, Some(7));
    for y in 0..3usize {
        for x in 0..3usize {
            assert_eq!(g.cells[y][x].state, CellState::Hidden);
        }
    }
}

#[test]
fn commands_are_ignored_after_game_over() {
    let mines = vec![(0usize, 0usize)];
    let mut g = Game::with_mines(2, 2, &mines);
    g.reveal_cell(0, 0, 1);
    assert!(g.game_over);
    let before = states(&g);
    g.reveal_cell(1, 1, 2);
    g.toggle_flag(1, 1, 3);
    g.move_right();
    g.move_down();
    assert_eq!(states(&g), before);
    assert_eq!(g.cursor_x, 0);
    assert_eq!(g.cursor_y, 0);
    assert_eq!(g.end_time, Some(1));
}

#[test]
fn reveal_is_a_no_op_on_revealed_and_flagged_cells() {
    let mines = vec![(0usize, 0usize)];
    let mut g = Game::with_mines(2, 2, &mines);
    g.reveal_cell(1, 1, 1);
    let before = states(&g);
    let flags_before = g.flags;
    g.reveal_cell(1, 1, 2);
    assert_eq!(states(&g), before);
    assert_eq!(g.flags, flags_before);
    g.toggle_flag(0, 1, 3);
    let before2 = states(&g);
    g.reveal_cell(0, 1, 4);
    assert_eq!(states(&g), before2);
    assert_eq!(g.cells[0][1].state, CellState::Hidden);
}

#[test]
fn flag_budget_is_enforced() {
    let mines = vec![(0usize, 0usize)];
    let mut g = Game::with_mines(2, 2, &mines);
    g.toggle_flag(1, 0, 1);
    assert_eq!(g.flags, 1);
    assert_eq!(g.cells[0][1].state, CellState::Flagged);
    g.toggle_flag(1, 1, 2);
    assert_eq!(g.flags, 1);
    assert_eq!(g.cells[1][1].state, CellState::Hidden);
    g.toggle_flag(1, 0, 3);
    assert_eq!(g.flags, 0);
    assert_eq!(g.cells[0][1].state, CellState::Hidden);
}

#[test]
fn flagging_a_revealed_cell_is_a_no_op() {
    let mines = vec![(0usize, 0usize)];
    let mut g = Game::with_mines(2, 2, &mines);
    g.reveal_cell(1, 1, 1);
    assert_eq!(g.cells[1][1].state, CellState::Revealed);
    g.toggle_flag(1, 1, 2);
    assert_eq!(g.cells[1][1].state, CellState::Revealed);
    assert_eq!(g.flags, 0);
}

#[test]
fn one_cell_board_with_no_mines_wins_on_first_reveal() {
    let mines: Vec<(usize, usize)> = vec![];
    let mut g = Game::with_mines(1, 1, &mines);
    g.reveal_cell(0, 0, 3);
    assert!(g.victory);
    assert!(!g.game_over);
    assert_eq!(g.cells[0][0].state, CellState::Revealed);
}

#[test]
fn elapsed_time_runs_and_then_freezes() {
    let mines = vec![(2usize, 2usize)];
    let mut g = Game::with_mines(3, 3, &mines);
    assert_eq!(g.get_elapsed_time(100), 0);
    g.toggle_flag(0, 0, 3);
    assert_eq!(g.start_time, Some(3));
    assert_eq!(g.get_elapsed_time(10), 7);
    g.toggle_flag(0, 0, 4);
    g.reveal_cell(0, 0, 12);
    assert!(g.victory);
    assert_eq!(g.get_elapsed_time(12), 9);
    assert_eq!(g.get_elapsed_time(500), 9);
    assert_eq!(g.get_elapsed_time(0), 9);
}

#[test]
fn cursor_moves_clamp_to_the_grid() {
    let mines = vec![(2usize, 2usize)];
    let mut g = Game::with_mines(3, 3, &mines);
    g.move_left();
    g.move_up();
    assert_eq!((g.cursor_x, g.cursor_y), (0, 0));
    g.move_right();
    g.move_down();
    assert_eq!((g.cursor_x, g.cursor_y), (1, 1));
    g.move_right();
    g.move_right();
    assert_eq!(g.cursor_x, 2);
    g.move_down();
    g.move_down();
    assert_eq!(g.cursor_y, 2);
}
