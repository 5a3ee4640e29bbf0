use rustsweeper::gameboard::{BoardError, CellState, GameStatus, Gameboard};
use rustsweeper::gameboard_controller::GameboardController;

fn game(size: usize, mines: &[(usize, usize)]) -> GameboardController {
    GameboardController::new(Gameboard::with_mines(size, &mines.to_vec()).unwrap())
}

fn snapshot(c: &GameboardController) -> Vec<CellState> {
    let n = c.gameboard.size();
    let mut cells = Vec::new();
    for y in 0..n {
        for x in 0..n {
            cells.push(c.gameboard.cell_at(x, y).unwrap());
        }
    }
    cells
}

fn mines_of(c: &GameboardController) -> Vec<(usize, usize)> {
    let n = c.gameboard.size();
    let mut mines = Vec::new();
    for y in 0..n {
        for x in 0..n {
            if c.gameboard.cell_at(x, y).unwrap().is_mine() {
                mines.push((x, y));
            }
        }
    }
    mines
}

fn cell(c: &GameboardController, x: usize, y: usize) -> CellState {
    c.gameboard.cell_at(x, y).unwrap()
}

#[test]
fn new_controller_keeps_the_board_and_selects_nothing() {
    let c = game(3, &[(1, 1)]);
    assert_eq!(c.selected_cell, None);
    assert_eq!(c.gameboard.size(), 3);
    assert_eq!(cell(&c, 1, 1), CellState::HiddenMine);
    assert_eq!(c.status(), GameStatus::InProgress);
}

#[test]
fn single_mine_in_the_corner_and_a_reveal_far_away() {
    let mut c = game(10, &[(0, 0)]);
    assert_eq!(c.open_cell(9, 9), Ok(GameStatus::Won));
    for y in 0..10 {
        for x in 0..10 {
            let expected = if (x, y) == (0, 0) {
                CellState::HiddenMine
            } else if (x, y) == (1, 0) || (x, y) == (0, 1) || (x, y) == (1, 1) {
                CellState::RevealedNumber(1)
            } else {
                CellState::RevealedBlank
            };
            assert_eq!(cell(&c, x, y), expected, "cell ({}, {})", x, y);
        }
    }
}

#[test]
fn revealing_a_mine_explodes_it_and_nothing_else() {
    let mut c = game(4, &[(1, 1), (3, 3)]);
    let before = snapshot(&c);
    assert_eq!(c.open_cell(1, 1), Ok(GameStatus::Lost));
    let after = snapshot(&c);
    for y in 0..4 {
        for x in 0..4 {
            if (x, y) == (1, 1) {
                assert_eq!(after[y * 4 + x], CellState::Exploded);
            } else {
                assert_eq!(after[y * 4 + x], before[y * 4 + x]);
            }
        }
    }
}

#[test]
fn revealing_a_mine_on_an_otherwise_empty_board_does_not_cascade() {
    let mut c = game(5, &[(2, 2)]);
    assert_eq!(c.open_cell(2, 2), Ok(GameStatus::Lost));
    for y in 0..5 {
        for x in 0..5 {
            let expected =
                if (x, y) == (2, 2) { CellState::Exploded } else { CellState::HiddenBlank };
            assert_eq!(cell(&c, x, y), expected);
        }
    }
}

#[test]
fn revealing_next_to_a_mine_shows_a_number_and_stops() {
    let mut c = game(5, &[(2, 2)]);
    assert_eq!(c.open_cell(1, 1), Ok(GameStatus::InProgress));
    for y in 0..5 {
        for x in 0..5 {
            let expected = if (x, y) == (2, 2) {
                CellState::HiddenMine
            } else if (x, y) == (1, 1) {
                CellState::RevealedNumber(1)
            } else {
                CellState::HiddenBlank
            };
            assert_eq!(cell(&c, x, y), expected);
        }
    }
}

#[test]
fn numbers_count_the_mines_around() {
    // . * .        the middle of the bottom row has three mines around it,
    // * . *        the centre has three as well
    // . . .
    let mut c = game(3, &[(1, 0), (0, 1), (2, 1)]);
    assert_eq!(c.open_cell(1, 1), Ok(GameStatus::InProgress));
    assert_eq!(cell(&c, 1, 1), CellState::RevealedNumber(3));
    assert_eq!(c.open_cell(1, 2), Ok(GameStatus::InProgress));
    assert_eq!(cell(&c, 1, 2), CellState::RevealedNumber(2));
    assert_eq!(c.open_cell(0, 0), Ok(GameStatus::InProgress));
    assert_eq!(cell(&c, 0, 0), CellState::RevealedNumber(2));
}

#[test]
fn a_cell_ringed_by_mines_shows_eight() {
    let mut c = game(3, &[(0, 0), (1, 0), (2, 0), (0, 1), (2, 1), (0, 2), (1, 2), (2, 2)]);
    assert_eq!(c.open_cell(1, 1), Ok(GameStatus::Won));
    assert_eq!(cell(&c, 1, 1), CellState::RevealedNumber(8));
}

#[test]
fn cascade_stops_at_a_wall_of_numbers() {
    // A column of mines at x = 2 splits the board.
    let mut c = game(5, &[(2, 0), (2, 1), (2, 2), (2, 3), (2, 4)]);
    assert_eq!(c.open_cell(0, 0), Ok(GameStatus::InProgress));
    for y in 0..5 {
        let beside = if y == 0 || y == 4 { 2 } else { 3 };
        assert_eq!(cell(&c, 0, y), CellState::RevealedBlank);
        assert_eq!(cell(&c, 1, y), CellState::RevealedNumber(beside));
        assert_eq!(cell(&c, 2, y), CellState::HiddenMine);
        assert_eq!(cell(&c, 3, y), CellState::HiddenBlank);
        assert_eq!(cell(&c, 4, y), CellState::HiddenBlank);
    }
    assert_eq!(c.open_cell(4, 4), Ok(GameStatus::Won));
    for y in 0..5 {
        let beside = if y == 0 || y == 4 { 2 } else { 3 };
        assert_eq!(cell(&c, 3, y), CellState::RevealedNumber(beside));
        assert_eq!(cell(&c, 4, y), CellState::RevealedBlank);
    }
}

#[test]
fn cascade_goes_round_corners_diagonally() {
    // Mines at (1, 0) and (0, 1) cut the corner (0, 0) off; the rest of
    // the board is one region.
    let mut c = game(4, &[(1, 0), (0, 1)]);
    assert_eq!(c.open_cell(3, 3), Ok(GameStatus::InProgress));
    assert_eq!(cell(&c, 0, 0), CellState::HiddenBlank);
    assert_eq!(cell(&c, 1, 1), CellState::RevealedNumber(2));
    assert_eq!(cell(&c, 2, 0), CellState::RevealedNumber(1));
    assert_eq!(cell(&c, 2, 1), CellState::RevealedNumber(1));
    assert_eq!(cell(&c, 0, 2), CellState::RevealedNumber(1));
    assert_eq!(cell(&c, 1, 2), CellState::RevealedNumber(1));
    assert_eq!(cell(&c, 3, 0), CellState::RevealedBlank);
    assert_eq!(cell(&c, 3, 1), CellState::RevealedBlank);
    assert_eq!(cell(&c, 2, 2), CellState::RevealedBlank);
    assert_eq!(cell(&c, 0, 3), CellState::RevealedBlank);
    assert_eq!(c.open_cell(0, 0), Ok(GameStatus::Won));
    assert_eq!(cell(&c, 0, 0), CellState::RevealedNumber(2));
}

#[test]
fn cascade_leaves_flagged_cells_alone_and_does_not_pass_them() {
    // No mines at all; a row of flags splits the board.
    let mut c = game(5, &[]);
    for x in 0..5 {
        assert_eq!(c.toggle_flag(x, 2), Ok(()));
    }
    assert_eq!(c.open_cell(0, 0), Ok(GameStatus::InProgress));
    for x in 0..5 {
        assert_eq!(cell(&c, x, 0), CellState::RevealedBlank);
        assert_eq!(cell(&c, x, 1), CellState::RevealedBlank);
        assert_eq!(cell(&c, x, 2), CellState::FlaggedBlank);
        assert_eq!(cell(&c, x, 3), CellState::HiddenBlank);
        assert_eq!(cell(&c, x, 4), CellState::HiddenBlank);
    }
}

#[test]
fn cascade_on_a_board_without_mines_uncovers_everything() {
    let mut c = game(6, &[]);
    assert_eq!(c.open_cell(2, 3), Ok(GameStatus::Won));
    for cellstate in snapshot(&c) {
        assert_eq!(cellstate, CellState::RevealedBlank);
    }
}

#[test]
fn cascade_on_a_large_board() {
    let mut c = game(200, &[(0, 0)]);
    assert_eq!(c.open_cell(199, 199), Ok(GameStatus::Won));
    assert_eq!(cell(&c, 0, 0), CellState::HiddenMine);
    assert_eq!(cell(&c, 1, 1), CellState::RevealedNumber(1));
    assert_eq!(cell(&c, 100, 100), CellState::RevealedBlank);
}

#[test]
fn revealing_again_changes_nothing() {
    let mut c = game(10, &[(0, 0), (5, 5), (9, 0)]);
    c.open_cell(9, 9).unwrap();
    let first = snapshot(&c);
    // The same cell, then every cell that is no longer hidden.
    c.open_cell(9, 9).unwrap();
    assert_eq!(snapshot(&c), first);
    for y in 0..10 {
        for x in 0..10 {
            if cell(&c, x, y).is_revealed() {
                c.open_cell(x, y).unwrap();
                assert_eq!(snapshot(&c), first);
            }
        }
    }
}

#[test]
fn every_uncovered_blank_has_no_hidden_blank_neighbour() {
    let mines = [(2, 1), (7, 3), (4, 8), (0, 9), (9, 9), (5, 5)];
    let mut c = game(10, &mines);
    c.open_cell(0, 0).unwrap();
    for y in 0..10usize {
        for x in 0..10usize {
            if cell(&c, x, y) == CellState::RevealedBlank {
                for ny in y.saturating_sub(1)..=(y + 1).min(9) {
                    for nx in x.saturating_sub(1)..=(x + 1).min(9) {
                        assert!(cell(&c, nx, ny).is_revealed());
                    }
                }
            }
            if let CellState::RevealedNumber(n) = cell(&c, x, y) {
                assert_eq!(Ok(n), c.gameboard.count_adjacent_mines(x, y));
                assert!(1 <= n && n <= 8);
            }
        }
    }
}

#[test]
fn revealing_a_flagged_revealed_or_exploded_cell_does_nothing() {
    let mut c = game(4, &[(0, 0), (3, 3)]);
    c.toggle_flag(0, 0).unwrap();
    c.toggle_flag(2, 0).unwrap();
    c.open_cell(1, 1).unwrap();
    c.open_cell(3, 3).unwrap();
    let before = snapshot(&c);
    assert_eq!(c.open_cell(0, 0), Ok(GameStatus::Lost));
    assert_eq!(c.open_cell(2, 0), Ok(GameStatus::Lost));
    assert_eq!(c.open_cell(1, 1), Ok(GameStatus::Lost));
    assert_eq!(c.open_cell(3, 3), Ok(GameStatus::Lost));
    assert_eq!(snapshot(&c), before);
    assert_eq!(cell(&c, 0, 0), CellState::FlaggedMine);
    assert_eq!(cell(&c, 2, 0), CellState::FlaggedBlank);
    assert_eq!(cell(&c, 1, 1), CellState::RevealedNumber(1));
    assert_eq!(cell(&c, 3, 3), CellState::Exploded);
}

#[test]
fn mines_stay_where_they_are() {
    let mines = vec![(0, 0), (3, 1), (5, 5), (9, 9), (2, 7), (7, 2)];
    let mut c = game(10, &mines);
    let mut expected = mines.clone();
    expected.sort_by_key(|&(x, y)| (y, x));
    assert_eq!(mines_of(&c), expected);
    let moves = [(9, 0), (0, 0), (4, 4), (0, 9), (5, 5), (10, 10), (6, 6)];
    for &(x, y) in moves.iter() {
        let _ = c.toggle_flag(y, x);
        assert_eq!(mines_of(&c), expected);
        let _ = c.open_cell(x, y);
        assert_eq!(mines_of(&c), expected);
        assert_eq!(mines_of(&c).len(), 6);
    }
}

#[test]
fn mines_stay_where_they_are_on_a_random_board() {
    let mut c = GameboardController::new(Gameboard::new(10, 12).unwrap());
    let expected = mines_of(&c);
    assert_eq!(expected.len(), 12);
    for y in 0..10 {
        for x in 0..10 {
            if (x + y) % 3 == 0 {
                c.toggle_flag(x, y).unwrap();
            } else {
                c.open_cell(x, y).unwrap();
            }
            assert_eq!(mines_of(&c), expected);
        }
    }
}

#[test]
fn toggle_flag_cycles_hidden_cells() {
    let mut c = game(3, &[(0, 0)]);
    assert_eq!(c.toggle_flag(0, 0), Ok(()));
    assert_eq!(cell(&c, 0, 0), CellState::FlaggedMine);
    assert_eq!(c.toggle_flag(2, 2), Ok(()));
    assert_eq!(cell(&c, 2, 2), CellState::FlaggedBlank);
    assert_eq!(c.toggle_flag(0, 0), Ok(()));
    assert_eq!(cell(&c, 0, 0), CellState::HiddenMine);
    assert_eq!(c.toggle_flag(2, 2), Ok(()));
    assert_eq!(cell(&c, 2, 2), CellState::HiddenBlank);
}

#[test]
fn toggle_flag_twice_restores_the_board() {
    let mut c = game(4, &[(1, 1), (2, 3)]);
    c.open_cell(0, 0).unwrap();
    c.open_cell(2, 3).unwrap();
    c.toggle_flag(3, 0).unwrap();
    for y in 0..4 {
        for x in 0..4 {
            let before = snapshot(&c);
            c.toggle_flag(x, y).unwrap();
            c.toggle_flag(x, y).unwrap();
            assert_eq!(snapshot(&c), before);
        }
    }
}

#[test]
fn toggle_flag_changes_one_cell_only() {
    let mut c = game(4, &[(1, 1)]);
    let before = snapshot(&c);
    c.toggle_flag(2, 1).unwrap();
    let after = snapshot(&c);
    for i in 0..16 {
        if i == 1 * 4 + 2 {
            assert_eq!(after[i], CellState::FlaggedBlank);
        } else {
            assert_eq!(after[i], before[i]);
        }
    }
}

#[test]
fn toggle_flag_leaves_revealed_and_exploded_cells_alone() {
    let mut c = game(3, &[(0, 0), (2, 2)]);
    c.open_cell(1, 1).unwrap();
    c.open_cell(0, 0).unwrap();
    let before = snapshot(&c);
    assert_eq!(c.toggle_flag(1, 1), Ok(()));
    assert_eq!(c.toggle_flag(0, 0), Ok(()));
    assert_eq!(snapshot(&c), before);
    assert_eq!(cell(&c, 1, 1), CellState::RevealedNumber(2));
    assert_eq!(cell(&c, 0, 0), CellState::Exploded);
}

#[test]
fn reveal_off_the_board_is_rejected_and_changes_nothing() {
    let mut c = game(10, &[(0, 0)]);
    let before = snapshot(&c);
    assert_eq!(c.open_cell(10, 0), Err(BoardError::OutOfBounds));
    assert_eq!(c.open_cell(0, 10), Err(BoardError::OutOfBounds));
    assert_eq!(c.open_cell(10, 10), Err(BoardError::OutOfBounds));
    assert_eq!(c.open_cell(usize::MAX, 3), Err(BoardError::OutOfBounds));
    assert_eq!(snapshot(&c), before);
}

#[test]
fn toggle_flag_off_the_board_is_rejected_and_changes_nothing() {
    let mut c = game(10, &[(0, 0)]);
    let before = snapshot(&c);
    assert_eq!(c.toggle_flag(10, 0), Err(BoardError::OutOfBounds));
    assert_eq!(c.toggle_flag(0, 10), Err(BoardError::OutOfBounds));
    assert_eq!(c.toggle_flag(3, usize::MAX), Err(BoardError::OutOfBounds));
    assert_eq!(snapshot(&c), before);
}

#[test]
fn the_game_is_won_when_every_safe_cell_is_revealed() {
    let mut c = game(2, &[(0, 0)]);
    assert_eq!(c.status(), GameStatus::InProgress);
    assert_eq!(c.open_cell(1, 0), Ok(GameStatus::InProgress));
    assert_eq!(c.open_cell(0, 1), Ok(GameStatus::InProgress));
    assert_eq!(c.open_cell(1, 1), Ok(GameStatus::Won));
    assert_eq!(c.status(), GameStatus::Won);
    // A flag on the mine does not take the win away.
    c.toggle_flag(0, 0).unwrap();
    assert_eq!(c.status(), GameStatus::Won);
}

#[test]
fn a_flag_on_a_safe_cell_keeps_the_game_open() {
    let mut c = game(2, &[(0, 0)]);
    c.toggle_flag(1, 1).unwrap();
    c.open_cell(1, 0).unwrap();
    assert_eq!(c.open_cell(0, 1), Ok(GameStatus::InProgress));
    c.toggle_flag(1, 1).unwrap();
    assert_eq!(c.open_cell(1, 1), Ok(GameStatus::Won));
}

#[test]
fn the_game_stays_lost_after_an_explosion() {
    let mut c = game(2, &[(0, 0)]);
    assert_eq!(c.open_cell(0, 0), Ok(GameStatus::Lost));
    assert_eq!(c.open_cell(1, 0), Ok(GameStatus::Lost));
    assert_eq!(c.open_cell(0, 1), Ok(GameStatus::Lost));
    assert_eq!(c.open_cell(1, 1), Ok(GameStatus::Lost));
    assert_eq!(c.status(), GameStatus::Lost);
}

#[test]
fn select_keeps_a_cell_on_the_board_and_drops_any_other() {
    let mut c = game(3, &[(0, 0)]);
    let before = snapshot(&c);
    c.select(2, 1);
    assert_eq!(c.selected_cell, Some([2, 1]));
    c.select(3, 1);
    assert_eq!(c.selected_cell, None);
    c.select(0, 0);
    assert_eq!(c.selected_cell, Some([0, 0]));
    c.select(0, 3);
    assert_eq!(c.selected_cell, None);
    assert_eq!(snapshot(&c), before);
}

#[test]
fn playing_does_not_touch_the_selection() {
    let mut c = game(3, &[(0, 0)]);
    c.select(1, 1);
    c.open_cell(2, 2).unwrap();
    c.toggle_flag(0, 0).unwrap();
    let _ = c.open_cell(5, 5);
    assert_eq!(c.selected_cell, Some([1, 1]));
}
