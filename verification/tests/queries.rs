//! Tests for the grid-model queries and the console coordinate conversion.

use minesweeper::board::Board;
use minesweeper::console::Console;
use minesweeper::types::CellContent;
use minesweeper::types::GameError;

#[test]
fn check_bounds_matches_the_board_rectangle() {
    let b = Board::new(3, 2);
    assert!(b.check_bounds(0, 0));
    assert!(b.check_bounds(2, 1));
    assert!(!b.check_bounds(3, 0));
    assert!(!b.check_bounds(0, 2));
    assert!(!b.check_bounds(-1, 0));
    assert!(!b.check_bounds(0, -1));
}

#[test]
fn index_board_defaults_to_empty_outside_bounds() {
    let mut b = Board::new(2, 2);
    b.place_mine_at(1, 1);
    assert_eq!(b.index_board(1, 1), CellContent::Mine);
    assert_eq!(b.index_board(0, 0), CellContent::Empty);
    assert_eq!(b.index_board(-1, 0), CellContent::Empty);
    assert_eq!(b.index_board(2, 0), CellContent::Empty);
    assert_eq!(b.index_board(0, 5), CellContent::Empty);
}

#[test]
fn find_neighbors_lists_all_eight_cells() {
    let mut b = Board::new(3, 3);
    b.place_mine_at(0, 0);
    let n = b.find_neighbors(1, 1);
    assert_eq!(n.len(), 8);
    assert_eq!(n[0], (1, 0, CellContent::Empty));
    assert_eq!(n[1], (1, 2, CellContent::Empty));
    assert_eq!(n[2], (0, 1, CellContent::Empty));
    assert_eq!(n[3], (2, 1, CellContent::Empty));
    assert_eq!(n[4], (0, 0, CellContent::Mine));
    assert_eq!(n[5], (0, 2, CellContent::Empty));
    assert_eq!(n[6], (2, 0, CellContent::Empty));
    assert_eq!(n[7], (2, 2, CellContent::Empty));
}

#[test]
fn find_neighbors_no_diagonal_lists_the_four_orthogonal_cells() {
    let mut b = Board::new(3, 3);
    b.place_mine_at(1, 0);
    let n = b.find_neighbors_no_diagonal(1, 1);
    assert_eq!(n.len(), 4);
    assert_eq!(n[0], (1, 0, CellContent::Mine));
    assert_eq!(n[1], (1, 2, CellContent::Empty));
    assert_eq!(n[2], (0, 1, CellContent::Empty));
    assert_eq!(n[3], (2, 1, CellContent::Empty));
}

#[test]
fn find_close_mines_counts_the_eight_surroundings() {
    let mut b = Board::new(3, 3);
    b.place_mine_at(0, 0);
    b.place_mine_at(2, 1);
    b.place_mine_at(1, 2);
    assert_eq!(b.find_close_mines(1, 1), 3);
    assert_eq!(b.find_close_mines(0, 2), 1);
    assert_eq!(b.find_close_mines(2, 0), 1);
    // a mine on the cell itself is not part of its own count
    assert_eq!(b.find_close_mines(0, 0), 0);
}

#[test]
fn total_mines_counts_the_whole_grid() {
    let mut b = Board::new(4, 4);
    assert_eq!(b.total_mines(), 0);
    b.place_mine_at(0, 0);
    b.place_mine_at(3, 2);
    assert_eq!(b.total_mines(), 2);
    assert_eq!(b.mines, 2);
}

#[test]
fn content_and_visibility_reject_out_of_bounds() {
    let b = Board::new(2, 2);
    assert!(b.content(0, 1).is_ok());
    assert!(b.visibility(1, 0).is_ok());
    assert_eq!(b.content(2, 0), Err(GameError::OutOfBounds));
    assert_eq!(b.visibility(0, 2), Err(GameError::OutOfBounds));
}

#[test]
fn get_x_and_y_converts_to_zero_based() {
    let c = Console::new();
    assert_eq!(c.get_x_and_y(1, 1), Ok((0, 0)));
    assert_eq!(c.get_x_and_y(3, 7), Ok((2, 6)));
    assert_eq!(c.get_x_and_y(0, 1), Err(GameError::OutOfBounds));
    assert_eq!(c.get_x_and_y(1, 0), Err(GameError::OutOfBounds));
}
