//! Scenario tests for the board engine: placement, first-click safety, the
//! flood-fill cascade, flagging, and win/loss evaluation.

use minesweeper::board::Board;
use minesweeper::types::CellContent;
use minesweeper::types::CellView;
use minesweeper::types::ClickOutcome;
use minesweeper::types::FlagOutcome;
use minesweeper::types::GameError;
use minesweeper::types::GameStatus;
use minesweeper::types::Visibility;

#[test]
fn new_board_starts_hidden_and_empty() {
    let b = Board::new(3, 4);
    assert_eq!(b.width, 3);
    assert_eq!(b.height, 4);
    assert_eq!(b.mines, 0);
    assert_eq!(b.remaining_flags, 0);
    assert_eq!(b.status, GameStatus::Playing);
    assert_eq!(b.content.len(), 12);
    assert_eq!(b.visibility.len(), 12);
    for i in 0..12 {
        assert_eq!(b.content[i], CellContent::Empty);
        assert_eq!(b.visibility[i], Visibility::Hidden);
    }
    assert_eq!(b.total_mines(), 0);
}

#[test]
fn place_mines_places_exact_count() {
    let mut b = Board::new(9, 9);
    b.place_mines(10);
    assert_eq!(b.total_mines(), 10);
    assert_eq!(b.mines, 10);
    assert_eq!(b.remaining_flags, 10);
    assert_eq!(b.status, GameStatus::Playing);
    // no duplicates by construction: exactly ten distinct cells hold a mine
    let mut seen = 0;
    for i in 0..81 {
        if b.content[i] == CellContent::Mine {
            seen += 1;
        }
    }
    assert_eq!(seen, 10);
}

#[test]
fn place_mines_zero_is_allowed() {
    let mut b = Board::new(3, 3);
    b.place_mines(0);
    assert_eq!(b.total_mines(), 0);
    assert_eq!(b.remaining_flags, 0);
}

#[test]
fn first_click_is_safe_and_preserves_mine_count() {
    let mut b = Board::new(9, 9);
    b.place_mines(10);
    let r = b.first_click(4, 4);
    assert_eq!(r, Ok(ClickOutcome::Opened(0)));
    assert_eq!(b.total_mines(), 10);
    assert_eq!(b.find_close_mines(4, 4), 0);
    assert_eq!(b.index_board(4, 4), CellContent::Empty);
    assert_eq!(b.visibility(4, 4), Ok(Visibility::Revealed));
}

#[test]
fn first_click_relocates_single_mine() {
    // 3x3 board, single mine at (0, 0); the first click at (2, 2) must move
    // every mine away from (2, 2) and its neighborhood, then reveal
    let mut b = Board::new(3, 3);
    b.place_mine_at(0, 0);
    let r = b.first_click(2, 2);
    assert_eq!(r, Ok(ClickOutcome::Opened(0)));
    assert_eq!(b.total_mines(), 1);
    assert_eq!(b.index_board(2, 2), CellContent::Empty);
    assert_eq!(b.index_board(1, 1), CellContent::Empty);
    assert_eq!(b.index_board(2, 1), CellContent::Empty);
    assert_eq!(b.index_board(1, 2), CellContent::Empty);
    assert_eq!(b.find_close_mines(2, 2), 0);
}

#[test]
fn click_cascades_over_mine_free_board() {
    // 3x3 board, no mines: one click reveals all nine cells in one call
    let mut b = Board::new(3, 3);
    b.place_mines(0);
    let r = b.click(1, 1);
    assert_eq!(r, Ok(ClickOutcome::Opened(0)));
    for i in 0..9 {
        assert_eq!(b.visibility[i], Visibility::Revealed);
    }
    // with no mines the empty flag set already equals the mine set
    assert_eq!(b.status, GameStatus::Won);
}

#[test]
fn cascade_stops_at_numbered_boundary() {
    // 4x1 row with a mine at the far end: the cascade reveals the zero cells
    // and the boundary leaf, but never the mine
    let mut b = Board::new(4, 1);
    b.place_mine_at(3, 0);
    let r = b.click(0, 0);
    assert_eq!(r, Ok(ClickOutcome::Opened(0)));
    assert_eq!(b.visibility(0, 0), Ok(Visibility::Revealed));
    assert_eq!(b.visibility(1, 0), Ok(Visibility::Revealed));
    assert_eq!(b.visibility(2, 0), Ok(Visibility::Revealed));
    assert_eq!(b.visibility(3, 0), Ok(Visibility::Hidden));
    assert_eq!(b.status, GameStatus::Playing);
}

#[test]
fn cascade_handles_large_board() {
    // the iterative worklist must cover a large all-empty board in one call
    let mut b = Board::new(50, 50);
    b.place_mines(0);
    let r = b.click(25, 25);
    assert_eq!(r, Ok(ClickOutcome::Opened(0)));
    for i in 0..2500 {
        assert_eq!(b.visibility[i], Visibility::Revealed);
    }
}

#[test]
fn cascade_does_not_reveal_flagged_cells() {
    let mut b = Board::new(3, 3);
    b.place_mines(0);
    assert_eq!(b.flag(0, 0), Ok(FlagOutcome::Flagged));
    let r = b.click(2, 2);
    assert_eq!(r, Ok(ClickOutcome::Opened(0)));
    assert_eq!(b.visibility(0, 0), Ok(Visibility::Flagged));
    for i in 1..9 {
        assert_eq!(b.visibility[i], Visibility::Revealed);
    }
}

#[test]
fn click_on_flagged_or_revealed_cell_is_rejected() {
    let mut b = Board::new(3, 3);
    b.place_mine_at(0, 0);
    assert_eq!(b.flag(2, 2), Ok(FlagOutcome::Flagged));
    let before_vis = b.visibility.clone();
    let before_remaining = b.remaining_flags;
    // flagged cell
    assert_eq!(b.click(2, 2), Err(GameError::Blocked));
    assert_eq!(b.visibility, before_vis);
    assert_eq!(b.remaining_flags, before_remaining);
    assert_eq!(b.status, GameStatus::Playing);
    // revealed cell
    assert_eq!(b.click(1, 1), Ok(ClickOutcome::Opened(1)));
    let before_vis = b.visibility.clone();
    assert_eq!(b.click(1, 1), Err(GameError::Blocked));
    assert_eq!(b.visibility, before_vis);
    assert_eq!(b.total_mines(), 1);
}

#[test]
fn click_out_of_bounds_is_rejected() {
    let mut b = Board::new(3, 3);
    let before_vis = b.visibility.clone();
    assert_eq!(b.click(3, 0), Err(GameError::OutOfBounds));
    assert_eq!(b.click(0, 200), Err(GameError::OutOfBounds));
    assert_eq!(b.visibility, before_vis);
    assert_eq!(b.status, GameStatus::Playing);
}

#[test]
fn flag_toggle_restores_counter_and_visibility() {
    let mut b = Board::new(4, 4);
    b.place_mine_at(0, 0);
    b.place_mine_at(3, 3);
    assert_eq!(b.remaining_flags, 2);
    assert_eq!(b.flag(1, 1), Ok(FlagOutcome::Flagged));
    assert_eq!(b.remaining_flags, 1);
    assert_eq!(b.visibility(1, 1), Ok(Visibility::Flagged));
    assert_eq!(b.flag(1, 1), Ok(FlagOutcome::Unflagged));
    assert_eq!(b.remaining_flags, 2);
    assert_eq!(b.visibility(1, 1), Ok(Visibility::Hidden));
}

#[test]
fn flag_on_revealed_cell_is_rejected() {
    let mut b = Board::new(3, 3);
    b.place_mine_at(0, 0);
    assert_eq!(b.click(2, 2), Ok(ClickOutcome::Opened(0)));
    let before_remaining = b.remaining_flags;
    assert_eq!(b.flag(2, 2), Err(GameError::Blocked));
    assert_eq!(b.remaining_flags, before_remaining);
    assert_eq!(b.visibility(2, 2), Ok(Visibility::Revealed));
}

#[test]
fn flag_out_of_bounds_is_rejected() {
    let mut b = Board::new(3, 3);
    assert_eq!(b.flag(7, 0), Err(GameError::OutOfBounds));
    assert_eq!(b.remaining_flags, 0);
}

#[test]
fn opening_a_mine_loses_and_freezes_the_game() {
    let mut b = Board::new(3, 3);
    b.place_mine_at(0, 0);
    assert_eq!(b.click(0, 0), Ok(ClickOutcome::HitMine));
    assert_eq!(b.status, GameStatus::Lost);
    assert_eq!(b.visibility(0, 0), Ok(Visibility::Revealed));
    let before_vis = b.visibility.clone();
    let before_content = b.content.clone();
    assert_eq!(b.click(1, 1), Err(GameError::GameOver));
    assert_eq!(b.flag(1, 1), Err(GameError::GameOver));
    assert_eq!(b.visibility, before_vis);
    assert_eq!(b.content, before_content);
    assert_eq!(b.status, GameStatus::Lost);
}

#[test]
fn flagging_exact_mine_set_wins_despite_detours() {
    let mut b = Board::new(3, 3);
    b.place_mine_at(0, 0);
    b.place_mine_at(2, 2);
    // a wrong flag, set and undone again, must not matter
    assert_eq!(b.flag(1, 1), Ok(FlagOutcome::Flagged));
    assert_eq!(b.status, GameStatus::Playing);
    assert_eq!(b.flag(0, 0), Ok(FlagOutcome::Flagged));
    assert_eq!(b.status, GameStatus::Playing);
    assert_eq!(b.flag(1, 1), Ok(FlagOutcome::Unflagged));
    assert_eq!(b.status, GameStatus::Playing);
    assert_eq!(b.flag(2, 2), Ok(FlagOutcome::Flagged));
    assert_eq!(b.status, GameStatus::Won);
}

#[test]
fn wrong_flags_alone_do_not_win() {
    // matching the count with wrongly chosen cells must not count as a win
    let mut b = Board::new(3, 3);
    b.place_mine_at(0, 0);
    assert_eq!(b.flag(1, 1), Ok(FlagOutcome::Flagged));
    assert_eq!(b.remaining_flags, 0);
    assert_eq!(b.status, GameStatus::Playing);
}

#[test]
fn winning_freezes_the_game() {
    // 5x5 board, one mine at (4, 4): flagging it wins; a terminal game
    // rejects the next toggle instead of reverting
    let mut b = Board::new(5, 5);
    b.place_mine_at(4, 4);
    assert_eq!(b.flag(4, 4), Ok(FlagOutcome::Flagged));
    assert_eq!(b.status, GameStatus::Won);
    assert_eq!(b.flag(4, 4), Err(GameError::GameOver));
    assert_eq!(b.status, GameStatus::Won);
    assert_eq!(b.visibility(4, 4), Ok(Visibility::Flagged));
}

#[test]
fn render_view_derives_display_values() {
    let mut b = Board::new(2, 2);
    b.place_mine_at(0, 0);
    assert_eq!(b.flag(0, 0), Ok(FlagOutcome::Flagged));
    assert_eq!(b.status, GameStatus::Won);
    let v = b.render_view();
    assert_eq!(v.len(), 4);
    assert_eq!(v[0], CellView::Flagged);
    assert_eq!(v[1], CellView::Hidden);
    assert_eq!(v[2], CellView::Hidden);
    assert_eq!(v[3], CellView::Hidden);
}

#[test]
fn render_view_shows_counts_and_the_hit_mine() {
    let mut b = Board::new(2, 2);
    b.place_mine_at(0, 0);
    assert_eq!(b.click(1, 1), Ok(ClickOutcome::Opened(1)));
    assert_eq!(b.click(0, 0), Ok(ClickOutcome::HitMine));
    let v = b.render_view();
    assert_eq!(v[0], CellView::Mine);
    assert_eq!(v[3], CellView::Open(1));
    assert_eq!(v[1], CellView::Hidden);
    assert_eq!(v[2], CellView::Hidden);
}
