//! Tests for the board's documented properties: agreement of the two win
//! checks, turn alternation, move rejection, and value semantics.

use connect_four::board::{H, W};
use connect_four::{Board, Error, GameResult, Team};

/// After every move of a played-out sequence, the incremental check on the
/// played column answers exactly as the full scan.
#[test]
fn full_vs_incremental_agree_along_game() {
    let columns = [3, 3, 2, 4, 4, 2, 5, 1, 0, 6, 2, 3, 1, 5, 6, 0, 1, 2];
    let mut board = Board::default();
    let mut mover = Team::X;
    for &column in &columns {
        board.put_tile(column, mover).unwrap();
        assert_eq!(board.game_result_on_change(column), board.game_result());
        if board.game_result().is_some() {
            return;
        }
        mover = mover.other();
    }
}

/// Starting from empty, the side to move alternates X, O, X, O, ... after
/// each successful move.
#[test]
fn turn_alternation() {
    let mut board = Board::default();
    assert_eq!(board.whos_turn(), Team::X);
    board.put_tile(0, Team::X).unwrap();
    assert_eq!(board.whos_turn(), Team::O);
    board.put_tile(4, Team::O).unwrap();
    assert_eq!(board.whos_turn(), Team::X);
    board.put_tile(2, Team::X).unwrap();
    assert_eq!(board.whos_turn(), Team::O);
    board.put_tile(2, Team::O).unwrap();
    assert_eq!(board.whos_turn(), Team::X);
}

/// A move into a full column is rejected with the acting team attributed,
/// and leaves the board unchanged.
#[test]
fn full_column_rejected() {
    let mut board = Board::default();
    for _ in 0..H {
        board.put_tile(2, Team::X).unwrap();
        board.put_tile(3, Team::O).unwrap();
    }
    let before = board;
    assert_eq!(board.put_tile(2, Team::O), Err(Error::FieldFullAtColumn(Team::O)));
    assert_eq!(board, before);
    assert_eq!(board.put_tile(3, Team::X), Err(Error::FieldFullAtColumn(Team::X)));
    assert_eq!(board, before);
}

/// A move outside the board is rejected and leaves the board unchanged.
#[test]
fn out_of_bounds_rejected() {
    let mut board = Board::default();
    board.put_tile(1, Team::X).unwrap();
    let before = board;
    assert_eq!(board.put_tile(W, Team::O), Err(Error::IndexOutOfBounds));
    assert_eq!(board, before);
    assert_eq!(board.put_tile(100, Team::O), Err(Error::IndexOutOfBounds));
    assert_eq!(board, before);
}

/// Mutating a copy of a board must not alter the original.
#[test]
fn value_semantics() {
    let mut original = Board::default();
    original.put_tile(3, Team::X).unwrap();
    let mut copy = original;
    copy.put_tile(3, Team::O).unwrap();
    copy.put_tile(0, Team::X).unwrap();
    assert_eq!(original.field()[3 * H + 1], None);
    assert_eq!(original.field()[0], None);
    assert_eq!(copy.field()[3 * H + 1], Some(Team::O));
    assert_eq!(copy.field()[0], Some(Team::X));
    assert_eq!(original.game_result(), None);
    assert_ne!(original, copy);
}

/// The open columns are reported in increasing order, and a full column
/// drops out of the set.
#[test]
fn possible_moves_contents() {
    let mut board = Board::default();
    assert_eq!(board.possible_moves(), vec![0, 1, 2, 3, 4, 5, 6]);
    for _ in 0..H {
        board.put_tile(4, Team::X).unwrap();
    }
    assert_eq!(board.possible_moves(), vec![0, 1, 2, 3, 5, 6]);
}

/// The board reports its fixed dimensions.
#[test]
fn dimensions() {
    let board = Board::default();
    assert_eq!(board.dimensions(), (7, 6));
}

/// A lone tile scores exactly its three empty in-bounds neighbors, with
/// the sign depending on who asks.
#[test]
fn heuristic_single_corner_tile() {
    let mut board = Board::default();
    board.put_tile(0, Team::X).unwrap();
    assert_eq!(board.heuristic_1(Team::X), 3);
    assert_eq!(board.heuristic_1(Team::O), -3);
}

/// The heuristic short-circuits decided boards to the extreme values and
/// a full drawn board to zero.
#[test]
fn heuristic_terminal_values() {
    let mut board = Board::default();
    for column in 0..4 {
        board.put_tile(column, Team::O).unwrap();
    }
    assert_eq!(board.heuristic_1(Team::O), i64::MAX);
    assert_eq!(board.heuristic_1(Team::X), i64::MIN);
}
