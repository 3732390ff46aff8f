//! Board state tests.

use connect_four::board::{H, W};
use connect_four::{Board, GameResult, Team};

/// Make sure each tile on the board only takes a single byte.
#[test]
fn size_of() {
    let size_of = std::mem::size_of::<Board>();
    assert_eq!(size_of, W * H);
}

#[test]
fn state_check() {
    let board = Board::default();
    assert_eq!(board.game_result(), None);

    let mut board = Board::default();
    board.put_tile(0, Team::X).unwrap();
    board.put_tile(1, Team::X).unwrap();
    board.put_tile(2, Team::X).unwrap();
    board.put_tile(3, Team::X).unwrap();
    assert_eq!(board.game_result(), Some(GameResult::Winner(Team::X)));

    let mut board = Board::default();
    board.put_tile(3, Team::X).unwrap();
    board.put_tile(3, Team::X).unwrap();
    board.put_tile(3, Team::X).unwrap();
    board.put_tile(3, Team::X).unwrap();
    assert_eq!(board.game_result(), Some(GameResult::Winner(Team::X)));

    let mut board = Board::default();
    board.put_tile(0, Team::X).unwrap();
    board.put_tile(1, Team::O).unwrap();
    board.put_tile(1, Team::X).unwrap();
    board.put_tile(2, Team::O).unwrap();
    board.put_tile(2, Team::O).unwrap();
    board.put_tile(2, Team::X).unwrap();
    board.put_tile(3, Team::O).unwrap();
    board.put_tile(3, Team::O).unwrap();
    board.put_tile(3, Team::O).unwrap();
    board.put_tile(3, Team::X).unwrap();
    assert_eq!(board.game_result(), Some(GameResult::Winner(Team::X)));

    let mut board = Board::default();
    board.put_tile(3, Team::X).unwrap();
    board.put_tile(2, Team::O).unwrap();
    board.put_tile(2, Team::X).unwrap();
    board.put_tile(1, Team::O).unwrap();
    board.put_tile(1, Team::O).unwrap();
    board.put_tile(1, Team::X).unwrap();
    board.put_tile(0, Team::O).unwrap();
    board.put_tile(0, Team::O).unwrap();
    board.put_tile(0, Team::O).unwrap();
    board.put_tile(0, Team::X).unwrap();
    assert_eq!(board.game_result(), Some(GameResult::Winner(Team::X)));

    let mut board = Board::default();
    board.put_tile(0, Team::X).unwrap();
    board.put_tile(0, Team::O).unwrap();
    board.put_tile(0, Team::X).unwrap();
    board.put_tile(0, Team::O).unwrap();
    board.put_tile(0, Team::X).unwrap();
    board.put_tile(0, Team::O).unwrap();
    board.put_tile(1, Team::O).unwrap();
    board.put_tile(1, Team::X).unwrap();
    board.put_tile(1, Team::O).unwrap();
    board.put_tile(1, Team::X).unwrap();
    board.put_tile(1, Team::O).unwrap();
    board.put_tile(1, Team::X).unwrap();
    board.put_tile(2, Team::X).unwrap();
    board.put_tile(2, Team::O).unwrap();
    board.put_tile(2, Team::X).unwrap();
    board.put_tile(2, Team::O).unwrap();
    board.put_tile(2, Team::X).unwrap();
    board.put_tile(2, Team::O).unwrap();
    board.put_tile(3, Team::X).unwrap();
    board.put_tile(3, Team::O).unwrap();
    board.put_tile(3, Team::X).unwrap();
    board.put_tile(3, Team::O).unwrap();
    board.put_tile(3, Team::X).unwrap();
    board.put_tile(3, Team::O).unwrap();
    board.put_tile(4, Team::X).unwrap();
    board.put_tile(4, Team::O).unwrap();
    board.put_tile(4, Team::X).unwrap();
    board.put_tile(4, Team::O).unwrap();
    board.put_tile(4, Team::X).unwrap();
    board.put_tile(4, Team::O).unwrap();
    board.put_tile(5, Team::O).unwrap();
    board.put_tile(5, Team::X).unwrap();
    board.put_tile(5, Team::O).unwrap();
    board.put_tile(5, Team::X).unwrap();
    board.put_tile(5, Team::O).unwrap();
    board.put_tile(5, Team::X).unwrap();
    board.put_tile(6, Team::X).unwrap();
    board.put_tile(6, Team::O).unwrap();
    board.put_tile(6, Team::X).unwrap();
    board.put_tile(6, Team::O).unwrap();
    board.put_tile(6, Team::X).unwrap();
    board.put_tile(6, Team::O).unwrap();
    println!("Board:\n{board:?}");
    assert_eq!(board.game_result(), Some(GameResult::Draw));
}

#[test]
fn state_check_on_change() {
    let mut board = Board::default();
    board.put_tile(3, Team::X).unwrap();
    assert_eq!(board.game_result_on_change(3), None);
    assert_eq!(board.game_result_on_change(0), None);

    let mut board = Board::default();
    board.put_tile(0, Team::X).unwrap();
    board.put_tile(1, Team::X).unwrap();
    board.put_tile(2, Team::X).unwrap();
    board.put_tile(3, Team::X).unwrap();
    assert_eq!(board.game_result_on_change(0), Some(GameResult::Winner(Team::X)));
    assert_eq!(board.game_result_on_change(1), Some(GameResult::Winner(Team::X)));
    assert_eq!(board.game_result_on_change(2), Some(GameResult::Winner(Team::X)));
    assert_eq!(board.game_result_on_change(3), Some(GameResult::Winner(Team::X)));

    let mut board = Board::default();
    board.put_tile(3, Team::X).unwrap();
    board.put_tile(3, Team::X).unwrap();
    board.put_tile(3, Team::X).unwrap();
    board.put_tile(3, Team::X).unwrap();
    assert_eq!(board.game_result_on_change(3), Some(GameResult::Winner(Team::X)));

    let mut board = Board::default();
    board.put_tile(0, Team::X).unwrap();
    board.put_tile(1, Team::O).unwrap();
    board.put_tile(1, Team::X).unwrap();
    board.put_tile(2, Team::O).unwrap();
    board.put_tile(2, Team::O).unwrap();
    board.put_tile(2, Team::X).unwrap();
    board.put_tile(3, Team::O).unwrap();
    board.put_tile(3, Team::O).unwrap();
    board.put_tile(3, Team::O).unwrap();
    board.put_tile(3, Team::X).unwrap();
    assert_eq!(board.game_result_on_change(0), Some(GameResult::Winner(Team::X)));
    assert_eq!(board.game_result_on_change(1), Some(GameResult::Winner(Team::X)));
    assert_eq!(board.game_result_on_change(2), Some(GameResult::Winner(Team::X)));
    assert_eq!(board.game_result_on_change(3), Some(GameResult::Winner(Team::X)));

    let mut board = Board::default();
    board.put_tile(3, Team::X).unwrap();
    board.put_tile(2, Team::O).unwrap();
    board.put_tile(2, Team::X).unwrap();
    board.put_tile(1, Team::O).unwrap();
    board.put_tile(1, Team::O).unwrap();
    board.put_tile(1, Team::X).unwrap();
    board.put_tile(0, Team::O).unwrap();
    board.put_tile(0, Team::O).unwrap();
    board.put_tile(0, Team::O).unwrap();
    board.put_tile(0, Team::X).unwrap();
    assert_eq!(board.game_result_on_change(3), Some(GameResult::Winner(Team::X)));
    assert_eq!(board.game_result_on_change(2), Some(GameResult::Winner(Team::X)));
    assert_eq!(board.game_result_on_change(1), Some(GameResult::Winner(Team::X)));
    assert_eq!(board.game_result_on_change(0), Some(GameResult::Winner(Team::X)));

    let mut board = Board::default();
    board.put_tile(0, Team::X).unwrap();
    board.put_tile(0, Team::O).unwrap();
    board.put_tile(0, Team::X).unwrap();
    board.put_tile(0, Team::O).unwrap();
    board.put_tile(0, Team::X).unwrap();
    board.put_tile(0, Team::O).unwrap();
    board.put_tile(1, Team::O).unwrap();
    board.put_tile(1, Team::X).unwrap();
    board.put_tile(1, Team::O).unwrap();
    board.put_tile(1, Team::X).unwrap();
    board.put_tile(1, Team::O).unwrap();
    board.put_tile(1, Team::X).unwrap();
    board.put_tile(2, Team::X).unwrap();
    board.put_tile(2, Team::O).unwrap();
    board.put_tile(2, Team::X).unwrap();
    board.put_tile(2, Team::O).unwrap();
    board.put_tile(2, Team::X).unwrap();
    board.put_tile(2, Team::O).unwrap();
    board.put_tile(3, Team::X).unwrap();
    board.put_tile(3, Team::O).unwrap();
    board.put_tile(3, Team::X).unwrap();
    board.put_tile(3, Team::O).unwrap();
    board.put_tile(3, Team::X).unwrap();
    board.put_tile(3, Team::O).unwrap();
    board.put_tile(4, Team::X).unwrap();
    board.put_tile(4, Team::O).unwrap();
    board.put_tile(4, Team::X).unwrap();
    board.put_tile(4, Team::O).unwrap();
    board.put_tile(4, Team::X).unwrap();
    board.put_tile(4, Team::O).unwrap();
    board.put_tile(5, Team::O).unwrap();
    board.put_tile(5, Team::X).unwrap();
    board.put_tile(5, Team::O).unwrap();
    board.put_tile(5, Team::X).unwrap();
    board.put_tile(5, Team::O).unwrap();
    board.put_tile(5, Team::X).unwrap();
    board.put_tile(6, Team::X).unwrap();
    board.put_tile(6, Team::O).unwrap();
    board.put_tile(6, Team::X).unwrap();
    board.put_tile(6, Team::O).unwrap();
    board.put_tile(6, Team::X).unwrap();
    board.put_tile(6, Team::O).unwrap();
    println!("Board:\n{board:?}");
    assert_eq!(board.game_result_on_change(0), Some(GameResult::Draw));
    assert_eq!(board.game_result_on_change(1), Some(GameResult::Draw));
    assert_eq!(board.game_result_on_change(2), Some(GameResult::Draw));
    assert_eq!(board.game_result_on_change(3), Some(GameResult::Draw));
    assert_eq!(board.game_result_on_change(4), Some(GameResult::Draw));
    assert_eq!(board.game_result_on_change(5), Some(GameResult::Draw));
    assert_eq!(board.game_result_on_change(6), Some(GameResult::Draw));
}

#[test]
fn check_state_example_1() {
    let mut board = Board::default();

    board.put_tile(0, Team::O).unwrap();
    board.put_tile(1, Team::X).unwrap();
    board.put_tile(2, Team::O).unwrap();
    board.put_tile(3, Team::X).unwrap();
    board.put_tile(5, Team::O).unwrap();
    board.put_tile(6, Team::O).unwrap();

    board.put_tile(0, Team::O).unwrap();
    board.put_tile(1, Team::O).unwrap();
    board.put_tile(2, Team::X).unwrap();
    board.put_tile(3, Team::X).unwrap();
    board.put_tile(5, Team::X).unwrap();
    board.put_tile(6, Team::O).unwrap();

    board.put_tile(0, Team::X).unwrap();
    board.put_tile(1, Team::X).unwrap();
    board.put_tile(2, Team::O).unwrap();
    board.put_tile(3, Team::O).unwrap();
    board.put_tile(5, Team::X).unwrap();
    board.put_tile(6, Team::X).unwrap();

    board.put_tile(0, Team::O).unwrap();
    board.put_tile(2, Team::X).unwrap();
    board.put_tile(3, Team::X).unwrap();
    board.put_tile(5, Team::O).unwrap();
    board.put_tile(6, Team::O).unwrap();

    board.put_tile(0, Team::X).unwrap();
    board.put_tile(2, Team::X).unwrap();
    board.put_tile(3, Team::O).unwrap();
    board.put_tile(5, Team::O).unwrap();
    board.put_tile(6, Team::X).unwrap();

    board.put_tile(0, Team::O).unwrap();
    board.put_tile(2, Team::X).unwrap();
    board.put_tile(3, Team::X).unwrap();
    board.put_tile(5, Team::X).unwrap();
    board.put_tile(6, Team::O).unwrap();

    println!("Board:\n{board:?}");
    assert_eq!(board.game_result(), None);
    assert_eq!(board.game_result_on_change(0), None);
    assert_eq!(board.game_result_on_change(1), None);
    assert_eq!(board.game_result_on_change(2), None);
    assert_eq!(board.game_result_on_change(3), None);
    assert_eq!(board.game_result_on_change(4), None);
    assert_eq!(board.game_result_on_change(5), None);
    assert_eq!(board.game_result_on_change(6), None);
}
