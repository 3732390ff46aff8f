//! Tests for the players, the game loop and the evaluation pool.

use connect_four::board::H;
use connect_four::{
    Board, Error, Game, GameBuilder, GameResult, MinimaxPlayer, Player, PlayerPlusEvaluator,
    RandomPlayer, Team,
};

/// With an immediate winning column on offer, a depth-one search takes it.
#[test]
fn minimax_takes_immediate_win() {
    let mut board = Board::default();
    board.put_tile(5, Team::X).unwrap();
    board.put_tile(0, Team::O).unwrap();
    board.put_tile(5, Team::X).unwrap();
    board.put_tile(1, Team::O).unwrap();
    board.put_tile(5, Team::X).unwrap();
    board.put_tile(2, Team::O).unwrap();
    let player = MinimaxPlayer::new_1(1);
    let column = player.make_move(&board, Team::X);
    assert_eq!(column, 5);
    board.put_tile(column, Team::X).unwrap();
    assert_eq!(board.game_result(), Some(GameResult::Winner(Team::X)));
}

/// A deeper search also finds the immediate vertical win.
#[test]
fn minimax_deeper_takes_immediate_win() {
    let mut board = Board::default();
    board.put_tile(3, Team::O).unwrap();
    board.put_tile(3, Team::O).unwrap();
    board.put_tile(3, Team::O).unwrap();
    let player = MinimaxPlayer::new_1(4);
    let column = player.make_move(&board, Team::O);
    board.put_tile(column, Team::O).unwrap();
    assert_eq!(board.game_result_on_change(column), Some(GameResult::Winner(Team::O)));
}

/// A search deep enough to expand the opponent's replies must block the
/// three-in-a-column threat: any other move lets the opponent win at
/// once.
#[test]
fn minimax_blocks_threat() {
    let mut board = Board::default();
    board.put_tile(0, Team::X).unwrap();
    board.put_tile(6, Team::O).unwrap();
    board.put_tile(2, Team::X).unwrap();
    board.put_tile(6, Team::O).unwrap();
    board.put_tile(4, Team::X).unwrap();
    board.put_tile(6, Team::O).unwrap();
    let player = MinimaxPlayer::new_1(3);
    let column = player.make_move(&board, Team::X);
    assert_eq!(column, 6);
}

/// On an empty board every answer is fine, but it must be playable.
#[test]
fn random_player_moves_are_playable() {
    let board = Board::default();
    let player = RandomPlayer;
    for _ in 0..50 {
        let column = player.make_move(&board, Team::X);
        assert!(board.possible_moves().contains(&column));
    }
}

/// With a single open column left, the random player must pick it.
#[test]
fn random_player_single_column() {
    let mut board = Board::default();
    for column in [0, 1, 2, 4, 5, 6] {
        for _ in 0..H {
            board.put_tile(column, board.whos_turn()).unwrap();
        }
    }
    assert_eq!(board.possible_moves(), vec![3]);
    let player = RandomPlayer;
    assert_eq!(player.make_move(&board, board.whos_turn()), 3);
}

/// Two minimax players run a full game to a result through the builder.
#[test]
fn game_runs_to_completion() {
    let mut game = Game::builder()
        .player_x(MinimaxPlayer::new_1(2))
        .player_o(MinimaxPlayer::new_1(1))
        .build()
        .unwrap();
    let result = game.run().unwrap();
    match result {
        GameResult::Winner(_) => assert!(game.board().game_result().is_some()),
        GameResult::Draw => assert_eq!(game.board().game_result(), Some(GameResult::Draw)),
    }
}

/// Minimax against a random player in the error-converting mode finishes
/// with a result rather than an error.
#[test]
fn game_error_loss_mode_runs() {
    for _ in 0..10 {
        let mut game = Game::builder()
            .player_x(MinimaxPlayer::new_1(3))
            .player_o(RandomPlayer)
            .build()
            .unwrap();
        let result = game.run_error_loss();
        assert!(result.is_ok());
    }
}

/// A builder without both players refuses to build.
#[test]
fn builder_missing_player() {
    let builder: GameBuilder<RandomPlayer, RandomPlayer> = Game::builder();
    assert!(matches!(builder.build(), Err(Error::BuilderMissingField)));

    let builder: GameBuilder<RandomPlayer, RandomPlayer> = Game::builder();
    assert!(builder.player_x(RandomPlayer).build().is_err());
}

/// Each team's opponent is the other team.
#[test]
fn team_other() {
    assert_eq!(Team::X.other(), Team::O);
    assert_eq!(Team::O.other(), Team::X);
}

/// The evaluation pool keeps the models that are added to it.
#[test]
fn evaluator_keeps_models() {
    let evaluator: PlayerPlusEvaluator<RandomPlayer> = PlayerPlusEvaluator::default();
    assert_eq!(evaluator.previous().len(), 0);
    let mut evaluator = evaluator.with_model(RandomPlayer);
    assert_eq!(evaluator.previous().len(), 1);
    evaluator.add_model(RandomPlayer).add_model(RandomPlayer);
    assert_eq!(evaluator.previous().len(), 3);
}
