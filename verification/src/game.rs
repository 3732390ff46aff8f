//! Game loop: two players act on a shared board until a terminal result.

use vstd::prelude::*;

verus! {

use crate::board::{
    cell, col_fill, count_pieces, has_line, is_full, no_winner, Board, GameResult, Team, AREA, H, W,
};
use crate::builder::GameBuilder;
use crate::error::Error;
use crate::laws::{lemma_col_fill, lemma_count_bounds, lemma_count_update, lemma_move_result};
use crate::player::Player;

/// An instance of a connect four game.
#[derive(Debug, Clone)]
pub struct Game<PX: Player, PO: Player> {
    /// Game board.
    board: Board,
    /// Player for team X, starting player.
    player_x: PX,
    /// Player for team O, second player.
    player_o: PO,
}

impl<PX: Player, PO: Player> Game<PX, PO> {
    /// The game's board, as a spec-level value.
    pub closed spec fn spec_board(self) -> Board {
        self.board
    }

    /// The player acting for team X, as a spec-level value.
    pub closed spec fn spec_player_x(self) -> PX {
        self.player_x
    }

    /// The player acting for team O, as a spec-level value.
    pub closed spec fn spec_player_o(self) -> PO {
        self.player_o
    }

    /// Put a game together from a board and its two players.
    pub(crate) fn assemble(board: Board, player_x: PX, player_o: PO) -> (g: Self)
        ensures
            g.spec_board() == board,
            g.spec_player_x() == player_x,
            g.spec_player_o() == player_o,
    {
        Game { board, player_x, player_o }
    }

    /// Start building a game.
    pub fn builder() -> (b: GameBuilder<PX, PO>)
        ensures
            b.spec_player_x() is None,
            b.spec_player_o() is None,
    {
        GameBuilder::default()
    }

    /// Return the current board position.
    #[must_use]
    pub fn board(&self) -> (b: &Board)
        ensures
            *b == self.spec_board(),
    {
        &self.board
    }

    /// Run the game to completion using the players as actors. Returns the
    /// game result; a player answering with an unplayable column surfaces
    /// as that `put_tile` error.
    #[verifier::rlimit(60)]
    pub fn run(&mut self) -> (r: Result<GameResult, Error>)
        requires
            old(self).spec_board().wf(),
            no_winner(old(self).spec_board()@),
            !is_full(old(self).spec_board()@),
        ensures
            final(self).spec_board().wf(),
            final(self).spec_player_x() == old(self).spec_player_x(),
            final(self).spec_player_o() == old(self).spec_player_o(),
            match r {
                Ok(GameResult::Winner(t)) => has_line(final(self).spec_board()@, t) && !has_line(
                    final(self).spec_board()@,
                    t.spec_other(),
                ),
                Ok(GameResult::Draw) => is_full(final(self).spec_board()@) && no_winner(
                    final(self).spec_board()@,
                ),
                Err(e) => e == Error::IndexOutOfBounds || e matches Error::FieldFullAtColumn(_),
            },
    {
        proof {
            lemma_count_bounds(self.board@, self.board@.len() as int);
        }
        loop
            invariant
                self.board.wf(),
                no_winner(self.board@),
                !is_full(self.board@),
                count_pieces(self.board@) <= AREA,
                self.player_x == old(self).player_x,
                self.player_o == old(self).player_o,
            decreases AREA - count_pieces(self.board@),
        {
            let move_x = self.player_x.make_move(&self.board, Team::X);
            let ghost pre = self.board@;
            let res = self.board.put_tile(move_x, Team::X);
            proof {
                if move_x < W {
                    lemma_col_fill(pre, move_x as int);
                }
            }
            if let Err(e) = res {
                return Err(e);
            }
            proof {
                lemma_move_result(pre, move_x as int, Team::X);
                assert(cell(pre, move_x as int, col_fill(pre, move_x as int)) is None);
                lemma_count_update(
                    pre,
                    (move_x as int) * (H as int) + col_fill(pre, move_x as int),
                    Team::X,
                );
                lemma_count_bounds(self.board@, self.board@.len() as int);
            }
            if let Some(result) = self.board.game_result_on_change(move_x) {
                return Ok(result);
            }

            let move_o = self.player_o.make_move(&self.board, Team::O);
            let ghost pre = self.board@;
            let res = self.board.put_tile(move_o, Team::O);
            proof {
                if move_o < W {
                    lemma_col_fill(pre, move_o as int);
                }
            }
            if let Err(e) = res {
                return Err(e);
            }
            proof {
                lemma_move_result(pre, move_o as int, Team::O);
                assert(cell(pre, move_o as int, col_fill(pre, move_o as int)) is None);
                lemma_count_update(
                    pre,
                    (move_o as int) * (H as int) + col_fill(pre, move_o as int),
                    Team::O,
                );
                lemma_count_bounds(self.board@, self.board@.len() as int);
            }
            if let Some(result) = self.board.game_result_on_change(move_o) {
                return Ok(result);
            }
        }
    }

    /// Run the game with conversion of illegal-move errors into a game
    /// loss: a player answering with a full column immediately loses. Only
    /// an out-of-range column — a broken player rather than a bad move —
    /// still surfaces as an error.
    #[verifier::rlimit(60)]
    pub fn run_error_loss(&mut self) -> (r: Result<GameResult, Error>)
        requires
            old(self).spec_board().wf(),
            no_winner(old(self).spec_board()@),
            !is_full(old(self).spec_board()@),
        ensures
            final(self).spec_board().wf(),
            final(self).spec_player_x() == old(self).spec_player_x(),
            final(self).spec_player_o() == old(self).spec_player_o(),
            match r {
                Ok(GameResult::Winner(t)) => (has_line(final(self).spec_board()@, t) && !has_line(
                    final(self).spec_board()@,
                    t.spec_other(),
                )) || (no_winner(final(self).spec_board()@) && !is_full(final(self).spec_board()@)),
                Ok(GameResult::Draw) => is_full(final(self).spec_board()@) && no_winner(
                    final(self).spec_board()@,
                ),
                Err(e) => e == Error::IndexOutOfBounds,
            },
    {
        proof {
            lemma_count_bounds(self.board@, self.board@.len() as int);
        }
        loop
            invariant
                self.board.wf(),
                no_winner(self.board@),
                !is_full(self.board@),
                count_pieces(self.board@) <= AREA,
                self.player_x == old(self).player_x,
                self.player_o == old(self).player_o,
            decreases AREA - count_pieces(self.board@),
        {
            let move_x = self.player_x.make_move(&self.board, Team::X);
            let ghost pre = self.board@;
            let res = self.board.put_tile(move_x, Team::X);
            proof {
                if move_x < W {
                    lemma_col_fill(pre, move_x as int);
                }
            }
            match res {
                Err(Error::FieldFullAtColumn(team)) => {
                    return Ok(GameResult::Winner(team.other()));
                },
                Err(e) => {
                    return Err(e);
                },
                Ok(()) => {},
            }
            proof {
                lemma_move_result(pre, move_x as int, Team::X);
                assert(cell(pre, move_x as int, col_fill(pre, move_x as int)) is None);
                lemma_count_update(
                    pre,
                    (move_x as int) * (H as int) + col_fill(pre, move_x as int),
                    Team::X,
                );
                lemma_count_bounds(self.board@, self.board@.len() as int);
            }
            if let Some(result) = self.board.game_result_on_change(move_x) {
                return Ok(result);
            }

            let move_o = self.player_o.make_move(&self.board, Team::O);
            let ghost pre = self.board@;
            let res = self.board.put_tile(move_o, Team::O);
            proof {
                if move_o < W {
                    lemma_col_fill(pre, move_o as int);
                }
            }
            match res {
                Err(Error::FieldFullAtColumn(team)) => {
                    return Ok(GameResult::Winner(team.other()));
                },
                Err(e) => {
                    return Err(e);
                },
                Ok(()) => {},
            }
            proof {
                lemma_move_result(pre, move_o as int, Team::O);
                assert(cell(pre, move_o as int, col_fill(pre, move_o as int)) is None);
                lemma_count_update(
                    pre,
                    (move_o as int) * (H as int) + col_fill(pre, move_o as int),
                    Team::O,
                );
                lemma_count_bounds(self.board@, self.board@.len() as int);
            }
            if let Some(result) = self.board.game_result_on_change(move_o) {
                return Ok(result);
            }
        }
    }
}

} // verus!
