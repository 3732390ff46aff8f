//! Builder for the connect four game instance.

use vstd::prelude::*;

verus! {

use crate::board::{is_full, no_winner, Board, AREA};
use crate::error::Error;
use crate::game::Game;
use crate::laws::lemma_empty_board;
use crate::player::Player;

/// Builder for the connect four [`Game`].
#[derive(Debug)]
pub struct GameBuilder<PX: Player, PO: Player> {
    /// Player for team X, starting player.
    player_x: Option<PX>,
    /// Player for team O, second player.
    player_o: Option<PO>,
}

impl<PX: Player, PO: Player> GameBuilder<PX, PO> {
    /// The player so far set for team X.
    pub closed spec fn spec_player_x(self) -> Option<PX> {
        self.player_x
    }

    /// The player so far set for team O.
    pub closed spec fn spec_player_o(self) -> Option<PO> {
        self.player_o
    }

    /// Set the player to play for team X.
    pub fn player_x(self, player: PX) -> (r: Self)
        ensures
            r.spec_player_x() == Some(player),
            r.spec_player_o() == self.spec_player_o(),
    {
        GameBuilder { player_x: Some(player), player_o: self.player_o }
    }

    /// Set the player to play for team O.
    pub fn player_o(self, player: PO) -> (r: Self)
        ensures
            r.spec_player_o() == Some(player),
            r.spec_player_x() == self.spec_player_x(),
    {
        GameBuilder { player_x: self.player_x, player_o: Some(player) }
    }

    /// Finalize build of the game: an empty board with the two configured
    /// players. Fails if either player was never set.
    pub fn build(self) -> (r: Result<Game<PX, PO>, Error>)
        ensures
            self.spec_player_x() is None || self.spec_player_o() is None ==> r == Err::<
                Game<PX, PO>,
                Error,
            >(Error::BuilderMissingField),
            self.spec_player_x() is Some && self.spec_player_o() is Some ==> {
                &&& r matches Ok(g)
                &&& g.spec_player_x() == self.spec_player_x()->0
                &&& g.spec_player_o() == self.spec_player_o()->0
                &&& g.spec_board()@.len() == AREA
                &&& forall|i: int| 0 <= i < AREA ==> #[trigger] g.spec_board()@[i] is None
                &&& g.spec_board().wf()
                &&& no_winner(g.spec_board()@)
                &&& !is_full(g.spec_board()@)
            },
    {
        let Some(player_x) = self.player_x else {
            return Err(Error::BuilderMissingField);
        };
        let Some(player_o) = self.player_o else {
            return Err(Error::BuilderMissingField);
        };

        let board = Board::default();
        proof {
            lemma_empty_board(board@);
        }

        Ok(Game::assemble(board, player_x, player_o))
    }
}

impl<PX: Player, PO: Player> Default for GameBuilder<PX, PO> {
    /// Make a builder with no players set.
    fn default() -> (r: Self)
        ensures
            r.spec_player_x() is None,
            r.spec_player_o() is None,
    {
        GameBuilder { player_x: None, player_o: None }
    }
}

} // verus!
