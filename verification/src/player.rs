//! Generic player capability.

use vstd::prelude::*;

verus! {

use crate::board::{is_full, no_winner, Board, Team};

/// Everything a player needs to play the game of connect four.
///
/// A player is only asked to move on a well-formed board of a running
/// game: gravity holds, nobody has won yet, and at least one column is
/// open. The answered column is not constrained — the game loop applies
/// it with `put_tile` and treats an unplayable answer as that player's
/// error.
pub trait Player {
    /// Make a move based on the current board positions. Return the column
    /// to put the new tile in.
    fn make_move(&self, board: &Board, me: Team) -> (column: usize)
        requires
            board.wf(),
            no_winner(board@),
            !is_full(board@),
    ;
}

} // verus!
