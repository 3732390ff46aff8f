//! Random player.

use rand::Rng;
use vstd::prelude::*;

verus! {

use crate::board::{is_full, no_winner, open_col, Board, Team, W};
use crate::laws::lemma_not_full_has_open;
use crate::player::Player;

/// Random player.
#[derive(Debug, Clone)]
pub struct RandomPlayer;

/// Relies on `rand::Rng::gen_range` over `0..n`: it panics only on an
/// empty range and returns a uniformly sampled value below `n`.
#[verifier::external_body]
fn random_index(n: usize) -> (r: usize)
    requires
        n > 0,
    ensures
        r < n,
{
    rand::thread_rng().gen_range(0..n)
}

impl RandomPlayer {
    /// Pick a playable column uniformly at random.
    pub fn choose_move(&self, board: &Board) -> (column: usize)
        requires
            board.wf(),
            !is_full(board@),
        ensures
            column < W,
            open_col(board@, column as int),
    {
        let moves = board.possible_moves();
        proof {
            lemma_not_full_has_open(board@);
            let c = choose|c: int| 0 <= c < W && #[trigger] open_col(board@, c);
            assert(moves@.contains(c as usize));
        }
        let idx = random_index(moves.len());
        moves[idx]
    }
}

impl Player for RandomPlayer {
    fn make_move(&self, board: &Board, _me: Team) -> usize {
        self.choose_move(board)
    }
}

} // verus!
