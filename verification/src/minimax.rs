//! Minimax player implementation using heuristics and recursive
//! min-maxing.

use vstd::prelude::*;

verus! {

use crate::board::{
    drop_tile, full_result, gravity, heuristic_spec, is_full, no_winner, on_change_spec, open_col,
    Board, GameResult, Team, AREA, W,
};
use crate::laws::{
    lemma_col_fill, lemma_move_result, lemma_not_full_has_open, lemma_position_score_bound,
};
use crate::player::Player;

/// The value of playing column `c` for `me`, looking one ply ahead: an
/// immediate win scores as the maximum representable value, an immediate
/// loss as the minimum, a draw as zero, and anything else as the heuristic
/// of the resulting position.
pub open spec fn shallow_value(s: Seq<Option<Team>>, me: Team, c: int) -> int {
    match on_change_spec(drop_tile(s, c, me), c) {
        Some(GameResult::Winner(t)) => if t == me {
            i64::MAX as int
        } else {
            i64::MIN as int
        },
        Some(GameResult::Draw) => 0,
        None => heuristic_spec(drop_tile(s, c, me), me),
    }
}

/// The minimax value of the position for `me` when `me` is to move,
/// `cur` plies into a search bounded at `d`: the best value among the open
/// columns while the depth allows another ply, the heuristic otherwise.
pub open spec fn minimax_value_max(s: Seq<Option<Team>>, me: Team, cur: int, d: int) -> int
    decreases d - cur, 3int, 0int,
{
    if cur + 1 < d {
        minimax_fold_max(s, me, cur, d, W as int)
    } else {
        heuristic_spec(s, me)
    }
}

/// The maximum of `me`'s move values over the open columns below `n`;
/// the minimum representable value when none is open.
pub open spec fn minimax_fold_max(s: Seq<Option<Team>>, me: Team, cur: int, d: int, n: int) -> int
    decreases d - cur, 2int, n when cur + 1 <= d && n >= 0
{
    if n <= 0 {
        i64::MIN as int
    } else {
        let rest = minimax_fold_max(s, me, cur, d, n - 1);
        if open_col(s, n - 1) {
            let v = minimax_move_value(s, me, cur, d, n - 1);
            if v > rest {
                v
            } else {
                rest
            }
        } else {
            rest
        }
    }
}

/// The value for `me` of `me` playing column `c`: a terminal result
/// scores as the extremes or zero, anything else continues one ply with
/// the opponent to move.
pub open spec fn minimax_move_value(s: Seq<Option<Team>>, me: Team, cur: int, d: int, c: int) -> int
    decreases d - cur, 1int, 0int when cur + 1 <= d
{
    match on_change_spec(drop_tile(s, c, me), c) {
        Some(GameResult::Winner(t)) => if t == me {
            i64::MAX as int
        } else {
            i64::MIN as int
        },
        Some(GameResult::Draw) => 0,
        None => minimax_value_min(drop_tile(s, c, me), me, cur + 1, d),
    }
}

/// The minimax value of the position for `me` when the opponent is to
/// move: the opponent's best (for `me`: worst) reply while the depth
/// allows another ply, the heuristic otherwise.
pub open spec fn minimax_value_min(s: Seq<Option<Team>>, me: Team, cur: int, d: int) -> int
    decreases d - cur, 3int, 1int,
{
    if cur + 1 < d {
        minimax_fold_min(s, me, cur, d, W as int)
    } else {
        heuristic_spec(s, me)
    }
}

/// The minimum of the opponent's reply values over the open columns below
/// `n`; the maximum representable value when none is open.
pub open spec fn minimax_fold_min(s: Seq<Option<Team>>, me: Team, cur: int, d: int, n: int) -> int
    decreases d - cur, 2int, n when cur + 1 <= d && n >= 0
{
    if n <= 0 {
        i64::MAX as int
    } else {
        let rest = minimax_fold_min(s, me, cur, d, n - 1);
        if open_col(s, n - 1) {
            let v = minimax_reply_value(s, me, cur, d, n - 1);
            if v < rest {
                v
            } else {
                rest
            }
        } else {
            rest
        }
    }
}

/// The value for `me` of the opponent playing column `c`: a terminal
/// result scores as the extremes or zero, anything else continues one ply
/// with `me` to move.
pub open spec fn minimax_reply_value(
    s: Seq<Option<Team>>,
    me: Team,
    cur: int,
    d: int,
    c: int,
) -> int
    decreases d - cur, 1int, 1int when cur + 1 <= d
{
    match on_change_spec(drop_tile(s, c, me.spec_other()), c) {
        Some(GameResult::Winner(t)) => if t == me {
            i64::MAX as int
        } else {
            i64::MIN as int
        },
        Some(GameResult::Draw) => 0,
        None => minimax_value_max(drop_tile(s, c, me.spec_other()), me, cur + 1, d),
    }
}

/// What a whole search of depth `d` makes of playing column `c` for `me`:
/// the one-ply value when the depth allows no recursion, the recursive
/// minimax value otherwise.
pub open spec fn move_value_at(s: Seq<Option<Team>>, me: Team, c: int, d: int) -> int {
    if d >= 2 {
        minimax_move_value(s, me, 0, d, c)
    } else {
        shallow_value(s, me, c)
    }
}

/// Column `r` is the choice a depth-`d` search makes for `me`: it is
/// open, no open column scores higher, and among the equally best columns
/// it is the lowest.
pub open spec fn best_move(s: Seq<Option<Team>>, me: Team, r: int, d: int) -> bool {
    &&& 0 <= r < W
    &&& open_col(s, r)
    &&& forall|c: int|
        0 <= c < W && #[trigger] open_col(s, c) ==> move_value_at(s, me, c, d) <= move_value_at(
            s,
            me,
            r,
            d,
        )
    &&& forall|c: int|
        0 <= c < W && #[trigger] open_col(s, c) && c < r ==> move_value_at(s, me, c, d)
            < move_value_at(s, me, r, d)
}

/// Minimax player using the board's positional heuristic at the leaves.
#[derive(Debug, Clone)]
pub struct MinimaxPlayer {
    /// Deepness to do minimax search to.
    deepness: usize,
}

impl MinimaxPlayer {
    /// The configured search depth.
    pub closed spec fn depth(self) -> int {
        self.deepness as int
    }

    /// Create new minimax player searching to the given deepness, with the
    /// board's own heuristic at the leaves.
    pub fn new_1(deepness: usize) -> (r: Self)
        ensures
            r.depth() == deepness,
    {
        MinimaxPlayer { deepness }
    }

    /// The value of playing `column` for `me`: terminal results score as
    /// the extreme values or zero, anything else recurses one ply as the
    /// opponent's best response.
    fn move_value(&self, board: &Board, me: Team, column: usize) -> (v: i64)
        requires
            board.wf(),
            no_winner(board@),
            !is_full(board@),
            column < W,
            open_col(board@, column as int),
        ensures
            v == move_value_at(board@, me, column as int, self.depth()),
    {
        let mut test_board = *board;
        let ghost pre = board@;
        proof {
            lemma_col_fill(pre, column as int);
        }
        let _ = test_board.put_tile(column, me);
        proof {
            lemma_move_result(pre, column as int, me);
        }
        match test_board.game_result_on_change(column) {
            Some(GameResult::Draw) => 0,
            Some(GameResult::Winner(team)) => if team == me {
                i64::MAX
            } else {
                i64::MIN
            },
            None => self.min_value(&test_board, me, 1),
        }
    }

    /// Our turn, take the best value out of our turns.
    fn max_value(&self, board: &Board, me: Team, current_deepness: usize) -> (v: i64)
        requires
            board.wf(),
            no_winner(board@),
            !is_full(board@),
            current_deepness >= 1,
        ensures
            v == minimax_value_max(board@, me, current_deepness as int, self.depth()),
        decreases self.depth() - current_deepness, 1int,
    {
        if self.deepness >= 2 && current_deepness <= self.deepness - 2 {
            let ghost cur = current_deepness as int;
            let ghost d = self.depth();
            let moves = board.possible_moves();
            proof {
                lemma_not_full_has_open(board@);
                let c = choose|c: int| 0 <= c < W && #[trigger] open_col(board@, c);
                assert(moves@.contains(c as usize));
            }
            let mut best: i64 = i64::MIN;
            let ghost mut covered: int = 0;
            let mut i: usize = 0;
            while i < moves.len()
                invariant
                    i <= moves@.len(),
                    board.wf(),
                    no_winner(board@),
                    !is_full(board@),
                    self.deepness >= 2,
                    current_deepness >= 1,
                    current_deepness <= self.deepness - 2,
                    cur == current_deepness as int,
                    d == self.depth(),
                    0 <= covered <= W,
                    i < moves@.len() ==> covered <= moves@[i as int],
                    forall|j: int|
                        0 <= j < moves@.len() ==> (#[trigger] moves@[j]) < W && open_col(
                            board@,
                            moves@[j] as int,
                        ),
                    forall|j: int, k: int| 0 <= j < k < moves@.len() ==> moves@[j] < moves@[k],
                    forall|c: usize| c < W && open_col(board@, c as int) ==> moves@.contains(c),
                    forall|j: int| 0 <= j < i ==> (#[trigger] moves@[j]) < covered,
                    best == minimax_fold_max(board@, me, cur, d, covered),
                decreases moves@.len() - i,
            {
                let column = moves[i];
                proof {
                    lemma_closed_between(board@, moves@, i as int, covered);
                    lemma_fold_max_skip(board@, me, cur, d, covered, column as int);
                }
                let mut test_board = *board;
                let ghost pre = board@;
                proof {
                    lemma_col_fill(pre, column as int);
                }
                let _ = test_board.put_tile(column, me);
                proof {
                    lemma_move_result(pre, column as int, me);
                }
                let value = match test_board.game_result_on_change(column) {
                    Some(GameResult::Draw) => 0,
                    Some(GameResult::Winner(team)) => if team == me {
                        i64::MAX
                    } else {
                        i64::MIN
                    },
                    None => self.min_value(&test_board, me, current_deepness + 1),
                };
                proof {
                    assert(value == minimax_move_value(board@, me, cur, d, column as int));
                }
                if value > best {
                    best = value;
                }
                proof {
                    assert(best == minimax_fold_max(board@, me, cur, d, column as int + 1));
                    covered = column as int + 1;
                }
                i += 1;
            }
            proof {
                lemma_closed_between(board@, moves@, i as int, covered);
                lemma_fold_max_skip(board@, me, cur, d, covered, W as int);
            }
            best
        } else {
            board.heuristic_1(me)
        }
    }

    /// Other player's turn, minimize the heuristic value to take the other
    /// player's best turn into account.
    fn min_value(&self, board: &Board, me: Team, current_deepness: usize) -> (v: i64)
        requires
            board.wf(),
            no_winner(board@),
            !is_full(board@),
            current_deepness >= 1,
        ensures
            v == minimax_value_min(board@, me, current_deepness as int, self.depth()),
        decreases self.depth() - current_deepness, 1int,
    {
        if self.deepness >= 2 && current_deepness <= self.deepness - 2 {
            let ghost cur = current_deepness as int;
            let ghost d = self.depth();
            let moves = board.possible_moves();
            proof {
                lemma_not_full_has_open(board@);
                let c = choose|c: int| 0 <= c < W && #[trigger] open_col(board@, c);
                assert(moves@.contains(c as usize));
            }
            let mut best: i64 = i64::MAX;
            let ghost mut covered: int = 0;
            let mut i: usize = 0;
            while i < moves.len()
                invariant
                    i <= moves@.len(),
                    board.wf(),
                    no_winner(board@),
                    !is_full(board@),
                    self.deepness >= 2,
                    current_deepness >= 1,
                    current_deepness <= self.deepness - 2,
                    cur == current_deepness as int,
                    d == self.depth(),
                    0 <= covered <= W,
                    i < moves@.len() ==> covered <= moves@[i as int],
                    forall|j: int|
                        0 <= j < moves@.len() ==> (#[trigger] moves@[j]) < W && open_col(
                            board@,
                            moves@[j] as int,
                        ),
                    forall|j: int, k: int| 0 <= j < k < moves@.len() ==> moves@[j] < moves@[k],
                    forall|c: usize| c < W && open_col(board@, c as int) ==> moves@.contains(c),
                    forall|j: int| 0 <= j < i ==> (#[trigger] moves@[j]) < covered,
                    best == minimax_fold_min(board@, me, cur, d, covered),
                decreases moves@.len() - i,
            {
                let column = moves[i];
                proof {
                    lemma_closed_between(board@, moves@, i as int, covered);
                    lemma_fold_min_skip(board@, me, cur, d, covered, column as int);
                }
                let mut test_board = *board;
                let ghost pre = board@;
                proof {
                    lemma_col_fill(pre, column as int);
                }
                let _ = test_board.put_tile(column, me.other());
                proof {
                    lemma_move_result(pre, column as int, me.spec_other());
                }
                let value = match test_board.game_result_on_change(column) {
                    Some(GameResult::Draw) => 0,
                    Some(GameResult::Winner(team)) => if team == me {
                        i64::MAX
                    } else {
                        i64::MIN
                    },
                    None => self.max_value(&test_board, me, current_deepness + 1),
                };
                proof {
                    assert(value == minimax_reply_value(board@, me, cur, d, column as int));
                }
                if value < best {
                    best = value;
                }
                proof {
                    assert(best == minimax_fold_min(board@, me, cur, d, column as int + 1));
                    covered = column as int + 1;
                }
                i += 1;
            }
            proof {
                lemma_closed_between(board@, moves@, i as int, covered);
                lemma_fold_min_skip(board@, me, cur, d, covered, W as int);
            }
            best
        } else {
            board.heuristic_1(me)
        }
    }

    /// Choose a move: simulate every open column once, value each, and
    /// take the highest-valued column, the lowest such column on ties.
    pub fn choose_move(&self, board: &Board, me: Team) -> (r: usize)
        requires
            board.wf(),
            no_winner(board@),
            !is_full(board@),
        ensures
            r < W,
            open_col(board@, r as int),
            best_move(board@, me, r as int, self.depth()),
    {
        let moves = board.possible_moves();
        proof {
            lemma_not_full_has_open(board@);
            let c = choose|c: int| 0 <= c < W && #[trigger] open_col(board@, c);
            assert(moves@.contains(c as usize));
        }
        let mut best_col: usize = moves[0];
        let mut best_val: i64 = self.move_value(board, me, best_col);
        let mut i: usize = 1;
        while i < moves.len()
            invariant
                1 <= i <= moves@.len(),
                board.wf(),
                no_winner(board@),
                !is_full(board@),
                forall|j: int|
                    0 <= j < moves@.len() ==> (#[trigger] moves@[j]) < W && open_col(
                        board@,
                        moves@[j] as int,
                    ),
                forall|j: int, k: int| 0 <= j < k < moves@.len() ==> moves@[j] < moves@[k],
                exists|j: int| 0 <= j < i && moves@[j] == best_col,
                best_col < W,
                open_col(board@, best_col as int),
                best_val == move_value_at(board@, me, best_col as int, self.depth()),
                forall|j: int|
                    0 <= j < i ==> move_value_at(board@, me, (#[trigger] moves@[j]) as int, self.depth())
                        <= best_val,
                forall|j: int|
                    0 <= j < i && (#[trigger] moves@[j]) < best_col ==> move_value_at(
                        board@,
                        me,
                        moves@[j] as int,
                        self.depth(),
                    ) < best_val,
            decreases moves@.len() - i,
        {
            let column = moves[i];
            let value = self.move_value(board, me, column);
            if value > best_val {
                best_val = value;
                best_col = column;
            }
            i += 1;
        }
        proof {
            assert forall|c: int| 0 <= c < W && #[trigger] open_col(board@, c) implies
                move_value_at(board@, me, c, self.depth()) <= move_value_at(
                board@,
                me,
                best_col as int,
                self.depth(),
            ) by {
                assert(moves@.contains(c as usize));
                let j = choose|j: int| 0 <= j < moves@.len() && moves@[j] == c as usize;
                assert(move_value_at(board@, me, moves@[j] as int, self.depth()) <= best_val);
            }
            assert forall|c: int|
                0 <= c < W && #[trigger] open_col(board@, c) && c < best_col implies move_value_at(
                board@,
                me,
                c,
                self.depth(),
            ) < move_value_at(board@, me, best_col as int, self.depth()) by {
                assert(moves@.contains(c as usize));
                let j = choose|j: int| 0 <= j < moves@.len() && moves@[j] == c as usize;
                assert(move_value_at(board@, me, moves@[j] as int, self.depth()) < best_val);
            }
        }
        best_col
    }
}

/// The open columns listed by `possible_moves` are complete: between the
/// columns already folded over and the next listed column — or past the
/// last listed column — every column is closed.
proof fn lemma_closed_between(s: Seq<Option<Team>>, moves: Seq<usize>, i: int, covered: int)
    requires
        0 <= i <= moves.len(),
        forall|j: int| 0 <= j < moves.len() ==> (#[trigger] moves[j]) < W && open_col(s, moves[j] as int),
        forall|j: int, k: int| 0 <= j < k < moves.len() ==> moves[j] < moves[k],
        forall|c: usize| c < W && open_col(s, c as int) ==> moves.contains(c),
        forall|j: int| 0 <= j < i ==> (#[trigger] moves[j]) < covered,
        0 <= covered,
    ensures
        forall|c0: int|
            covered <= c0 < (if i < moves.len() { moves[i] as int } else { W as int })
                ==> !(#[trigger] open_col(s, c0)),
{
    let ub = if i < moves.len() { moves[i] as int } else { W as int };
    assert forall|c0: int| covered <= c0 < ub implies !(#[trigger] open_col(s, c0)) by {
        if open_col(s, c0) {
            assert(moves.contains(c0 as usize));
            let j = choose|j: int| 0 <= j < moves.len() && moves[j] == c0 as usize;
            if j < i {
            } else {
                if i < moves.len() && i < j {
                    assert(moves[i] < moves[j]);
                }
            }
        }
    }
}

/// Folding over a stretch of closed columns leaves the running maximum
/// unchanged.
proof fn lemma_fold_max_skip(s: Seq<Option<Team>>, me: Team, cur: int, d: int, a: int, b: int)
    requires
        cur + 1 <= d,
        0 <= a <= b <= W,
        forall|c: int| a <= c < b ==> !(#[trigger] open_col(s, c)),
    ensures
        minimax_fold_max(s, me, cur, d, b) == minimax_fold_max(s, me, cur, d, a),
    decreases b - a,
{
    if b > a {
        lemma_fold_max_skip(s, me, cur, d, a, b - 1);
    }
}

/// Folding over a stretch of closed columns leaves the running minimum
/// unchanged.
proof fn lemma_fold_min_skip(s: Seq<Option<Team>>, me: Team, cur: int, d: int, a: int, b: int)
    requires
        cur + 1 <= d,
        0 <= a <= b <= W,
        forall|c: int| a <= c < b ==> !(#[trigger] open_col(s, c)),
    ensures
        minimax_fold_min(s, me, cur, d, b) == minimax_fold_min(s, me, cur, d, a),
    decreases b - a,
{
    if b > a {
        lemma_fold_min_skip(s, me, cur, d, a, b - 1);
    }
}

/// Search correctness at depth one: if playing some open column `w` wins
/// the game at once for the mover, then any column a depth-one search
/// settles on — any `r` with `best_move` — also wins at once. Deeper
/// outcomes cannot mislead a one-ply search: every non-winning move
/// scores a draw, a bounded heuristic value, or a loss, all of which lie
/// strictly below the value of an immediate win.
pub proof fn lemma_shallow_best_wins(s: Seq<Option<Team>>, me: Team, w: int, r: int, d: int)
    requires
        s.len() == AREA,
        gravity(s),
        no_winner(s),
        0 <= w < W,
        open_col(s, w),
        on_change_spec(drop_tile(s, w, me), w) == Some(GameResult::Winner(me)),
        best_move(s, me, r, d),
        d <= 1,
    ensures
        on_change_spec(drop_tile(s, r, me), r) == Some(GameResult::Winner(me)),
{
    assert(shallow_value(s, me, w) == i64::MAX as int);
    assert(shallow_value(s, me, r) >= i64::MAX as int);
    lemma_col_fill(s, r);
    lemma_move_result(s, r, me);
    let child = drop_tile(s, r, me);
    match on_change_spec(child, r) {
        Some(GameResult::Winner(t)) => {
            assert(t == me);
        },
        Some(GameResult::Draw) => {
            assert(false);
        },
        None => {
            assert(no_winner(child));
            assert(!is_full(child)) by {
                assert(on_change_spec(child, r) == full_result(child));
            }
            lemma_position_score_bound(child, me);
            assert(false);
        },
    }
}

impl Player for MinimaxPlayer {
    fn make_move(&self, board: &Board, me: Team) -> usize {
        self.choose_move(board, me)
    }
}

} // verus!
