//! Proved laws of the board: how single moves interact with the column
//! structure, the turn parity, and the two win-detection algorithms.

use vstd::prelude::*;

verus! {

use crate::board::{
    at_most_one_winner, cell, cell_score, col_fill, col_score, cols_score, count_in, count_pieces,
    first_free_above, full_result, gravity, has_line, in_bounds, is_dir, is_full, line_wins,
    neighbor_score, no_winner, on_change_spec, open_col, position_score, surrounding_score,
    top_row, top_row_below, turn_of, wins_through, wins_window_at, GameResult, Team, AREA, H, W,
};

/// The first free row of a column lies between the scan start and `H`,
/// every row below it (from the scan start) is occupied, and if it lies on
/// the board that row itself is free.
pub proof fn lemma_first_free_above(s: Seq<Option<Team>>, x: int, y: int)
    requires
        0 <= y <= H,
    ensures
        y <= first_free_above(s, x, y) <= H,
        forall|yy: int| y <= yy < first_free_above(s, x, y) ==> #[trigger] cell(s, x, yy) is Some,
        first_free_above(s, x, y) < H ==> cell(s, x, first_free_above(s, x, y)) is None,
    decreases H - y,
{
    if y < H && cell(s, x, y) is Some {
        lemma_first_free_above(s, x, y + 1);
    }
}

/// Under gravity, an empty cell has only empty cells above it.
pub proof fn lemma_gravity_above(s: Seq<Option<Team>>, x: int, y: int, y2: int)
    requires
        gravity(s),
        0 <= x < W,
        0 <= y <= y2 < H,
        cell(s, x, y) is None,
    ensures
        cell(s, x, y2) is None,
    decreases y2 - y,
{
    if y2 > y {
        lemma_gravity_above(s, x, y, y2 - 1);
    }
}

/// Under gravity, a column is open exactly when it is not yet full, and
/// the tiles of column `x` are exactly the rows below its fill level.
pub proof fn lemma_col_fill(s: Seq<Option<Team>>, x: int)
    requires
        gravity(s),
        0 <= x < W,
    ensures
        0 <= col_fill(s, x) <= H,
        open_col(s, x) <==> col_fill(s, x) < H,
        forall|yy: int| 0 <= yy < col_fill(s, x) ==> #[trigger] cell(s, x, yy) is Some,
        forall|yy: int| col_fill(s, x) <= yy < H ==> #[trigger] cell(s, x, yy) is None,
{
    lemma_first_free_above(s, x, 0);
    let f = col_fill(s, x);
    if f < H {
        assert forall|yy: int| f <= yy < H implies #[trigger] cell(s, x, yy) is None by {
            lemma_gravity_above(s, x, f, yy);
        }
    }
}

/// The downward scan for the topmost tile lands on row `r` when everything
/// strictly above `r` is empty and row `r` (if any) is occupied.
proof fn lemma_top_row_below(s: Seq<Option<Team>>, x: int, y: int, r: int)
    requires
        -1 <= r <= y < H,
        forall|yy: int| r < yy <= y ==> #[trigger] cell(s, x, yy) is None,
        r >= 0 ==> cell(s, x, r) is Some,
    ensures
        top_row_below(s, x, y) == r,
    decreases y - r,
{
    if y > r {
        lemma_top_row_below(s, x, y - 1, r);
    }
}

/// Occupied-cell counts agree on a prefix that an update does not touch,
/// and gain exactly one when the update fills an empty cell inside it.
proof fn lemma_count_in_update(s: Seq<Option<Team>>, i: int, t: Team, n: int)
    requires
        0 <= i < s.len(),
        s[i] is None,
        0 <= n <= s.len(),
    ensures
        n <= i ==> count_in(s.update(i, Some(t)), n) == count_in(s, n),
        n > i ==> count_in(s.update(i, Some(t)), n) == count_in(s, n) + 1,
    decreases n,
{
    if n > 0 {
        lemma_count_in_update(s, i, t, n - 1);
    }
}

/// The occupied-cell count of a prefix stays within that prefix's length.
pub proof fn lemma_count_bounds(s: Seq<Option<Team>>, n: int)
    requires
        0 <= n <= s.len(),
    ensures
        0 <= count_in(s, n) <= n,
    decreases n,
{
    if n > 0 {
        lemma_count_bounds(s, n - 1);
    }
}

/// An empty board is a well-formed running position: gravity holds
/// trivially, nobody has won, and every column is open.
pub proof fn lemma_empty_board(s: Seq<Option<Team>>)
    requires
        s.len() == AREA,
        forall|i: int| 0 <= i < AREA ==> #[trigger] s[i] is None,
    ensures
        gravity(s),
        no_winner(s),
        !is_full(s),
        forall|c: int| 0 <= c < W ==> #[trigger] open_col(s, c),
        count_pieces(s) == 0,
        turn_of(s) == Team::X,
{
    assert forall|t: Team| !(#[trigger] has_line(s, t)) by {
        if has_line(s, t) {
            let (x, y, dx, dy) = choose|x: int, y: int, dx: int, dy: int|
                is_dir(dx, dy) && #[trigger] line_wins(s, x, y, dx, dy, t);
            assert(cell(s, x, y) == Some(t));
        }
    }
    lemma_count_none(s, s.len() as int);
}

/// A prefix of empty cells counts zero occupied cells.
proof fn lemma_count_none(s: Seq<Option<Team>>, n: int)
    requires
        0 <= n <= s.len(),
        forall|i: int| 0 <= i < s.len() ==> #[trigger] s[i] is None,
    ensures
        count_in(s, n) == 0,
    decreases n,
{
    if n > 0 {
        lemma_count_none(s, n - 1);
    }
}

/// Filling one empty cell raises the piece count by exactly one.
pub proof fn lemma_count_update(s: Seq<Option<Team>>, i: int, t: Team)
    requires
        0 <= i < s.len(),
        s[i] is None,
    ensures
        count_pieces(s.update(i, Some(t))) == count_pieces(s) + 1,
{
    lemma_count_in_update(s, i, t, s.len() as int);
}

/// Turn alternation: a successful move flips whose turn it is.
pub proof fn lemma_turn_alternates(s: Seq<Option<Team>>, i: int, t: Team)
    requires
        0 <= i < s.len(),
        s[i] is None,
    ensures
        turn_of(s.update(i, Some(t))) == turn_of(s).spec_other(),
{
    lemma_count_update(s, i, t);
}

/// How a single-cell update shows up through `cell`: the placed cell now
/// holds the tile, every other coordinate reads as before.
proof fn lemma_cell_update(pre: Seq<Option<Team>>, c: int, fy: int, t: Team)
    requires
        pre.len() == AREA,
        in_bounds(c, fy),
    ensures
        cell(pre.update(c * (H as int) + fy, Some(t)), c, fy) == Some(t),
        forall|x: int, y: int|
            !(x == c && y == fy) ==> #[trigger] cell(pre.update(c * (H as int) + fy, Some(t)), x, y)
                == cell(pre, x, y),
{
    let post = pre.update(c * (H as int) + fy, Some(t));
    assert forall|x: int, y: int| !(x == c && y == fy) implies #[trigger] cell(post, x, y) == cell(
        pre,
        x,
        y,
    ) by {
        if in_bounds(x, y) {
            assert(x * (H as int) + y != c * (H as int) + fy);
        }
    }
}

/// After one tile lands on a board without a winner, every four-in-a-row
/// of the new board belongs to the placed team and runs through the placed
/// cell: a single move can only create lines of its own through itself.
pub proof fn lemma_new_line_through_change(pre: Seq<Option<Team>>, c: int, fy: int, t: Team)
    requires
        pre.len() == AREA,
        in_bounds(c, fy),
        no_winner(pre),
    ensures
        forall|t2: Team| #[trigger] has_line(pre.update(c * (H as int) + fy, Some(t)), t2) ==> t2
            == t && wins_through(pre.update(c * (H as int) + fy, Some(t)), c, fy, t),
{
    let post = pre.update(c * (H as int) + fy, Some(t));
    lemma_cell_update(pre, c, fy, t);
    assert forall|t2: Team| #[trigger] has_line(post, t2) implies t2 == t && wins_through(
        post,
        c,
        fy,
        t,
    ) by {
        let (x, y, dx, dy) = choose|x: int, y: int, dx: int, dy: int|
            is_dir(dx, dy) && #[trigger] line_wins(post, x, y, dx, dy, t2);
        if x == c && y == fy {
            assert(wins_window_at(post, c, fy, dx, dy, 0, t2));
        } else if x + dx == c && y + dy == fy {
            assert(wins_window_at(post, c, fy, dx, dy, -1, t2));
        } else if x + 2 * dx == c && y + 2 * dy == fy {
            assert(wins_window_at(post, c, fy, dx, dy, -2, t2));
        } else if x + 3 * dx == c && y + 3 * dy == fy {
            assert(wins_window_at(post, c, fy, dx, dy, -3, t2));
        } else {
            assert(line_wins(pre, x, y, dx, dy, t2));
            assert(has_line(pre, t2));
            assert(false);
        }
    }
}

/// A line through an anchor cell is in particular a line on the board.
pub proof fn lemma_wins_through_has_line(s: Seq<Option<Team>>, ax: int, ay: int, t: Team)
    requires
        wins_through(s, ax, ay, t),
    ensures
        has_line(s, t),
{
}

/// The central agreement law: dropping a tile into an open column of a
/// well-formed board without a winner yields a board on which the
/// incremental check of the played column answers exactly as the full
/// scan does, and which again has at most one winner. When the
/// incremental check reports no winner, the new board has none at all.
pub proof fn lemma_move_result(pre: Seq<Option<Team>>, c: int, t: Team)
    requires
        pre.len() == AREA,
        gravity(pre),
        no_winner(pre),
        0 <= c < W,
        open_col(pre, c),
    ensures
        ({
            let fy = col_fill(pre, c);
            let post = pre.update(c * (H as int) + fy, Some(t));
            &&& on_change_spec(post, c) == full_result(post)
            &&& at_most_one_winner(post)
            &&& gravity(post)
            &&& (!(on_change_spec(post, c) matches Some(GameResult::Winner(_))) ==> no_winner(post))
            &&& (on_change_spec(post, c) matches Some(GameResult::Winner(w)) ==> w == t
                && has_line(post, t))
        }),
{
    let fy = col_fill(pre, c);
    let post = pre.update(c * (H as int) + fy, Some(t));
    lemma_col_fill(pre, c);
    lemma_cell_update(pre, c, fy, t);
    lemma_new_line_through_change(pre, c, fy, t);

    assert forall|x: int, y: int|
        0 <= x < W && 0 < y < H && #[trigger] cell(post, x, y) is Some implies cell(
        post,
        x,
        y - 1,
    ) is Some by {
        if x == c && y == fy {
            assert(cell(pre, x, y - 1) is Some);
        } else {
            assert(cell(post, x, y) == cell(pre, x, y));
        }
    }

    lemma_top_row_below(post, c, (H - 1) as int, fy);
    assert(top_row(post, c) == fy);

    if wins_through(post, c, fy, t) {
        lemma_wins_through_has_line(post, c, fy, t);
        assert(on_change_spec(post, c) == Some(GameResult::Winner(t)));
    } else {
        assert forall|t2: Team| !(#[trigger] has_line(post, t2)) by {
            if has_line(post, t2) {
                assert(wins_through(post, c, fy, t));
            }
        }
        assert(!has_line(post, Team::X) && !has_line(post, Team::O));
    }
}

/// A single cell contributes at most 24 points either way.
#[verifier::rlimit(50)]
proof fn lemma_cell_score_bound(s: Seq<Option<Team>>, x: int, y: int, me: Team)
    ensures
        -24 <= cell_score(s, x, y, me) <= 24,
{
    match cell(s, x, y) {
        None => {},
        Some(t) => {
            assert(-3 <= neighbor_score(s, x + 1, y, t) <= 3);
            assert(-3 <= neighbor_score(s, x + 1, y + 1, t) <= 3);
            assert(-3 <= neighbor_score(s, x, y + 1, t) <= 3);
            assert(-3 <= neighbor_score(s, x - 1, y + 1, t) <= 3);
            assert(-3 <= neighbor_score(s, x - 1, y, t) <= 3);
            assert(-3 <= neighbor_score(s, x - 1, y - 1, t) <= 3);
            assert(-3 <= neighbor_score(s, x, y - 1, t) <= 3);
            assert(-3 <= neighbor_score(s, x + 1, y - 1, t) <= 3);
            assert(-24 <= surrounding_score(s, x, y, t) <= 24);
        },
    }
}

/// A column's positional score stays within 24 points per counted row.
proof fn lemma_col_score_bound(s: Seq<Option<Team>>, me: Team, x: int, y: int)
    requires
        0 <= y <= H,
    ensures
        -24 * y <= col_score(s, me, x, y) <= 24 * y,
    decreases y,
{
    if y > 0 {
        lemma_col_score_bound(s, me, x, y - 1);
        lemma_cell_score_bound(s, x, y - 1, me);
    }
}

/// The positional score over the first `x` columns stays within 144
/// points per column.
proof fn lemma_cols_score_bound(s: Seq<Option<Team>>, me: Team, x: int)
    requires
        0 <= x <= W,
    ensures
        -144 * x <= cols_score(s, me, x) <= 144 * x,
    decreases x,
{
    if x > 0 {
        lemma_cols_score_bound(s, me, x - 1);
        lemma_col_score_bound(s, me, x - 1, H as int);
    }
}

/// The positional strength proxy is bounded far away from the extreme
/// values that mark decided games.
pub proof fn lemma_position_score_bound(s: Seq<Option<Team>>, me: Team)
    ensures
        -1008 <= position_score(s, me) <= 1008,
{
    lemma_cols_score_bound(s, me, W as int);
}

/// A board that is not full has an open column to play in.
pub proof fn lemma_not_full_has_open(s: Seq<Option<Team>>)
    requires
        gravity(s),
        s.len() == AREA,
        !is_full(s),
    ensures
        exists|c: int| 0 <= c < W && #[trigger] open_col(s, c),
{
    let i = choose|i: int| 0 <= i < s.len() && !(#[trigger] s[i] is Some);
    let x = i / (H as int);
    let y = i % (H as int);
    assert(x * (H as int) + y == i) by (nonlinear_arith)
        requires y == i % (H as int) && x == i / (H as int) && H != 0;
    assert(0 <= x < W && 0 <= y < H) by (nonlinear_arith)
        requires y == i % (H as int) && x == i / (H as int) && 0 <= i < 42 && H == 6;
    assert(cell(s, x, y) is None);
    lemma_gravity_above(s, x, y, (H - 1) as int);
    assert(open_col(s, x));
}

} // verus!
