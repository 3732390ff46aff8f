//! Connect four game board: grid state, mutation and win detection.

use vstd::prelude::*;

verus! {

use crate::error::Error;

/// Width of the connect four field (number of columns).
pub const W: usize = 7;
/// Height of the connect four field (number of rows per column).
pub const H: usize = 6;
/// Total number of cells on the field.
pub const AREA: usize = 42;

/// Team identifiers, X and O.
#[derive(Debug, Clone, Copy, PartialEq, Eq, Hash, Structural)]
pub enum Team {
    /// Team X.
    X,
    /// Team O.
    O,
}

/// Game result.
#[derive(Debug, Clone, Copy, PartialEq, Eq, Hash, Structural)]
pub enum GameResult {
    /// There is a draw.
    Draw,
    /// There is a winner.
    Winner(Team),
}

/// Connect four game board instance.
///
/// The field is a W x H (columns x rows) grid organized in a 1D array,
/// addressed column-major: the cell at column `x`, row `y` sits at index
/// `x * H + y`. The first tile of a column goes to `y = 0`, the last to
/// `y = H - 1`.
#[derive(Debug, Clone, Copy, PartialEq, Eq)]
pub struct Board {
    field: [Option<Team>; 42],
}

impl View for Board {
    type V = Seq<Option<Team>>;

    closed spec fn view(&self) -> Seq<Option<Team>> {
        self.field@
    }
}

/// The cell of `s` at column `x`, row `y`; out-of-bounds coordinates read
/// as empty.
pub open spec fn cell(s: Seq<Option<Team>>, x: int, y: int) -> Option<Team> {
    if 0 <= x < W && 0 <= y < H {
        s[x * (H as int) + y]
    } else {
        None
    }
}

/// Whether `(dx, dy)` is one of the four canonical line directions:
/// vertical, horizontal, diagonal ascending, diagonal descending.
pub open spec fn is_dir(dx: int, dy: int) -> bool {
    ||| (dx == 0 && dy == 1)
    ||| (dx == 1 && dy == 0)
    ||| (dx == 1 && dy == 1)
    ||| (dx == 1 && dy == -1)
}

/// Four consecutive cells owned by `t`, starting at `(x, y)` and stepping
/// by `(dx, dy)`.
pub open spec fn line_wins(s: Seq<Option<Team>>, x: int, y: int, dx: int, dy: int, t: Team) -> bool {
    &&& cell(s, x, y) == Some(t)
    &&& cell(s, x + dx, y + dy) == Some(t)
    &&& cell(s, x + 2 * dx, y + 2 * dy) == Some(t)
    &&& cell(s, x + 3 * dx, y + 3 * dy) == Some(t)
}

/// Team `t` has some four-in-a-row on the board.
pub open spec fn has_line(s: Seq<Option<Team>>, t: Team) -> bool {
    exists|x: int, y: int, dx: int, dy: int|
        is_dir(dx, dy) && #[trigger] line_wins(s, x, y, dx, dy, t)
}

/// Neither team has a four-in-a-row.
pub open spec fn no_winner(s: Seq<Option<Team>>) -> bool {
    !has_line(s, Team::X) && !has_line(s, Team::O)
}

/// Every cell of the board is occupied.
pub open spec fn is_full(s: Seq<Option<Team>>) -> bool {
    forall|i: int| 0 <= i < s.len() ==> #[trigger] s[i] is Some
}

/// The first free row of column `x` at or above row `y`; `H` if the rows
/// from `y` upward are all occupied.
pub open spec fn first_free_above(s: Seq<Option<Team>>, x: int, y: int) -> int
    decreases H - y when y <= H
{
    if y >= H {
        H as int
    } else if cell(s, x, y) is None {
        y
    } else {
        first_free_above(s, x, y + 1)
    }
}

/// The fill level of column `x`: the row the next tile dropped there would
/// land on, or `H` if the column is full.
pub open spec fn col_fill(s: Seq<Option<Team>>, x: int) -> int {
    first_free_above(s, x, 0)
}

/// The topmost occupied row of column `x` at or below row `y`; `-1` if the
/// rows from `y` downward are all empty.
pub open spec fn top_row_below(s: Seq<Option<Team>>, x: int, y: int) -> int
    decreases y + 1 when y >= -1
{
    if y < 0 {
        -1
    } else if cell(s, x, y) is Some {
        y
    } else {
        top_row_below(s, x, y - 1)
    }
}

/// The topmost occupied row of column `x`, or `-1` for an empty column.
pub open spec fn top_row(s: Seq<Option<Team>>, x: int) -> int {
    top_row_below(s, x, (H - 1) as int)
}

/// Gravity: within every column the occupied cells form a contiguous run
/// starting at row 0, so no tile floats above an empty cell.
pub open spec fn gravity(s: Seq<Option<Team>>) -> bool {
    forall|x: int, y: int|
        0 <= x < W && 0 < y < H && #[trigger] cell(s, x, y) is Some ==> cell(s, x, y - 1) is Some
}

/// Column `x` can still take a tile: its topmost row is empty.
pub open spec fn open_col(s: Seq<Option<Team>>, x: int) -> bool {
    cell(s, x, (H - 1) as int) is None
}

/// The board after team `t` drops a tile into column `c`: the cell at the
/// column's fill level becomes occupied.
pub open spec fn drop_tile(s: Seq<Option<Team>>, c: int, t: Team) -> Seq<Option<Team>> {
    s.update(c * (H as int) + col_fill(s, c), Some(t))
}

/// A four-in-a-row for `t` in direction `(dx, dy)` whose window starts `k`
/// steps away from the anchor cell `(ax, ay)`.
pub open spec fn wins_window_at(
    s: Seq<Option<Team>>,
    ax: int,
    ay: int,
    dx: int,
    dy: int,
    k: int,
    t: Team,
) -> bool {
    line_wins(s, ax + k * dx, ay + k * dy, dx, dy, t)
}

/// A four-in-a-row for `t` in direction `(dx, dy)` that passes through the
/// anchor cell `(ax, ay)`: one of the four windows containing the anchor.
pub open spec fn wins_dir_through(
    s: Seq<Option<Team>>,
    ax: int,
    ay: int,
    dx: int,
    dy: int,
    t: Team,
) -> bool {
    ||| wins_window_at(s, ax, ay, dx, dy, -3, t)
    ||| wins_window_at(s, ax, ay, dx, dy, -2, t)
    ||| wins_window_at(s, ax, ay, dx, dy, -1, t)
    ||| wins_window_at(s, ax, ay, dx, dy, 0, t)
}

/// A four-in-a-row for `t` through the anchor cell `(ax, ay)`, in any of
/// the four directions.
pub open spec fn wins_through(s: Seq<Option<Team>>, ax: int, ay: int, t: Team) -> bool {
    ||| wins_dir_through(s, ax, ay, 0, 1, t)
    ||| wins_dir_through(s, ax, ay, 1, 0, t)
    ||| wins_dir_through(s, ax, ay, 1, 1, t)
    ||| wins_dir_through(s, ax, ay, 1, -1, t)
}

/// What the incremental check reports for column `x`: anchored at the
/// topmost tile of that column, a winner if a line runs through the anchor,
/// otherwise a draw on a full board, otherwise nothing. An empty column
/// reports nothing.
pub open spec fn on_change_spec(s: Seq<Option<Team>>, x: int) -> Option<GameResult> {
    match cell(s, x, top_row(s, x)) {
        None => None,
        Some(t) => if wins_through(s, x, top_row(s, x), t) {
            Some(GameResult::Winner(t))
        } else if is_full(s) {
            Some(GameResult::Draw)
        } else {
            None
        },
    }
}

/// The outcome of the full scan, as a function of the board. On a board
/// where at most one team holds a line this pins the scan down completely;
/// with two simultaneous winners (which single-move play cannot produce)
/// the scan's answer depends on its order instead.
pub open spec fn full_result(s: Seq<Option<Team>>) -> Option<GameResult> {
    if has_line(s, Team::X) {
        Some(GameResult::Winner(Team::X))
    } else if has_line(s, Team::O) {
        Some(GameResult::Winner(Team::O))
    } else if is_full(s) {
        Some(GameResult::Draw)
    } else {
        None
    }
}

/// At most one of the two teams has a four-in-a-row. This holds of every
/// board reached by single moves checked in between; boards where both
/// teams hold a line cannot arise from such play.
pub open spec fn at_most_one_winner(s: Seq<Option<Team>>) -> bool {
    !(has_line(s, Team::X) && has_line(s, Team::O))
}

/// Whether `(x, y)` lies on the board.
pub open spec fn in_bounds(x: int, y: int) -> bool {
    0 <= x < W && 0 <= y < H
}

/// The heuristic weight a single neighbor cell contributes, from the point
/// of view of team `t`: nothing off board, a small positive amount for an
/// empty cell, more for an own tile, the negated amount for an opposing
/// tile. Weights are scaled to integers (3, 1, -3).
pub open spec fn neighbor_score(s: Seq<Option<Team>>, x: int, y: int, t: Team) -> int {
    if in_bounds(x, y) {
        match cell(s, x, y) {
            None => 1,
            Some(u) => if u == t {
                3
            } else {
                -3
            },
        }
    } else {
        0
    }
}

/// The sum of the neighbor weights over the 8 cells around `(x, y)`, from
/// the point of view of team `t`.
pub open spec fn surrounding_score(s: Seq<Option<Team>>, x: int, y: int, t: Team) -> int {
    neighbor_score(s, x + 1, y, t) + neighbor_score(s, x + 1, y + 1, t) + neighbor_score(
        s,
        x,
        y + 1,
        t,
    ) + neighbor_score(s, x - 1, y + 1, t) + neighbor_score(s, x - 1, y, t) + neighbor_score(
        s,
        x - 1,
        y - 1,
        t,
    ) + neighbor_score(s, x, y - 1, t) + neighbor_score(s, x + 1, y - 1, t)
}

/// The contribution of the cell at `(x, y)` to `me`'s positional score:
/// its surrounding score, added if `me` owns the tile and subtracted if the
/// opponent does; empty cells contribute nothing.
pub open spec fn cell_score(s: Seq<Option<Team>>, x: int, y: int, me: Team) -> int {
    match cell(s, x, y) {
        None => 0,
        Some(t) => if t == me {
            surrounding_score(s, x, y, t)
        } else {
            -surrounding_score(s, x, y, t)
        },
    }
}

/// The positional score of the first `y` rows of column `x`.
pub open spec fn col_score(s: Seq<Option<Team>>, me: Team, x: int, y: int) -> int
    decreases y,
{
    if y <= 0 {
        0
    } else {
        col_score(s, me, x, y - 1) + cell_score(s, x, y - 1, me)
    }
}

/// The positional score of the first `x` columns.
pub open spec fn cols_score(s: Seq<Option<Team>>, me: Team, x: int) -> int
    decreases x,
{
    if x <= 0 {
        0
    } else {
        cols_score(s, me, x - 1) + col_score(s, me, x - 1, H as int)
    }
}

/// The positional strength proxy for `me` over the whole board.
pub open spec fn position_score(s: Seq<Option<Team>>, me: Team) -> int {
    cols_score(s, me, W as int)
}

/// The heuristic board evaluation for `me`: the maximum representable
/// value on a win, the minimum on a loss, zero on a draw, and otherwise
/// the positional score.
pub open spec fn heuristic_spec(s: Seq<Option<Team>>, me: Team) -> int {
    if has_line(s, me) {
        i64::MAX as int
    } else if has_line(s, me.spec_other()) {
        i64::MIN as int
    } else if is_full(s) {
        0
    } else {
        position_score(s, me)
    }
}

/// The number of occupied cells among the first `n` cells of `s`.
pub open spec fn count_in(s: Seq<Option<Team>>, n: int) -> int
    decreases n,
{
    if n <= 0 {
        0
    } else {
        count_in(s, n - 1) + (if s[n - 1] is Some { 1int } else { 0int })
    }
}

/// The number of occupied cells of the board.
pub open spec fn count_pieces(s: Seq<Option<Team>>) -> int {
    count_in(s, s.len() as int)
}

/// The side to move: X on an even number of tiles, O on an odd one.
pub open spec fn turn_of(s: Seq<Option<Team>>) -> Team {
    if count_pieces(s) % 2 == 0 {
        Team::X
    } else {
        Team::O
    }
}

impl Team {
    /// The opposing team, as a spec-level value.
    pub open spec fn spec_other(&self) -> Team {
        match self {
            Team::X => Team::O,
            Team::O => Team::X,
        }
    }

    /// Get the other team.
    #[verifier::when_used_as_spec(spec_other)]
    pub fn other(&self) -> (r: Team)
        ensures
            r == self.spec_other(),
    {
        match self {
            Team::X => Team::O,
            Team::O => Team::X,
        }
    }
}

impl Default for Board {
    /// Make new empty board.
    fn default() -> (r: Self)
        ensures
            r@.len() == AREA,
            forall|i: int| 0 <= i < AREA ==> r@[i] is None,
    {
        Board { field: [None; 42] }
    }
}

impl Board {
    /// Get the dimensions of the board. Returns (width, height).
    #[must_use]
    pub fn dimensions(&self) -> (r: (usize, usize))
        ensures
            r.0 == W && r.1 == H,
    {
        (W, H)
    }

    /// Get access to the raw underlying board data.
    #[must_use]
    pub fn field(&self) -> (f: &[Option<Team>])
        ensures
            f@ == self@,
    {
        self.field.as_slice()
    }

    /// Get safe access to a tile on the field, returning None if the
    /// coordinates are out of bounds, as if the field is empty.
    pub fn field_get_safe(&self, x: usize, y: usize) -> (r: Option<Team>)
        ensures
            r == cell(self@, x as int, y as int),
    {
        if x >= W || y >= H {
            return None;
        }
        self.field[x * H + y]
    }

    /// Safe cell access with signed coordinates, so callers can probe the
    /// neighborhood of a cell without guarding against underflow.
    fn cell_get(&self, x: i64, y: i64) -> (r: Option<Team>)
        ensures
            r == cell(self@, x as int, y as int),
    {
        if 0 <= x && x < W as i64 && 0 <= y && y < H as i64 {
            self.field[(x * (H as i64) + y) as usize]
        } else {
            None
        }
    }

    /// The board's structural invariant: the field holds one cell per
    /// coordinate, and tiles stack from the bottom of each column without
    /// gaps.
    pub open spec fn wf(self) -> bool {
        self@.len() == AREA && gravity(self@)
    }

    /// Return whose turn it is. Just checks the number of set tiles. Empty
    /// field means X, next O, etc..
    #[must_use]
    pub fn whos_turn(&self) -> (t: Team)
        ensures
            t == turn_of(self@),
    {
        let mut count: usize = 0;
        let mut i: usize = 0;
        while i < AREA
            invariant
                i <= AREA,
                count == count_in(self@, i as int),
                count <= i,
                self@.len() == AREA,
            decreases AREA - i,
        {
            if self.field[i].is_some() {
                count += 1;
            }
            i += 1;
        }
        if count % 2 == 0 {
            Team::X
        } else {
            Team::O
        }
    }

    /// Return the possible moves, i.e. which columns still have open
    /// fields, in increasing column order.
    #[must_use]
    pub fn possible_moves(&self) -> (moves: Vec<usize>)
        ensures
            forall|j: int|
                0 <= j < moves@.len() ==> (#[trigger] moves@[j]) < W && open_col(
                    self@,
                    moves@[j] as int,
                ),
            forall|c: usize| c < W && open_col(self@, c as int) ==> moves@.contains(c),
            forall|j: int, k: int| 0 <= j < k < moves@.len() ==> moves@[j] < moves@[k],
    {
        let mut moves: Vec<usize> = Vec::new();
        let mut x: usize = 0;
        while x < W
            invariant
                x <= W,
                self@.len() == AREA,
                forall|j: int|
                    0 <= j < moves@.len() ==> (#[trigger] moves@[j]) < x && open_col(
                        self@,
                        moves@[j] as int,
                    ),
                forall|c: usize| c < x && open_col(self@, c as int) ==> moves@.contains(c),
                forall|j: int, k: int| 0 <= j < k < moves@.len() ==> moves@[j] < moves@[k],
            decreases W - x,
        {
            let ghost pre = moves@;
            if self.field[x * H + H - 1].is_none() {
                moves.push(x);
            }
            proof {
                assert forall|c: usize| c < x + 1 && open_col(self@, c as int) implies moves@.contains(
                    c,
                ) by {
                    if c < x {
                        assert(pre.contains(c));
                        let i = choose|i: int| 0 <= i < pre.len() && pre[i] == c;
                        assert(moves@[i] == c);
                    } else {
                        assert(moves@[moves@.len() - 1] == x);
                    }
                }
            }
            x += 1;
        }
        moves
    }

    /// Whether the cell at `(x, y)` holds a tile of team `t`.
    fn cell_is(&self, x: i64, y: i64, t: Team) -> (r: bool)
        requires
            -32 <= x <= 32,
            -32 <= y <= 32,
        ensures
            r == (cell(self@, x as int, y as int) == Some(t)),
    {
        match self.cell_get(x, y) {
            Some(u) => u == t,
            None => false,
        }
    }

    /// Whether the four cells starting at `(sx, sy)` and stepping by
    /// `(dx, dy)` all hold tiles of team `t`.
    fn check_window(&self, sx: i64, sy: i64, dx: i64, dy: i64, t: Team) -> (r: bool)
        requires
            -16 <= sx <= 16,
            -16 <= sy <= 16,
            -1 <= dx <= 1,
            -1 <= dy <= 1,
        ensures
            r == line_wins(self@, sx as int, sy as int, dx as int, dy as int, t),
    {
        self.cell_is(sx, sy, t) && self.cell_is(sx + dx, sy + dy, t) && self.cell_is(
            sx + 2 * dx,
            sy + 2 * dy,
            t,
        ) && self.cell_is(sx + 3 * dx, sy + 3 * dy, t)
    }

    /// Scan every window of direction `(dx, dy)`, reporting the owner of a
    /// four-in-a-row if one exists.
    fn check_dir(&self, dx: i64, dy: i64) -> (r: Option<Team>)
        requires
            is_dir(dx as int, dy as int),
        ensures
            match r {
                Some(t) => has_line(self@, t),
                None => forall|x: int, y: int, t: Team|
                    !#[trigger] line_wins(self@, x, y, dx as int, dy as int, t),
            },
    {
        let mut x: i64 = 0;
        while x < W as i64
            invariant
                0 <= x <= W,
                is_dir(dx as int, dy as int),
                forall|x0: int, y0: int, t: Team|
                    0 <= x0 < x && 0 <= y0 < H ==> !#[trigger] line_wins(
                        self@,
                        x0,
                        y0,
                        dx as int,
                        dy as int,
                        t,
                    ),
            decreases W - x,
        {
            let mut y: i64 = 0;
            while y < H as i64
                invariant
                    0 <= x < W,
                    0 <= y <= H,
                    is_dir(dx as int, dy as int),
                    forall|x0: int, y0: int, t: Team|
                        0 <= x0 < x && 0 <= y0 < H ==> !#[trigger] line_wins(
                            self@,
                            x0,
                            y0,
                            dx as int,
                            dy as int,
                            t,
                        ),
                    forall|y0: int, t: Team|
                        0 <= y0 < y ==> !#[trigger] line_wins(
                            self@,
                            x as int,
                            y0,
                            dx as int,
                            dy as int,
                            t,
                        ),
                decreases H - y,
            {
                let c0 = self.cell_get(x, y);
                if let Some(t) = c0 {
                    if self.check_window(x, y, dx, dy, t) {
                        proof {
                            assert(line_wins(self@, x as int, y as int, dx as int, dy as int, t));
                        }
                        return Some(t);
                    }
                }
                proof {
                    assert forall|t: Team|
                        !line_wins(self@, x as int, y as int, dx as int, dy as int, t) by {
                        if cell(self@, x as int, y as int) == Some(t) {
                        }
                    }
                }
                y += 1;
            }
            x += 1;
        }
        proof {
            assert forall|x0: int, y0: int, t: Team|
                !#[trigger] line_wins(self@, x0, y0, dx as int, dy as int, t) by {
                if !(0 <= x0 < W && 0 <= y0 < H) {
                    assert(cell(self@, x0, y0) is None);
                }
            }
        }
        None
    }

    /// Get current state of the board, returning whether there is a result
    /// and if so, who won. Returns unpredictable results if there are
    /// multiple winners at once, as this can only happen when multiple
    /// turns are done without checking the state in between.
    #[must_use]
    pub fn game_result(&self) -> (r: Option<GameResult>)
        ensures
            match r {
                None => no_winner(self@) && !is_full(self@),
                Some(GameResult::Draw) => no_winner(self@) && is_full(self@),
                Some(GameResult::Winner(t)) => has_line(self@, t),
            },
            at_most_one_winner(self@) ==> r == full_result(self@),
    {
        // First check in the y direction as it should be the fastest.
        if let Some(t) = self.check_dir(0, 1) {
            return Some(GameResult::Winner(t));
        }
        // Next check in x direction.
        if let Some(t) = self.check_dir(1, 0) {
            return Some(GameResult::Winner(t));
        }
        // Next check diagonally upwards.
        if let Some(t) = self.check_dir(1, 1) {
            return Some(GameResult::Winner(t));
        }
        // Finally check diagonally downwards.
        if let Some(t) = self.check_dir(1, -1) {
            return Some(GameResult::Winner(t));
        }
        proof {
            assert forall|t: Team| !has_line(self@, t) by {
                if has_line(self@, t) {
                    let (x, y, dx, dy) = choose|x: int, y: int, dx: int, dy: int|
                        is_dir(dx, dy) && #[trigger] line_wins(self@, x, y, dx, dy, t);
                    assert(!line_wins(self@, x, y, dx, dy, t));
                }
            }
        }
        // Otherwise the game is running or drawn (if it is full).
        let mut i: usize = 0;
        while i < AREA
            invariant
                i <= AREA,
                self@.len() == AREA,
                no_winner(self@),
                forall|j: int| 0 <= j < i ==> #[trigger] self@[j] is Some,
            decreases AREA - i,
        {
            if self.field[i].is_none() {
                return None;
            }
            i += 1;
        }
        Some(GameResult::Draw)
    }

    /// Whether a four-in-a-row for `t` in direction `(dx, dy)` runs through
    /// the anchor cell `(ax, ay)`.
    #[verifier::rlimit(30)]
    fn check_dir_through(&self, ax: i64, ay: i64, dx: i64, dy: i64, t: Team) -> (r: bool)
        requires
            0 <= ax < W,
            0 <= ay < H,
            -1 <= dx <= 1,
            -1 <= dy <= 1,
        ensures
            r == wins_dir_through(self@, ax as int, ay as int, dx as int, dy as int, t),
    {
        self.check_window(ax - 3 * dx, ay - 3 * dy, dx, dy, t) || self.check_window(
            ax - 2 * dx,
            ay - 2 * dy,
            dx,
            dy,
            t,
        ) || self.check_window(ax - dx, ay - dy, dx, dy, t) || self.check_window(ax, ay, dx, dy, t)
    }

    /// Get current state of the board, returning whether there is a result
    /// and if so, who won. This only checks based on the last added piece,
    /// so could return wrong results if called too late.
    #[must_use]
    pub fn game_result_on_change(&self, column: usize) -> (r: Option<GameResult>)
        requires
            column < W,
        ensures
            r == on_change_spec(self@, column as int),
    {
        let c = column as i64;

        // Get the y position of the most recently placed tile: tiles stack
        // bottom-up, so it is the topmost occupied cell of the column.
        let mut ty: i64 = H as i64 - 1;
        loop
            invariant_except_break
                -1 <= ty <= H - 1,
                0 <= c < W,
                top_row(self@, c as int) == top_row_below(self@, c as int, ty as int),
            ensures
                0 <= c < W,
                -1 <= ty <= H - 1,
                top_row(self@, c as int) == ty,
                ty >= 0 ==> cell(self@, c as int, ty as int) is Some,
            decreases ty + 1,
        {
            if ty < 0 {
                break;
            }
            let occupied = self.cell_get(c, ty).is_some();
            if occupied {
                break;
            }
            ty -= 1;
        }

        // Return game running if the column is all empty.
        if ty < 0 {
            return None;
        }
        let t = match self.cell_get(c, ty) {
            Some(t) => t,
            None => unreached(),
        };

        // Check all four line directions through the anchor.
        let won = self.check_dir_through(c, ty, 1, 0, t) || self.check_dir_through(c, ty, 0, 1, t)
            || self.check_dir_through(c, ty, 1, 1, t) || self.check_dir_through(c, ty, 1, -1, t);
        if won {
            return Some(GameResult::Winner(t));
        }

        // Otherwise the game is running or drawn (if it is full).
        let mut i: usize = 0;
        while i < AREA
            invariant
                i <= AREA,
                self@.len() == AREA,
                c as int == column as int,
                forall|j: int| 0 <= j < i ==> #[trigger] self@[j] is Some,
                cell(self@, c as int, top_row(self@, c as int)) == Some(t),
                !wins_through(self@, c as int, top_row(self@, c as int), t),
            decreases AREA - i,
        {
            if self.field[i].is_none() {
                return None;
            }
            i += 1;
        }
        Some(GameResult::Draw)
    }

    /// The heuristic weight of the neighbor cell at `(x, y)` for team `t`.
    fn neighbor_val(&self, x: i64, y: i64, t: Team) -> (v: i64)
        requires
            -8 <= x <= 8,
            -8 <= y <= 8,
        ensures
            v == neighbor_score(self@, x as int, y as int, t),
            -3 <= v <= 3,
    {
        if x < 0 || x >= W as i64 || y < 0 || y >= H as i64 {
            return 0;
        }
        match self.field[(x * (H as i64) + y) as usize] {
            None => 1,
            Some(u) => if u == t {
                3
            } else {
                -3
            },
        }
    }

    /// The summed heuristic weight of the 8 cells around `(x, y)` for `t`.
    fn surrounding_val(&self, x: i64, y: i64, t: Team) -> (v: i64)
        requires
            0 <= x < W,
            0 <= y < H,
        ensures
            v == surrounding_score(self@, x as int, y as int, t),
            -24 <= v <= 24,
    {
        self.neighbor_val(x + 1, y, t) + self.neighbor_val(x + 1, y + 1, t) + self.neighbor_val(
            x,
            y + 1,
            t,
        ) + self.neighbor_val(x - 1, y + 1, t) + self.neighbor_val(x - 1, y, t)
            + self.neighbor_val(x - 1, y - 1, t) + self.neighbor_val(x, y - 1, t)
            + self.neighbor_val(x + 1, y - 1, t)
    }

    /// The contribution of the cell at `(x, y)` to `me`'s positional score.
    fn cell_val(&self, x: usize, y: usize, me: Team) -> (v: i64)
        requires
            x < W,
            y < H,
        ensures
            v == cell_score(self@, x as int, y as int, me),
            -24 <= v <= 24,
    {
        match self.field[x * H + y] {
            None => 0,
            Some(t) => {
                let s = self.surrounding_val(x as i64, y as i64, t);
                if t == me {
                    s
                } else {
                    -s
                }
            },
        }
    }

    /// Heuristic function to evaluate the board's position. Returns 0 for
    /// an estimated draw, above that for estimated wins and below for
    /// estimated losses; a decided board short-circuits to the extreme
    /// values.
    #[must_use]
    pub fn heuristic_1(&self, me: Team) -> (v: i64)
        requires
            at_most_one_winner(self@),
        ensures
            v == heuristic_spec(self@, me),
    {
        match self.game_result() {
            Some(GameResult::Draw) => return 0,
            Some(GameResult::Winner(team)) => return if team == me {
                i64::MAX
            } else {
                i64::MIN
            },
            None => {},
        }

        let mut value: i64 = 0;
        let mut x: usize = 0;
        while x < W
            invariant
                x <= W,
                value == cols_score(self@, me, x as int),
                -144 * x <= value <= 144 * x,
            decreases W - x,
        {
            let mut y: usize = 0;
            while y < H
                invariant
                    x < W,
                    y <= H,
                    value == cols_score(self@, me, x as int) + col_score(
                        self@,
                        me,
                        x as int,
                        y as int,
                    ),
                    -144 * x - 24 * y <= value <= 144 * x + 24 * y,
                decreases H - y,
            {
                let v = self.cell_val(x, y, me);
                value += v;
                y += 1;
            }
            x += 1;
        }
        value
    }

    /// Put a tile of the specified team to the corresponding column. The
    /// tile lands on the lowest unoccupied row; a full column or an invalid
    /// index leaves the board unchanged.
    pub fn put_tile(&mut self, column: usize, team: Team) -> (r: Result<(), Error>)
        ensures
            column >= W ==> r == Err::<(), Error>(Error::IndexOutOfBounds) && *final(self) == *old(self),
            column < W && col_fill(old(self)@, column as int) == H ==> r == Err::<(), Error>(
                Error::FieldFullAtColumn(team),
            ) && *final(self) == *old(self),
            column < W && col_fill(old(self)@, column as int) < H ==> {
                &&& r == Ok::<(), Error>(())
                &&& final(self)@ == old(self)@.update(
                    column * (H as int) + col_fill(old(self)@, column as int),
                    Some(team),
                )
            },
            old(self).wf() ==> final(self).wf(),
    {
        if column >= W {
            return Err(Error::IndexOutOfBounds);
        }

        let mut y: usize = 0;
        while y < H
            invariant
                column < W,
                y <= H,
                self == old(self),
                self@.len() == AREA,
                forall|yy: int| 0 <= yy < y ==> #[trigger] cell(self@, column as int, yy) is Some,
                first_free_above(self@, column as int, 0) == first_free_above(
                    self@,
                    column as int,
                    y as int,
                ),
            decreases H - y,
        {
            if self.field[column * H + y].is_none() {
                proof {
                    assert(cell(self@, column as int, y as int) is None);
                    assert(first_free_above(self@, column as int, y as int) == y);
                }
                self.field[column * H + y] = Some(team);
                proof {
                    let pre = old(self)@;
                    let post = self@;
                    let c = column as int;
                    let fy = y as int;
                    assert(post == pre.update(c * (H as int) + fy, Some(team)));
                    if old(self).wf() {
                        assert forall|x0: int, y0: int|
                            0 <= x0 < W && 0 < y0 < H && #[trigger] cell(post, x0, y0) is Some
                        implies cell(post, x0, y0 - 1) is Some by {
                            if x0 == c && y0 == fy {
                                assert(cell(pre, x0, y0 - 1) is Some);
                            } else {
                                assert(cell(post, x0, y0) == cell(pre, x0, y0));
                                if x0 == c && y0 - 1 == fy {
                                } else {
                                    assert(cell(post, x0, y0 - 1) == cell(pre, x0, y0 - 1));
                                }
                            }
                        }
                    }
                }
                return Ok(());
            }
            y += 1;
        }

        Err(Error::FieldFullAtColumn(team))
    }
}

} // verus!
