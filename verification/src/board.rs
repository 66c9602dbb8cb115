//! The board engine: a 7x6 grid of pieces, the player whose move is next,
//! and the win/draw rules.
//!
//! The grid is indexed by `(column, row)` with `0 <= column < 7` and
//! `0 <= row < 6`; row 0 is the bottom of a column and pieces stack upward.

use vstd::prelude::*;

verus! {

/// One of the two players. `A` moves first on a fresh board.
#[derive(Clone, Copy, Debug, PartialEq, Eq, Structural)]
pub enum Player {
    A,
    B,
}

/// The outcome derived from a grid: still playing, a winner, or a full
/// grid with no winner.
#[derive(Clone, Copy, Debug, PartialEq, Eq, Structural)]
pub enum GameResult {
    Indefinite,
    Win(Player),
    Draw,
}

/// One cell of the grid: empty, or holding a piece of one player.
#[derive(Clone, Copy, Debug, PartialEq, Eq, Structural)]
pub enum PieceSpot {
    Empty,
    Player(Player),
}

/// Why a placement was rejected. Neither error mutates the board.
#[derive(Clone, Copy, Debug, PartialEq, Eq, Structural)]
pub enum DropError {
    InvalidColumn,
    ColumnFull,
}

/// True when `(column, row)` lies on the 7x6 grid.
pub open spec fn in_grid(column: int, row: int) -> bool {
    0 <= column < 7 && 0 <= row < 6
}

impl Player {
    /// The other player.
    pub open spec fn opposite_spec(&self) -> Player {
        match self {
            Player::A => Player::B,
            Player::B => Player::A,
        }
    }

    /// The other player.
    #[verifier::when_used_as_spec(opposite_spec)]
    pub fn opposite(&self) -> (other: Player)
        ensures
            other == self.opposite_spec(),
    {
        match self {
            Player::A => Player::B,
            Player::B => Player::A,
        }
    }
}

/// Applying `opposite` twice is the identity, for both players.
pub proof fn lemma_opposite_involution(p: Player)
    ensures
        p.opposite_spec().opposite_spec() == p,
{
}

impl Default for Player {
    fn default() -> (player: Self)
        ensures
            player == Player::A,
    {
        Player::A
    }
}

impl PieceSpot {
    fn is_empty(&self) -> (empty: bool)
        ensures
            empty <==> (self is Empty),
    {
        match self {
            PieceSpot::Empty => true,
            _ => false,
        }
    }

    fn is_player(&self) -> (occupied: bool)
        ensures
            occupied <==> (self is Player),
    {
        match self {
            PieceSpot::Player(_) => true,
            _ => false,
        }
    }
}

impl Default for PieceSpot {
    fn default() -> (spot: Self)
        ensures
            spot == PieceSpot::Empty,
    {
        PieceSpot::Empty
    }
}

/// Where the rising diagonal numbered `d` starts: anchors along the left
/// edge and the bottom edge, ordered as the enumeration walks them.
pub open spec fn diag_up_start(d: int) -> (int, int) {
    if d == 0 {
        (0, 2)
    } else if d == 1 {
        (0, 1)
    } else if d == 2 {
        (0, 0)
    } else if d == 3 {
        (1, 0)
    } else if d == 4 {
        (2, 0)
    } else {
        (3, 0)
    }
}

/// Where the falling diagonal numbered `d` starts: anchors along the left
/// edge and the top edge, ordered as the enumeration walks them.
pub open spec fn diag_down_start(d: int) -> (int, int) {
    if d == 0 {
        (0, 3)
    } else if d == 1 {
        (0, 4)
    } else if d == 2 {
        (0, 5)
    } else if d == 3 {
        (1, 5)
    } else if d == 4 {
        (2, 5)
    } else {
        (3, 5)
    }
}

/// How many cells diagonal `d` of either family holds before it leaves
/// the grid.
pub open spec fn diag_len(d: int) -> int {
    if d == 0 {
        4
    } else if d == 1 {
        5
    } else if d == 2 {
        6
    } else if d == 3 {
        6
    } else if d == 4 {
        5
    } else {
        4
    }
}

/// How many cells win sequence `k` holds. Sequences 0..6 are the rows,
/// 6..13 the columns, 13..19 the rising diagonals, 19..25 the falling
/// diagonals.
pub open spec fn sequence_len(k: int) -> int {
    if 0 <= k < 6 {
        7
    } else if 6 <= k < 13 {
        6
    } else if 13 <= k < 19 {
        diag_len(k - 13)
    } else {
        diag_len(k - 19)
    }
}

/// The `(column, row)` of cell `i` of win sequence `k`.
pub open spec fn sequence_cell(k: int, i: int) -> (int, int) {
    if 0 <= k < 6 {
        (i, k)
    } else if 6 <= k < 13 {
        (k - 6, i)
    } else if 13 <= k < 19 {
        (diag_up_start(k - 13).0 + i, diag_up_start(k - 13).1 + i)
    } else {
        (diag_down_start(k - 19).0 + i, diag_down_start(k - 19).1 - i)
    }
}

/// Every cell of every win sequence lies on the grid.
pub proof fn lemma_sequence_cell_in_grid(k: int, i: int)
    requires
        0 <= k < 25,
        0 <= i < sequence_len(k),
    ensures
        in_grid(sequence_cell(k, i).0, sequence_cell(k, i).1),
{
}

/// The aggregate state: the grid and the player whose move is next.
#[derive(Clone, Debug)]
pub struct Board {
    pub turn: Player,
    pub board: [[PieceSpot; 6]; 7],
}

impl Board {
    /// The cell at `(column, row)`.
    pub open spec fn spot(self, column: int, row: int) -> PieceSpot {
        self.board[column][row]
    }

    /// How many of the cells of `column` below `row` hold a piece.
    pub open spec fn occupied_below(self, column: int, row: int) -> nat
        decreases row,
    {
        if row <= 0 {
            0
        } else {
            self.occupied_below(column, row - 1) + (if self.spot(column, row - 1) is Player {
                1nat
            } else {
                0nat
            })
        }
    }

    /// How many pieces `column` holds.
    pub open spec fn column_count(self, column: int) -> nat {
        self.occupied_below(column, 6)
    }

    /// The gravity invariant: in every column the occupied cells sit on the
    /// lowest rows contiguously, with no empty cell below a piece.
    pub open spec fn gravity_ok(self) -> bool {
        forall|c: int, r1: int, r2: int|
            0 <= c < 7 && 0 <= r1 < r2 < 6 && (#[trigger] self.spot(c, r2)) is Player
                ==> (#[trigger] self.spot(c, r1)) is Player
    }

    /// Every cell holds a piece.
    pub open spec fn is_full(self) -> bool {
        forall|c: int, r: int| in_grid(c, r) ==> (#[trigger] self.spot(c, r)) is Player
    }

    /// The cell at a spec-level coordinate pair.
    pub open spec fn spot_at(self, cell: (int, int)) -> PieceSpot {
        self.spot(cell.0, cell.1)
    }

    /// Four cells of `p` in a straight line on the grid, starting at
    /// `(column, row)` and stepping by `(dc, dr)`.
    pub open spec fn line_wins(self, p: Player, column: int, row: int, dc: int, dr: int) -> bool {
        &&& in_grid(column, row)
        &&& in_grid(column + dc, row + dr)
        &&& in_grid(column + 2 * dc, row + 2 * dr)
        &&& in_grid(column + 3 * dc, row + 3 * dr)
        &&& self.spot(column, row) == PieceSpot::Player(p)
        &&& self.spot(column + dc, row + dr) == PieceSpot::Player(p)
        &&& self.spot(column + 2 * dc, row + 2 * dr) == PieceSpot::Player(p)
        &&& self.spot(column + 3 * dc, row + 3 * dr) == PieceSpot::Player(p)
    }

    /// `p` holds four in a row somewhere: in a row, a column, or either
    /// diagonal direction.
    pub open spec fn has_four(self, p: Player) -> bool {
        exists|column: int, row: int, dc: int, dr: int|
            is_direction(dc, dr) && #[trigger] self.line_wins(p, column, row, dc, dr)
    }

    /// The window of four cells of win sequence `k` starting at offset `w`
    /// holds `p` throughout.
    pub open spec fn window_wins(self, p: Player, k: int, w: int) -> bool {
        &&& self.spot_at(sequence_cell(k, w)) == PieceSpot::Player(p)
        &&& self.spot_at(sequence_cell(k, w + 1)) == PieceSpot::Player(p)
        &&& self.spot_at(sequence_cell(k, w + 2)) == PieceSpot::Player(p)
        &&& self.spot_at(sequence_cell(k, w + 3)) == PieceSpot::Player(p)
    }

    /// The game is over: someone has four in a row, or the grid is full.
    pub open spec fn terminal(self) -> bool {
        (exists|p: Player| self.has_four(p)) || self.is_full()
    }

    /// A uniform window of a win sequence is four in a row.
    proof fn lemma_window_wins_line(self, p: Player, k: int, w: int)
        requires
            0 <= k < 25,
            0 <= w,
            w + 4 <= sequence_len(k),
            self.window_wins(p, k, w),
        ensures
            self.has_four(p),
    {
        if k < 6 {
            assert(self.line_wins(p, w, k, 1, 0));
        } else if k < 13 {
            assert(self.line_wins(p, k - 6, w, 0, 1));
        } else if k < 19 {
            let (c0, r0) = diag_up_start(k - 13);
            assert(self.line_wins(p, c0 + w, r0 + w, 1, 1));
        } else {
            let (c0, r0) = diag_down_start(k - 19);
            assert(self.line_wins(p, c0 + w, r0 - w, 1, -1));
        }
    }

    /// Four in a row always shows up as a uniform window of one of the 25
    /// win sequences: the enumeration covers every alignment.
    proof fn lemma_line_has_window(self, p: Player, column: int, row: int, dc: int, dr: int)
        requires
            is_direction(dc, dr),
            self.line_wins(p, column, row, dc, dr),
        ensures
            exists|k: int, w: int|
                0 <= k < 25 && 0 <= w && w + 4 <= sequence_len(k) && #[trigger] self.window_wins(
                    p,
                    k,
                    w,
                ),
    {
        if dc == 1 && dr == 0 {
            assert(self.window_wins(p, row, column));
            assert(0 <= row < 25 && 0 <= column && column + 4 <= sequence_len(row));
        } else if dc == 0 && dr == 1 {
            assert(self.window_wins(p, 6 + column, row));
            assert(0 <= 6 + column < 25 && 0 <= row && row + 4 <= sequence_len(6 + column));
        } else if dc == 1 && dr == 1 {
            let d = column - row + 2;
            assert(0 <= d < 6);
            let k = 13 + d;
            let w = column - diag_up_start(d).0;
            assert(self.window_wins(p, k, w));
            assert(0 <= k < 25 && 0 <= w && w + 4 <= sequence_len(k));
        } else {
            let d = column + row - 3;
            assert(0 <= d < 6);
            let k = 19 + d;
            let w = column - diag_down_start(d).0;
            assert(self.window_wins(p, k, w));
            assert(0 <= k < 25 && 0 <= w && w + 4 <= sequence_len(k));
        }
    }
}

/// Four pieces of one player stacked in a column win for that player:
/// with `calculate_result`'s contract the result is then a win, even
/// when the grid is also full, since the win check comes first.
pub proof fn lemma_vertical_four_wins(b: Board, column: int, row: int, p: Player)
    requires
        0 <= column < 7,
        0 <= row && row + 4 <= 6,
        forall|r: int| row <= r < row + 4 ==> #[trigger] b.spot(column, r) == PieceSpot::Player(p),
    ensures
        b.has_four(p),
{
    assert(b.line_wins(p, column, row, 0, 1));
}

proof fn lemma_occupied_below_same(b1: Board, b2: Board, column: int, row: int)
    requires
        b1.board == b2.board,
    ensures
        b1.occupied_below(column, row) == b2.occupied_below(column, row),
    decreases row,
{
    if row > 0 {
        lemma_occupied_below_same(b1, b2, column, row - 1);
    }
}

/// The column counts and the gravity invariant are functions of the grid
/// alone, whichever player is to move.
pub proof fn lemma_grid_determines_columns(b1: Board, b2: Board)
    requires
        b1.board == b2.board,
    ensures
        forall|c: int| #[trigger] b1.column_count(c) == b2.column_count(c),
        b1.gravity_ok() <==> b2.gravity_ok(),
{
    assert forall|c: int| #[trigger] b1.column_count(c) == b2.column_count(c) by {
        lemma_occupied_below_same(b1, b2, c, 6);
    }
    if b1.gravity_ok() {
        assert forall|c: int, r1: int, r2: int|
            0 <= c < 7 && 0 <= r1 < r2 < 6 && (#[trigger] b2.spot(c, r2)) is Player implies (
        #[trigger] b2.spot(c, r1)) is Player by {
            assert(b1.spot(c, r2) is Player);
            assert(b1.spot(c, r1) is Player);
        }
    }
    if b2.gravity_ok() {
        assert forall|c: int, r1: int, r2: int|
            0 <= c < 7 && 0 <= r1 < r2 < 6 && (#[trigger] b1.spot(c, r2)) is Player implies (
        #[trigger] b1.spot(c, r1)) is Player by {
            assert(b2.spot(c, r2) is Player);
            assert(b2.spot(c, r1) is Player);
        }
    }
}

/// The outcome is a function of the grid alone: two boards with the same
/// grid agree on every winner, on fullness, and on being terminal,
/// whichever player is to move.
pub proof fn lemma_grid_determines_outcome(b1: Board, b2: Board)
    requires
        b1.board == b2.board,
    ensures
        forall|p: Player| b1.has_four(p) <==> b2.has_four(p),
        b1.is_full() <==> b2.is_full(),
        b1.terminal() <==> b2.terminal(),
{
    assert(forall|c: int, r: int| #[trigger] b1.spot(c, r) == b2.spot(c, r));
    assert forall|p: Player| b1.has_four(p) <==> b2.has_four(p) by {
        if b1.has_four(p) {
            let (column, row, dc, dr) = choose|column: int, row: int, dc: int, dr: int|
                is_direction(dc, dr) && b1.line_wins(p, column, row, dc, dr);
            assert(b2.line_wins(p, column, row, dc, dr));
        }
        if b2.has_four(p) {
            let (column, row, dc, dr) = choose|column: int, row: int, dc: int, dr: int|
                is_direction(dc, dr) && b2.line_wins(p, column, row, dc, dr);
            assert(b1.line_wins(p, column, row, dc, dr));
        }
    }
    if b1.is_full() {
        assert forall|c: int, r: int| in_grid(c, r) implies (#[trigger] b2.spot(c, r)) is Player by {
            assert(b1.spot(c, r) is Player);
        }
    }
    if b2.is_full() {
        assert forall|c: int, r: int| in_grid(c, r) implies (#[trigger] b1.spot(c, r)) is Player by {
            assert(b2.spot(c, r) is Player);
        }
    }
    if exists|p: Player| b1.has_four(p) {
        let p = choose|p: Player| b1.has_four(p);
        assert(b2.has_four(p));
    }
    if exists|p: Player| b2.has_four(p) {
        let p = choose|p: Player| b2.has_four(p);
        assert(b1.has_four(p));
    }
}

/// When the opponent holds no four in a row anywhere, the only player
/// `calculate_result` can report as the winner is `p` itself.
pub proof fn lemma_sole_winner(b: Board, p: Player)
    requires
        !b.has_four(p.opposite_spec()),
    ensures
        forall|q: Player| b.has_four(q) ==> q == p,
{
    assert forall|q: Player| b.has_four(q) implies q == p by {
        if q != p {
            assert(q == p.opposite_spec());
        }
    }
}

/// The four directions a line of four can take: rightward, upward, and
/// the two diagonals. Leftward and downward lines are the same cells
/// walked from the other end.
pub open spec fn is_direction(dc: int, dr: int) -> bool {
    ||| (dc == 1 && dr == 0)
    ||| (dc == 0 && dr == 1)
    ||| (dc == 1 && dr == 1)
    ||| (dc == 1 && dr == -1)
}

impl Board {
    proof fn lemma_occupied_below_bound(self, column: int, row: int)
        requires
            0 <= row,
        ensures
            self.occupied_below(column, row) <= row,
        decreases row,
    {
        if row > 0 {
            self.lemma_occupied_below_bound(column, row - 1);
        }
    }

    /// A column never holds more than six pieces, so by `drop_piece`'s
    /// contract a column accepts a piece exactly while its count is below
    /// six: six drops into one column succeed and the seventh is refused.
    pub proof fn lemma_column_capacity(self, column: int)
        ensures
            self.column_count(column) <= 6,
    {
        self.lemma_occupied_below_bound(column, 6);
    }

    /// Under gravity, the pieces of a column occupy exactly the rows below
    /// its count.
    pub proof fn lemma_gravity_prefix(self, column: int, row: int)
        requires
            self.gravity_ok(),
            0 <= column < 7,
            0 <= row <= 6,
        ensures
            self.occupied_below(column, row) <= row,
            forall|i: int|
                0 <= i < row ==> ((#[trigger] self.spot(column, i)) is Player <==> i
                    < self.occupied_below(column, row)),
        decreases row,
    {
        if row > 0 {
            self.lemma_gravity_prefix(column, row - 1);
            let k = self.occupied_below(column, row - 1) as int;
            if self.spot(column, row - 1) is Player {
                assert forall|i: int| 0 <= i < row - 1 implies (#[trigger] self.spot(
                    column,
                    i,
                )) is Player by {
                    assert(self.spot(column, i) is Player);
                }
                assert(k == row - 1);
            }
        }
    }

    /// Replaces the board with the initial state: all cells empty, `A` to
    /// move. Always returns to that state, regardless of the prior one.
    pub fn reset(&mut self)
        ensures
            final(self).turn == Player::A,
            forall|c: int, r: int| in_grid(c, r) ==> (#[trigger] final(self).spot(c, r)) is Empty,
            final(self).gravity_ok(),
    {
        *self = Self::default();
    }

    /// Hands the move to the other player. The grid is untouched.
    pub fn switch_turn(&mut self)
        ensures
            final(self).turn == old(self).turn.opposite_spec(),
            final(self).board == old(self).board,
    {
        self.turn = self.turn.opposite();
    }

    /// Places a piece of the player to move on the lowest empty cell of
    /// `column`; the count of pieces already in the column is the target
    /// row. Rejects an out-of-range column or a full one without touching
    /// any state, and never advances the turn itself.
    pub fn drop_piece(&mut self, column: usize) -> (result: Result<(), DropError>)
        ensures
            result is Err ==> *final(self) == *old(self),
            result == Err::<(), DropError>(DropError::InvalidColumn) <==> column >= 7,
            result == Err::<(), DropError>(DropError::ColumnFull) <==> (column < 7 && old(
                self,
            ).column_count(column as int) >= 6),
            result is Ok <==> (column < 7 && old(self).column_count(column as int) < 6),
            result is Ok ==> ({
                let row = old(self).column_count(column as int) as int;
                &&& final(self).turn == old(self).turn
                &&& final(self).spot(column as int, row) == PieceSpot::Player(old(self).turn)
                &&& forall|c: int, r: int|
                    in_grid(c, r) && !(c == column as int && r == row)
                        ==> final(self).spot(c, r) == old(self).spot(c, r)
            }),
            old(self).gravity_ok() && result is Ok ==> ({
                &&& old(self).spot(column as int, old(self).column_count(column as int) as int)
                    is Empty
                &&& final(self).gravity_ok()
                &&& final(self).column_count(column as int) == old(self).column_count(
                    column as int,
                ) + 1
            }),
    {
        if column >= 7 {
            return Err(DropError::InvalidColumn);
        }
        let mut column_top: usize = 0;
        for row in 0..6
            invariant
                column < 7,
                column_top <= row,
                *self == *old(self),
                column_top == self.occupied_below(column as int, row as int),
        {
            if self.board[column][row].is_player() {
                column_top = column_top + 1;
            }
        }
        if column_top >= 6 {
            return Err(DropError::ColumnFull);
        }
        proof {
            if old(self).gravity_ok() {
                old(self).lemma_gravity_prefix(column as int, 6);
            }
        }
        self.board[column][column_top] = PieceSpot::Player(self.turn);
        proof {
            let c = column as int;
            let k = old(self).column_count(c) as int;
            if old(self).gravity_ok() {
                assert forall|c2: int, r1: int, r2: int|
                    0 <= c2 < 7 && 0 <= r1 < r2 < 6 && (#[trigger] self.spot(c2, r2)) is Player
                        implies (#[trigger] self.spot(c2, r1)) is Player by {
                    if c2 == c {
                        assert(old(self).spot(c2, r2) is Player || r2 == k);
                        assert(r1 < k);
                        assert(old(self).spot(c2, r1) is Player);
                    } else {
                        assert(self.spot(c2, r2) == old(self).spot(c2, r2));
                        assert(self.spot(c2, r1) == old(self).spot(c2, r1));
                    }
                }
                self.lemma_gravity_prefix(c, 6);
                assert(self.spot(c, k) is Player);
                if k + 1 < 6 {
                    assert(self.spot(c, k + 1) == old(self).spot(c, k + 1));
                    assert(!(old(self).spot(c, k + 1) is Player));
                }
                assert(self.column_count(c) == k + 1);
            }
        }
        Ok(())
    }

    /// Every straight line of the grid that could carry four in a row:
    /// the 6 rows, the 7 columns, the 6 rising diagonals and the 6
    /// falling diagonals of length at least four, generated fresh on each
    /// call. Sequence `k` lists the cells `sequence_cell(k, _)` in order.
    #[verifier::loop_isolation(false)]
    pub fn win_sequences() -> (sequences: Vec<Vec<(usize, usize)>>)
        ensures
            sequences@.len() == 25,
            forall|k: int| 0 <= k < 25 ==> (#[trigger] sequences@[k])@.len() == sequence_len(k),
            forall|k: int, i: int|
                0 <= k < 25 && 0 <= i < sequence_len(k) ==> ((#[trigger] sequences@[k]@[i]).0
                    as int == sequence_cell(k, i).0 && sequences@[k]@[i].1 as int == sequence_cell(
                    k,
                    i,
                ).1),
    {
        let mut sequences: Vec<Vec<(usize, usize)>> = Vec::new();
        for row in 0..6usize
            invariant
                sequences@.len() == row,
                forall|k: int| 0 <= k < row ==> (#[trigger] sequences@[k])@.len() == sequence_len(
                    k,
                ),
                forall|k: int, i: int|
                    0 <= k < row && 0 <= i < sequence_len(k) ==> ((#[trigger] sequences@[k]@[i]).0
                        as int == sequence_cell(k, i).0 && sequences@[k]@[i].1 as int
                        == sequence_cell(k, i).1),
        {
            let mut sequence: Vec<(usize, usize)> = Vec::new();
            for column in 0..7usize
                invariant
                    sequence@.len() == column,
                    forall|i: int|
                        0 <= i < column ==> ((#[trigger] sequence@[i]).0 as int == i
                            && sequence@[i].1 as int == row as int),
            {
                sequence.push((column, row));
            }
            sequences.push(sequence);
        }
        for column in 0..7usize
            invariant
                sequences@.len() == 6 + column,
                forall|k: int|
                    0 <= k < 6 + column ==> (#[trigger] sequences@[k])@.len() == sequence_len(k),
                forall|k: int, i: int|
                    0 <= k < 6 + column && 0 <= i < sequence_len(k) ==> ((
                    #[trigger] sequences@[k]@[i]).0 as int == sequence_cell(k, i).0
                        && sequences@[k]@[i].1 as int == sequence_cell(k, i).1),
        {
            let mut sequence: Vec<(usize, usize)> = Vec::new();
            for row in 0..6usize
                invariant
                    sequence@.len() == row,
                    forall|i: int|
                        0 <= i < row ==> ((#[trigger] sequence@[i]).0 as int == column as int
                            && sequence@[i].1 as int == i),
            {
                sequence.push((column, row));
            }
            sequences.push(sequence);
        }
        for d in 0..6usize
            invariant
                sequences@.len() == 13 + d,
                forall|k: int|
                    0 <= k < 13 + d ==> (#[trigger] sequences@[k])@.len() == sequence_len(k),
                forall|k: int, i: int|
                    0 <= k < 13 + d && 0 <= i < sequence_len(k) ==> ((
                    #[trigger] sequences@[k]@[i]).0 as int == sequence_cell(k, i).0
                        && sequences@[k]@[i].1 as int == sequence_cell(k, i).1),
        {
            let (start_column, start_row): (usize, usize) = if d == 0 {
                (0, 2)
            } else if d == 1 {
                (0, 1)
            } else if d == 2 {
                (0, 0)
            } else if d == 3 {
                (1, 0)
            } else if d == 4 {
                (2, 0)
            } else {
                (3, 0)
            };
            assert(start_column as int == diag_up_start(d as int).0 && start_row as int
                == diag_up_start(d as int).1);
            let length = if 7 - start_column < 6 - start_row {
                7 - start_column
            } else {
                6 - start_row
            };
            assert(length as int == diag_len(d as int));
            let mut sequence: Vec<(usize, usize)> = Vec::new();
            let mut t: usize = 0;
            while t < length
                invariant
                    t <= length,
                    sequence@.len() == t,
                    forall|i: int|
                        0 <= i < t ==> ((#[trigger] sequence@[i]).0 as int == start_column + i
                            && sequence@[i].1 as int == start_row + i),
                decreases length - t,
            {
                sequence.push((start_column + t, start_row + t));
                t = t + 1;
            }
            sequences.push(sequence);
        }
        for d in 0..6usize
            invariant
                sequences@.len() == 19 + d,
                forall|k: int|
                    0 <= k < 19 + d ==> (#[trigger] sequences@[k])@.len() == sequence_len(k),
                forall|k: int, i: int|
                    0 <= k < 19 + d && 0 <= i < sequence_len(k) ==> ((
                    #[trigger] sequences@[k]@[i]).0 as int == sequence_cell(k, i).0
                        && sequences@[k]@[i].1 as int == sequence_cell(k, i).1),
        {
            let (start_column, start_row): (usize, usize) = if d == 0 {
                (0, 3)
            } else if d == 1 {
                (0, 4)
            } else if d == 2 {
                (0, 5)
            } else if d == 3 {
                (1, 5)
            } else if d == 4 {
                (2, 5)
            } else {
                (3, 5)
            };
            assert(start_column as int == diag_down_start(d as int).0 && start_row as int
                == diag_down_start(d as int).1);
            let length = if 7 - start_column < start_row + 1 {
                7 - start_column
            } else {
                start_row + 1
            };
            assert(length as int == diag_len(d as int));
            let mut sequence: Vec<(usize, usize)> = Vec::new();
            let mut t: usize = 0;
            while t < length
                invariant
                    t <= length,
                    sequence@.len() == t,
                    forall|i: int|
                        0 <= i < t ==> ((#[trigger] sequence@[i]).0 as int == start_column + i
                            && sequence@[i].1 as int == start_row - i),
                decreases length - t,
            {
                sequence.push((start_column + t, start_row - t));
                t = t + 1;
            }
            sequences.push(sequence);
        }
        sequences
    }

    /// The piece at the given cell.
    fn access(&self, cell: (usize, usize)) -> (spot: PieceSpot)
        requires
            in_grid(cell.0 as int, cell.1 as int),
        ensures
            spot == self.spot(cell.0 as int, cell.1 as int),
    {
        self.board[cell.0][cell.1]
    }

    /// Scans every four-cell window of every win sequence for a uniform
    /// occupant and reports the first winner found, if any.
    #[verifier::loop_isolation(false)]
    fn is_win(&self) -> (winner: Option<Player>)
        ensures
            winner matches Some(p) ==> self.has_four(p),
            winner is None ==> forall|p: Player| !self.has_four(p),
    {
        let sequences = Self::win_sequences();
        let mut k: usize = 0;
        while k < 25
            invariant
                k <= 25,
                forall|p: Player, k2: int, w2: int|
                    0 <= k2 < k && 0 <= w2 && w2 + 4 <= sequence_len(k2) ==> !(
                    #[trigger] self.window_wins(p, k2, w2)),
            decreases 25 - k,
        {
            let sequence = &sequences[k];
            let mut w: usize = 0;
            while w + 4 <= sequence.len()
                invariant
                    w <= sequence@.len(),
                    forall|p: Player, w2: int|
                        0 <= w2 < w ==> !(#[trigger] self.window_wins(p, k as int, w2)),
                decreases sequence@.len() - w,
            {
                proof {
                    lemma_sequence_cell_in_grid(k as int, w as int);
                    lemma_sequence_cell_in_grid(k as int, w + 1);
                    lemma_sequence_cell_in_grid(k as int, w + 2);
                    lemma_sequence_cell_in_grid(k as int, w + 3);
                }
                let a = self.access(sequence[w]);
                let b = self.access(sequence[w + 1]);
                let c = self.access(sequence[w + 2]);
                let d = self.access(sequence[w + 3]);
                if !a.is_empty() && a == b && b == c && c == d {
                    if let PieceSpot::Player(player) = a {
                        proof {
                            self.lemma_window_wins_line(player, k as int, w as int);
                        }
                        return Some(player);
                    }
                }
                w = w + 1;
            }
            k = k + 1;
        }
        proof {
            assert forall|p: Player| !self.has_four(p) by {
                if self.has_four(p) {
                    let (column, row, dc, dr) = choose|column: int, row: int, dc: int, dr: int|
                        is_direction(dc, dr) && self.line_wins(p, column, row, dc, dr);
                    self.lemma_line_has_window(p, column, row, dc, dr);
                }
            }
        }
        None
    }

    /// True when the grid is entirely occupied.
    #[verifier::loop_isolation(false)]
    fn is_draw(&self) -> (draw: bool)
        ensures
            draw <==> self.is_full(),
    {
        for column in 0..7usize
            invariant
                forall|c: int, r: int|
                    0 <= c < column && 0 <= r < 6 ==> (#[trigger] self.spot(c, r)) is Player,
        {
            for row in 0..6usize
                invariant
                    forall|r: int|
                        0 <= r < row ==> (#[trigger] self.spot(column as int, r)) is Player,
            {
                if self.board[column][row].is_empty() {
                    proof {
                        assert(self.spot(column as int, row as int) is Empty);
                    }
                    return false;
                }
            }
        }
        true
    }

    /// Recomputes the outcome from the grid alone: a win if anyone holds
    /// four in a row (checked first, so a win on a full grid is still a
    /// win), a draw on a full grid with no winner, and an unfinished game
    /// otherwise.
    pub fn calculate_result(&self) -> (result: GameResult)
        ensures
            result matches GameResult::Win(p) ==> self.has_four(p),
            (exists|p: Player| self.has_four(p)) ==> result is Win,
            (forall|p: Player| !self.has_four(p)) ==> result == (if self.is_full() {
                GameResult::Draw
            } else {
                GameResult::Indefinite
            }),
            result is Indefinite <==> !self.terminal(),
    {
        if let Some(player) = self.is_win() {
            GameResult::Win(player)
        } else if self.is_draw() {
            GameResult::Draw
        } else {
            GameResult::Indefinite
        }
    }
}

impl Default for Board {
    fn default() -> (board: Self)
        ensures
            board.turn == Player::A,
            forall|c: int, r: int| in_grid(c, r) ==> (#[trigger] board.spot(c, r)) is Empty,
    {
        Board { turn: Player::A, board: [[PieceSpot::Empty; 6]; 7] }
    }
}

} // verus!
