//! The turn-taking state machine that a presentation layer drives.
//!
//! The board primitives deliberately separate "place a piece" from
//! "advance the turn"; this module owns the authoritative policy that
//! composes them: a failed placement changes nothing, a successful one on
//! a game still in progress advances the turn, and a terminal outcome
//! freezes the game until a reset.

use vstd::prelude::*;

use crate::board::in_grid;
use crate::board::Board;
use crate::board::GameResult;
use crate::board::PieceSpot;
use crate::board::Player;

verus! {

/// A command sent by the presentation layer.
#[derive(Clone, Copy, Debug)]
pub enum Message {
    PieceDrop(usize),
    Reset,
}

/// A running game: the board plus the frozen-after-terminal flag.
#[derive(Clone, Debug)]
pub struct Game {
    pub board: Board,
    pub game_over: bool,
}

impl Game {
    /// A fresh game: empty grid, `A` to move, not over.
    pub fn new() -> (game: Game)
        ensures
            game.board.turn == Player::A,
            forall|c: int, r: int| in_grid(c, r) ==> (#[trigger] game.board.spot(c, r)) is Empty,
            game.board.gravity_ok(),
            !game.game_over,
    {
        Game { board: Board::default(), game_over: false }
    }

    /// How one drop request transforms a game that is not yet over: the
    /// piece lands on top of the column's pieces if the column admits
    /// one, nothing on the grid moves otherwise, the frozen flag follows
    /// exactly whether the new grid is terminal, and the turn advances
    /// only after a successful placement of a game still in progress.
    pub open spec fn drop_transition(pre: Game, post: Game, column: usize) -> bool {
        let placed = column < 7 && pre.board.column_count(column as int) < 6;
        let row = pre.board.column_count(column as int) as int;
        &&& placed ==> post.board.spot(column as int, row) == PieceSpot::Player(pre.board.turn)
        &&& placed ==> forall|c: int, r: int|
            in_grid(c, r) && !(c == column as int && r == row) ==> post.board.spot(c, r)
                == pre.board.spot(c, r)
        &&& !placed ==> post.board.board == pre.board.board
        &&& post.game_over == post.board.terminal()
        &&& !post.board.terminal() && placed ==> post.board.turn == pre.board.turn.opposite_spec()
        &&& !post.board.terminal() && !placed ==> post.board.turn == pre.board.turn
        &&& post.board.terminal() ==> post.board.turn == pre.board.turn
        &&& pre.board.gravity_ok() ==> post.board.gravity_ok()
        &&& placed && pre.board.gravity_ok() ==> post.board.column_count(column as int)
            == pre.board.column_count(column as int) + 1
    }

    /// Handles one command under the transition policy. While the game is
    /// over, drop requests change nothing; otherwise the request lands as
    /// `drop_transition` says. A reset always returns to the fresh state.
    pub fn update(&mut self, message: Message)
        ensures
            message is Reset ==> ({
                &&& final(self).board.turn == Player::A
                &&& forall|c: int, r: int|
                    in_grid(c, r) ==> (#[trigger] final(self).board.spot(c, r)) is Empty
                &&& final(self).board.gravity_ok()
                &&& !final(self).game_over
            }),
            message matches Message::PieceDrop(column) ==> if old(self).game_over {
                *final(self) == *old(self)
            } else {
                Self::drop_transition(*old(self), *final(self), column)
            },
    {
        match message {
            Message::PieceDrop(column) => {
                if !self.game_over {
                    let valid_drop = self.board.drop_piece(column);
                    let result = self.board.calculate_result();
                    let ghost mid = self.board;
                    if let GameResult::Indefinite = result {
                        if valid_drop.is_ok() {
                            self.board.switch_turn();
                        }
                        proof {
                            crate::board::lemma_grid_determines_outcome(mid, self.board);
                            crate::board::lemma_grid_determines_columns(mid, self.board);
                        }
                    } else {
                        self.game_over = true;
                    }
                }
            },
            Message::Reset => {
                self.board.reset();
                self.game_over = false;
            },
        }
    }
}

} // verus!
