//! The game: gravity drops, turn rotation and win detection.
use vstd::prelude::*;

use crate::board::{cell_index, lemma_cell_index, Board};
use crate::cell::{Cell, Direction};

verus! {

/// Why a column cannot take a piece.
#[derive(Clone, Copy, Debug, PartialEq, Eq, Structural)]
pub enum TurnError {
    /// The column index is not below the board's width.
    InvalidColumn,
    /// Every row of the column is occupied.
    ColumnFull,
}

/// A game in progress: the board, the number of players, the run length that
/// wins, and whose turn it is (0-based).
pub struct Game {
    pub board: Board,
    pub player_count: u32,
    pub connect_size: usize,
    pub active_player: u32,
}

impl Game {
    pub open spec fn wf(&self) -> bool {
        &&& self.board.wf()
        &&& self.player_count > 0
        &&& self.active_player < self.player_count
        &&& forall|i: int|
            0 <= i < self.board.cells@.len() ==> #[trigger] self.board.cells@[i].occupant
                <= self.player_count
    }

    /// Every row of column `x` is occupied.
    pub open spec fn column_full(&self, x: int) -> bool {
        forall|y: int| 0 <= y < self.board.height ==> self.board.occ(x, y) != 0
    }

    /// The error that a drop into column `x` meets, if any.
    pub open spec fn turn_error(&self, x: int) -> Option<TurnError> {
        if !(0 <= x < self.board.width) {
            Some(TurnError::InvalidColumn)
        } else if self.column_full(x) {
            Some(TurnError::ColumnFull)
        } else {
            None
        }
    }

    /// Row `y` is the lowest empty row of column `x`.
    pub open spec fn lands_at(&self, x: int, y: int) -> bool {
        &&& self.board.in_bounds(x, y)
        &&& self.board.occ(x, y) == 0
        &&& forall|r: int| 0 <= r < y ==> self.board.occ(x, r) != 0
    }

    /// The row a piece dropped into column `x` comes to rest on.
    pub open spec fn landing_row(&self, x: int) -> int {
        choose|y: int| self.lands_at(x, y)
    }

    /// The cells after the active player's piece lands on (x, y).
    pub open spec fn placed(&self, x: int, y: int) -> Seq<Cell> {
        self.board.cells@.update(
            cell_index(self.board.width as int, x, y),
            Cell { occupant: (self.active_player + 1) as u32 },
        )
    }

    /// Length of the line through (x, y) along the axis of `d`, (x, y) included.
    pub open spec fn axis_len(&self, x: int, y: int, d: Direction) -> int {
        1 + self.board.line_len(x, y, d) + self.board.line_len(x, y, d.opposite()) as int
    }

    /// Some axis through (x, y) holds a line of at least `connect_size`.
    pub open spec fn wins_at(&self, x: int, y: int) -> bool {
        ||| self.axis_len(x, y, Direction::Down) >= self.connect_size
        ||| self.axis_len(x, y, Direction::Left) >= self.connect_size
        ||| self.axis_len(x, y, Direction::DownLeft) >= self.connect_size
        ||| self.axis_len(x, y, Direction::DownRight) >= self.connect_size
    }

    /// A new game on an empty board, player 0 to move.
    pub fn new(player_count: u32, connect_size: usize, board_width: usize, board_height: usize) -> (r: Game)
        requires
            player_count > 0,
            board_width > 0,
            board_height > 0,
            board_width * board_height <= usize::MAX,
        ensures
            r.wf(),
            r.player_count == player_count,
            r.connect_size == connect_size,
            r.active_player == 0,
            r.board.width == board_width,
            r.board.height == board_height,
            forall|i: int| 0 <= i < r.board.cells@.len() ==> r.board.cells@[i].occupant == 0,
    {
        Game {
            board: Board::new(board_width, board_height),
            player_count,
            connect_size,
            active_player: 0,
        }
    }

    /// Hands the turn to the next player, round the table.
    pub fn end_turn(&mut self)
        requires
            old(self).wf(),
        ensures
            final(self).wf(),
            final(self).active_player == (old(self).active_player + 1) % (old(self).player_count as int),
            final(self).board == old(self).board,
            final(self).player_count == old(self).player_count,
            final(self).connect_size == old(self).connect_size,
    {
        self.active_player = (self.active_player + 1) % self.player_count;
    }

    /// Drops a piece of the active player into column `x`; returns the row it
    /// lands on. The turn does not pass.
    pub fn place_piece(&mut self, x: usize) -> (r: Result<usize, TurnError>)
        requires
            old(self).wf(),
        ensures
            match r {
                Ok(y) => {
                    &&& old(self).turn_error(x as int) is None
                    &&& old(self).lands_at(x as int, y as int)
                    &&& y == old(self).landing_row(x as int)
                    &&& final(self).wf()
                    &&& final(self).board.width == old(self).board.width
                    &&& final(self).board.height == old(self).board.height
                    &&& final(self).board.cells@ == old(self).placed(x as int, y as int)
                    &&& final(self).player_count == old(self).player_count
                    &&& final(self).connect_size == old(self).connect_size
                    &&& final(self).active_player == old(self).active_player
                },
                Err(e) => old(self).turn_error(x as int) == Some(e) && *final(self) == *old(self),
            },
    {
        if x >= self.board.width {
            return Err(TurnError::InvalidColumn);
        }
        let mut y: usize = 0;
        while y < self.board.height
            invariant
                *self == *old(self),
                self.wf(),
                x < self.board.width,
                y <= self.board.height,
                forall|r: int| 0 <= r < y ==> self.board.occ(x as int, r) != 0,
            decreases self.board.height - y,
        {
            let empty = match self.board.get_cell(x, y) {
                Some(c) => c.is_empty(),
                None => false,
            };
            if empty {
                proof {
                    self.lemma_landing_row(x as int, y as int);
                    lemma_cell_index(
                        self.board.width as int,
                        self.board.height as int,
                        x as int,
                        y as int,
                    );
                }
                let ghost before = *self;
                self.board.occupy_cell(x, y, self.active_player);
                assert(self.board.cells@ == before.placed(x as int, y as int));
                assert(!before.column_full(x as int)) by {
                    assert(before.board.occ(x as int, y as int) == 0);
                }
                return Ok(y);
            }
            y += 1;
        }
        Err(TurnError::ColumnFull)
    }

    /// A column has at most one lowest empty row.
    pub proof fn lemma_landing_row(&self, x: int, y: int)
        requires
            self.lands_at(x, y),
        ensures
            self.landing_row(x) == y,
    {
        let c = self.landing_row(x);
        assert(self.lands_at(x, c));
        if c < y {
            assert(self.board.occ(x, c) != 0);
        } else if c > y {
            assert(self.board.occ(x, y) != 0);
        }
    }

    /// Whether the piece on (x, y) completes a line of `connect_size` along
    /// one of the four axes.
    pub fn check_win(&self, x: usize, y: usize) -> (r: bool)
        requires
            self.wf(),
            self.board.in_bounds(x as int, y as int),
            self.board.occ(x as int, y as int) != 0,
        ensures
            r == self.wins_at(x as int, y as int),
    {
        let vertical = 1 + self.board.get_line_length(x, y, Direction::Down)
            + self.board.get_line_length(x, y, Direction::Top);
        let horizontal = 1 + self.board.get_line_length(x, y, Direction::Left)
            + self.board.get_line_length(x, y, Direction::Right);
        let rising = 1 + self.board.get_line_length(x, y, Direction::DownLeft)
            + self.board.get_line_length(x, y, Direction::TopRight);
        let falling = 1 + self.board.get_line_length(x, y, Direction::DownRight)
            + self.board.get_line_length(x, y, Direction::TopLeft);
        vertical >= self.connect_size || horizontal >= self.connect_size || rising
            >= self.connect_size || falling >= self.connect_size
    }

    /// Ordinal (1-based) of the player who made the last move, read after the
    /// turn has passed.
    pub fn last_mover(&self) -> (r: u32)
        requires
            self.wf(),
        ensures
            r == if self.active_player == 0 {
                self.player_count
            } else {
                self.active_player
            },
    {
        if self.active_player == 0 {
            self.player_count
        } else {
            self.active_player
        }
    }
}

/// One turn: drops the active player's piece into column `x`, passes the turn,
/// and tells whether the piece won the game. A rejected column leaves the game
/// as it was.
pub fn take_turn(game: &mut Game, x: usize) -> (r: Result<bool, TurnError>)
    requires
        old(game).wf(),
    ensures
        final(game).wf(),
        match r {
            Ok(won) => {
                let y = old(game).landing_row(x as int);
                &&& old(game).turn_error(x as int) is None
                &&& old(game).lands_at(x as int, y)
                &&& final(game).board.width == old(game).board.width
                &&& final(game).board.height == old(game).board.height
                &&& final(game).board.cells@ == old(game).placed(x as int, y)
                &&& final(game).player_count == old(game).player_count
                &&& final(game).connect_size == old(game).connect_size
                &&& final(game).active_player == (old(game).active_player + 1) % (old(
                    game,
                ).player_count as int)
                &&& won == final(game).wins_at(x as int, y)
            },
            Err(e) => old(game).turn_error(x as int) == Some(e) && *final(game) == *old(game),
        },
{
    match game.place_piece(x) {
        Ok(y) => {
            proof {
                lemma_cell_index(
                    game.board.width as int,
                    game.board.height as int,
                    x as int,
                    y as int,
                );
            }
            game.end_turn();
            Ok(game.check_win(x, y))
        },
        Err(e) => Err(e),
    }
}

} // verus!
