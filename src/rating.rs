use vstd::prelude::*;

use crate::board::{Board, BoardView};
use crate::lemmas::lemma_square_moves_len;
use crate::types::{Color, Move, Piece};

verus! {

/// The material value of each kind of piece.
#[derive(Clone, Copy, Debug, PartialEq, Eq, Structural)]
pub struct PieceRates {
    pub pawn: i32,
    pub queen: i32,
}

/// Weights of the positional term.
#[derive(Clone, Copy, Debug, PartialEq, Eq, Structural)]
pub struct PositionRates {
    /// A pawn on its home row is worth `pawn`, one row further `2 * pawn`,
    /// and so on up to `8 * pawn` on the far row.
    pub pawn: i32,
    /// A queen is worth `queen` times the sum, over both axes, of its
    /// closeness to the center: 1 on an edge up to 4 on the two middle lines.
    pub queen: i32,
}

/// The value of threatening to capture each kind of piece.
#[derive(Clone, Copy, Debug, PartialEq, Eq, Structural)]
pub struct KillRates {
    pub pawn: i32,
    pub queen: i32,
}

/// All the weights of the evaluation, the score of a decided game and the
/// depth of the search, in full turns.
#[derive(Clone, Copy, Debug, PartialEq, Eq, Structural)]
pub struct RateConfig {
    pub pieces: PieceRates,
    pub position: PositionRates,
    pub kills: KillRates,
    pub win: i32,
    pub max_depth: usize,
}

/// How close `v` (a row or a column) is to the middle of the board: 1 on the
/// edge, 4 on the two middle lines.
pub open spec fn centered(v: int) -> int {
    if v <= 3 {
        v + 1
    } else {
        8 - v
    }
}

impl PieceRates {
    pub open spec fn spec_rate(self, piece: Piece) -> int {
        match piece {
            Piece::Pawn => self.pawn as int,
            Piece::Queen => self.queen as int,
        }
    }

    pub fn rate(&self, piece: Piece) -> (r: i32)
        ensures
            r == self.spec_rate(piece),
    {
        match piece {
            Piece::Pawn => self.pawn,
            Piece::Queen => self.queen,
        }
    }
}

impl PositionRates {
    pub open spec fn spec_rate(self, row: int, col: int, color: Color, piece: Piece) -> int {
        match piece {
            Piece::Pawn => match color {
                Color::White => (row + 1) * self.pawn,
                Color::Black => (8 - row) * self.pawn,
            },
            Piece::Queen => (centered(row) + centered(col)) * self.queen,
        }
    }

    pub fn rate(&self, row: u8, col: u8, color: Color, piece: Piece) -> (r: i64)
        requires
            row < 8,
            col < 8,
        ensures
            r == self.spec_rate(row as int, col as int, color, piece),
            -0x4_0000_0000 <= r <= 0x4_0000_0000,
    {
        match piece {
            Piece::Pawn => {
                let steps: i64 = match color {
                    Color::White => row as i64 + 1,
                    Color::Black => 8 - row as i64,
                };
                proof {
                    assert(-0x8000_0000 * 8 <= steps * self.pawn <= 0x8000_0000 * 8)
                        by (nonlinear_arith)
                        requires
                            1 <= steps <= 8,
                            -0x8000_0000 <= self.pawn < 0x8000_0000,
                    ;
                }
                steps * self.pawn as i64
            },
            Piece::Queen => {
                let r: i64 = if row <= 3 {
                    row as i64 + 1
                } else {
                    8 - row as i64
                };
                let c: i64 = if col <= 3 {
                    col as i64 + 1
                } else {
                    8 - col as i64
                };
                let sum: i64 = r + c;
                proof {
                    assert(-0x8000_0000 * 8 <= sum * self.queen <= 0x8000_0000 * 8)
                        by (nonlinear_arith)
                        requires
                            2 <= sum <= 8,
                            -0x8000_0000 <= self.queen < 0x8000_0000,
                    ;
                }
                sum * self.queen as i64
            },
        }
    }
}

impl KillRates {
    pub open spec fn spec_rate(self, piece: Piece) -> int {
        match piece {
            Piece::Pawn => self.pawn as int,
            Piece::Queen => self.queen as int,
        }
    }

    pub fn rate(&self, piece: Piece) -> (r: i32)
        ensures
            r == self.spec_rate(piece),
    {
        match piece {
            Piece::Pawn => self.pawn,
            Piece::Queen => self.queen,
        }
    }
}


/// A bound on the static evaluation of a board.
pub const EVAL_BOUND: i64 = 0x2000_0000_0000;

/// The value of the captures that `s` threatens, by the kind of piece each
/// would take.
pub open spec fn threat(kills: KillRates, s: Seq<Move>) -> int
    decreases s.len(),
{
    if s.len() == 0 {
        0
    } else {
        threat(kills, s.drop_last()) + match s.last().kill {
            Some(k) => kills.spec_rate(k.piece),
            None => 0,
        }
    }
}

impl BoardView {
    /// What the piece on square number `i` adds to the score of `color`: its
    /// material value, its positional value and the value of the captures
    /// that it threatens now; nothing if the square holds no piece of
    /// `color`.
    pub open spec fn piece_score(self, color: Color, i: int) -> int {
        match self.board[i] {
            Some(p) => if p.color == color {
                self.rating.pieces.spec_rate(p.piece) + self.rating.position.spec_rate(
                    i / 8,
                    i % 8,
                    color,
                    p.piece,
                ) + threat(self.rating.kills, self.square_moves(i / 8, i % 8, Some(true)))
            } else {
                0
            },
            None => 0,
        }
    }

    /// The score of `color` over the first `n` squares.
    pub open spec fn score_upto(self, color: Color, n: int) -> int
        decreases n,
    {
        if n <= 0 {
            0
        } else {
            self.score_upto(color, n - 1) + self.piece_score(color, n - 1)
        }
    }

    pub open spec fn score(self, color: Color) -> int {
        self.score_upto(color, 64)
    }

    /// The static evaluation, from the point of view of the side to move.
    pub open spec fn evaluation(self) -> int {
        self.score(self.current_player()) - self.score(self.current_player().spec_other())
    }
}

impl Board {
    fn threat_of(&self, row: u8, col: u8) -> (r: i64)
        requires
            self@.wf(),
            row < 8,
            col < 8,
        ensures
            r == threat(self.rating.kills, self@.square_moves(row as int, col as int, Some(true))),
            -0x20_0000_0000 <= r <= 0x20_0000_0000,
    {
        let kills = self.rating.kills;
        proof {
            lemma_square_moves_len(self@, row as int, col as int, Some(true));
        }
        match self.find_moves(row, col, Some(true)) {
            None => 0,
            Some(moves) => {
                let mut sum: i64 = 0;
                let mut i: usize = 0;
                while i < moves.len()
                    invariant
                        i <= moves@.len(),
                        moves@.len() <= 32,
                        sum == threat(kills, moves@.take(i as int)),
                        -0x8000_0000 * i <= sum <= 0x8000_0000 * i,
                    decreases moves@.len() - i,
                {
                    proof {
                        assert(moves@.take(i + 1).drop_last() =~= moves@.take(i as int));
                    }
                    match moves[i].kill {
                        Some(k) => {
                            sum = sum + kills.rate(k.piece) as i64;
                        },
                        None => {},
                    }
                    i = i + 1;
                }
                assert(moves@.take(moves@.len() as int) =~= moves@);
                sum
            },
        }
    }

    /// The score of `player`: over all of its pieces, their material value,
    /// positional value and the value of the captures they threaten.
    fn rate_player(&self, player: Color) -> (r: i64)
        requires
            self@.wf(),
        ensures
            r == self@.score(player),
            -0x1000_0000_0000 <= r <= 0x1000_0000_0000,
    {
        let mut sum: i64 = 0;
        let mut i: usize = 0;
        while i < 64
            invariant
                self@.wf(),
                i <= 64,
                sum == self@.score_upto(player, i as int),
                -0x40_0000_0000 * i <= sum <= 0x40_0000_0000 * i,
            decreases 64 - i,
        {
            let row: u8 = (i / 8) as u8;
            let col: u8 = (i % 8) as u8;
            match self.board[i] {
                Some(p) => {
                    if p.color == player {
                        let material = self.rating.pieces.rate(p.piece) as i64;
                        let position = self.rating.position.rate(row, col, player, p.piece);
                        let threat = self.threat_of(row, col);
                        sum = sum + material + position + threat;
                    }
                },
                None => {},
            }
            i = i + 1;
        }
        sum
    }

    /// The static evaluation of the board, from the point of view of the
    /// side to move: its score minus its opponent's.
    pub fn rate_current_board(&self) -> (r: i64)
        requires
            self@.wf(),
        ensures
            r == self@.evaluation(),
            -EVAL_BOUND <= r <= EVAL_BOUND,
    {
        let current_player = self.current_player();
        self.rate_player(current_player) - self.rate_player(current_player.other())
    }
}
} // verus!
