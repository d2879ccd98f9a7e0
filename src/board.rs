use vstd::prelude::*;

use crate::rating::RateConfig;
use crate::types::{
    captures_of, has_capture, has_kind, moves_of_kind, Color, Move, Piece, PlayersPiece,
    PosUncolorPiece,
};

verus! {

/// The 8×8 board, stored row by row, with the history of the moves applied
/// to it.
pub struct Board {
    /// The squares, `board[row * 8 + col]`.
    pub board: Vec<Option<PlayersPiece>>,
    pub moves: Vec<Move>,
    /// Full turns played: counts the changes of the side to move.
    pub turn: usize,
    /// A square whose moves a display may highlight.
    pub show_moves_for: Option<(u8, u8)>,
    pub rating: RateConfig,
}

/// The mathematical state of a board.
pub struct BoardView {
    pub board: Seq<Option<PlayersPiece>>,
    pub moves: Seq<Move>,
    pub turn: usize,
    pub show_moves_for: Option<(u8, u8)>,
    pub rating: RateConfig,
}

impl View for Board {
    type V = BoardView;

    open spec fn view(&self) -> BoardView {
        BoardView {
            board: self.board@,
            moves: self.moves@,
            turn: self.turn,
            show_moves_for: self.show_moves_for,
            rating: self.rating,
        }
    }
}

pub open spec fn in_bounds(r: int, c: int) -> bool {
    0 <= r < 8 && 0 <= c < 8
}

pub open spec fn idx(r: int, c: int) -> int {
    r * 8 + c
}

/// One step along an axis, forwards or backwards.
pub open spec fn step(forward: bool) -> int {
    if forward {
        1
    } else {
        -1
    }
}

/// How many squares remain along a row direction before leaving the board.
pub open spec fn steps_left(r: int, forward: bool) -> int {
    if forward {
        8 - r
    } else {
        r + 1
    }
}

/// Whether a caller that asked for `kills` (only captures, only plain moves,
/// or both) wants a move that captures or not.
pub open spec fn wanted(kills: Option<bool>, capture: bool) -> bool {
    kills is None || kills == Some(capture)
}

/// Every square that the move names lies on the board.
pub open spec fn move_in_bounds(m: Move) -> bool {
    &&& in_bounds(m.from.0 as int, m.from.1 as int)
    &&& in_bounds(m.to.0 as int, m.to.1 as int)
    &&& match m.kill {
        Some(k) => in_bounds(k.row as int, k.col as int),
        None => true,
    }
}

/// The turn counter after one more turn (wrapping, as the counter has a
/// fixed width).
pub open spec fn next_turn(t: usize) -> usize {
    if t == usize::MAX {
        0
    } else {
        (t + 1) as usize
    }
}

pub open spec fn prev_turn(t: usize) -> usize {
    if t == 0 {
        usize::MAX
    } else {
        (t - 1) as usize
    }
}

/// What square (r, c) holds on a new board with `lines` rows of pawns for
/// each side.
pub open spec fn initial_square(lines: int, r: int, c: int) -> Option<PlayersPiece> {
    if (r + c) % 2 != 0 {
        None
    } else if r < lines {
        Some(PlayersPiece { color: Color::White, piece: Piece::Pawn })
    } else if r + lines >= 8 {
        Some(PlayersPiece { color: Color::Black, piece: Piece::Pawn })
    } else {
        None
    }
}

/// The two ways in which a board refuses a request.
#[derive(Clone, Copy, Debug, PartialEq, Eq, Structural)]
pub enum BoardError {
    /// The move is not one of the legal moves of the side to move.
    InvalidMove,
    /// There is no move to take back.
    EmptyHistory,
}

impl BoardView {
    pub open spec fn wf(self) -> bool {
        &&& self.board.len() == 64
        &&& forall|i: int| 0 <= i < self.moves.len() ==> move_in_bounds(#[trigger] self.moves[i])
    }

    /// Pieces stand only on the dark squares, those whose row and column add
    /// up to an even number.
    pub open spec fn on_dark_squares(self) -> bool {
        forall|r: int, c: int|
            in_bounds(r, c) && (#[trigger] self.at(r, c)) is Some ==> (r + c) % 2 == 0
    }

    pub open spec fn at(self, r: int, c: int) -> Option<PlayersPiece> {
        self.board[idx(r, c)]
    }

    pub open spec fn is_free(self, r: int, c: int) -> bool {
        in_bounds(r, c) && self.at(r, c) is None
    }

    pub open spec fn is_enemy(self, r: int, c: int, color: Color) -> bool {
        in_bounds(r, c) && self.at(r, c) is Some && self.at(r, c).unwrap().color != color
    }

    /// The squares past a jumped piece on which a flying capture may land,
    /// from (r, c) onwards until the first obstruction.
    pub open spec fn landings(
        self,
        from: (u8, u8),
        color: Color,
        kill: PosUncolorPiece,
        r: int,
        c: int,
        up: bool,
        right: bool,
    ) -> Seq<Move>
        decreases steps_left(r, up),
    {
        if self.is_free(r, c) {
            seq![
                Move {
                    from,
                    to: (r as u8, c as u8),
                    piece: Piece::Queen,
                    kill: Some(kill),
                    color,
                },
            ] + self.landings(from, color, kill, r + step(up), c + step(right), up, right)
        } else {
            seq![]
        }
    }

    /// The moves of a queen along one diagonal, from (r, c) onwards.
    pub open spec fn slide(
        self,
        from: (u8, u8),
        color: Color,
        r: int,
        c: int,
        up: bool,
        right: bool,
        kills: Option<bool>,
    ) -> Seq<Move>
        decreases steps_left(r, up),
    {
        if self.is_free(r, c) {
            let here = if wanted(kills, false) {
                seq![
                    Move {
                        from,
                        to: (r as u8, c as u8),
                        piece: Piece::Queen,
                        kill: None,
                        color,
                    },
                ]
            } else {
                seq![]
            };
            here + self.slide(from, color, r + step(up), c + step(right), up, right, kills)
        } else if self.is_enemy(r, c, color) && self.is_free(r + step(up), c + step(right))
            && wanted(kills, true) {
            let kill = PosUncolorPiece {
                piece: self.at(r, c).unwrap().piece,
                row: r as u8,
                col: c as u8,
            };
            self.landings(from, color, kill, r + step(up), c + step(right), up, right)
        } else {
            seq![]
        }
    }

    /// The moves of a queen on (r, c) along one diagonal.
    pub open spec fn ray(self, r: int, c: int, color: Color, up: bool, right: bool, kills: Option<bool>) -> Seq<Move> {
        self.slide((r as u8, c as u8), color, r + step(up), c + step(right), up, right, kills)
    }

    /// The move of a pawn on (r, c) towards one side, if any.
    pub open spec fn pawn_step(self, r: int, c: int, color: Color, right: bool, kills: Option<bool>) -> Seq<Move> {
        let nr = r + color.spec_dir();
        let nc = c + step(right);
        if self.is_free(nr, nc) {
            if wanted(kills, false) {
                seq![
                    Move {
                        from: (r as u8, c as u8),
                        to: (nr as u8, nc as u8),
                        piece: Piece::Pawn,
                        kill: None,
                        color,
                    },
                ]
            } else {
                seq![]
            }
        } else if self.is_enemy(nr, nc, color) && self.is_free(nr + color.spec_dir(), nc + step(right)) {
            if wanted(kills, true) {
                seq![
                    Move {
                        from: (r as u8, c as u8),
                        to: ((nr + color.spec_dir()) as u8, (nc + step(right)) as u8),
                        piece: Piece::Pawn,
                        kill: Some(
                            PosUncolorPiece {
                                piece: self.at(nr, nc).unwrap().piece,
                                row: nr as u8,
                                col: nc as u8,
                            },
                        ),
                        color,
                    },
                ]
            } else {
                seq![]
            }
        } else {
            seq![]
        }
    }

    /// The moves of the piece on (r, c), in the order of generation; empty
    /// for an empty square.
    pub open spec fn square_moves(self, r: int, c: int, kills: Option<bool>) -> Seq<Move> {
        match self.at(r, c) {
            None => seq![],
            Some(p) => match p.piece {
                Piece::Pawn => self.pawn_step(r, c, p.color, false, kills) + self.pawn_step(
                    r,
                    c,
                    p.color,
                    true,
                    kills,
                ),
                Piece::Queen => self.ray(r, c, p.color, false, false, kills) + self.ray(
                    r,
                    c,
                    p.color,
                    false,
                    true,
                    kills,
                ) + self.ray(r, c, p.color, true, false, kills) + self.ray(
                    r,
                    c,
                    p.color,
                    true,
                    true,
                    kills,
                ),
            },
        }
    }

    /// The side to move. White opens; after a capture that does not promote,
    /// the same side moves again while the capturing piece can capture more;
    /// otherwise the turn passes.
    pub open spec fn current_player(self) -> Color {
        if self.moves.len() == 0 {
            Color::White
        } else {
            let m = self.moves.last();
            if m.spec_continues() && self.square_moves(m.to.0 as int, m.to.1 as int, Some(true)).len()
                > 0 {
                m.color
            } else {
                m.color.spec_other()
            }
        }
    }

    /// The moves of the piece on square number `i`, if it belongs to `color`.
    pub open spec fn own_moves(self, color: Color, i: int) -> Seq<Move> {
        match self.board[i] {
            Some(p) => if p.color == color {
                self.square_moves(i / 8, i % 8, None)
            } else {
                seq![]
            },
            None => seq![],
        }
    }

    /// The moves of `color`'s pieces on the first `n` squares, row by row.
    pub open spec fn generated(self, color: Color, n: int) -> Seq<Move>
        decreases n,
    {
        if n <= 0 {
            seq![]
        } else {
            self.generated(color, n - 1) + self.own_moves(color, n - 1)
        }
    }

    /// Every move of every piece of `color`, before the capture rules apply.
    pub open spec fn all_moves(self, color: Color) -> Seq<Move> {
        self.generated(color, 64)
    }

    /// The moves that the capture rules leave of `all`: captures are forced,
    /// and among captures those of queens come first.
    pub open spec fn forced(all: Seq<Move>) -> Seq<Move> {
        if !has_capture(all) {
            all
        } else {
            let k = captures_of(all);
            if !has_kind(Piece::Queen, k) {
                k
            } else {
                moves_of_kind(Piece::Queen, k)
            }
        }
    }

    /// The legal moves of the side to move, in the order of generation.
    pub open spec fn legal_moves(self) -> Seq<Move> {
        Self::forced(self.all_moves(self.current_player()))
    }

    /// The pieces of `color` on the first `n` squares, row by row.
    pub open spec fn pieces_of(self, color: Color, n: int) -> Seq<(u8, u8, Piece)>
        decreases n,
    {
        if n <= 0 {
            seq![]
        } else {
            let rest = self.pieces_of(color, n - 1);
            match self.board[n - 1] {
                Some(p) => if p.color == color {
                    rest.push(((((n - 1) / 8) as u8), (((n - 1) % 8) as u8), p.piece))
                } else {
                    rest
                },
                None => rest,
            }
        }
    }

    pub open spec fn has_pieces(self, color: Color) -> bool {
        self.pieces_of(color, 64).len() > 0
    }

    /// The side that has won: a side without pieces loses, and so does a
    /// side to move without a legal move.
    pub open spec fn winner(self) -> Option<Color> {
        if !self.has_pieces(Color::White) {
            Some(Color::Black)
        } else if !self.has_pieces(Color::Black) {
            Some(Color::White)
        } else if self.legal_moves().len() == 0 {
            Some(self.current_player().spec_other())
        } else {
            None
        }
    }

    /// Whether `m` may be played now: its square holds a piece of the side
    /// to move, and it is one of the legal moves.
    pub open spec fn is_legal(self, m: Move) -> bool {
        &&& in_bounds(m.from.0 as int, m.from.1 as int)
        &&& self.at(m.from.0 as int, m.from.1 as int) is Some
        &&& self.at(m.from.0 as int, m.from.1 as int).unwrap().color == self.current_player()
        &&& self.legal_moves().contains(m)
    }

    /// The board after `m`: the piece leaves its square, the captured piece
    /// (if any) is removed, the piece lands (promoted if it reaches the far
    /// row), the move joins the history and the turn counter advances if
    /// the side to move changes.
    pub open spec fn apply(self, m: Move) -> BoardView {
        let cleared = self.board.update(idx(m.from.0 as int, m.from.1 as int), None);
        let taken = match m.kill {
            Some(k) => cleared.update(idx(k.row as int, k.col as int), None),
            None => cleared,
        };
        let landed = taken.update(
            idx(m.to.0 as int, m.to.1 as int),
            Some(PlayersPiece { color: m.color, piece: m.spec_future_piece() }),
        );
        let next = BoardView { board: landed, moves: self.moves.push(m), ..self };
        BoardView {
            turn: if next.current_player() != m.color {
                next_turn(self.turn)
            } else {
                self.turn
            },
            ..next
        }
    }

    /// The board with its last move taken back: the piece returns to its
    /// square with its kind before the move, the captured piece (if any)
    /// returns for the other side, the landing square empties, and the turn
    /// counter goes back if the side to move had changed.
    pub open spec fn undo(self) -> BoardView {
        let m = self.moves.last();
        let restored = self.board.update(
            idx(m.from.0 as int, m.from.1 as int),
            Some(PlayersPiece { color: m.color, piece: m.piece }),
        );
        let revived = match m.kill {
            Some(k) => restored.update(
                idx(k.row as int, k.col as int),
                Some(PlayersPiece { color: m.color.spec_other(), piece: k.piece }),
            ),
            None => restored,
        };
        let emptied = revived.update(idx(m.to.0 as int, m.to.1 as int), None);
        BoardView {
            board: emptied,
            moves: self.moves.drop_last(),
            turn: if self.current_player() != m.color {
                prev_turn(self.turn)
            } else {
                self.turn
            },
            ..self
        }
    }
}

impl Board {
    pub fn in_bounds(&self, row: i8, col: i8) -> (r: bool)
        ensures
            r == in_bounds(row as int, col as int),
    {
        row >= 0 && row < 8 && col >= 0 && col < 8
    }

    pub fn get_ref(&self, row: u8, col: u8) -> (r: &Option<PlayersPiece>)
        requires
            self@.wf(),
            row < 8,
            col < 8,
        ensures
            *r == self@.at(row as int, col as int),
    {
        &self.board[row as usize * 8 + col as usize]
    }

    pub fn is_free(&self, row: i8, col: i8) -> (r: bool)
        requires
            self@.wf(),
        ensures
            r == self@.is_free(row as int, col as int),
    {
        self.in_bounds(row, col) && self.get_ref(row as u8, col as u8).is_none()
    }

    fn push_landings(
        &self,
        moves: &mut Vec<Move>,
        from: (u8, u8),
        color: Color,
        kill: PosUncolorPiece,
        row: i8,
        col: i8,
        up: bool,
        right: bool,
    )
        requires
            self@.wf(),
            -1 <= row <= 8,
            -1 <= col <= 8,
        ensures
            final(moves)@ == old(moves)@ + self@.landings(
                from,
                color,
                kill,
                row as int,
                col as int,
                up,
                right,
            ),
    {
        let dr: i8 = if up {
            1
        } else {
            -1
        };
        let dc: i8 = if right {
            1
        } else {
            -1
        };
        let mut r = row;
        let mut c = col;
        while self.is_free(r, c)
            invariant
                self@.wf(),
                -1 <= r <= 8,
                -1 <= c <= 8,
                dr == step(up),
                dc == step(right),
                moves@ + self@.landings(from, color, kill, r as int, c as int, up, right) == old(
                    moves,
                )@ + self@.landings(from, color, kill, row as int, col as int, up, right),
            decreases steps_left(r as int, up),
        {
            let m = Move { from, to: (r as u8, c as u8), piece: Piece::Queen, kill: Some(kill), color };
            proof {
                let rest = self@.landings(from, color, kill, r + dr, c + dc, up, right);
                assert(self@.landings(from, color, kill, r as int, c as int, up, right) == seq![m]
                    + rest);
                assert(moves@.push(m) + rest =~= moves@ + (seq![m] + rest));
            }
            moves.push(m);
            r = r + dr;
            c = c + dc;
        }
        assert(moves@ + seq![] =~= moves@);
    }

    fn push_slide(
        &self,
        moves: &mut Vec<Move>,
        from: (u8, u8),
        color: Color,
        up: bool,
        right: bool,
        kills: Option<bool>,
    )
        requires
            self@.wf(),
            from.0 < 8,
            from.1 < 8,
        ensures
            final(moves)@ == old(moves)@ + self@.ray(
                from.0 as int,
                from.1 as int,
                color,
                up,
                right,
                kills,
            ),
    {
        let dr: i8 = if up {
            1
        } else {
            -1
        };
        let dc: i8 = if right {
            1
        } else {
            -1
        };
        let mut r: i8 = from.0 as i8 + dr;
        let mut c: i8 = from.1 as i8 + dc;
        let ghost start_r = r as int;
        let ghost start_c = c as int;
        while self.is_free(r, c)
            invariant
                self@.wf(),
                -1 <= r <= 8,
                -1 <= c <= 8,
                dr == step(up),
                dc == step(right),
                from.0 < 8,
                from.1 < 8,
                start_r == from.0 + dr,
                start_c == from.1 + dc,
                moves@ + self@.slide(from, color, r as int, c as int, up, right, kills) == old(
                    moves,
                )@ + self@.slide(from, color, start_r, start_c, up, right, kills),
            decreases steps_left(r as int, up),
        {
            let m = Move { from, to: (r as u8, c as u8), piece: Piece::Queen, kill: None, color };
            let ghost before = moves@;
            if !kills.unwrap_or(false) {
                moves.push(m);
            }
            proof {
                let rest = self@.slide(from, color, r + dr, c + dc, up, right, kills);
                if wanted(kills, false) {
                    assert(self@.slide(from, color, r as int, c as int, up, right, kills) == seq![m]
                        + rest);
                    assert(before.push(m) + rest =~= before + (seq![m] + rest));
                } else {
                    assert(self@.slide(from, color, r as int, c as int, up, right, kills) == seq![]
                        + rest);
                    assert(seq![] + rest =~= rest);
                }
            }
            r = r + dr;
            c = c + dc;
        }
        if self.in_bounds(r, c) && self.get_ref(r as u8, c as u8).unwrap().color != color
            && self.is_free(r + dr, c + dc) {
            let killed = self.get_ref(r as u8, c as u8).unwrap().piece;
            if kills.unwrap_or(true) {
                let kill = PosUncolorPiece { piece: killed, row: r as u8, col: c as u8 };
                assert(self@.slide(from, color, r as int, c as int, up, right, kills)
                    == self@.landings(from, color, kill, r + dr, c + dc, up, right));
                self.push_landings(moves, from, color, kill, r + dr, c + dc, up, right);
            } else {
                assert(self@.slide(from, color, r as int, c as int, up, right, kills) == Seq::<
                    Move,
                >::empty());
                assert(moves@ + seq![] =~= moves@);
            }
        } else {
            assert(self@.slide(from, color, r as int, c as int, up, right, kills) == Seq::<
                Move,
            >::empty());
            assert(moves@ + seq![] =~= moves@);
        }
    }

    fn push_pawn_step(
        &self,
        moves: &mut Vec<Move>,
        from: (u8, u8),
        color: Color,
        right: bool,
        kills: Option<bool>,
    )
        requires
            self@.wf(),
            from.0 < 8,
            from.1 < 8,
        ensures
            final(moves)@ == old(moves)@ + self@.pawn_step(
                from.0 as int,
                from.1 as int,
                color,
                right,
                kills,
            ),
    {
        let dc: i8 = if right {
            1
        } else {
            -1
        };
        let row: i8 = from.0 as i8 + color.dir();
        let col: i8 = from.1 as i8 + dc;
        if self.is_free(row, col) {
            if !kills.unwrap_or(false) {
                moves.push(Move { from, to: (row as u8, col as u8), piece: Piece::Pawn, kill: None, color });
            } else {
                assert(moves@ + seq![] =~= moves@);
            }
        } else if self.in_bounds(row, col) && self.get_ref(row as u8, col as u8).unwrap().color
            != color && self.is_free(row + color.dir(), col + dc) {
            if kills.unwrap_or(true) {
                let killed = self.get_ref(row as u8, col as u8).unwrap().piece;
                moves.push(
                    Move {
                        from,
                        to: ((row + color.dir()) as u8, (col + dc) as u8),
                        piece: Piece::Pawn,
                        kill: Some(PosUncolorPiece { piece: killed, row: row as u8, col: col as u8 }),
                        color,
                    },
                );
            } else {
                assert(moves@ + seq![] =~= moves@);
            }
        } else {
            assert(moves@ + seq![] =~= moves@);
        }
    }

    /// The moves of the piece on (row, col): `None` for an empty square.
    /// `kills` asks for captures only (`Some(true)`), plain moves only
    /// (`Some(false)`) or both (`None`).
    pub fn find_moves(&self, row: u8, col: u8, kills: Option<bool>) -> (r: Option<Vec<Move>>)
        requires
            self@.wf(),
            row < 8,
            col < 8,
        ensures
            r is None <==> self@.at(row as int, col as int) is None,
            r matches Some(v) ==> v@ == self@.square_moves(row as int, col as int, kills),
    {
        match *self.get_ref(row, col) {
            None => None,
            Some(p) => {
                let mut moves: Vec<Move> = Vec::new();
                match p.piece {
                    Piece::Pawn => {
                        self.push_pawn_step(&mut moves, (row, col), p.color, false, kills);
                        self.push_pawn_step(&mut moves, (row, col), p.color, true, kills);
                    },
                    Piece::Queen => {
                        self.push_slide(&mut moves, (row, col), p.color, false, false, kills);
                        self.push_slide(&mut moves, (row, col), p.color, false, true, kills);
                        self.push_slide(&mut moves, (row, col), p.color, true, false, kills);
                        self.push_slide(&mut moves, (row, col), p.color, true, true, kills);
                    },
                }
                assert(moves@ =~= self@.square_moves(row as int, col as int, kills));
                Some(moves)
            },
        }
    }

    pub fn last_move(&self) -> (r: Option<Move>)
        ensures
            r is None <==> self@.moves.len() == 0,
            r matches Some(m) ==> m == self@.moves.last(),
    {
        if self.moves.len() == 0 {
            None
        } else {
            Some(self.moves[self.moves.len() - 1])
        }
    }

    pub fn last_player(&self) -> (r: Option<Color>)
        ensures
            r is None <==> self@.moves.len() == 0,
            r matches Some(c) ==> c == self@.moves.last().color,
    {
        match self.last_move() {
            Some(m) => Some(m.color),
            None => None,
        }
    }

    /// The side that owns the piece on (row, col), if any.
    pub fn occupied_by(&self, row: u8, col: u8) -> (r: Option<Color>)
        requires
            self@.wf(),
            row < 8,
            col < 8,
        ensures
            r == (match self@.at(row as int, col as int) {
                Some(p) => Some(p.color),
                None => None,
            }),
    {
        match *self.get_ref(row, col) {
            Some(p) => Some(p.color),
            None => None,
        }
    }

    pub fn current_player(&self) -> (r: Color)
        requires
            self@.wf(),
        ensures
            r == self@.current_player(),
    {
        match self.last_move() {
            None => Color::White,
            Some(m) => {
                proof {
                    assert(move_in_bounds(self@.moves[self@.moves.len() - 1]));
                }
                let more = match self.find_moves(m.to.0, m.to.1, Some(true)) {
                    Some(v) => v.len() > 0,
                    None => false,
                };
                if m.continues() && more {
                    m.color
                } else {
                    m.color.other()
                }
            },
        }
    }

    /// The pieces of `player`, row by row, with their squares.
    pub fn all_players_pieces(&self, player: Color) -> (r: Vec<(u8, u8, Piece)>)
        requires
            self@.wf(),
        ensures
            r@ == self@.pieces_of(player, 64),
    {
        let mut out: Vec<(u8, u8, Piece)> = Vec::new();
        let mut i: usize = 0;
        while i < 64
            invariant
                self@.wf(),
                i <= 64,
                out@ == self@.pieces_of(player, i as int),
            decreases 64 - i,
        {
            match self.board[i] {
                Some(p) => {
                    if p.color == player {
                        out.push(((i / 8) as u8, (i % 8) as u8, p.piece));
                    }
                },
                None => {},
            }
            i = i + 1;
        }
        out
    }

    /// The pieces of the side to move.
    pub fn all_current_pieces(&self) -> (r: Vec<(u8, u8, Piece)>)
        requires
            self@.wf(),
        ensures
            r@ == self@.pieces_of(self@.current_player(), 64),
    {
        let player = self.current_player();
        self.all_players_pieces(player)
    }

    /// The legal moves of the side to move: every move of its pieces, row by
    /// row, then only the captures if there is one, then only the queens'
    /// captures if there is one.
    pub fn find_all_current_moves(&self) -> (r: Vec<Move>)
        requires
            self@.wf(),
        ensures
            r@ == self@.legal_moves(),
    {
        let color = self.current_player();
        let mut all: Vec<Move> = Vec::new();
        let mut i: usize = 0;
        while i < 64
            invariant
                self@.wf(),
                i <= 64,
                all@ == self@.generated(color, i as int),
            decreases 64 - i,
        {
            let r: u8 = (i / 8) as u8;
            let c: u8 = (i % 8) as u8;
            assert(idx(r as int, c as int) == i);
            match self.board[i] {
                Some(p) => {
                    if p.color == color {
                        let mut ms = self.find_moves(r, c, None).unwrap();
                        all.append(&mut ms);
                    } else {
                        assert(all@ + seq![] =~= all@);
                    }
                },
                None => {
                    assert(all@ + seq![] =~= all@);
                },
            }
            i = i + 1;
        }
        if !Move::contains_killer_move(all.as_slice()) {
            return all;
        }
        let kills = Move::filter_killer_moves(all);
        if !Move::contains_piece_move(Piece::Queen, kills.as_slice()) {
            return kills;
        }
        Move::filter_piece_moves(Piece::Queen, kills)
    }

    /// A board with no pieces and no history.
    pub fn empty(rates: RateConfig) -> (r: Board)
        ensures
            r@.wf(),
            forall|i: int| 0 <= i < 64 ==> (#[trigger] r@.board[i]) is None,
            r@.moves.len() == 0,
            r@.turn == 0,
            r@.show_moves_for is None,
            r@.rating == rates,
    {
        let mut board: Vec<Option<PlayersPiece>> = Vec::new();
        let mut i: usize = 0;
        while i < 64
            invariant
                i <= 64,
                board@.len() == i,
                forall|j: int| 0 <= j < i ==> (#[trigger] board@[j]) is None,
            decreases 64 - i,
        {
            board.push(None);
            i = i + 1;
        }
        Board { board, moves: Vec::new(), turn: 0, show_moves_for: None, rating: rates }
    }

    /// Puts `value` on (row, col).
    pub fn set(&mut self, row: u8, col: u8, value: Option<PlayersPiece>)
        requires
            old(self)@.wf(),
            row < 8,
            col < 8,
        ensures
            final(self)@ == (BoardView {
                board: old(self)@.board.update(idx(row as int, col as int), value),
                ..old(self)@
            }),
    {
        self.board.set(row as usize * 8 + col as usize, value);
    }

    /// A board with `lines` rows of pawns for each side on the dark squares
    /// (those whose row and column add up to an even number): White's on the
    /// first rows, Black's on the last.
    pub fn new(lines: u8, rates: RateConfig) -> (r: Board)
        ensures
            r@.wf(),
            forall|i: int, j: int|
                in_bounds(i, j) ==> #[trigger] r@.at(i, j) == initial_square(lines as int, i, j),
            r@.on_dark_squares(),
            r@.moves.len() == 0,
            r@.turn == 0,
            r@.show_moves_for is None,
            r@.rating == rates,
    {
        let mut board = Board::empty(rates);
        let mut i: u8 = 0;
        while i < 8
            invariant
                board@.wf(),
                i <= 8,
                board@.moves.len() == 0,
                board@.turn == 0,
                board@.show_moves_for is None,
                board@.rating == rates,
                forall|a: int, b: int|
                    0 <= a < i && 0 <= b < 8 ==> #[trigger] board@.at(a, b) == initial_square(
                        lines as int,
                        a,
                        b,
                    ),
                forall|a: int, b: int| i <= a < 8 && 0 <= b < 8 ==> (#[trigger] board@.at(a, b)) is None,
            decreases 8 - i,
        {
            let mut j: u8 = 0;
            while j < 8
                invariant
                    board@.wf(),
                    i < 8,
                    j <= 8,
                    board@.moves.len() == 0,
                    board@.turn == 0,
                    board@.show_moves_for is None,
                    board@.rating == rates,
                    forall|a: int, b: int|
                        0 <= a < i && 0 <= b < 8 ==> #[trigger] board@.at(a, b) == initial_square(
                            lines as int,
                            a,
                            b,
                        ),
                    forall|b: int|
                        0 <= b < j ==> #[trigger] board@.at(i as int, b) == initial_square(
                            lines as int,
                            i as int,
                            b,
                        ),
                    forall|a: int, b: int|
                        i <= a < 8 && 0 <= b < 8 && (a > i || b >= j) ==> (#[trigger] board@.at(a, b)) is None,
                decreases 8 - j,
            {
                let ghost prev = board@;
                if (i + j) % 2 == 0 {
                    if i < lines {
                        board.set(i, j, Some(PlayersPiece::new(Color::White, Piece::Pawn)));
                    } else if i as u16 + lines as u16 >= 8 {
                        board.set(i, j, Some(PlayersPiece::new(Color::Black, Piece::Pawn)));
                    }
                }
                proof {
                    assert forall|a: int, b: int| in_bounds(a, b) && (a != i || b != j) implies #[trigger] board@.at(a, b) == prev.at(a, b) by {
                        assert(idx(a, b) != idx(i as int, j as int));
                    }
                    assert(board@.at(i as int, j as int) == initial_square(lines as int, i as int, j as int));
                }
                j = j + 1;
            }
            i = i + 1;
        }
        board
    }

    /// Whether `move_` may be played now.
    pub fn is_valid_move(&self, move_: Move) -> (r: bool)
        requires
            self@.wf(),
        ensures
            r == self@.is_legal(move_),
    {
        if move_.from.0 >= 8 || move_.from.1 >= 8 {
            return false;
        }
        let piece = match *self.get_ref(move_.from.0, move_.from.1) {
            Some(p) => p,
            None => {
                return false;
            },
        };
        if piece.color != self.current_player() {
            return false;
        }
        let moves = self.find_all_current_moves();
        let mut i: usize = 0;
        while i < moves.len()
            invariant
                i <= moves@.len(),
                moves@ == self@.legal_moves(),
                in_bounds(move_.from.0 as int, move_.from.1 as int),
                self@.at(move_.from.0 as int, move_.from.1 as int) == Some(piece),
                piece.color == self@.current_player(),
                forall|j: int| 0 <= j < i ==> moves@[j] != move_,
            decreases moves@.len() - i,
        {
            if moves[i] == move_ {
                assert(moves@[i as int] == move_);
                return true;
            }
            i = i + 1;
        }
        false
    }

    /// Who has won, if anyone.
    pub fn winner(&self) -> (r: Option<Color>)
        requires
            self@.wf(),
        ensures
            r == self@.winner(),
    {
        if self.all_players_pieces(Color::White).len() == 0 {
            return Some(Color::Black);
        }
        if self.all_players_pieces(Color::Black).len() == 0 {
            return Some(Color::White);
        }
        if self.find_all_current_moves().len() == 0 {
            Some(self.current_player().other())
        } else {
            None
        }
    }

    /// Plays `move_` without checking that it is legal.
    pub fn push_unsafe(&mut self, move_: Move)
        requires
            old(self)@.wf(),
            move_in_bounds(move_),
        ensures
            final(self)@.wf(),
            final(self)@ == old(self)@.apply(move_),
    {
        let ghost before = self@;
        self.set(move_.from.0, move_.from.1, None);
        match move_.kill {
            Some(k) => self.set(k.row, k.col, None),
            None => {},
        }
        let piece = if move_.is_upgrade() {
            Piece::Queen
        } else {
            move_.piece
        };
        self.set(move_.to.0, move_.to.1, Some(PlayersPiece::new(move_.color, piece)));
        self.moves.push(move_);
        proof {
            assert forall|i: int| 0 <= i < self@.moves.len() implies move_in_bounds(
                #[trigger] self@.moves[i],
            ) by {
                if i < before.moves.len() {
                    assert(self@.moves[i] == before.moves[i]);
                }
            }
        }
        if self.current_player() != move_.color {
            self.turn = if self.turn == usize::MAX {
                0
            } else {
                self.turn + 1
            };
        }
        assert(self@ == before.apply(move_));
    }

    /// Plays `move_` if it is legal, and says who has won after it.
    pub fn push(&mut self, move_: Move) -> (r: Result<Option<Color>, BoardError>)
        requires
            old(self)@.wf(),
        ensures
            final(self)@.wf(),
            !old(self)@.is_legal(move_) ==> r == Err::<Option<Color>, BoardError>(
                BoardError::InvalidMove,
            ) && final(self)@ == old(self)@,
            old(self)@.is_legal(move_) ==> final(self)@ == old(self)@.apply(move_) && r == Ok::<
                Option<Color>,
                BoardError,
            >(final(self)@.winner()),
    {
        if !self.is_valid_move(move_) {
            return Err(BoardError::InvalidMove);
        }
        proof {
            self@.lemma_legal_in_bounds(move_);
        }
        self.push_unsafe(move_);
        Ok(self.winner())
    }

    /// Takes back the last move and returns it.
    pub fn pop(&mut self) -> (r: Result<Move, BoardError>)
        requires
            old(self)@.wf(),
        ensures
            final(self)@.wf(),
            old(self)@.moves.len() == 0 ==> r == Err::<Move, BoardError>(BoardError::EmptyHistory)
                && final(self)@ == old(self)@,
            old(self)@.moves.len() > 0 ==> r == Ok::<Move, BoardError>(old(self)@.moves.last())
                && final(self)@ == old(self)@.undo(),
    {
        let ghost before = self@;
        let last = match self.last_move() {
            Some(m) => m,
            None => {
                return Err(BoardError::EmptyHistory);
            },
        };
        proof {
            assert(move_in_bounds(before.moves[before.moves.len() - 1]));
        }
        if self.current_player() != last.color {
            self.turn = if self.turn == 0 {
                usize::MAX
            } else {
                self.turn - 1
            };
        }
        let m = self.moves.pop().unwrap();
        self.set(m.from.0, m.from.1, Some(PlayersPiece::new(m.color, m.piece)));
        match m.kill {
            Some(k) => self.set(k.row, k.col, Some(PlayersPiece::new(m.color.other(), k.piece))),
            None => {},
        }
        self.set(m.to.0, m.to.1, None);
        proof {
            assert forall|i: int| 0 <= i < self@.moves.len() implies move_in_bounds(
                #[trigger] self@.moves[i],
            ) by {
                assert(self@.moves[i] == before.moves[i]);
            }
        }
        assert(self@ == before.undo());
        Ok(m)
    }
}

} // verus!
