use vstd::prelude::*;

verus! {

/// One of the two sides. `White` moves first and advances towards row 7.
#[derive(Clone, Copy, Debug, PartialEq, Eq, Structural)]
pub enum Color {
    White,
    Black,
}

/// The kind of a piece: a pawn steps one square, a queen flies along a diagonal.
#[derive(Clone, Copy, Debug, PartialEq, Eq, Structural)]
pub enum Piece {
    Pawn,
    Queen,
}

/// A piece together with the side that owns it.
#[derive(Clone, Copy, Debug, PartialEq, Eq, Structural)]
pub struct PlayersPiece {
    pub color: Color,
    pub piece: Piece,
}

/// A captured piece: where it stood and what it was. Its color is the
/// opponent of the side that captured it.
#[derive(Clone, Copy, Debug, PartialEq, Eq, Structural)]
pub struct PosUncolorPiece {
    pub piece: Piece,
    pub row: u8,
    pub col: u8,
}

/// One atomic transition of a single piece. A turn may consist of several
/// moves when captures are chained.
#[derive(Clone, Copy, Debug, Eq)]
pub struct Move {
    pub from: (u8, u8),
    pub to: (u8, u8),
    /// The kind of the moving piece before any promotion.
    pub piece: Piece,
    /// The piece that this move removes, recorded so that it can be restored.
    pub kill: Option<PosUncolorPiece>,
    pub color: Color,
}

impl PartialEq for Move {
    fn eq(&self, o: &Move) -> (r: bool) {
        self.from.0 == o.from.0 && self.from.1 == o.from.1 && self.to.0 == o.to.0 && self.to.1
            == o.to.1 && self.piece == o.piece && self.kill == o.kill && self.color == o.color
    }
}

impl vstd::std_specs::cmp::PartialEqSpecImpl for Move {
    open spec fn obeys_eq_spec() -> bool {
        true
    }

    open spec fn eq_spec(&self, o: &Move) -> bool {
        *self == *o
    }
}

impl Color {
    pub open spec fn spec_dir(self) -> int {
        match self {
            Color::White => 1,
            Color::Black => -1,
        }
    }

    pub open spec fn spec_other(self) -> Color {
        match self {
            Color::White => Color::Black,
            Color::Black => Color::White,
        }
    }

    /// The row on which a pawn of this color is promoted.
    pub open spec fn far_row(self) -> int {
        match self {
            Color::White => 7,
            Color::Black => 0,
        }
    }

    /// The direction, along the row axis, in which this color's pawns advance.
    pub fn dir(&self) -> (r: i8)
        ensures
            r == self.spec_dir(),
    {
        match self {
            Color::White => 1,
            Color::Black => -1,
        }
    }

    pub fn other(&self) -> (r: Color)
        ensures
            r == self.spec_other(),
            r != *self,
    {
        match self {
            Color::White => Color::Black,
            Color::Black => Color::White,
        }
    }
}

/// `other` is an involution.
pub proof fn lemma_other_involutive(c: Color)
    ensures
        c.spec_other().spec_other() == c,
        c.spec_other() != c,
{
}

impl PlayersPiece {
    pub fn new(color: Color, piece: Piece) -> (r: PlayersPiece)
        ensures
            r.color == color,
            r.piece == piece,
    {
        PlayersPiece { color, piece }
    }
}

impl Move {
    pub open spec fn spec_is_upgrade(self) -> bool {
        self.piece != Piece::Queen && self.to.0 == self.color.far_row()
    }

    pub open spec fn spec_continues(self) -> bool {
        self.kill is Some && !self.spec_is_upgrade()
    }

    pub open spec fn spec_future_piece(self) -> Piece {
        if self.spec_is_upgrade() {
            Piece::Queen
        } else {
            self.piece
        }
    }

    /// A capture that does not promote: the capturing piece may go on capturing.
    pub fn continues(&self) -> (r: bool)
        ensures
            r == self.spec_continues(),
    {
        self.kill.is_some() && !self.is_upgrade()
    }

    /// A pawn that reaches the far row of its color.
    pub fn is_upgrade(&self) -> (r: bool)
        ensures
            r == self.spec_is_upgrade(),
    {
        self.piece != Piece::Queen && (self.to.0 == if self.color == Color::White {
            7
        } else {
            0
        })
    }

    /// The kind of the moving piece once the move is made.
    pub fn future_piece(&self) -> (r: Piece)
        ensures
            r == self.spec_future_piece(),
    {
        if self.is_upgrade() {
            Piece::Queen
        } else {
            self.piece
        }
    }

    /// Keeps the captures, in their order.
    pub fn filter_killer_moves(moves: Vec<Move>) -> (r: Vec<Move>)
        ensures
            r@ == captures_of(moves@),
    {
        let mut out: Vec<Move> = Vec::new();
        let mut i: usize = 0;
        while i < moves.len()
            invariant
                i <= moves@.len(),
                out@ == captures_of(moves@.take(i as int)),
            decreases moves@.len() - i,
        {
            proof {
                assert(moves@.take(i + 1) == moves@.take(i as int).push(moves@[i as int]));
                moves@.take(i as int).lemma_filter_push(moves@[i as int], is_capture_pred());
            }
            if moves[i].kill.is_some() {
                out.push(moves[i]);
            }
            i = i + 1;
        }
        assert(moves@.take(moves@.len() as int) == moves@);
        out
    }

    /// Whether any of the moves is a capture.
    pub fn contains_killer_move(moves: &[Move]) -> (r: bool)
        ensures
            r == has_capture(moves@),
    {
        let mut i: usize = 0;
        while i < moves.len()
            invariant
                i <= moves@.len(),
                forall|j: int| 0 <= j < i ==> (#[trigger] moves@[j]).kill is None,
            decreases moves@.len() - i,
        {
            if moves[i].kill.is_some() {
                return true;
            }
            i = i + 1;
        }
        false
    }

    /// Keeps the moves of pieces of the given kind, in their order.
    pub fn filter_piece_moves(piece: Piece, moves: Vec<Move>) -> (r: Vec<Move>)
        ensures
            r@ == moves_of_kind(piece, moves@),
    {
        let mut out: Vec<Move> = Vec::new();
        let mut i: usize = 0;
        while i < moves.len()
            invariant
                i <= moves@.len(),
                out@ == moves_of_kind(piece, moves@.take(i as int)),
            decreases moves@.len() - i,
        {
            proof {
                assert(moves@.take(i + 1) == moves@.take(i as int).push(moves@[i as int]));
                moves@.take(i as int).lemma_filter_push(moves@[i as int], kind_pred(piece));
            }
            if moves[i].piece == piece {
                out.push(moves[i]);
            }
            i = i + 1;
        }
        assert(moves@.take(moves@.len() as int) == moves@);
        out
    }

    /// Whether any of the moves is made by a piece of the given kind.
    pub fn contains_piece_move(piece: Piece, moves: &[Move]) -> (r: bool)
        ensures
            r == has_kind(piece, moves@),
    {
        let mut i: usize = 0;
        while i < moves.len()
            invariant
                i <= moves@.len(),
                forall|j: int| 0 <= j < i ==> (#[trigger] moves@[j]).piece != piece,
            decreases moves@.len() - i,
        {
            if moves[i].piece == piece {
                return true;
            }
            i = i + 1;
        }
        false
    }
}

pub open spec fn is_capture_pred() -> spec_fn(Move) -> bool {
    |m: Move| m.kill is Some
}

pub open spec fn kind_pred(piece: Piece) -> spec_fn(Move) -> bool {
    |m: Move| m.piece == piece
}

/// The captures among `s`, in their order.
pub open spec fn captures_of(s: Seq<Move>) -> Seq<Move> {
    s.filter(is_capture_pred())
}

/// The moves among `s` made by a piece of kind `piece`, in their order.
pub open spec fn moves_of_kind(piece: Piece, s: Seq<Move>) -> Seq<Move> {
    s.filter(kind_pred(piece))
}

pub open spec fn has_capture(s: Seq<Move>) -> bool {
    exists|i: int| 0 <= i < s.len() && (#[trigger] s[i]).kill is Some
}

pub open spec fn has_kind(piece: Piece, s: Seq<Move>) -> bool {
    exists|i: int| 0 <= i < s.len() && (#[trigger] s[i]).piece == piece
}

/// The text of a square: its column as a letter from `A`, then its row
/// counted from 1.
pub open spec fn pos_text(pos: (u8, u8)) -> Seq<char> {
    seq![(65 + pos.1) as char, (49 + pos.0) as char]
}

/// Relies on `FromIterator<char> for String`: the string holds the characters
/// in their order.
#[verifier::external_body]
fn string_of_chars(cs: &Vec<char>) -> (r: String)
    ensures
        r@ == cs@,
{
    cs.iter().collect()
}

/// The square written as a column letter and a row number, `A1` for (0, 0).
pub fn format_pos(pos: (u8, u8)) -> (r: String)
    requires
        pos.0 < 8,
        pos.1 < 8,
    ensures
        r@ == pos_text(pos),
{
    let letter: char = (65u8 + pos.1) as char;
    let digit: char = (49u8 + pos.0) as char;
    let cs: Vec<char> = vec![letter, digit];
    string_of_chars(&cs)
}

} // verus!
