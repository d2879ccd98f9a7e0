use vstd::prelude::*;

use crate::board::{idx, in_bounds, move_in_bounds, step, steps_left, wanted, BoardView};
use crate::types::{captures_of, moves_of_kind, Color, Move, Piece, PlayersPiece, PosUncolorPiece};

verus! {

impl BoardView {
    /// `m` can be played on this board and taken back exactly: its squares
    /// lie on the board, the moving piece stands on its origin, its landing
    /// square is empty and of the same color as its origin, and the piece it
    /// captures stands where it records.
    pub open spec fn fits(self, m: Move) -> bool {
        &&& move_in_bounds(m)
        &&& (m.to.0 + m.to.1) % 2 == (m.from.0 + m.from.1) % 2
        &&& self.at(m.from.0 as int, m.from.1 as int) == Some(
            PlayersPiece { color: m.color, piece: m.piece },
        )
        &&& self.at(m.to.0 as int, m.to.1 as int) is None
        &&& match m.kill {
            Some(k) => self.at(k.row as int, k.col as int) == Some(
                PlayersPiece { color: m.color.spec_other(), piece: k.piece },
            ),
            None => true,
        }
    }

    pub proof fn lemma_landings_fit(
        self,
        from: (u8, u8),
        color: Color,
        kill: PosUncolorPiece,
        r: int,
        c: int,
        up: bool,
        right: bool,
    )
        requires
            self.wf(),
            in_bounds(from.0 as int, from.1 as int),
            self.at(from.0 as int, from.1 as int) == Some(
                PlayersPiece { color, piece: Piece::Queen },
            ),
            in_bounds(kill.row as int, kill.col as int),
            self.at(kill.row as int, kill.col as int) == Some(
                PlayersPiece { color: color.spec_other(), piece: kill.piece },
            ),
            (r + c) % 2 == (from.0 + from.1) % 2,
        ensures
            forall|i: int|
                0 <= i < self.landings(from, color, kill, r, c, up, right).len() ==> self.fits(
                    #[trigger] self.landings(from, color, kill, r, c, up, right)[i],
                ),
        decreases steps_left(r, up),
    {
        if self.is_free(r, c) {
            self.lemma_landings_fit(from, color, kill, r + step(up), c + step(right), up, right);
            let s = self.landings(from, color, kill, r, c, up, right);
            let rest = self.landings(from, color, kill, r + step(up), c + step(right), up, right);
            assert forall|i: int| 0 <= i < s.len() implies self.fits(#[trigger] s[i]) by {
                if i > 0 {
                    assert(s[i] == rest[i - 1]);
                }
            }
        }
    }

    pub proof fn lemma_slide_fits(
        self,
        from: (u8, u8),
        color: Color,
        r: int,
        c: int,
        up: bool,
        right: bool,
        kills: Option<bool>,
    )
        requires
            self.wf(),
            in_bounds(from.0 as int, from.1 as int),
            self.at(from.0 as int, from.1 as int) == Some(
                PlayersPiece { color, piece: Piece::Queen },
            ),
            (r + c) % 2 == (from.0 + from.1) % 2,
        ensures
            forall|i: int|
                0 <= i < self.slide(from, color, r, c, up, right, kills).len() ==> self.fits(
                    #[trigger] self.slide(from, color, r, c, up, right, kills)[i],
                ),
        decreases steps_left(r, up),
    {
        if self.is_free(r, c) {
            self.lemma_slide_fits(from, color, r + step(up), c + step(right), up, right, kills);
            let s = self.slide(from, color, r, c, up, right, kills);
            let rest = self.slide(from, color, r + step(up), c + step(right), up, right, kills);
            assert forall|i: int| 0 <= i < s.len() implies self.fits(#[trigger] s[i]) by {
                if wanted(kills, false) {
                    if i > 0 {
                        assert(s[i] == rest[i - 1]);
                    }
                } else {
                    assert(s[i] == rest[i]);
                }
            }
        } else if self.is_enemy(r, c, color) && self.is_free(r + step(up), c + step(right))
            && wanted(kills, true) {
            let kill = PosUncolorPiece {
                piece: self.at(r, c).unwrap().piece,
                row: r as u8,
                col: c as u8,
            };
            self.lemma_landings_fit(from, color, kill, r + step(up), c + step(right), up, right);
        }
    }

    pub proof fn lemma_pawn_step_fits(self, r: int, c: int, right: bool, kills: Option<bool>)
        requires
            self.wf(),
            in_bounds(r, c),
            self.at(r, c) is Some,
            self.at(r, c).unwrap().piece == Piece::Pawn,
        ensures
            forall|i: int|
                0 <= i < self.pawn_step(r, c, self.at(r, c).unwrap().color, right, kills).len()
                    ==> self.fits(
                    #[trigger] self.pawn_step(r, c, self.at(r, c).unwrap().color, right, kills)[i],
                ) && self.pawn_step(r, c, self.at(r, c).unwrap().color, right, kills)[i].color
                    == self.at(r, c).unwrap().color,
    {
        let color = self.at(r, c).unwrap().color;
        let s = self.pawn_step(r, c, color, right, kills);
        assert forall|i: int| 0 <= i < s.len() implies self.fits(#[trigger] s[i]) && s[i].color
            == color by {
            assert(i == 0);
        }
    }

    /// Every generated move of the piece on (r, c) fits the board and is
    /// made by that piece's side.
    pub proof fn lemma_square_moves_fit(self, r: int, c: int, kills: Option<bool>)
        requires
            self.wf(),
            in_bounds(r, c),
        ensures
            forall|i: int|
                0 <= i < self.square_moves(r, c, kills).len() ==> self.fits(
                    #[trigger] self.square_moves(r, c, kills)[i],
                ) && self.square_moves(r, c, kills)[i].color == self.at(r, c).unwrap().color,
    {
        let s = self.square_moves(r, c, kills);
        match self.at(r, c) {
            None => {},
            Some(p) => {
                let from = (r as u8, c as u8);
                match p.piece {
                    Piece::Pawn => {
                        self.lemma_pawn_step_fits(r, c, false, kills);
                        self.lemma_pawn_step_fits(r, c, true, kills);
                        let a = self.pawn_step(r, c, p.color, false, kills);
                        let b = self.pawn_step(r, c, p.color, true, kills);
                        assert forall|i: int| 0 <= i < s.len() implies self.fits(#[trigger] s[i])
                            && s[i].color == p.color by {
                            if i < a.len() {
                                assert(s[i] == a[i]);
                            } else {
                                assert(s[i] == b[i - a.len()]);
                            }
                        }
                    },
                    Piece::Queen => {
                        let a = self.ray(r, c, p.color, false, false, kills);
                        let b = self.ray(r, c, p.color, false, true, kills);
                        let d = self.ray(r, c, p.color, true, false, kills);
                        let e = self.ray(r, c, p.color, true, true, kills);
                        self.lemma_slide_fits(from, p.color, r - 1, c - 1, false, false, kills);
                        self.lemma_slide_fits(from, p.color, r - 1, c + 1, false, true, kills);
                        self.lemma_slide_fits(from, p.color, r + 1, c - 1, true, false, kills);
                        self.lemma_slide_fits(from, p.color, r + 1, c + 1, true, true, kills);
                        lemma_all_color(self, from, p.color, r - 1, c - 1, false, false, kills);
                        lemma_all_color(self, from, p.color, r - 1, c + 1, false, true, kills);
                        lemma_all_color(self, from, p.color, r + 1, c - 1, true, false, kills);
                        lemma_all_color(self, from, p.color, r + 1, c + 1, true, true, kills);
                        assert forall|i: int| 0 <= i < s.len() implies self.fits(#[trigger] s[i])
                            && s[i].color == p.color by {
                            if i < a.len() {
                                assert(s[i] == a[i]);
                            } else if i < a.len() + b.len() {
                                assert(s[i] == b[i - a.len()]);
                            } else if i < a.len() + b.len() + d.len() {
                                assert(s[i] == d[i - a.len() - b.len()]);
                            } else {
                                assert(s[i] == e[i - a.len() - b.len() - d.len()]);
                            }
                        }
                    },
                }
            },
        }
    }

    /// Every move of `color` on the first `n` squares fits the board and is
    /// made by `color`.
    pub proof fn lemma_generated_fit(self, color: Color, n: int)
        requires
            self.wf(),
            n <= 64,
        ensures
            forall|i: int|
                0 <= i < self.generated(color, n).len() ==> self.fits(
                    #[trigger] self.generated(color, n)[i],
                ) && self.generated(color, n)[i].color == color,
        decreases n,
    {
        if n > 0 {
            self.lemma_generated_fit(color, n - 1);
            let a = self.generated(color, n - 1);
            let b = self.own_moves(color, n - 1);
            let k = n - 1;
            assert(idx(k / 8, k % 8) == k);
            if self.board[k] is Some && self.board[k].unwrap().color == color {
                self.lemma_square_moves_fit(k / 8, k % 8, None);
            }
            let s = self.generated(color, n);
            assert forall|i: int| 0 <= i < s.len() implies self.fits(#[trigger] s[i]) && s[i].color
                == color by {
                if i < a.len() {
                    assert(s[i] == a[i]);
                } else {
                    assert(s[i] == b[i - a.len()]);
                }
            }
        }
    }

    /// The capture rules keep only moves of the full list.
    pub proof fn lemma_forced_within(all: Seq<Move>, m: Move)
        requires
            Self::forced(all).contains(m),
        ensures
            all.contains(m),
    {
        broadcast use Seq::lemma_filter_contains_rev;

        let k = captures_of(all);
        if moves_of_kind(Piece::Queen, k).contains(m) {
            assert(k.contains(m));
        }
    }

    /// Every legal move fits the board and is made by the side to move.
    pub proof fn lemma_legal_fits(self, m: Move)
        requires
            self.wf(),
            self.legal_moves().contains(m),
        ensures
            self.fits(m),
            m.color == self.current_player(),
    {
        let all = self.all_moves(self.current_player());
        Self::lemma_forced_within(all, m);
        self.lemma_generated_fit(self.current_player(), 64);
    }

    pub proof fn lemma_legal_in_bounds(self, m: Move)
        requires
            self.wf(),
            self.is_legal(m),
        ensures
            move_in_bounds(m),
    {
        self.lemma_legal_fits(m);
    }
}

/// Every move along a queen's diagonal is made by the queen's side.
proof fn lemma_all_color(
    b: BoardView,
    from: (u8, u8),
    color: Color,
    r: int,
    c: int,
    up: bool,
    right: bool,
    kills: Option<bool>,
)
    ensures
        forall|i: int|
            0 <= i < b.slide(from, color, r, c, up, right, kills).len() ==> (#[trigger] b.slide(
                from,
                color,
                r,
                c,
                up,
                right,
                kills,
            )[i]).color == color,
    decreases steps_left(r, up),
{
    let s = b.slide(from, color, r, c, up, right, kills);
    if b.is_free(r, c) {
        lemma_all_color(b, from, color, r + step(up), c + step(right), up, right, kills);
        let rest = b.slide(from, color, r + step(up), c + step(right), up, right, kills);
        assert forall|i: int| 0 <= i < s.len() implies (#[trigger] s[i]).color == color by {
            if wanted(kills, false) {
                if i > 0 {
                    assert(s[i] == rest[i - 1]);
                }
            } else {
                assert(s[i] == rest[i]);
            }
        }
    } else if b.is_enemy(r, c, color) && b.is_free(r + step(up), c + step(right)) && wanted(
        kills,
        true,
    ) {
        let kill = PosUncolorPiece { piece: b.at(r, c).unwrap().piece, row: r as u8, col: c as u8 };
        lemma_landings_color(b, from, color, kill, r + step(up), c + step(right), up, right);
    }
}

proof fn lemma_landings_color(
    b: BoardView,
    from: (u8, u8),
    color: Color,
    kill: PosUncolorPiece,
    r: int,
    c: int,
    up: bool,
    right: bool,
)
    ensures
        forall|i: int|
            0 <= i < b.landings(from, color, kill, r, c, up, right).len() ==> (#[trigger] b.landings(
                from,
                color,
                kill,
                r,
                c,
                up,
                right,
            )[i]).color == color,
    decreases steps_left(r, up),
{
    if b.is_free(r, c) {
        lemma_landings_color(b, from, color, kill, r + step(up), c + step(right), up, right);
        let s = b.landings(from, color, kill, r, c, up, right);
        let rest = b.landings(from, color, kill, r + step(up), c + step(right), up, right);
        assert forall|i: int| 0 <= i < s.len() implies (#[trigger] s[i]).color == color by {
            if i > 0 {
                assert(s[i] == rest[i - 1]);
            }
        }
    }
}


/// Move generation reads the squares only.
proof fn lemma_landings_same_grid(
    a: BoardView,
    b: BoardView,
    from: (u8, u8),
    color: Color,
    kill: PosUncolorPiece,
    r: int,
    c: int,
    up: bool,
    right: bool,
)
    requires
        a.board == b.board,
    ensures
        a.landings(from, color, kill, r, c, up, right) == b.landings(
            from,
            color,
            kill,
            r,
            c,
            up,
            right,
        ),
    decreases steps_left(r, up),
{
    if a.is_free(r, c) {
        lemma_landings_same_grid(a, b, from, color, kill, r + step(up), c + step(right), up, right);
    }
}

proof fn lemma_slide_same_grid(
    a: BoardView,
    b: BoardView,
    from: (u8, u8),
    color: Color,
    r: int,
    c: int,
    up: bool,
    right: bool,
    kills: Option<bool>,
)
    requires
        a.board == b.board,
    ensures
        a.slide(from, color, r, c, up, right, kills) == b.slide(from, color, r, c, up, right, kills),
    decreases steps_left(r, up),
{
    if a.is_free(r, c) {
        lemma_slide_same_grid(a, b, from, color, r + step(up), c + step(right), up, right, kills);
    } else if a.is_enemy(r, c, color) && a.is_free(r + step(up), c + step(right)) && wanted(
        kills,
        true,
    ) {
        let kill = PosUncolorPiece { piece: a.at(r, c).unwrap().piece, row: r as u8, col: c as u8 };
        lemma_landings_same_grid(a, b, from, color, kill, r + step(up), c + step(right), up, right);
    }
}

/// The moves of a square depend on the squares alone.
pub proof fn lemma_square_moves_same_grid(a: BoardView, b: BoardView, r: int, c: int, kills: Option<bool>)
    requires
        a.board == b.board,
    ensures
        a.square_moves(r, c, kills) == b.square_moves(r, c, kills),
{
    lemma_slide_same_grid(a, b, (r as u8, c as u8), a.at(r, c).unwrap().color, r - 1, c - 1, false, false, kills);
    lemma_slide_same_grid(a, b, (r as u8, c as u8), a.at(r, c).unwrap().color, r - 1, c + 1, false, true, kills);
    lemma_slide_same_grid(a, b, (r as u8, c as u8), a.at(r, c).unwrap().color, r + 1, c - 1, true, false, kills);
    lemma_slide_same_grid(a, b, (r as u8, c as u8), a.at(r, c).unwrap().color, r + 1, c + 1, true, true, kills);
}

/// The side to move depends on the squares and the history alone.
pub proof fn lemma_current_player_same_grid(a: BoardView, b: BoardView)
    requires
        a.board == b.board,
        a.moves == b.moves,
    ensures
        a.current_player() == b.current_player(),
{
    if a.moves.len() > 0 {
        let m = a.moves.last();
        lemma_square_moves_same_grid(a, b, m.to.0 as int, m.to.1 as int, Some(true));
    }
}

/// Each own-square list of moves appears in the generated list.
pub proof fn lemma_generated_contains(b: BoardView, color: Color, n: int, k: int, j: int)
    requires
        0 <= k < n,
        0 <= j < b.own_moves(color, k).len(),
    ensures
        b.generated(color, n).contains(b.own_moves(color, k)[j]),
    decreases n,
{
    let a = b.generated(color, n - 1);
    let o = b.own_moves(color, n - 1);
    if k < n - 1 {
        lemma_generated_contains(b, color, n - 1, k, j);
        let w = choose|w: int| 0 <= w < a.len() && a[w] == b.own_moves(color, k)[j];
        assert(b.generated(color, n)[w] == a[w]);
    } else {
        assert(b.generated(color, n)[a.len() + j] == o[j]);
    }
}

/// The number of occupied squares.
pub open spec fn count_pieces(s: Seq<Option<PlayersPiece>>) -> nat
    decreases s.len(),
{
    if s.len() == 0 {
        0
    } else {
        count_pieces(s.drop_last()) + if s.last() is Some {
            1nat
        } else {
            0nat
        }
    }
}

pub proof fn lemma_count_update(s: Seq<Option<PlayersPiece>>, i: int, v: Option<PlayersPiece>)
    requires
        0 <= i < s.len(),
    ensures
        count_pieces(s.update(i, v)) + (if s[i] is Some {
            1int
        } else {
            0int
        }) == count_pieces(s) + (if v is Some {
            1int
        } else {
            0int
        }),
    decreases s.len(),
{
    let t = s.update(i, v);
    if i < s.len() - 1 {
        lemma_count_update(s.drop_last(), i, v);
        assert(t.drop_last() =~= s.drop_last().update(i, v));
    } else {
        assert(t.drop_last() =~= s.drop_last());
    }
}

/// A legal capture takes exactly one piece off the board.
pub proof fn lemma_capture_count(b: BoardView, m: Move)
    requires
        b.wf(),
        b.legal_moves().contains(m),
        m.kill is Some,
    ensures
        count_pieces(b.apply(m).board) + 1 == count_pieces(b.board),
{
    b.lemma_legal_fits(m);
    let k = m.kill.unwrap();
    let cleared = b.board.update(idx(m.from.0 as int, m.from.1 as int), None);
    let taken = cleared.update(idx(k.row as int, k.col as int), None);
    lemma_count_update(b.board, idx(m.from.0 as int, m.from.1 as int), None);
    lemma_count_update(cleared, idx(k.row as int, k.col as int), None);
    lemma_count_update(
        taken,
        idx(m.to.0 as int, m.to.1 as int),
        Some(PlayersPiece { color: m.color, piece: m.spec_future_piece() }),
    );
}

/// When the side to move is the same after a legal move, that move was a
/// capture, so the board holds one piece fewer.
pub proof fn lemma_same_mover_count(b: BoardView, m: Move)
    requires
        b.wf(),
        b.legal_moves().contains(m),
        b.apply(m).current_player() == b.current_player(),
    ensures
        count_pieces(b.apply(m).board) < count_pieces(b.board),
{
    b.lemma_legal_fits(m);
    let after = b.apply(m);
    let cleared = b.board.update(idx(m.from.0 as int, m.from.1 as int), None);
    let taken = match m.kill {
        Some(k) => cleared.update(idx(k.row as int, k.col as int), None),
        None => cleared,
    };
    let landed = taken.update(
        idx(m.to.0 as int, m.to.1 as int),
        Some(PlayersPiece { color: m.color, piece: m.spec_future_piece() }),
    );
    let next = BoardView { board: landed, moves: b.moves.push(m), ..b };
    lemma_current_player_same_grid(next, after);
    assert(after.moves.last() == m);
    lemma_capture_count(b, m);
}

/// How many squares a diagonal can still offer from row `r`.
pub open spec fn room(r: int, up: bool) -> int {
    if 0 <= r < 8 {
        steps_left(r, up)
    } else {
        0
    }
}

proof fn lemma_landings_len(
    b: BoardView,
    from: (u8, u8),
    color: Color,
    kill: PosUncolorPiece,
    r: int,
    c: int,
    up: bool,
    right: bool,
)
    ensures
        b.landings(from, color, kill, r, c, up, right).len() <= room(r, up),
    decreases steps_left(r, up),
{
    if b.is_free(r, c) {
        lemma_landings_len(b, from, color, kill, r + step(up), c + step(right), up, right);
    }
}

proof fn lemma_slide_len(
    b: BoardView,
    from: (u8, u8),
    color: Color,
    r: int,
    c: int,
    up: bool,
    right: bool,
    kills: Option<bool>,
)
    ensures
        b.slide(from, color, r, c, up, right, kills).len() <= room(r, up),
    decreases steps_left(r, up),
{
    if b.is_free(r, c) {
        lemma_slide_len(b, from, color, r + step(up), c + step(right), up, right, kills);
    } else if b.is_enemy(r, c, color) && b.is_free(r + step(up), c + step(right)) && wanted(
        kills,
        true,
    ) {
        let kill = PosUncolorPiece { piece: b.at(r, c).unwrap().piece, row: r as u8, col: c as u8 };
        lemma_landings_len(b, from, color, kill, r + step(up), c + step(right), up, right);
    }
}

/// A piece has at most 32 moves.
pub proof fn lemma_square_moves_len(b: BoardView, r: int, c: int, kills: Option<bool>)
    ensures
        b.square_moves(r, c, kills).len() <= 32,
{
    if b.at(r, c) is Some {
        let color = b.at(r, c).unwrap().color;
        let from = (r as u8, c as u8);
        lemma_slide_len(b, from, color, r - 1, c - 1, false, false, kills);
        lemma_slide_len(b, from, color, r - 1, c + 1, false, true, kills);
        lemma_slide_len(b, from, color, r + 1, c - 1, true, false, kills);
        lemma_slide_len(b, from, color, r + 1, c + 1, true, true, kills);
    }
}
} // verus!
