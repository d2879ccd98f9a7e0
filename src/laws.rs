use vstd::prelude::*;

use crate::board::{idx, in_bounds, BoardView};
use crate::lemmas::{lemma_current_player_same_grid, lemma_generated_contains};
use crate::types::{
    captures_of, has_capture, has_kind, is_capture_pred, kind_pred, moves_of_kind, Color, Move,
    Piece, PlayersPiece,
};

verus! {

broadcast use {Seq::lemma_filter_pred, Seq::lemma_filter_contains, Seq::lemma_filter_contains_rev};

/// Taking back a legal move restores the board exactly: its squares, its
/// history, its turn counter and hence the side to move.
pub proof fn lemma_undo_apply(b: BoardView, m: Move)
    requires
        b.wf(),
        b.legal_moves().contains(m),
    ensures
        b.apply(m).undo() == b,
{
    b.lemma_legal_fits(m);
    let after = b.apply(m);
    let cleared = b.board.update(idx(m.from.0 as int, m.from.1 as int), None);
    let taken = match m.kill {
        Some(k) => cleared.update(idx(k.row as int, k.col as int), None),
        None => cleared,
    };
    let landed = taken.update(
        idx(m.to.0 as int, m.to.1 as int),
        Some(PlayersPiece { color: m.color, piece: m.spec_future_piece() }),
    );
    let next = BoardView { board: landed, moves: b.moves.push(m), ..b };
    lemma_current_player_same_grid(next, after);
    assert(after.moves.last() == m);
    assert(after.moves.drop_last() =~= b.moves);
    assert(after.undo().board =~= b.board);
}

/// A plain move passes the turn; so does a promotion. A capture that does
/// not promote keeps the turn with its side exactly when the capturing piece
/// can capture again from where it landed.
pub proof fn lemma_turn_after_move(b: BoardView, m: Move)
    requires
        b.wf(),
        b.legal_moves().contains(m),
    ensures
        m.kill is None ==> b.apply(m).current_player() == b.current_player().spec_other(),
        m.spec_is_upgrade() ==> b.apply(m).current_player() == b.current_player().spec_other(),
        m.spec_continues() ==> (b.apply(m).current_player() == b.current_player() <==> b.apply(
            m,
        ).square_moves(m.to.0 as int, m.to.1 as int, Some(true)).len() > 0),
{
    b.lemma_legal_fits(m);
    assert(b.apply(m).moves.last() == m);
}

/// A pawn that reaches the far row of its side becomes a queen at once, and
/// a capture that promotes it passes the turn.
pub proof fn lemma_promotion(b: BoardView, m: Move)
    requires
        b.wf(),
        b.legal_moves().contains(m),
        m.piece == Piece::Pawn,
        m.to.0 == m.color.far_row(),
    ensures
        b.apply(m).at(m.to.0 as int, m.to.1 as int) == Some(
            PlayersPiece { color: m.color, piece: Piece::Queen },
        ),
        b.apply(m).current_player() == m.color.spec_other(),
{
    b.lemma_legal_fits(m);
    assert(b.apply(m).moves.last() == m);
}

/// When some piece of the side to move can capture, every legal move is a
/// capture.
pub proof fn lemma_forced_capture(b: BoardView, r: int, c: int)
    requires
        b.wf(),
        in_bounds(r, c),
        b.at(r, c) is Some,
        b.at(r, c).unwrap().color == b.current_player(),
        has_capture(b.square_moves(r, c, None)),
    ensures
        b.legal_moves().len() > 0,
        forall|i: int| 0 <= i < b.legal_moves().len() ==> (#[trigger] b.legal_moves()[i]).kill is Some,
{
    let color = b.current_player();
    let all = b.all_moves(color);
    let k = r * 8 + c;
    assert(k / 8 == r && k % 8 == c);
    let s = b.square_moves(r, c, None);
    let j = choose|j: int| 0 <= j < s.len() && (#[trigger] s[j]).kill is Some;
    assert(b.own_moves(color, k) == s);
    lemma_generated_contains(b, color, 64, k, j);
    let w = choose|w: int| 0 <= w < all.len() && all[w] == s[j];
    assert(has_capture(all));
    let caps = captures_of(all);
    assert(is_capture_pred()(all[w]));
    assert(caps.contains(all[w]));
    assert forall|i: int| 0 <= i < b.legal_moves().len() implies (#[trigger] b.legal_moves()[i]).kill is Some by {
        let l = b.legal_moves();
        if has_kind(Piece::Queen, caps) {
            let q = moves_of_kind(Piece::Queen, caps);
            assert(q.contains(l[i]));
            assert(caps.contains(l[i]));
            let v = choose|v: int| 0 <= v < caps.len() && caps[v] == l[i];
            assert(is_capture_pred()(caps[v]));
        } else {
            assert(is_capture_pred()(caps[i]));
        }
    }
    if has_kind(Piece::Queen, caps) {
        let v = choose|v: int| 0 <= v < caps.len() && (#[trigger] caps[v]).piece == Piece::Queen;
        assert(kind_pred(Piece::Queen)(caps[v]));
        assert(moves_of_kind(Piece::Queen, caps).contains(caps[v]));
    }
}

/// When both a pawn and a queen of the side to move can capture, the legal
/// moves are exactly the queens' captures, in their order.
pub proof fn lemma_queen_priority(b: BoardView, p: Move, q: Move)
    requires
        b.wf(),
        b.all_moves(b.current_player()).contains(p),
        b.all_moves(b.current_player()).contains(q),
        p.kill is Some,
        p.piece == Piece::Pawn,
        q.kill is Some,
        q.piece == Piece::Queen,
    ensures
        b.legal_moves() == moves_of_kind(Piece::Queen, captures_of(b.all_moves(b.current_player()))),
        b.legal_moves().contains(q),
        forall|i: int|
            0 <= i < b.legal_moves().len() ==> (#[trigger] b.legal_moves()[i]).kill is Some
                && b.legal_moves()[i].piece == Piece::Queen,
{
    let all = b.all_moves(b.current_player());
    let caps = captures_of(all);
    let wq = choose|w: int| 0 <= w < all.len() && all[w] == q;
    assert(has_capture(all));
    assert(is_capture_pred()(all[wq]));
    assert(caps.contains(q));
    let v = choose|v: int| 0 <= v < caps.len() && caps[v] == q;
    assert(has_kind(Piece::Queen, caps));
    assert(kind_pred(Piece::Queen)(caps[v]));
    let l = b.legal_moves();
    assert forall|i: int| 0 <= i < l.len() implies (#[trigger] l[i]).kill is Some && l[i].piece
        == Piece::Queen by {
        assert(kind_pred(Piece::Queen)(l[i]));
        assert(moves_of_kind(Piece::Queen, caps).contains(l[i]));
        assert(caps.contains(l[i]));
        let u = choose|u: int| 0 <= u < caps.len() && caps[u] == l[i];
        assert(is_capture_pred()(caps[u]));
    }
}

/// A side to move that has pieces but no legal move loses, provided its
/// opponent still has pieces.
pub proof fn lemma_stuck_side_loses(b: BoardView)
    requires
        b.wf(),
        b.has_pieces(b.current_player()),
        b.has_pieces(b.current_player().spec_other()),
        b.legal_moves().len() == 0,
    ensures
        b.winner() == Some(b.current_player().spec_other()),
{
}

/// A side without pieces loses to the side that has some.
pub proof fn lemma_eliminated_side_loses(b: BoardView, c: Color)
    requires
        b.wf(),
        !b.has_pieces(c),
        b.has_pieces(c.spec_other()),
    ensures
        b.winner() == Some(c.spec_other()),
{
}

/// A legal move keeps every piece on a dark square.
pub proof fn lemma_apply_keeps_dark_squares(b: BoardView, m: Move)
    requires
        b.wf(),
        b.on_dark_squares(),
        b.legal_moves().contains(m),
    ensures
        b.apply(m).on_dark_squares(),
{
    b.lemma_legal_fits(m);
    let after = b.apply(m);
    assert((m.from.0 + m.from.1) % 2 == 0);
    assert forall|r: int, c: int| in_bounds(r, c) && (#[trigger] after.at(r, c)) is Some implies (r
        + c) % 2 == 0 by {
        if r == m.to.0 && c == m.to.1 {
        } else {
            assert(idx(r, c) != idx(m.to.0 as int, m.to.1 as int));
            assert(b.at(r, c) is Some);
        }
    }
}

} // verus!
