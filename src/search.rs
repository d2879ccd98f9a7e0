use vstd::prelude::*;

use crate::board::{Board, BoardView};
use crate::laws::lemma_undo_apply;
use crate::lemmas::{count_pieces, lemma_same_mover_count};
use crate::types::{Color, Move};

verus! {

/// A bound on every score that the search returns.
pub const SCORE_BOUND: i64 = 0x2000_0000_0000;

impl BoardView {
    /// The minimax value of the board for `player`, searched from full turn
    /// `depth`: a decided game is worth `win` to its winner and `-win` to the
    /// loser; at the depth limit the static evaluation stands; otherwise the
    /// best value over the legal moves.
    pub open spec fn search_value(self, player: Color, depth: int) -> int
        decreases self.rating.max_depth - depth, count_pieces(self.board), 1nat, 0nat,
    {
        if self.winner() is Some {
            if self.winner() == Some(player) {
                self.rating.win as int
            } else {
                -(self.rating.win as int)
            }
        } else if depth < self.rating.max_depth {
            self.best_child(player, depth, self.legal_moves().len() as int)
        } else {
            self.evaluation()
        }
    }

    /// The greatest value among the first `n` legal moves.
    pub open spec fn best_child(self, player: Color, depth: int, n: int) -> int
        decreases self.rating.max_depth - depth, count_pieces(self.board), 0nat, n,
    {
        if n <= 0 {
            0
        } else if n == 1 {
            self.move_value(player, depth, self.legal_moves()[0])
        } else {
            let a = self.best_child(player, depth, n - 1);
            let b = self.move_value(player, depth, self.legal_moves()[n - 1]);
            if b > a {
                b
            } else {
                a
            }
        }
    }

    /// The value of playing `m`: the value of the board after it, at the
    /// next full turn and negated when the side to move changes, at the same
    /// turn and as it is when a capture chain goes on.
    pub open spec fn move_value(self, player: Color, depth: int, m: Move) -> int
        decreases self.rating.max_depth - depth, count_pieces(self.board), 0nat, 0nat,
    {
        let after = self.apply(m);
        if after.current_player() != self.current_player() {
            if depth < self.rating.max_depth {
                -after.search_value(player, depth + 1)
            } else {
                0
            }
        } else if count_pieces(after.board) < count_pieces(self.board) {
            after.search_value(player, depth)
        } else {
            0
        }
    }

    /// The value of a top-level move for the side that plays it.
    pub open spec fn root_value(self, m: Move) -> int {
        let after = self.apply(m);
        -after.search_value(after.current_player(), 0)
    }
}

/// A board's settings survive any move.
proof fn lemma_apply_keeps_rating(b: BoardView, m: Move)
    ensures
        b.apply(m).rating == b.rating,
{
}

impl Board {
    fn rate_inner(&mut self, player: Color, depth: usize) -> (r: i64)
        requires
            old(self)@.wf(),
            depth <= old(self)@.rating.max_depth,
        ensures
            final(self)@ == old(self)@,
            r == old(self)@.search_value(player, depth as int),
            -SCORE_BOUND <= r <= SCORE_BOUND,
        decreases old(self)@.rating.max_depth - depth, count_pieces(old(self)@.board),
    {
        let ghost b0 = self@;
        let win = self.rating.win as i64;
        let max_depth = self.rating.max_depth;
        match self.winner() {
            Some(w) => {
                return if w == player {
                    win
                } else {
                    -win
                };
            },
            None => {},
        }
        if depth >= max_depth {
            return self.rate_current_board();
        }
        let moves = self.find_all_current_moves();
        let mover = self.current_player();
        let mut best: i64 = 0;
        let mut i: usize = 0;
        while i < moves.len()
            invariant
                self@.wf(),
                self@ == b0,
                old(self)@ == b0,
                b0.wf(),
                b0.winner() is None,
                depth < max_depth,
                max_depth == b0.rating.max_depth,
                moves@ == b0.legal_moves(),
                mover == b0.current_player(),
                i <= moves@.len(),
                best == b0.best_child(player, depth as int, i as int),
                -SCORE_BOUND <= best <= SCORE_BOUND,
            decreases moves@.len() - i,
        {
            let m = moves[i];
            proof {
                assert(b0.legal_moves().contains(m));
                b0.lemma_legal_fits(m);
                lemma_apply_keeps_rating(b0, m);
            }
            self.push_unsafe(m);
            let changed = self.current_player() != mover;
            let v = if changed {
                -self.rate_inner(player, depth + 1)
            } else {
                proof {
                    lemma_same_mover_count(b0, m);
                }
                self.rate_inner(player, depth)
            };
            assert(v == b0.move_value(player, depth as int, m));
            let _ = self.pop();
            proof {
                lemma_undo_apply(b0, m);
            }
            if i == 0 || v > best {
                best = v;
            }
            i = i + 1;
        }
        best
    }

    /// The minimax value of the board for `player`, searched to the
    /// configured number of full turns.
    pub fn rate(&mut self, player: Color) -> (r: i64)
        requires
            old(self)@.wf(),
        ensures
            final(self)@ == old(self)@,
            r == old(self)@.search_value(player, 0),
            -SCORE_BOUND <= r <= SCORE_BOUND,
    {
        self.rate_inner(player, 0)
    }

    /// The legal move with the greatest value for the side to move; of
    /// several with that value, the first generated.
    pub fn find_best_move(&mut self) -> (r: Move)
        requires
            old(self)@.wf(),
            old(self)@.legal_moves().len() > 0,
        ensures
            final(self)@ == old(self)@,
            exists|k: int|
                0 <= k < old(self)@.legal_moves().len() && r == old(self)@.legal_moves()[k]
                    && (forall|j: int|
                    0 <= j < old(self)@.legal_moves().len() ==> old(self)@.root_value(
                        old(self)@.legal_moves()[j],
                    ) <= old(self)@.root_value(r)) && (forall|j: int|
                    0 <= j < k ==> old(self)@.root_value(old(self)@.legal_moves()[j])
                        < old(self)@.root_value(r)),
    {
        let ghost b0 = self@;
        let moves = self.find_all_current_moves();
        let mut best_k: usize = 0;
        let mut best: i64 = 0;
        let mut i: usize = 0;
        while i < moves.len()
            invariant
                self@.wf(),
                self@ == b0,
                b0.wf(),
                moves@ == b0.legal_moves(),
                moves@.len() > 0,
                i <= moves@.len(),
                i > 0 ==> best_k < i,
                i > 0 ==> best == b0.root_value(moves@[best_k as int]),
                forall|j: int| 0 <= j < i ==> b0.root_value(moves@[j]) <= b0.root_value(moves@[best_k as int]),
                forall|j: int| 0 <= j < best_k ==> b0.root_value(moves@[j]) < b0.root_value(moves@[best_k as int]),
            decreases moves@.len() - i,
        {
            let m = moves[i];
            proof {
                assert(b0.legal_moves().contains(m));
                b0.lemma_legal_fits(m);
                lemma_apply_keeps_rating(b0, m);
            }
            self.push_unsafe(m);
            let next = self.current_player();
            let v = -self.rate(next);
            let _ = self.pop();
            proof {
                lemma_undo_apply(b0, m);
            }
            if i == 0 || v > best {
                best = v;
                best_k = i;
            }
            i = i + 1;
        }
        moves[best_k]
    }
}

} // verus!
