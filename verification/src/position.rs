use vstd::prelude::*;
use crate::bits::{lemma_tally_bound, lemma_tally_without, tally};
use crate::defines::Piece;
use crate::masks::{king_step, knight_jump, pawn_attack};
use crate::moves::{Move, MoveContext};
use crate::piece::slider::{bishop_reach, queen_reach, rook_reach};

verus! {

/// A chess position as mathematics: what stands on each of the 64 squares, who
/// is to move, the en-passant target and the four castling rights. The board's
/// bit-masks are one encoding of it.
pub struct Position {
    /// For each square its occupant, as colour (`true` for white) and kind.
    pub squares: Seq<Option<(bool, Piece)>>,
    pub white_to_play: bool,
    pub en_passant_target: Option<usize>,
    pub white_queen_side: bool,
    pub white_king_side: bool,
    pub black_queen_side: bool,
    pub black_king_side: bool,
}

/// The square that a pawn of the given colour has just passed when it stands on `sq`.
pub open spec fn behind(white: bool, sq: int) -> int {
    if white {
        sq - 8
    } else {
        sq + 8
    }
}

/// One rank ahead, as a pawn of the given colour sees it.
pub open spec fn forward(white: bool) -> int {
    if white {
        8
    } else {
        -8
    }
}

/// The rank on which the pawns of the given colour start.
pub open spec fn pawn_home_rank(white: bool) -> int {
    if white {
        1
    } else {
        6
    }
}

/// The rank from which a pawn of the given colour captures en passant.
pub open spec fn en_passant_rank(white: bool) -> int {
    if white {
        4
    } else {
        3
    }
}

/// The rank on which a pawn of the given colour is promoted.
pub open spec fn last_rank(white: bool) -> int {
    if white {
        7
    } else {
        0
    }
}

/// How a piece of the given kind, pawns and kings apart, gets from `from` to `to`.
pub open spec fn reach_of(kind: Piece, occupied: Set<int>, from: int, to: int) -> bool {
    match kind {
        Piece::Knight => knight_jump(from, to),
        Piece::Bishop => bishop_reach(occupied, from, to),
        Piece::Rook => rook_reach(occupied, from, to),
        Piece::Queen => queen_reach(occupied, from, to),
        _ => false,
    }
}

/// The square on which a king of the given colour starts the game.
pub open spec fn king_home(white: bool) -> int {
    if white {
        4
    } else {
        60
    }
}

impl Position {
    /// There are 64 squares, none holds a piece of kind `Empty`, and the
    /// en-passant target, if any, is a square.
    pub open spec fn wf(self) -> bool {
        &&& self.squares.len() == 64
        &&& forall|i: int|
            0 <= i < 64 ==> (#[trigger] self.squares[i] matches Some((_, k)) ==> k != Piece::Empty)
        &&& (self.en_passant_target matches Some(e) ==> e < 64)
    }

    /// The kind of the piece on square `i`, `Empty` where there is none.
    pub open spec fn kind_at(self, i: int) -> Piece {
        match self.squares[i] {
            Some((_, k)) => k,
            None => Piece::Empty,
        }
    }

    /// Square `i` holds a piece of the given colour.
    pub open spec fn side_at(self, i: int, white: bool) -> bool {
        self.squares[i] matches Some((w, _)) && w == white
    }

    /// Square `i` holds nothing.
    pub open spec fn vacant(self, i: int) -> bool {
        self.squares[i] is None
    }

    /// The squares that hold a piece.
    pub open spec fn occupied(self) -> Set<int> {
        Set::new(|i: int| 0 <= i < 64 && !self.vacant(i))
    }

    /// The piece on `from` attacks `to`, by the way its kind moves when it
    /// captures: a pawn one step diagonally ahead, a knight by its jump, a
    /// king by one step, a rook, bishop or queen along a free line.
    pub open spec fn piece_attacks(self, from: int, to: int) -> bool {
        match self.squares[from] {
            Some((w, Piece::Pawn)) => pawn_attack(w, from, to),
            Some((_, Piece::Knight)) => knight_jump(from, to),
            Some((_, Piece::King)) => king_step(from, to),
            Some((_, Piece::Rook)) => rook_reach(self.occupied(), from, to),
            Some((_, Piece::Bishop)) => bishop_reach(self.occupied(), from, to),
            Some((_, Piece::Queen)) => queen_reach(self.occupied(), from, to),
            _ => false,
        }
    }

    /// Some piece of the given kind of the side to move attacks square `t`.
    pub open spec fn reached_by(self, kind: Piece, t: int) -> bool {
        exists|from: int|
            0 <= from < 64 && self.squares[from] == Some((self.white_to_play, kind))
                && #[trigger] self.piece_attacks(from, t)
    }

    /// Some pawn of the side to move that stands on the rank for it attacks
    /// the en-passant target, and `t` is the square of the pawn that it would
    /// take.
    pub open spec fn passed_pawn_at(self, t: int) -> bool {
        let side = self.white_to_play;
        self.en_passant_target matches Some(e) && e < 64 && t == behind(side, e as int)
            && exists|from: int|
            0 <= from < 64 && from / 8 == en_passant_rank(side) && self.squares[from] == Some(
                (side, Piece::Pawn),
            ) && #[trigger] pawn_attack(side, from, e as int)
    }

    /// Some piece of the given colour attacks square `sq`.
    pub open spec fn attacked(self, sq: int, by_white: bool) -> bool {
        exists|a: int| 0 <= a < 64 && self.side_at(a, by_white) && #[trigger] self.piece_attacks(a, sq)
    }

    /// The square of the king of the given colour.
    pub open spec fn king_square(self, white: bool) -> int {
        choose|i: int| 0 <= i < 64 && self.squares[i] == Some((white, Piece::King))
    }

    /// The king of the given colour is attacked.
    pub open spec fn in_check(self, white: bool) -> bool {
        self.attacked(self.king_square(white), !white)
    }

    /// How many pieces of the given colour and kind stand on the board.
    pub open spec fn count(self, white: bool, kind: Piece) -> nat {
        tally(|i: int| self.squares[i] == Some((white, kind)), 64)
    }

    /// How many pieces stand on the board.
    pub open spec fn piece_count(self) -> nat {
        tally(|i: int| !self.vacant(i), 64)
    }

    /// The material of one side in hundredths of a pawn: 100 for a pawn, 320
    /// for a knight, 330 for a bishop, 500 for a rook, 900 for a queen.
    pub open spec fn material(self, white: bool) -> int {
        (100 * self.count(white, Piece::Pawn) + 320 * self.count(white, Piece::Knight) + 330
            * self.count(white, Piece::Bishop) + 500 * self.count(white, Piece::Rook) + 900
            * self.count(white, Piece::Queen)) as int
    }

    /// The static score of the position for the side to move: its material
    /// less the other side's.
    pub open spec fn evaluation(self) -> int {
        self.material(self.white_to_play) - self.material(!self.white_to_play)
    }

    /// The move fits the position: the side to move has a piece on the origin,
    /// the destination holds no piece of its own and no king, the capture
    /// field names what stands on the destination, and the squares that the
    /// move's kind speaks of hold what that kind needs. Nothing is asked of
    /// the geometry of an ordinary step.
    pub open spec fn admits(self, mv: Move) -> bool {
        let side = self.white_to_play;
        let from = mv.start as int;
        let to = mv.end as int;
        let mover = self.kind_at(from);
        &&& from < 64
        &&& to < 64
        &&& self.side_at(from, side)
        &&& !self.side_at(to, side)
        &&& self.kind_at(to) != Piece::King
        &&& mv.capture == (if self.vacant(to) {
            None
        } else {
            Some(self.kind_at(to))
        })
        &&& match mv.context {
            MoveContext::Plain => true,
            MoveContext::DoubleStep => {
                &&& mover == Piece::Pawn
                &&& self.vacant(to)
                &&& 0 <= behind(side, to) < 64
            },
            MoveContext::EnPassant => {
                &&& mover == Piece::Pawn
                &&& self.vacant(to)
                &&& 0 <= behind(side, to) < 64
                &&& behind(side, to) != from
                &&& self.squares[behind(side, to)] == Some((!side, Piece::Pawn))
            },
            MoveContext::Promotion(p) => mover == Piece::Pawn && p.is_promotion_target(),
            MoveContext::KingSideCastle => {
                &&& mover == Piece::King
                &&& from == king_home(side)
                &&& to == from + 2
                &&& self.vacant(from + 1)
                &&& self.vacant(from + 2)
                &&& self.squares[from + 3] == Some((side, Piece::Rook))
            },
            MoveContext::QueenSideCastle => {
                &&& mover == Piece::King
                &&& from == king_home(side)
                &&& to == from - 2
                &&& self.vacant(from - 1)
                &&& self.vacant(from - 2)
                &&& self.squares[from - 4] == Some((side, Piece::Rook))
            },
        }
    }

    /// The move carries this position's castling rights and en-passant target.
    pub open spec fn remembered_by(self, mv: Move) -> bool {
        &&& mv.previous_ep_target == self.en_passant_target
        &&& mv.previous_wqs == self.white_queen_side
        &&& mv.previous_wks == self.white_king_side
        &&& mv.previous_bqs == self.black_queen_side
        &&& mv.previous_bks == self.black_king_side
    }

    /// The squares after the move: the origin is vacated, the destination
    /// takes the moved piece (or what the pawn turns into), an en-passant
    /// capture removes the passed pawn, a castle brings the rook across.
    pub open spec fn squares_after(self, mv: Move) -> Seq<Option<(bool, Piece)>> {
        let side = self.white_to_play;
        let from = mv.start as int;
        let to = mv.end as int;
        let placed = match mv.context {
            MoveContext::Promotion(p) => p,
            _ => self.kind_at(from),
        };
        let moved = self.squares.update(from, None).update(to, Some((side, placed)));
        match mv.context {
            MoveContext::EnPassant => moved.update(behind(side, to), None),
            MoveContext::KingSideCastle => moved.update(from + 3, None).update(
                from + 1,
                Some((side, Piece::Rook)),
            ),
            MoveContext::QueenSideCastle => moved.update(from - 4, None).update(
                from - 1,
                Some((side, Piece::Rook)),
            ),
            _ => moved,
        }
    }

    /// The position after the move. A double step sets the en-passant target
    /// to the square passed, every other move clears it. A king's move ends
    /// both rights of its side; a move from or to a corner ends the right
    /// that belongs to that corner.
    pub open spec fn after(self, mv: Move) -> Position {
        let side = self.white_to_play;
        let from = mv.start as int;
        let to = mv.end as int;
        let king_moved = self.kind_at(from) == Piece::King;
        Position {
            squares: self.squares_after(mv),
            white_to_play: !side,
            en_passant_target: if mv.context == MoveContext::DoubleStep {
                Some(behind(side, to) as usize)
            } else {
                None
            },
            white_queen_side: self.white_queen_side && !(side && king_moved) && from != 0 && to
                != 0,
            white_king_side: self.white_king_side && !(side && king_moved) && from != 7 && to
                != 7,
            black_queen_side: self.black_queen_side && !(!side && king_moved) && from != 56 && to
                != 56,
            black_king_side: self.black_king_side && !(!side && king_moved) && from != 63 && to
                != 63,
        }
    }

    /// The position before the move, worked out from the position after it
    /// and from what the move remembers: the piece goes back to the origin (a
    /// promoted piece as a pawn), what was captured returns, a castled rook
    /// goes back to its corner, and rights and en-passant target are the
    /// move's.
    pub open spec fn before(self, mv: Move) -> Position {
        let side = !self.white_to_play;
        let from = mv.start as int;
        let to = mv.end as int;
        let moved = match mv.context {
            MoveContext::Promotion(_) => Piece::Pawn,
            _ => self.kind_at(to),
        };
        let returned = match mv.capture {
            Some(c) => Some((!side, c)),
            None => None,
        };
        let back = self.squares.update(to, returned).update(from, Some((side, moved)));
        Position {
            squares: match mv.context {
                MoveContext::EnPassant => back.update(
                    behind(side, to),
                    Some((!side, Piece::Pawn)),
                ),
                MoveContext::KingSideCastle => back.update(from + 1, None).update(
                    from + 3,
                    Some((side, Piece::Rook)),
                ),
                MoveContext::QueenSideCastle => back.update(from - 1, None).update(
                    from - 4,
                    Some((side, Piece::Rook)),
                ),
                _ => back,
            },
            white_to_play: side,
            en_passant_target: mv.previous_ep_target,
            white_queen_side: mv.previous_wqs,
            white_king_side: mv.previous_wks,
            black_queen_side: mv.previous_bqs,
            black_king_side: mv.previous_bks,
        }
    }

    /// The move from `from` to `to` of the given kind, with this position's
    /// rights and en-passant target, and with what stands on `to` as its capture.
    pub open spec fn move_of(self, from: int, to: int, context: MoveContext) -> Move {
        Move {
            start: from as usize,
            end: to as usize,
            context,
            previous_ep_target: self.en_passant_target,
            previous_wqs: self.white_queen_side,
            previous_wks: self.white_king_side,
            previous_bqs: self.black_queen_side,
            previous_bks: self.black_king_side,
            capture: if self.vacant(to) {
                None
            } else {
                Some(self.kind_at(to))
            },
        }
    }

    /// The side to move holds the right to castle on the king's side.
    pub open spec fn king_side_right(self) -> bool {
        if self.white_to_play {
            self.white_king_side
        } else {
            self.black_king_side
        }
    }

    /// The side to move holds the right to castle on the queen's side.
    pub open spec fn queen_side_right(self) -> bool {
        if self.white_to_play {
            self.white_queen_side
        } else {
            self.black_queen_side
        }
    }

    /// A pawn of the side to move gets from `from` to `to` by a single step
    /// onto a vacant square or by a capture of what stands diagonally ahead.
    pub open spec fn pawn_reaches(self, from: int, to: int) -> bool {
        let side = self.white_to_play;
        (to == from + forward(side) && self.vacant(to)) || (pawn_attack(side, from, to)
            && !self.vacant(to))
    }

    /// The move follows the way its piece moves: a pawn steps, captures,
    /// makes its double step from the home rank over a vacant square, takes en
    /// passant onto the target from the right rank, and is promoted exactly
    /// on the last rank; a knight, bishop, rook or queen goes where it
    /// reaches; a king steps, or castles where it holds the right and, on the
    /// queen's side, the knight's square is vacant too.
    pub open spec fn follows_rules(self, mv: Move) -> bool {
        let side = self.white_to_play;
        let from = mv.start as int;
        let to = mv.end as int;
        match self.kind_at(from) {
            Piece::Pawn => match mv.context {
                MoveContext::Plain => to / 8 != last_rank(side) && self.pawn_reaches(from, to),
                MoveContext::Promotion(_) => to / 8 == last_rank(side) && self.pawn_reaches(
                    from,
                    to,
                ),
                MoveContext::DoubleStep => from / 8 == pawn_home_rank(side) && to == from + 2
                    * forward(side) && self.vacant(from + forward(side)),
                MoveContext::EnPassant => self.en_passant_target == Some(mv.end) && from / 8
                    == en_passant_rank(side) && pawn_attack(side, from, to),
                _ => false,
            },
            Piece::King => match mv.context {
                MoveContext::Plain => king_step(from, to),
                MoveContext::KingSideCastle => self.king_side_right(),
                MoveContext::QueenSideCastle => self.queen_side_right() && self.vacant(from - 3),
                _ => false,
            },
            Piece::Empty => false,
            kind => mv.context == MoveContext::Plain && reach_of(kind, self.occupied(), from, to),
        }
    }

    /// The move is one that the side to move can make if its king's safety is
    /// left aside.
    pub open spec fn pseudo_legal(self, mv: Move) -> bool {
        self.admits(mv) && self.remembered_by(mv) && self.follows_rules(mv)
    }

    /// For a castle: neither the king's square nor the square it crosses nor
    /// the one it lands on is attacked. For any other move nothing is asked.
    pub open spec fn castle_path_safe(self, mv: Move) -> bool {
        let side = self.white_to_play;
        let from = mv.start as int;
        match mv.context {
            MoveContext::KingSideCastle => !self.attacked(from, !side) && !self.attacked(
                from + 1,
                !side,
            ) && !self.attacked(from + 2, !side),
            MoveContext::QueenSideCastle => !self.attacked(from, !side) && !self.attacked(
                from - 1,
                !side,
            ) && !self.attacked(from - 2, !side),
            _ => true,
        }
    }

    /// The move is legal: it follows the rules, a castle crosses no attacked
    /// square, and once it is made the mover's king is not attacked.
    pub open spec fn legal(self, mv: Move) -> bool {
        self.pseudo_legal(mv) && self.castle_path_safe(mv) && !self.after(mv).in_check(
            self.white_to_play,
        )
    }

    /// This position came about by `mv`, made in some position that admitted it.
    pub open spec fn made_by(self, mv: Move) -> bool {
        exists|p: Position| p.wf() && p.admits(mv) && self == #[trigger] p.after(mv)
    }
}

/// Taking a move back restores the position in which it was made, as far as
/// the squares and the side to move go, whatever the move remembers.
pub proof fn lemma_before_after_squares(p: Position, mv: Move)
    requires
        p.wf(),
        p.admits(mv),
    ensures
        p.after(mv).before(mv).squares == p.squares,
        p.after(mv).before(mv).white_to_play == p.white_to_play,
{
    assert(p.after(mv).before(mv).squares =~= p.squares);
}

/// Making a move that remembers the position and taking it back gives the
/// position again.
pub proof fn lemma_before_after(p: Position, mv: Move)
    requires
        p.wf(),
        p.admits(mv),
        p.remembered_by(mv),
    ensures
        p.after(mv).before(mv) == p,
{
    lemma_before_after_squares(p, mv);
}

/// A move leaves a well-formed position well-formed.
pub proof fn lemma_after_wf(p: Position, mv: Move)
    requires
        p.wf(),
        p.admits(mv),
    ensures
        p.after(mv).wf(),
{
    let q = p.after(mv);
    assert(q.squares.len() == 64);
    assert forall|i: int| 0 <= i < 64 implies (#[trigger] q.squares[i] matches Some((_, k)) ==> k
        != Piece::Empty) by {
        assert(p.squares[i] matches Some((_, k)) ==> k != Piece::Empty);
        assert(p.squares[mv.start as int] matches Some((_, k)) ==> k != Piece::Empty);
    }
}

/// No static score comes near the score of a lost or of a won game.
pub proof fn lemma_evaluation_bounded(p: Position)
    ensures
        -137_600 <= p.evaluation() <= 137_600,
{
    lemma_tally_bound(|i: int| p.squares[i] == Some((true, Piece::Pawn)), 64);
    lemma_tally_bound(|i: int| p.squares[i] == Some((true, Piece::Knight)), 64);
    lemma_tally_bound(|i: int| p.squares[i] == Some((true, Piece::Bishop)), 64);
    lemma_tally_bound(|i: int| p.squares[i] == Some((true, Piece::Rook)), 64);
    lemma_tally_bound(|i: int| p.squares[i] == Some((true, Piece::Queen)), 64);
    lemma_tally_bound(|i: int| p.squares[i] == Some((false, Piece::Pawn)), 64);
    lemma_tally_bound(|i: int| p.squares[i] == Some((false, Piece::Knight)), 64);
    lemma_tally_bound(|i: int| p.squares[i] == Some((false, Piece::Bishop)), 64);
    lemma_tally_bound(|i: int| p.squares[i] == Some((false, Piece::Rook)), 64);
    lemma_tally_bound(|i: int| p.squares[i] == Some((false, Piece::Queen)), 64);
}

/// A capture leaves one piece less on the board.
pub proof fn lemma_capture_shrinks(p: Position, mv: Move)
    requires
        p.wf(),
        p.admits(mv),
        mv.capture is Some,
    ensures
        p.after(mv).piece_count() + 1 == p.piece_count(),
{
    let q = p.after(mv);
    lemma_tally_without(|i: int| !p.vacant(i), |i: int| !q.vacant(i), mv.start as int, 64);
}

} // verus!
