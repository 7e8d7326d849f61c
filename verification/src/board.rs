use vstd::prelude::*;
use crate::bits::{
    bit, either, has_bit, intersects, lemma_bit_ops, lemma_bit_single, lemma_same_bits,
    lemma_tally_same, population, square_mask, with_bit, without_bit, Bitboard, Index,
};
use crate::chess::get_piece_type_on_square;
use crate::defines::Piece;
use crate::moves::{get_legal_moves, Move, MoveContext};
use crate::piece::slider::squares_of;
use crate::position::{behind, lemma_before_after, Position};

verus! {

/// The state of a game: where the pieces stand, as one bit-mask per colour and
/// kind and one square per king, the three occupancy masks derived from them,
/// the en-passant target, the castling rights and the side to move.
#[derive(Clone, Copy, Debug, PartialEq, Eq)]
pub struct Board {
    pub white_pawns: Bitboard,
    pub white_rooks: Bitboard,
    pub white_knights: Bitboard,
    pub white_bishops: Bitboard,
    pub white_queens: Bitboard,
    pub white_king: Index,
    pub black_pawns: Bitboard,
    pub black_rooks: Bitboard,
    pub black_knights: Bitboard,
    pub black_bishops: Bitboard,
    pub black_queens: Bitboard,
    pub black_king: Index,
    /// Every white piece, the king included.
    pub white_pieces: Bitboard,
    /// Every black piece, the king included.
    pub black_pieces: Bitboard,
    /// Every piece.
    pub pieces: Bitboard,
    /// The square that a pawn passed in a double step on the last move, if it made one.
    pub en_passant_target: Option<Index>,
    pub white_queen_side_castling_right: bool,
    pub white_king_side_castling_right: bool,
    pub black_queen_side_castling_right: bool,
    pub black_king_side_castling_right: bool,
    pub white_to_play: bool,
}

/// One for `true`, zero for `false`.
pub open spec fn count(b: bool) -> int {
    if b {
        1
    } else {
        0
    }
}

impl View for Board {
    type V = Position;

    open spec fn view(&self) -> Position {
        Position {
            squares: self.squares(),
            white_to_play: self.white_to_play,
            en_passant_target: self.en_passant_target,
            white_queen_side: self.white_queen_side_castling_right,
            white_king_side: self.white_king_side_castling_right,
            black_queen_side: self.black_queen_side_castling_right,
            black_king_side: self.black_king_side_castling_right,
        }
    }
}

impl Board {
    /// A white piece stands on square `i`, going by the masks of each kind.
    pub open spec fn white_at(&self, i: int) -> bool {
        bit(self.white_pawns, i) || bit(self.white_rooks, i) || bit(self.white_knights, i) || bit(
            self.white_bishops,
            i,
        ) || bit(self.white_queens, i) || i == self.white_king
    }

    /// A black piece stands on square `i`, going by the masks of each kind.
    pub open spec fn black_at(&self, i: int) -> bool {
        bit(self.black_pawns, i) || bit(self.black_rooks, i) || bit(self.black_knights, i) || bit(
            self.black_bishops,
            i,
        ) || bit(self.black_queens, i) || i == self.black_king
    }

    /// How many of the twelve piece sets claim square `i`.
    pub open spec fn load(&self, i: int) -> int {
        count(bit(self.white_pawns, i)) + count(bit(self.white_rooks, i)) + count(
            bit(self.white_knights, i),
        ) + count(bit(self.white_bishops, i)) + count(bit(self.white_queens, i)) + count(
            i == self.white_king,
        ) + count(bit(self.black_pawns, i)) + count(bit(self.black_rooks, i)) + count(
            bit(self.black_knights, i),
        ) + count(bit(self.black_bishops, i)) + count(bit(self.black_queens, i)) + count(
            i == self.black_king,
        )
    }

    /// The occupant of square `i`.
    pub open spec fn cell(&self, i: int) -> Option<(bool, Piece)> {
        if bit(self.white_pawns, i) {
            Some((true, Piece::Pawn))
        } else if bit(self.white_rooks, i) {
            Some((true, Piece::Rook))
        } else if bit(self.white_knights, i) {
            Some((true, Piece::Knight))
        } else if bit(self.white_bishops, i) {
            Some((true, Piece::Bishop))
        } else if bit(self.white_queens, i) {
            Some((true, Piece::Queen))
        } else if i == self.white_king {
            Some((true, Piece::King))
        } else if bit(self.black_pawns, i) {
            Some((false, Piece::Pawn))
        } else if bit(self.black_rooks, i) {
            Some((false, Piece::Rook))
        } else if bit(self.black_knights, i) {
            Some((false, Piece::Knight))
        } else if bit(self.black_bishops, i) {
            Some((false, Piece::Bishop))
        } else if bit(self.black_queens, i) {
            Some((false, Piece::Queen))
        } else if i == self.black_king {
            Some((false, Piece::King))
        } else {
            None
        }
    }

    /// The occupants of the 64 squares.
    pub open spec fn squares(&self) -> Seq<Option<(bool, Piece)>> {
        Seq::new(64, |i: int| self.cell(i))
    }

    /// No square is claimed twice: by two kinds, by two colours, or by a king
    /// and another piece.
    pub open spec fn disjoint(&self) -> bool {
        forall|i: int| 0 <= i < 64 ==> #[trigger] self.load(i) <= 1
    }

    /// Each king stands on a square, and no square is claimed twice.
    pub open spec fn placement_ok(&self) -> bool {
        &&& self.white_king < 64
        &&& self.black_king < 64
        &&& self.disjoint()
    }

    /// The squares once the king of the given colour has been set on `sq`,
    /// wherever it stood before, if it stood anywhere.
    pub open spec fn crowned(
        squares: Seq<Option<(bool, Piece)>>,
        white: bool,
        sq: int,
    ) -> Seq<Option<(bool, Piece)>> {
        Seq::new(
            64,
            |i: int|
                if i == sq {
                    Some((white, Piece::King))
                } else if squares[i] == Some((white, Piece::King)) {
                    None
                } else {
                    squares[i]
                },
        )
    }

    /// Each side's occupancy is the union of its five masks and its king's
    /// square, and the global occupancy is the union of the two.
    pub open spec fn occupancy_ok(&self) -> bool {
        &&& self.white_pieces == self.white_pawns | self.white_rooks | self.white_knights
            | self.white_bishops | self.white_queens | (1u64 << self.white_king)
        &&& self.black_pieces == self.black_pawns | self.black_rooks | self.black_knights
            | self.black_bishops | self.black_queens | (1u64 << self.black_king)
        &&& self.pieces == self.white_pieces | self.black_pieces
    }

    /// The board is consistent: the placement, the derived occupancy masks, and
    /// an en-passant target that is a square.
    pub open spec fn wf(&self) -> bool {
        &&& self.placement_ok()
        &&& self.occupancy_ok()
        &&& (self.en_passant_target matches Some(e) ==> e < 64)
    }

    /// Everything but the ten masks of the kinds is the same in both boards.
    pub open spec fn same_frame(&self, other: &Board) -> bool {
        &&& self.white_king == other.white_king
        &&& self.black_king == other.black_king
        &&& self.white_pieces == other.white_pieces
        &&& self.black_pieces == other.black_pieces
        &&& self.pieces == other.pieces
        &&& self.en_passant_target == other.en_passant_target
        &&& self.white_queen_side_castling_right == other.white_queen_side_castling_right
        &&& self.white_king_side_castling_right == other.white_king_side_castling_right
        &&& self.black_queen_side_castling_right == other.black_queen_side_castling_right
        &&& self.black_king_side_castling_right == other.black_king_side_castling_right
        &&& self.white_to_play == other.white_to_play
    }

    /// What the occupancy masks say of a square, on a board whose masks are consistent.
    pub proof fn lemma_occupancy_bits(&self, i: int)
        requires
            self.occupancy_ok(),
            self.white_king < 64,
            self.black_king < 64,
        ensures
            bit(self.white_pieces, i) == (0 <= i < 64 && self.white_at(i)),
            bit(self.black_pieces, i) == (0 <= i < 64 && self.black_at(i)),
            bit(self.pieces, i) == (0 <= i < 64 && (self.white_at(i) || self.black_at(i))),
    {
        let w1 = self.white_pawns | self.white_rooks;
        let w2 = w1 | self.white_knights;
        let w3 = w2 | self.white_bishops;
        let w4 = w3 | self.white_queens;
        let wk = 1u64 << self.white_king;
        lemma_bit_ops(self.white_pawns, self.white_rooks, i);
        lemma_bit_ops(w1, self.white_knights, i);
        lemma_bit_ops(w2, self.white_bishops, i);
        lemma_bit_ops(w3, self.white_queens, i);
        lemma_bit_ops(w4, wk, i);
        lemma_bit_single(self.white_king as u64, i);
        let b1 = self.black_pawns | self.black_rooks;
        let b2 = b1 | self.black_knights;
        let b3 = b2 | self.black_bishops;
        let b4 = b3 | self.black_queens;
        let bk = 1u64 << self.black_king;
        lemma_bit_ops(self.black_pawns, self.black_rooks, i);
        lemma_bit_ops(b1, self.black_knights, i);
        lemma_bit_ops(b2, self.black_bishops, i);
        lemma_bit_ops(b3, self.black_queens, i);
        lemma_bit_ops(b4, bk, i);
        lemma_bit_single(self.black_king as u64, i);
        lemma_bit_ops(self.white_pieces, self.black_pieces, i);
    }

    /// The ten masks of the kinds and the kings' squares are the same in both boards.
    pub open spec fn same_pieces(&self, other: &Board) -> bool {
        &&& self.white_pawns == other.white_pawns
        &&& self.white_rooks == other.white_rooks
        &&& self.white_knights == other.white_knights
        &&& self.white_bishops == other.white_bishops
        &&& self.white_queens == other.white_queens
        &&& self.white_king == other.white_king
        &&& self.black_pawns == other.black_pawns
        &&& self.black_rooks == other.black_rooks
        &&& self.black_knights == other.black_knights
        &&& self.black_bishops == other.black_bishops
        &&& self.black_queens == other.black_queens
        &&& self.black_king == other.black_king
    }

    /// Boards with the same masks and kings have the same occupants, and the
    /// one's placement is sound if the other's is.
    pub proof fn lemma_same_pieces(&self, other: &Board)
        requires
            self.same_pieces(other),
            other.placement_ok(),
        ensures
            self.placement_ok(),
            self.squares() == other.squares(),
    {
        assert forall|i: int| 0 <= i < 64 implies #[trigger] self.load(i) <= 1 by {
            assert(other.load(i) <= 1);
        }
        assert(self.squares() =~= other.squares());
    }

    /// On a sound placement a mask holds a square exactly when the square's
    /// occupant is of the mask's colour and kind, and a king's square holds
    /// that king.
    pub proof fn lemma_cells(&self, i: int)
        requires
            self.disjoint(),
            0 <= i < 64,
        ensures
            bit(self.white_pawns, i) == (self.squares()[i] == Some((true, Piece::Pawn))),
            bit(self.white_rooks, i) == (self.squares()[i] == Some((true, Piece::Rook))),
            bit(self.white_knights, i) == (self.squares()[i] == Some((true, Piece::Knight))),
            bit(self.white_bishops, i) == (self.squares()[i] == Some((true, Piece::Bishop))),
            bit(self.white_queens, i) == (self.squares()[i] == Some((true, Piece::Queen))),
            (i == self.white_king) == (self.squares()[i] == Some((true, Piece::King))),
            bit(self.black_pawns, i) == (self.squares()[i] == Some((false, Piece::Pawn))),
            bit(self.black_rooks, i) == (self.squares()[i] == Some((false, Piece::Rook))),
            bit(self.black_knights, i) == (self.squares()[i] == Some((false, Piece::Knight))),
            bit(self.black_bishops, i) == (self.squares()[i] == Some((false, Piece::Bishop))),
            bit(self.black_queens, i) == (self.squares()[i] == Some((false, Piece::Queen))),
            (i == self.black_king) == (self.squares()[i] == Some((false, Piece::King))),
            self.squares()[i] matches Some((_, k)) ==> k != Piece::Empty,
    {
        assert(self.load(i) <= 1);
    }

    /// The global occupancy mask holds exactly the squares that are not vacant,
    /// and each king's square is the one the index names.
    pub proof fn lemma_view_occupancy(&self)
        requires
            self.wf(),
        ensures
            self@.occupied() == squares_of(self.pieces),
            self@.king_square(true) == self.white_king,
            self@.king_square(false) == self.black_king,
    {
        assert forall|i: int| self@.occupied().contains(i) == squares_of(self.pieces).contains(
            i,
        ) by {
            self.lemma_occupancy_bits(i);
            if 0 <= i < 64 {
                self.lemma_cells(i);
            }
        }
        assert(self@.occupied() =~= squares_of(self.pieces));
        self.lemma_cells(self.white_king as int);
        self.lemma_cells(self.black_king as int);
        let w = self@.king_square(true);
        self.lemma_cells(w);
        let b = self@.king_square(false);
        self.lemma_cells(b);
    }

    /// A consistent board is settled by its model: two that stand for the same
    /// position agree in every mask, bit for bit.
    pub proof fn lemma_view_settles(&self, other: &Board)
        requires
            self.wf(),
            other.wf(),
            self@ == other@,
        ensures
            *self == *other,
    {
        assert forall|i: int| 0 <= i < 64 implies {
            &&& bit(self.white_pawns, i) == bit(other.white_pawns, i)
            &&& bit(self.white_rooks, i) == bit(other.white_rooks, i)
            &&& bit(self.white_knights, i) == bit(other.white_knights, i)
            &&& bit(self.white_bishops, i) == bit(other.white_bishops, i)
            &&& bit(self.white_queens, i) == bit(other.white_queens, i)
            &&& bit(self.black_pawns, i) == bit(other.black_pawns, i)
            &&& bit(self.black_rooks, i) == bit(other.black_rooks, i)
            &&& bit(self.black_knights, i) == bit(other.black_knights, i)
            &&& bit(self.black_bishops, i) == bit(other.black_bishops, i)
            &&& bit(self.black_queens, i) == bit(other.black_queens, i)
        } by {
            self.lemma_cells(i);
            other.lemma_cells(i);
            assert(self.squares()[i] == other.squares()[i]);
        }
        lemma_same_bits(self.white_pawns, other.white_pawns);
        lemma_same_bits(self.white_rooks, other.white_rooks);
        lemma_same_bits(self.white_knights, other.white_knights);
        lemma_same_bits(self.white_bishops, other.white_bishops);
        lemma_same_bits(self.white_queens, other.white_queens);
        lemma_same_bits(self.black_pawns, other.black_pawns);
        lemma_same_bits(self.black_rooks, other.black_rooks);
        lemma_same_bits(self.black_knights, other.black_knights);
        lemma_same_bits(self.black_bishops, other.black_bishops);
        lemma_same_bits(self.black_queens, other.black_queens);
        self.lemma_cells(self.white_king as int);
        other.lemma_cells(self.white_king as int);
        self.lemma_cells(self.black_king as int);
        other.lemma_cells(self.black_king as int);
        assert(self.squares()[self.white_king as int] == other.squares()[self.white_king as int]);
        assert(self.squares()[self.black_king as int] == other.squares()[self.black_king as int]);
    }

    /// The model of a consistent board is a well-formed position.
    pub proof fn lemma_view_wf(&self)
        requires
            self.wf(),
        ensures
            self@.wf(),
    {
        assert forall|i: int| 0 <= i < 64 implies (#[trigger] self@.squares[i] matches Some(
            (_, k),
        ) ==> k != Piece::Empty) by {
            self.lemma_cells(i);
        }
    }

    /// The mask of the pieces of the given colour and kind, the king apart.
    pub fn mask_of(&self, white: bool, kind: Piece) -> (m: Bitboard)
        requires
            self.wf(),
            kind.is_minor(),
        ensures
            forall|i: int| bit(m, i) == (0 <= i < 64 && self@.squares[i] == Some((white, kind))),
    {
        let m = if white {
            match kind {
                Piece::Pawn => self.white_pawns,
                Piece::Rook => self.white_rooks,
                Piece::Knight => self.white_knights,
                Piece::Bishop => self.white_bishops,
                _ => self.white_queens,
            }
        } else {
            match kind {
                Piece::Pawn => self.black_pawns,
                Piece::Rook => self.black_rooks,
                Piece::Knight => self.black_knights,
                Piece::Bishop => self.black_bishops,
                _ => self.black_queens,
            }
        };
        proof {
            assert forall|i: int|
                bit(m, i) == (0 <= i < 64 && self@.squares[i] == Some((white, kind))) by {
                if 0 <= i < 64 {
                    self.lemma_cells(i);
                }
            }
        }
        m
    }

    /// The mask of all pieces of the given colour.
    pub fn side_mask(&self, white: bool) -> (m: Bitboard)
        requires
            self.wf(),
        ensures
            forall|i: int| bit(m, i) == (0 <= i < 64 && self@.side_at(i, white)),
    {
        let m = if white {
            self.white_pieces
        } else {
            self.black_pieces
        };
        proof {
            assert forall|i: int| bit(m, i) == (0 <= i < 64 && self@.side_at(i, white)) by {
                self.lemma_occupancy_bits(i);
                if 0 <= i < 64 {
                    self.lemma_cells(i);
                }
            }
        }
        m
    }

    /// The square of the king of the given colour.
    pub fn king_of(&self, white: bool) -> (sq: Index)
        requires
            self.wf(),
        ensures
            sq < 64,
            sq == self@.king_square(white),
            self@.squares[sq as int] == Some((white, Piece::King)),
            forall|i: int|
                0 <= i < 64 && self@.squares[i] == Some((white, Piece::King)) ==> i == sq,
    {
        let sq = if white {
            self.white_king
        } else {
            self.black_king
        };
        proof {
            self.lemma_view_occupancy();
            self.lemma_cells(sq as int);
            assert forall|i: int|
                0 <= i < 64 && self@.squares[i] == Some((white, Piece::King)) implies i == sq by {
                self.lemma_cells(i);
            }
        }
        sq
    }

    /// Removes from square `sq` the piece of the given colour and kind that stands there.
    pub(crate) fn take(&mut self, white: bool, kind: Piece, sq: usize)
        requires
            sq < 64,
            old(self).disjoint(),
            kind.is_minor(),
            old(self).squares()[sq as int] == Some((white, kind)),
        ensures
            final(self).disjoint(),
            final(self).same_frame(old(self)),
            final(self).squares() == old(self).squares().update(sq as int, None),
    {
        proof {
            assert(old(self).load(sq as int) <= 1);
        }
        if white {
            match kind {
                Piece::Pawn => {
                    self.white_pawns = without_bit(self.white_pawns, sq);
                },
                Piece::Rook => {
                    self.white_rooks = without_bit(self.white_rooks, sq);
                },
                Piece::Knight => {
                    self.white_knights = without_bit(self.white_knights, sq);
                },
                Piece::Bishop => {
                    self.white_bishops = without_bit(self.white_bishops, sq);
                },
                Piece::Queen => {
                    self.white_queens = without_bit(self.white_queens, sq);
                },
                _ => {},
            }
        } else {
            match kind {
                Piece::Pawn => {
                    self.black_pawns = without_bit(self.black_pawns, sq);
                },
                Piece::Rook => {
                    self.black_rooks = without_bit(self.black_rooks, sq);
                },
                Piece::Knight => {
                    self.black_knights = without_bit(self.black_knights, sq);
                },
                Piece::Bishop => {
                    self.black_bishops = without_bit(self.black_bishops, sq);
                },
                Piece::Queen => {
                    self.black_queens = without_bit(self.black_queens, sq);
                },
                _ => {},
            }
        }
        proof {
            assert forall|i: int| 0 <= i < 64 implies #[trigger] self.load(i) <= 1 && self.cell(i)
                == (if i == sq {
                None
            } else {
                old(self).cell(i)
            }) by {
                assert(old(self).load(i) <= 1);
            }
            assert(self.squares() =~= old(self).squares().update(sq as int, None));
        }
    }

    /// Puts a piece of the given colour and kind on the vacant square `sq`.
    pub(crate) fn place(&mut self, white: bool, kind: Piece, sq: usize)
        requires
            sq < 64,
            old(self).disjoint(),
            kind.is_minor(),
            old(self).squares()[sq as int] is None,
        ensures
            final(self).disjoint(),
            final(self).same_frame(old(self)),
            final(self).squares() == old(self).squares().update(sq as int, Some((white, kind))),
    {
        if white {
            match kind {
                Piece::Pawn => {
                    self.white_pawns = with_bit(self.white_pawns, sq);
                },
                Piece::Rook => {
                    self.white_rooks = with_bit(self.white_rooks, sq);
                },
                Piece::Knight => {
                    self.white_knights = with_bit(self.white_knights, sq);
                },
                Piece::Bishop => {
                    self.white_bishops = with_bit(self.white_bishops, sq);
                },
                Piece::Queen => {
                    self.white_queens = with_bit(self.white_queens, sq);
                },
                _ => {},
            }
        } else {
            match kind {
                Piece::Pawn => {
                    self.black_pawns = with_bit(self.black_pawns, sq);
                },
                Piece::Rook => {
                    self.black_rooks = with_bit(self.black_rooks, sq);
                },
                Piece::Knight => {
                    self.black_knights = with_bit(self.black_knights, sq);
                },
                Piece::Bishop => {
                    self.black_bishops = with_bit(self.black_bishops, sq);
                },
                Piece::Queen => {
                    self.black_queens = with_bit(self.black_queens, sq);
                },
                _ => {},
            }
        }
        proof {
            assert forall|i: int| 0 <= i < 64 implies #[trigger] self.load(i) <= 1 && self.cell(i)
                == (if i == sq {
                Some((white, kind))
            } else {
                old(self).cell(i)
            }) by {
                assert(old(self).load(i) <= 1);
            }
            assert(self.squares() =~= old(self).squares().update(sq as int, Some((white, kind))));
        }
    }

    /// Sets the king of the given colour on the vacant square `sq`, wherever
    /// it stood before.
    pub(crate) fn set_king(&mut self, white: bool, sq: usize)
        requires
            sq < 64,
            old(self).disjoint(),
            old(self).squares()[sq as int] is None,
        ensures
            final(self).disjoint(),
            final(self).squares() == Board::crowned(old(self).squares(), white, sq as int),
            (if white {
                old(self).white_king
            } else {
                old(self).black_king
            }) < 64 ==> final(self).squares() == old(self).squares().update(
                (if white {
                    old(self).white_king
                } else {
                    old(self).black_king
                }) as int,
                None,
            ).update(sq as int, Some((white, Piece::King))),
            *final(self) == (if white {
                Board { white_king: sq, ..*old(self) }
            } else {
                Board { black_king: sq, ..*old(self) }
            }),
    {
        if white {
            self.white_king = sq;
        } else {
            self.black_king = sq;
        }
        proof {
            let was = if white {
                old(self).white_king
            } else {
                old(self).black_king
            };
            assert forall|i: int| 0 <= i < 64 implies #[trigger] self.load(i) <= 1 by {
                assert(old(self).load(i) <= 1);
                old(self).lemma_cells(i);
            }
            assert forall|i: int| 0 <= i < 64 implies #[trigger] self.squares()[i]
                == Board::crowned(old(self).squares(), white, sq as int)[i] by {
                assert(old(self).load(i) <= 1);
                old(self).lemma_cells(i);
            }
            assert(self.squares() =~= Board::crowned(old(self).squares(), white, sq as int));
            if was < 64 {
                old(self).lemma_cells(was as int);
                assert forall|i: int| 0 <= i < 64 implies #[trigger] self.squares()[i] == old(
                    self,
                ).squares().update(was as int, None).update(
                    sq as int,
                    Some((white, Piece::King)),
                )[i] by {
                    old(self).lemma_cells(i);
                }
                assert(self.squares() =~= old(self).squares().update(was as int, None).update(
                    sq as int,
                    Some((white, Piece::King)),
                ));
            }
        }
    }

    /// Takes off the board what the move captures: the piece on the
    /// destination, or the pawn that an en-passant capture passes.
    fn lift_captured(&mut self, mv: Move)
        requires
            old(self).wf(),
            old(self)@.admits(mv),
        ensures
            final(self).placement_ok(),
            final(self).same_frame(old(self)),
            final(self).squares() == (if mv.context == MoveContext::EnPassant {
                old(self).squares().update(behind(old(self).white_to_play, mv.end as int), None)
            } else {
                old(self).squares().update(mv.end as int, None)
            }),
    {
        let white = self.white_to_play;
        proof {
            old(self).lemma_view_wf();
        }
        match mv.capture {
            Some(captured) => {
                self.take(!white, captured, mv.end);
            },
            None => {
                match mv.context {
                    MoveContext::EnPassant => {
                        let passed = if white {
                            mv.end - 8
                        } else {
                            mv.end + 8
                        };
                        self.take(!white, Piece::Pawn, passed);
                    },
                    _ => {
                        assert(self.squares() =~= old(self).squares().update(mv.end as int, None));
                    },
                }
            },
        }
    }

    /// Carries the piece of the given colour and kind from the origin to the
    /// vacant destination, as the piece that a promotion names, and with the
    /// rook if the move is a castle.
    fn carry(&mut self, white: bool, kind: Piece, mv: Move)
        requires
            old(self).placement_ok(),
            mv.start < 64,
            mv.end < 64,
            kind != Piece::Empty,
            old(self).squares()[mv.start as int] == Some((white, kind)),
            old(self).squares()[mv.end as int] is None,
            mv.context matches MoveContext::Promotion(p) ==> kind == Piece::Pawn
                && p.is_promotion_target(),
            mv.context == MoveContext::KingSideCastle ==> kind == Piece::King && mv.start + 3 < 64
                && mv.end == mv.start + 2 && old(self).squares()[mv.start + 1] is None && old(
                self,
            ).squares()[mv.start + 3] == Some((white, Piece::Rook)),
            mv.context == MoveContext::QueenSideCastle ==> kind == Piece::King && mv.start >= 4
                && mv.end == mv.start - 2 && old(self).squares()[mv.start - 1] is None && old(
                self,
            ).squares()[mv.start - 4] == Some((white, Piece::Rook)),
        ensures
            final(self).placement_ok(),
            final(self).squares() == Board::carried(old(self).squares(), white, kind, mv),
            final(self).white_pieces == old(self).white_pieces,
            final(self).black_pieces == old(self).black_pieces,
            final(self).pieces == old(self).pieces,
            final(self).en_passant_target == old(self).en_passant_target,
            final(self).white_queen_side_castling_right == old(
                self,
            ).white_queen_side_castling_right,
            final(self).white_king_side_castling_right == old(self).white_king_side_castling_right,
            final(self).black_queen_side_castling_right == old(
                self,
            ).black_queen_side_castling_right,
            final(self).black_king_side_castling_right == old(self).black_king_side_castling_right,
            final(self).white_to_play == old(self).white_to_play,
    {
        let from = mv.start;
        let to = mv.end;
        proof {
            assert(old(self).load(from as int) <= 1);
            assert(old(self).squares()[from as int] == old(self).cell(from as int));
        }
        match kind {
            Piece::King => {
                self.set_king(white, to);
                match mv.context {
                    MoveContext::KingSideCastle => {
                        self.take(white, Piece::Rook, from + 3);
                        self.place(white, Piece::Rook, from + 1);
                    },
                    MoveContext::QueenSideCastle => {
                        self.take(white, Piece::Rook, from - 4);
                        self.place(white, Piece::Rook, from - 1);
                    },
                    _ => {},
                }
            },
            Piece::Empty => {},
            _ => {
                self.take(white, kind, from);
                let placed = match mv.context {
                    MoveContext::Promotion(promoted) => promoted,
                    _ => kind,
                };
                self.place(white, placed, to);
            },
        }
        proof {
            assert(self.squares() =~= Board::carried(old(self).squares(), white, kind, mv));
        }
    }

    /// The squares once a piece has been carried from the origin to the destination.
    pub open spec fn carried(
        squares: Seq<Option<(bool, Piece)>>,
        white: bool,
        kind: Piece,
        mv: Move,
    ) -> Seq<Option<(bool, Piece)>> {
        let from = mv.start as int;
        let to = mv.end as int;
        let placed = match mv.context {
            MoveContext::Promotion(p) => p,
            _ => kind,
        };
        let moved = squares.update(from, None).update(to, Some((white, placed)));
        match mv.context {
            MoveContext::KingSideCastle => moved.update(from + 3, None).update(
                from + 1,
                Some((white, Piece::Rook)),
            ),
            MoveContext::QueenSideCastle => moved.update(from - 4, None).update(
                from - 1,
                Some((white, Piece::Rook)),
            ),
            _ => moved,
        }
    }

    /// Whether the board is consistent: no square claimed twice, both kings
    /// on the board, the occupancy masks the unions that they stand for, and
    /// an en-passant target that is a square.
    pub fn is_well_formed(&self) -> (ok: bool)
        ensures
            ok == self.wf(),
    {
        if self.white_king >= 64 || self.black_king >= 64 {
            return false;
        }
        match self.en_passant_target {
            Some(e) => {
                if e >= 64 {
                    return false;
                }
            },
            None => {},
        }
        let wk = square_mask(self.white_king);
        let bk = square_mask(self.black_king);
        let w1 = either(self.white_pawns, self.white_rooks);
        let w2 = either(w1, self.white_knights);
        let w3 = either(w2, self.white_bishops);
        let w4 = either(w3, self.white_queens);
        let white = either(w4, wk);
        let b1 = either(self.black_pawns, self.black_rooks);
        let b2 = either(b1, self.black_knights);
        let b3 = either(b2, self.black_bishops);
        let b4 = either(b3, self.black_queens);
        let black = either(b4, bk);
        let c0 = intersects(self.white_pawns, self.white_rooks);
        let c1 = intersects(w1, self.white_knights);
        let c2 = intersects(w2, self.white_bishops);
        let c3 = intersects(w3, self.white_queens);
        let c4 = intersects(w4, wk);
        let c5 = intersects(self.black_pawns, self.black_rooks);
        let c6 = intersects(b1, self.black_knights);
        let c7 = intersects(b2, self.black_bishops);
        let c8 = intersects(b3, self.black_queens);
        let c9 = intersects(b4, bk);
        let c10 = intersects(white, black);
        let clash = c0 || c1 || c2 || c3 || c4 || c5 || c6 || c7 || c8 || c9 || c10;
        proof {
            if clash {
                let i = if c0 {
                    choose|i: int| #[trigger] bit(self.white_pawns, i) && bit(self.white_rooks, i)
                } else if c1 {
                    choose|i: int| #[trigger] bit(w1, i) && bit(self.white_knights, i)
                } else if c2 {
                    choose|i: int| #[trigger] bit(w2, i) && bit(self.white_bishops, i)
                } else if c3 {
                    choose|i: int| #[trigger] bit(w3, i) && bit(self.white_queens, i)
                } else if c4 {
                    choose|i: int| #[trigger] bit(w4, i) && bit(wk, i)
                } else if c5 {
                    choose|i: int| #[trigger] bit(self.black_pawns, i) && bit(self.black_rooks, i)
                } else if c6 {
                    choose|i: int| #[trigger] bit(b1, i) && bit(self.black_knights, i)
                } else if c7 {
                    choose|i: int| #[trigger] bit(b2, i) && bit(self.black_bishops, i)
                } else if c8 {
                    choose|i: int| #[trigger] bit(b3, i) && bit(self.black_queens, i)
                } else if c9 {
                    choose|i: int| #[trigger] bit(b4, i) && bit(bk, i)
                } else {
                    choose|i: int| #[trigger] bit(white, i) && bit(black, i)
                };
                assert(0 <= i < 64);
                assert(self.load(i) >= 2);
            } else {
                assert forall|i: int| 0 <= i < 64 implies #[trigger] self.load(i) <= 1 by {
                    assert(!(bit(self.white_pawns, i) && bit(self.white_rooks, i)));
                    assert(!(bit(w1, i) && bit(self.white_knights, i)));
                    assert(!(bit(w2, i) && bit(self.white_bishops, i)));
                    assert(!(bit(w3, i) && bit(self.white_queens, i)));
                    assert(!(bit(w4, i) && bit(wk, i)));
                    assert(!(bit(self.black_pawns, i) && bit(self.black_rooks, i)));
                    assert(!(bit(b1, i) && bit(self.black_knights, i)));
                    assert(!(bit(b2, i) && bit(self.black_bishops, i)));
                    assert(!(bit(b3, i) && bit(self.black_queens, i)));
                    assert(!(bit(b4, i) && bit(bk, i)));
                    assert(!(bit(white, i) && bit(black, i)));
                }
            }
        }
        !clash && self.white_pieces == white && self.black_pieces == black && self.pieces == (
        self.white_pieces | self.black_pieces)
    }

    /// Whether the move fits the board: whether `make_move` may be called with it.
    pub fn accepts(&self, mv: &Move) -> (ok: bool)
        requires
            self.wf(),
        ensures
            ok == self@.admits(*mv),
    {
        let white = self.white_to_play;
        let from = mv.start;
        let to = mv.end;
        if from >= 64 || to >= 64 {
            return false;
        }
        proof {
            self.lemma_view_wf();
            self.lemma_cells(from as int);
            self.lemma_cells(to as int);
        }
        let own = self.side_mask(white);
        let other = self.side_mask(!white);
        let mover = get_piece_type_on_square(self, from);
        let target = get_piece_type_on_square(self, to);
        let vacant = !has_bit(own, to) && !has_bit(other, to);
        let capture_fits = match mv.capture {
            Some(c) => !vacant && c == target,
            None => vacant,
        };
        if !has_bit(own, from) || has_bit(own, to) || target == Piece::King || !capture_fits {
            return false;
        }
        let home: usize = if white {
            4
        } else {
            60
        };
        match mv.context {
            MoveContext::Plain => true,
            MoveContext::DoubleStep => mover == Piece::Pawn && vacant && (if white {
                to >= 8
            } else {
                to < 56
            }),
            MoveContext::EnPassant => {
                if mover == Piece::Pawn && vacant && (if white {
                    to >= 8
                } else {
                    to < 56
                }) {
                    let passed = if white {
                        to - 8
                    } else {
                        to + 8
                    };
                    proof {
                        self.lemma_cells(passed as int);
                    }
                    passed != from && has_bit(self.mask_of(!white, Piece::Pawn), passed)
                } else {
                    false
                }
            },
            MoveContext::Promotion(p) => mover == Piece::Pawn && (p == Piece::Knight || p
                == Piece::Bishop || p == Piece::Rook || p == Piece::Queen),
            MoveContext::KingSideCastle => {
                proof {
                    self.lemma_cells(home + 1);
                    self.lemma_cells(home + 2);
                    self.lemma_cells(home + 3);
                }
                mover == Piece::King && from == home && to == home + 2 && get_piece_type_on_square(
                    self,
                    home + 1,
                ) == Piece::Empty && get_piece_type_on_square(self, home + 2) == Piece::Empty
                    && has_bit(self.mask_of(white, Piece::Rook), home + 3)
            },
            MoveContext::QueenSideCastle => {
                proof {
                    self.lemma_cells(home - 1);
                    self.lemma_cells(home - 2);
                    self.lemma_cells(home - 4);
                }
                mover == Piece::King && from == home && to == home - 2 && get_piece_type_on_square(
                    self,
                    home - 1,
                ) == Piece::Empty && get_piece_type_on_square(self, home - 2) == Piece::Empty
                    && has_bit(self.mask_of(white, Piece::Rook), home - 4)
            },
        }
    }

    /// How many pieces of the given colour and kind stand on the board.
    fn count_of(&self, white: bool, kind: Piece) -> (n: i32)
        requires
            self.wf(),
            kind.is_minor(),
        ensures
            n == self@.count(white, kind),
            0 <= n <= 64,
    {
        let mask = self.mask_of(white, kind);
        proof {
            lemma_tally_same(
                |i: int| bit(mask, i),
                |i: int| self@.squares[i] == Some((white, kind)),
                64,
            );
        }
        population(mask) as i32
    }

    /// The material of one side in hundredths of a pawn.
    fn material_of(&self, white: bool) -> (m: i32)
        requires
            self.wf(),
        ensures
            m == self@.material(white),
            0 <= m <= 137_600,
    {
        100 * self.count_of(white, Piece::Pawn) + 320 * self.count_of(white, Piece::Knight) + 330
            * self.count_of(white, Piece::Bishop) + 500 * self.count_of(white, Piece::Rook) + 900
            * self.count_of(white, Piece::Queen)
    }

    /// The static score of the position for the side to move: its material
    /// less the other side's. The same position with the other side to move
    /// scores the opposite, and no score comes near a million.
    pub fn evaluate(&self) -> (score: i32)
        requires
            self.wf(),
        ensures
            score == self@.evaluation(),
            -137_600 <= score <= 137_600,
    {
        self.material_of(self.white_to_play) - self.material_of(!self.white_to_play)
    }

    /// The legal moves of the side to move, each once. The board is used to
    /// try each candidate and is left as it was.
    pub fn get_legal_moves(&mut self) -> (moves: Vec<Move>)
        requires
            old(self).wf(),
        ensures
            *final(self) == *old(self),
            moves@.no_duplicates(),
            forall|mv: Move| #[trigger] moves@.contains(mv) <==> old(self)@.legal(mv),
    {
        get_legal_moves(self)
    }

    /// The kind of the piece on square `sq`, of either colour; `Empty` if the
    /// square holds nothing.
    pub fn piece_at(&self, sq: usize) -> (kind: Piece)
        requires
            self.wf(),
            sq < 64,
        ensures
            kind == self@.kind_at(sq as int),
    {
        get_piece_type_on_square(self, sq)
    }

    /// Applies a move of the side to move. The origin is vacated and the
    /// destination taken, a captured piece leaves the board, an en-passant
    /// capture removes the pawn that was passed, a castle brings the rook
    /// across, a promotion replaces the pawn; rights and en-passant target are
    /// brought up to date, the occupancy masks are worked out again, and the
    /// turn passes to the other side.
    pub fn make_move(&mut self, mv: Move)
        requires
            old(self).wf(),
            old(self)@.admits(mv),
        ensures
            final(self).wf(),
            final(self)@ == old(self)@.after(mv),
    {
        let from = mv.start;
        let to = mv.end;
        let white = self.white_to_play;
        let kind = get_piece_type_on_square(self, from);
        proof {
            old(self).lemma_view_wf();
        }

        self.lift_captured(mv);
        self.carry(white, kind, mv);
        let ghost placed = *self;

        let king_moved = matches!(kind, Piece::King);
        self.white_queen_side_castling_right = self.white_queen_side_castling_right && !(white
            && king_moved) && from != 0 && to != 0;
        self.white_king_side_castling_right = self.white_king_side_castling_right && !(white
            && king_moved) && from != 7 && to != 7;
        self.black_queen_side_castling_right = self.black_queen_side_castling_right && !(!white
            && king_moved) && from != 56 && to != 56;
        self.black_king_side_castling_right = self.black_king_side_castling_right && !(!white
            && king_moved) && from != 63 && to != 63;
        self.en_passant_target = match mv.context {
            MoveContext::DoubleStep => Some(
                if white {
                    to - 8
                } else {
                    to + 8
                },
            ),
            _ => None,
        };
        self.refresh_occupancy();
        self.white_to_play = !white;
        proof {
            self.lemma_same_pieces(&placed);
            assert(self@.squares =~= old(self)@.after(mv).squares);
        }
    }

    /// Puts back on the board what the move captured.
    fn drop_captured(&mut self, white: bool, mv: Move)
        requires
            old(self).placement_ok(),
            mv.end < 64,
            mv.capture matches Some(c) ==> c.is_minor() && old(self).squares()[mv.end as int]
                is None,
            mv.context == MoveContext::EnPassant ==> mv.capture is None && 0 <= behind(
                white,
                mv.end as int,
            ) < 64 && old(self).squares()[behind(white, mv.end as int)] is None,
        ensures
            final(self).placement_ok(),
            final(self).same_frame(old(self)),
            final(self).squares() == (match mv.capture {
                Some(c) => old(self).squares().update(mv.end as int, Some((!white, c))),
                None => if mv.context == MoveContext::EnPassant {
                    old(self).squares().update(
                        behind(white, mv.end as int),
                        Some((!white, Piece::Pawn)),
                    )
                } else {
                    old(self).squares()
                },
            }),
    {
        match mv.capture {
            Some(captured) => {
                self.place(!white, captured, mv.end);
            },
            None => {
                match mv.context {
                    MoveContext::EnPassant => {
                        let passed = if white {
                            mv.end - 8
                        } else {
                            mv.end + 8
                        };
                        self.place(!white, Piece::Pawn, passed);
                    },
                    _ => {},
                }
            },
        }
    }

    /// Carries the piece on the destination back to the origin, as a pawn if
    /// it was promoted, and the rook back to its corner if the move was a castle.
    fn carry_back(&mut self, white: bool, kind: Piece, mv: Move)
        requires
            old(self).placement_ok(),
            mv.start < 64,
            mv.end < 64,
            kind != Piece::Empty,
            old(self).squares()[mv.end as int] == Some((white, kind)),
            old(self).squares()[mv.start as int] is None,
            mv.context is Promotion ==> kind.is_minor(),
            mv.context == MoveContext::KingSideCastle ==> kind == Piece::King && mv.start + 3 < 64
                && mv.end == mv.start + 2 && old(self).squares()[mv.start + 3] is None && old(
                self,
            ).squares()[mv.start + 1] == Some((white, Piece::Rook)),
            mv.context == MoveContext::QueenSideCastle ==> kind == Piece::King && mv.start >= 4
                && mv.end == mv.start - 2 && old(self).squares()[mv.start - 4] is None && old(
                self,
            ).squares()[mv.start - 1] == Some((white, Piece::Rook)),
        ensures
            final(self).placement_ok(),
            final(self).squares() == Board::carried_back(old(self).squares(), white, kind, mv),
    {
        let from = mv.start;
        let to = mv.end;
        proof {
            assert(old(self).load(to as int) <= 1);
            assert(old(self).squares()[to as int] == old(self).cell(to as int));
        }
        match kind {
            Piece::King => {
                self.set_king(white, from);
                match mv.context {
                    MoveContext::KingSideCastle => {
                        self.take(white, Piece::Rook, from + 1);
                        self.place(white, Piece::Rook, from + 3);
                    },
                    MoveContext::QueenSideCastle => {
                        self.take(white, Piece::Rook, from - 1);
                        self.place(white, Piece::Rook, from - 4);
                    },
                    _ => {},
                }
            },
            Piece::Empty => {},
            _ => {
                self.take(white, kind, to);
                let moved = match mv.context {
                    MoveContext::Promotion(_) => Piece::Pawn,
                    _ => kind,
                };
                self.place(white, moved, from);
            },
        }
        proof {
            assert(self.squares() =~= Board::carried_back(old(self).squares(), white, kind, mv));
        }
    }

    /// The squares once the piece on the destination has been carried back to the origin.
    pub open spec fn carried_back(
        squares: Seq<Option<(bool, Piece)>>,
        white: bool,
        kind: Piece,
        mv: Move,
    ) -> Seq<Option<(bool, Piece)>> {
        let from = mv.start as int;
        let to = mv.end as int;
        let moved = match mv.context {
            MoveContext::Promotion(_) => Piece::Pawn,
            _ => kind,
        };
        let back = squares.update(to, None).update(from, Some((white, moved)));
        match mv.context {
            MoveContext::KingSideCastle => back.update(from + 1, None).update(
                from + 3,
                Some((white, Piece::Rook)),
            ),
            MoveContext::QueenSideCastle => back.update(from - 1, None).update(
                from - 4,
                Some((white, Piece::Rook)),
            ),
            _ => back,
        }
    }

    /// Takes back the move that led to this position: the exact mirror of
    /// `make_move`, with the captured piece, the rights and the en-passant
    /// target taken from the move.
    pub fn unmake_move(&mut self, mv: Move)
        requires
            old(self).wf(),
            old(self)@.made_by(mv),
            mv.previous_ep_target matches Some(e) ==> e < 64,
        ensures
            final(self).wf(),
            final(self)@ == old(self)@.before(mv),
            forall|b: Board|
                b.wf() && b@.admits(mv) && b@.remembered_by(mv) && old(self)@ == #[trigger] b@.after(
                    mv,
                ) ==> *final(self) == b,
    {
        let from = mv.start;
        let to = mv.end;
        let white = !self.white_to_play;
        proof {
            old(self).lemma_view_wf();
        }
        let ghost prior = choose|p: Position|
            p.wf() && p.admits(mv) && old(self)@ == #[trigger] p.after(mv);
        proof {
            assert(old(self).squares() == prior.squares_after(mv));
            assert(prior.squares[from as int] matches Some((_, k)) ==> k != Piece::Empty);
            assert(prior.squares[to as int] matches Some((_, k)) ==> k != Piece::Empty);
        }
        let kind = get_piece_type_on_square(self, to);
        self.carry_back(white, kind, mv);
        self.drop_captured(white, mv);
        let ghost placed = *self;

        self.en_passant_target = mv.previous_ep_target;
        self.white_queen_side_castling_right = mv.previous_wqs;
        self.white_king_side_castling_right = mv.previous_wks;
        self.black_queen_side_castling_right = mv.previous_bqs;
        self.black_king_side_castling_right = mv.previous_bks;
        self.refresh_occupancy();
        self.white_to_play = white;
        proof {
            self.lemma_same_pieces(&placed);
            assert(self@.squares =~= old(self)@.before(mv).squares);
            assert forall|b: Board|
                b.wf() && b@.admits(mv) && b@.remembered_by(mv) && old(self)@ == #[trigger] b@.after(
                    mv,
                ) implies *self == b by {
                b.lemma_view_wf();
                lemma_before_after(b@, mv);
                self.lemma_view_settles(&b);
            }
        }
    }

    /// Works the three occupancy masks out again from the masks of the kinds
    /// and the kings' squares.
    pub(crate) fn refresh_occupancy(&mut self)
        requires
            old(self).white_king < 64,
            old(self).black_king < 64,
        ensures
            final(self).occupancy_ok(),
            *final(self) == (Board {
                white_pieces: final(self).white_pieces,
                black_pieces: final(self).black_pieces,
                pieces: final(self).pieces,
                ..*old(self)
            }),
    {
        self.white_pieces = self.white_pawns | self.white_rooks | self.white_knights
            | self.white_bishops | self.white_queens | (1u64 << self.white_king);
        self.black_pieces = self.black_pawns | self.black_rooks | self.black_knights
            | self.black_bishops | self.black_queens | (1u64 << self.black_king);
        self.pieces = self.white_pieces | self.black_pieces;
    }
}

} // verus!
