use vstd::prelude::*;

verus! {

/// What stands on a square, whatever its colour. `Empty` is the answer for a
/// square that holds nothing; no piece on the board has that kind.
#[derive(Clone, Copy, Debug, PartialEq, Eq, Structural)]
pub enum Piece {
    Empty,
    Pawn,
    Knight,
    Bishop,
    Rook,
    Queen,
    King,
}

impl Piece {
    /// A kind that a bit-mask of the board records: anything but the king and `Empty`.
    pub open spec fn is_minor(self) -> bool {
        self == Piece::Pawn || self == Piece::Knight || self == Piece::Bishop || self
            == Piece::Rook || self == Piece::Queen
    }

    /// A kind that a pawn may turn into on the farthest rank.
    pub open spec fn is_promotion_target(self) -> bool {
        self == Piece::Knight || self == Piece::Bishop || self == Piece::Rook || self
            == Piece::Queen
    }
}

} // verus!
