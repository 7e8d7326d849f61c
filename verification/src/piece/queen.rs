use vstd::prelude::*;
use crate::bits::Bitboard;
use crate::piece::probe::attacks_by_kind;
use crate::board::Board;
use crate::defines::Piece;
use crate::moves::Move;
use crate::piece::probe::generate_piece_moves;
use crate::bits::{bit, lemma_bit_ops};
use crate::piece::bishop::bishop_attacks_hq;
use crate::piece::rook::rook_attacks_hq;
use crate::piece::slider::{queen_reach, squares_of};

verus! {

/// The squares that a queen on `sq` reaches, the first occupied square in
/// each direction included, whatever stands there.
pub fn queen_attacks_hq(sq: usize, occ: u64) -> (r: u64)
    requires
        sq < 64,
    ensures
        forall|t: int| bit(r, t) == queen_reach(squares_of(occ), sq as int, t),
{
    let straight = rook_attacks_hq(sq, occ);
    let diagonal = bishop_attacks_hq(sq, occ);
    proof {
        assert forall|t: int|
            bit(straight | diagonal, t) == queen_reach(squares_of(occ), sq as int, t) by {
            lemma_bit_ops(straight, diagonal, t);
        }
    }
    straight | diagonal
}

/// The legal moves of the queens of the side to move. Each candidate is
/// tried on the board and taken back, so the board is left as it was.
pub fn generate_queen_moves_hq(board: &mut Board) -> (moves: Vec<Move>)
    requires
        old(board).wf(),
    ensures
        *final(board) == *old(board),
        moves@.no_duplicates(),
        forall|mv: Move| #[trigger]
            moves@.contains(mv) <==> (old(board)@.legal(mv) && old(board)@.kind_at(
                mv.start as int,
            ) == Piece::Queen),
{
    generate_piece_moves(board, Piece::Queen)
}

/// The squares that the queens of the side to move attack, but for the squares
/// that hold one of its own pieces.
pub fn generate_queen_attacks(board: &Board) -> (m: Bitboard)
    requires
        board.wf(),
    ensures
        forall|t: int|
            bit(m, t) == (0 <= t < 64 && board@.reached_by(Piece::Queen, t) && !board@.side_at(
                t,
                board.white_to_play,
            )),
{
    attacks_by_kind(board, Piece::Queen, true)
}

} // verus!
