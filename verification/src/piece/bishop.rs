use vstd::prelude::*;
use crate::bits::Bitboard;
use crate::piece::probe::attacks_by_kind;
use crate::board::Board;
use crate::defines::Piece;
use crate::moves::Move;
use crate::piece::probe::generate_piece_moves;
use crate::bits::{bit, lemma_bit_ops};
use crate::masks::{antidiagonal_mask, diagonal_mask};
use crate::piece::slider::{
    bishop_reach, lemma_slides_is_open_line, slider_attacks_hq, squares_of, Axis,
};

verus! {

/// The squares that a bishop on `sq` reaches, the first occupied square in
/// each direction included, whatever stands there.
pub fn bishop_attacks_hq(sq: usize, occ: u64) -> (r: u64)
    requires
        sq < 64,
    ensures
        forall|t: int| bit(r, t) == bishop_reach(squares_of(occ), sq as int, t),
{
    let m1 = antidiagonal_mask(sq);
    let m2 = diagonal_mask(sq);
    let along_anti = slider_attacks_hq(sq, occ, m1);
    let along_diag = slider_attacks_hq(sq, occ, m2);
    proof {
        assert forall|t: int|
            bit(along_anti | along_diag, t) == bishop_reach(squares_of(occ), sq as int, t) by {
            lemma_bit_ops(along_anti, along_diag, t);
            lemma_slides_is_open_line(occ, m1, Axis::Antidiagonal, sq as int, t);
            lemma_slides_is_open_line(occ, m2, Axis::Diagonal, sq as int, t);
        }
    }
    along_anti | along_diag
}

/// The legal moves of the bishops of the side to move. Each candidate is
/// tried on the board and taken back, so the board is left as it was.
pub fn generate_bishop_moves_hq(board: &mut Board) -> (moves: Vec<Move>)
    requires
        old(board).wf(),
    ensures
        *final(board) == *old(board),
        moves@.no_duplicates(),
        forall|mv: Move| #[trigger]
            moves@.contains(mv) <==> (old(board)@.legal(mv) && old(board)@.kind_at(
                mv.start as int,
            ) == Piece::Bishop),
{
    generate_piece_moves(board, Piece::Bishop)
}

/// The squares that the bishops of the side to move attack, but for the squares
/// that hold one of its own pieces.
pub fn generate_bishops_attacks(board: &Board) -> (m: Bitboard)
    requires
        board.wf(),
    ensures
        forall|t: int|
            bit(m, t) == (0 <= t < 64 && board@.reached_by(Piece::Bishop, t) && !board@.side_at(
                t,
                board.white_to_play,
            )),
{
    attacks_by_kind(board, Piece::Bishop, true)
}

} // verus!
