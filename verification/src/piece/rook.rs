use vstd::prelude::*;
use crate::bits::Bitboard;
use crate::piece::probe::attacks_by_kind;
use crate::board::Board;
use crate::defines::Piece;
use crate::moves::Move;
use crate::piece::probe::generate_piece_moves;
use crate::bits::{bit, lemma_bit_ops};
use crate::masks::{file_mask, rank_mask};
use crate::piece::slider::{
    lemma_slides_is_open_line, rook_reach, slider_attacks_hq, squares_of, Axis,
};

verus! {

/// The squares that a rook on `sq` reaches, the first occupied square in each
/// direction included, whatever stands there.
pub fn rook_attacks_hq(sq: usize, occ: u64) -> (r: u64)
    requires
        sq < 64,
    ensures
        forall|t: int| bit(r, t) == rook_reach(squares_of(occ), sq as int, t),
{
    let rm = rank_mask(sq);
    let fm = file_mask(sq);
    let along_rank = slider_attacks_hq(sq, occ, rm);
    let along_file = slider_attacks_hq(sq, occ, fm);
    proof {
        assert forall|t: int|
            bit(along_rank | along_file, t) == rook_reach(squares_of(occ), sq as int, t) by {
            lemma_bit_ops(along_rank, along_file, t);
            lemma_slides_is_open_line(occ, rm, Axis::Rank, sq as int, t);
            lemma_slides_is_open_line(occ, fm, Axis::File, sq as int, t);
        }
    }
    along_rank | along_file
}

/// The legal moves of the rooks of the side to move. Each candidate is
/// tried on the board and taken back, so the board is left as it was.
pub fn generate_rook_moves_hq(board: &mut Board) -> (moves: Vec<Move>)
    requires
        old(board).wf(),
    ensures
        *final(board) == *old(board),
        moves@.no_duplicates(),
        forall|mv: Move| #[trigger]
            moves@.contains(mv) <==> (old(board)@.legal(mv) && old(board)@.kind_at(
                mv.start as int,
            ) == Piece::Rook),
{
    generate_piece_moves(board, Piece::Rook)
}

/// The squares that the rooks of the side to move attack, squares that hold one
/// of its own pieces included.
pub fn generate_rook_attacks(board: &Board) -> (m: Bitboard)
    requires
        board.wf(),
    ensures
        forall|t: int|
            bit(m, t) == (0 <= t < 64 && board@.reached_by(Piece::Rook, t)),
{
    attacks_by_kind(board, Piece::Rook, false)
}

} // verus!
