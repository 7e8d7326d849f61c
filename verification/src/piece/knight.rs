use vstd::prelude::*;
use crate::bits::{bit, Bitboard};
use crate::piece::probe::attacks_by_kind;
use crate::board::Board;
use crate::defines::Piece;
use crate::moves::Move;
use crate::piece::probe::generate_piece_moves;

verus! {

/// The legal moves of the knights of the side to move. Each candidate is
/// tried on the board and taken back, so the board is left as it was.
pub fn generate_knight_moves(board: &mut Board) -> (moves: Vec<Move>)
    requires
        old(board).wf(),
    ensures
        *final(board) == *old(board),
        moves@.no_duplicates(),
        forall|mv: Move| #[trigger]
            moves@.contains(mv) <==> (old(board)@.legal(mv) && old(board)@.kind_at(
                mv.start as int,
            ) == Piece::Knight),
{
    generate_piece_moves(board, Piece::Knight)
}

/// The squares that the knights of the side to move attack, but for the squares
/// that hold one of its own pieces.
pub fn generate_knight_attacks(board: &Board) -> (m: Bitboard)
    requires
        board.wf(),
    ensures
        forall|t: int|
            bit(m, t) == (0 <= t < 64 && board@.reached_by(Piece::Knight, t) && !board@.side_at(
                t,
                board.white_to_play,
            )),
{
    attacks_by_kind(board, Piece::Knight, true)
}

} // verus!
