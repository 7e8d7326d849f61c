use vstd::prelude::*;
use crate::board::Board;
use crate::defines::Piece;
use crate::moves::{Move, MoveContext};
use crate::position::{lemma_after_wf, lemma_before_after, lemma_evaluation_bounded, Position};

verus! {

/// Making a legal move and taking it back gives the board again, bit for bit:
/// every mask of a kind, the three occupancy masks, both kings' squares, the
/// four rights, the en-passant target and the side to move. `made` stands for
/// the board after `make_move`, `unmade` for the board after `unmake_move`.
pub proof fn law_make_unmake_restores(board: Board, mv: Move, made: Board, unmade: Board)
    requires
        board.wf(),
        board@.legal(mv),
        made.wf(),
        made@ == board@.after(mv),
        unmade.wf(),
        unmade@ == made@.before(mv),
    ensures
        unmade == board,
{
    board.lemma_view_wf();
    lemma_before_after(board@, mv);
    unmade.lemma_view_settles(&board);
}

/// Each side has exactly one king: the square that the board names for it,
/// and no other square holds a king of that colour.
pub proof fn law_one_king_each(board: Board, i: int)
    requires
        board.wf(),
        0 <= i < 64,
    ensures
        (board@.squares[i] == Some((true, Piece::King))) == (i == board.white_king),
        (board@.squares[i] == Some((false, Piece::King))) == (i == board.black_king),
        board.white_king != board.black_king,
{
    board.lemma_cells(i);
    board.lemma_cells(board.white_king as int);
}

/// A consistent board's occupancy masks are the unions that they stand for,
/// whatever sequence of moves made and taken back led to it: each side's is
/// the union of its five masks and its king's square, the global one the
/// union of the two.
pub proof fn law_occupancy_is_union(board: Board)
    requires
        board.wf(),
    ensures
        board.white_pieces == board.white_pawns | board.white_rooks | board.white_knights
            | board.white_bishops | board.white_queens | (1u64 << board.white_king),
        board.black_pieces == board.black_pawns | board.black_rooks | board.black_knights
            | board.black_bishops | board.black_queens | (1u64 << board.black_king),
        board.pieces == board.white_pieces | board.black_pieces,
{
}

/// No legal move leaves the mover's own king attacked once it is made.
pub proof fn law_legal_move_keeps_king_safe(p: Position, mv: Move)
    requires
        p.legal(mv),
    ensures
        !p.after(mv).in_check(p.white_to_play),
{
}

/// The static score is zero-sum and bounded: the same position with the
/// other side to move scores the opposite, and no score comes near the score
/// of a lost or a won game.
pub proof fn law_evaluation_is_zero_sum(p: Position)
    ensures
        (Position { white_to_play: !p.white_to_play, ..p }).evaluation() == -p.evaluation(),
        -137_600 <= p.evaluation() <= 137_600,
{
    let q = Position { white_to_play: !p.white_to_play, ..p };
    assert(q.squares == p.squares);
    lemma_evaluation_bounded(p);
}

/// A legal castle needs more than the right: every square between king and
/// rook is vacant, and the king's square, the square it crosses and the
/// square it lands on are not attacked.
pub proof fn law_castle_is_gated(p: Position, mv: Move)
    requires
        p.legal(mv),
        mv.context == MoveContext::KingSideCastle || mv.context == MoveContext::QueenSideCastle,
    ensures
        mv.context == MoveContext::KingSideCastle ==> {
            &&& p.king_side_right()
            &&& p.vacant(mv.start + 1)
            &&& p.vacant(mv.start + 2)
            &&& !p.attacked(mv.start as int, !p.white_to_play)
            &&& !p.attacked(mv.start + 1, !p.white_to_play)
            &&& !p.attacked(mv.start + 2, !p.white_to_play)
        },
        mv.context == MoveContext::QueenSideCastle ==> {
            &&& p.queen_side_right()
            &&& p.vacant(mv.start - 1)
            &&& p.vacant(mv.start - 2)
            &&& p.vacant(mv.start - 3)
            &&& !p.attacked(mv.start as int, !p.white_to_play)
            &&& !p.attacked(mv.start - 1, !p.white_to_play)
            &&& !p.attacked(mv.start - 2, !p.white_to_play)
        },
{
}

/// A move of the king ends both castling rights of its side, a move from a
/// rook's corner ends the right of that corner, and no later move brings a
/// right back: neither making a later move nor taking it back again. Only
/// taking back the move that ended the right restores it.
pub proof fn law_castling_rights_stay_lost(p: Position, first: Move, later: Move)
    requires
        p.wf(),
        p.admits(first),
        p.remembered_by(first),
        p.after(first).admits(later),
        p.after(first).remembered_by(later),
    ensures
        p.kind_at(first.start as int) == Piece::King && p.white_to_play ==> !p.after(
            first,
        ).white_king_side && !p.after(first).white_queen_side,
        p.kind_at(first.start as int) == Piece::King && !p.white_to_play ==> !p.after(
            first,
        ).black_king_side && !p.after(first).black_queen_side,
        first.start == 0 ==> !p.after(first).white_queen_side,
        first.start == 7 ==> !p.after(first).white_king_side,
        first.start == 56 ==> !p.after(first).black_queen_side,
        first.start == 63 ==> !p.after(first).black_king_side,
        p.after(first).after(later).white_king_side ==> p.after(first).white_king_side,
        p.after(first).after(later).white_queen_side ==> p.after(first).white_queen_side,
        p.after(first).after(later).black_king_side ==> p.after(first).black_king_side,
        p.after(first).after(later).black_queen_side ==> p.after(first).black_queen_side,
        p.after(first).after(later).before(later) == p.after(first),
        p.after(first).before(first) == p,
{
    lemma_after_wf(p, first);
    lemma_before_after(p.after(first), later);
    lemma_before_after(p, first);
}

/// The en-passant target lives for one ply: a move sets it exactly when it is
/// a double step, to the square that the pawn passed, and a legal en-passant
/// capture lands on the target of the position it is made in. So after a
/// move that is no double step, no en-passant capture is legal.
pub proof fn law_en_passant_window(p: Position, previous: Move, mv: Move)
    requires
        p.wf(),
        p.admits(previous),
        p.after(previous).legal(mv),
        mv.context == MoveContext::EnPassant,
    ensures
        previous.context == MoveContext::DoubleStep,
        p.after(previous).en_passant_target == Some(mv.end),
        mv.end == crate::position::behind(p.white_to_play, previous.end as int),
{
}

} // verus!
