use vstd::prelude::*;
use crate::bits::{bit, Bitboard};
use crate::bits::has_bit;
use crate::board::Board;
use crate::defines::Piece;
use crate::masks::king_mask;
use crate::moves::{is_square_attacked, Move, MoveContext};
use crate::piece::probe::{
    build_move, lemma_contains_push, lemma_push_distinct, open_targets, plain_candidate, push_if_safe, push_plain_moves,
};

verus! {

/// Whether the side to move may castle on the king's side as far as the
/// position before the move shows: it holds the right, king and rook stand on
/// their home squares, the two squares between them are vacant, and neither
/// the king's square nor the two it moves over is attacked.
fn king_side_castle_open(board: &Board) -> (open: bool)
    requires
        board.wf(),
    ensures
        open == ({
            let p = board@;
            let home = crate::position::king_home(p.white_to_play);
            let mv = p.move_of(home, home + 2, MoveContext::KingSideCastle);
            p.pseudo_legal(mv) && p.castle_path_safe(mv)
        }),
{
    let white = board.white_to_play;
    let home: usize = if white {
        4
    } else {
        60
    };
    let right = if white {
        board.white_king_side_castling_right
    } else {
        board.black_king_side_castling_right
    };
    let king = board.king_of(white);
    let rooks = board.mask_of(white, Piece::Rook);
    proof {
        board.lemma_view_wf();
        board.lemma_view_occupancy();
        board.lemma_occupancy_bits(home + 1);
        board.lemma_occupancy_bits(home + 2);
        board.lemma_cells(home + 1);
        board.lemma_cells(home + 2);
    }
    right && king == home && has_bit(rooks, home + 3) && !has_bit(board.pieces, home + 1)
        && !has_bit(board.pieces, home + 2) && !is_square_attacked(home, board, false)
        && !is_square_attacked(home + 1, board, false) && !is_square_attacked(
        home + 2,
        board,
        false,
    )
}

/// Whether the side to move may castle on the queen's side as far as the
/// position before the move shows: it holds the right, king and rook stand on
/// their home squares, the three squares between them are vacant, and neither
/// the king's square nor the two it moves over is attacked.
fn queen_side_castle_open(board: &Board) -> (open: bool)
    requires
        board.wf(),
    ensures
        open == ({
            let p = board@;
            let home = crate::position::king_home(p.white_to_play);
            let mv = p.move_of(home, home - 2, MoveContext::QueenSideCastle);
            p.pseudo_legal(mv) && p.castle_path_safe(mv)
        }),
{
    let white = board.white_to_play;
    let home: usize = if white {
        4
    } else {
        60
    };
    let right = if white {
        board.white_queen_side_castling_right
    } else {
        board.black_queen_side_castling_right
    };
    let king = board.king_of(white);
    let rooks = board.mask_of(white, Piece::Rook);
    proof {
        board.lemma_view_wf();
        board.lemma_view_occupancy();
        board.lemma_occupancy_bits(home - 1);
        board.lemma_occupancy_bits(home - 2);
        board.lemma_occupancy_bits(home - 3);
        board.lemma_cells(home - 1);
        board.lemma_cells(home - 2);
        board.lemma_cells(home - 3);
    }
    right && king == home && has_bit(rooks, home - 4) && !has_bit(board.pieces, home - 1)
        && !has_bit(board.pieces, home - 2) && !has_bit(board.pieces, home - 3)
        && !is_square_attacked(home, board, false) && !is_square_attacked(home - 1, board, false)
        && !is_square_attacked(home - 2, board, false)
}

/// The legal moves of the king of the side to move: its steps, and the two
/// castles where they are open. Each candidate is tried on the board and taken
/// back, so the board is left as it was.
pub fn generate_king_moves(board: &mut Board) -> (moves: Vec<Move>)
    requires
        old(board).wf(),
    ensures
        *final(board) == *old(board),
        moves@.no_duplicates(),
        forall|mv: Move| #[trigger]
            moves@.contains(mv) <==> (old(board)@.legal(mv) && old(board)@.kind_at(
                mv.start as int,
            ) == Piece::King),
{
    let ghost p = board@;
    let mut moves: Vec<Move> = Vec::new();
    let white = board.white_to_play;
    let from = board.king_of(white);
    let reached = king_mask(from);
    let targets = open_targets(board, reached);
    proof {
        board.lemma_view_wf();
        board.lemma_view_occupancy();
    }
    push_plain_moves(board, from, targets, &mut moves);
    let ghost stepped = moves@;
    let ghost home = crate::position::king_home(white);
    let ghost queen_side = p.move_of(home, home - 2, MoveContext::QueenSideCastle);
    let ghost king_side = p.move_of(home, home + 2, MoveContext::KingSideCastle);

    if queen_side_castle_open(board) {
        let mv = build_move(board, from, from - 2, MoveContext::QueenSideCastle);
        push_if_safe(board, mv, &mut moves);
    }
    let ghost queen_sided = moves@;
    if king_side_castle_open(board) {
        let mv = build_move(board, from, from + 2, MoveContext::KingSideCastle);
        push_if_safe(board, mv, &mut moves);
    }
    proof {
        assert(forall|m: Move| #[trigger]
            stepped.contains(m) <==> plain_candidate(p, from as int, targets, m));
        if queen_sided != stepped {
            assert(!plain_candidate(p, from as int, targets, queen_side));
            lemma_push_distinct(stepped, queen_side);
        }
        if moves@ != queen_sided {
            lemma_contains_push(stepped, queen_side, king_side);
            assert(!plain_candidate(p, from as int, targets, king_side));
            lemma_push_distinct(queen_sided, king_side);
        }
        assert forall|m: Move| #[trigger]
            moves@.contains(m) <==> (p.legal(m) && p.kind_at(m.start as int) == Piece::King) by {
            lemma_contains_push(stepped, queen_side, m);
            lemma_contains_push(queen_sided, king_side, m);
            assert(stepped.contains(m) <==> plain_candidate(p, from as int, targets, m));
            assert(queen_sided.contains(m) <==> (stepped.contains(m) || (m == queen_side
                && p.legal(queen_side))));
            assert(moves@.contains(m) <==> (queen_sided.contains(m) || (m == king_side && p.legal(
                king_side,
            ))));
            if p.legal(m) && p.kind_at(m.start as int) == Piece::King {
                assert(m.start == from);
            }
        }
    }
    moves
}

/// The squares that the king of the side to move attacks, squares that hold
/// one of its own pieces included.
pub fn generate_king_attacks(board: &Board) -> (m: Bitboard)
    requires
        board.wf(),
    ensures
        forall|t: int| bit(m, t) == (0 <= t < 64 && board@.reached_by(Piece::King, t)),
{
    let from = board.king_of(board.white_to_play);
    let m = king_mask(from);
    proof {
        let p = board@;
        assert forall|t: int| bit(m, t) == (0 <= t < 64 && p.reached_by(Piece::King, t)) by {
            if bit(m, t) {
                assert(p.piece_attacks(from as int, t));
            }
        }
    }
    m
}

} // verus!
