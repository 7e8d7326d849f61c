use vstd::prelude::*;
use crate::bits::either;
use crate::masks::pawn_attack;
use crate::bits::{
    bit, common, drop_lowest, except, has_bit, lemma_drop_lowest_less, lemma_lowest, lowest_square,
    shifted, square_mask, Bitboard,
};
use crate::board::Board;
use crate::defines::Piece;
use crate::masks::{file_mask, rank_mask};
use crate::moves::{Move, MoveContext};
use crate::piece::probe::{build_move, lemma_contains_push, lemma_push_distinct, push_if_safe};
use crate::position::{behind, en_passant_rank, forward, last_rank, pawn_home_rank, Position};

verus! {

/// The kind of move that a pawn makes when it arrives on `to` by a shift of
/// the whole pawn set: en passant if the shift was made for that, a double
/// step if it spans two ranks, a promotion to one of the four pieces if `to`
/// lies on the last rank, else a plain move.
pub open spec fn context_fits(white: bool, shift: int, ep: bool, to: int, context: MoveContext) -> bool {
    if ep {
        context == MoveContext::EnPassant
    } else if shift == 16 || shift == -16 {
        context == MoveContext::DoubleStep
    } else if to / 8 == last_rank(white) {
        context matches MoveContext::Promotion(k) && k.is_promotion_target()
    } else {
        context == MoveContext::Plain
    }
}

/// The pawn move that arrives on `to` from `shift` squares below it.
pub open spec fn pawn_move(p: Position, shift: int, to: int, context: MoveContext) -> Move {
    p.move_of(to - shift, to, context)
}

/// `mv` is a pawn move onto a square of `to_bb` from `shift` squares below
/// it, of the kind that fits, and it leaves the mover's king safe.
pub open spec fn pawn_candidate(p: Position, to_bb: u64, shift: int, ep: bool, mv: Move) -> bool {
    &&& bit(to_bb, mv.end as int)
    &&& mv == pawn_move(p, shift, mv.end as int, mv.context)
    &&& context_fits(p.white_to_play, shift, ep, mv.end as int, mv.context)
    &&& !p.after(mv).in_check(p.white_to_play)
}

/// Adds to the list, for each square of `to_bb`, the pawn move that arrives
/// there from `shift` squares below it, four moves where it is a promotion,
/// unless it leaves the mover's king attacked.
pub fn bitboard_to_moves(
    board: &mut Board,
    to_bb: Bitboard,
    shift: isize,
    out: &mut Vec<Move>,
    ep: bool,
)
    requires
        old(board).wf(),
        -16 <= shift <= 16,
        forall|t: int| #[trigger] bit(to_bb, t) ==> 0 <= t - shift < 64,
        forall|t: int, c: MoveContext|
            bit(to_bb, t) && context_fits(old(board).white_to_play, shift as int, ep, t, c)
                ==> old(board)@.admits(#[trigger] pawn_move(old(board)@, shift as int, t, c)),
        old(out)@.no_duplicates(),
        forall|mv: Move|
            pawn_candidate(old(board)@, to_bb, shift as int, ep, mv) ==> !#[trigger] old(
                out,
            )@.contains(mv),
    ensures
        *final(board) == *old(board),
        final(out)@.no_duplicates(),
        forall|mv: Move| #[trigger]
            final(out)@.contains(mv) <==> (old(out)@.contains(mv) || pawn_candidate(
                old(board)@,
                to_bb,
                shift as int,
                ep,
                mv,
            )),
{
    let ghost start = *board;
    let ghost p = board@;
    let ghost before = out@;
    let white = board.white_to_play;
    let last: usize = if white {
        7
    } else {
        0
    };
    let mut bits: u64 = to_bb;
    while bits != 0
        invariant
            *board == start,
            p == start@,
            start.wf(),
            white == start.white_to_play,
            last == last_rank(white),
            -16 <= shift <= 16,
            forall|t: int| #[trigger] bit(to_bb, t) ==> 0 <= t - shift < 64,
            forall|t: int, c: MoveContext|
                bit(to_bb, t) && context_fits(white, shift as int, ep, t, c) ==> p.admits(
                    #[trigger] pawn_move(p, shift as int, t, c),
                ),
            forall|i: int| #[trigger] bit(bits, i) ==> bit(to_bb, i),
            out@.no_duplicates(),
            forall|mv: Move|
                pawn_candidate(p, to_bb, shift as int, ep, mv) ==> !#[trigger] before.contains(mv),
            forall|mv: Move| #[trigger]
                out@.contains(mv) <==> (before.contains(mv) || (pawn_candidate(
                    p,
                    to_bb,
                    shift as int,
                    ep,
                    mv,
                ) && !bit(bits, mv.end as int))),
        decreases bits,
    {
        let to = lowest_square(bits);
        let rest = drop_lowest(bits);
        proof {
            assert(bit(to_bb, to as int));
            lemma_drop_lowest_less(bits);
        }
        let from = ((to as isize) - shift) as usize;
        let ghost listed = out@;
        if ep {
            let mv = build_move(board, from, to, MoveContext::EnPassant);
            proof {
                assert(mv == pawn_move(p, shift as int, to as int, MoveContext::EnPassant));
            }
            push_if_safe(board, mv, out);
            proof {
                if out@ != listed {
                    assert(pawn_candidate(p, to_bb, shift as int, ep, mv));
                    assert(!listed.contains(mv));
                    lemma_push_distinct(listed, mv);
                }
                assert forall|m: Move| #[trigger]
                    out@.contains(m) <==> (before.contains(m) || (pawn_candidate(
                        p,
                        to_bb,
                        shift as int,
                        ep,
                        m,
                    ) && !bit(rest, m.end as int))) by {
                    lemma_contains_push(listed, mv, m);
                    assert(listed.contains(m) <==> (before.contains(m) || (pawn_candidate(
                        p,
                        to_bb,
                        shift as int,
                        ep,
                        m,
                    ) && !bit(bits, m.end as int))));
                }
            }
        } else if shift == 16 || shift == -16 {
            let mv = build_move(board, from, to, MoveContext::DoubleStep);
            proof {
                assert(mv == pawn_move(p, shift as int, to as int, MoveContext::DoubleStep));
            }
            push_if_safe(board, mv, out);
            proof {
                if out@ != listed {
                    assert(pawn_candidate(p, to_bb, shift as int, ep, mv));
                    assert(!listed.contains(mv));
                    lemma_push_distinct(listed, mv);
                }
                assert forall|m: Move| #[trigger]
                    out@.contains(m) <==> (before.contains(m) || (pawn_candidate(
                        p,
                        to_bb,
                        shift as int,
                        ep,
                        m,
                    ) && !bit(rest, m.end as int))) by {
                    lemma_contains_push(listed, mv, m);
                    assert(listed.contains(m) <==> (before.contains(m) || (pawn_candidate(
                        p,
                        to_bb,
                        shift as int,
                        ep,
                        m,
                    ) && !bit(bits, m.end as int))));
                }
            }
        } else if to / 8 == last {
            let to_knight = build_move(board, from, to, MoveContext::Promotion(Piece::Knight));
            let to_bishop = build_move(board, from, to, MoveContext::Promotion(Piece::Bishop));
            let to_rook = build_move(board, from, to, MoveContext::Promotion(Piece::Rook));
            let to_queen = build_move(board, from, to, MoveContext::Promotion(Piece::Queen));
            proof {
                assert(to_knight == pawn_move(
                    p,
                    shift as int,
                    to as int,
                    MoveContext::Promotion(Piece::Knight),
                ));
                assert(to_bishop == pawn_move(
                    p,
                    shift as int,
                    to as int,
                    MoveContext::Promotion(Piece::Bishop),
                ));
                assert(to_rook == pawn_move(
                    p,
                    shift as int,
                    to as int,
                    MoveContext::Promotion(Piece::Rook),
                ));
                assert(to_queen == pawn_move(
                    p,
                    shift as int,
                    to as int,
                    MoveContext::Promotion(Piece::Queen),
                ));
            }
            push_if_safe(board, to_knight, out);
            let ghost first = out@;
            push_if_safe(board, to_bishop, out);
            let ghost second = out@;
            push_if_safe(board, to_rook, out);
            let ghost third = out@;
            push_if_safe(board, to_queen, out);
            proof {
                lemma_contains_push(listed, to_knight, to_bishop);
                lemma_contains_push(listed, to_knight, to_rook);
                lemma_contains_push(listed, to_knight, to_queen);
                lemma_contains_push(first, to_bishop, to_rook);
                lemma_contains_push(first, to_bishop, to_queen);
                lemma_contains_push(second, to_rook, to_queen);
                if first != listed {
                    assert(pawn_candidate(p, to_bb, shift as int, ep, to_knight));
                    assert(!before.contains(to_knight));
                    assert(!listed.contains(to_knight));
                    lemma_push_distinct(listed, to_knight);
                }
                if second != first {
                    assert(pawn_candidate(p, to_bb, shift as int, ep, to_bishop));
                    assert(!before.contains(to_bishop));
                    assert(!listed.contains(to_bishop));
                    lemma_push_distinct(first, to_bishop);
                }
                if third != second {
                    assert(pawn_candidate(p, to_bb, shift as int, ep, to_rook));
                    assert(!before.contains(to_rook));
                    assert(!listed.contains(to_rook));
                    lemma_push_distinct(second, to_rook);
                }
                if out@ != third {
                    assert(pawn_candidate(p, to_bb, shift as int, ep, to_queen));
                    assert(!before.contains(to_queen));
                    assert(!listed.contains(to_queen));
                    lemma_push_distinct(third, to_queen);
                }
                assert forall|m: Move| #[trigger]
                    out@.contains(m) <==> (before.contains(m) || (pawn_candidate(
                        p,
                        to_bb,
                        shift as int,
                        ep,
                        m,
                    ) && !bit(rest, m.end as int))) by {
                    lemma_contains_push(listed, to_knight, m);
                    lemma_contains_push(first, to_bishop, m);
                    lemma_contains_push(second, to_rook, m);
                    lemma_contains_push(third, to_queen, m);
                    assert(listed.contains(m) <==> (before.contains(m) || (pawn_candidate(
                        p,
                        to_bb,
                        shift as int,
                        ep,
                        m,
                    ) && !bit(bits, m.end as int))));
                }
            }
        } else {
            let mv = build_move(board, from, to, MoveContext::Plain);
            proof {
                assert(mv == pawn_move(p, shift as int, to as int, MoveContext::Plain));
            }
            push_if_safe(board, mv, out);
            proof {
                if out@ != listed {
                    assert(pawn_candidate(p, to_bb, shift as int, ep, mv));
                    assert(!listed.contains(mv));
                    lemma_push_distinct(listed, mv);
                }
                assert forall|m: Move| #[trigger]
                    out@.contains(m) <==> (before.contains(m) || (pawn_candidate(
                        p,
                        to_bb,
                        shift as int,
                        ep,
                        m,
                    ) && !bit(rest, m.end as int))) by {
                    lemma_contains_push(listed, mv, m);
                    assert(listed.contains(m) <==> (before.contains(m) || (pawn_candidate(
                        p,
                        to_bb,
                        shift as int,
                        ep,
                        m,
                    ) && !bit(bits, m.end as int))));
                }
            }
        }
        bits = rest;
    }
    proof {
        lemma_lowest(bits);
    }
}

/// The class of a pawn move, in the order in which the moves are generated:
/// single steps, double steps, captures towards the a-file, captures
/// towards the h-file, and the two en-passant captures likewise.
pub open spec fn pawn_class(mv: Move) -> int {
    let from = mv.start as int;
    let to = mv.end as int;
    if mv.context == MoveContext::EnPassant {
        if to % 8 < from % 8 {
            4
        } else {
            5
        }
    } else if mv.context == MoveContext::DoubleStep {
        1
    } else if to % 8 == from % 8 {
        0
    } else if to % 8 < from % 8 {
        2
    } else {
        3
    }
}

/// How far up the numbering a pawn move of the given class goes.
pub open spec fn class_shift(white: bool, class: int) -> int {
    if class == 0 {
        forward(white)
    } else if class == 1 {
        2 * forward(white)
    } else if class == 2 || class == 4 {
        forward(white) - 1
    } else {
        forward(white) + 1
    }
}

/// Square `t` is the destination of a pawn move of the given class, the
/// king's safety left aside.
pub open spec fn is_target(p: Position, class: int, t: int) -> bool {
    let side = p.white_to_play;
    let from = t - class_shift(side, class);
    &&& 0 <= t < 64
    &&& 0 <= from < 64
    &&& p.squares[from] == Some((side, Piece::Pawn))
    &&& if class == 0 {
        p.vacant(t)
    } else if class == 1 {
        p.vacant(t) && p.vacant(t - forward(side)) && from / 8 == pawn_home_rank(side)
    } else if class == 2 {
        from % 8 != 0 && p.side_at(t, !side) && p.kind_at(t) != Piece::King
    } else if class == 3 {
        from % 8 != 7 && p.side_at(t, !side) && p.kind_at(t) != Piece::King
    } else {
        &&& (if class == 4 {
            from % 8 != 0
        } else {
            from % 8 != 7
        })
        &&& from / 8 == en_passant_rank(side)
        &&& p.en_passant_target == Some(t as usize)
        &&& p.vacant(t)
        &&& 0 <= behind(side, t) < 64
        &&& p.squares[behind(side, t)] == Some((!side, Piece::Pawn))
    }
}

/// Every candidate of a class fits the position.
pub proof fn lemma_class_admitted(p: Position, class: int, to_bb: u64, t: int, c: MoveContext)
    requires
        p.wf(),
        0 <= class < 6,
        forall|i: int| bit(to_bb, i) == is_target(p, class, i),
        bit(to_bb, t),
        context_fits(p.white_to_play, class_shift(p.white_to_play, class), class >= 4, t, c),
    ensures
        0 <= t - class_shift(p.white_to_play, class) < 64,
        p.admits(pawn_move(p, class_shift(p.white_to_play, class), t, c)),
{
    assert(is_target(p, class, t));
}

/// The candidates of a class are the legal pawn moves of that class.
pub proof fn lemma_class_complete(p: Position, class: int, to_bb: u64, m: Move)
    requires
        p.wf(),
        0 <= class < 6,
        forall|i: int| bit(to_bb, i) == is_target(p, class, i),
    ensures
        pawn_candidate(p, to_bb, class_shift(p.white_to_play, class), class >= 4, m) <==> (p.legal(
            m,
        ) && p.kind_at(m.start as int) == Piece::Pawn && pawn_class(m) == class),
{
    let side = p.white_to_play;
    let shift = class_shift(side, class);
    assert(bit(to_bb, m.end as int) == is_target(p, class, m.end as int));
    if pawn_candidate(p, to_bb, shift, class >= 4, m) {
        assert(m.start == m.end - shift);
        assert(p.admits(m));
        assert(p.follows_rules(m));
    }
    if p.legal(m) && p.kind_at(m.start as int) == Piece::Pawn && pawn_class(m) == class {
        assert(m.end - m.start == shift);
        assert(is_target(p, class, m.end as int));
    }
}

/// The destinations of the pawn moves of one class, the king's safety left aside.
fn pawn_targets(board: &Board, class: u8) -> (to_bb: u64)
    requires
        board.wf(),
        class < 6,
    ensures
        forall|i: int| bit(to_bb, i) == is_target(board@, class as int, i),
{
    let ghost p = board@;
    let white = board.white_to_play;
    let pawns = board.mask_of(white, Piece::Pawn);
    let occ = board.pieces;
    proof {
        board.lemma_view_wf();
        board.lemma_view_occupancy();
        assert forall|i: int| bit(occ, i) == (0 <= i < 64 && !p.vacant(i)) by {
            assert(p.occupied().contains(i) == bit(occ, i));
        }
    }
    if class == 0 {
        except(shifted(pawns, 8, white), occ)
    } else if class == 1 {
        let home_rank = rank_mask(
            if white {
                8
            } else {
                48
            },
        );
        except(except(shifted(common(pawns, home_rank), 16, white), occ), shifted(occ, 8, white))
    } else {
        let west = class == 2 || class == 4;
        let edge = file_mask(
            if west {
                0
            } else {
                7
            },
        );
        let by: u64 = if white == west {
            7
        } else {
            9
        };
        if class <= 3 {
            let enemy = except(board.side_mask(!white), square_mask(board.king_of(!white)));
            common(shifted(except(pawns, edge), by, white), enemy)
        } else {
            let capture_rank = rank_mask(
                if white {
                    32
                } else {
                    24
                },
            );
            let target: u64 = match board.en_passant_target {
                Some(e) => {
                    if (white && e > 39) || (!white && e < 24) {
                        let passed = if white {
                            e - 8
                        } else {
                            e + 8
                        };
                        if !has_bit(occ, e) && has_bit(board.mask_of(!white, Piece::Pawn), passed) {
                            square_mask(e)
                        } else {
                            0
                        }
                    } else {
                        0
                    }
                },
                None => 0,
            };
            proof {
                lemma_lowest(0u64);
            }
            common(shifted(except(common(pawns, capture_rank), edge), by, white), target)
        }
    }
}

/// Adds to the list the legal pawn moves of one class.
fn add_pawn_class(board: &mut Board, class: u8, moves: &mut Vec<Move>)
    requires
        old(board).wf(),
        class < 6,
        old(moves)@.no_duplicates(),
        forall|mv: Move| #[trigger] old(moves)@.contains(mv) ==> pawn_class(mv) < class,
    ensures
        *final(board) == *old(board),
        final(moves)@.no_duplicates(),
        forall|mv: Move| #[trigger]
            final(moves)@.contains(mv) <==> (old(moves)@.contains(mv) || (old(board)@.legal(mv)
                && old(board)@.kind_at(mv.start as int) == Piece::Pawn && pawn_class(mv)
                == class)),
{
    let ghost p = board@;
    let white = board.white_to_play;
    let to_bb = pawn_targets(board, class);
    let ahead: isize = if white {
        8
    } else {
        -8
    };
    let shift: isize = if class == 0 {
        ahead
    } else if class == 1 {
        2 * ahead
    } else if class == 2 || class == 4 {
        ahead - 1
    } else {
        ahead + 1
    };
    proof {
        board.lemma_view_wf();
        assert forall|t: int| #[trigger] bit(to_bb, t) implies 0 <= t - shift < 64 by {
            assert(is_target(p, class as int, t));
        }
        assert forall|t: int, c: MoveContext|
            bit(to_bb, t) && context_fits(white, shift as int, class >= 4, t, c) implies p.admits(
            #[trigger] pawn_move(p, shift as int, t, c),
        ) by {
            lemma_class_admitted(p, class as int, to_bb, t, c);
        }
        assert forall|mv: Move|
            pawn_candidate(p, to_bb, shift as int, class >= 4, mv) implies !#[trigger] old(
            moves,
        )@.contains(mv) by {
            lemma_class_complete(p, class as int, to_bb, mv);
        }
    }
    bitboard_to_moves(board, to_bb, shift, moves, class >= 4);
    proof {
        assert forall|mv: Move| #[trigger]
            moves@.contains(mv) <==> (old(moves)@.contains(mv) || (p.legal(mv) && p.kind_at(
                mv.start as int,
            ) == Piece::Pawn && pawn_class(mv) == class)) by {
            lemma_class_complete(p, class as int, to_bb, mv);
        }
    }
}

/// The legal moves of the pawns of the side to move: single and double
/// steps, captures, en-passant captures, and promotions to each of the four
/// pieces on the last rank. Each candidate is tried on the board and taken
/// back, so the board is left as it was.
pub fn generate_pawn_moves(board: &mut Board) -> (moves: Vec<Move>)
    requires
        old(board).wf(),
    ensures
        *final(board) == *old(board),
        moves@.no_duplicates(),
        forall|mv: Move| #[trigger]
            moves@.contains(mv) <==> (old(board)@.legal(mv) && old(board)@.kind_at(
                mv.start as int,
            ) == Piece::Pawn),
{
    let mut moves: Vec<Move> = Vec::new();
    add_pawn_class(board, 0, &mut moves);
    add_pawn_class(board, 1, &mut moves);
    add_pawn_class(board, 2, &mut moves);
    add_pawn_class(board, 3, &mut moves);
    add_pawn_class(board, 4, &mut moves);
    add_pawn_class(board, 5, &mut moves);
    moves
}

/// The squares that the pawns of the side to move attack, squares that hold
/// one of its own pieces included; and, where a pawn on the rank for it
/// attacks the en-passant target, the square of the pawn that it would take.
pub fn generate_pawn_attacks(board: &Board) -> (m: Bitboard)
    requires
        board.wf(),
    ensures
        forall|t: int|
            bit(m, t) == (0 <= t < 64 && (board@.reached_by(Piece::Pawn, t)
                || board@.passed_pawn_at(t))),
{
    let ghost p = board@;
    let white = board.white_to_play;
    let pawns = board.mask_of(white, Piece::Pawn);
    let file_a = file_mask(0);
    let file_h = file_mask(7);
    let west_by: u64 = if white {
        7
    } else {
        9
    };
    let east_by: u64 = if white {
        9
    } else {
        7
    };
    let west = shifted(except(pawns, file_a), west_by, white);
    let east = shifted(except(pawns, file_h), east_by, white);
    let diagonals = either(west, east);
    proof {
        board.lemma_view_wf();
        lemma_lowest(0u64);
        assert forall|t: int| bit(diagonals, t) == (0 <= t < 64 && p.reached_by(Piece::Pawn, t)) by {
            let a = if white {
                t - 7
            } else {
                t + 9
            };
            let b = if white {
                t - 9
            } else {
                t + 7
            };
            if bit(west, t) {
                assert(p.piece_attacks(a, t));
            }
            if bit(east, t) {
                assert(p.piece_attacks(b, t));
            }
            if 0 <= t < 64 && p.reached_by(Piece::Pawn, t) {
                let f = choose|f: int|
                    0 <= f < 64 && p.squares[f] == Some((white, Piece::Pawn))
                        && #[trigger] p.piece_attacks(f, t);
                assert(f == a || f == b);
            }
        }
    }
    let passed: u64 = match board.en_passant_target {
        Some(e) => {
            if (white && e > 39) || (!white && e < 24) {
                let target = square_mask(e);
                let capture_rank = rank_mask(
                    if white {
                        32
                    } else {
                        24
                    },
                );
                let capturers = common(pawns, capture_rank);
                let from_west = common(
                    shifted(except(capturers, file_a), west_by, white),
                    target,
                );
                let from_east = common(
                    shifted(except(capturers, file_h), east_by, white),
                    target,
                );
                let behind = shifted(either(from_west, from_east), 8, !white);
                proof {
                    let a = if white {
                        e - 7
                    } else {
                        e + 9
                    };
                    let b = if white {
                        e - 9
                    } else {
                        e + 7
                    };
                    assert forall|t: int| bit(behind, t) == (0 <= t < 64 && p.passed_pawn_at(t)) by {
                        if bit(from_west, e as int) {
                            assert(pawn_attack(white, a, e as int));
                        }
                        if bit(from_east, e as int) {
                            assert(pawn_attack(white, b, e as int));
                        }
                        if p.passed_pawn_at(t) {
                            let f = choose|f: int|
                                0 <= f < 64 && f / 8 == crate::position::en_passant_rank(white)
                                    && p.squares[f] == Some((white, Piece::Pawn))
                                    && #[trigger] pawn_attack(white, f, e as int);
                            assert(f == a || f == b);
                        }
                    }
                }
                behind
            } else {
                proof {
                    assert forall|t: int| !p.passed_pawn_at(t) by {
                        if p.passed_pawn_at(t) {
                            let f = choose|f: int|
                                0 <= f < 64 && f / 8 == crate::position::en_passant_rank(white)
                                    && p.squares[f] == Some((white, Piece::Pawn))
                                    && #[trigger] pawn_attack(white, f, e as int);
                        }
                    }
                }
                0
            }
        },
        None => 0,
    };
    either(diagonals, passed)
}

} // verus!
