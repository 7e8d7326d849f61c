use vstd::prelude::*;
use crate::bits::{
    bit, drop_lowest, either, except, lemma_bit_ops, lemma_no_bits, lowest_square, square_mask,
};
use crate::board::Board;
use crate::chess::get_piece_type_on_square;
use crate::defines::Piece;
use crate::moves::{is_king_attacked, Move, MoveContext};
use crate::masks::knight_mask;
use crate::piece::bishop::bishop_attacks_hq;
use crate::piece::queen::queen_attacks_hq;
use crate::piece::rook::rook_attacks_hq;
use crate::piece::slider::squares_of;
use crate::position::{reach_of, Position};

verus! {

/// What a list holds once one more item has been pushed.
pub proof fn lemma_contains_push<T>(s: Seq<T>, x: T, m: T)
    ensures
        s.push(x).contains(m) <==> (s.contains(m) || m == x),
{
    if s.push(x).contains(m) {
        let i = choose|i: int| 0 <= i < s.push(x).len() && s.push(x)[i] == m;
        if i < s.len() {
            assert(s[i] == m);
        }
    }
    if s.contains(m) {
        let i = choose|i: int| 0 <= i < s.len() && s[i] == m;
        assert(s.push(x)[i] == m);
    }
    if m == x {
        assert(s.push(x)[s.len() as int] == m);
    }
}

/// A list without repetitions stays so when an item that it lacks is pushed.
pub proof fn lemma_push_distinct<T>(s: Seq<T>, x: T)
    requires
        s.no_duplicates(),
        !s.contains(x),
    ensures
        s.push(x).no_duplicates(),
{
    assert forall|i: int, j: int|
        0 <= i < s.push(x).len() && 0 <= j < s.push(x).len() && i != j implies s.push(x)[i]
        != s.push(x)[j] by {
        if i < s.len() && j < s.len() {
            assert(s[i] != s[j]);
        } else if i < s.len() {
            assert(s.contains(s[i]));
        } else {
            assert(s.contains(s[j]));
        }
    }
}

/// Two lists without repetitions that share no item join into one without
/// repetitions, which holds what either holds.
pub proof fn lemma_join_distinct<T>(a: Seq<T>, b: Seq<T>)
    requires
        a.no_duplicates(),
        b.no_duplicates(),
        forall|x: T| !(a.contains(x) && #[trigger] b.contains(x)),
    ensures
        (a + b).no_duplicates(),
        forall|x: T| #[trigger] (a + b).contains(x) <==> (a.contains(x) || b.contains(x)),
{
    let c = a + b;
    assert forall|i: int, j: int| 0 <= i < c.len() && 0 <= j < c.len() && i != j implies c[i]
        != c[j] by {
        if i < a.len() && j < a.len() {
            assert(a[i] != a[j]);
        } else if i >= a.len() && j >= a.len() {
            assert(b[i - a.len()] != b[j - a.len()]);
        } else if i < a.len() {
            assert(a.contains(a[i]) && b.contains(b[j - a.len()]));
        } else {
            assert(a.contains(a[j]) && b.contains(b[i - a.len()]));
        }
    }
    assert forall|x: T| #[trigger] c.contains(x) <==> (a.contains(x) || b.contains(x)) by {
        if c.contains(x) {
            let i = choose|i: int| 0 <= i < c.len() && c[i] == x;
            if i < a.len() {
                assert(a[i] == x);
            } else {
                assert(b[i - a.len()] == x);
            }
        }
        if a.contains(x) {
            let i = choose|i: int| 0 <= i < a.len() && a[i] == x;
            assert(c[i] == x);
        }
        if b.contains(x) {
            let i = choose|i: int| 0 <= i < b.len() && b[i] == x;
            assert(c[i + a.len()] == x);
        }
    }
}

/// The move of the given kind from `from` to `to`, with the board's rights and
/// en-passant target and with what stands on `to` as its capture.
pub(crate) fn build_move(board: &Board, from: usize, to: usize, context: MoveContext) -> (mv: Move)
    requires
        board.wf(),
        from < 64,
        to < 64,
    ensures
        mv == board@.move_of(from as int, to as int, context),
{
    proof {
        board.lemma_view_wf();
    }
    let target = get_piece_type_on_square(board, to);
    Move {
        start: from,
        end: to,
        context,
        previous_ep_target: board.en_passant_target,
        previous_wqs: board.white_queen_side_castling_right,
        previous_wks: board.white_king_side_castling_right,
        previous_bqs: board.black_queen_side_castling_right,
        previous_bks: board.black_king_side_castling_right,
        capture: match target {
            Piece::Empty => None,
            _ => Some(target),
        },
    }
}

/// Whether the mover's king is safe once the move is made. The move is made
/// on the board itself and taken back before the answer is given.
pub(crate) fn leaves_king_safe(board: &mut Board, mv: Move) -> (safe: bool)
    requires
        old(board).wf(),
        old(board)@.admits(mv),
        old(board)@.remembered_by(mv),
    ensures
        *final(board) == *old(board),
        safe == !old(board)@.after(mv).in_check(old(board).white_to_play),
{
    proof {
        old(board).lemma_view_wf();
    }
    board.make_move(mv);
    let safe = !is_king_attacked(board, true);
    board.unmake_move(mv);
    safe
}

/// Adds the move to the list if it leaves the mover's king safe.
pub(crate) fn push_if_safe(board: &mut Board, mv: Move, moves: &mut Vec<Move>)
    requires
        old(board).wf(),
        old(board)@.admits(mv),
        old(board)@.remembered_by(mv),
    ensures
        *final(board) == *old(board),
        final(moves)@ == (if old(board)@.after(mv).in_check(old(board).white_to_play) {
            old(moves)@
        } else {
            old(moves)@.push(mv)
        }),
{
    if leaves_king_safe(board, mv) {
        moves.push(mv);
    }
}

/// `mv` is the plain move from `from` to a square of `targets`, and it leaves
/// the mover's king safe.
pub open spec fn plain_candidate(p: Position, from: int, targets: u64, mv: Move) -> bool {
    &&& bit(targets, mv.end as int)
    &&& mv == p.move_of(from, mv.end as int, MoveContext::Plain)
    &&& !p.after(mv).in_check(p.white_to_play)
}

/// Adds to the list, for each square of `targets`, the plain move from `from`
/// to it, unless it leaves the mover's king attacked.
pub(crate) fn push_plain_moves(board: &mut Board, from: usize, targets: u64, moves: &mut Vec<Move>)
    requires
        old(board).wf(),
        from < 64,
        old(board)@.side_at(from as int, old(board).white_to_play),
        forall|t: int| #[trigger]
            bit(targets, t) ==> !old(board)@.side_at(t, old(board).white_to_play) && old(
                board,
            )@.kind_at(t) != Piece::King,
        old(moves)@.no_duplicates(),
        forall|mv: Move|
            plain_candidate(old(board)@, from as int, targets, mv) ==> !#[trigger] old(
                moves,
            )@.contains(mv),
    ensures
        *final(board) == *old(board),
        final(moves)@.no_duplicates(),
        forall|mv: Move| #[trigger]
            final(moves)@.contains(mv) <==> (old(moves)@.contains(mv) || plain_candidate(
                old(board)@,
                from as int,
                targets,
                mv,
            )),
{
    let ghost start = *board;
    let ghost before = moves@;
    let mut t: u64 = targets;
    while t != 0
        invariant
            *board == start,
            start.wf(),
            from < 64,
            start@.side_at(from as int, start.white_to_play),
            forall|i: int| #[trigger]
                bit(targets, i) ==> !start@.side_at(i, start.white_to_play) && start@.kind_at(i)
                    != Piece::King,
            forall|i: int| #[trigger] bit(t, i) ==> bit(targets, i),
            moves@.no_duplicates(),
            forall|mv: Move|
                plain_candidate(start@, from as int, targets, mv) ==> !#[trigger] before.contains(
                    mv,
                ),
            forall|mv: Move| #[trigger]
                moves@.contains(mv) <==> (before.contains(mv) || (plain_candidate(
                    start@,
                    from as int,
                    targets,
                    mv,
                ) && !bit(t, mv.end as int))),
        decreases t,
    {
        let to = lowest_square(t);
        let rest = drop_lowest(t);
        let mv = build_move(board, from, to, MoveContext::Plain);
        let ghost listed = moves@;
        proof {
            assert(bit(targets, to as int));
            assert(rest < t) by {
                crate::bits::lemma_drop_lowest_less(t);
            }
        }
        push_if_safe(board, mv, moves);
        proof {
            if !start@.after(mv).in_check(start.white_to_play) {
                assert(plain_candidate(start@, from as int, targets, mv));
                assert(!before.contains(mv));
                assert(!listed.contains(mv));
                lemma_push_distinct(listed, mv);
            }
            assert forall|m: Move| #[trigger]
                moves@.contains(m) <==> (before.contains(m) || (plain_candidate(
                    start@,
                    from as int,
                    targets,
                    m,
                ) && !bit(rest, m.end as int))) by {
                lemma_contains_push(listed, mv, m);
                assert(listed.contains(m) <==> (before.contains(m) || (plain_candidate(
                    start@,
                    from as int,
                    targets,
                    m,
                ) && !bit(t, m.end as int))));
            }
        }
        t = rest;
    }
    proof {
        crate::bits::lemma_lowest(t);
    }
}

/// The kind is one whose moves are all plain moves to the squares it reaches:
/// knight, bishop, rook or queen.
pub open spec fn is_ranging(kind: Piece) -> bool {
    kind == Piece::Knight || kind == Piece::Bishop || kind == Piece::Rook || kind == Piece::Queen
}

/// The squares that a piece of the given kind on `from` reaches.
pub(crate) fn attacks_of(kind: Piece, from: usize, occ: u64) -> (r: u64)
    requires
        from < 64,
        is_ranging(kind),
    ensures
        forall|t: int| bit(r, t) == (0 <= t < 64 && reach_of(kind, squares_of(occ), from as int, t)),
{
    match kind {
        Piece::Knight => knight_mask(from),
        Piece::Bishop => bishop_attacks_hq(from, occ),
        Piece::Rook => rook_attacks_hq(from, occ),
        _ => queen_attacks_hq(from, occ),
    }
}

/// The squares among `reached` that a piece of the side to move may go to:
/// those that hold no piece of its own side and not the other side's king.
pub(crate) fn open_targets(board: &Board, reached: u64) -> (targets: u64)
    requires
        board.wf(),
    ensures
        forall|t: int|
            bit(targets, t) == (bit(reached, t) && !board@.side_at(t, board.white_to_play)
                && board@.kind_at(t) != Piece::King),
{
    let white = board.white_to_play;
    let friendly = board.side_mask(white);
    let enemy_king = square_mask(board.king_of(!white));
    let targets = reached & !friendly & !enemy_king;
    proof {
        assert forall|t: int|
            bit(targets, t) == (bit(reached, t) && !board@.side_at(t, board.white_to_play)
                && board@.kind_at(t) != Piece::King) by {
            lemma_bit_ops(reached & !friendly, !enemy_king, t);
            lemma_bit_ops(reached, !friendly, t);
            lemma_bit_ops(friendly, friendly, t);
            lemma_bit_ops(enemy_king, enemy_king, t);
        }
    }
    targets
}

/// The legal moves of the pieces of one kind: knights, bishops, rooks or queens.
pub(crate) fn generate_piece_moves(board: &mut Board, kind: Piece) -> (moves: Vec<Move>)
    requires
        old(board).wf(),
        is_ranging(kind),
    ensures
        *final(board) == *old(board),
        moves@.no_duplicates(),
        forall|mv: Move| #[trigger]
            moves@.contains(mv) <==> (old(board)@.legal(mv) && old(board)@.kind_at(
                mv.start as int,
            ) == kind),
{
    let ghost start = *board;
    let mut moves: Vec<Move> = Vec::new();
    let occ = board.pieces;
    let movers = board.mask_of(board.white_to_play, kind);
    let mut bits: u64 = movers;
    proof {
        board.lemma_view_wf();
        board.lemma_view_occupancy();
    }
    while bits != 0
        invariant
            *board == start,
            start.wf(),
            start@.wf(),
            is_ranging(kind),
            occ == start.pieces,
            start@.occupied() == squares_of(occ),
            forall|i: int|
                bit(movers, i) == (0 <= i < 64 && start@.squares[i] == Some(
                    (start.white_to_play, kind),
                )),
            forall|i: int| #[trigger] bit(bits, i) ==> bit(movers, i),
            moves@.no_duplicates(),
            forall|mv: Move| #[trigger]
                moves@.contains(mv) <==> (start@.legal(mv) && start@.kind_at(mv.start as int)
                    == kind && !bit(bits, mv.start as int)),
        decreases bits,
    {
        let from = lowest_square(bits);
        let rest = drop_lowest(bits);
        let reached = attacks_of(kind, from, occ);
        let targets = open_targets(board, reached);
        let ghost listed = moves@;
        proof {
            assert(bit(movers, from as int));
            crate::bits::lemma_drop_lowest_less(bits);
        }
        push_plain_moves(board, from, targets, &mut moves);
        proof {
            assert forall|m: Move| #[trigger]
                moves@.contains(m) <==> (start@.legal(m) && start@.kind_at(m.start as int) == kind
                    && !bit(rest, m.start as int)) by {
                assert(listed.contains(m) <==> (start@.legal(m) && start@.kind_at(m.start as int)
                    == kind && !bit(bits, m.start as int)));
                if start@.legal(m) && start@.kind_at(m.start as int) == kind {
                    assert(bit(movers, m.start as int));
                }
            }
        }
        bits = rest;
    }
    proof {
        crate::bits::lemma_lowest(bits);
    }
    moves
}

/// The squares that the pieces of one kind of the side to move attack:
/// knights, bishops, rooks or queens. With `spare_own`, squares that hold a
/// piece of the side to move are left out.
pub(crate) fn attacks_by_kind(board: &Board, kind: Piece, spare_own: bool) -> (m: u64)
    requires
        board.wf(),
        is_ranging(kind),
    ensures
        forall|t: int|
            bit(m, t) == (0 <= t < 64 && board@.reached_by(kind, t) && !(spare_own
                && board@.side_at(t, board.white_to_play))),
{
    let ghost p = board@;
    let white = board.white_to_play;
    let occ = board.pieces;
    let friendly = board.side_mask(white);
    let movers = board.mask_of(white, kind);
    let mut m: u64 = 0;
    let mut bits: u64 = movers;
    proof {
        board.lemma_view_wf();
        board.lemma_view_occupancy();
        assert forall|t: int| !bit(0u64, t) by {
            lemma_no_bits(t);
        }
    }
    while bits != 0
        invariant
            p == board@,
            board.wf(),
            white == board.white_to_play,
            is_ranging(kind),
            occ == board.pieces,
            p.occupied() == squares_of(occ),
            forall|i: int| bit(friendly, i) == (0 <= i < 64 && p.side_at(i, white)),
            forall|i: int| bit(movers, i) == (0 <= i < 64 && p.squares[i] == Some((white, kind))),
            forall|i: int| #[trigger] bit(bits, i) ==> bit(movers, i),
            forall|t: int|
                bit(m, t) == (0 <= t < 64 && !(spare_own && p.side_at(t, white)) && exists|
                    from: int,
                |
                    bit(movers, from) && !bit(bits, from) && #[trigger] p.piece_attacks(from, t)),
        decreases bits,
    {
        let from = lowest_square(bits);
        let rest = drop_lowest(bits);
        let reached = attacks_of(kind, from, occ);
        let targets = if spare_own {
            except(reached, friendly)
        } else {
            reached
        };
        let merged = either(m, targets);
        proof {
            crate::bits::lemma_drop_lowest_less(bits);
            assert(bit(movers, from as int));
            assert forall|t: int|
                bit(merged, t) == (0 <= t < 64 && !(spare_own && p.side_at(t, white)) && exists|
                    f: int,
                |
                    bit(movers, f) && !bit(rest, f) && #[trigger] p.piece_attacks(f, t)) by {
                if bit(targets, t) {
                    assert(p.piece_attacks(from as int, t));
                }
                if bit(m, t) {
                    let f = choose|f: int|
                        bit(movers, f) && !bit(bits, f) && #[trigger] p.piece_attacks(f, t);
                    assert(bit(movers, f) && !bit(rest, f) && p.piece_attacks(f, t));
                }
                if 0 <= t < 64 && !(spare_own && p.side_at(t, white)) && exists|f: int|
                    bit(movers, f) && !bit(rest, f) && #[trigger] p.piece_attacks(f, t) {
                    let f = choose|f: int|
                        bit(movers, f) && !bit(rest, f) && #[trigger] p.piece_attacks(f, t);
                    if f != from {
                        assert(bit(movers, f) && !bit(bits, f) && p.piece_attacks(f, t));
                    }
                }
            }
        }
        m = merged;
        bits = rest;
    }
    proof {
        crate::bits::lemma_lowest(bits);
        assert forall|t: int|
            bit(m, t) == (0 <= t < 64 && p.reached_by(kind, t) && !(spare_own && p.side_at(
                t,
                white,
            ))) by {
            if bit(m, t) {
                let f = choose|f: int|
                    bit(movers, f) && !bit(bits, f) && #[trigger] p.piece_attacks(f, t);
                assert(0 <= f < 64 && p.squares[f] == Some((white, kind)) && p.piece_attacks(f, t));
            }
            if p.reached_by(kind, t) {
                let f = choose|f: int|
                    0 <= f < 64 && p.squares[f] == Some((white, kind)) && #[trigger] p.piece_attacks(
                        f,
                        t,
                    );
                assert(bit(movers, f) && !bit(bits, f) && p.piece_attacks(f, t));
            }
        }
    }
    m
}

} // verus!
