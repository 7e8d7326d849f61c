use vstd::prelude::*;
use crate::bits::has_bit;
use crate::board::Board;
use crate::defines::Piece;
use crate::moves::Move;
use crate::position::Position;

verus! {

/// The kind of the piece on square `sq`, of either colour; `Empty` if the
/// square holds nothing.
pub fn get_piece_type_on_square(board: &Board, sq: usize) -> (kind: Piece)
    requires
        board.wf(),
        sq < 64,
    ensures
        kind == board@.kind_at(sq as int),
{
    proof {
        board.lemma_occupancy_bits(sq as int);
        assert(board.load(sq as int) <= 1);
    }
    if has_bit(board.white_pieces, sq) {
        if has_bit(board.white_pawns, sq) {
            Piece::Pawn
        } else if has_bit(board.white_rooks, sq) {
            Piece::Rook
        } else if has_bit(board.white_knights, sq) {
            Piece::Knight
        } else if has_bit(board.white_bishops, sq) {
            Piece::Bishop
        } else if has_bit(board.white_queens, sq) {
            Piece::Queen
        } else {
            Piece::King
        }
    } else if has_bit(board.black_pieces, sq) {
        if has_bit(board.black_pawns, sq) {
            Piece::Pawn
        } else if has_bit(board.black_rooks, sq) {
            Piece::Rook
        } else if has_bit(board.black_knights, sq) {
            Piece::Knight
        } else if has_bit(board.black_bishops, sq) {
            Piece::Bishop
        } else if has_bit(board.black_queens, sq) {
            Piece::Queen
        } else {
            Piece::King
        }
    } else {
        Piece::Empty
    }
}

/// A list of the legal moves of a position, each once.
pub open spec fn lists_once(l: Seq<Move>, p: Position) -> bool {
    l.no_duplicates() && forall|m: Move| #[trigger] l.contains(m) <==> p.legal(m)
}

/// Some list of the legal moves of a position, each once.
pub open spec fn listing(p: Position) -> Seq<Move> {
    choose|l: Seq<Move>| lists_once(l, p)
}

/// The number of sequences of `depth` legal moves that start in `p`.
pub open spec fn line_count(p: Position, depth: nat) -> nat
    decreases depth, 1nat, 0nat,
{
    if depth == 0 {
        1
    } else {
        line_count_over(p, listing(p), depth)
    }
}

/// The number of sequences of `depth` legal moves that start in `p` with one
/// of the moves of `l`.
pub open spec fn line_count_over(p: Position, l: Seq<Move>, depth: nat) -> nat
    decreases depth, 0nat, l.len(),
{
    if depth == 0 || l.len() == 0 {
        0
    } else {
        line_count_over(p, l.drop_last(), depth) + line_count(
            p.after(l.last()),
            (depth - 1) as nat,
        )
    }
}

/// Leaving one move out of a list takes the lines that start with it from the count.
proof fn lemma_count_without(p: Position, l: Seq<Move>, k: int, depth: nat)
    requires
        depth > 0,
        0 <= k < l.len(),
    ensures
        line_count_over(p, l, depth) == line_count_over(p, l.remove(k), depth) + line_count(
            p.after(l[k]),
            (depth - 1) as nat,
        ),
    decreases l.len(),
{
    if k == l.len() - 1 {
        assert(l.remove(k) =~= l.drop_last());
    } else {
        lemma_count_without(p, l.drop_last(), k, depth);
        assert(l.remove(k).drop_last() =~= l.drop_last().remove(k));
        assert(l.remove(k).last() == l.last());
    }
}

/// The count does not depend on the order of the list: two lists that hold
/// the same moves, each once, count the same lines.
pub proof fn lemma_count_any_order(p: Position, a: Seq<Move>, b: Seq<Move>, depth: nat)
    requires
        a.no_duplicates(),
        b.no_duplicates(),
        forall|m: Move| a.contains(m) <==> b.contains(m),
    ensures
        line_count_over(p, a, depth) == line_count_over(p, b, depth),
    decreases a.len(),
{
    if depth > 0 {
        if a.len() == 0 {
            if b.len() > 0 {
                assert(b.contains(b[0]));
                assert(a.contains(b[0]));
            }
        } else {
            let x = a.last();
            assert(a.contains(x));
            assert(b.contains(x));
            let k = choose|k: int| 0 <= k < b.len() && b[k] == x;
            let shorter = a.drop_last();
            let rest = b.remove(k);
            assert forall|m: Move| shorter.contains(m) <==> rest.contains(m) by {
                if shorter.contains(m) {
                    let i = choose|i: int| 0 <= i < shorter.len() && shorter[i] == m;
                    assert(a[i] == m);
                    assert(a.contains(m));
                    assert(m != x);
                    let j = choose|j: int| 0 <= j < b.len() && b[j] == m;
                    if j < k {
                        assert(rest[j] == m);
                    } else {
                        assert(rest[j - 1] == m);
                    }
                }
                if rest.contains(m) {
                    let j = choose|j: int| 0 <= j < rest.len() && rest[j] == m;
                    let orig = if j < k {
                        j
                    } else {
                        j + 1
                    };
                    assert(b[orig] == m);
                    assert(b.contains(m));
                    assert(m != x);
                    let i = choose|i: int| 0 <= i < a.len() && a[i] == m;
                    assert(shorter[i] == m);
                }
            }
            assert(rest.no_duplicates()) by {
                assert forall|i: int, j: int|
                    0 <= i < rest.len() && 0 <= j < rest.len() && i != j implies rest[i]
                    != rest[j] by {
                    let oi = if i < k {
                        i
                    } else {
                        i + 1
                    };
                    let oj = if j < k {
                        j
                    } else {
                        j + 1
                    };
                    assert(b[oi] != b[oj]);
                }
            }
            lemma_count_any_order(p, shorter, rest, depth);
            lemma_count_without(p, b, k, depth);
        }
    }
}

/// The sum of two counts, or the largest number if the sum is larger.
fn add_capped(a: usize, b: usize) -> (sum: usize)
    ensures
        sum == (if a + b > usize::MAX {
            usize::MAX as int
        } else {
            a + b
        }),
{
    if a > usize::MAX - b {
        usize::MAX
    } else {
        a + b
    }
}

/// A count as a machine number: itself, or the largest number if it is larger.
pub open spec fn capped(n: nat) -> usize {
    if n > usize::MAX {
        usize::MAX
    } else {
        n as usize
    }
}

/// The number of sequences of `max_depth` legal moves that start on the
/// board, or the largest machine number if there are more. Every move made
/// on the board is taken back, so the board is left as it was.
pub fn launch_explore(board: &mut Board, max_depth: usize) -> (n: usize)
    requires
        old(board).wf(),
    ensures
        *final(board) == *old(board),
        n == capped(line_count(old(board)@, max_depth as nat)),
    decreases max_depth,
{
    if max_depth == 0 {
        return 1;
    }
    let ghost start = *board;
    let ghost p = board@;
    let ghost depth = max_depth as nat;
    proof {
        board.lemma_view_wf();
    }
    let moves = board.get_legal_moves();
    proof {
        assert forall|j: int| 0 <= j < moves@.len() implies p.legal(#[trigger] moves@[j]) by {
            assert(moves@.contains(moves@[j]));
        }
    }
    let mut n: usize = 0;
    let mut i: usize = 0;
    while i < moves.len()
        invariant
            start == *old(board),
            lists_once(moves@, p),
            *board == start,
            start.wf(),
            p == start@,
            depth == max_depth,
            max_depth > 0,
            i <= moves.len(),
            forall|j: int| 0 <= j < moves@.len() ==> p.legal(#[trigger] moves@[j]),
            n == capped(line_count_over(p, moves@.subrange(0, i as int), depth)),
        decreases moves.len() - i,
    {
        let mv = moves[i];
        board.make_move(mv);
        proof {
            assert(board@ == p.after(mv));
        }
        let m = launch_explore(board, max_depth - 1);
        board.unmake_move(mv);
        proof {
            let longer = moves@.subrange(0, i + 1);
            assert(longer.drop_last() =~= moves@.subrange(0, i as int));
            assert(longer.last() == mv);
        }
        n = add_capped(n, m);
        i += 1;
    }
    proof {
        assert(moves@.subrange(0, i as int) =~= moves@);
        assert(lists_once(moves@, p));
        lemma_count_any_order(p, moves@, listing(p), depth);
    }
    n
}

} // verus!
