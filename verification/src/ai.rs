use vstd::prelude::*;
use rand::seq::SliceRandom;
use crate::board::Board;
use crate::moves::{is_king_attacked, Move};
use crate::position::{lemma_capture_shrinks, lemma_evaluation_bounded, Position};

verus! {

/// The score of a lost game, and the widest bound of a search window. No
/// static score comes near it.
pub const INF: i32 = 1_000_000;

/// `v` lies within the scores of a lost and of a won game.
pub open spec fn is_score(v: int) -> bool {
    -INF <= v <= INF
}

/// The side to move has no legal move.
pub open spec fn stuck(p: Position) -> bool {
    forall|m: Move| !p.legal(m)
}

/// The score of a position without a legal move: lost if the king is
/// attacked, drawn if not.
pub open spec fn stuck_value(p: Position) -> int {
    if p.in_check(p.white_to_play) {
        -INF
    } else {
        0
    }
}

/// The score of a position once the captures have been played out: the
/// better of standing pat on the static score and of the best capture, each
/// capture being worth the opposite of what the position after it is worth
/// to the other side. `budget` bounds the length of a line of captures; the
/// number of pieces on the board is always enough.
pub open spec fn quiet_value(p: Position, budget: nat) -> int
    decreases budget,
{
    if budget == 0 {
        p.evaluation()
    } else {
        choose|v: int|
            {
                &&& #[trigger] is_score(v)
                &&& v >= p.evaluation()
                &&& (v == p.evaluation() || exists|m: Move|
                    p.legal(m) && m.capture is Some && v == -quiet_value(
                        p.after(m),
                        (budget - 1) as nat,
                    ))
                &&& forall|m: Move|
                    p.legal(m) && m.capture is Some ==> -quiet_value(
                        p.after(m),
                        (budget - 1) as nat,
                    ) <= v
            }
    }
}

/// What a capture is worth to the side that makes it.
pub open spec fn quiet_reply(p: Position, m: Move, budget: nat) -> int {
    -quiet_value(p.after(m), (budget - 1) as nat)
}

/// `v` is the better of the static score and of the best capture.
pub open spec fn is_best_quiet(p: Position, budget: nat, v: int) -> bool {
    &&& is_score(v)
    &&& v >= p.evaluation()
    &&& (v == p.evaluation() || exists|m: Move|
        p.legal(m) && m.capture is Some && v == quiet_reply(p, m, budget))
    &&& forall|m: Move| p.legal(m) && m.capture is Some ==> quiet_reply(p, m, budget) <= v
}

/// The score of a position at the end of a line of search: the static score,
/// or the score with the captures played out.
pub open spec fn leaf_value(p: Position, quiet: bool) -> int {
    if quiet {
        quiet_value(p, p.piece_count())
    } else {
        p.evaluation()
    }
}

/// The score of a position for the side to move, searched to the given depth:
/// at depth zero the leaf's score; without a legal move, lost or drawn;
/// else the best over the legal moves of the opposite of what the position
/// after the move is worth to the other side, one ply less deep.
pub open spec fn search_value(p: Position, depth: nat, quiet: bool) -> int
    decreases depth,
{
    if depth == 0 {
        leaf_value(p, quiet)
    } else if stuck(p) {
        stuck_value(p)
    } else {
        choose|v: int|
            {
                &&& #[trigger] is_score(v)
                &&& exists|m: Move|
                    p.legal(m) && v == -search_value(p.after(m), (depth - 1) as nat, quiet)
                &&& forall|m: Move|
                    p.legal(m) ==> -search_value(p.after(m), (depth - 1) as nat, quiet) <= v
            }
    }
}

/// The score that plain negamax gives: `search_value` with static leaves.
pub open spec fn negamax_value(p: Position, depth: nat) -> int {
    search_value(p, depth, false)
}

/// What a move is worth to the side that makes it, in a search of the given depth.
pub open spec fn reply_value(p: Position, m: Move, depth: nat, quiet: bool) -> int {
    -search_value(p.after(m), (depth - 1) as nat, quiet)
}

/// `v` is what the best legal move is worth.
pub open spec fn is_best_reply(p: Position, depth: nat, quiet: bool, v: int) -> bool {
    &&& is_score(v)
    &&& exists|m: Move| p.legal(m) && v == reply_value(p, m, depth, quiet)
    &&& forall|m: Move| p.legal(m) ==> reply_value(p, m, depth, quiet) <= v
}

/// Among integers that stay within two bounds, a property that some integer
/// has is had by a greatest one.
proof fn lemma_greatest(has: spec_fn(int) -> bool, lo: int, hi: int)
    requires
        exists|v: int| #[trigger] has(v),
        forall|v: int| #[trigger] has(v) ==> lo <= v <= hi,
    ensures
        exists|g: int| #[trigger] has(g) && forall|v: int| #[trigger] has(v) ==> v <= g,
    decreases hi - lo,
{
    let w = choose|v: int| #[trigger] has(v);
    assert(lo <= w <= hi);
    if has(hi) {
        assert(has(hi) && forall|v: int| #[trigger] has(v) ==> v <= hi);
    } else {
        assert forall|v: int| #[trigger] has(v) implies lo <= v <= hi - 1 by {
            assert(lo <= v <= hi);
        }
        lemma_greatest(has, lo, hi - 1);
    }
}

/// The score with the captures played out is the better of the static score
/// and of the best capture, and lies within the bounds of a lost and a won game.
pub proof fn lemma_quiet_value(p: Position, budget: nat)
    ensures
        -INF <= quiet_value(p, budget) <= INF,
        budget > 0 ==> is_best_quiet(p, budget, quiet_value(p, budget)),
    decreases budget,
{
    lemma_evaluation_bounded(p);
    if budget > 0 {
        let stand = p.evaluation();
        let has = |v: int|
            v == stand || exists|m: Move|
                p.legal(m) && m.capture is Some && v == quiet_reply(p, m, budget);
        assert(has(stand));
        assert forall|v: int| #[trigger] has(v) implies -INF <= v <= INF by {
            if v != stand {
                let m = choose|m: Move|
                    p.legal(m) && m.capture is Some && v == quiet_reply(p, m, budget);
                lemma_quiet_value(p.after(m), (budget - 1) as nat);
            }
        }
        lemma_greatest(has, -INF as int, INF as int);
        let g = choose|g: int| #[trigger] has(g) && forall|v: int| #[trigger] has(v) ==> v <= g;
        assert(is_best_quiet(p, budget, g)) by {
            assert(has(stand));
            assert forall|m: Move| p.legal(m) && m.capture is Some implies quiet_reply(
                p,
                m,
                budget,
            ) <= g by {
                assert(has(quiet_reply(p, m, budget)));
            }
        }
        let v = quiet_value(p, budget);
        assert(is_best_quiet(p, budget, v));
        assert(has(v));
    }
}

/// The score of a search lies within the bounds of a lost and a won game,
/// and where the side to move has a legal move it is what the best one is worth.
pub proof fn lemma_search_value(p: Position, depth: nat, quiet: bool)
    ensures
        -INF <= search_value(p, depth, quiet) <= INF,
        depth > 0 && !stuck(p) ==> is_best_reply(p, depth, quiet, search_value(p, depth, quiet)),
    decreases depth,
{
    lemma_evaluation_bounded(p);
    lemma_quiet_value(p, p.piece_count());
    if depth > 0 && !stuck(p) {
        let has = |v: int| exists|m: Move| p.legal(m) && v == reply_value(p, m, depth, quiet);
        let some = choose|m: Move| p.legal(m);
        assert(has(reply_value(p, some, depth, quiet)));
        assert forall|v: int| #[trigger] has(v) implies -INF <= v <= INF by {
            let m = choose|m: Move| p.legal(m) && v == reply_value(p, m, depth, quiet);
            lemma_search_value(p.after(m), (depth - 1) as nat, quiet);
        }
        lemma_greatest(has, -INF as int, INF as int);
        let g = choose|g: int| #[trigger] has(g) && forall|v: int| #[trigger] has(v) ==> v <= g;
        assert(is_best_reply(p, depth, quiet, g)) by {
            assert forall|m: Move| p.legal(m) implies reply_value(p, m, depth, quiet) <= g by {
                assert(has(reply_value(p, m, depth, quiet)));
            }
        }
        let v = search_value(p, depth, quiet);
        assert(is_best_reply(p, depth, quiet, v));
    }
}

/// The best reply's worth is one number: whatever is it, is the search's score.
pub proof fn lemma_best_reply_is_value(p: Position, depth: nat, quiet: bool, v: int)
    requires
        depth > 0,
        is_best_reply(p, depth, quiet, v),
    ensures
        search_value(p, depth, quiet) == v,
{
    let m = choose|m: Move| p.legal(m) && v == reply_value(p, m, depth, quiet);
    assert(!stuck(p));
    lemma_search_value(p, depth, quiet);
    let w = search_value(p, depth, quiet);
    let n = choose|n: Move| p.legal(n) && w == reply_value(p, n, depth, quiet);
    assert(reply_value(p, m, depth, quiet) <= w);
    assert(reply_value(p, n, depth, quiet) <= v);
}

/// The better of standing pat and the best capture is one number.
pub proof fn lemma_best_quiet_is_value(p: Position, budget: nat, v: int)
    requires
        budget > 0,
        is_best_quiet(p, budget, v),
    ensures
        quiet_value(p, budget) == v,
{
    lemma_quiet_value(p, budget);
    let w = quiet_value(p, budget);
    if w != p.evaluation() {
        let n = choose|n: Move| p.legal(n) && n.capture is Some && w == quiet_reply(p, n, budget);
        assert(quiet_reply(p, n, budget) <= v);
    }
    if v != p.evaluation() {
        let m = choose|m: Move| p.legal(m) && m.capture is Some && v == quiet_reply(p, m, budget);
        assert(quiet_reply(p, m, budget) <= w);
    }
}

/// What a search within the window from `alpha` to `beta` tells of the true
/// score `truth` when it returns `score`: at or below `alpha` the truth is no
/// higher than the score, at or above `beta` it is no lower, and strictly
/// inside the window the score is the truth.
pub open spec fn within_window(score: int, alpha: int, beta: int, truth: int) -> bool {
    &&& score <= alpha ==> truth <= score
    &&& score >= beta ==> truth >= score
    &&& alpha < score < beta ==> truth == score
}

/// The list holds exactly the legal moves of the position.
#[verifier::opaque]
pub open spec fn lists_legal(moves: Seq<Move>, p: Position) -> bool {
    forall|m: Move| #[trigger] moves.contains(m) <==> p.legal(m)
}

/// Plain negamax to the given depth: the exact score of the position for the
/// side to move, and a move that earns it where there is one. Every move made
/// on the board is taken back, so the board is left as it was.
pub fn negamax(board: &mut Board, depth: u8) -> (r: (i32, Option<Move>))
    requires
        old(board).wf(),
    ensures
        *final(board) == *old(board),
        r.0 == negamax_value(old(board)@, depth as nat),
        -INF <= r.0 <= INF,
        r.1 is Some <==> (depth > 0 && !stuck(old(board)@)),
        r.1 matches Some(m) ==> old(board)@.legal(m) && r.0 == reply_value(
            old(board)@,
            m,
            depth as nat,
            false,
        ),
    decreases depth,
{
    let ghost start = *board;
    let ghost p = board@;
    proof {
        board.lemma_view_wf();
        lemma_search_value(p, depth as nat, false);
    }
    if depth == 0 {
        return (board.evaluate(), None);
    }
    let moves = board.get_legal_moves();
    if moves.len() == 0 {
        proof {
            assert forall|m: Move| !p.legal(m) by {
                assert(!moves@.contains(m));
            }
        }
        if is_king_attacked(board, false) {
            return (-INF, None);
        }
        return (0, None);
    }
    let mut max: i32 = -INF;
    let mut best: Option<Move> = None;
    let mut i: usize = 0;
    while i < moves.len()
        invariant
            *board == start,
            start.wf(),
            p == start@,
            p.wf(),
            depth > 0,
            i <= moves.len(),
            forall|m: Move| #[trigger] moves@.contains(m) <==> p.legal(m),
            -INF <= max <= INF,
            forall|j: int|
                0 <= j < i ==> reply_value(p, #[trigger] moves@[j], depth as nat, false) <= max,
            i == 0 ==> best is None,
            i > 0 ==> (best matches Some(m) && p.legal(m) && reply_value(p, m, depth as nat, false)
                == max),
        decreases moves.len() - i,
    {
        let mv = moves[i];
        proof {
            assert(moves@.contains(mv));
        }
        board.make_move(mv);
        let (child, _) = negamax(board, depth - 1);
        let score = -child;
        proof {
            assert(board@ == p.after(mv));
        }
        board.unmake_move(mv);
        if score > max || best.is_none() {
            max = score;
            best = Some(mv);
        }
        i += 1;
    }
    proof {
        assert(is_score(max as int));
        assert forall|m: Move| p.legal(m) implies reply_value(p, m, depth as nat, false)
            <= max by {
            assert(moves@.contains(m));
            let j = choose|j: int| 0 <= j < moves@.len() && moves@[j] == m;
            assert(reply_value(p, moves@[j], depth as nat, false) <= max);
        }
        lemma_best_reply_is_value(p, depth as nat, false, max as int);
    }
    (max, best)
}

/// `rand::seq::SliceRandom::shuffle`, with the generator of the current
/// thread from `rand::rng`, rearranges the list in place: afterwards it holds
/// the same moves, each as often as before, in an order that is left open.
#[verifier::external_body]
fn shuffle_moves(moves: &mut Vec<Move>)
    ensures
        final(moves)@.to_multiset() == old(moves)@.to_multiset(),
{
    moves.shuffle(&mut rand::rng());
}

/// What a capture is worth within the window from `alpha` to `beta`: the
/// move is made, the position after it is searched from the other side with
/// the window turned round, and the move is taken back.
fn try_capture(board: &mut Board, mv: Move, alpha: i32, beta: i32) -> (score: i32)
    requires
        old(board).wf(),
        old(board)@.legal(mv),
        mv.capture is Some,
        -INF <= alpha < beta <= INF,
    ensures
        *final(board) == *old(board),
        -INF <= score <= INF,
        within_window(
            score as int,
            alpha as int,
            beta as int,
            quiet_reply(old(board)@, mv, old(board)@.piece_count()),
        ),
    decreases old(board)@.piece_count(), 0nat,
{
    let ghost p = board@;
    proof {
        board.lemma_view_wf();
        lemma_capture_shrinks(p, mv);
    }
    board.make_move(mv);
    proof {
        assert(board@ == p.after(mv));
    }
    let child = quiesce(board, -beta, -alpha);
    board.unmake_move(mv);
    -child
}

/// The score with the captures played out, searched within a window: only
/// moves that capture are tried, standing pat is always an option, and a
/// capture that reaches `beta` ends the search. Every move made on the board
/// is taken back, so the board is left as it was.
pub fn quiesce(board: &mut Board, alpha: i32, beta: i32) -> (score: i32)
    requires
        old(board).wf(),
        -INF <= alpha < beta <= INF,
    ensures
        *final(board) == *old(board),
        -INF <= score <= INF,
        within_window(
            score as int,
            alpha as int,
            beta as int,
            quiet_value(old(board)@, old(board)@.piece_count()),
        ),
    decreases old(board)@.piece_count(), 1nat,
{
    let ghost start = *board;
    let ghost p = board@;
    let ghost budget = p.piece_count();
    proof {
        board.lemma_view_wf();
        lemma_quiet_value(p, budget);
    }
    let stand = board.evaluate();
    let mut best_value: i32 = stand;
    if best_value >= beta {
        return best_value;
    }
    let mut a: i32 = alpha;
    if best_value > a {
        a = best_value;
    }
    let moves = board.get_legal_moves();
    let ghost truth = quiet_value(p, budget);
    proof {
        reveal(lists_legal);
        assert(lists_legal(moves@, p));
        assert forall|j: int| 0 <= j < moves@.len() implies p.legal(#[trigger] moves@[j]) by {
            assert(moves@.contains(moves@[j]));
        }
        assert forall|j: int|
            0 <= j < moves@.len() && (#[trigger] moves@[j]).capture is Some implies quiet_reply(
            p,
            moves@[j],
            budget,
        ) <= truth by {
            lemma_capture_shrinks(p, moves@[j]);
        }
    }
    let mut i: usize = 0;
    while i < moves.len()
        invariant
            start == *old(board),
            *board == start,
            start.wf(),
            p == start@,
            budget == p.piece_count(),
            truth == quiet_value(p, budget),
            i <= moves.len(),
            lists_legal(moves@, p),
            forall|j: int| 0 <= j < moves@.len() ==> p.legal(#[trigger] moves@[j]),
            forall|j: int|
                0 <= j < moves@.len() && (#[trigger] moves@[j]).capture is Some ==> quiet_reply(
                    p,
                    moves@[j],
                    budget,
                ) <= truth,
            -INF <= alpha <= a < beta <= INF,
            stand == p.evaluation(),
            stand <= best_value < beta,
            -INF <= best_value,
            a == (if best_value > alpha {
                best_value
            } else {
                alpha
            }),
            forall|j: int|
                0 <= j < i && (#[trigger] moves@[j]).capture is Some ==> quiet_reply(
                    p,
                    moves@[j],
                    budget,
                ) <= best_value,
            best_value > alpha ==> (best_value == stand || exists|j: int|
                0 <= j < i && (#[trigger] moves@[j]).capture is Some && best_value == quiet_reply(
                    p,
                    moves@[j],
                    budget,
                )),
        decreases moves.len() - i,
    {
        let mv = moves[i];
        if mv.capture.is_none() {
            i += 1;
            continue ;
        }
        let score = try_capture(board, mv, a, beta);
        if score >= beta {
            return score;
        }
        if score > best_value {
            best_value = score;
        }
        if score > a {
            a = score;
        }
        i += 1;
    }
    proof {
        reveal(lists_legal);
        lemma_quiet_value(p, budget);
        if budget == 0 {
            assert forall|j: int| 0 <= j < moves@.len() implies (#[trigger] moves@[j]).capture
                is None by {
                if moves@[j].capture is Some {
                    lemma_capture_shrinks(p, moves@[j]);
                }
            }
        } else {
            assert forall|m: Move| p.legal(m) && m.capture is Some implies quiet_reply(
                p,
                m,
                budget,
            ) <= best_value by {
                assert(moves@.contains(m));
                let j = choose|j: int| 0 <= j < moves@.len() && moves@[j] == m;
                assert(quiet_reply(p, moves@[j], budget) <= best_value);
            }
            if best_value > alpha {
                assert(is_score(best_value as int));
                lemma_best_quiet_is_value(p, budget, best_value as int);
            }
        }
    }
    best_value
}

/// What a move is worth within the window from `alpha` to `beta`: the move is
/// made, the position after it is searched from the other side one ply less
/// deep with the window turned round, and the move is taken back.
fn try_move(board: &mut Board, mv: Move, alpha: i32, beta: i32, depth: u8, quiet: bool) -> (score:
    i32)
    requires
        old(board).wf(),
        old(board)@.legal(mv),
        depth > 0,
        -INF <= alpha < beta <= INF,
    ensures
        *final(board) == *old(board),
        -INF <= score <= INF,
        within_window(
            score as int,
            alpha as int,
            beta as int,
            reply_value(old(board)@, mv, depth as nat, quiet),
        ),
    decreases depth, 0nat,
{
    let ghost p = board@;
    proof {
        board.lemma_view_wf();
    }
    board.make_move(mv);
    proof {
        assert(board@ == p.after(mv));
    }
    let (child, _) = alpha_beta_search(board, -beta, -alpha, depth - 1, quiet);
    board.unmake_move(mv);
    -child
}

/// Negamax within a window from `alpha` to `beta`, the moves tried in a
/// shuffled order: a move that reaches `beta` ends the search of its
/// position, and each move found better than `alpha` narrows the window for
/// the moves after it. With `quiet`, the leaves play out the captures.
fn alpha_beta_search(board: &mut Board, alpha: i32, beta: i32, depth: u8, quiet: bool) -> (r: (
    i32,
    Option<Move>,
))
    requires
        old(board).wf(),
        -INF <= alpha < beta <= INF,
    ensures
        *final(board) == *old(board),
        -INF <= r.0 <= INF,
        within_window(
            r.0 as int,
            alpha as int,
            beta as int,
            search_value(old(board)@, depth as nat, quiet),
        ),
        r.1 is Some <==> (depth > 0 && !stuck(old(board)@)),
        r.1 matches Some(m) ==> old(board)@.legal(m) && within_window(
            r.0 as int,
            alpha as int,
            beta as int,
            reply_value(old(board)@, m, depth as nat, quiet),
        ),
    decreases depth, 1nat,
{
    let ghost start = *board;
    let ghost p = board@;
    proof {
        board.lemma_view_wf();
        lemma_search_value(p, depth as nat, quiet);
    }
    if depth == 0 {
        let score = if quiet {
            quiesce(board, alpha, beta)
        } else {
            board.evaluate()
        };
        return (score, None);
    }
    let mut moves = board.get_legal_moves();
    let ghost listed = moves@;
    shuffle_moves(&mut moves);
    proof {
        listed.to_multiset_ensures();
        moves@.to_multiset_ensures();
        assert forall|m: Move| #[trigger] moves@.contains(m) <==> p.legal(m) by {
            assert(listed.contains(m) <==> listed.to_multiset().count(m) > 0);
            assert(moves@.contains(m) <==> moves@.to_multiset().count(m) > 0);
        }
    }
    if moves.len() == 0 {
        proof {
            assert forall|m: Move| !p.legal(m) by {
                assert(!moves@.contains(m));
            }
        }
        if is_king_attacked(board, false) {
            return (-INF, None);
        }
        return (0, None);
    }
    let ghost truth = search_value(p, depth as nat, quiet);
    proof {
        assert(moves@.contains(moves@[0]));
        assert(p.legal(moves@[0]));
        lemma_search_value(p, depth as nat, quiet);
        reveal(lists_legal);
        assert(lists_legal(moves@, p));
        assert forall|j: int| 0 <= j < moves@.len() implies p.legal(#[trigger] moves@[j])
            && reply_value(p, moves@[j], depth as nat, quiet) <= truth by {
            assert(moves@.contains(moves@[j]));
        }
    }
    let mut a: i32 = alpha;
    let mut max: i32 = -INF;
    let mut best: Option<Move> = None;
    let mut i: usize = 0;
    while i < moves.len()
        invariant
            start == *old(board),
            *board == start,
            start.wf(),
            p == start@,
            depth > 0,
            truth == search_value(p, depth as nat, quiet),
            i <= moves.len(),
            moves.len() > 0,
            lists_legal(moves@, p),
            forall|j: int|
                0 <= j < moves@.len() ==> p.legal(#[trigger] moves@[j]) && reply_value(
                    p,
                    moves@[j],
                    depth as nat,
                    quiet,
                ) <= truth,
            -INF <= alpha <= a < beta <= INF,
            -INF <= max < beta,
            a == (if max > alpha {
                max
            } else {
                alpha
            }),
            forall|j: int|
                0 <= j < i ==> reply_value(p, #[trigger] moves@[j], depth as nat, quiet) <= max,
            i == 0 ==> best is None && max == -INF,
            i > 0 ==> (exists|j: int|
                0 <= j < i && best == Some(#[trigger] moves@[j]) && reply_value(
                    p,
                    moves@[j],
                    depth as nat,
                    quiet,
                ) <= max && (max > alpha ==> reply_value(p, moves@[j], depth as nat, quiet)
                    == max)),
        decreases moves.len() - i,
    {
        let mv = moves[i];
        let score = try_move(board, mv, a, beta, depth, quiet);
        if score > max || best.is_none() {
            max = score;
            best = Some(mv);
            if score > a {
                a = score;
            }
        }
        if score >= beta {
            proof {
                assert(!stuck(p));
            }
            return (max, best);
        }
        i += 1;
    }
    proof {
        reveal(lists_legal);
        assert(!stuck(p));
        lemma_search_value(p, depth as nat, quiet);
        assert forall|m: Move| p.legal(m) implies reply_value(p, m, depth as nat, quiet)
            <= max by {
            assert(moves@.contains(m));
            let j = choose|j: int| 0 <= j < moves@.len() && moves@[j] == m;
            assert(reply_value(p, moves@[j], depth as nat, quiet) <= max);
        }
        if max > alpha {
            assert(is_score(max as int));
            lemma_best_reply_is_value(p, depth as nat, quiet, max as int);
        }
    }
    (max, best)
}

/// Alpha-beta search to the given depth over the full window. Pruning
/// changes which moves are looked at, never the score: it is the score of
/// plain negamax, and the move returned earns it.
pub fn launch_alpha_beta(board: &mut Board, depth: u8) -> (r: (i32, Option<Move>))
    requires
        old(board).wf(),
    ensures
        *final(board) == *old(board),
        r.0 == negamax_value(old(board)@, depth as nat),
        -INF <= r.0 <= INF,
        r.1 is Some <==> (depth > 0 && !stuck(old(board)@)),
        r.1 matches Some(m) ==> old(board)@.legal(m) && r.0 == reply_value(
            old(board)@,
            m,
            depth as nat,
            false,
        ),
{
    proof {
        lemma_search_value(board@, depth as nat, false);
        if depth > 0 {
            assert forall|m: Move|
                -INF <= #[trigger] reply_value(board@, m, depth as nat, false) <= INF by {
                lemma_search_value(board@.after(m), (depth - 1) as nat, false);
            }
        }
    }
    alpha_beta_search(board, -INF, INF, depth, false)
}

/// Alpha-beta search to the given depth over the full window, with the
/// captures played out at the leaves: the score of `search_value` with quiet
/// leaves, and a move that earns it.
pub fn launch_alpha_beta_quiesce(board: &mut Board, depth: u8) -> (r: (i32, Option<Move>))
    requires
        old(board).wf(),
    ensures
        *final(board) == *old(board),
        r.0 == search_value(old(board)@, depth as nat, true),
        -INF <= r.0 <= INF,
        r.1 is Some <==> (depth > 0 && !stuck(old(board)@)),
        r.1 matches Some(m) ==> old(board)@.legal(m) && r.0 == reply_value(
            old(board)@,
            m,
            depth as nat,
            true,
        ),
{
    proof {
        lemma_search_value(board@, depth as nat, true);
        if depth > 0 {
            assert forall|m: Move|
                -INF <= #[trigger] reply_value(board@, m, depth as nat, true) <= INF by {
                lemma_search_value(board@.after(m), (depth - 1) as nat, true);
            }
        }
    }
    alpha_beta_search(board, -INF, INF, depth, true)
}

} // verus!
