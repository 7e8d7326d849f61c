use vstd::prelude::*;
use rand::seq::IndexedRandom;
use crate::ai::{
    launch_alpha_beta, launch_alpha_beta_quiesce, negamax, negamax_value, reply_value,
    search_value, stuck,
};
use crate::board::Board;
use crate::fen::chars_of;
use crate::moves::{is_king_attacked, Move};
use crate::position::Position;

verus! {

/// How a game ended.
#[derive(Debug, Clone, Copy, PartialEq, Eq)]
pub enum GameResult {
    /// White has mated.
    White,
    /// Black has mated.
    Black,
    /// Nobody has: the side to move had no legal move and was not in check,
    /// or the game ran to its last move.
    Stalemate,
}

/// How a side picks its moves.
#[derive(Debug, Clone, Copy, PartialEq, Eq)]
pub enum Strategy {
    /// Someone types the move.
    Player,
    /// Any legal move, by chance.
    Random,
    /// Plain negamax.
    Negamax,
    /// Alpha-beta search.
    AlphaBeta,
    /// Alpha-beta search with the captures played out at the leaves.
    AlphaBetaQuiesce,
}

/// The number of plies that the searching strategies look ahead.
pub const SEARCH_DEPTH: u8 = 4;

/// The number of moves of each side after which a game is stopped.
pub const LONGEST_GAME: usize = 500;

/// The strategy that a name stands for.
pub open spec fn strategy_of(name: Seq<char>) -> Option<Strategy> {
    if name == seq!['p', 'l', 'a', 'y', 'e', 'r'] {
        Some(Strategy::Player)
    } else if name == seq!['r', 'a', 'n', 'd', 'o', 'm'] {
        Some(Strategy::Random)
    } else if name == seq!['n', 'e', 'g', 'a', 'm', 'a', 'x'] {
        Some(Strategy::Negamax)
    } else if name == seq!['a', 'l', 'p', 'h', 'a', 'b', 'e', 't', 'a'] {
        Some(Strategy::AlphaBeta)
    } else if name == seq!['a', 'l', 'p', 'h', 'a', 'b', 'e', 't', 'a', 'q'] {
        Some(Strategy::AlphaBetaQuiesce)
    } else {
        None
    }
}

/// Whether two texts are the same.
fn same_text(a: &Vec<char>, b: &Vec<char>) -> (same: bool)
    ensures
        same == (a@ == b@),
{
    if a.len() != b.len() {
        return false;
    }
    let mut i: usize = 0;
    while i < a.len()
        invariant
            a.len() == b.len(),
            i <= a.len(),
            forall|j: int| 0 <= j < i ==> a@[j] == b@[j],
        decreases a.len() - i,
    {
        if a[i] != b[i] {
            return false;
        }
        i += 1;
    }
    proof {
        assert(a@ =~= b@);
    }
    true
}

/// The strategy that a name stands for: `player`, `random`, `negamax`,
/// `alphabeta` or `alphabetaq`.
pub fn strategy_named(name: &str) -> (strategy: Option<Strategy>)
    ensures
        strategy == strategy_of(name@),
{
    let text = chars_of(name);
    if same_text(&text, &vec!['p', 'l', 'a', 'y', 'e', 'r']) {
        Some(Strategy::Player)
    } else if same_text(&text, &vec!['r', 'a', 'n', 'd', 'o', 'm']) {
        Some(Strategy::Random)
    } else if same_text(&text, &vec!['n', 'e', 'g', 'a', 'm', 'a', 'x']) {
        Some(Strategy::Negamax)
    } else if same_text(&text, &vec!['a', 'l', 'p', 'h', 'a', 'b', 'e', 't', 'a']) {
        Some(Strategy::AlphaBeta)
    } else if same_text(&text, &vec!['a', 'l', 'p', 'h', 'a', 'b', 'e', 't', 'a', 'q']) {
        Some(Strategy::AlphaBetaQuiesce)
    } else {
        None
    }
}

/// The legal move that the typed text names by its squares, if there is one.
pub fn player_move(board: &mut Board, typed: &str) -> (choice: Option<Move>)
    requires
        old(board).wf(),
    ensures
        *final(board) == *old(board),
        choice matches Some(m) ==> old(board)@.legal(m) && m.uci_text() == typed@,
        choice is None ==> forall|m: Move| old(board)@.legal(m) ==> m.uci_text() != typed@,
{
    let ghost p = board@;
    let text = chars_of(typed);
    let moves = board.get_legal_moves();
    let mut i: usize = 0;
    while i < moves.len()
        invariant
            *board == *old(board),
            p == board@,
            text@ == typed@,
            i <= moves.len(),
            forall|m: Move| #[trigger] moves@.contains(m) <==> p.legal(m),
            forall|j: int| 0 <= j < i ==> (#[trigger] moves@[j]).uci_text() != typed@,
        decreases moves.len() - i,
    {
        let mv = moves[i];
        proof {
            assert(moves@.contains(mv));
        }
        let name = mv.to_uci();
        if same_text(&chars_of(name.as_str()), &text) {
            return Some(mv);
        }
        i += 1;
    }
    proof {
        assert forall|m: Move| p.legal(m) implies m.uci_text() != typed@ by {
            assert(moves@.contains(m));
            let j = choose|j: int| 0 <= j < moves@.len() && moves@[j] == m;
            assert(moves@[j].uci_text() != typed@);
        }
    }
    None
}

/// `rand::seq::IndexedRandom::choose`, with the generator of the current
/// thread from `rand::rng`, picks one move of the list: none if the list is
/// empty, else one that the list holds, which one is left open.
#[verifier::external_body]
fn pick_move(moves: &Vec<Move>) -> (choice: Option<Move>)
    ensures
        moves@.len() == 0 ==> choice is None,
        moves@.len() > 0 ==> choice is Some && moves@.contains(choice->0),
{
    moves.choose(&mut rand::rng()).cloned()
}

/// Any legal move, by chance; none where there is none.
pub fn random_strategy(board: &mut Board) -> (choice: Option<Move>)
    requires
        old(board).wf(),
    ensures
        *final(board) == *old(board),
        choice is Some <==> !stuck(old(board)@),
        choice matches Some(m) ==> old(board)@.legal(m),
{
    let moves = board.get_legal_moves();
    let choice = pick_move(&moves);
    proof {
        if moves@.len() > 0 {
            assert(moves@.contains(moves@[0]));
        }
        if !stuck(old(board)@) {
            let m = choose|m: Move| old(board)@.legal(m);
            assert(moves@.contains(m));
        }
    }
    choice
}

/// The move that plain negamax finds four plies deep; none where there is
/// no legal move.
pub fn negamax_strategy(board: &mut Board) -> (choice: Option<Move>)
    requires
        old(board).wf(),
    ensures
        *final(board) == *old(board),
        choice is Some <==> !stuck(old(board)@),
        choice matches Some(m) ==> old(board)@.legal(m) && reply_value(
            old(board)@,
            m,
            SEARCH_DEPTH as nat,
            false,
        ) == negamax_value(old(board)@, SEARCH_DEPTH as nat),
{
    let (_, result) = negamax(board, SEARCH_DEPTH);
    result
}

/// The move that alpha-beta search finds four plies deep; none where there
/// is no legal move.
pub fn alpha_beta_strategy(board: &mut Board) -> (choice: Option<Move>)
    requires
        old(board).wf(),
    ensures
        *final(board) == *old(board),
        choice is Some <==> !stuck(old(board)@),
        choice matches Some(m) ==> old(board)@.legal(m) && reply_value(
            old(board)@,
            m,
            SEARCH_DEPTH as nat,
            false,
        ) == negamax_value(old(board)@, SEARCH_DEPTH as nat),
{
    let (_, result) = launch_alpha_beta(board, SEARCH_DEPTH);
    result
}

/// The move that alpha-beta search with quiet leaves finds four plies deep;
/// none where there is no legal move.
pub fn alpha_beta_quiesce_strategy(board: &mut Board) -> (choice: Option<Move>)
    requires
        old(board).wf(),
    ensures
        *final(board) == *old(board),
        choice is Some <==> !stuck(old(board)@),
        choice matches Some(m) ==> old(board)@.legal(m) && reply_value(
            old(board)@,
            m,
            SEARCH_DEPTH as nat,
            true,
        ) == search_value(old(board)@, SEARCH_DEPTH as nat, true),
{
    let (_, result) = launch_alpha_beta_quiesce(board, SEARCH_DEPTH);
    result
}

/// How a game ends when the side to move has no move: the other side has won
/// if the king is attacked, else nobody has.
pub open spec fn verdict(p: Position) -> GameResult {
    if !p.in_check(p.white_to_play) {
        GameResult::Stalemate
    } else if p.white_to_play {
        GameResult::Black
    } else {
        GameResult::White
    }
}

/// One turn of a game. `choice` is what the strategy of the side to move
/// answered and `full_moves` counts the moves that black has made. A move is
/// made on the board; once black has made its five hundredth the game is
/// stopped without a winner. No move ends the game: the side to move is
/// mated or stalemated. The result is the game's, once it has one.
pub fn play_turn(board: &mut Board, full_moves: &mut usize, choice: Option<Move>) -> (result:
    Option<GameResult>)
    requires
        old(board).wf(),
        *old(full_moves) < LONGEST_GAME,
        choice matches Some(m) ==> old(board)@.legal(m),
    ensures
        final(board).wf(),
        match choice {
            Some(m) => {
                &&& final(board)@ == old(board)@.after(m)
                &&& *final(full_moves) == *old(full_moves) + (if old(board).white_to_play {
                    0int
                } else {
                    1int
                })
                &&& result == (if *final(full_moves) >= LONGEST_GAME {
                    Some(GameResult::Stalemate)
                } else {
                    None
                })
            },
            None => {
                &&& *final(board) == *old(board)
                &&& *final(full_moves) == *old(full_moves)
                &&& result == Some(verdict(old(board)@))
            },
        },
{
    match choice {
        Some(mv) => {
            let black_moves = !board.white_to_play;
            board.make_move(mv);
            if black_moves {
                *full_moves = *full_moves + 1;
            }
            if *full_moves >= LONGEST_GAME {
                Some(GameResult::Stalemate)
            } else {
                None
            }
        },
        None => {
            if is_king_attacked(board, false) {
                if board.white_to_play {
                    Some(GameResult::Black)
                } else {
                    Some(GameResult::White)
                }
            } else {
                Some(GameResult::Stalemate)
            }
        },
    }
}

} // verus!
