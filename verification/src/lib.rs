//! A chess engine on bit-masks, verified with Verus.
//!
//! A [`Board`] holds one 64-bit mask per colour and kind of piece. Its meaning
//! is a [`position::Position`]: what stands on each square, who is to move,
//! the castling rights and the en-passant target. Every contract is stated
//! over that model: `make_move` and `unmake_move` by the position after and
//! before a move, the move generator by the set of legal moves, the attack
//! engine by free lines between squares, the searches by the score of the
//! game tree.
pub mod ai;
pub mod bits;
pub mod board;
pub mod chess;
pub mod defines;
pub mod fen;
pub mod laws;
pub mod masks;
pub mod moves;
pub mod piece;
pub mod play;
pub mod position;
pub mod text;

pub use ai::{launch_alpha_beta, launch_alpha_beta_quiesce, negamax, quiesce, INF};
pub use bits::{Bitboard, Index};
pub use board::Board;
pub use chess::{get_piece_type_on_square, launch_explore};
pub use defines::Piece;
pub use fen::FenError;
pub use masks::{
    antidiagonal_mask, black_king_pawn_mask, diagonal_mask, file_mask, king_mask, knight_mask,
    rank_mask, white_king_pawn_mask,
};
pub use moves::{
    get_attacked_squares, get_legal_moves, is_king_attacked, is_square_attacked, Move, MoveContext,
};
pub use play::{
    alpha_beta_quiesce_strategy, alpha_beta_strategy, negamax_strategy, play_turn, player_move,
    random_strategy, strategy_named, GameResult, Strategy,
};
pub use text::render_bitboard;
pub use piece::bishop::{bishop_attacks_hq, generate_bishop_moves_hq, generate_bishops_attacks};
pub use piece::king::{generate_king_attacks, generate_king_moves};
pub use piece::knight::{generate_knight_attacks, generate_knight_moves};
pub use piece::pawn::{generate_pawn_attacks, generate_pawn_moves};
pub use piece::queen::{generate_queen_attacks, generate_queen_moves_hq, queen_attacks_hq};
pub use piece::rook::{generate_rook_attacks, generate_rook_moves_hq, rook_attacks_hq};
pub use piece::slider::slider_attacks_hq;
