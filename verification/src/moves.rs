use vstd::prelude::*;
use crate::bits::{bit, intersects, lemma_bit_ops, square_mask, Index};
use crate::board::Board;
use crate::defines::Piece;
use crate::masks::{black_king_pawn_mask, king_mask, knight_mask, white_king_pawn_mask};
use crate::bits::{either, Bitboard};
use crate::piece::bishop::{bishop_attacks_hq, generate_bishop_moves_hq, generate_bishops_attacks};
use crate::piece::king::{generate_king_attacks, generate_king_moves};
use crate::piece::knight::{generate_knight_attacks, generate_knight_moves};
use crate::piece::pawn::{generate_pawn_attacks, generate_pawn_moves};
use crate::piece::probe::lemma_join_distinct;
use crate::piece::queen::{generate_queen_attacks, generate_queen_moves_hq};
use crate::piece::rook::{generate_rook_attacks, generate_rook_moves_hq, rook_attacks_hq};
use crate::piece::slider::{lemma_open_line_symmetric, Axis};
use crate::position::Position;
use crate::text::{file_char, file_letter, rank_char, rank_digit};

verus! {

/// What sets a move apart from a plain step or capture.
#[derive(Debug, PartialEq, Eq, Clone, Copy, Structural)]
pub enum MoveContext {
    Plain,
    EnPassant,
    QueenSideCastle,
    KingSideCastle,
    DoubleStep,
    Promotion(Piece),
}

/// A move, with what is needed to take it back: the piece it captured and the
/// castling rights and en-passant target of the position it was made in.
#[derive(Debug, Clone, Copy, PartialEq, Eq)]
pub struct Move {
    pub start: Index,
    pub end: Index,
    pub context: MoveContext,
    pub previous_ep_target: Option<Index>,
    pub previous_wqs: bool,
    pub previous_wks: bool,
    pub previous_bqs: bool,
    pub previous_bks: bool,
    pub capture: Option<Piece>,
}

/// The name of a square: the letter of its file and the digit of its rank.
pub open spec fn coord_text(sq: int) -> Seq<char> {
    seq![file_letter(sq), rank_digit(sq)]
}

/// The letter that a promotion adds to a move's name: the piece's, in lower
/// case. Any other move adds nothing.
pub open spec fn promotion_text(context: MoveContext) -> Seq<char> {
    match context {
        MoveContext::Promotion(Piece::Bishop) => seq!['b'],
        MoveContext::Promotion(Piece::Rook) => seq!['r'],
        MoveContext::Promotion(Piece::Knight) => seq!['n'],
        MoveContext::Promotion(Piece::Queen) => seq!['q'],
        _ => Seq::empty(),
    }
}

/// The letter of a piece in algebraic notation; a pawn has none.
pub open spec fn piece_letter(kind: Piece) -> Seq<char> {
    match kind {
        Piece::Knight => seq!['N'],
        Piece::Bishop => seq!['B'],
        Piece::Rook => seq!['R'],
        Piece::Queen => seq!['Q'],
        Piece::King => seq!['K'],
        _ => Seq::empty(),
    }
}

/// `other` is a legal move of another piece of the same kind to the same square.
pub open spec fn rival(p: Position, mv: Move, other: Move) -> bool {
    &&& p.legal(other)
    &&& other.end == mv.end
    &&& other.start != mv.start
    &&& p.kind_at(other.start as int) == p.kind_at(mv.start as int)
}

/// What tells a move apart from its rivals in algebraic notation. A pawn's
/// or a king's move needs nothing, nor does a move without a rival. Else the
/// file letter tells it apart if some rival starts on another file, the rank
/// digit if some rival starts on another rank, and the whole square if both.
pub open spec fn disambiguation(p: Position, mv: Move) -> Seq<char> {
    let kind = p.kind_at(mv.start as int);
    let needs_file = exists|o: Move| rival(p, mv, o) && o.start % 8 != mv.start % 8;
    let needs_rank = exists|o: Move| rival(p, mv, o) && o.start / 8 != mv.start / 8;
    if kind == Piece::Pawn || kind == Piece::King || !(exists|o: Move| rival(p, mv, o)) {
        Seq::empty()
    } else if needs_file && needs_rank {
        coord_text(mv.start as int)
    } else if needs_file {
        seq![file_letter(mv.start as int)]
    } else {
        seq![rank_digit(mv.start as int)]
    }
}

/// The name of a move in algebraic notation: `O-O` and `O-O-O` for the
/// castles; else the piece's letter, what tells the move apart from its
/// rivals, `x` for a capture (after the file letter for a pawn), the
/// destination, the letter of a promotion, and `+` if the move gives check.
pub open spec fn san_text(p: Position, mv: Move) -> Seq<char> {
    let kind = p.kind_at(mv.start as int);
    let captures = mv.context == MoveContext::EnPassant || mv.capture is Some;
    let taking: Seq<char> = if captures {
        seq!['x']
    } else {
        Seq::empty()
    };
    let origin: Seq<char> = if kind == Piece::Pawn {
        if captures {
            seq![file_letter(mv.start as int)]
        } else {
            Seq::empty()
        }
    } else {
        piece_letter(kind) + disambiguation(p, mv)
    };
    let check: Seq<char> = if p.after(mv).in_check(!p.white_to_play) {
        seq!['+']
    } else {
        Seq::empty()
    };
    if mv.context == MoveContext::KingSideCastle {
        seq!['O', '-', 'O']
    } else if mv.context == MoveContext::QueenSideCastle {
        seq!['O', '-', 'O', '-', 'O']
    } else {
        origin + taking + coord_text(mv.end as int) + promotion_text(mv.context) + check
    }
}

/// Adds the name of a square to a text.
fn push_coord(text: &mut String, sq: usize)
    requires
        sq < 64,
    ensures
        final(text)@ == old(text)@ + coord_text(sq as int),
{
    text.push(file_char(sq));
    text.push(rank_char(sq));
    proof {
        assert(text@ =~= old(text)@ + coord_text(sq as int));
    }
}

/// Adds the letter of a promotion to a text.
fn push_promotion(text: &mut String, context: MoveContext)
    ensures
        final(text)@ == old(text)@ + promotion_text(context),
{
    match context {
        MoveContext::Promotion(Piece::Bishop) => {
            text.push('b');
        },
        MoveContext::Promotion(Piece::Rook) => {
            text.push('r');
        },
        MoveContext::Promotion(Piece::Knight) => {
            text.push('n');
        },
        MoveContext::Promotion(Piece::Queen) => {
            text.push('q');
        },
        _ => {},
    }
    proof {
        assert(text@ =~= old(text)@ + promotion_text(context));
    }
}

impl Move {
    /// The name of the move by its squares: origin, destination, and the
    /// letter of the piece if it is a promotion, as in `e2e4` or `f7f8r`.
    pub open spec fn uci_text(self) -> Seq<char> {
        coord_text(self.start as int) + coord_text(self.end as int) + promotion_text(self.context)
    }

    /// The name of the move by its squares, as in `e2e4`, `g1f3` or `f7f8r`.
    pub fn to_uci(&self) -> (text: String)
        requires
            self.start < 64,
            self.end < 64,
        ensures
            text@ == self.uci_text(),
    {
        let mut uci = String::new();
        push_coord(&mut uci, self.start);
        push_coord(&mut uci, self.end);
        push_promotion(&mut uci, self.context);
        proof {
            assert(uci@ =~= self.uci_text());
        }
        uci
    }

    /// The name of a square, as in `e4`.
    pub fn idx_to_coord(idx: usize) -> (text: String)
        requires
            idx < 64,
        ensures
            text@ == coord_text(idx as int),
    {
        let mut text = String::new();
        push_coord(&mut text, idx);
        proof {
            assert(text@ =~= coord_text(idx as int));
        }
        text
    }

    /// What tells the move apart from its rivals: nothing, the file letter,
    /// the rank digit or the whole origin.
    fn push_disambiguation(&self, board: &mut Board, text: &mut String)
        requires
            old(board).wf(),
            self.start < 64,
            self.end < 64,
        ensures
            *final(board) == *old(board),
            final(text)@ == old(text)@ + disambiguation(old(board)@, *self),
    {
        let ghost p = board@;
        let ghost mv = *self;
        let piece = board.piece_at(self.start);
        let pawn_or_king = match piece {
            Piece::Pawn => true,
            Piece::King => true,
            _ => false,
        };
        if pawn_or_king {
            proof {
                assert(text@ =~= old(text)@ + disambiguation(p, mv));
            }
            return ;
        }
        let all_moves = board.get_legal_moves();
        let mut rivals = false;
        let mut need_file = false;
        let mut need_rank = false;
        let mut i: usize = 0;
        proof {
            board.lemma_view_wf();
        }
        while i < all_moves.len()
            invariant
                *board == *old(board),
                board.wf(),
                p == board@,
                mv == *self,
                self.start < 64,
                i <= all_moves.len(),
                piece == p.kind_at(mv.start as int),
                forall|m: Move| #[trigger] all_moves@.contains(m) <==> p.legal(m),
                rivals == (exists|j: int| 0 <= j < i && rival(p, mv, #[trigger] all_moves@[j])),
                need_file == (exists|j: int|
                    0 <= j < i && rival(p, mv, #[trigger] all_moves@[j]) && all_moves@[j].start % 8
                        != mv.start % 8),
                need_rank == (exists|j: int|
                    0 <= j < i && rival(p, mv, #[trigger] all_moves@[j]) && all_moves@[j].start / 8
                        != mv.start / 8),
            decreases all_moves.len() - i,
        {
            let other = all_moves[i];
            proof {
                assert(all_moves@.contains(other));
            }
            if other.end == self.end && other.start != self.start {
                let other_piece = board.piece_at(other.start);
                if other_piece == piece {
                    rivals = true;
                    if other.start % 8 != self.start % 8 {
                        need_file = true;
                    }
                    if other.start / 8 != self.start / 8 {
                        need_rank = true;
                    }
                }
            }
            i += 1;
        }
        proof {
            assert(rivals == (exists|o: Move| rival(p, mv, o))) by {
                if exists|o: Move| rival(p, mv, o) {
                    let o = choose|o: Move| rival(p, mv, o);
                    assert(all_moves@.contains(o));
                    let j = choose|j: int| 0 <= j < all_moves@.len() && all_moves@[j] == o;
                    assert(rival(p, mv, all_moves@[j]));
                }
            }
            assert(need_file == (exists|o: Move| rival(p, mv, o) && o.start % 8 != mv.start % 8))
                by {
                if exists|o: Move| rival(p, mv, o) && o.start % 8 != mv.start % 8 {
                    let o = choose|o: Move| rival(p, mv, o) && o.start % 8 != mv.start % 8;
                    assert(all_moves@.contains(o));
                    let j = choose|j: int| 0 <= j < all_moves@.len() && all_moves@[j] == o;
                    assert(rival(p, mv, all_moves@[j]));
                }
            }
            assert(need_rank == (exists|o: Move| rival(p, mv, o) && o.start / 8 != mv.start / 8))
                by {
                if exists|o: Move| rival(p, mv, o) && o.start / 8 != mv.start / 8 {
                    let o = choose|o: Move| rival(p, mv, o) && o.start / 8 != mv.start / 8;
                    assert(all_moves@.contains(o));
                    let j = choose|j: int| 0 <= j < all_moves@.len() && all_moves@[j] == o;
                    assert(rival(p, mv, all_moves@[j]));
                }
            }
        }
        if rivals {
            if need_file && need_rank {
                push_coord(text, self.start);
            } else if need_file {
                text.push(file_char(self.start));
            } else {
                text.push(rank_char(self.start));
            }
        }
        proof {
            assert(text@ =~= old(text)@ + disambiguation(p, mv));
        }
    }

    /// The name of the move in algebraic notation, as in `e4`, `Nf3`, `Bef4`,
    /// `R1xb1` or `axb7+`. The move is made on the board to see whether it
    /// gives check, and taken back.
    pub fn to_san(&self, board: &mut Board) -> (text: String)
        requires
            old(board).wf(),
            old(board)@.admits(*self),
            old(board)@.remembered_by(*self),
        ensures
            *final(board) == *old(board),
            text@ == san_text(old(board)@, *self),
    {
        let ghost p = board@;
        let mut san = String::new();
        match self.context {
            MoveContext::KingSideCastle => {
                san.push('O');
                san.push('-');
                san.push('O');
                proof {
                    assert(san@ =~= san_text(p, *self));
                }
                return san;
            },
            MoveContext::QueenSideCastle => {
                san.push('O');
                san.push('-');
                san.push('O');
                san.push('-');
                san.push('O');
                proof {
                    assert(san@ =~= san_text(p, *self));
                }
                return san;
            },
            _ => {},
        }
        let piece = board.piece_at(self.start);
        let is_capture = match self.context {
            MoveContext::EnPassant => true,
            _ => self.capture.is_some(),
        };
        match piece {
            Piece::Pawn => {
                if is_capture {
                    san.push(file_char(self.start));
                }
            },
            _ => {
                match piece {
                    Piece::Knight => {
                        san.push('N');
                    },
                    Piece::Bishop => {
                        san.push('B');
                    },
                    Piece::Rook => {
                        san.push('R');
                    },
                    Piece::Queen => {
                        san.push('Q');
                    },
                    Piece::King => {
                        san.push('K');
                    },
                    _ => {},
                }
                proof {
                    assert(san@ =~= piece_letter(piece));
                }
                self.push_disambiguation(board, &mut san);
            },
        }
        let ghost origin = san@;
        if is_capture {
            san.push('x');
        }
        push_coord(&mut san, self.end);
        push_promotion(&mut san, self.context);
        proof {
            board.lemma_view_wf();
        }
        board.make_move(*self);
        let gives_check = is_king_attacked(board, false);
        board.unmake_move(*self);
        if gives_check {
            san.push('+');
        }
        proof {
            assert(san@ =~= san_text(p, *self));
        }
        san
    }
}

/// The legal moves of the side to move, each once, in a freshly made list
/// whose order is left open. The list is empty exactly when the side to move
/// is mated or stalemated. The board is used to try each candidate and is
/// left as it was.
pub fn get_legal_moves(board: &mut Board) -> (moves: Vec<Move>)
    requires
        old(board).wf(),
    ensures
        *final(board) == *old(board),
        moves@.no_duplicates(),
        forall|mv: Move| #[trigger] moves@.contains(mv) <==> old(board)@.legal(mv),
        forall|i: int|
            0 <= i < moves@.len() ==> !old(board)@.after(#[trigger] moves@[i]).in_check(
                old(board).white_to_play,
            ),
{
    let ghost p = board@;
    let mut all_moves: Vec<Move> = Vec::new();
    let mut pawn_moves = generate_pawn_moves(board);
    let mut rook_moves = generate_rook_moves_hq(board);
    let mut bishop_moves = generate_bishop_moves_hq(board);
    let mut queen_moves = generate_queen_moves_hq(board);
    let mut knight_moves = generate_knight_moves(board);
    let mut king_moves = generate_king_moves(board);

    proof {
        assert(all_moves@ + pawn_moves@ =~= pawn_moves@);
    }
    all_moves.append(&mut pawn_moves);
    let ghost one = all_moves@;
    proof {
        assert(forall|mv: Move| #[trigger]
            one.contains(mv) <==> (p.legal(mv) && p.kind_at(mv.start as int) == Piece::Pawn));
        lemma_join_distinct(one, rook_moves@);
    }
    all_moves.append(&mut rook_moves);
    let ghost two = all_moves@;
    proof {
        assert(forall|mv: Move| #[trigger]
            two.contains(mv) <==> (p.legal(mv) && (p.kind_at(mv.start as int) == Piece::Pawn
                || p.kind_at(mv.start as int) == Piece::Rook)));
        lemma_join_distinct(two, bishop_moves@);
    }
    all_moves.append(&mut bishop_moves);
    let ghost three = all_moves@;
    proof {
        assert(forall|mv: Move| #[trigger]
            three.contains(mv) <==> (p.legal(mv) && (p.kind_at(mv.start as int) == Piece::Pawn
                || p.kind_at(mv.start as int) == Piece::Rook || p.kind_at(mv.start as int)
                == Piece::Bishop)));
        lemma_join_distinct(three, queen_moves@);
    }
    all_moves.append(&mut queen_moves);
    let ghost four = all_moves@;
    proof {
        assert(forall|mv: Move| #[trigger]
            four.contains(mv) <==> (p.legal(mv) && (p.kind_at(mv.start as int) == Piece::Pawn
                || p.kind_at(mv.start as int) == Piece::Rook || p.kind_at(mv.start as int)
                == Piece::Bishop || p.kind_at(mv.start as int) == Piece::Queen)));
        lemma_join_distinct(four, knight_moves@);
    }
    all_moves.append(&mut knight_moves);
    let ghost five = all_moves@;
    proof {
        assert(forall|mv: Move| #[trigger]
            five.contains(mv) <==> (p.legal(mv) && (p.kind_at(mv.start as int) == Piece::Pawn
                || p.kind_at(mv.start as int) == Piece::Rook || p.kind_at(mv.start as int)
                == Piece::Bishop || p.kind_at(mv.start as int) == Piece::Queen || p.kind_at(
                mv.start as int,
            ) == Piece::Knight)));
        lemma_join_distinct(five, king_moves@);
    }
    all_moves.append(&mut king_moves);
    proof {
        assert forall|mv: Move| #[trigger] all_moves@.contains(mv) <==> p.legal(mv) by {
            if p.legal(mv) {
                assert(p.admits(mv));
                assert(p.follows_rules(mv));
            }
        }
        assert forall|i: int| 0 <= i < all_moves@.len() implies !p.after(
            #[trigger] all_moves@[i],
        ).in_check(p.white_to_play) by {
            assert(all_moves@.contains(all_moves@[i]));
        }
    }
    all_moves
}

/// Whether a piece of one side attacks square `sq`: of the side to move if
/// `by_playing_side`, else of the other. Pawns, knights and the king are found
/// through the tables, rooks, bishops and queens by sliding from `sq`.
pub fn is_square_attacked(sq: usize, board: &Board, by_playing_side: bool) -> (r: bool)
    requires
        board.wf(),
        sq < 64,
    ensures
        r == board@.attacked(sq as int, by_playing_side == board.white_to_play),
{
    let by_white = if by_playing_side {
        board.white_to_play
    } else {
        !board.white_to_play
    };

    let pawns = if by_white {
        board.white_pawns
    } else {
        board.black_pawns
    };
    let pawn_origins = if by_white {
        black_king_pawn_mask(sq)
    } else {
        white_king_pawn_mask(sq)
    };
    let knights = if by_white {
        board.white_knights
    } else {
        board.black_knights
    };
    let knight_origins = knight_mask(sq);
    let straight = if by_white {
        board.white_rooks | board.white_queens
    } else {
        board.black_rooks | board.black_queens
    };
    let straight_origins = rook_attacks_hq(sq, board.pieces);
    let diagonal = if by_white {
        board.white_bishops | board.white_queens
    } else {
        board.black_bishops | board.black_queens
    };
    let diagonal_origins = bishop_attacks_hq(sq, board.pieces);
    let king = if by_white {
        square_mask(board.white_king)
    } else {
        square_mask(board.black_king)
    };
    let king_origins = king_mask(sq);

    let by_pawn = intersects(pawns, pawn_origins);
    let by_knight = intersects(knights, knight_origins);
    let by_straight = intersects(straight, straight_origins);
    let by_diagonal = intersects(diagonal, diagonal_origins);
    let by_king = intersects(king, king_origins);
    let r = by_pawn || by_knight || by_straight || by_diagonal || by_king;

    proof {
        let p = board@;
        let s = sq as int;
        let occ = p.occupied();
        board.lemma_view_occupancy();
        assert forall|a: int| 0 <= a < 64 implies ((p.side_at(a, by_white) && p.piece_attacks(a, s))
            == ((bit(pawns, a) && bit(pawn_origins, a)) || (bit(knights, a) && bit(
            knight_origins,
            a,
        )) || (bit(straight, a) && bit(straight_origins, a)) || (bit(diagonal, a) && bit(
            diagonal_origins,
            a,
        )) || (bit(king, a) && bit(king_origins, a)))) by {
            board.lemma_cells(a);
            lemma_bit_ops(board.white_rooks, board.white_queens, a);
            lemma_bit_ops(board.black_rooks, board.black_queens, a);
            lemma_bit_ops(board.white_bishops, board.white_queens, a);
            lemma_bit_ops(board.black_bishops, board.black_queens, a);
            lemma_open_line_symmetric(occ, Axis::Rank, a, s);
            lemma_open_line_symmetric(occ, Axis::File, a, s);
            lemma_open_line_symmetric(occ, Axis::Diagonal, a, s);
            lemma_open_line_symmetric(occ, Axis::Antidiagonal, a, s);
        }
        if r {
            let a = if by_pawn {
                choose|i: int| #[trigger] bit(pawns, i) && bit(pawn_origins, i)
            } else if by_knight {
                choose|i: int| #[trigger] bit(knights, i) && bit(knight_origins, i)
            } else if by_straight {
                choose|i: int| #[trigger] bit(straight, i) && bit(straight_origins, i)
            } else if by_diagonal {
                choose|i: int| #[trigger] bit(diagonal, i) && bit(diagonal_origins, i)
            } else {
                choose|i: int| #[trigger] bit(king, i) && bit(king_origins, i)
            };
            assert(0 <= a < 64 && p.side_at(a, by_white) && p.piece_attacks(a, s));
        }
    }
    r
}

/// Whether a king is attacked: the king of the side that has just moved if
/// `by_playing_side` (attacked, then, by the side to move), else the king of
/// the side to move.
pub fn is_king_attacked(board: &Board, by_playing_side: bool) -> (r: bool)
    requires
        board.wf(),
    ensures
        r == board@.in_check(by_playing_side != board.white_to_play),
{
    let by_white = if by_playing_side {
        board.white_to_play
    } else {
        !board.white_to_play
    };
    let sq = if by_white {
        board.black_king
    } else {
        board.white_king
    };
    proof {
        board.lemma_view_occupancy();
    }
    is_square_attacked(sq, board, by_playing_side)
}

/// The squares that the side to move attacks: what its pawns, rooks and king
/// attack, what its knights, bishops and queens attack short of its own
/// pieces, and the pawn that it could take en passant.
pub fn get_attacked_squares(board: &Board) -> (m: Bitboard)
    requires
        board.wf(),
    ensures
        forall|t: int|
            bit(m, t) == (0 <= t < 64 && (board@.reached_by(Piece::Pawn, t)
                || board@.passed_pawn_at(t) || board@.reached_by(Piece::Rook, t)
                || board@.reached_by(Piece::King, t) || (!board@.side_at(t, board.white_to_play)
                && (board@.reached_by(Piece::Knight, t) || board@.reached_by(Piece::Bishop, t)
                || board@.reached_by(Piece::Queen, t))))),
{
    let mut m: u64 = generate_pawn_attacks(board);
    m = either(m, generate_rook_attacks(board));
    m = either(m, generate_knight_attacks(board));
    m = either(m, generate_bishops_attacks(board));
    m = either(m, generate_queen_attacks(board));
    m = either(m, generate_king_attacks(board));
    m
}

} // verus!
