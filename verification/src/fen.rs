use vstd::prelude::*;
use vstd::string::StrSliceExecFns;
use crate::bits::{lemma_no_bits, lemma_tally_grows, tally, with_bit};
use crate::masks::rank_mask;
use crate::board::Board;
use crate::defines::Piece;
use crate::position::Position;
use crate::text::{decimal, push_number, push_text};

verus! {

/// A character that separates the fields of a position's description: one
/// with Unicode's White_Space property.
pub open spec fn is_space(c: char) -> bool {
    let n = c as u32;
    (0x09 <= n <= 0x0D) || n == 0x20 || n == 0x85 || n == 0xA0 || n == 0x1680 || (0x2000 <= n
        <= 0x200A) || n == 0x2028 || n == 0x2029 || n == 0x202F || n == 0x205F || n == 0x3000
}

/// Whether a character separates fields.
pub fn separates(c: char) -> (r: bool)
    ensures
        r == is_space(c),
{
    let n: u32 = c as u32;
    (0x09 <= n && n <= 0x0D) || n == 0x20 || n == 0x85 || n == 0xA0 || n == 0x1680 || (0x2000 <= n
        && n <= 0x200A) || n == 0x2028 || n == 0x2029 || n == 0x202F || n == 0x205F || n == 0x3000
}

/// The characters of a string.
pub fn chars_of(s: &str) -> (v: Vec<char>)
    ensures
        v@ == s@,
{
    let n = s.unicode_len();
    let mut v: Vec<char> = Vec::new();
    let mut i: usize = 0;
    while i < n
        invariant
            n == s@.len(),
            i <= n,
            v@ == s@.subrange(0, i as int),
        decreases n - i,
    {
        v.push(s.get_char(i));
        proof {
            assert(v@ =~= s@.subrange(0, i + 1));
        }
        i += 1;
    }
    proof {
        assert(v@ =~= s@);
    }
    v
}

/// Why a description of a position was refused.
#[derive(Debug, Clone, Copy, PartialEq, Eq)]
pub enum FenError {
    /// The description does not have exactly four fields.
    FieldCount,
    /// The placement does not have exactly eight ranks.
    RankCount,
    /// A piece stands beyond the eighth square of the rank (1 to 8).
    RankTooLong { rank: usize },
    /// The placement holds a character that names no piece.
    InvalidPiece { found: char },
    /// The rank (1 to 8) does not come to exactly eight squares.
    RankLength { rank: usize },
    /// The placement holds no white king.
    MissingWhiteKing,
    /// The placement holds no black king.
    MissingBlackKing,
    /// The castling field holds a character other than `K`, `Q`, `k`, `q`.
    InvalidCastling { found: char },
    /// The en-passant field is neither `-` nor a square from `a1` to `h8`.
    InvalidEnPassant,
    /// The side to move is neither `w` nor `b`.
    InvalidActiveColor,
}

impl FenError {
    /// What the error says, in words.
    pub open spec fn text(self) -> Seq<char> {
        match self {
            FenError::FieldCount => "FEN strings must have exactly 4 fields."@,
            FenError::RankCount => "Expected 8 ranks in placement."@,
            FenError::RankTooLong { rank } => "Rank "@ + decimal(rank as nat)
                + " has too many squares."@,
            FenError::InvalidPiece { found } => "Invalid piece char '"@.push(found) + "'."@,
            FenError::RankLength { rank } => "Rank "@ + decimal(rank as nat)
                + " does not have 8 squares."@,
            FenError::MissingWhiteKing => "Missing white king."@,
            FenError::MissingBlackKing => "Missing black king."@,
            FenError::InvalidCastling { found } => "Invalid castling char '"@.push(found)
                + "'."@,
            FenError::InvalidEnPassant => "Invalid en passant square."@,
            FenError::InvalidActiveColor => "Invalid active color."@,
        }
    }

    /// What the error says, in words.
    pub fn message(&self) -> (text: String)
        ensures
            text@ == self.text(),
    {
        let mut text = String::new();
        match self {
            FenError::FieldCount => {
                push_text(&mut text, "FEN strings must have exactly 4 fields.");
            },
            FenError::RankCount => {
                push_text(&mut text, "Expected 8 ranks in placement.");
            },
            FenError::RankTooLong { rank } => {
                push_text(&mut text, "Rank ");
                push_number(&mut text, *rank);
                push_text(&mut text, " has too many squares.");
            },
            FenError::InvalidPiece { found } => {
                push_text(&mut text, "Invalid piece char '");
                text.push(*found);
                push_text(&mut text, "'.");
            },
            FenError::RankLength { rank } => {
                push_text(&mut text, "Rank ");
                push_number(&mut text, *rank);
                push_text(&mut text, " does not have 8 squares.");
            },
            FenError::MissingWhiteKing => {
                push_text(&mut text, "Missing white king.");
            },
            FenError::MissingBlackKing => {
                push_text(&mut text, "Missing black king.");
            },
            FenError::InvalidCastling { found } => {
                push_text(&mut text, "Invalid castling char '");
                text.push(*found);
                push_text(&mut text, "'.");
            },
            FenError::InvalidEnPassant => {
                push_text(&mut text, "Invalid en passant square.");
            },
            FenError::InvalidActiveColor => {
                push_text(&mut text, "Invalid active color.");
            },
        }
        proof {
            assert(text@ =~= self.text());
        }
        text
    }
}

/// The fields of `s` from position `i` on, where `done` are the fields already
/// closed and `cur` is the field being read.
pub open spec fn scan_fields(s: Seq<char>, i: int, done: Seq<Seq<char>>, cur: Seq<char>) -> Seq<
    Seq<char>,
>
    decreases s.len() - i,
{
    let closed = if cur.len() > 0 {
        done.push(cur)
    } else {
        done
    };
    if i < 0 || i >= s.len() {
        closed
    } else if is_space(s[i]) {
        scan_fields(s, i + 1, closed, Seq::empty())
    } else {
        scan_fields(s, i + 1, done, cur.push(s[i]))
    }
}

/// The fields of a description: its maximal runs of characters that are not
/// separators, in order.
pub open spec fn fields_of(s: Seq<char>) -> Seq<Seq<char>> {
    scan_fields(s, 0, Seq::empty(), Seq::empty())
}

/// The piece that a character of the placement names: upper case for white,
/// lower case for black.
pub open spec fn piece_of(c: char) -> Option<(bool, Piece)> {
    if c == 'P' {
        Some((true, Piece::Pawn))
    } else if c == 'p' {
        Some((false, Piece::Pawn))
    } else if c == 'R' {
        Some((true, Piece::Rook))
    } else if c == 'r' {
        Some((false, Piece::Rook))
    } else if c == 'N' {
        Some((true, Piece::Knight))
    } else if c == 'n' {
        Some((false, Piece::Knight))
    } else if c == 'B' {
        Some((true, Piece::Bishop))
    } else if c == 'b' {
        Some((false, Piece::Bishop))
    } else if c == 'Q' {
        Some((true, Piece::Queen))
    } else if c == 'q' {
        Some((false, Piece::Queen))
    } else if c == 'K' {
        Some((true, Piece::King))
    } else if c == 'k' {
        Some((false, Piece::King))
    } else {
        None
    }
}

/// A decimal digit.
pub open spec fn is_digit(c: char) -> bool {
    '0' <= c <= '9'
}

/// The squares with one more piece set down. A king replaces an earlier king
/// of its colour: the last one named is the one that stands.
pub open spec fn set_down(
    squares: Seq<Option<(bool, Piece)>>,
    sq: int,
    who: (bool, Piece),
) -> Seq<Option<(bool, Piece)>> {
    if who.1 == Piece::King {
        Board::crowned(squares, who.0, sq)
    } else {
        squares.update(sq, Some(who))
    }
}

/// Reads the placement from position `i` on. `down` is the number of ranks
/// already closed, counted from the eighth, `file` the number of squares
/// read of the current rank (nine stands for any number above eight), and
/// `squares` what has been set down so far. A digit skips that many squares,
/// a `/` closes a rank that must be full, any other character must name a
/// piece and find room on the rank.
pub open spec fn scan_placement(
    s: Seq<char>,
    i: int,
    down: int,
    file: int,
    squares: Seq<Option<(bool, Piece)>>,
) -> Result<Seq<Option<(bool, Piece)>>, FenError>
    decreases s.len() - i,
{
    if i < 0 || i >= s.len() {
        if file != 8 {
            Err(FenError::RankLength { rank: (8 - down) as usize })
        } else {
            Ok(squares)
        }
    } else if s[i] == '/' {
        if file != 8 {
            Err(FenError::RankLength { rank: (8 - down) as usize })
        } else {
            scan_placement(s, i + 1, down + 1, 0, squares)
        }
    } else if is_digit(s[i]) {
        let skipped = file + (s[i] as int - '0' as int);
        scan_placement(
            s,
            i + 1,
            down,
            if skipped > 9 {
                9
            } else {
                skipped
            },
            squares,
        )
    } else if file >= 8 {
        Err(FenError::RankTooLong { rank: (8 - down) as usize })
    } else {
        match piece_of(s[i]) {
            Some(who) => scan_placement(
                s,
                i + 1,
                down,
                file + 1,
                set_down(squares, (7 - down) * 8 + file, who),
            ),
            None => Err(FenError::InvalidPiece { found: s[i] }),
        }
    }
}

/// The board with nothing on it.
pub open spec fn no_squares() -> Seq<Option<(bool, Piece)>> {
    Seq::new(64, |i: int| None)
}

/// The four castling rights that the field names, as white king side, white
/// queen side, black king side, black queen side: `-` for none, else each of
/// `K`, `Q`, `k`, `q` for one right.
pub open spec fn rights_of(s: Seq<char>) -> Result<(bool, bool, bool, bool), FenError> {
    if s.len() == 1 && s[0] == '-' {
        Ok((false, false, false, false))
    } else if exists|i: int| 0 <= i < s.len() && !is_right(#[trigger] s[i]) {
        let first = choose|i: int|
            0 <= i < s.len() && !is_right(#[trigger] s[i]) && forall|j: int|
                0 <= j < i ==> is_right(#[trigger] s[j]);
        Err(FenError::InvalidCastling { found: s[first] })
    } else {
        Ok((s.contains('K'), s.contains('Q'), s.contains('k'), s.contains('q')))
    }
}

/// A character that names a castling right.
pub open spec fn is_right(c: char) -> bool {
    c == 'K' || c == 'Q' || c == 'k' || c == 'q'
}

/// The en-passant target that the field names: `-` for none, else a file
/// letter from `a` to `h` and a rank digit from `1` to `8`.
pub open spec fn target_of(s: Seq<char>) -> Result<Option<usize>, FenError> {
    if s.len() == 1 && s[0] == '-' {
        Ok(None)
    } else if s.len() == 2 && 'a' <= s[0] <= 'h' && '1' <= s[1] <= '8' {
        Ok(Some(((s[1] as int - '1' as int) * 8 + (s[0] as int - 'a' as int)) as usize))
    } else {
        Err(FenError::InvalidEnPassant)
    }
}

/// The position that four fields describe, or the first reason to refuse
/// them, looked for in this order: the number of ranks, the placement from
/// the eighth rank down, the two kings, the castling rights, the en-passant
/// target, the side to move.
pub open spec fn layout_of(
    placement: Seq<char>,
    active: Seq<char>,
    castling: Seq<char>,
    en_passant: Seq<char>,
) -> Result<Position, FenError> {
    if tally(|i: int| placement[i] == '/', placement.len()) != 7 {
        Err(FenError::RankCount)
    } else {
        match scan_placement(placement, 0, 0, 0, no_squares()) {
            Err(e) => Err(e),
            Ok(squares) => {
                if !squares.contains(Some((true, Piece::King))) {
                    Err(FenError::MissingWhiteKing)
                } else if !squares.contains(Some((false, Piece::King))) {
                    Err(FenError::MissingBlackKing)
                } else {
                    match rights_of(castling) {
                        Err(e) => Err(e),
                        Ok(rights) => match target_of(en_passant) {
                            Err(e) => Err(e),
                            Ok(target) => {
                                if active.len() == 1 && (active[0] == 'w' || active[0] == 'b') {
                                    Ok(
                                        Position {
                                            squares,
                                            white_to_play: active[0] == 'w',
                                            en_passant_target: target,
                                            white_king_side: rights.0,
                                            white_queen_side: rights.1,
                                            black_king_side: rights.2,
                                            black_queen_side: rights.3,
                                        },
                                    )
                                } else {
                                    Err(FenError::InvalidActiveColor)
                                }
                            },
                        },
                    }
                }
            },
        }
    }
}

/// The position that a description in Forsyth-Edwards notation gives, or the
/// reason to refuse it. The description has four fields, set apart by white
/// space: placement, side to move, castling rights, en-passant target.
pub open spec fn fen_position(s: Seq<char>) -> Result<Position, FenError> {
    let fields = fields_of(s);
    if fields.len() != 4 {
        Err(FenError::FieldCount)
    } else {
        layout_of(fields[0], fields[1], fields[2], fields[3])
    }
}

/// The contents of each list of a list of lists.
pub open spec fn views_of(fields: Seq<Vec<char>>) -> Seq<Seq<char>> {
    Seq::new(fields.len(), |i: int| fields[i]@)
}

/// The fields of a description: its maximal runs of characters that are not
/// separators, in order.
pub fn split_fields(s: &Vec<char>) -> (fields: Vec<Vec<char>>)
    ensures
        views_of(fields@) == fields_of(s@),
{
    let mut fields: Vec<Vec<char>> = Vec::new();
    let mut cur: Vec<char> = Vec::new();
    let mut i: usize = 0;
    proof {
        assert(views_of(fields@) =~= Seq::<Seq<char>>::empty());
    }
    while i < s.len()
        invariant
            i <= s.len(),
            scan_fields(s@, i as int, views_of(fields@), cur@) == fields_of(s@),
        decreases s.len() - i,
    {
        let c = s[i];
        if separates(c) {
            if cur.len() > 0 {
                let ghost before = fields@;
                fields.push(cur);
                proof {
                    assert(views_of(fields@) =~= views_of(before).push(cur@));
                }
            }
            cur = Vec::new();
        } else {
            cur.push(c);
        }
        i += 1;
    }
    if cur.len() > 0 {
        let ghost before = fields@;
        fields.push(cur);
        proof {
            assert(views_of(fields@) =~= views_of(before).push(cur@));
        }
    }
    fields
}

/// The piece that a character of the placement names.
fn piece_for(c: char) -> (who: Option<(bool, Piece)>)
    ensures
        who == piece_of(c),
{
    if c == 'P' {
        Some((true, Piece::Pawn))
    } else if c == 'p' {
        Some((false, Piece::Pawn))
    } else if c == 'R' {
        Some((true, Piece::Rook))
    } else if c == 'r' {
        Some((false, Piece::Rook))
    } else if c == 'N' {
        Some((true, Piece::Knight))
    } else if c == 'n' {
        Some((false, Piece::Knight))
    } else if c == 'B' {
        Some((true, Piece::Bishop))
    } else if c == 'b' {
        Some((false, Piece::Bishop))
    } else if c == 'Q' {
        Some((true, Piece::Queen))
    } else if c == 'q' {
        Some((false, Piece::Queen))
    } else if c == 'K' {
        Some((true, Piece::King))
    } else if c == 'k' {
        Some((false, Piece::King))
    } else {
        None
    }
}

/// A board with nothing on it and no king set yet: each king's index is 64,
/// one past the last square.
fn blank_board() -> (board: Board)
    ensures
        board.disjoint(),
        board.squares() == no_squares(),
        board.white_king == 64,
        board.black_king == 64,
{
    let board = Board {
        white_pawns: 0,
        white_rooks: 0,
        white_knights: 0,
        white_bishops: 0,
        white_queens: 0,
        white_king: 64,
        black_pawns: 0,
        black_rooks: 0,
        black_knights: 0,
        black_bishops: 0,
        black_queens: 0,
        black_king: 64,
        white_pieces: 0,
        black_pieces: 0,
        pieces: 0,
        en_passant_target: None,
        white_queen_side_castling_right: false,
        white_king_side_castling_right: false,
        black_queen_side_castling_right: false,
        black_king_side_castling_right: false,
        white_to_play: true,
    };
    proof {
        assert forall|i: int| !crate::bits::bit(0u64, i) by {
            lemma_no_bits(i);
        }
        assert(board.squares() =~= no_squares());
    }
    board
}

/// Square `sq` lies before the place that the reading of the placement has
/// reached: on a rank already closed, or on the current rank before `file`.
pub open spec fn passed(sq: int, down: int, file: int) -> bool {
    sq / 8 > 7 - down || (sq / 8 == 7 - down && sq % 8 < file)
}

/// Reads the placement onto a board. A king that the placement does not
/// name keeps the index 64.
fn read_placement(s: &Vec<char>) -> (r: Result<Board, FenError>)
    requires
        tally(|i: int| s@[i] == '/', s@.len()) == 7,
    ensures
        match scan_placement(s@, 0, 0, 0, no_squares()) {
            Ok(squares) => r matches Ok(board) && board.disjoint() && board.squares() == squares
                && board.white_king <= 64 && board.black_king <= 64,
            Err(e) => r == Err::<Board, FenError>(e),
        },
{
    let mut board = blank_board();
    let mut down: usize = 0;
    let mut file: usize = 0;
    let mut i: usize = 0;
    let ghost slash = |j: int| s@[j] == '/';
    while i < s.len()
        invariant
            i <= s.len(),
            slash == |j: int| s@[j] == '/',
            tally(slash, s@.len()) == 7,
            down == tally(slash, i as nat),
            file <= 9,
            board.disjoint(),
            board.white_king <= 64,
            board.black_king <= 64,
            forall|sq: int|
                0 <= sq < 64 && !passed(sq, down as int, file as int) ==> (
                #[trigger] board.squares()[sq]) is None,
            scan_placement(s@, i as int, down as int, file as int, board.squares())
                == scan_placement(s@, 0, 0, 0, no_squares()),
        decreases s.len() - i,
    {
        let c = s[i];
        proof {
            lemma_tally_grows(slash, (i + 1) as nat, s@.len());
        }
        if c == '/' {
            if file != 8 {
                return Err(FenError::RankLength { rank: 8 - down });
            }
            down += 1;
            file = 0;
        } else if '0' <= c && c <= '9' {
            let skipped = file + (c as u32 - '0' as u32) as usize;
            file = if skipped > 9 {
                9
            } else {
                skipped
            };
        } else if file >= 8 {
            return Err(FenError::RankTooLong { rank: 8 - down });
        } else {
            match piece_for(c) {
                Some(who) => {
                    let sq = (7 - down) * 8 + file;
                    proof {
                        assert(!passed(sq as int, down as int, file as int));
                        assert(board.squares()[sq as int] is None);
                    }
                    let ghost before = board.squares();
                    match who.1 {
                        Piece::King => {
                            board.set_king(who.0, sq);
                        },
                        _ => {
                            board.place(who.0, who.1, sq);
                        },
                    }
                    proof {
                        assert(board.squares() == set_down(before, sq as int, who));
                        assert forall|t: int|
                            0 <= t < 64 && !passed(t, down as int, file + 1) implies (
                        #[trigger] board.squares()[t]) is None by {
                            assert(!passed(t, down as int, file as int));
                            assert(before[t] is None);
                        }
                    }
                    file += 1;
                },
                None => {
                    return Err(FenError::InvalidPiece { found: c });
                },
            }
        }
        i += 1;
    }
    if file != 8 {
        return Err(FenError::RankLength { rank: 8 - down });
    }
    Ok(board)
}

/// The number of `/` in the placement.
fn count_slashes(s: &Vec<char>) -> (n: usize)
    ensures
        n == tally(|i: int| s@[i] == '/', s@.len()),
{
    let mut n: usize = 0;
    let mut i: usize = 0;
    let ghost slash = |j: int| s@[j] == '/';
    while i < s.len()
        invariant
            i <= s.len(),
            slash == |j: int| s@[j] == '/',
            n == tally(slash, i as nat),
            n <= i,
        decreases s.len() - i,
    {
        if s[i] == '/' {
            n += 1;
        }
        i += 1;
    }
    n
}

/// The castling rights that the field names.
fn read_rights(s: &Vec<char>) -> (r: Result<(bool, bool, bool, bool), FenError>)
    ensures
        r == rights_of(s@),
{
    if s.len() == 1 && s[0] == '-' {
        return Ok((false, false, false, false));
    }
    let mut wks = false;
    let mut wqs = false;
    let mut bks = false;
    let mut bqs = false;
    let mut i: usize = 0;
    while i < s.len()
        invariant
            i <= s.len(),
            !(s@.len() == 1 && s@[0] == '-'),
            forall|j: int| 0 <= j < i ==> is_right(#[trigger] s@[j]),
            wks == s@.subrange(0, i as int).contains('K'),
            wqs == s@.subrange(0, i as int).contains('Q'),
            bks == s@.subrange(0, i as int).contains('k'),
            bqs == s@.subrange(0, i as int).contains('q'),
        decreases s.len() - i,
    {
        let c = s[i];
        proof {
            let shorter = s@.subrange(0, i as int);
            let longer = s@.subrange(0, i + 1);
            assert(longer =~= shorter.push(c));
            crate::piece::probe::lemma_contains_push(shorter, c, 'K');
            crate::piece::probe::lemma_contains_push(shorter, c, 'Q');
            crate::piece::probe::lemma_contains_push(shorter, c, 'k');
            crate::piece::probe::lemma_contains_push(shorter, c, 'q');
        }
        if c == 'K' {
            wks = true;
        } else if c == 'Q' {
            wqs = true;
        } else if c == 'k' {
            bks = true;
        } else if c == 'q' {
            bqs = true;
        } else {
            proof {
                let first = choose|k: int|
                    0 <= k < s@.len() && !is_right(#[trigger] s@[k]) && forall|j: int|
                        0 <= j < k ==> is_right(#[trigger] s@[j]);
                assert(!is_right(s@[i as int]));
                assert(first == i) by {
                    if first < i {
                        assert(is_right(s@[first]));
                    }
                    if i < first {
                        assert(is_right(s@[i as int]));
                    }
                }
            }
            return Err(FenError::InvalidCastling { found: c });
        }
        i += 1;
    }
    proof {
        assert(s@.subrange(0, i as int) =~= s@);
    }
    Ok((wks, wqs, bks, bqs))
}

/// The en-passant target that the field names.
fn read_target(s: &Vec<char>) -> (r: Result<Option<usize>, FenError>)
    ensures
        r == target_of(s@),
        r matches Ok(Some(e)) ==> e < 64,
{
    if s.len() == 1 && s[0] == '-' {
        Ok(None)
    } else if s.len() == 2 && 'a' <= s[0] && s[0] <= 'h' && '1' <= s[1] && s[1] <= '8' {
        let file = (s[0] as u32 - 'a' as u32) as usize;
        let rank = (s[1] as u32 - '1' as u32) as usize;
        Ok(Some(rank * 8 + file))
    } else {
        Err(FenError::InvalidEnPassant)
    }
}

/// The board that four fields describe: placement, side to move, castling
/// rights and en-passant target. Nothing is checked beyond what the fields
/// say: the rights need not fit the placement.
pub fn from_layout(
    placement: &Vec<char>,
    active: &Vec<char>,
    castling: &Vec<char>,
    en_passant: &Vec<char>,
) -> (r: Result<Board, FenError>)
    ensures
        match layout_of(placement@, active@, castling@, en_passant@) {
            Ok(p) => r matches Ok(board) && board.wf() && board@ == p,
            Err(e) => r == Err::<Board, FenError>(e),
        },
{
    if count_slashes(placement) != 7 {
        return Err(FenError::RankCount);
    }
    let mut board = match read_placement(placement) {
        Ok(board) => board,
        Err(e) => {
            return Err(e);
        },
    };
    let ghost squares = board.squares();
    let ghost read = board;
    proof {
        assert forall|i: int| 0 <= i < 64 implies ((i == board.white_king) == (squares[i] == Some(
            (true, Piece::King),
        ))) && ((i == board.black_king) == (squares[i] == Some((false, Piece::King)))) by {
            board.lemma_cells(i);
        }
        if board.white_king < 64 {
            assert(squares[board.white_king as int] == Some((true, Piece::King)));
        }
        if board.black_king < 64 {
            assert(squares[board.black_king as int] == Some((false, Piece::King)));
        }
    }
    if board.white_king >= 64 {
        return Err(FenError::MissingWhiteKing);
    }
    if board.black_king >= 64 {
        return Err(FenError::MissingBlackKing);
    }
    let rights = match read_rights(castling) {
        Ok(rights) => rights,
        Err(e) => {
            return Err(e);
        },
    };
    let target = match read_target(en_passant) {
        Ok(target) => target,
        Err(e) => {
            return Err(e);
        },
    };
    if !(active.len() == 1 && (active[0] == 'w' || active[0] == 'b')) {
        return Err(FenError::InvalidActiveColor);
    }
    board.white_king_side_castling_right = rights.0;
    board.white_queen_side_castling_right = rights.1;
    board.black_king_side_castling_right = rights.2;
    board.black_queen_side_castling_right = rights.3;
    board.en_passant_target = target;
    board.white_to_play = active[0] == 'w';
    board.refresh_occupancy();
    proof {
        assert forall|i: int| 0 <= i < 64 implies #[trigger] board.load(i) <= 1 by {
            assert(read.load(i) <= 1);
        }
        assert(board.squares() =~= squares);
    }
    Ok(board)
}

/// The kind of the piece that starts the game on the given file of a back rank.
pub open spec fn back_rank(file: int) -> Piece {
    if file == 0 || file == 7 {
        Piece::Rook
    } else if file == 1 || file == 6 {
        Piece::Knight
    } else if file == 2 || file == 5 {
        Piece::Bishop
    } else if file == 3 {
        Piece::Queen
    } else {
        Piece::King
    }
}

/// The position in which a game starts: the white pieces on the first rank,
/// white pawns on the second, black pawns on the seventh, the black pieces
/// on the eighth, white to move, every castling right held, no en-passant
/// target.
pub open spec fn starting_position() -> Position {
    Position {
        squares: Seq::new(
            64,
            |i: int|
                if i / 8 == 0 {
                    Some((true, back_rank(i % 8)))
                } else if i / 8 == 1 {
                    Some((true, Piece::Pawn))
                } else if i / 8 == 6 {
                    Some((false, Piece::Pawn))
                } else if i / 8 == 7 {
                    Some((false, back_rank(i % 8)))
                } else {
                    None
                },
        ),
        white_to_play: true,
        en_passant_target: None,
        white_queen_side: true,
        white_king_side: true,
        black_queen_side: true,
        black_king_side: true,
    }
}

impl Board {
    /// The board on which a game starts.
    pub fn new() -> (r: Result<Board, FenError>)
        ensures
            r matches Ok(board) && board.wf() && board@ == starting_position(),
    {
        proof {
            assert forall|i: int| !crate::bits::bit(0u64, i) by {
                lemma_no_bits(i);
            }
        }
        let mut board = Board {
            white_pawns: rank_mask(8),
            white_rooks: with_bit(with_bit(0, 0), 7),
            white_knights: with_bit(with_bit(0, 1), 6),
            white_bishops: with_bit(with_bit(0, 2), 5),
            white_queens: with_bit(0, 3),
            white_king: 4,
            black_pawns: rank_mask(48),
            black_rooks: with_bit(with_bit(0, 56), 63),
            black_knights: with_bit(with_bit(0, 57), 62),
            black_bishops: with_bit(with_bit(0, 58), 61),
            black_queens: with_bit(0, 59),
            black_king: 60,
            white_pieces: 0,
            black_pieces: 0,
            pieces: 0,
            en_passant_target: None,
            white_queen_side_castling_right: true,
            white_king_side_castling_right: true,
            black_queen_side_castling_right: true,
            black_king_side_castling_right: true,
            white_to_play: true,
        };
        let ghost set = board;
        board.refresh_occupancy();
        proof {
            assert forall|i: int| 0 <= i < 64 implies #[trigger] board.load(i) <= 1 by {
                assert(set.load(i) == board.load(i));
            }
            assert(board@.squares =~= starting_position().squares);
        }
        Ok(board)
    }

    /// The board that a description in Forsyth-Edwards notation gives: the
    /// first four fields, without the move counters. A description that is
    /// refused leaves no board behind.
    pub fn from_fen(fen: &str) -> (r: Result<Board, FenError>)
        ensures
            match fen_position(fen@) {
                Ok(p) => r matches Ok(board) && board.wf() && board@ == p,
                Err(e) => r == Err::<Board, FenError>(e),
            },
    {
        let chars = chars_of(fen);
        let fields = split_fields(&chars);
        if fields.len() != 4 {
            return Err(FenError::FieldCount);
        }
        proof {
            assert(views_of(fields@)[0] == fields@[0]@);
            assert(views_of(fields@)[1] == fields@[1]@);
            assert(views_of(fields@)[2] == fields@[2]@);
            assert(views_of(fields@)[3] == fields@[3]@);
        }
        from_layout(&fields[0], &fields[1], &fields[2], &fields[3])
    }
}

} // verus!
