use vstd::prelude::*;
use vstd::string::StringExecFns;
use crate::bits::{bit, has_bit};
use crate::board::Board;
use crate::defines::Piece;
use crate::position::Position;

verus! {

/// `String::push` appends one character to the end of the string.
pub assume_specification[ String::push ](s: &mut String, c: char)
    ensures
        final(s)@ == old(s)@.push(c),
;

/// The letter of the file of a square, `a` to `h`.
pub open spec fn file_letter(sq: int) -> char {
    (('a' as u8) + (sq % 8) as u8) as char
}

/// The digit of the rank of a square, `1` to `8`.
pub open spec fn rank_digit(sq: int) -> char {
    (('1' as u8) + (sq / 8) as u8) as char
}

/// The letter of the file of a square.
pub fn file_char(sq: usize) -> (c: char)
    requires
        sq < 64,
    ensures
        c == file_letter(sq as int),
{
    (('a' as u8) + (sq % 8) as u8) as char
}

/// The digit of the rank of a square.
pub fn rank_char(sq: usize) -> (c: char)
    requires
        sq < 64,
    ensures
        c == rank_digit(sq as int),
{
    (('1' as u8) + (sq / 8) as u8) as char
}

/// The decimal digits of a number.
pub open spec fn decimal(n: nat) -> Seq<char>
    decreases n,
{
    if n < 10 {
        seq![(('0' as u8) + n as u8) as char]
    } else {
        decimal(n / 10).push((('0' as u8) + (n % 10) as u8) as char)
    }
}

/// Adds the decimal digits of a number to a text.
pub fn push_number(text: &mut String, n: usize)
    ensures
        final(text)@ == old(text)@ + decimal(n as nat),
    decreases n,
{
    if n >= 10 {
        push_number(text, n / 10);
    }
    text.push((('0' as u8) + (n % 10) as u8) as char);
    proof {
        assert(text@ =~= old(text)@ + decimal(n as nat));
    }
}

/// Adds a piece of text to a text.
pub fn push_text(text: &mut String, more: &str)
    ensures
        final(text)@ == old(text)@ + more@,
{
    text.append(more);
}

/// The character that shows what stands on a square: the piece's letter,
/// upper case for white and lower case for black, or a raised dot.
pub open spec fn symbol(cell: Option<(bool, Piece)>) -> char {
    match cell {
        Some((true, Piece::Pawn)) => 'P',
        Some((true, Piece::Rook)) => 'R',
        Some((true, Piece::Knight)) => 'N',
        Some((true, Piece::Bishop)) => 'B',
        Some((true, Piece::Queen)) => 'Q',
        Some((true, Piece::King)) => 'K',
        Some((false, Piece::Pawn)) => 'p',
        Some((false, Piece::Rook)) => 'r',
        Some((false, Piece::Knight)) => 'n',
        Some((false, Piece::Bishop)) => 'b',
        Some((false, Piece::Queen)) => 'q',
        Some((false, Piece::King)) => 'k',
        _ => '\u{b7}',
    }
}

/// A diagram of eight lines, the eighth rank first: for each square of a
/// rank, from the a-file on, the character that `mark` gives it and a blank,
/// then a line feed.
pub open spec fn diagram(mark: spec_fn(int) -> char) -> Seq<char> {
    Seq::new(
        136,
        |k: int|
            if k % 17 == 16 {
                '\n'
            } else if (k % 17) % 2 == 1 {
                ' '
            } else {
                mark((7 - k / 17) * 8 + (k % 17) / 2)
            },
    )
}

/// The diagram of a position.
pub open spec fn board_text(p: Position) -> Seq<char> {
    diagram(|sq: int| symbol(p.squares[sq]))
}

/// The diagram of a set of squares, with `1` for a member and a raised dot
/// for any other square, and an empty line after it.
pub open spec fn bitboard_text(m: u64) -> Seq<char> {
    diagram(
        |sq: int|
            if bit(m, sq) {
                '1'
            } else {
                '\u{b7}'
            },
    ).push('\n')
}

/// The character that shows what stands on a square of the board.
fn symbol_at(board: &Board, sq: usize) -> (c: char)
    requires
        board.wf(),
        sq < 64,
    ensures
        c == symbol(board@.squares[sq as int]),
{
    proof {
        board.lemma_cells(sq as int);
    }
    let white = has_bit(board.side_mask(true), sq);
    match board.piece_at(sq) {
        Piece::Pawn => if white {
            'P'
        } else {
            'p'
        },
        Piece::Rook => if white {
            'R'
        } else {
            'r'
        },
        Piece::Knight => if white {
            'N'
        } else {
            'n'
        },
        Piece::Bishop => if white {
            'B'
        } else {
            'b'
        },
        Piece::Queen => if white {
            'Q'
        } else {
            'q'
        },
        Piece::King => if white {
            'K'
        } else {
            'k'
        },
        Piece::Empty => '\u{b7}',
    }
}

impl Board {
    /// The diagram of the board, as seen from white's side.
    pub fn render(&self) -> (text: String)
        requires
            self.wf(),
        ensures
            text@ == board_text(self@),
    {
        let ghost want = board_text(self@);
        let mut text = String::new();
        let mut row: usize = 0;
        while row < 8
            invariant
                self.wf(),
                want == board_text(self@),
                row <= 8,
                text@ == want.subrange(0, row * 17),
            decreases 8 - row,
        {
            let rank = 7 - row;
            let mut file: usize = 0;
            while file < 8
                invariant
                    self.wf(),
                    want == board_text(self@),
                    row < 8,
                    rank == 7 - row,
                    file <= 8,
                    text@ == want.subrange(0, row * 17 + file * 2),
                decreases 8 - file,
            {
                text.push(symbol_at(self, rank * 8 + file));
                text.push(' ');
                proof {
                    assert(text@ =~= want.subrange(0, row * 17 + (file + 1) * 2));
                }
                file += 1;
            }
            text.push('\n');
            proof {
                assert(text@ =~= want.subrange(0, (row + 1) * 17));
            }
            row += 1;
        }
        proof {
            assert(text@ =~= want);
        }
        text
    }
}

/// The diagram of a set of squares, as seen from white's side.
pub fn render_bitboard(bb: u64) -> (text: String)
    ensures
        text@ == bitboard_text(bb),
{
    let ghost want = bitboard_text(bb);
    let mut text = String::new();
    let mut row: usize = 0;
    while row < 8
        invariant
            want == bitboard_text(bb),
            row <= 8,
            text@ == want.subrange(0, row * 17),
        decreases 8 - row,
    {
        let rank = 7 - row;
        let mut file: usize = 0;
        while file < 8
            invariant
                want == bitboard_text(bb),
                row < 8,
                rank == 7 - row,
                file <= 8,
                text@ == want.subrange(0, row * 17 + file * 2),
            decreases 8 - file,
        {
            text.push(
                if has_bit(bb, rank * 8 + file) {
                    '1'
                } else {
                    '\u{b7}'
                },
            );
            text.push(' ');
            proof {
                assert(text@ =~= want.subrange(0, row * 17 + (file + 1) * 2));
            }
            file += 1;
        }
        text.push('\n');
        proof {
            assert(text@ =~= want.subrange(0, (row + 1) * 17));
        }
        row += 1;
    }
    text.push('\n');
    proof {
        assert(text@ =~= want);
    }
    text
}

} // verus!
