use vstd::prelude::*;
use crate::bits::{bit, lemma_no_bits, with_bit, Bitboard};

verus! {

/// The two squares share a rank.
pub open spec fn same_rank(a: int, b: int) -> bool {
    a / 8 == b / 8
}

/// The two squares share a file.
pub open spec fn same_file(a: int, b: int) -> bool {
    a % 8 == b % 8
}

/// The two squares share a diagonal, one that rises towards the h-file.
pub open spec fn same_diagonal(a: int, b: int) -> bool {
    a / 8 - a % 8 == b / 8 - b % 8
}

/// The two squares share an antidiagonal, one that rises towards the a-file.
pub open spec fn same_antidiagonal(a: int, b: int) -> bool {
    a / 8 + a % 8 == b / 8 + b % 8
}

/// The distance between two numbers.
pub open spec fn gap(a: int, b: int) -> int {
    if a < b {
        b - a
    } else {
        a - b
    }
}

/// A knight jumps between the two squares: two ranks and one file apart, or
/// one rank and two files.
pub open spec fn knight_jump(a: int, b: int) -> bool {
    let ranks = gap(a / 8, b / 8);
    let files = gap(a % 8, b % 8);
    (ranks == 2 && files == 1) || (ranks == 1 && files == 2)
}

/// A king steps between the two squares: they differ and touch.
pub open spec fn king_step(a: int, b: int) -> bool {
    a != b && gap(a / 8, b / 8) <= 1 && gap(a % 8, b % 8) <= 1
}

/// A pawn of the given colour on `from` attacks `to`: one rank ahead of it,
/// one file to the side.
pub open spec fn pawn_attack(white: bool, from: int, to: int) -> bool {
    to / 8 == from / 8 + (if white {
        1int
    } else {
        -1int
    }) && gap(from % 8, to % 8) == 1
}

/// The squares of the rank of `sq`.
pub fn rank_mask(sq: usize) -> (m: Bitboard)
    requires
        sq < 64,
    ensures
        forall|i: int| bit(m, i) == (0 <= i < 64 && same_rank(sq as int, i)),
{
    let r: u64 = (sq / 8) as u64;
    let m: u64 = 0xFFu64 << (r * 8);
    proof {
        assert forall|i: int| bit(m, i) == (0 <= i < 64 && same_rank(sq as int, i)) by {
            if 0 <= i < 64 {
                let k: u64 = i as u64;
                assert(r < 8 && k < 64 ==> ((((0xFFu64 << ((r * 8) as u64)) >> k) & 1 == 1) <==> k / 8
                    == r)) by (bit_vector);
            }
        }
    }
    m
}

/// The squares of the file of `sq`.
pub fn file_mask(sq: usize) -> (m: Bitboard)
    requires
        sq < 64,
    ensures
        forall|i: int| bit(m, i) == (0 <= i < 64 && same_file(sq as int, i)),
{
    let f: u64 = (sq % 8) as u64;
    let m: u64 = 0x0101_0101_0101_0101u64 << f;
    proof {
        assert forall|i: int| bit(m, i) == (0 <= i < 64 && same_file(sq as int, i)) by {
            if 0 <= i < 64 {
                let k: u64 = i as u64;
                assert(f < 8 && k < 64 ==> ((((0x0101_0101_0101_0101u64 << f) >> k) & 1 == 1)
                    <==> k % 8 == f)) by (bit_vector);
            }
        }
    }
    m
}

/// The squares of the antidiagonal of `sq`.
pub fn antidiagonal_mask(sq: usize) -> (m: Bitboard)
    requires
        sq < 64,
    ensures
        forall|i: int| bit(m, i) == (0 <= i < 64 && same_antidiagonal(sq as int, i)),
{
    let s: u64 = (sq / 8 + sq % 8) as u64;
    let m: u64 = if s <= 7 {
        0x0102_0408_1020_4080u64 >> (8 * (7 - s))
    } else {
        0x0102_0408_1020_4080u64 << (8 * (s - 7))
    };
    proof {
        assert forall|i: int| bit(m, i) == (0 <= i < 64 && same_antidiagonal(sq as int, i)) by {
            if 0 <= i < 64 {
                let k: u64 = i as u64;
                if s <= 7 {
                    assert(s <= 7 && k < 64 ==> ((((0x0102_0408_1020_4080u64 >> ((8 * (7 - s)) as u64))
                        >> k) & 1 == 1) <==> k / 8 + k % 8 == s)) by (bit_vector);
                } else {
                    assert(7 < s && s <= 14 && k < 64 ==> ((((0x0102_0408_1020_4080u64 << ((8 * (s
                        - 7)) as u64)) >> k) & 1 == 1) <==> k / 8 + k % 8 == s)) by (bit_vector);
                }
            }
        }
    }
    m
}

/// The squares of the diagonal of `sq`.
pub fn diagonal_mask(sq: usize) -> (m: Bitboard)
    requires
        sq < 64,
    ensures
        forall|i: int| bit(m, i) == (0 <= i < 64 && same_diagonal(sq as int, i)),
{
    let r: u64 = (sq / 8) as u64;
    let f: u64 = (sq % 8) as u64;
    let m: u64 = if r >= f {
        0x8040_2010_0804_0201u64 << (8 * (r - f))
    } else {
        0x8040_2010_0804_0201u64 >> (8 * (f - r))
    };
    proof {
        assert forall|i: int| bit(m, i) == (0 <= i < 64 && same_diagonal(sq as int, i)) by {
            if 0 <= i < 64 {
                let k: u64 = i as u64;
                if r >= f {
                    let d: u64 = (r - f) as u64;
                    assert(d < 8 && k < 64 ==> ((((0x8040_2010_0804_0201u64 << ((8 * d) as u64)) >> k) & 1
                        == 1) <==> k / 8 == k % 8 + d)) by (bit_vector);
                } else {
                    let d: u64 = (f - r) as u64;
                    assert(d < 8 && k < 64 ==> ((((0x8040_2010_0804_0201u64 >> ((8 * d) as u64)) >> k) & 1
                        == 1) <==> k / 8 + d == k % 8)) by (bit_vector);
                }
            }
        }
    }
    m
}

/// The squares a knight's jump away from `sq`.
pub fn knight_mask(sq: usize) -> (m: Bitboard)
    requires
        sq < 64,
    ensures
        forall|i: int| bit(m, i) == (0 <= i < 64 && knight_jump(sq as int, i)),
{
    let file = sq % 8;
    let rank = sq / 8;
    let mut m: u64 = 0;
    proof {
        assert forall|i: int| !bit(0u64, i) by {
            lemma_no_bits(i);
        }
    }
    if file > 1 {
        if rank > 0 {
            m = with_bit(m, sq - 10);
        }
        if rank < 7 {
            m = with_bit(m, sq + 6);
        }
    }
    if file > 0 {
        if rank > 1 {
            m = with_bit(m, sq - 17);
        }
        if rank < 6 {
            m = with_bit(m, sq + 15);
        }
    }
    if file < 6 {
        if rank < 7 {
            m = with_bit(m, sq + 10);
        }
        if rank > 0 {
            m = with_bit(m, sq - 6);
        }
    }
    if file < 7 {
        if rank < 6 {
            m = with_bit(m, sq + 17);
        }
        if rank > 1 {
            m = with_bit(m, sq - 15);
        }
    }
    m
}

/// The squares a king's step away from `sq`.
pub fn king_mask(sq: usize) -> (m: Bitboard)
    requires
        sq < 64,
    ensures
        forall|i: int| bit(m, i) == (0 <= i < 64 && king_step(sq as int, i)),
{
    let file = sq % 8;
    let rank = sq / 8;
    let mut m: u64 = 0;
    proof {
        assert forall|i: int| !bit(0u64, i) by {
            lemma_no_bits(i);
        }
    }
    if file > 0 {
        m = with_bit(m, sq - 1);
        if rank > 0 {
            m = with_bit(m, sq - 9);
        }
        if rank < 7 {
            m = with_bit(m, sq + 7);
        }
    }
    if file < 7 {
        m = with_bit(m, sq + 1);
        if rank > 0 {
            m = with_bit(m, sq - 7);
        }
        if rank < 7 {
            m = with_bit(m, sq + 9);
        }
    }
    if rank > 0 {
        m = with_bit(m, sq - 8);
    }
    if rank < 7 {
        m = with_bit(m, sq + 8);
    }
    m
}

/// The squares from which a black pawn attacks `sq`: where a white king on
/// `sq` has to look for one.
pub fn white_king_pawn_mask(sq: usize) -> (m: Bitboard)
    requires
        sq < 64,
    ensures
        forall|i: int| bit(m, i) == (0 <= i < 64 && pawn_attack(false, i, sq as int)),
{
    let file = sq % 8;
    let rank = sq / 8;
    let mut m: u64 = 0;
    proof {
        assert forall|i: int| !bit(0u64, i) by {
            lemma_no_bits(i);
        }
    }
    if rank < 7 {
        if file > 0 {
            m = with_bit(m, sq + 7);
        }
        if file < 7 {
            m = with_bit(m, sq + 9);
        }
    }
    m
}

/// The squares from which a white pawn attacks `sq`: where a black king on
/// `sq` has to look for one.
pub fn black_king_pawn_mask(sq: usize) -> (m: Bitboard)
    requires
        sq < 64,
    ensures
        forall|i: int| bit(m, i) == (0 <= i < 64 && pawn_attack(true, i, sq as int)),
{
    let file = sq % 8;
    let rank = sq / 8;
    let mut m: u64 = 0;
    proof {
        assert forall|i: int| !bit(0u64, i) by {
            lemma_no_bits(i);
        }
    }
    if rank > 0 {
        if file > 0 {
            m = with_bit(m, sq - 9);
        }
        if file < 7 {
            m = with_bit(m, sq - 7);
        }
    }
    m
}

/// The table of rank masks, one entry per square.
pub fn make_rank_masks() -> (masks: [Bitboard; 64])
    ensures
        forall|sq: int, i: int|
            0 <= sq < 64 ==> #[trigger] bit(masks[sq], i) == (0 <= i < 64 && same_rank(sq, i)),
{
    let mut masks: [Bitboard; 64] = [0u64; 64];
    let mut sq: usize = 0;
    while sq < 64
        invariant
            sq <= 64,
            forall|s: int, i: int|
                0 <= s < sq ==> #[trigger] bit(masks[s], i) == (0 <= i < 64 && same_rank(s, i)),
        decreases 64 - sq,
    {
        masks[sq] = rank_mask(sq);
        sq += 1;
    }
    masks
}

/// The table of file masks, one entry per square.
pub fn make_file_masks() -> (masks: [Bitboard; 64])
    ensures
        forall|sq: int, i: int|
            0 <= sq < 64 ==> #[trigger] bit(masks[sq], i) == (0 <= i < 64 && same_file(sq, i)),
{
    let mut masks: [Bitboard; 64] = [0u64; 64];
    let mut sq: usize = 0;
    while sq < 64
        invariant
            sq <= 64,
            forall|s: int, i: int|
                0 <= s < sq ==> #[trigger] bit(masks[s], i) == (0 <= i < 64 && same_file(s, i)),
        decreases 64 - sq,
    {
        masks[sq] = file_mask(sq);
        sq += 1;
    }
    masks
}

/// The table of antidiagonal masks, one entry per square.
pub fn make_antidiagonal_masks() -> (masks: [Bitboard; 64])
    ensures
        forall|sq: int, i: int|
            0 <= sq < 64 ==> #[trigger] bit(masks[sq], i) == (0 <= i < 64 && same_antidiagonal(sq, i)),
{
    let mut masks: [Bitboard; 64] = [0u64; 64];
    let mut sq: usize = 0;
    while sq < 64
        invariant
            sq <= 64,
            forall|s: int, i: int|
                0 <= s < sq ==> #[trigger] bit(masks[s], i) == (0 <= i < 64 && same_antidiagonal(s, i)),
        decreases 64 - sq,
    {
        masks[sq] = antidiagonal_mask(sq);
        sq += 1;
    }
    masks
}

/// The table of diagonal masks, one entry per square.
pub fn make_diagonal_masks() -> (masks: [Bitboard; 64])
    ensures
        forall|sq: int, i: int|
            0 <= sq < 64 ==> #[trigger] bit(masks[sq], i) == (0 <= i < 64 && same_diagonal(sq, i)),
{
    let mut masks: [Bitboard; 64] = [0u64; 64];
    let mut sq: usize = 0;
    while sq < 64
        invariant
            sq <= 64,
            forall|s: int, i: int|
                0 <= s < sq ==> #[trigger] bit(masks[s], i) == (0 <= i < 64 && same_diagonal(s, i)),
        decreases 64 - sq,
    {
        masks[sq] = diagonal_mask(sq);
        sq += 1;
    }
    masks
}

/// The table of knight jumps, one entry per square.
pub fn make_knight_masks() -> (masks: [Bitboard; 64])
    ensures
        forall|sq: int, i: int|
            0 <= sq < 64 ==> #[trigger] bit(masks[sq], i) == (0 <= i < 64 && knight_jump(sq, i)),
{
    let mut masks: [Bitboard; 64] = [0u64; 64];
    let mut sq: usize = 0;
    while sq < 64
        invariant
            sq <= 64,
            forall|s: int, i: int|
                0 <= s < sq ==> #[trigger] bit(masks[s], i) == (0 <= i < 64 && knight_jump(s, i)),
        decreases 64 - sq,
    {
        masks[sq] = knight_mask(sq);
        sq += 1;
    }
    masks
}

/// The table of king steps, one entry per square.
pub fn make_king_masks() -> (masks: [Bitboard; 64])
    ensures
        forall|sq: int, i: int|
            0 <= sq < 64 ==> #[trigger] bit(masks[sq], i) == (0 <= i < 64 && king_step(sq, i)),
{
    let mut masks: [Bitboard; 64] = [0u64; 64];
    let mut sq: usize = 0;
    while sq < 64
        invariant
            sq <= 64,
            forall|s: int, i: int|
                0 <= s < sq ==> #[trigger] bit(masks[s], i) == (0 <= i < 64 && king_step(s, i)),
        decreases 64 - sq,
    {
        masks[sq] = king_mask(sq);
        sq += 1;
    }
    masks
}

/// The table of squares from which a black pawn attacks, one entry per square.
pub fn make_white_king_pawn_masks() -> (masks: [Bitboard; 64])
    ensures
        forall|sq: int, i: int|
            0 <= sq < 64 ==> #[trigger] bit(masks[sq], i) == (0 <= i < 64 && pawn_attack(false, i, sq)),
{
    let mut masks: [Bitboard; 64] = [0u64; 64];
    let mut sq: usize = 0;
    while sq < 64
        invariant
            sq <= 64,
            forall|s: int, i: int|
                0 <= s < sq ==> #[trigger] bit(masks[s], i) == (0 <= i < 64 && pawn_attack(false, i, s)),
        decreases 64 - sq,
    {
        masks[sq] = white_king_pawn_mask(sq);
        sq += 1;
    }
    masks
}

/// The table of squares from which a white pawn attacks, one entry per square.
pub fn make_black_king_pawn_masks() -> (masks: [Bitboard; 64])
    ensures
        forall|sq: int, i: int|
            0 <= sq < 64 ==> #[trigger] bit(masks[sq], i) == (0 <= i < 64 && pawn_attack(true, i, sq)),
{
    let mut masks: [Bitboard; 64] = [0u64; 64];
    let mut sq: usize = 0;
    while sq < 64
        invariant
            sq <= 64,
            forall|s: int, i: int|
                0 <= s < sq ==> #[trigger] bit(masks[s], i) == (0 <= i < 64 && pawn_attack(true, i, s)),
        decreases 64 - sq,
    {
        masks[sq] = black_king_pawn_mask(sq);
        sq += 1;
    }
    masks
}

} // verus!
