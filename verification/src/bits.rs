use vstd::prelude::*;

verus! {

/// A set of board squares, one bit per square: bit 0 is a1, bit 7 is h1, bit 63 is h8.
pub type Bitboard = u64;

/// The number of a square, from 0 (a1) to 63 (h8): eight times the rank plus the file.
pub type Index = usize;

/// Square `i` belongs to the set `m`.
pub open spec fn bit(m: u64, i: int) -> bool {
    0 <= i < 64 && (m >> (i as u64)) & 1 == 1
}

/// Two sets with the same squares are the same 64-bit value.
pub proof fn lemma_same_bits(a: u64, b: u64)
    requires
        forall|i: int| 0 <= i < 64 ==> bit(a, i) == bit(b, i),
    ensures
        a == b,
{
    assert(bit(a, 0) == bit(b, 0));
    assert(bit(a, 1) == bit(b, 1));
    assert(bit(a, 2) == bit(b, 2));
    assert(bit(a, 3) == bit(b, 3));
    assert(bit(a, 4) == bit(b, 4));
    assert(bit(a, 5) == bit(b, 5));
    assert(bit(a, 6) == bit(b, 6));
    assert(bit(a, 7) == bit(b, 7));
    assert(bit(a, 8) == bit(b, 8));
    assert(bit(a, 9) == bit(b, 9));
    assert(bit(a, 10) == bit(b, 10));
    assert(bit(a, 11) == bit(b, 11));
    assert(bit(a, 12) == bit(b, 12));
    assert(bit(a, 13) == bit(b, 13));
    assert(bit(a, 14) == bit(b, 14));
    assert(bit(a, 15) == bit(b, 15));
    assert(bit(a, 16) == bit(b, 16));
    assert(bit(a, 17) == bit(b, 17));
    assert(bit(a, 18) == bit(b, 18));
    assert(bit(a, 19) == bit(b, 19));
    assert(bit(a, 20) == bit(b, 20));
    assert(bit(a, 21) == bit(b, 21));
    assert(bit(a, 22) == bit(b, 22));
    assert(bit(a, 23) == bit(b, 23));
    assert(bit(a, 24) == bit(b, 24));
    assert(bit(a, 25) == bit(b, 25));
    assert(bit(a, 26) == bit(b, 26));
    assert(bit(a, 27) == bit(b, 27));
    assert(bit(a, 28) == bit(b, 28));
    assert(bit(a, 29) == bit(b, 29));
    assert(bit(a, 30) == bit(b, 30));
    assert(bit(a, 31) == bit(b, 31));
    assert(bit(a, 32) == bit(b, 32));
    assert(bit(a, 33) == bit(b, 33));
    assert(bit(a, 34) == bit(b, 34));
    assert(bit(a, 35) == bit(b, 35));
    assert(bit(a, 36) == bit(b, 36));
    assert(bit(a, 37) == bit(b, 37));
    assert(bit(a, 38) == bit(b, 38));
    assert(bit(a, 39) == bit(b, 39));
    assert(bit(a, 40) == bit(b, 40));
    assert(bit(a, 41) == bit(b, 41));
    assert(bit(a, 42) == bit(b, 42));
    assert(bit(a, 43) == bit(b, 43));
    assert(bit(a, 44) == bit(b, 44));
    assert(bit(a, 45) == bit(b, 45));
    assert(bit(a, 46) == bit(b, 46));
    assert(bit(a, 47) == bit(b, 47));
    assert(bit(a, 48) == bit(b, 48));
    assert(bit(a, 49) == bit(b, 49));
    assert(bit(a, 50) == bit(b, 50));
    assert(bit(a, 51) == bit(b, 51));
    assert(bit(a, 52) == bit(b, 52));
    assert(bit(a, 53) == bit(b, 53));
    assert(bit(a, 54) == bit(b, 54));
    assert(bit(a, 55) == bit(b, 55));
    assert(bit(a, 56) == bit(b, 56));
    assert(bit(a, 57) == bit(b, 57));
    assert(bit(a, 58) == bit(b, 58));
    assert(bit(a, 59) == bit(b, 59));
    assert(bit(a, 60) == bit(b, 60));
    assert(bit(a, 61) == bit(b, 61));
    assert(bit(a, 62) == bit(b, 62));
    assert(bit(a, 63) == bit(b, 63));
    assert(a == b) by (bit_vector)
        requires
            ((a >> 0u64) & 1 == 1) == ((b >> 0u64) & 1 == 1),
            ((a >> 1u64) & 1 == 1) == ((b >> 1u64) & 1 == 1),
            ((a >> 2u64) & 1 == 1) == ((b >> 2u64) & 1 == 1),
            ((a >> 3u64) & 1 == 1) == ((b >> 3u64) & 1 == 1),
            ((a >> 4u64) & 1 == 1) == ((b >> 4u64) & 1 == 1),
            ((a >> 5u64) & 1 == 1) == ((b >> 5u64) & 1 == 1),
            ((a >> 6u64) & 1 == 1) == ((b >> 6u64) & 1 == 1),
            ((a >> 7u64) & 1 == 1) == ((b >> 7u64) & 1 == 1),
            ((a >> 8u64) & 1 == 1) == ((b >> 8u64) & 1 == 1),
            ((a >> 9u64) & 1 == 1) == ((b >> 9u64) & 1 == 1),
            ((a >> 10u64) & 1 == 1) == ((b >> 10u64) & 1 == 1),
            ((a >> 11u64) & 1 == 1) == ((b >> 11u64) & 1 == 1),
            ((a >> 12u64) & 1 == 1) == ((b >> 12u64) & 1 == 1),
            ((a >> 13u64) & 1 == 1) == ((b >> 13u64) & 1 == 1),
            ((a >> 14u64) & 1 == 1) == ((b >> 14u64) & 1 == 1),
            ((a >> 15u64) & 1 == 1) == ((b >> 15u64) & 1 == 1),
            ((a >> 16u64) & 1 == 1) == ((b >> 16u64) & 1 == 1),
            ((a >> 17u64) & 1 == 1) == ((b >> 17u64) & 1 == 1),
            ((a >> 18u64) & 1 == 1) == ((b >> 18u64) & 1 == 1),
            ((a >> 19u64) & 1 == 1) == ((b >> 19u64) & 1 == 1),
            ((a >> 20u64) & 1 == 1) == ((b >> 20u64) & 1 == 1),
            ((a >> 21u64) & 1 == 1) == ((b >> 21u64) & 1 == 1),
            ((a >> 22u64) & 1 == 1) == ((b >> 22u64) & 1 == 1),
            ((a >> 23u64) & 1 == 1) == ((b >> 23u64) & 1 == 1),
            ((a >> 24u64) & 1 == 1) == ((b >> 24u64) & 1 == 1),
            ((a >> 25u64) & 1 == 1) == ((b >> 25u64) & 1 == 1),
            ((a >> 26u64) & 1 == 1) == ((b >> 26u64) & 1 == 1),
            ((a >> 27u64) & 1 == 1) == ((b >> 27u64) & 1 == 1),
            ((a >> 28u64) & 1 == 1) == ((b >> 28u64) & 1 == 1),
            ((a >> 29u64) & 1 == 1) == ((b >> 29u64) & 1 == 1),
            ((a >> 30u64) & 1 == 1) == ((b >> 30u64) & 1 == 1),
            ((a >> 31u64) & 1 == 1) == ((b >> 31u64) & 1 == 1),
            ((a >> 32u64) & 1 == 1) == ((b >> 32u64) & 1 == 1),
            ((a >> 33u64) & 1 == 1) == ((b >> 33u64) & 1 == 1),
            ((a >> 34u64) & 1 == 1) == ((b >> 34u64) & 1 == 1),
            ((a >> 35u64) & 1 == 1) == ((b >> 35u64) & 1 == 1),
            ((a >> 36u64) & 1 == 1) == ((b >> 36u64) & 1 == 1),
            ((a >> 37u64) & 1 == 1) == ((b >> 37u64) & 1 == 1),
            ((a >> 38u64) & 1 == 1) == ((b >> 38u64) & 1 == 1),
            ((a >> 39u64) & 1 == 1) == ((b >> 39u64) & 1 == 1),
            ((a >> 40u64) & 1 == 1) == ((b >> 40u64) & 1 == 1),
            ((a >> 41u64) & 1 == 1) == ((b >> 41u64) & 1 == 1),
            ((a >> 42u64) & 1 == 1) == ((b >> 42u64) & 1 == 1),
            ((a >> 43u64) & 1 == 1) == ((b >> 43u64) & 1 == 1),
            ((a >> 44u64) & 1 == 1) == ((b >> 44u64) & 1 == 1),
            ((a >> 45u64) & 1 == 1) == ((b >> 45u64) & 1 == 1),
            ((a >> 46u64) & 1 == 1) == ((b >> 46u64) & 1 == 1),
            ((a >> 47u64) & 1 == 1) == ((b >> 47u64) & 1 == 1),
            ((a >> 48u64) & 1 == 1) == ((b >> 48u64) & 1 == 1),
            ((a >> 49u64) & 1 == 1) == ((b >> 49u64) & 1 == 1),
            ((a >> 50u64) & 1 == 1) == ((b >> 50u64) & 1 == 1),
            ((a >> 51u64) & 1 == 1) == ((b >> 51u64) & 1 == 1),
            ((a >> 52u64) & 1 == 1) == ((b >> 52u64) & 1 == 1),
            ((a >> 53u64) & 1 == 1) == ((b >> 53u64) & 1 == 1),
            ((a >> 54u64) & 1 == 1) == ((b >> 54u64) & 1 == 1),
            ((a >> 55u64) & 1 == 1) == ((b >> 55u64) & 1 == 1),
            ((a >> 56u64) & 1 == 1) == ((b >> 56u64) & 1 == 1),
            ((a >> 57u64) & 1 == 1) == ((b >> 57u64) & 1 == 1),
            ((a >> 58u64) & 1 == 1) == ((b >> 58u64) & 1 == 1),
            ((a >> 59u64) & 1 == 1) == ((b >> 59u64) & 1 == 1),
            ((a >> 60u64) & 1 == 1) == ((b >> 60u64) & 1 == 1),
            ((a >> 61u64) & 1 == 1) == ((b >> 61u64) & 1 == 1),
            ((a >> 62u64) & 1 == 1) == ((b >> 62u64) & 1 == 1),
            ((a >> 63u64) & 1 == 1) == ((b >> 63u64) & 1 == 1),
    ;
}

/// The empty set is the value zero.
pub proof fn lemma_no_bits(i: int)
    ensures
        !bit(0u64, i),
{
    if 0 <= i < 64 {
        let k: u64 = i as u64;
        assert((0u64 >> k) & 1 == 0) by (bit_vector);
    }
}

/// Membership in a one-square set.
pub proof fn lemma_bit_single(s: u64, i: int)
    requires
        s < 64,
    ensures
        bit(1u64 << s, i) == (i == s),
{
    if 0 <= i < 64 {
        let k: u64 = i as u64;
        assert(s < 64 && k < 64 ==> ((((1u64 << s) >> k) & 1 == 1) <==> k == s)) by (bit_vector);
    }
}

/// Membership in a union, an intersection, a symmetric difference and a complement.
pub proof fn lemma_bit_ops(a: u64, b: u64, i: int)
    ensures
        bit(a | b, i) == (bit(a, i) || bit(b, i)),
        bit(a & b, i) == (bit(a, i) && bit(b, i)),
        bit(a ^ b, i) == (bit(a, i) != bit(b, i)),
        bit(!a, i) == (0 <= i < 64 && !bit(a, i)),
{
    if 0 <= i < 64 {
        let k: u64 = i as u64;
        assert(k < 64 ==> {
            &&& (((a | b) >> k) & 1 == 1) <==> ((a >> k) & 1 == 1 || (b >> k) & 1 == 1)
            &&& (((a & b) >> k) & 1 == 1) <==> ((a >> k) & 1 == 1 && (b >> k) & 1 == 1)
            &&& (((a ^ b) >> k) & 1 == 1) <==> (((a >> k) & 1 == 1) != ((b >> k) & 1 == 1))
            &&& (((!a) >> k) & 1 == 1) <==> !((a >> k) & 1 == 1)
        }) by (bit_vector);
    }
}

/// Membership after every square moved `n` squares up the numbering.
pub proof fn lemma_bit_shl(a: u64, n: u64, i: int)
    requires
        n < 64,
    ensures
        bit(a << n, i) == (n <= i < 64 && bit(a, i - n)),
{
    if 0 <= i < 64 {
        let k: u64 = i as u64;
        if k >= n {
            let d: u64 = (k - n) as u64;
            assert(n < 64 && k < 64 && k >= n && d == k - n ==> ((((a << n) >> k) & 1 == 1) <==> ((a
                >> d) & 1 == 1))) by (bit_vector);
        } else {
            assert(n < 64 && k < n ==> ((a << n) >> k) & 1 == 0) by (bit_vector);
        }
    }
}

/// Membership after every square moved `n` squares down the numbering.
pub proof fn lemma_bit_shr(a: u64, n: u64, i: int)
    requires
        n < 64,
    ensures
        bit(a >> n, i) == (0 <= i && i + n < 64 && bit(a, i + n)),
{
    if 0 <= i < 64 {
        let k: u64 = i as u64;
        if k + n < 64 {
            let d: u64 = (k + n) as u64;
            assert(n < 64 && k < 64 && d < 64 && d == k + n ==> ((((a >> n) >> k) & 1 == 1) <==> ((a
                >> d) & 1 == 1))) by (bit_vector);
        } else {
            assert(n < 64 && k < 64 && k + n >= 64 ==> ((a >> n) >> k) & 1 == 0) by (bit_vector);
        }
    }
}

/// The one-square set of `sq`.
pub fn square_mask(sq: usize) -> (m: u64)
    requires
        sq < 64,
    ensures
        m == 1u64 << sq,
        forall|i: int| bit(m, i) == (i == sq),
{
    proof {
        assert forall|i: int| bit(1u64 << sq, i) == (i == sq) by {
            lemma_bit_single(sq as u64, i);
        }
    }
    1u64 << sq
}

/// Whether square `sq` belongs to `m`.
pub fn has_bit(m: u64, sq: usize) -> (r: bool)
    requires
        sq < 64,
    ensures
        r == bit(m, sq as int),
{
    let s: u64 = sq as u64;
    proof {
        assert(s < 64 ==> ((m & (1u64 << s) != 0) <==> ((m >> s) & 1 == 1))) by (bit_vector);
    }
    m & (1u64 << s) != 0
}

/// `m` with square `sq` added.
pub fn with_bit(m: u64, sq: usize) -> (r: u64)
    requires
        sq < 64,
    ensures
        r == m | (1u64 << sq),
        forall|i: int| bit(r, i) == (bit(m, i) || i == sq),
{
    let s: u64 = square_mask(sq);
    proof {
        assert forall|i: int| bit(m | s, i) == (bit(m, i) || i == sq) by {
            lemma_bit_ops(m, s, i);
        }
    }
    m | s
}

/// `m` with square `sq` removed.
pub fn without_bit(m: u64, sq: usize) -> (r: u64)
    requires
        sq < 64,
    ensures
        r == m & !(1u64 << sq),
        forall|i: int| bit(r, i) == (bit(m, i) && i != sq),
{
    let s: u64 = square_mask(sq);
    proof {
        assert forall|i: int| bit(m & !s, i) == (bit(m, i) && i != sq) by {
            lemma_bit_ops(m, !s, i);
            lemma_bit_ops(s, s, i);
        }
    }
    m & !s
}

/// The squares that both sets hold.
pub fn common(a: u64, b: u64) -> (r: u64)
    ensures
        r == a & b,
        forall|i: int| bit(r, i) == (bit(a, i) && bit(b, i)),
{
    proof {
        assert forall|i: int| bit(a & b, i) == (bit(a, i) && bit(b, i)) by {
            lemma_bit_ops(a, b, i);
        }
    }
    a & b
}

/// The squares of `a` that `b` does not hold.
pub fn except(a: u64, b: u64) -> (r: u64)
    ensures
        r == a & !b,
        forall|i: int| bit(r, i) == (bit(a, i) && !bit(b, i)),
{
    proof {
        assert forall|i: int| bit(a & !b, i) == (bit(a, i) && !bit(b, i)) by {
            lemma_bit_ops(a, !b, i);
            lemma_bit_ops(b, b, i);
        }
    }
    a & !b
}

/// The squares of either set.
pub fn either(a: u64, b: u64) -> (r: u64)
    ensures
        r == a | b,
        forall|i: int| bit(r, i) == (bit(a, i) || bit(b, i)),
{
    proof {
        assert forall|i: int| bit(a | b, i) == (bit(a, i) || bit(b, i)) by {
            lemma_bit_ops(a, b, i);
        }
    }
    a | b
}

/// Every square of `m` moved `n` squares along the numbering: up if
/// `up`, else down. Squares that leave the board are dropped.
pub fn shifted(m: u64, n: u64, up: bool) -> (r: u64)
    requires
        n < 64,
    ensures
        r == (if up {
            m << n
        } else {
            m >> n
        }),
        forall|i: int|
            bit(r, i) == (0 <= i < 64 && bit(
                m,
                if up {
                    i - n
                } else {
                    i + n
                },
            )),
{
    proof {
        assert forall|i: int| bit(m << n, i) == (0 <= i < 64 && bit(m, i - n)) by {
            lemma_bit_shl(m, n, i);
        }
        assert forall|i: int| bit(m >> n, i) == (0 <= i < 64 && bit(m, i + n)) by {
            lemma_bit_shr(m, n, i);
        }
    }
    if up {
        m << n
    } else {
        m >> n
    }
}

/// The lowest square of a set that is not empty.
pub open spec fn lowest(m: u64) -> int {
    choose|s: int| bit(m, s) && forall|j: int| 0 <= j < s ==> !bit(m, j)
}

/// A set is empty exactly when it is the value zero, and a set that is not empty
/// has a lowest square.
pub proof fn lemma_lowest(m: u64)
    ensures
        m == 0 <==> (forall|i: int| !bit(m, i)),
        m != 0 ==> bit(m, lowest(m)) && (forall|j: int| 0 <= j < lowest(m) ==> !bit(m, j)),
        m != 0 ==> lowest(m) == m.trailing_zeros(),
{
    vstd::std_specs::bits::axiom_u64_trailing_zeros(m);
    if m == 0 {
        assert forall|i: int| !bit(m, i) by {
            lemma_no_bits(i);
        }
    } else {
        let t: int = m.trailing_zeros() as int;
        assert(bit(m, t));
        assert forall|j: int| 0 <= j < t implies !bit(m, j) by {
            let k: u64 = j as u64;
            assert((m >> k) & 1 == 0);
        }
        let s: int = lowest(m);
        assert(bit(m, s) && forall|j: int| 0 <= j < s ==> !bit(m, j));
        assert(s == t) by {
            if s < t {
                assert(!bit(m, s));
            }
            if t < s {
                assert(!bit(m, t));
            }
        }
    }
}

/// The lowest square of `m`.
pub fn lowest_square(m: u64) -> (sq: usize)
    requires
        m != 0,
    ensures
        sq == lowest(m),
        sq < 64,
        bit(m, sq as int),
        forall|j: int| 0 <= j < sq ==> !bit(m, j),
{
    proof {
        lemma_lowest(m);
        vstd::std_specs::bits::axiom_u64_trailing_zeros(m);
    }
    m.trailing_zeros() as usize
}

/// `m` without its lowest square.
pub fn drop_lowest(m: u64) -> (r: u64)
    requires
        m != 0,
    ensures
        r == m & ((m - 1) as u64),
        forall|i: int| bit(r, i) == (bit(m, i) && i != lowest(m)),
{
    let r: u64 = m & (m - 1);
    proof {
        lemma_lowest(m);
        let s: u64 = lowest(m) as u64;
        assert forall|i: int| bit(r, i) == (bit(m, i) && i != lowest(m)) by {
            if 0 <= i < 64 {
                let k: u64 = i as u64;
                if k < s {
                    assert(!bit(m, i));
                    assert((m >> k) & 1 == 0 ==> ((m & ((m - 1) as u64)) >> k) & 1 == 0) by (bit_vector);
                } else if k == s {
                    assert forall|j: u64| j < s implies (m >> j) & 1 == 0 by {
                        assert(!bit(m, j as int));
                    }
                    lemma_low_clear(m, s);
                } else {
                    assert(exists|j: u64| j < k && (m >> j) & 1 == 1) by {
                        assert(bit(m, s as int));
                        assert(s < k && (m >> s) & 1 == 1);
                    }
                    lemma_high_kept(m, k);
                }
            }
        }
    }
    r
}

/// A set without its lowest square is a smaller value.
pub proof fn lemma_drop_lowest_less(m: u64)
    requires
        m != 0,
    ensures
        m & ((m - 1) as u64) < m,
{
    assert(m != 0 ==> m & ((m - 1) as u64) < m) by (bit_vector);
}

/// Whether two sets share a square.
pub fn intersects(a: u64, b: u64) -> (r: bool)
    ensures
        r == exists|i: int| #[trigger] bit(a, i) && bit(b, i),
{
    proof {
        lemma_lowest(a & b);
        if a & b != 0 {
            lemma_bit_ops(a, b, lowest(a & b));
            assert(bit(a, lowest(a & b)) && bit(b, lowest(a & b)));
        } else {
            assert forall|i: int| !(#[trigger] bit(a, i) && bit(b, i)) by {
                lemma_bit_ops(a, b, i);
                assert(!bit(a & b, i));
            }
        }
    }
    a & b != 0
}

/// Taking one from a value clears its lowest set bit.
proof fn lemma_low_clear(m: u64, s: u64)
    requires
        s < 64,
        (m >> s) & 1 == 1,
        forall|j: u64| j < s ==> (m >> j) & 1 == 0,
    ensures
        ((m & ((m - 1) as u64)) >> s) & 1 == 0,
{
    let low: u64 = m & (((1u64 << s) - 1) as u64);
    assert(low == 0) by {
        assert forall|i: int| 0 <= i < 64 implies bit(low, i) == bit(0u64, i) by {
            lemma_no_bits(i);
            let k: u64 = i as u64;
            if k < s {
                assert((m >> k) & 1 == 0);
                assert((m >> k) & 1 == 0 ==> ((m & (((1u64 << s) - 1) as u64)) >> k) & 1 == 0)
                    by (bit_vector);
            } else {
                assert(k >= s && k < 64 && s < 64 ==> ((m & (((1u64 << s) - 1) as u64)) >> k) & 1 == 0)
                    by (bit_vector);
            }
        }
        lemma_same_bits(low, 0);
    }
    assert(s < 64 && (m >> s) & 1 == 1 && m & (((1u64 << s) - 1) as u64) == 0 ==> ((m & ((m - 1) as u64)) >> s) & 1
        == 0) by (bit_vector);
}

/// Taking one from a value leaves every bit above a set bit as it was.
proof fn lemma_high_kept(m: u64, k: u64)
    requires
        k < 64,
        exists|j: u64| j < k && (m >> j) & 1 == 1,
    ensures
        ((m & ((m - 1) as u64)) >> k) & 1 == (m >> k) & 1,
{
    let j: u64 = choose|j: u64| j < k && (m >> j) & 1 == 1;
    assert(j < k && k < 64 && (m >> j) & 1 == 1 ==> ((m & ((m - 1) as u64)) >> k) & 1 == (m >> k) & 1)
        by (bit_vector);
}

/// How many of the numbers below `n` satisfy `f`.
pub open spec fn tally(f: spec_fn(int) -> bool, n: nat) -> nat
    decreases n,
{
    if n == 0 {
        0
    } else {
        tally(f, (n - 1) as nat) + (if f(n - 1) {
            1nat
        } else {
            0nat
        })
    }
}

/// A tally below `n` is at most `n`.
pub proof fn lemma_tally_bound(f: spec_fn(int) -> bool, n: nat)
    ensures
        tally(f, n) <= n,
    decreases n,
{
    if n > 0 {
        lemma_tally_bound(f, (n - 1) as nat);
    }
}

/// A tally grows with the bound.
pub proof fn lemma_tally_grows(f: spec_fn(int) -> bool, m: nat, n: nat)
    requires
        m <= n,
    ensures
        tally(f, m) <= tally(f, n),
    decreases n,
{
    if m < n {
        lemma_tally_grows(f, m, (n - 1) as nat);
    }
}

/// Two properties that agree below `n` have the same tally.
pub proof fn lemma_tally_same(f: spec_fn(int) -> bool, g: spec_fn(int) -> bool, n: nat)
    requires
        forall|i: int| 0 <= i < n ==> #[trigger] f(i) == g(i),
    ensures
        tally(f, n) == tally(g, n),
    decreases n,
{
    if n > 0 {
        lemma_tally_same(f, g, (n - 1) as nat);
    }
}

/// Where `g` is `f` but for one number `s` that only `f` accepts, the tally
/// of `g` is one less once `n` is past `s`.
pub proof fn lemma_tally_without(f: spec_fn(int) -> bool, g: spec_fn(int) -> bool, s: int, n: nat)
    requires
        0 <= s,
        f(s),
        !g(s),
        forall|i: int| 0 <= i < n && i != s ==> #[trigger] f(i) == g(i),
    ensures
        tally(f, n) == tally(g, n) + (if s < n {
            1nat
        } else {
            0nat
        }),
    decreases n,
{
    if n > 0 {
        lemma_tally_without(f, g, s, (n - 1) as nat);
    }
}

/// The number of squares in a set.
pub open spec fn members(m: u64) -> nat {
    tally(|i: int| bit(m, i), 64)
}

/// The number of squares in a set.
pub fn population(m: u64) -> (n: u32)
    ensures
        n == members(m),
        n <= 64,
{
    let mut rest: u64 = m;
    let mut n: u32 = 0;
    proof {
        lemma_tally_bound(|i: int| bit(m, i), 64);
    }
    while rest != 0
        invariant
            n + members(rest) == members(m),
            members(m) <= 64,
        decreases rest,
    {
        let next = drop_lowest(rest);
        proof {
            lemma_lowest(rest);
            lemma_drop_lowest_less(rest);
            lemma_tally_without(|i: int| bit(rest, i), |i: int| bit(next, i), lowest(rest), 64);
        }
        rest = next;
        n = n + 1;
    }
    proof {
        lemma_lowest(rest);
        lemma_tally_same(|i: int| bit(rest, i), |i: int| false, 64);
        lemma_tally_none(64);
    }
    n
}

/// Nothing satisfies the property that is always false.
pub proof fn lemma_tally_none(n: nat)
    ensures
        tally(|i: int| false, n) == 0,
    decreases n,
{
    if n > 0 {
        lemma_tally_none((n - 1) as nat);
    }
}

} // verus!
