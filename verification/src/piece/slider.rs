use vstd::prelude::*;
use vstd::wrapping::u64_specs::wrapping_sub;
use crate::bits::{bit, lemma_bit_ops, lemma_bit_single, lemma_lowest, lemma_same_bits};
use crate::masks::{same_antidiagonal, same_diagonal, same_file, same_rank};

verus! {

/// `u64::reverse_bits` mirrors the value: bit `i` of the result is bit
/// `63 - i` of the argument.
pub assume_specification[ u64::reverse_bits ](x: u64) -> (r: u64)
    ensures
        forall|i: u64| i < 64 ==> ((#[trigger] (r >> i)) & 1 == 1) == ((x >> ((63 - i) as u64)) & 1 == 1),
;

/// Along the squares of `mask`, nothing stands strictly between `a` and `b`.
pub open spec fn clear_between(occ: u64, mask: u64, a: int, b: int) -> bool {
    forall|j: int| (a < j < b || b < j < a) ==> !(#[trigger] bit(occ, j) && bit(mask, j))
}

/// A sliding piece on `from` reaches `to` along the squares of `mask`: `to` is
/// another square of the mask, and no square of the mask between the two is
/// occupied. What stands on `to` itself does not matter.
pub open spec fn slides(occ: u64, mask: u64, from: int, to: int) -> bool {
    &&& 0 <= to < 64
    &&& to != from
    &&& bit(mask, to)
    &&& clear_between(occ, mask, from, to)
}

/// Taking twice the bit of `s` from `o` flips the bit of a higher square `t`
/// exactly when `o` has no bit strictly between the two, and leaves the bits
/// up to `s` alone.
proof fn lemma_borrow(o: u64, s: u64, t: u64)
    requires
        s < 64,
        t < 64,
    ensures
        t <= s ==> bit(wrapping_sub(o, (1u64 << s) << 1), t as int) == bit(o, t as int),
        s < t ==> (bit(wrapping_sub(o, (1u64 << s) << 1), t as int) != bit(o, t as int)) == (
        forall|j: int| s < j < t ==> !bit(o, j)),
{
    let d: u64 = wrapping_sub(o, (1u64 << s) << 1);
    if t <= s {
        assert(t <= s && s < 64 ==> (wrapping_sub(o, (1u64 << s) << 1) >> t) & 1 == (o >> t) & 1)
            by (bit_vector);
    } else {
        let window: u64 = !(0xFFFF_FFFF_FFFF_FFFFu64 << t) & ((0xFFFF_FFFF_FFFF_FFFFu64 << s)
            << 1);
        assert(s < t && t < 64 ==> ((((wrapping_sub(o, (1u64 << s) << 1) >> t) & 1 == 1) != ((o
            >> t) & 1 == 1)) <==> (o & (!(0xFFFF_FFFF_FFFF_FFFFu64 << t) & ((
        0xFFFF_FFFF_FFFF_FFFFu64 << s) << 1)) == 0))) by (bit_vector);
        assert forall|j: int| bit(window, j) == (s < j < t) by {
            if 0 <= j < 64 {
                let k: u64 = j as u64;
                assert(s < t && t < 64 && k < 64 ==> ((((!(0xFFFF_FFFF_FFFF_FFFFu64 << t) & ((
                0xFFFF_FFFF_FFFF_FFFFu64 << s) << 1)) >> k) & 1 == 1) <==> (s < k && k < t)))
                    by (bit_vector);
            }
        }
        lemma_lowest(o & window);
        assert forall|j: int| bit(o & window, j) == (bit(o, j) && s < j < t) by {
            lemma_bit_ops(o, window, j);
        }
        if o & window == 0 {
            assert forall|j: int| s < j < t implies !bit(o, j) by {
                assert(!bit(o & window, j));
            }
        } else {
            let low = crate::bits::lowest(o & window);
            lemma_bit_ops(o, window, low);
            assert(bit(o, low) && s < low < t);
        }
    }
}

/// The squares that a sliding piece on `sq` reaches along the line `mask`,
/// up to and including the first occupied square each way, whatever its
/// colour. This is Hyperbola Quintessence: the subtraction carries a borrow up
/// the line to the first blocker, and the same on the mirrored board carries
/// one down.
pub fn slider_attacks_hq(sq: usize, occ: u64, mask: u64) -> (r: u64)
    requires
        sq < 64,
    ensures
        forall|t: int| bit(r, t) == slides(occ, mask, sq as int, t),
{
    let origin: u64 = 1u64 << sq;
    let occ_masked: u64 = occ & mask;
    let forward: u64 = occ_masked.wrapping_sub(origin << 1);
    let rev_masked: u64 = occ_masked.reverse_bits();
    let rev_origin: u64 = origin.reverse_bits();
    let rev_forward: u64 = rev_masked.wrapping_sub(rev_origin << 1);
    let reverse: u64 = rev_forward.reverse_bits();
    let r: u64 = (forward ^ reverse) & mask;
    proof {
        let s: u64 = sq as u64;
        let rs: u64 = (63 - s) as u64;
        assert(rev_origin == 1u64 << rs) by {
            assert forall|i: int| 0 <= i < 64 implies bit(rev_origin, i) == bit(1u64 << rs, i) by {
                lemma_bit_single(rs, i);
                lemma_bit_single(s, 63 - i);
                lemma_mirror(origin, rev_origin, i);
            }
            lemma_same_bits(rev_origin, 1u64 << rs);
        }
        assert forall|t: int| bit(r, t) == slides(occ, mask, sq as int, t) by {
            lemma_bit_ops(forward ^ reverse, mask, t);
            lemma_bit_ops(forward, reverse, t);
            if 0 <= t < 64 {
                let k: u64 = t as u64;
                let rk: u64 = (63 - k) as u64;
                lemma_borrow(occ_masked, s, k);
                lemma_borrow(rev_masked, rs, rk);
                lemma_mirror(rev_forward, reverse, t);
                lemma_mirror(occ_masked, rev_masked, 63 - t);
                assert(bit(rev_masked, 63 - t) == bit(occ_masked, t));
                assert forall|j: int| bit(occ_masked, j) == (bit(occ, j) && bit(mask, j)) by {
                    lemma_bit_ops(occ, mask, j);
                }
                if t > sq {
                    assert(bit(reverse, t) == bit(occ_masked, t));
                    assert(bit(forward ^ reverse, t) == (forall|j: int|
                        s < j < t ==> !bit(occ_masked, j)));
                    if clear_between(occ, mask, sq as int, t) {
                        assert forall|j: int| s < j < t implies !bit(occ_masked, j) by {
                            assert(!(bit(occ, j) && bit(mask, j)));
                        }
                    }
                } else if t < sq {
                    assert(bit(forward, t) == bit(occ_masked, t));
                    assert(bit(reverse, t) == bit(rev_forward, 63 - t));
                    assert((bit(rev_forward, 63 - t) != bit(rev_masked, 63 - t)) == (forall|j: int|
                        rs < j < rk ==> !bit(rev_masked, j)));
                    if clear_between(occ, mask, sq as int, t) {
                        assert forall|j: int| rs < j < rk implies !bit(rev_masked, j) by {
                            lemma_mirror(occ_masked, rev_masked, j);
                            assert(!(bit(occ, 63 - j) && bit(mask, 63 - j)));
                        }
                    }
                    if forall|j: int| rs < j < rk ==> !bit(rev_masked, j) {
                        assert forall|j: int| t < j < sq implies !(#[trigger] bit(occ, j) && bit(
                            mask,
                            j,
                        )) by {
                            lemma_mirror(occ_masked, rev_masked, 63 - j);
                            assert(!bit(rev_masked, 63 - j));
                        }
                    }
                } else {
                    assert(bit(forward, t) == bit(occ_masked, t));
                    assert(bit(reverse, t) == bit(occ_masked, t));
                }
            }
        }
    }
    r
}

/// What mirroring says of one square.
proof fn lemma_mirror(x: u64, r: u64, i: int)
    requires
        0 <= i < 64,
        forall|k: u64| k < 64 ==> ((#[trigger] (r >> k)) & 1 == 1) == ((x >> ((63 - k) as u64)) & 1 == 1),
    ensures
        bit(r, i) == bit(x, 63 - i),
{
    let k: u64 = i as u64;
    assert(((r >> k) & 1 == 1) == ((x >> ((63 - k) as u64)) & 1 == 1));
}

/// One of the four directions in which a line of squares runs.
pub enum Axis {
    Rank,
    File,
    Diagonal,
    Antidiagonal,
}

/// The two squares lie on one line of the given direction.
pub open spec fn aligned(axis: Axis, a: int, b: int) -> bool {
    match axis {
        Axis::Rank => same_rank(a, b),
        Axis::File => same_file(a, b),
        Axis::Diagonal => same_diagonal(a, b),
        Axis::Antidiagonal => same_antidiagonal(a, b),
    }
}

/// The squares of a bit-mask as a set.
pub open spec fn squares_of(m: u64) -> Set<int> {
    Set::new(|i: int| bit(m, i))
}

/// `to` is another square on the line through `from`, and every square of
/// that line strictly between the two is free.
pub open spec fn open_line(occupied: Set<int>, axis: Axis, from: int, to: int) -> bool {
    &&& 0 <= to < 64
    &&& to != from
    &&& aligned(axis, from, to)
    &&& forall|j: int|
        (from < j < to || to < j < from) && aligned(axis, from, j) ==> !(#[trigger] occupied.contains(
            j,
        ))
}

/// A rook on `from` reaches `to`: along the rank or the file, with nothing in between.
pub open spec fn rook_reach(occupied: Set<int>, from: int, to: int) -> bool {
    open_line(occupied, Axis::Rank, from, to) || open_line(occupied, Axis::File, from, to)
}

/// A bishop on `from` reaches `to`: along a diagonal, with nothing in between.
pub open spec fn bishop_reach(occupied: Set<int>, from: int, to: int) -> bool {
    open_line(occupied, Axis::Diagonal, from, to) || open_line(
        occupied,
        Axis::Antidiagonal,
        from,
        to,
    )
}

/// A queen on `from` reaches `to`: as a rook or as a bishop.
pub open spec fn queen_reach(occupied: Set<int>, from: int, to: int) -> bool {
    rook_reach(occupied, from, to) || bishop_reach(occupied, from, to)
}

/// Sliding along a mask that holds exactly the line through `from` is
/// reaching along that line.
pub proof fn lemma_slides_is_open_line(occ: u64, mask: u64, axis: Axis, from: int, to: int)
    requires
        0 <= from < 64,
        forall|i: int| bit(mask, i) == (0 <= i < 64 && aligned(axis, from, i)),
    ensures
        slides(occ, mask, from, to) == open_line(squares_of(occ), axis, from, to),
{
    if slides(occ, mask, from, to) {
        assert forall|j: int|
            (from < j < to || to < j < from) && aligned(axis, from, j) implies !(
        #[trigger] squares_of(occ).contains(j)) by {
            assert(!(bit(occ, j) && bit(mask, j)));
        }
    }
    if open_line(squares_of(occ), axis, from, to) {
        assert forall|j: int| (from < j < to || to < j < from) implies !(#[trigger] bit(occ, j)
            && bit(mask, j)) by {
            if bit(mask, j) {
                assert(!squares_of(occ).contains(j));
            }
        }
    }
}

/// Reaching along a line holds in both directions.
pub proof fn lemma_open_line_symmetric(occupied: Set<int>, axis: Axis, a: int, b: int)
    requires
        0 <= a < 64,
        0 <= b < 64,
    ensures
        open_line(occupied, axis, a, b) == open_line(occupied, axis, b, a),
{
    if open_line(occupied, axis, a, b) {
        assert forall|j: int| (b < j < a || a < j < b) && aligned(axis, b, j) implies !(
        #[trigger] occupied.contains(j)) by {
            assert(aligned(axis, a, j));
        }
    }
    if open_line(occupied, axis, b, a) {
        assert forall|j: int| (b < j < a || a < j < b) && aligned(axis, a, j) implies !(
        #[trigger] occupied.contains(j)) by {
            assert(aligned(axis, b, j));
        }
    }
}

} // verus!
