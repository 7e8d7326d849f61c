use barnarok::bits::{
    common, drop_lowest, either, except, has_bit, intersects, lowest_square, population, shifted,
    square_mask, with_bit, without_bit,
};
use barnarok::masks::{
    make_antidiagonal_masks, make_black_king_pawn_masks, make_diagonal_masks, make_file_masks,
    make_king_masks, make_knight_masks, make_rank_masks, make_white_king_pawn_masks,
};
use barnarok::{
    antidiagonal_mask, black_king_pawn_mask, diagonal_mask, file_mask, king_mask, knight_mask,
    rank_mask, white_king_pawn_mask,
};

#[test]
fn rank_and_file_masks() {
    assert_eq!(rank_mask(0), 0xff);
    assert_eq!(rank_mask(7), 0xff);
    assert_eq!(rank_mask(27), 0xff00_0000);
    assert_eq!(rank_mask(50), 0x00ff_0000_0000_0000);
    assert_eq!(file_mask(0), 0x0101_0101_0101_0101);
    assert_eq!(file_mask(7), 0x8080_8080_8080_8080);
    assert_eq!(file_mask(27), 0x0808_0808_0808_0808);
    assert_eq!(file_mask(50), 0x0404_0404_0404_0404);
}

#[test]
fn diagonal_masks() {
    assert_eq!(diagonal_mask(0), 0x8040_2010_0804_0201);
    assert_eq!(diagonal_mask(7), 0x80);
    assert_eq!(diagonal_mask(27), 0x8040_2010_0804_0201);
    assert_eq!(diagonal_mask(50), 0x0804_0201_0000_0000);
    assert_eq!(antidiagonal_mask(0), 0x1);
    assert_eq!(antidiagonal_mask(7), 0x0102_0408_1020_4080);
    assert_eq!(antidiagonal_mask(27), 0x0001_0204_0810_2040);
    assert_eq!(antidiagonal_mask(50), 0x0204_0810_2040_8000);
}

#[test]
fn knight_masks_reach_down_the_board_too() {
    assert_eq!(knight_mask(0), 0x0002_0400);
    assert_eq!(knight_mask(63), 0x0020_4000_0000_0000);
    assert_eq!(knight_mask(27), 0x0000_1422_0022_1400);
    assert_eq!(knight_mask(1), 0x0005_0800);
    assert_eq!(knight_mask(54), 0x1000_10a0_0000_0000);
}

#[test]
fn king_masks_touch_every_neighbour() {
    assert_eq!(king_mask(0), 0x0302);
    assert_eq!(king_mask(63), 0x40c0_0000_0000_0000);
    assert_eq!(king_mask(27), 0x0000_001c_141c_0000);
    assert_eq!(king_mask(1), 0x0705);
    assert_eq!(king_mask(54), 0xe0a0_e000_0000_0000);
}

#[test]
fn pawn_attack_masks() {
    assert_eq!(white_king_pawn_mask(4), 0x2800);
    assert_eq!(white_king_pawn_mask(24), 0x0002_0000_0000);
    assert_eq!(white_king_pawn_mask(39), 0x4000_0000_0000);
    assert_eq!(white_king_pawn_mask(60), 0);
    assert_eq!(black_king_pawn_mask(4), 0);
    assert_eq!(black_king_pawn_mask(24), 0x0002_0000);
    assert_eq!(black_king_pawn_mask(39), 0x4000_0000);
    assert_eq!(black_king_pawn_mask(60), 0x0028_0000_0000_0000);
}

#[test]
fn tables_hold_the_mask_of_each_square() {
    let ranks = make_rank_masks();
    let files = make_file_masks();
    let diagonals = make_diagonal_masks();
    let antidiagonals = make_antidiagonal_masks();
    let knights = make_knight_masks();
    let kings = make_king_masks();
    let white_pawns = make_white_king_pawn_masks();
    let black_pawns = make_black_king_pawn_masks();
    for sq in 0..64 {
        assert_eq!(ranks[sq], rank_mask(sq));
        assert_eq!(files[sq], file_mask(sq));
        assert_eq!(diagonals[sq], diagonal_mask(sq));
        assert_eq!(antidiagonals[sq], antidiagonal_mask(sq));
        assert_eq!(knights[sq], knight_mask(sq));
        assert_eq!(kings[sq], king_mask(sq));
        assert_eq!(white_pawns[sq], white_king_pawn_mask(sq));
        assert_eq!(black_pawns[sq], black_king_pawn_mask(sq));
    }
}

#[test]
fn every_mask_agrees_with_the_geometry() {
    for a in 0..64usize {
        for b in 0..64usize {
            let ranks = (a / 8).abs_diff(b / 8);
            let files = (a % 8).abs_diff(b % 8);
            assert_eq!(has_bit(rank_mask(a), b), a / 8 == b / 8);
            assert_eq!(has_bit(file_mask(a), b), a % 8 == b % 8);
            assert_eq!(has_bit(diagonal_mask(a), b), a / 8 + b % 8 == b / 8 + a % 8);
            assert_eq!(has_bit(antidiagonal_mask(a), b), a / 8 + a % 8 == b / 8 + b % 8);
            assert_eq!(
                has_bit(knight_mask(a), b),
                (ranks == 2 && files == 1) || (ranks == 1 && files == 2)
            );
            assert_eq!(has_bit(king_mask(a), b), a != b && ranks <= 1 && files <= 1);
            assert_eq!(has_bit(white_king_pawn_mask(a), b), b / 8 == a / 8 + 1 && files == 1);
            assert_eq!(has_bit(black_king_pawn_mask(a), b), b / 8 + 1 == a / 8 && files == 1);
        }
    }
}

#[test]
fn set_operations() {
    assert_eq!(square_mask(0), 1);
    assert_eq!(square_mask(63), 0x8000_0000_0000_0000);
    assert_eq!(with_bit(0b1000, 1), 0b1010);
    assert_eq!(with_bit(0b1010, 1), 0b1010);
    assert_eq!(without_bit(0b1010, 1), 0b1000);
    assert_eq!(without_bit(0b1000, 1), 0b1000);
    assert!(has_bit(0b1010, 3));
    assert!(!has_bit(0b1010, 2));
    assert_eq!(common(0b1100, 0b1010), 0b1000);
    assert_eq!(except(0b1100, 0b1010), 0b0100);
    assert_eq!(either(0b1100, 0b1010), 0b1110);
    assert!(intersects(0b1100, 0b1010));
    assert!(!intersects(0b1100, 0b0011));
    assert_eq!(shifted(0xff, 8, true), 0xff00);
    assert_eq!(shifted(0xff00, 8, false), 0xff);
    assert_eq!(shifted(0x8000_0000_0000_0000, 1, true), 0);
    assert_eq!(shifted(1, 1, false), 0);
}

#[test]
fn walking_a_set_from_its_lowest_square() {
    assert_eq!(lowest_square(0b1010_0000), 5);
    assert_eq!(lowest_square(0x8000_0000_0000_0000), 63);
    assert_eq!(drop_lowest(0b1010_0000), 0b1000_0000);
    assert_eq!(drop_lowest(0x8000_0000_0000_0000), 0);
    assert_eq!(population(0), 0);
    assert_eq!(population(0xff00), 8);
    assert_eq!(population(0xffff_ffff_ffff_ffff), 64);
    assert_eq!(population(0x8000_0000_0000_0001), 2);
}
