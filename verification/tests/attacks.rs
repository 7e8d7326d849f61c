use barnarok::{
    bishop_attacks_hq, file_mask, generate_bishops_attacks, generate_king_attacks,
    generate_knight_attacks, generate_pawn_attacks, generate_queen_attacks,
    generate_rook_attacks, get_attacked_squares, is_king_attacked, is_square_attacked,
    queen_attacks_hq, rank_mask, rook_attacks_hq, slider_attacks_hq, Board,
};

const BLOCKERS: u64 = 0x0000_2800_4a10_0a00;

#[test]
fn sliding_stops_at_the_first_blocker_each_way() {
    assert_eq!(rook_attacks_hq(27, BLOCKERS), 0x0000_0808_7608_0800);
    assert_eq!(bishop_attacks_hq(27, BLOCKERS), 0x0001_2214_0014_0200);
    assert_eq!(queen_attacks_hq(27, BLOCKERS), 0x0001_2a1c_761c_0a00);
}

#[test]
fn sliding_on_an_empty_board_runs_to_the_edge() {
    assert_eq!(rook_attacks_hq(0, 1), 0x0101_0101_0101_01fe);
    assert_eq!(rook_attacks_hq(63, 1 << 63), 0x7f80_8080_8080_8080);
    assert_eq!(bishop_attacks_hq(63, 1 << 63), 0x0040_2010_0804_0201);
    assert_eq!(bishop_attacks_hq(56, 1 << 56), 0x0002_0408_1020_4080);
}

#[test]
fn sliding_along_one_axis() {
    assert_eq!(slider_attacks_hq(27, BLOCKERS, rank_mask(27)), 0x7600_0000);
    assert_eq!(slider_attacks_hq(27, BLOCKERS, file_mask(27)), 0x0000_0808_0008_0800);
    assert_eq!(slider_attacks_hq(27, 0, rank_mask(27)), 0xf700_0000);
    assert_eq!(slider_attacks_hq(0, 0, rank_mask(0)), 0xfe);
    assert_eq!(slider_attacks_hq(7, 0, rank_mask(7)), 0x7f);
}

#[test]
fn sliding_does_not_depend_on_the_origin_being_occupied() {
    for sq in 0..64 {
        let with_origin = BLOCKERS | (1u64 << sq);
        let without_origin = BLOCKERS & !(1u64 << sq);
        assert_eq!(rook_attacks_hq(sq, with_origin), rook_attacks_hq(sq, without_origin));
        assert_eq!(bishop_attacks_hq(sq, with_origin), bishop_attacks_hq(sq, without_origin));
        assert_eq!(rook_attacks_hq(sq, BLOCKERS) & (1u64 << sq), 0);
        assert_eq!(bishop_attacks_hq(sq, BLOCKERS) & (1u64 << sq), 0);
    }
}

#[test]
fn attacked_squares_at_the_start() {
    let board = Board::new().unwrap();
    assert_eq!(generate_pawn_attacks(&board), 0x00ff_0000);
    assert_eq!(generate_rook_attacks(&board), 0x8142);
    assert_eq!(generate_knight_attacks(&board), 0x00a5_0000);
    assert_eq!(generate_bishops_attacks(&board), 0);
    assert_eq!(generate_queen_attacks(&board), 0);
    assert_eq!(generate_king_attacks(&board), 0x3828);
    assert_eq!(get_attacked_squares(&board), 0x00ff_b96a);
}

#[test]
fn pawn_attacks_name_the_pawn_to_take_en_passant() {
    let board = Board::from_fen("4k3/8/8/3pP3/8/8/8/4K3 w - d6").unwrap();
    assert_eq!(generate_pawn_attacks(&board), (1 << 43) | (1 << 45) | (1 << 35));
    let later = Board::from_fen("4k3/8/8/3pP3/8/8/8/4K3 w - -").unwrap();
    assert_eq!(generate_pawn_attacks(&later), (1 << 43) | (1 << 45));
}

#[test]
fn a_square_is_attacked_by_each_kind_of_piece() {
    let board = Board::from_fen("4k3/8/8/8/8/8/8/4K3 w - -").unwrap();
    assert!(is_square_attacked(11, &board, true));
    assert!(!is_square_attacked(20, &board, true));
    assert!(is_square_attacked(51, &board, false));
    let pawns = Board::from_fen("4k3/8/8/3p4/8/4P3/8/4K3 w - -").unwrap();
    assert!(is_square_attacked(27, &pawns, true));
    assert!(is_square_attacked(29, &pawns, true));
    assert!(!is_square_attacked(28, &pawns, true));
    assert!(is_square_attacked(26, &pawns, false));
    assert!(is_square_attacked(28, &pawns, false));
    assert!(!is_square_attacked(27, &pawns, false));
    let knight = Board::from_fen("4k3/8/8/8/3n4/8/8/4K3 w - -").unwrap();
    assert!(is_square_attacked(12, &knight, false));
    assert!(is_square_attacked(10, &knight, false));
    assert!(!is_square_attacked(4, &knight, false));
    let sliders = Board::from_fen("4k3/8/8/8/r2P3q/8/8/b3K3 w - -").unwrap();
    assert!(is_square_attacked(25, &sliders, false));
    assert!(is_square_attacked(27, &sliders, false));
    assert!(is_square_attacked(28, &sliders, false));
    assert!(!is_square_attacked(34, &sliders, false));
    assert!(is_square_attacked(4, &sliders, false));
    assert!(is_square_attacked(9, &sliders, false));
    assert!(is_square_attacked(30, &sliders, false));
}

#[test]
fn the_king_in_check() {
    let quiet = Board::new().unwrap();
    assert!(!is_king_attacked(&quiet, false));
    assert!(!is_king_attacked(&quiet, true));
    let check = Board::from_fen("4k3/8/8/8/8/8/8/4K2r w - -").unwrap();
    assert!(is_king_attacked(&check, false));
    assert!(!is_king_attacked(&check, true));
    let given = Board::from_fen("4k2R/8/8/8/8/8/8/4K3 w - -").unwrap();
    assert!(!is_king_attacked(&given, false));
    assert!(is_king_attacked(&given, true));
}
