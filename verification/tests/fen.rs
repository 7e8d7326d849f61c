use barnarok::fen::{chars_of, from_layout, separates, split_fields};
use barnarok::{Board, FenError, Piece};

fn text(s: &str) -> Vec<char> {
    s.chars().collect()
}

#[test]
fn the_starting_description_is_read() {
    let board = Board::from_fen("rnbqkbnr/pppppppp/8/8/8/8/PPPPPPPP/RNBQKBNR w KQkq -").unwrap();
    assert_eq!(board.white_pawns, 0xff00);
    assert_eq!(board.white_rooks, 0x81);
    assert_eq!(board.white_knights, 0x42);
    assert_eq!(board.white_bishops, 0x24);
    assert_eq!(board.white_queens, 0x08);
    assert_eq!(board.white_king, 4);
    assert_eq!(board.black_pawns, 0x00ff_0000_0000_0000);
    assert_eq!(board.black_rooks, 0x8100_0000_0000_0000);
    assert_eq!(board.black_knights, 0x4200_0000_0000_0000);
    assert_eq!(board.black_bishops, 0x2400_0000_0000_0000);
    assert_eq!(board.black_queens, 0x0800_0000_0000_0000);
    assert_eq!(board.black_king, 60);
    assert_eq!(board.white_pieces, 0xffff);
    assert_eq!(board.black_pieces, 0xffff_0000_0000_0000);
    assert_eq!(board.pieces, 0xffff_0000_0000_ffff);
    assert_eq!(board.en_passant_target, None);
    assert!(board.white_king_side_castling_right);
    assert!(board.white_queen_side_castling_right);
    assert!(board.black_king_side_castling_right);
    assert!(board.black_queen_side_castling_right);
    assert!(board.white_to_play);
    assert!(board.is_well_formed());
}

#[test]
fn side_rights_and_target_are_read() {
    let board = Board::from_fen("4k3/8/8/8/4P3/8/8/4K3 b Kq e3").unwrap();
    assert!(!board.white_to_play);
    assert!(board.white_king_side_castling_right);
    assert!(!board.white_queen_side_castling_right);
    assert!(!board.black_king_side_castling_right);
    assert!(board.black_queen_side_castling_right);
    assert_eq!(board.en_passant_target, Some(20));
    assert_eq!(board.piece_at(28), Piece::Pawn);
    assert_eq!(Board::from_fen("4k3/8/8/8/8/8/8/4K3 w - a1").unwrap().en_passant_target, Some(0));
    assert_eq!(Board::from_fen("4k3/8/8/8/8/8/8/4K3 w - h8").unwrap().en_passant_target, Some(63));
}

#[test]
fn fields_are_set_apart_by_any_white_space() {
    let plain = Board::from_fen("4k3/8/8/8/8/8/8/4K3 w - -").unwrap();
    assert_eq!(Board::from_fen("  4k3/8/8/8/8/8/8/4K3\tw \n -   - ").unwrap(), plain);
    assert_eq!(Board::from_fen("4k3/8/8/8/8/8/8/4K3\u{a0}w\u{2003}-\u{3000}-").unwrap(), plain);
    assert_eq!(
        split_fields(&text(" ab  c\td ")),
        vec![text("ab"), text("c"), text("d")]
    );
    assert_eq!(split_fields(&text("")), Vec::<Vec<char>>::new());
    assert_eq!(split_fields(&text(" \n ")), Vec::<Vec<char>>::new());
    assert_eq!(chars_of("a b"), vec!['a', ' ', 'b']);
    assert!(separates(' ') && separates('\t') && separates('\u{85}') && separates('\u{2028}'));
    assert!(!separates('a') && !separates('-') && !separates('\u{200b}'));
    for c in ['\0', 'x', '\u{1680}', '\u{180e}', '\u{2000}', '\u{200a}', '\u{202f}', '\u{feff}'] {
        assert_eq!(separates(c), c.is_whitespace());
    }
}

#[test]
fn the_last_king_named_is_the_one_that_stands() {
    let board = Board::from_fen("4k3/8/8/8/8/8/8/K3K3 w - -").unwrap();
    assert_eq!(board.white_king, 4);
    assert_eq!(board.white_pieces, 1 << 4);
    assert!(board.is_well_formed());
}

#[test]
fn digits_skip_squares() {
    let board = Board::from_fen("4k3/8/8/8/8/8/1P11P02P/4K3 w - -").unwrap();
    assert_eq!(board.white_pawns, (1 << 9) | (1 << 12) | (1 << 15));
}

#[test]
fn a_description_needs_four_fields() {
    assert_eq!(Board::from_fen("8/8/8/8/8/8/8/8 w -"), Err(FenError::FieldCount));
    assert_eq!(Board::from_fen(""), Err(FenError::FieldCount));
    assert_eq!(
        Board::from_fen("rnbqkbnr/pppppppp/8/8/8/8/PPPPPPPP/RNBQKBNR w KQkq - 0 1"),
        Err(FenError::FieldCount)
    );
}

#[test]
fn a_placement_needs_eight_ranks() {
    assert_eq!(Board::from_fen("4k3/8/8/8/8/8/4K3 w - -"), Err(FenError::RankCount));
    assert_eq!(Board::from_fen("4k3/8/8/8/8/8/8/8/4K3 w - -"), Err(FenError::RankCount));
    assert_eq!(Board::from_fen("4k3x w - -"), Err(FenError::RankCount));
}

#[test]
fn a_rank_needs_eight_squares() {
    assert_eq!(
        Board::from_fen("rnbqkbn/pppppppp/8/8/8/8/PPPPPPPP/RNBQKBNR w KQkq -"),
        Err(FenError::RankLength { rank: 8 })
    );
    assert_eq!(
        Board::from_fen("4k3/8/8/8/8/8/8/4K2 w - -"),
        Err(FenError::RankLength { rank: 1 })
    );
    assert_eq!(Board::from_fen("4k3/8/9/8/8/8/8/4K3 w - -"), Err(FenError::RankLength { rank: 6 }));
    assert_eq!(
        Board::from_fen("4k3/8/8/8/8/8/8/4K3 w - -").map(|b| b.white_king),
        Ok(4)
    );
    assert_eq!(
        Board::from_fen("4k3//8/8/8/8/8/4K3 w - -"),
        Err(FenError::RankLength { rank: 7 })
    );
}

#[test]
fn a_piece_needs_room_on_its_rank() {
    assert_eq!(
        Board::from_fen("rnbqkbnrr/pppppppp/8/8/8/8/PPPPPPPP/RNBQKBNR w KQkq -"),
        Err(FenError::RankTooLong { rank: 8 })
    );
    assert_eq!(
        Board::from_fen("4k3/8/8/8/8/8/8/4K3P w - -"),
        Err(FenError::RankTooLong { rank: 1 })
    );
    assert_eq!(
        Board::from_fen("4k3/8/8/99P/8/8/8/4K3 w - -"),
        Err(FenError::RankTooLong { rank: 5 })
    );
    assert_eq!(
        Board::from_fen("4k3/8/8/8x/8/8/8/4K3 w - -"),
        Err(FenError::RankTooLong { rank: 5 })
    );
}

#[test]
fn a_piece_needs_a_known_letter() {
    assert_eq!(
        Board::from_fen("rnbqkbnx/pppppppp/8/8/8/8/PPPPPPPP/RNBQKBNR w KQkq -"),
        Err(FenError::InvalidPiece { found: 'x' })
    );
    assert_eq!(
        Board::from_fen("4k3/8/8/8/8/8/8/4K2- w - -"),
        Err(FenError::InvalidPiece { found: '-' })
    );
    assert_eq!(
        Board::from_fen("4k3/8/8/3\u{e9}4/8/8/8/4K3 w - -"),
        Err(FenError::InvalidPiece { found: '\u{e9}' })
    );
}

#[test]
fn each_side_needs_its_king() {
    assert_eq!(Board::from_fen("4k3/8/8/8/8/8/8/8 w - -"), Err(FenError::MissingWhiteKing));
    assert_eq!(Board::from_fen("8/8/8/8/8/8/8/4K3 w - -"), Err(FenError::MissingBlackKing));
    assert_eq!(Board::from_fen("8/8/8/8/8/8/8/8 w - -"), Err(FenError::MissingWhiteKing));
}

#[test]
fn castling_rights_need_known_letters() {
    assert_eq!(
        Board::from_fen("4k3/8/8/8/8/8/8/4K3 w KX -"),
        Err(FenError::InvalidCastling { found: 'X' })
    );
    assert_eq!(
        Board::from_fen("4k3/8/8/8/8/8/8/4K3 w -- -"),
        Err(FenError::InvalidCastling { found: '-' })
    );
    assert_eq!(
        Board::from_fen("4k3/8/8/8/8/8/8/4K3 w KxQy -"),
        Err(FenError::InvalidCastling { found: 'x' })
    );
    let doubled = Board::from_fen("4k3/8/8/8/8/8/8/4K3 w qqK -").unwrap();
    assert!(doubled.white_king_side_castling_right && doubled.black_queen_side_castling_right);
    assert!(!doubled.white_queen_side_castling_right && !doubled.black_king_side_castling_right);
}

#[test]
fn the_target_needs_to_be_a_square() {
    for field in ["e9", "e0", "i3", "E3", "e", "e33", "3e", "--"] {
        let fen = format!("4k3/8/8/8/8/8/8/4K3 w - {}", field);
        assert_eq!(Board::from_fen(&fen), Err(FenError::InvalidEnPassant));
    }
}

#[test]
fn the_side_to_move_needs_to_be_white_or_black() {
    for field in ["x", "W", "wb", "-"] {
        let fen = format!("4k3/8/8/8/8/8/8/4K3 {} - -", field);
        assert_eq!(Board::from_fen(&fen), Err(FenError::InvalidActiveColor));
    }
}

#[test]
fn the_first_fault_is_the_one_reported() {
    assert_eq!(Board::from_fen("4k3/8/8/8/8/8/8/4K3 x - z9"), Err(FenError::InvalidEnPassant));
    assert_eq!(
        Board::from_fen("4k3/8/8/8/8/8/8/4K3 x Z z9"),
        Err(FenError::InvalidCastling { found: 'Z' })
    );
    assert_eq!(Board::from_fen("8/8/8/8/8/8/8/4K3 x Z z9"), Err(FenError::MissingBlackKing));
    assert_eq!(
        Board::from_fen("8/7/8/8/8/8/8/4x3 x Z z9"),
        Err(FenError::RankLength { rank: 7 })
    );
    assert_eq!(
        Board::from_fen("x/7/8/8/8/8/8/4K3 x Z z9"),
        Err(FenError::InvalidPiece { found: 'x' })
    );
    assert_eq!(Board::from_fen("x/7/8/8/8/8/4K3 x Z z9"), Err(FenError::RankCount));
}

#[test]
fn four_fields_make_a_board() {
    let board = from_layout(&text("4k3/8/8/8/8/8/8/4K3"), &text("b"), &text("Q"), &text("c6"));
    let board = board.unwrap();
    assert!(!board.white_to_play);
    assert!(board.white_queen_side_castling_right);
    assert_eq!(board.en_passant_target, Some(42));
    assert_eq!(
        from_layout(&text("4k3/8/8/8/8/8/8/4K3"), &text(""), &text("Q"), &text("c6")),
        Err(FenError::InvalidActiveColor)
    );
    assert_eq!(
        from_layout(&text("4k3/8/8/8/8/8/8/4K3"), &text("w"), &text(""), &text("")),
        Err(FenError::InvalidEnPassant)
    );
}

#[test]
fn errors_say_what_went_wrong() {
    assert_eq!(FenError::FieldCount.message(), "FEN strings must have exactly 4 fields.");
    assert_eq!(FenError::RankCount.message(), "Expected 8 ranks in placement.");
    assert_eq!(FenError::RankTooLong { rank: 8 }.message(), "Rank 8 has too many squares.");
    assert_eq!(FenError::RankTooLong { rank: 120 }.message(), "Rank 120 has too many squares.");
    assert_eq!(FenError::InvalidPiece { found: 'x' }.message(), "Invalid piece char 'x'.");
    assert_eq!(FenError::RankLength { rank: 3 }.message(), "Rank 3 does not have 8 squares.");
    assert_eq!(FenError::RankLength { rank: 0 }.message(), "Rank 0 does not have 8 squares.");
    assert_eq!(FenError::MissingWhiteKing.message(), "Missing white king.");
    assert_eq!(FenError::MissingBlackKing.message(), "Missing black king.");
    assert_eq!(FenError::InvalidCastling { found: 'Z' }.message(), "Invalid castling char 'Z'.");
    assert_eq!(FenError::InvalidEnPassant.message(), "Invalid en passant square.");
    assert_eq!(FenError::InvalidActiveColor.message(), "Invalid active color.");
}
