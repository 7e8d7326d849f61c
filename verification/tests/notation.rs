use barnarok::{render_bitboard, Board, Move, MoveContext, Piece};

fn named(board: &mut Board, name: &str) -> Move {
    let moves = board.get_legal_moves();
    for mv in moves.iter() {
        if mv.to_uci() == name {
            return *mv;
        }
    }
    panic!("no legal move {}", name);
}

fn san(fen: &str, name: &str) -> String {
    let mut board = Board::from_fen(fen).unwrap();
    let before = board;
    let mv = named(&mut board, name);
    let text = mv.to_san(&mut board);
    assert_eq!(board, before);
    text
}

#[test]
fn moves_are_named_by_their_squares() {
    let plain = Move {
        start: 12,
        end: 28,
        context: MoveContext::DoubleStep,
        previous_ep_target: None,
        previous_wqs: true,
        previous_wks: true,
        previous_bqs: true,
        previous_bks: true,
        capture: None,
    };
    assert_eq!(plain.to_uci(), "e2e4");
    assert_eq!(Move { start: 6, end: 21, ..plain }.to_uci(), "g1f3");
    assert_eq!(Move { start: 0, end: 63, ..plain }.to_uci(), "a1h8");
    assert_eq!(Move { start: 63, end: 0, ..plain }.to_uci(), "h8a1");
    let promotion = Move { start: 53, end: 61, ..plain };
    assert_eq!(
        Move { context: MoveContext::Promotion(Piece::Rook), ..promotion }.to_uci(),
        "f7f8r"
    );
    assert_eq!(
        Move { context: MoveContext::Promotion(Piece::Queen), ..promotion }.to_uci(),
        "f7f8q"
    );
    assert_eq!(
        Move { context: MoveContext::Promotion(Piece::Knight), ..promotion }.to_uci(),
        "f7f8n"
    );
    assert_eq!(
        Move { context: MoveContext::Promotion(Piece::Bishop), ..promotion }.to_uci(),
        "f7f8b"
    );
    assert_eq!(Move { context: MoveContext::KingSideCastle, start: 4, end: 6, ..plain }.to_uci(), "e1g1");
}

#[test]
fn squares_are_named_by_file_and_rank() {
    assert_eq!(Move::idx_to_coord(0), "a1");
    assert_eq!(Move::idx_to_coord(7), "h1");
    assert_eq!(Move::idx_to_coord(28), "e4");
    assert_eq!(Move::idx_to_coord(56), "a8");
    assert_eq!(Move::idx_to_coord(63), "h8");
}

#[test]
fn pawn_and_piece_moves_in_algebraic_notation() {
    let start = "rnbqkbnr/pppppppp/8/8/8/8/PPPPPPPP/RNBQKBNR w KQkq -";
    assert_eq!(san(start, "e2e4"), "e4");
    assert_eq!(san(start, "e2e3"), "e3");
    assert_eq!(san(start, "g1f3"), "Nf3");
    assert_eq!(san("4k3/8/8/8/8/8/8/2B1K3 w - -", "c1f4"), "Bf4");
    assert_eq!(san("4k3/8/8/8/8/8/8/3QK3 w - -", "d1d4"), "Qd4");
    assert_eq!(san("4k3/8/8/8/8/8/8/4K3 w - -", "e1e2"), "Ke2");
    assert_eq!(san("4k3/8/8/8/8/8/8/R3K3 w - -", "a1a4"), "Ra4");
}

#[test]
fn captures_in_algebraic_notation() {
    assert_eq!(san("4k3/8/8/3p4/4P3/8/8/4K3 w - -", "e4d5"), "exd5");
    assert_eq!(san("4k3/8/8/3p4/4P3/8/8/4K3 b - -", "d5e4"), "dxe4");
    assert_eq!(san("4k3/8/8/3pP3/8/8/8/4K3 w - d6", "e5d6"), "exd6");
    assert_eq!(san("4k3/8/8/3p4/8/2N5/8/4K3 w - -", "c3d5"), "Nxd5");
    assert_eq!(san("1r2k3/8/8/8/8/8/8/1R2K3 w - -", "b1b8"), "Rxb8+");
}

#[test]
fn rivals_are_told_apart() {
    assert_eq!(san("4k3/8/8/8/8/8/8/1N2KN2 w - -", "b1d2"), "Nbd2");
    assert_eq!(san("4k3/8/8/8/8/8/8/1N2KN2 w - -", "f1d2"), "Nfd2");
    assert_eq!(san("4k3/8/8/1N6/8/8/8/1N2K3 w - -", "b1c3"), "N1c3");
    assert_eq!(san("4k3/8/8/1N6/8/8/8/1N2K3 w - -", "b5c3"), "N5c3");
    assert_eq!(san("4k3/8/8/1N6/8/8/8/1N1NK3 w - -", "b1c3"), "Nb1c3");
    assert_eq!(san("4k3/8/8/1N6/8/8/8/1N1NK3 w - -", "d1c3"), "Nd1c3");
    assert_eq!(san("4k3/8/8/1N6/8/8/8/1N1NK3 w - -", "b5c3"), "Nb5c3");
    assert_eq!(san("4k3/8/8/1N6/8/8/8/1N1NK3 w - -", "b5a3"), "N5a3");
    assert_eq!(san("4k3/8/8/1N6/8/8/8/1N1NK3 w - -", "d1e3"), "Ne3");
    assert_eq!(san("4k3/8/8/8/8/8/8/R3K2R w - -", "a1d1"), "Rd1");
    assert_eq!(san("4k3/8/8/8/8/8/4K3/R6R w - -", "a1d1"), "Rad1");
    assert_eq!(san("4k3/8/8/8/8/8/4K3/R6R w - -", "h1e1"), "Rhe1");
    assert_eq!(san("4k3/8/8/8/8/8/8/R3K2R w - -", "a1b1"), "Rb1");
    assert_eq!(san("4k3/8/8/8/r7/4K3/8/r7 b - -", "a4a2"), "R4a2");
    assert_eq!(san("1r2k3/8/8/8/8/8/8/R3K2R w - -", "a1b1"), "Rb1");
}

#[test]
fn a_pinned_rival_is_no_rival() {
    assert_eq!(san("4k3/8/8/8/8/4r3/4N3/1N2K3 w - -", "b1c3"), "Nc3");
}

#[test]
fn castles_promotions_and_checks_in_algebraic_notation() {
    assert_eq!(san("r3k2r/8/8/8/8/8/8/R3K2R w KQkq -", "e1g1"), "O-O");
    assert_eq!(san("r3k2r/8/8/8/8/8/8/R3K2R w KQkq -", "e1c1"), "O-O-O");
    assert_eq!(san("r3k2r/8/8/8/8/8/8/R3K2R b KQkq -", "e8g8"), "O-O");
    assert_eq!(san("5k2/8/8/8/8/8/8/4K2R w K -", "e1g1"), "O-O");
    assert_eq!(san("8/1P2k3/8/8/8/8/8/4K3 w - -", "b7b8q"), "b8q");
    assert_eq!(san("8/1P2k3/8/8/8/8/8/4K3 w - -", "b7b8r"), "b8r");
    assert_eq!(san("8/1P2k3/8/8/8/8/8/4K3 w - -", "b7b8n"), "b8n");
    assert_eq!(san("n3k3/1P6/8/8/8/8/8/4K3 w - -", "b7a8q"), "bxa8q+");
    assert_eq!(san("n3k3/1P6/8/8/8/8/8/4K3 w - -", "b7b8r"), "b8r+");
    assert_eq!(san("n3k3/1P6/8/8/8/8/8/4K3 w - -", "b7b8b"), "b8b");
    assert_eq!(san("4k3/8/8/8/8/8/8/4KR2 w - -", "f1f8"), "Rf8+");
    assert_eq!(san("4k3/8/8/8/8/8/8/4KR2 w - -", "f1f7"), "Rf7");
    assert_eq!(san("4k3/8/8/8/8/8/4P3/4K3 w - -", "e2e4"), "e4");
    assert_eq!(san("7k/8/5QK1/8/8/8/8/8 w - -", "f6g7"), "Qg7+");
}

#[test]
fn the_board_is_drawn_from_whites_side() {
    let board = Board::new().unwrap();
    let dots = "\u{b7} \u{b7} \u{b7} \u{b7} \u{b7} \u{b7} \u{b7} \u{b7} \n";
    let expected = format!(
        "r n b q k b n r \np p p p p p p p \n{}{}{}{}P P P P P P P P \nR N B Q K B N R \n",
        dots, dots, dots, dots
    );
    assert_eq!(board.render(), expected);
    let sparse = Board::from_fen("4k3/8/8/8/8/8/8/Q3K3 b - -").unwrap();
    let expected = format!(
        "\u{b7} \u{b7} \u{b7} \u{b7} k \u{b7} \u{b7} \u{b7} \n{}{}{}{}{}{}Q \u{b7} \u{b7} \u{b7} K \u{b7} \u{b7} \u{b7} \n",
        dots, dots, dots, dots, dots, dots
    );
    assert_eq!(sparse.render(), expected);
}

#[test]
fn a_set_of_squares_is_drawn_from_whites_side() {
    let dots = "\u{b7} \u{b7} \u{b7} \u{b7} \u{b7} \u{b7} \u{b7} \u{b7} \n";
    let expected = format!(
        "\u{b7} \u{b7} \u{b7} \u{b7} \u{b7} \u{b7} \u{b7} 1 \n{}{}{}{}{}{}1 1 \u{b7} \u{b7} \u{b7} \u{b7} \u{b7} \u{b7} \n\n",
        dots, dots, dots, dots, dots, dots
    );
    assert_eq!(render_bitboard(0x8000_0000_0000_0003), expected);
    assert_eq!(render_bitboard(0), format!("{}\n", dots.repeat(8)));
}
