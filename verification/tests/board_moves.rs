use barnarok::{
    get_legal_moves, is_king_attacked, Board, Move, MoveContext, Piece,
};

fn named(board: &mut Board, name: &str) -> Move {
    let moves = board.get_legal_moves();
    for mv in moves.iter() {
        if mv.to_uci() == name {
            return *mv;
        }
    }
    panic!("no legal move {}", name);
}

fn has_move(board: &mut Board, name: &str) -> bool {
    board.get_legal_moves().iter().any(|mv| mv.to_uci() == name)
}

fn walk(board: &mut Board, depth: usize) {
    assert!(board.is_well_formed());
    if depth == 0 {
        return;
    }
    let before = *board;
    let moves = board.get_legal_moves();
    assert_eq!(*board, before);
    for mv in moves.iter() {
        assert!(board.accepts(mv));
        board.make_move(*mv);
        assert!(board.is_well_formed());
        assert!(!is_king_attacked(board, true));
        assert_ne!(board.white_to_play, before.white_to_play);
        walk(board, depth - 1);
        board.unmake_move(*mv);
        assert_eq!(*board, before);
    }
}

#[test]
fn making_and_taking_back_restores_every_bit_from_the_start() {
    let mut board = Board::new().unwrap();
    walk(&mut board, 3);
}

#[test]
fn making_and_taking_back_restores_every_bit_with_castles_and_captures() {
    let mut board =
        Board::from_fen("r3k2r/p1ppqpb1/bn2pnp1/3PN3/1p2P3/2N2Q1p/PPPBBPPP/R3K2R w KQkq -").unwrap();
    walk(&mut board, 2);
}

#[test]
fn making_and_taking_back_restores_every_bit_with_promotions_and_en_passant() {
    let mut promotions =
        Board::from_fen("r3k2r/Pppp1ppp/1b3nbN/nP6/BBP1P3/q4N2/Pp1P2PP/R2Q1RK1 w kq -").unwrap();
    walk(&mut promotions, 2);
    let mut passing = Board::from_fen("8/2p5/3p4/KP5r/1R3p1k/8/4P1P1/8 w - -").unwrap();
    walk(&mut passing, 3);
}

#[test]
fn a_plain_move_changes_the_masks_it_should() {
    let mut board = Board::new().unwrap();
    let mv = named(&mut board, "g1f3");
    assert_eq!(mv.context, MoveContext::Plain);
    assert_eq!(mv.capture, None);
    board.make_move(mv);
    assert_eq!(board.white_knights, (1 << 1) | (1 << 21));
    assert_eq!(board.white_pieces, 0xffff & !(1 << 6) | (1 << 21));
    assert_eq!(board.pieces, board.white_pieces | board.black_pieces);
    assert_eq!(board.en_passant_target, None);
    assert!(!board.white_to_play);
    assert_eq!(board.piece_at(21), Piece::Knight);
    assert_eq!(board.piece_at(6), Piece::Empty);
}

#[test]
fn a_double_step_sets_the_target_for_one_ply() {
    let mut board = Board::from_fen("4k3/8/8/8/4p3/8/3P4/4K3 w - -").unwrap();
    let step = named(&mut board, "d2d4");
    assert_eq!(step.context, MoveContext::DoubleStep);
    board.make_move(step);
    assert_eq!(board.en_passant_target, Some(19));
    let passing = named(&mut board, "e4d3");
    assert_eq!(passing.context, MoveContext::EnPassant);
    assert_eq!(passing.capture, None);
    let before = board;
    board.make_move(passing);
    assert_eq!(board.white_pawns, 0);
    assert_eq!(board.black_pawns, 1 << 19);
    assert_eq!(board.en_passant_target, None);
    board.unmake_move(passing);
    assert_eq!(board, before);

    let aside = named(&mut board, "e8e7");
    board.make_move(aside);
    assert_eq!(board.en_passant_target, None);
    let back = named(&mut board, "e1e2");
    board.make_move(back);
    assert!(!has_move(&mut board, "e4d3"));
    assert!(get_legal_moves(&mut board).iter().all(|mv| mv.context != MoveContext::EnPassant));
}

#[test]
fn en_passant_that_bares_the_king_is_not_legal() {
    let mut board = Board::from_fen("8/8/8/8/k2Pp2R/8/8/4K3 b - d3").unwrap();
    assert!(!has_move(&mut board, "e4d3"));
    assert!(has_move(&mut board, "e4e3"));
}

#[test]
fn castles_are_made_and_taken_back() {
    let mut board = Board::from_fen("r3k2r/8/8/8/8/8/8/R3K2R w KQkq -").unwrap();
    let before = board;
    let short = named(&mut board, "e1g1");
    assert_eq!(short.context, MoveContext::KingSideCastle);
    board.make_move(short);
    assert_eq!(board.white_king, 6);
    assert_eq!(board.white_rooks, (1 << 0) | (1 << 5));
    assert!(!board.white_king_side_castling_right);
    assert!(!board.white_queen_side_castling_right);
    assert!(board.black_king_side_castling_right);
    let long = named(&mut board, "e8c8");
    assert_eq!(long.context, MoveContext::QueenSideCastle);
    board.make_move(long);
    assert_eq!(board.black_king, 58);
    assert_eq!(board.black_rooks, (1 << 59) | (1 << 63));
    assert!(!board.black_king_side_castling_right);
    assert!(!board.black_queen_side_castling_right);
    board.unmake_move(long);
    board.unmake_move(short);
    assert_eq!(board, before);
}

#[test]
fn a_castle_needs_a_clear_path() {
    let mut blocked = Board::from_fen("r3k2r/8/8/8/8/8/8/RN2K1NR w KQkq -").unwrap();
    assert!(!has_move(&mut blocked, "e1g1"));
    assert!(!has_move(&mut blocked, "e1c1"));
    let mut knight_square = Board::from_fen("r3k2r/8/8/8/8/8/8/RN2K2R w KQkq -").unwrap();
    assert!(has_move(&mut knight_square, "e1g1"));
    assert!(!has_move(&mut knight_square, "e1c1"));
}

#[test]
fn a_castle_needs_a_safe_path() {
    let mut crossed = Board::from_fen("4kr2/8/8/8/8/8/8/R3K2R w KQ -").unwrap();
    assert!(!has_move(&mut crossed, "e1g1"));
    assert!(has_move(&mut crossed, "e1c1"));
    let mut landing = Board::from_fen("4k1r1/8/8/8/8/8/8/R3K2R w KQ -").unwrap();
    assert!(!has_move(&mut landing, "e1g1"));
    assert!(has_move(&mut landing, "e1c1"));
    let mut checked = Board::from_fen("4r1k1/8/8/8/8/8/8/R3K2R w KQ -").unwrap();
    assert!(!has_move(&mut checked, "e1g1"));
    assert!(!has_move(&mut checked, "e1c1"));
    let mut rook_attacked = Board::from_fen("1r2k3/8/8/8/8/8/8/R3K2R w KQ -").unwrap();
    assert!(has_move(&mut rook_attacked, "e1c1"));
}

#[test]
fn a_castle_needs_the_right_and_the_pieces_at_home() {
    let mut no_right = Board::from_fen("r3k2r/8/8/8/8/8/8/R3K2R w - -").unwrap();
    assert!(!has_move(&mut no_right, "e1g1"));
    assert!(!has_move(&mut no_right, "e1c1"));
    let mut no_rook = Board::from_fen("4k3/8/8/8/8/8/8/4K3 w KQkq -").unwrap();
    assert!(!has_move(&mut no_rook, "e1g1"));
    assert!(!has_move(&mut no_rook, "e1c1"));
    let mut king_away = Board::from_fen("4k3/8/8/8/8/8/8/R2K3R w KQ -").unwrap();
    assert!(get_legal_moves(&mut king_away)
        .iter()
        .all(|mv| mv.context == MoveContext::Plain));
}

#[test]
fn a_lost_right_comes_back_only_with_the_move_that_lost_it() {
    let mut board = Board::from_fen("r3k2r/8/8/8/8/8/8/R3K2R w KQkq -").unwrap();
    let rook = named(&mut board, "a1b1");
    board.make_move(rook);
    assert!(!board.white_queen_side_castling_right);
    assert!(board.white_king_side_castling_right);
    let reply = named(&mut board, "h8h2");
    board.make_move(reply);
    assert!(!board.black_king_side_castling_right);
    assert!(board.black_queen_side_castling_right);
    let home = named(&mut board, "b1a1");
    board.make_move(home);
    assert!(!board.white_queen_side_castling_right);
    assert!(!has_move(&mut board, "e8g8"));
    board.unmake_move(home);
    assert!(!board.white_queen_side_castling_right);
    board.unmake_move(reply);
    assert!(!board.white_queen_side_castling_right);
    assert!(board.black_king_side_castling_right);
    board.unmake_move(rook);
    assert!(board.white_queen_side_castling_right);

    let king = named(&mut board, "e1e2");
    board.make_move(king);
    assert!(!board.white_queen_side_castling_right);
    assert!(!board.white_king_side_castling_right);
    board.unmake_move(king);
    assert!(board.white_queen_side_castling_right);
    assert!(board.white_king_side_castling_right);
}

#[test]
fn taking_a_rook_in_its_corner_ends_the_right() {
    let mut board = Board::from_fen("r3k2r/8/8/8/8/8/6B1/R3K2R w KQkq -").unwrap();
    let takes = named(&mut board, "g2a8");
    assert_eq!(takes.capture, Some(Piece::Rook));
    board.make_move(takes);
    assert!(!board.black_queen_side_castling_right);
    assert!(board.black_king_side_castling_right);
    assert!(!has_move(&mut board, "e8c8"));
    assert!(has_move(&mut board, "e8g8"));
    board.unmake_move(takes);
    assert!(board.black_queen_side_castling_right);
}

#[test]
fn a_pawn_on_the_last_rank_becomes_one_of_four_pieces() {
    let mut board = Board::from_fen("n3k3/1P6/8/8/8/8/8/4K3 w - -").unwrap();
    let moves = board.get_legal_moves();
    let pushes: Vec<&Move> = moves.iter().filter(|mv| mv.start == 49 && mv.end == 57).collect();
    let takes: Vec<&Move> = moves.iter().filter(|mv| mv.start == 49 && mv.end == 56).collect();
    assert_eq!(pushes.len(), 4);
    assert_eq!(takes.len(), 4);
    for kind in [Piece::Knight, Piece::Bishop, Piece::Rook, Piece::Queen] {
        assert!(pushes.iter().any(|mv| mv.context == MoveContext::Promotion(kind)));
        assert!(takes
            .iter()
            .any(|mv| mv.context == MoveContext::Promotion(kind)
                && mv.capture == Some(Piece::Knight)));
    }
    let queen = named(&mut board, "b7a8q");
    let before = board;
    board.make_move(queen);
    assert_eq!(board.white_pawns, 0);
    assert_eq!(board.white_queens, 1 << 56);
    assert_eq!(board.black_knights, 0);
    board.unmake_move(queen);
    assert_eq!(board, before);
}

#[test]
fn no_move_is_listed_twice() {
    let mut board =
        Board::from_fen("r3k2r/p1ppqpb1/bn2pnp1/3PN3/1p2P3/2N2Q1p/PPPBBPPP/R3K2R w KQkq -").unwrap();
    let moves = board.get_legal_moves();
    assert_eq!(moves.len(), 48);
    for i in 0..moves.len() {
        for j in 0..i {
            assert_ne!(moves[i], moves[j]);
        }
    }
}

#[test]
fn a_pinned_piece_stays_and_a_checked_king_is_helped() {
    let mut pinned = Board::from_fen("4k3/8/8/8/8/4r3/4N3/4K3 w - -").unwrap();
    assert!(get_legal_moves(&mut pinned).iter().all(|mv| mv.start != 12));
    let mut checked = Board::from_fen("4k3/8/8/8/8/8/3N4/r3K3 w - -").unwrap();
    let moves = get_legal_moves(&mut checked);
    assert!(moves.iter().any(|mv| mv.start == 11 && mv.end == 1));
    assert!(moves.iter().all(|mv| mv.start == 4 || mv.end == 1));
}

#[test]
fn the_king_is_never_a_target() {
    let mut board = Board::from_fen("4k3/8/8/8/8/8/8/4KR1r b - -").unwrap();
    let stray = Board::from_fen("4R3/8/8/8/8/8/8/4K2k w - -").unwrap();
    assert!(get_legal_moves(&mut board).iter().all(|mv| mv.capture != Some(Piece::King)));
    let mut stray = stray;
    assert!(get_legal_moves(&mut stray).iter().all(|mv| mv.capture != Some(Piece::King)));
    let mut exposed = Board::from_fen("4k2R/8/8/8/8/8/8/4K3 w - -").unwrap();
    assert!(get_legal_moves(&mut exposed).iter().all(|mv| mv.end != 60));
}

#[test]
fn only_moves_that_fit_are_accepted() {
    let board = Board::new().unwrap();
    let good = Move {
        start: 12,
        end: 28,
        context: MoveContext::DoubleStep,
        previous_ep_target: None,
        previous_wqs: true,
        previous_wks: true,
        previous_bqs: true,
        previous_bks: true,
        capture: None,
    };
    assert!(board.accepts(&good));
    assert!(!board.accepts(&Move { start: 28, ..good }));
    assert!(!board.accepts(&Move { start: 52, end: 36, ..good }));
    assert!(!board.accepts(&Move { end: 11, ..good }));
    assert!(!board.accepts(&Move { capture: Some(Piece::Pawn), ..good }));
    assert!(!board.accepts(&Move { end: 64, ..good }));
    assert!(!board.accepts(&Move { context: MoveContext::EnPassant, ..good }));
    assert!(!board.accepts(&Move { context: MoveContext::KingSideCastle, ..good }));
    assert!(!board.accepts(&Move { start: 1, end: 18, ..good }));
    assert!(board.accepts(&Move { start: 1, end: 18, context: MoveContext::Plain, ..good }));
}

#[test]
fn a_board_with_a_square_claimed_twice_is_not_well_formed() {
    let board = Board::new().unwrap();
    assert!(board.is_well_formed());
    assert!(!Board { white_rooks: board.white_rooks | 0x100, ..board }.is_well_formed());
    assert!(!Board { white_pieces: 0, ..board }.is_well_formed());
    assert!(!Board { pieces: 0, ..board }.is_well_formed());
    assert!(!Board { white_king: 64, ..board }.is_well_formed());
    assert!(!Board { black_king: 4, ..board }.is_well_formed());
    assert!(!Board { en_passant_target: Some(64), ..board }.is_well_formed());
    assert!(Board { en_passant_target: Some(20), ..board }.is_well_formed());
}
