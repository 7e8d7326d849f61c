use barnarok::{launch_explore, Board};

#[test]
fn perft_from_the_start() {
    let mut board = Board::new().unwrap();
    assert_eq!(launch_explore(&mut board, 1), 20);
    assert_eq!(launch_explore(&mut board, 2), 400);
    assert_eq!(launch_explore(&mut board, 3), 8902);
}

#[test]
fn perft_four_plies() {
    let mut board = Board::new().unwrap();
    assert_eq!(launch_explore(&mut board, 4), 197281);
}

#[test]
fn perft_kiwipete() {
    let mut board =
        Board::from_fen("r3k2r/p1ppqpb1/bn2pnp1/3PN3/1p2P3/2N2Q1p/PPPBBPPP/R3K2R w KQkq -").unwrap();
    assert_eq!(launch_explore(&mut board, 1), 48);
    assert_eq!(launch_explore(&mut board, 2), 2039);
    assert_eq!(launch_explore(&mut board, 3), 97862);
}

#[test]
fn perft_endgame_with_en_passant_pins() {
    let mut board = Board::from_fen("8/2p5/3p4/KP5r/1R3p1k/8/4P1P1/8 w - -").unwrap();
    assert_eq!(launch_explore(&mut board, 1), 14);
    assert_eq!(launch_explore(&mut board, 2), 191);
    assert_eq!(launch_explore(&mut board, 3), 2812);
    assert_eq!(launch_explore(&mut board, 4), 43238);
}

#[test]
fn perft_promotions() {
    let mut board =
        Board::from_fen("r3k2r/Pppp1ppp/1b3nbN/nP6/BBP1P3/q4N2/Pp1P2PP/R2Q1RK1 w kq -").unwrap();
    assert_eq!(launch_explore(&mut board, 1), 6);
    assert_eq!(launch_explore(&mut board, 2), 264);
    assert_eq!(launch_explore(&mut board, 3), 9467);
}

#[test]
fn new_is_the_standard_description() {
    let parsed = Board::from_fen("rnbqkbnr/pppppppp/8/8/8/8/PPPPPPPP/RNBQKBNR w KQkq -").unwrap();
    assert_eq!(Board::new().unwrap(), parsed);
}

#[test]
fn perft_with_a_pawn_about_to_promote_with_check() {
    let mut board =
        Board::from_fen("rnbq1k1r/pp1Pbppp/2p5/8/2B5/8/PPP1NnPP/RNBQK2R w KQ -").unwrap();
    assert_eq!(launch_explore(&mut board, 1), 44);
    assert_eq!(launch_explore(&mut board, 2), 1486);
    assert_eq!(launch_explore(&mut board, 3), 62379);
}

#[test]
fn perft_of_a_middle_game() {
    let mut board =
        Board::from_fen("r4rk1/1pp1qppp/p1np1n2/2b1p1B1/2B1P1b1/P1NP1N2/1PP1QPPP/R4RK1 w - -")
            .unwrap();
    assert_eq!(launch_explore(&mut board, 1), 46);
    assert_eq!(launch_explore(&mut board, 2), 2079);
    assert_eq!(launch_explore(&mut board, 3), 89890);
}

#[test]
fn perft_with_black_to_move() {
    let mut board =
        Board::from_fen("r2q1rk1/pP1p2pp/Q4n2/bbp1p3/Np6/1B3NBn/pPPP1PPP/R3K2R b KQ -").unwrap();
    assert_eq!(launch_explore(&mut board, 1), 6);
    assert_eq!(launch_explore(&mut board, 2), 264);
    assert_eq!(launch_explore(&mut board, 3), 9467);
}

#[test]
fn no_plies_leave_one_position() {
    let mut board = Board::new().unwrap();
    assert_eq!(launch_explore(&mut board, 0), 1);
    let mut mated = Board::from_fen("7k/6Q1/6K1/8/8/8/8/8 b - -").unwrap();
    assert_eq!(launch_explore(&mut mated, 0), 1);
    assert_eq!(launch_explore(&mut mated, 1), 0);
    assert_eq!(launch_explore(&mut mated, 2), 0);
}
