use barnarok::{
    get_legal_moves, is_king_attacked, launch_alpha_beta, launch_alpha_beta_quiesce, negamax,
    quiesce, Board, INF,
};

const POSITIONS: [&str; 6] = [
    "rnbqkbnr/pppppppp/8/8/8/8/PPPPPPPP/RNBQKBNR w KQkq -",
    "r3k2r/p1ppqpb1/bn2pnp1/3PN3/1p2P3/2N2Q1p/PPPBBPPP/R3K2R w KQkq -",
    "8/2p5/3p4/KP5r/1R3p1k/8/4P1P1/8 w - -",
    "4k3/8/8/3q4/4P3/8/8/4K3 w - -",
    "7k/8/5QK1/8/8/8/8/8 w - -",
    "r1bqkb1r/pppp1ppp/2n2n2/4p2Q/2B1P3/8/PPPP1PPP/RNB1K1NR w KQkq -",
];

#[test]
fn static_score_is_material_for_the_side_to_move() {
    assert_eq!(Board::new().unwrap().evaluate(), 0);
    assert_eq!(Board::from_fen("4k3/8/8/8/8/8/8/3QK3 w - -").unwrap().evaluate(), 900);
    assert_eq!(Board::from_fen("4k3/8/8/8/8/8/8/3QK3 b - -").unwrap().evaluate(), -900);
    assert_eq!(Board::from_fen("4k3/1p6/8/8/8/8/8/1N2K3 w - -").unwrap().evaluate(), 220);
    assert_eq!(Board::from_fen("2b1k3/8/8/8/8/8/8/R3K3 w - -").unwrap().evaluate(), 170);
    assert_eq!(
        Board::from_fen("rnbqkbnr/pppppppp/8/8/8/8/8/4K3 b - -").unwrap().evaluate(),
        800 + 2 * 320 + 2 * 330 + 2 * 500 + 900
    );
}

#[test]
fn static_score_is_zero_sum() {
    for fen in POSITIONS {
        let board = Board::from_fen(fen).unwrap();
        let other = Board { white_to_play: !board.white_to_play, ..board };
        assert_eq!(board.evaluate(), -other.evaluate());
        assert!(board.evaluate().abs() < INF);
    }
}

#[test]
fn alpha_beta_scores_as_negamax_does_one_ply_deep() {
    for fen in POSITIONS {
        let mut board = Board::from_fen(fen).unwrap();
        assert_eq!(launch_alpha_beta(&mut board, 1).0, negamax(&mut board, 1).0);
    }
}

#[test]
fn alpha_beta_scores_as_negamax_does_two_plies_deep() {
    for fen in POSITIONS {
        let mut board = Board::from_fen(fen).unwrap();
        assert_eq!(launch_alpha_beta(&mut board, 2).0, negamax(&mut board, 2).0);
    }
}

#[test]
fn alpha_beta_scores_as_negamax_does_three_plies_deep() {
    for fen in [POSITIONS[0], POSITIONS[2], POSITIONS[3], POSITIONS[4]] {
        let mut board = Board::from_fen(fen).unwrap();
        for _ in 0..3 {
            assert_eq!(launch_alpha_beta(&mut board, 3).0, negamax(&mut board, 3).0);
        }
    }
}

#[test]
fn a_search_of_depth_zero_is_the_static_score() {
    for fen in POSITIONS {
        let mut board = Board::from_fen(fen).unwrap();
        let before = board;
        assert_eq!(negamax(&mut board, 0), (board.evaluate(), None));
        assert_eq!(launch_alpha_beta(&mut board, 0), (board.evaluate(), None));
        assert_eq!(board, before);
    }
}

#[test]
fn a_search_leaves_the_board_as_it_was() {
    for fen in POSITIONS {
        let mut board = Board::from_fen(fen).unwrap();
        let before = board;
        negamax(&mut board, 2);
        assert_eq!(board, before);
        launch_alpha_beta(&mut board, 2);
        assert_eq!(board, before);
    }
    for fen in [POSITIONS[0], POSITIONS[2], POSITIONS[3], POSITIONS[4]] {
        let mut board = Board::from_fen(fen).unwrap();
        let before = board;
        launch_alpha_beta_quiesce(&mut board, 2);
        assert_eq!(board, before);
        quiesce(&mut board, -INF, INF);
        assert_eq!(board, before);
    }
}

#[test]
fn the_move_returned_earns_the_score() {
    for fen in POSITIONS {
        let mut board = Board::from_fen(fen).unwrap();
        let (score, best) = negamax(&mut board, 2);
        let mv = best.unwrap();
        assert!(get_legal_moves(&mut board).contains(&mv));
        board.make_move(mv);
        assert_eq!(-negamax(&mut board, 1).0, score);
        board.unmake_move(mv);
        let (score, best) = launch_alpha_beta(&mut board, 2);
        let mv = best.unwrap();
        board.make_move(mv);
        assert_eq!(-negamax(&mut board, 1).0, score);
    }
}

#[test]
fn a_mated_side_has_lost() {
    let mut board = Board::from_fen("7k/6Q1/6K1/8/8/8/8/8 b - -").unwrap();
    assert!(get_legal_moves(&mut board).is_empty());
    assert!(is_king_attacked(&board, false));
    assert_eq!(negamax(&mut board, 1), (-INF, None));
    assert_eq!(negamax(&mut board, 3), (-INF, None));
    assert_eq!(launch_alpha_beta(&mut board, 2), (-INF, None));
    assert_eq!(launch_alpha_beta_quiesce(&mut board, 2), (-INF, None));
}

#[test]
fn a_stalemated_side_has_drawn() {
    let mut board = Board::from_fen("7k/5Q2/6K1/8/8/8/8/8 b - -").unwrap();
    assert!(get_legal_moves(&mut board).is_empty());
    assert!(!is_king_attacked(&board, false));
    assert_eq!(negamax(&mut board, 1), (0, None));
    assert_eq!(negamax(&mut board, 3), (0, None));
    assert_eq!(launch_alpha_beta(&mut board, 2), (0, None));
    assert_eq!(launch_alpha_beta_quiesce(&mut board, 2), (0, None));
}

#[test]
fn a_mate_in_one_is_found() {
    let mut board = Board::from_fen("7k/8/5QK1/8/8/8/8/8 w - -").unwrap();
    for (score, best) in [
        negamax(&mut board, 2),
        launch_alpha_beta(&mut board, 2),
        launch_alpha_beta_quiesce(&mut board, 2),
    ] {
        assert_eq!(score, INF);
        let mv = best.unwrap();
        board.make_move(mv);
        assert!(get_legal_moves(&mut board).is_empty());
        assert!(is_king_attacked(&board, false));
        board.unmake_move(mv);
    }
}

#[test]
fn a_side_that_cannot_escape_mate_still_gets_a_move() {
    let mut board = Board::from_fen("6k1/5ppp/8/8/8/8/8/R3K2R b - -").unwrap();
    let (score, best) = negamax(&mut board, 2);
    assert!(best.is_some());
    assert!(score <= 0);
    let mut lost = Board::from_fen("k7/8/1K6/8/8/8/8/7R b - -").unwrap();
    assert_eq!(negamax(&mut lost, 2).0, -500);
    let (score, best) = negamax(&mut lost, 3);
    assert_eq!(score, -INF);
    assert_eq!(best.unwrap().to_uci(), "a8b8");
    let (score, best) = launch_alpha_beta(&mut lost, 3);
    assert_eq!(score, -INF);
    assert_eq!(best.unwrap().to_uci(), "a8b8");
}

#[test]
fn one_ply_takes_the_hanging_queen() {
    let mut board = Board::from_fen("4k3/8/8/3q4/4P3/8/8/4K3 w - -").unwrap();
    let (score, best) = negamax(&mut board, 1);
    assert_eq!(score, 100);
    assert_eq!(best.unwrap().to_uci(), "e4d5");
    let (score, best) = launch_alpha_beta(&mut board, 1);
    assert_eq!(score, 100);
    assert_eq!(best.unwrap().to_uci(), "e4d5");
}

#[test]
fn quiet_positions_score_as_they_stand() {
    let mut start = Board::new().unwrap();
    assert_eq!(quiesce(&mut start, -INF, INF), 0);
    let mut kings = Board::from_fen("4k3/8/8/8/8/8/8/3QK3 b - -").unwrap();
    assert_eq!(quiesce(&mut kings, -INF, INF), -900);
}

#[test]
fn captures_are_played_out() {
    let mut hanging = Board::from_fen("4k3/8/8/3q4/4P3/8/8/4K3 w - -").unwrap();
    assert_eq!(hanging.evaluate(), -800);
    assert_eq!(quiesce(&mut hanging, -INF, INF), 100);
    let mut defended = Board::from_fen("4k3/8/4p3/3p4/4P3/8/8/4K3 w - -").unwrap();
    assert_eq!(defended.evaluate(), -100);
    assert_eq!(quiesce(&mut defended, -INF, INF), -100);
    let mut trade = Board::from_fen("4k3/8/4p3/3q4/4P3/8/8/4K3 w - -").unwrap();
    assert_eq!(quiesce(&mut trade, -INF, INF), -100);
}

#[test]
fn a_window_cuts_the_quiet_search_short() {
    let mut hanging = Board::from_fen("4k3/8/8/3q4/4P3/8/8/4K3 w - -").unwrap();
    assert!(quiesce(&mut hanging, -INF, 50) >= 50);
    assert!(quiesce(&mut hanging, 200, 300) <= 200);
    assert_eq!(quiesce(&mut hanging, 0, 200), 100);
    assert_eq!(quiesce(&mut hanging, -INF, -900), -800);
}

#[test]
fn quiet_leaves_see_past_the_horizon() {
    let mut board = Board::from_fen("4k3/8/4p3/3p4/8/8/8/3QK3 w - -").unwrap();
    let (plain, _) = launch_alpha_beta(&mut board, 1);
    let (quiet, _) = launch_alpha_beta_quiesce(&mut board, 1);
    assert_eq!(plain, 800);
    assert_eq!(quiet, 700);
}

#[test]
fn equal_moves_are_tried_in_a_shuffled_order() {
    let mut board = Board::new().unwrap();
    let first = launch_alpha_beta(&mut board, 1).1.unwrap();
    let mut varied = false;
    for _ in 0..200 {
        let (score, best) = launch_alpha_beta(&mut board, 1);
        assert_eq!(score, 0);
        if best.unwrap() != first {
            varied = true;
        }
    }
    assert!(varied);
}
