use barnarok::play::{LONGEST_GAME, SEARCH_DEPTH};
use barnarok::{
    alpha_beta_quiesce_strategy, alpha_beta_strategy, get_legal_moves, negamax,
    negamax_strategy, play_turn, player_move, random_strategy, strategy_named, Board,
    GameResult, Strategy,
};

#[test]
fn strategies_have_names() {
    assert_eq!(strategy_named("player"), Some(Strategy::Player));
    assert_eq!(strategy_named("random"), Some(Strategy::Random));
    assert_eq!(strategy_named("negamax"), Some(Strategy::Negamax));
    assert_eq!(strategy_named("alphabeta"), Some(Strategy::AlphaBeta));
    assert_eq!(strategy_named("alphabetaq"), Some(Strategy::AlphaBetaQuiesce));
    assert_eq!(strategy_named(""), None);
    assert_eq!(strategy_named("Player"), None);
    assert_eq!(strategy_named("alphabeta "), None);
    assert_eq!(strategy_named("alphabet"), None);
    assert_eq!(strategy_named("minimax"), None);
}

#[test]
fn a_typed_move_is_looked_up_among_the_legal_ones() {
    let mut board = Board::new().unwrap();
    let before = board;
    let mv = player_move(&mut board, "e2e4").unwrap();
    assert_eq!((mv.start, mv.end), (12, 28));
    assert_eq!(player_move(&mut board, "e2e5"), None);
    assert_eq!(player_move(&mut board, "e7e5"), None);
    assert_eq!(player_move(&mut board, "e2e4 "), None);
    assert_eq!(player_move(&mut board, ""), None);
    assert_eq!(board, before);
    let mut promoting = Board::from_fen("8/1P2k3/8/8/8/8/8/4K3 w - -").unwrap();
    assert_eq!(player_move(&mut promoting, "b7b8"), None);
    assert_eq!(player_move(&mut promoting, "b7b8n").unwrap().to_uci(), "b7b8n");
}

#[test]
fn a_move_by_chance_is_a_legal_move() {
    let mut board =
        Board::from_fen("r3k2r/p1ppqpb1/bn2pnp1/3PN3/1p2P3/2N2Q1p/PPPBBPPP/R3K2R w KQkq -").unwrap();
    let before = board;
    let legal = get_legal_moves(&mut board);
    for _ in 0..50 {
        let mv = random_strategy(&mut board).unwrap();
        assert!(legal.contains(&mv));
        assert_eq!(board, before);
    }
    let mut mated = Board::from_fen("7k/6Q1/6K1/8/8/8/8/8 b - -").unwrap();
    assert_eq!(random_strategy(&mut mated), None);
    let mut single = Board::from_fen("k7/8/2K5/8/8/8/8/1R6 b - -").unwrap();
    assert_eq!(random_strategy(&mut single).unwrap().to_uci(), "a8a7");
}

#[test]
fn the_searching_strategies_play_the_move_of_their_search() {
    assert_eq!(SEARCH_DEPTH, 4);
    let mut board = Board::from_fen("7k/8/5QK1/8/8/8/8/8 w - -").unwrap();
    let before = board;
    for mv in [
        negamax_strategy(&mut board).unwrap(),
        alpha_beta_strategy(&mut board).unwrap(),
        alpha_beta_quiesce_strategy(&mut board).unwrap(),
    ] {
        assert_eq!(board, before);
        board.make_move(mv);
        assert_eq!(negamax(&mut board, 3).0, -barnarok::INF);
        board.unmake_move(mv);
    }
    let mut mated = Board::from_fen("7k/6Q1/6K1/8/8/8/8/8 b - -").unwrap();
    assert_eq!(negamax_strategy(&mut mated), None);
    assert_eq!(alpha_beta_strategy(&mut mated), None);
    assert_eq!(alpha_beta_quiesce_strategy(&mut mated), None);
    let mut small = Board::from_fen("4k3/8/8/3q4/4P3/8/8/4K3 w - -").unwrap();
    assert_eq!(negamax_strategy(&mut small), negamax(&mut small, 4).1);
}

#[test]
fn a_turn_with_a_move_goes_on() {
    let mut board = Board::new().unwrap();
    let mut full_moves = 0;
    let white = player_move(&mut board, "e2e4").unwrap();
    assert_eq!(play_turn(&mut board, &mut full_moves, Some(white)), None);
    assert_eq!(full_moves, 0);
    assert!(!board.white_to_play);
    assert_eq!(board.white_pawns, 0xef00 | (1 << 28));
    let black = player_move(&mut board, "e7e5").unwrap();
    assert_eq!(play_turn(&mut board, &mut full_moves, Some(black)), None);
    assert_eq!(full_moves, 1);
    assert!(board.white_to_play);
}

#[test]
fn a_game_is_stopped_after_its_last_move() {
    assert_eq!(LONGEST_GAME, 500);
    let mut board = Board::new().unwrap();
    let mut full_moves = 499;
    let white = player_move(&mut board, "g1f3").unwrap();
    assert_eq!(play_turn(&mut board, &mut full_moves, Some(white)), None);
    assert_eq!(full_moves, 499);
    let black = player_move(&mut board, "g8f6").unwrap();
    assert_eq!(
        play_turn(&mut board, &mut full_moves, Some(black)),
        Some(GameResult::Stalemate)
    );
    assert_eq!(full_moves, 500);
}

#[test]
fn a_turn_without_a_move_ends_the_game() {
    let mut full_moves = 7;
    let mut black_mated = Board::from_fen("7k/6Q1/6K1/8/8/8/8/8 b - -").unwrap();
    let before = black_mated;
    assert_eq!(play_turn(&mut black_mated, &mut full_moves, None), Some(GameResult::White));
    assert_eq!(black_mated, before);
    assert_eq!(full_moves, 7);
    let mut white_mated = Board::from_fen("8/8/8/8/8/6k1/6q1/7K w - -").unwrap();
    assert_eq!(play_turn(&mut white_mated, &mut full_moves, None), Some(GameResult::Black));
    let mut stalemate = Board::from_fen("7k/5Q2/6K1/8/8/8/8/8 b - -").unwrap();
    assert_eq!(play_turn(&mut stalemate, &mut full_moves, None), Some(GameResult::Stalemate));
}
