use chess::engine_game::EngineGame;
use chess::eval::eval_board;
use chess::fen::parse_move;
use chess::game::Game;
use chess::search::{
    deadline_passed, mate_in, move_budget, mated_in, negamax, quiescence, search, SearchError, SearchState,
    TimeControl, INF, MATE,
};
use chess::strategy::{perft, random_move, top_eval_move};
use chess::transposition_table::TranspositionTable;

const KIWIPETE: &str = "r3k2r/p1ppqpb1/bn2pnp1/3PN3/1p2P3/2N2Q1p/PPPBBPPP/R3K2R w KQkq - 0 1";

fn play(game: &mut Game, moves: &[&str]) {
    for text in moves {
        let mv = parse_move(text).unwrap();
        assert!(game.play_move(&mv).is_ok(), "{text} should be legal");
    }
}

#[test]
fn kiwipete_perft_depth_1_and_2() {
    let mut game = Game::from_fen(KIWIPETE).unwrap();
    assert_eq!(perft(1, &mut game), 48);
    assert_eq!(perft(2, &mut game), 2039);
    assert_eq!(game.to_fen(), KIWIPETE);
}

#[test]
fn position_three_perft() {
    let mut game = Game::from_fen("8/2p5/3p4/KP5r/1R3p1k/8/4P1P1/8 w - - 0 1").unwrap();
    assert_eq!(perft(1, &mut game), 14);
    assert_eq!(perft(2, &mut game), 191);
    assert_eq!(perft(3, &mut game), 2812);
}

#[test]
fn mate_in_one_is_found() {
    let mut game = Game::from_fen("6k1/5ppp/8/8/8/8/5PPP/R5K1 w - - 0 1").unwrap();
    let mut tt = TranspositionTable::new();
    tt.resize(1);
    let mut state = SearchState::new(1);
    let control = TimeControl::unlimited();
    let (mv, pv, score) = search(&mut game, 3, &control, &mut tt, &mut state).unwrap();
    assert_eq!(mv.notation(), "a1a8");
    assert_eq!(pv[0], mv);
    assert!(score >= mate_in(1));
    assert_eq!(game.to_fen(), "6k1/5ppp/8/8/8/8/5PPP/R5K1 w - - 0 1");
}

#[test]
fn mate_scores() {
    assert_eq!(mate_in(1), MATE - 1);
    assert_eq!(mated_in(2), -MATE + 2);
}

#[test]
fn checkmated_side_has_no_move() {
    // Fool's mate: White is mated.
    let mut game = Game::new();
    play(&mut game, &["f2f3", "e7e5", "g2g4", "d8h4"]);
    assert_eq!(game.legal_moves().len(), 0);
    assert!(game.board.king_in_check(game.player));
    let mut tt = TranspositionTable::new();
    tt.resize(1);
    let mut state = SearchState::new(1);
    let control = TimeControl::unlimited();
    assert!(matches!(
        negamax(&mut game, 2, &mut state, &control, &mut tt),
        Err(SearchError::NoLegalMoves)
    ));
    assert!(search(&mut game, 2, &control, &mut tt, &mut state).is_none());
    assert!(random_move(&mut game).is_none());
    assert!(top_eval_move(&mut game).is_none());
}

#[test]
fn search_stops_on_node_limit() {
    let mut game = Game::new();
    let mut tt = TranspositionTable::new();
    tt.resize(1);
    let mut state = SearchState::new(1);
    let control = TimeControl::new(None, Some(1));
    let result = search(&mut game, 4, &control, &mut tt, &mut state);
    let (mv, _, _) = result.unwrap();
    assert!(game.legal_moves().contains(&mv));
    assert_eq!(game.to_fen(), Game::new().to_fen());
}

#[test]
fn time_control_with_no_budget_stops() {
    let control = TimeControl::new(Some(0), None);
    assert!(control.should_stop(0));
    assert!(!TimeControl::unlimited().should_stop(1_000_000));
    assert!(TimeControl::new(None, Some(10)).should_stop(10));
}

#[test]
fn random_move_is_legal() {
    let mut game = Game::new();
    let legal = game.legal_moves();
    for _ in 0..20 {
        let mv = random_move(&mut game).unwrap();
        assert!(legal.contains(&mv));
    }
}

#[test]
fn top_eval_move_takes_the_hanging_queen() {
    let mut game = Game::from_fen("4k3/8/8/3q4/4P3/8/8/4K3 w - - 0 1").unwrap();
    let mv = top_eval_move(&mut game).unwrap();
    assert_eq!(mv.notation(), "e4d5");
}

#[test]
fn engine_game_tracks_the_game() {
    let mut eg = EngineGame::new();
    let start_eval = eg.eval();
    for text in ["e2e4", "e7e5", "g1f3", "b8c6", "f1b5", "g8f6", "e1g1"] {
        let mv = parse_move(text).unwrap();
        let legal = eg.moves();
        assert!(legal.contains(&mv));
        eg.make_move(&mv);
        assert_eq!(eg.eval(), eval_board(&eg.game.board, eg.game.player));
    }
    for _ in 0..7 {
        eg.undo_move();
    }
    assert_eq!(eg.eval(), start_eval);
    assert_eq!(eg.game.to_fen(), Game::new().to_fen());
}

#[test]
fn deadline_passes_after_the_budget() {
    assert!(!deadline_passed(1_000, 1_499, 500));
    assert!(deadline_passed(1_000, 1_500, 500));
    assert!(!deadline_passed(1_000, 900, 0));
}

#[test]
fn root_search_without_table_scores_the_mate() {
    let mut game = Game::from_fen("6k1/5ppp/8/8/8/8/5PPP/R5K1 w - - 0 1").unwrap();
    let mut tt = TranspositionTable::new();
    let mut state = SearchState::new(1);
    let control = TimeControl::unlimited();
    let (mv, _, score) = negamax(&mut game, 3, &mut state, &control, &mut tt).unwrap();
    assert_eq!(mv.notation(), "a1a8");
    assert_eq!(score, mate_in(1));
}

#[test]
fn quiescence_sees_en_passant() {
    // White can win the pawn that just pushed two squares only by taking en passant.
    let mut game = Game::from_fen("4k3/8/8/3pP3/8/8/8/4K3 w - d6 0 2").unwrap();
    let mut state = SearchState::new(1);
    let stand = eval_board(&game.board, game.player);
    let q = quiescence(&mut game, -INF, INF, 4, &mut state);
    assert!(q > stand);
}

#[test]
fn move_budget_values() {
    assert_eq!(move_budget(Some(1000), Some(60_000), 100, false, false), Some(900));
    assert_eq!(move_budget(None, Some(60_000), 0, false, false), Some(2000));
    assert_eq!(move_budget(None, None, 0, false, false), Some(5000));
    assert_eq!(move_budget(None, None, 0, true, false), None);
    assert_eq!(move_budget(None, None, 0, false, true), None);
    assert_eq!(move_budget(Some(10), None, 50, false, false), Some(1));
}

#[test]
fn move_text_round_trip() {
    for text in ["e2e4", "a7a8q", "h1h8", "b7c8n"] {
        assert_eq!(parse_move(text).unwrap().notation(), text);
    }
    assert!(parse_move("e9e4").is_none());
    assert!(parse_move("e2e4k").is_none());
}
