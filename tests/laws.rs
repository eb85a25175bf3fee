use chess::eval::eval_board;
use chess::fen::parse_move;
use chess::game::Game;
use chess::search::{Bound, SearchEntry};
use chess::transposition_table::TranspositionTable;

fn play(game: &mut Game, moves: &[&str]) {
    for text in moves {
        let mv = parse_move(text).unwrap();
        assert!(game.play_move(&mv).is_ok(), "{text} should be legal");
    }
}

fn entry(depth: u8, generation: u16, score: i32) -> SearchEntry {
    SearchEntry { depth, bound: Bound::Exact, score, best_move: None, generation }
}

#[test]
fn make_then_undo_restores_every_field() {
    let mut game = Game::from_fen("r3k2r/p1ppqpb1/bn2pnp1/3PN3/1p2P3/2N2Q1p/PPPBBPPP/R3K2R w KQkq - 0 1").unwrap();
    let moves = game.legal_moves();
    for mv in moves {
        let fen = game.to_fen();
        let zobrist = game.zobrist;
        let plies = game.plies;
        game.make_move(&mv);
        game.undo_move();
        assert_eq!(game.to_fen(), fen);
        assert_eq!(game.zobrist, zobrist);
        assert_eq!(game.plies, plies);
        assert_eq!(game.history.len(), 0);
    }
}

#[test]
fn castling_and_en_passant_round_trip() {
    let mut game = Game::new();
    play(&mut game, &["e2e4", "a7a6", "e4e5", "d7d5"]);
    assert_eq!(game.en_passant_target, Some(43));
    let before = game.to_fen();
    play(&mut game, &["e5d6"]);
    assert_eq!(game.to_fen(), "rnbqkbnr/1pp1pppp/p2P4/8/8/8/PPPP1PPP/RNBQKBNR b KQkq - 0 3");
    game.undo_move();
    assert_eq!(game.to_fen(), before);
    play(&mut game, &["g1f3", "a6a5", "f1e2", "a5a4", "e1g1"]);
    assert_eq!(game.to_fen(), "rnbqkbnr/1pp1pppp/8/3pP3/p7/5N2/PPPPBPPP/RNBQ1RK1 b kq - 1 5");
}

#[test]
fn hash_matches_a_fresh_computation() {
    let mut game = Game::new();
    play(&mut game, &["e2e4", "e7e5", "g1f3", "b8c6", "f1c4", "g8f6", "e1g1", "f8c5", "d2d4", "e5d4"]);
    let fresh = Game::from_fen(&game.to_fen()).unwrap();
    assert_eq!(game.zobrist, fresh.zobrist);
    game.undo_move();
    game.undo_move();
    let fresh = Game::from_fen(&game.to_fen()).unwrap();
    assert_eq!(game.zobrist, fresh.zobrist);
}

#[test]
fn legal_moves_never_leave_the_king_attacked() {
    // The knight on e4 is pinned against the king on e1.
    let mut game = Game::from_fen("4r2k/8/8/8/4N3/8/8/4K3 w - - 0 1").unwrap();
    let legal = game.legal_moves();
    assert!(legal.iter().all(|m| m.src != 28));
    let pseudo = game.pseudo_legal_moves();
    assert_eq!(pseudo.len(), legal.len() + 8);
    for mv in legal {
        game.make_move(&mv);
        assert!(!game.board.king_in_check(chess::piece::Player::White));
        game.undo_move();
    }
}

#[test]
fn fen_round_trip() {
    for fen in [
        "rnbqkbnr/pppppppp/8/8/8/8/PPPPPPPP/RNBQKBNR w KQkq - 0 1",
        "r3k2r/p1ppqpb1/bn2pnp1/3PN3/1p2P3/2N2Q1p/PPPBBPPP/R3K2R w KQkq - 0 1",
        "rnbqkbnr/1pp1pppp/p7/3pP3/8/8/PPPP1PPP/RNBQKBNR w KQkq d6 0 3",
        "8/2p5/3p4/KP5r/1R3p1k/8/4P1P1/8 b - - 17 42",
    ] {
        let game = Game::from_fen(fen).unwrap();
        assert_eq!(game.to_fen(), fen);
    }
}

#[test]
fn fen_errors() {
    assert_eq!(Game::from_fen("not a fen").unwrap_err(), chess::fen::FenError::Malformed);
    assert_eq!(
        Game::from_fen("rnbqkbnr/pppppppp/44/8/8/8/PPPPPPPP/RNBQKBNR w KQkq - 0 1").unwrap_err(),
        chess::fen::FenError::Malformed
    );
    assert_eq!(
        Game::from_fen("rnbqkbnr/pppppppp/8/8/8/8/PPPPPPPP/RNBQKBNR w KQkq e3 0 1").unwrap_err(),
        chess::fen::FenError::BadEnPassant
    );
}

#[test]
fn evaluation_is_colour_symmetric() {
    let pairs = [
        (
            "rnbqkbnr/pppppppp/8/8/4P3/8/PPPP1PPP/RNBQKBNR b KQkq - 0 1",
            "rnbqkbnr/pppp1ppp/8/4p3/8/8/PPPPPPPP/RNBQKBNR w KQkq - 0 1",
        ),
        (
            "r3k2r/p1ppqpb1/bn2pnp1/3PN3/1p2P3/2N2Q1p/PPPBBPPP/R3K2R w KQkq - 0 1",
            "r3k2r/pppbbppp/2n2q1P/1P2p3/3pn3/BN2PNP1/P1PPQPB1/R3K2R b KQkq - 0 1",
        ),
    ];
    for (a, b) in pairs {
        let ga = Game::from_fen(a).unwrap();
        let gb = Game::from_fen(b).unwrap();
        assert_eq!(eval_board(&ga.board, ga.player), eval_board(&gb.board, gb.player));
    }
    let start = Game::new();
    assert_eq!(chess::material::material_diff(&start), 0);
}

#[test]
fn table_insert_then_get() {
    let mut tt: TranspositionTable<SearchEntry> = TranspositionTable::new();
    assert!(tt.get(&5).is_none());
    tt.resize(1);
    assert_eq!(tt.occupancy(), 0);
    tt.insert(&12345, entry(3, 1, 42));
    assert_eq!(tt.get(&12345).unwrap().score, 42);
    tt.insert(&12345, entry(3, 1, 7));
    assert_eq!(tt.get(&12345).unwrap().score, 7);
    tt.insert(&12345, entry(1, 1, 9));
    assert_eq!(tt.get(&12345).unwrap().score, 7);
    tt.insert(&12345, entry(1, 2, 9));
    assert_eq!(tt.get(&12345).unwrap().score, 9);
    assert!(tt.get(&12346).is_none());
}
