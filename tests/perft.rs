use chess::game::Game;
use chess::moves::Move;
use chess::strategy::perft;

fn sq(name: &str) -> u8 {
    let b = name.as_bytes();
    (b[0] - b'a') + 8 * (b[1] - b'1')
}

fn mv(text: &str) -> Move {
    Move::new(sq(&text[0..2]), sq(&text[2..4]))
}

#[test]
fn perft_startpos_depth_1() {
    let mut game = Game::new();
    assert_eq!(perft(1, &mut game), 20);
}

#[test]
fn perft_startpos_depth_3() {
    let mut game = Game::new();
    assert_eq!(perft(3, &mut game), 8902);
}

#[test]
fn legal_moves_after_three_plies() {
    let mut game = Game::new();
    for text in ["e2e4", "e7e5", "g1f3"] {
        assert!(game.play_move(&mv(text)).is_ok());
    }
    assert_eq!(game.legal_moves().len(), 29);
    assert_eq!(
        game.to_fen(),
        "rnbqkbnr/pppp1ppp/8/4p3/4P3/5N2/PPPP1PPP/RNBQKB1R b KQkq - 1 2"
    );
}

#[test]
fn illegal_move_is_refused() {
    let mut game = Game::new();
    let before = game.to_fen();
    assert!(game.play_move(&mv("e2e5")).is_err());
    assert_eq!(game.to_fen(), before);
}
