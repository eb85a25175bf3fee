use chess::game::Game;

#[test]
fn format_startpos() {
    assert_eq!(
        Game::new().to_fen(),
        "rnbqkbnr/pppppppp/8/8/8/8/PPPPPPPP/RNBQKBNR w KQkq - 0 1"
    );
}
