use othello::board::Board;
use othello::disc::Disc;
use othello::game::{Game, GameError, GameOutcome};
use othello::player::Player;

struct DummyPlayer;
impl Player for DummyPlayer {
    fn select_move(&self, _board: &Board, _disc: Disc) -> usize {
        0
    }
}

struct ValidPlayer;
impl Player for ValidPlayer {
    fn select_move(&self, board: &Board, disc: Disc) -> usize {
        board.valid_moves(disc)[0]
    }
}

#[test]
fn test_current_disc_initial_and_after_turn() {
    let mut game = Game::new(DummyPlayer, DummyPlayer);
    assert_eq!(game.current_disc(), Disc::Black);
    game.advance_turn();
    assert_eq!(game.current_disc(), Disc::White);
}

#[test]
fn test_forced_pass_detection() {
    let moves = [19, 18, 17, 9, 37, 16, 0, 2];
    let mut game = Game::new(DummyPlayer, DummyPlayer);
    for &mv in &moves {
        assert_eq!(game.apply_current(mv), Ok(()));
        game.advance_turn();
    }
    assert!(game.forced_pass());
}

#[test]
fn test_apply_current_legality() {
    let mut game = Game::new(DummyPlayer, DummyPlayer);
    assert_eq!(game.apply_current(19), Ok(()));
    assert_eq!(game.board().get_field(19).unwrap(), Some(Disc::Black));
    assert_eq!(game.apply_current(0), Err(GameError::InvalidMove));
}

#[test]
fn test_premature_outcome() {
    let game = Game::new(DummyPlayer, DummyPlayer);
    assert_eq!(game.outcome(), None);
}

#[test]
fn test_winner() {
    let moves = [44, 29, 20, 45, 38, 43, 52, 37, 34];
    let mut game = Game::new(DummyPlayer, DummyPlayer);
    for &mv in &moves {
        assert_eq!(game.apply_current(mv), Ok(()));
        game.advance_turn();
    }
    assert_eq!(game.outcome(), Some(GameOutcome::Winner(Disc::Black)));
}

#[test]
fn test_tie() {
    let moves = [
        37, 29, 18, 45, 54, 53, 21, 55, 61, 9, 47, 52, 63, 20, 51, 22, 13, 5, 0, 34,
    ];
    let mut game = Game::new(DummyPlayer, DummyPlayer);
    for &mv in &moves {
        assert_eq!(game.apply_current(mv), Ok(()));
        game.advance_turn();
    }
    assert_eq!(game.outcome(), Some(GameOutcome::Tie));
}

#[test]
fn test_run_eventually_ends() {
    let mut game = Game::new(ValidPlayer, ValidPlayer);
    let winner = game.run();
    assert!(game.is_over());
    assert!(winner.is_some());
    assert!(game.board().valid_moves(Disc::Black).is_empty());
    assert!(game.board().valid_moves(Disc::White).is_empty());
}
