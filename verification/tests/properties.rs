use othello::board::{Board, BoardError};
use othello::computer::ComputerPlayer;
use othello::disc::Disc;
use othello::game::{Game, GameOutcome};
use othello::player::Player;

struct StubbornPlayer;
impl Player for StubbornPlayer {
    fn select_move(&self, _board: &Board, _disc: Disc) -> usize {
        0
    }
}

fn snapshot(board: &Board) -> Vec<Option<Disc>> {
    (0..64).map(|i| board.get_field(i).unwrap()).collect()
}

#[test]
fn index_row_col_round_trip_all_cells() {
    let board = Board::new();
    for i in 0..64 {
        let (r, c) = board.row_col(i).unwrap();
        assert_eq!(board.index(r, c), Ok(i));
    }
    for r in 0..8 {
        for c in 0..8 {
            let i = board.index(r, c).unwrap();
            assert_eq!(board.row_col(i), Ok((r, c)));
        }
    }
}

#[test]
fn opposite_is_involutive() {
    assert_eq!(Disc::Black.opposite().opposite(), Disc::Black);
    assert_eq!(Disc::White.opposite().opposite(), Disc::White);
    assert_eq!(Disc::Black.opposite(), Disc::White);
    assert_eq!(Disc::White.opposite(), Disc::Black);
}

#[test]
fn failed_moves_leave_all_cells_unchanged() {
    let mut board = Board::new();
    let before = snapshot(&board);

    assert_eq!(
        board.apply_move(64, Disc::Black),
        Err(BoardError::OutOfBounds)
    );
    assert_eq!(snapshot(&board), before);

    assert_eq!(
        board.apply_move(27, Disc::Black),
        Err(BoardError::SquareOccupied)
    );
    assert_eq!(snapshot(&board), before);

    assert_eq!(
        board.apply_move(0, Disc::White),
        Err(BoardError::InvalidMove)
    );
    assert_eq!(snapshot(&board), before);
}

#[test]
fn opening_capture_flips_sandwiched_disc() {
    let mut board = Board::new();
    // 19 is row 2, col 3; the White disc on 27 sits between it and Black's 35
    assert_eq!(board.apply_move(19, Disc::Black), Ok(()));
    assert_eq!(board.get_field(27), Ok(Some(Disc::Black)));
    assert_eq!(board.count_discs(Disc::Black), 4);
    assert_eq!(board.count_discs(Disc::White), 1);
}

#[test]
fn occupied_cell_with_captures_reports_square_occupied() {
    let mut board = Board::new();
    board.set_field(19, Disc::Black).unwrap();
    let before = snapshot(&board);
    // 35 already holds a disc, yet would capture 27 if it were empty
    assert_eq!(
        board.apply_move(35, Disc::Black),
        Err(BoardError::SquareOccupied)
    );
    assert_eq!(snapshot(&board), before);
}

#[test]
fn initial_moves_for_black_in_increasing_order() {
    let board = Board::new();
    assert_eq!(board.valid_moves(Disc::Black), vec![19, 26, 37, 44]);
    assert_eq!(board.valid_moves(Disc::White), vec![20, 29, 34, 43]);
}

#[test]
fn forced_pass_flips_turn_without_board_change() {
    let moves = [19, 18, 17, 9, 37, 16, 0, 2];
    let mut game = Game::new(StubbornPlayer, StubbornPlayer);
    for &mv in &moves {
        assert_eq!(game.apply_current(mv), Ok(()));
        game.advance_turn();
    }
    // Black, to move, is stuck, while White still has a legal move
    assert_eq!(game.current_disc(), Disc::Black);
    assert!(game.forced_pass());
    assert!(!game.is_over());
    let before = snapshot(game.board());
    game.advance_turn();
    assert_eq!(game.current_disc(), Disc::White);
    assert_eq!(snapshot(game.board()), before);
    assert!(!game.forced_pass());
    assert!(!game.available_moves().is_empty());
}

#[test]
fn computer_players_finish_the_game() {
    let mut game = Game::new(ComputerPlayer, ComputerPlayer);
    let outcome = game.run();
    assert!(outcome.is_some());
    assert!(game.is_over());
    assert!(game.available_moves().is_empty());
}

#[test]
fn run_gives_up_on_stubborn_illegal_chooser() {
    // cell 0 is never a legal opening move, and the chooser never relents
    let mut game = Game::new(StubbornPlayer, StubbornPlayer);
    let before = snapshot(game.board());
    assert_eq!(game.run(), None);
    assert!(!game.is_over());
    assert_eq!(snapshot(game.board()), before);
}

#[test]
fn white_wins_the_rotated_winning_line() {
    // the nine-move winning line of `test_winner`, rotated a quarter turn
    // with the colours swapped, so White plays the winning role
    let moves = [34, 44, 37, 42, 51, 26, 33, 43, 19];
    let mut game = Game::new(StubbornPlayer, StubbornPlayer);
    game.advance_turn();
    for &mv in &moves {
        assert_eq!(game.apply_current(mv), Ok(()));
        game.advance_turn();
    }
    assert_eq!(game.outcome(), Some(GameOutcome::Winner(Disc::White)));
}
