use crate::board::{
    disc_count, empty_count, is_legal_move, legal_moves, lemma_legal_up_to_contains,
    lemma_move_empties, move_result, start_board, Board, BoardError,
};
use crate::disc::Disc;
use crate::player::Player;
use vstd::prelude::*;

verus! {

/// Failure cases of a game-level operation.
#[derive(Clone, Copy, Debug, PartialEq, Eq)]
pub enum GameError {
    /// The chosen index is not a legal move for the side to move.
    InvalidMove,
    /// A board-level failure, with the board's own diagnostic.
    BoardError(BoardError),
}

/// The result of a finished game: a winner, or a tie on equal disc counts.
#[derive(Clone, Copy, Debug, PartialEq, Eq, Structural)]
pub enum GameOutcome {
    Tie,
    Winner(Disc),
}

/// The game has ended: neither side has any legal move.
pub open spec fn game_over(b: Seq<Option<Disc>>) -> bool {
    legal_moves(b, Disc::Black).len() == 0 && legal_moves(b, Disc::White).len() == 0
}

/// The outcome of a finished board: the side with strictly more discs wins;
/// equal counts tie.
pub open spec fn spec_outcome(b: Seq<Option<Disc>>) -> GameOutcome {
    if disc_count(b, Disc::Black) > disc_count(b, Disc::White) {
        GameOutcome::Winner(Disc::Black)
    } else if disc_count(b, Disc::Black) < disc_count(b, Disc::White) {
        GameOutcome::Winner(Disc::White)
    } else {
        GameOutcome::Tie
    }
}

/// How many consecutive illegal choices from one chooser the run loop
/// tolerates before giving the game up as unfinished.
pub const MOVE_RETRY_LIMIT: usize = 64;

/// A match in progress: the board, one chooser per side, and the side to
/// move.
pub struct Game<B: Player, W: Player> {
    board: Board,
    black: B,
    white: W,
    current: Disc,
}

impl<B: Player, W: Player> Game<B, W> {
    /// The board's current cells.
    pub closed spec fn spec_board(&self) -> Seq<Option<Disc>> {
        self.board@
    }

    /// The side to move.
    pub closed spec fn spec_current(&self) -> Disc {
        self.current
    }

    /// A new game on the standard opening board, `black` choosing for Black
    /// and `white` for White; Black moves first.
    pub fn new(black: B, white: W) -> (g: Game<B, W>)
        ensures
            g.spec_board() == start_board(),
            g.spec_current() == Disc::Black,
    {
        Game { board: Board::new(), black, white, current: Disc::Black }
    }

    /// The side to move.
    pub fn current_disc(&self) -> (d: Disc)
        ensures
            d == self.spec_current(),
    {
        self.current
    }

    /// All legal moves for the side to move, as cell indices in increasing
    /// order.
    pub fn available_moves(&self) -> (r: Vec<usize>)
        ensures
            r@ == legal_moves(self.spec_board(), self.spec_current()),
    {
        self.board.valid_moves(self.current)
    }

    /// Whether the side to move has no legal move and must pass.
    pub fn forced_pass(&self) -> (r: bool)
        ensures
            r == (legal_moves(self.spec_board(), self.spec_current()).len() == 0),
    {
        self.available_moves().is_empty()
    }

    /// Whether `x` occurs in `v`.
    #[verifier::loop_isolation(false)]
    fn vec_contains(v: &Vec<usize>, x: usize) -> (r: bool)
        ensures
            r == v@.contains(x),
    {
        let mut i: usize = 0;
        while i < v.len()
            invariant
                i <= v@.len(),
                forall|j: int| 0 <= j < i ==> v@[j] != x,
            decreases v@.len() - i,
        {
            if v[i] == x {
                return true;
            }
            i += 1;
        }
        false
    }

    /// Validates `choice` against the side to move's legal moves and applies
    /// it: on success the disc is placed and its captures flipped; an illegal
    /// choice changes nothing. The side to move stays the same either way.
    pub fn apply_current(&mut self, choice: usize) -> (r: Result<(), GameError>)
        ensures
            is_legal_move(old(self).spec_board(), choice as int, old(self).spec_current()) ==> r
                == Ok::<(), GameError>(()) && final(self).spec_board() == move_result(
                old(self).spec_board(),
                choice as int,
                old(self).spec_current(),
            ),
            !is_legal_move(old(self).spec_board(), choice as int, old(self).spec_current()) ==> r
                == Err::<(), GameError>(GameError::InvalidMove) && final(self).spec_board() == old(
                self,
            ).spec_board(),
            final(self).spec_current() == old(self).spec_current(),
    {
        let legal = self.board.valid_moves(self.current);
        proof {
            lemma_legal_up_to_contains(self.spec_board(), self.current, 64, choice);
        }
        if !Self::vec_contains(&legal, choice) {
            return Err(GameError::InvalidMove);
        }
        match self.board.apply_move(choice, self.current) {
            Ok(_) => Ok(()),
            Err(e) => Err(GameError::BoardError(e)),
        }
    }

    /// Flips the side to move; the board is untouched.
    pub fn advance_turn(&mut self)
        ensures
            final(self).spec_current() == old(self).spec_current().spec_opposite(),
            final(self).spec_board() == old(self).spec_board(),
    {
        self.current = self.current.opposite();
    }

    /// Whether the game has ended: neither Black nor White has a legal move,
    /// not merely the side to move.
    pub fn is_over(&self) -> (r: bool)
        ensures
            r == game_over(self.spec_board()),
    {
        let black_stuck = self.board.valid_moves(Disc::Black).is_empty();
        let white_stuck = self.board.valid_moves(Disc::White).is_empty();
        black_stuck && white_stuck
    }

    /// The outcome of the game: defined (`Some`) exactly when the game is
    /// over; `None` while either side can still move.
    pub fn outcome(&self) -> (r: Option<GameOutcome>)
        ensures
            game_over(self.spec_board()) ==> r == Some(spec_outcome(self.spec_board())),
            !game_over(self.spec_board()) ==> r is None,
    {
        if !self.is_over() {
            return None;
        }
        let b = self.board.count_discs(Disc::Black);
        let w = self.board.count_discs(Disc::White);
        if b > w {
            Some(GameOutcome::Winner(Disc::Black))
        } else if b < w {
            Some(GameOutcome::Winner(Disc::White))
        } else {
            Some(GameOutcome::Tie)
        }
    }

    /// Plays the game to completion: each round either applies a legal
    /// choice from the side to move's chooser and flips the turn, or passes
    /// the turn when that side has no legal move; it stops when neither side
    /// can move and returns the outcome. A chooser that keeps answering with
    /// illegal indices would stall the match forever, so after
    /// `MOVE_RETRY_LIMIT` consecutive illegal choices the run gives up and
    /// returns `None`, the game unfinished.
    #[verifier::loop_isolation(false)]
    pub fn run(&mut self) -> (r: Option<GameOutcome>)
        ensures
            game_over(final(self).spec_board()) ==> r == Some(
                spec_outcome(final(self).spec_board()),
            ),
            !game_over(final(self).spec_board()) ==> r is None,
    {
        let mut attempts: usize = 0;
        loop
            invariant
                attempts < MOVE_RETRY_LIMIT,
            decreases
                empty_count(self.spec_board()),
                (if legal_moves(self.spec_board(), self.spec_current()).len() == 0 {
                    1int
                } else {
                    0int
                }),
                MOVE_RETRY_LIMIT - attempts,
        {
            if self.is_over() {
                return self.outcome();
            }
            if self.forced_pass() {
                self.advance_turn();
            } else {
                // ask the chooser that owns the side to move
                let choice = match self.current_disc() {
                    Disc::Black => self.black.select_move(&self.board, Disc::Black),
                    Disc::White => self.white.select_move(&self.board, Disc::White),
                };
                if self.board.is_valid_move(choice, self.current) {
                    proof {
                        lemma_move_empties(self.spec_board(), choice as int, self.spec_current());
                    }
                    let _ = self.apply_current(choice);
                    self.advance_turn();
                    attempts = 0;
                } else {
                    attempts += 1;
                    if attempts >= MOVE_RETRY_LIMIT {
                        return None;
                    }
                }
            }
        }
    }

    /// A read-only view of the board.
    pub fn board(&self) -> (b: &Board)
        ensures
            b@ == self.spec_board(),
    {
        &self.board
    }
}

} // verus!
