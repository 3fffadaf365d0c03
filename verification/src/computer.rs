use crate::board::Board;
use crate::disc::Disc;
use crate::player::Player;
use vstd::prelude::*;

verus! {

/// A trivial automated chooser: it always picks the first legal move.
pub struct ComputerPlayer;

impl Player for ComputerPlayer {
    /// The lowest-index legal move for `disc`, or 0 when no move is legal
    /// (the engine never consults a chooser in that case).
    fn select_move(&self, board: &Board, disc: Disc) -> (r: usize)
        ensures
            crate::board::legal_moves(board@, disc).len() > 0 ==> r == crate::board::legal_moves(
                board@,
                disc,
            )[0],
            crate::board::legal_moves(board@, disc).len() == 0 ==> r == 0,
    {
        let moves = board.valid_moves(disc);
        if moves.len() > 0 {
            moves[0]
        } else {
            0
        }
    }
}

} // verus!
