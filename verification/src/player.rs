use crate::board::Board;
use crate::disc::Disc;
use vstd::prelude::*;

verus! {

/// A move chooser for one side: interactive, scripted or automated. The
/// engine asks it for a cell index and validates the answer itself, so an
/// implementation is free to return any index, legal or not.
pub trait Player {
    /// Chooses a cell index for `disc` on `board`.
    fn select_move(&self, board: &Board, disc: Disc) -> usize;
}

} // verus!
