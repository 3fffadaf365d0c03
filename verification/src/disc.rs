use vstd::prelude::*;

verus! {

/// A playing piece (equivalently, a side): Black or White.
#[derive(Clone, Copy, PartialEq, Eq, Debug, Structural)]
pub enum Disc {
    Black,
    White,
}

impl Disc {
    /// The side that plays against `self`.
    pub open spec fn spec_opposite(self) -> Disc {
        match self {
            Disc::Black => Disc::White,
            Disc::White => Disc::Black,
        }
    }

    /// The opposing side: Black for White and White for Black.
    pub fn opposite(&self) -> (r: Disc)
        ensures
            r == self.spec_opposite(),
    {
        match self {
            Disc::Black => Disc::White,
            Disc::White => Disc::Black,
        }
    }
}

/// Taking the opposite side twice gives back the original side.
pub proof fn lemma_opposite_involutive(d: Disc)
    ensures
        d.spec_opposite().spec_opposite() == d,
{
}

} // verus!
