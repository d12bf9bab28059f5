use crate::specialmove::SpecialMove;
use vstd::prelude::*;

verus! {

/// One half-move: the square it leaves, the square it reaches and its tag.
#[derive(Copy, Clone, Debug, PartialEq, Eq, Structural)]
pub struct PieceMove {
    pub start: u8,
    pub end: u8,
    pub special: SpecialMove,
}

impl PieceMove {
    pub open spec fn empty_spec() -> PieceMove {
        PieceMove { start: 0, end: 0, special: SpecialMove::Normal }
    }

    /// The move record that fills unused slots: a1 to a1, no tag.
    pub fn empty() -> (r: PieceMove)
        ensures
            r == PieceMove::empty_spec(),
    {
        PieceMove { start: 0, end: 0, special: SpecialMove::Normal }
    }
}

impl Default for PieceMove {
    fn default() -> (r: PieceMove)
        ensures
            r == (PieceMove { start: 0, end: 0, special: SpecialMove::Normal }),
    {
        PieceMove::empty()
    }
}

} // verus!
