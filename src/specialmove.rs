use vstd::prelude::*;

verus! {

/// The tag that a move record carries beside its two squares.
#[derive(Copy, Clone, Debug, PartialEq, Eq, Structural)]
pub enum SpecialMove {
    KnightPromotion,
    BishopPromotion,
    RookPromotion,
    QueenPromotion,
    EnPassant,
    CastleKingside,
    CastleQueenside,
    Normal,
}

} // verus!
