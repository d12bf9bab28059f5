use crate::piecemove::PieceMove;
use tinyvec::ArrayVec;
use vstd::prelude::*;

verus! {

#[verifier::external_type_specification]
#[verifier::external_body]
#[verifier::reject_recursive_types(A)]
pub struct ExArrayVec<A>(ArrayVec<A>);

/// The moves of one piece on one square, inline and bounded.
pub type MoveList = ArrayVec<[PieceMove; 28]>;

/// How many moves a `MoveList` can hold.
pub const MOVE_CAPACITY: usize = 28;

/// What a `MoveList` holds, in order.
pub uninterp spec fn move_items(v: MoveList) -> Seq<PieceMove>;

/// Relies on `ArrayVec::new`: a new vec is empty.
#[verifier::external_body]
pub(crate) fn move_list_new() -> (r: MoveList)
    ensures
        move_items(r) == Seq::<PieceMove>::empty(),
{
    ArrayVec::new()
}

/// Relies on `ArrayVec::len`: the number of items held, which `try_push`
/// never lets pass the capacity.
#[verifier::external_body]
pub(crate) fn move_list_len(v: &MoveList) -> (r: usize)
    ensures
        r == move_items(*v).len(),
        r <= MOVE_CAPACITY,
{
    v.len()
}

/// Relies on indexing an `ArrayVec`: the item at a position below its length.
#[verifier::external_body]
pub(crate) fn move_list_get(v: &MoveList, i: usize) -> (r: PieceMove)
    requires
        i < move_items(*v).len(),
    ensures
        r == move_items(*v)[i as int],
{
    v[i]
}

/// Relies on `ArrayVec::try_push`: the item is appended while fewer than
/// the backing array's 28 slots are in use, and handed back otherwise.
#[verifier::external_body]
pub(crate) fn move_list_try_push(v: &mut MoveList, m: PieceMove) -> (r: Option<PieceMove>)
    ensures
        move_items(*old(v)).len() < MOVE_CAPACITY ==> move_items(*final(v)) == move_items(
            *old(v),
        ).push(m) && r.is_none(),
        move_items(*old(v)).len() >= MOVE_CAPACITY ==> move_items(*final(v)) == move_items(
            *old(v),
        ) && r == Some(m),
{
    v.try_push(m)
}

} // verus!
