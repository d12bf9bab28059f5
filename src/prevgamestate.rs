use vstd::prelude::*;

verus! {

/// What `make_move` hands back so that `unmake_move` can reverse it.
#[derive(Clone, Copy, Debug)]
pub struct PrevGameState {
    pub capture_piece: u8,
    pub is_capture: bool,
    pub castle_available: [bool; 4],
}

} // verus!
