use crate::game::{
    after_make, after_unmake, canonical, lemma_make_unmake_board, lemma_same_board, make_ok,
    token_of, BoardView, Game,
};
use crate::movelist::move_items;
use crate::piecemove::PieceMove;
use crate::prevgamestate::PrevGameState;
use vstd::prelude::*;

verus! {

/// One half-move of a game record: the mover's colour, the kind of the
/// piece it moves, and the move.
pub struct Ply {
    pub color: u8,
    pub piece: u8,
    pub m: PieceMove,
}

/// `boards` is a game played from `boards[0]`: each ply applies to the board
/// before it and gives the board after it, and `toks[k]` is the token that
/// playing ply `k` returned.
pub open spec fn played(boards: Seq<BoardView>, plies: Seq<Ply>, toks: Seq<PrevGameState>) -> bool {
    &&& boards.len() == plies.len() + 1
    &&& toks.len() == plies.len()
    &&& canonical(boards[0])
    &&& forall|k: int| 0 <= k < plies.len() ==> #[trigger] step_played(boards, plies, toks, k)
}

/// Ply `k` applies to `boards[k]`, gives `boards[k + 1]` and returned `toks[k]`.
pub open spec fn step_played(
    boards: Seq<BoardView>,
    plies: Seq<Ply>,
    toks: Seq<PrevGameState>,
    k: int,
) -> bool {
    &&& make_ok(boards[k], plies[k].color, plies[k].piece, plies[k].m)
    &&& boards[k + 1] == after_make(boards[k], plies[k].color, plies[k].piece, plies[k].m)
    &&& token_of(toks[k], boards[k], plies[k].m)
}

/// Takes back the first `k` plies from `b`, last ply first.
pub open spec fn taken_back(b: BoardView, plies: Seq<Ply>, toks: Seq<PrevGameState>, k: int) -> BoardView
    decreases k,
{
    if k <= 0 {
        b
    } else {
        taken_back(
            after_unmake(b, plies[k - 1].color, plies[k - 1].piece, plies[k - 1].m, toks[k - 1]),
            plies,
            toks,
            k - 1,
        )
    }
}

/// A move that `make_move` applies keeps the board canonical.
pub proof fn lemma_make_canonical(b: BoardView, color: u8, piece: u8, m: PieceMove)
    requires
        canonical(b),
        make_ok(b, color, piece, m),
    ensures
        canonical(after_make(b, color, piece, m)),
{
}

proof fn lemma_played_canonical(boards: Seq<BoardView>, plies: Seq<Ply>, toks: Seq<PrevGameState>, k: int)
    requires
        played(boards, plies, toks),
        0 <= k <= plies.len(),
    ensures
        canonical(boards[k]),
    decreases k,
{
    if k > 0 {
        lemma_played_canonical(boards, plies, toks, k - 1);
        assert(step_played(boards, plies, toks, k - 1));
        lemma_make_canonical(boards[k - 1], plies[k - 1].color, plies[k - 1].piece, plies[k - 1].m);
    }
}

/// Playing a sequence of moves and then taking them back in reverse order,
/// each with the token its move returned, gives back the board it started from.
pub proof fn lemma_play_take_back(boards: Seq<BoardView>, plies: Seq<Ply>, toks: Seq<PrevGameState>)
    requires
        played(boards, plies, toks),
    ensures
        taken_back(boards[plies.len() as int], plies, toks, plies.len() as int) == boards[0],
{
    lemma_take_back_prefix(boards, plies, toks, plies.len() as int);
}

proof fn lemma_take_back_prefix(boards: Seq<BoardView>, plies: Seq<Ply>, toks: Seq<PrevGameState>, k: int)
    requires
        played(boards, plies, toks),
        0 <= k <= plies.len(),
    ensures
        taken_back(boards[k], plies, toks, k) == boards[0],
    decreases k,
{
    if k > 0 {
        let p = plies[k - 1];
        lemma_played_canonical(boards, plies, toks, k - 1);
        assert(step_played(boards, plies, toks, k - 1));
        lemma_make_unmake_board(boards[k - 1], p.color, p.piece, p.m, toks[k - 1]);
        lemma_take_back_prefix(boards, plies, toks, k - 1);
    }
}

/// Each board of `boards` is the one before it after ply `k`, whatever the
/// move; the first board has four castling rights.
pub open spec fn follows(boards: Seq<BoardView>, plies: Seq<Ply>) -> bool {
    &&& boards.len() == plies.len() + 1
    &&& boards[0].castle.len() == 4
    &&& forall|k: int| 0 <= k < plies.len() ==> #[trigger] step_follows(boards, plies, k)
}

/// Ply `k`, by a colour below 2, turns `boards[k]` into `boards[k + 1]`.
pub open spec fn step_follows(boards: Seq<BoardView>, plies: Seq<Ply>, k: int) -> bool {
    &&& plies[k].color < 2
    &&& boards[k + 1] == after_make(boards[k], plies[k].color, plies[k].piece, plies[k].m)
}

/// A move never grants a castling right: every right after it held before.
pub proof fn lemma_move_keeps_rights_lost(b: BoardView, color: u8, piece: u8, m: PieceMove)
    requires
        b.castle.len() == 4,
        color < 2,
    ensures
        after_make(b, color, piece, m).castle.len() == 4,
        forall|i: int|
            0 <= i < 4 && #[trigger] after_make(b, color, piece, m).castle[i] ==> b.castle[i],
{
}

proof fn lemma_follows_rights(boards: Seq<BoardView>, plies: Seq<Ply>, k: int)
    requires
        follows(boards, plies),
        0 <= k <= plies.len(),
    ensures
        boards[k].castle.len() == 4,
    decreases k,
{
    if k > 0 {
        lemma_follows_rights(boards, plies, k - 1);
        assert(step_follows(boards, plies, k - 1));
        let p = plies[k - 1];
        lemma_move_keeps_rights_lost(boards[k - 1], p.color, p.piece, p.m);
    }
}

/// Along any sequence of moves, with no reset between them, a castling
/// right once lost stays lost: if it holds on a later board it held on
/// every earlier one.
pub proof fn lemma_castling_rights_monotone(boards: Seq<BoardView>, plies: Seq<Ply>, j: int, k: int, i: int)
    requires
        follows(boards, plies),
        0 <= j <= k <= plies.len(),
        0 <= i < 4,
        boards[k].castle[i],
    ensures
        boards[j].castle[i],
    decreases k - j,
{
    if j < k {
        let p = plies[k - 1];
        assert(step_follows(boards, plies, k - 1));
        lemma_follows_rights(boards, plies, k - 1);
        lemma_move_keeps_rights_lost(boards[k - 1], p.color, p.piece, p.m);
        assert(boards[k - 1].castle[i]);
        lemma_castling_rights_monotone(boards, plies, j, k - 1, i);
    }
}

/// A game played from a well-formed position and taken back in reverse
/// order leaves a well-formed position equal to the first in its board,
/// castling rights, bitboards and every square's cached moves.
pub proof fn lemma_play_take_back_game(
    g0: Game,
    g_end: Game,
    boards: Seq<BoardView>,
    plies: Seq<Ply>,
    toks: Seq<PrevGameState>,
)
    requires
        played(boards, plies, toks),
        g0.wf(),
        g0.board() == boards[0],
        g_end.wf(),
        g_end.board() == taken_back(boards[plies.len() as int], plies, toks, plies.len() as int),
    ensures
        g_end.board() == g0.board(),
        g_end.piece_positions == g0.piece_positions,
        forall|s: int|
            0 <= s < 64 ==> move_items(#[trigger] g_end.square_moves[s]) == move_items(
                g0.square_moves[s],
            ),
{
    lemma_play_take_back(boards, plies, toks);
    lemma_same_board(g_end, g0);
}

} // verus!
