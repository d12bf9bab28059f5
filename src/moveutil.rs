use crate::bits::{bit, lemma_bit_set, lemma_bit_zero};
use crate::game::{
    after_make, in_check_spec, lemma_make_unmake_board, make_ok, own_piece, BoardView, Game,
};
use crate::geometry::{bits_of, listed_moves, mk};
use crate::movelist::{
    move_items, move_list_get, move_list_len, move_list_new, move_list_try_push, MoveList,
    MOVE_CAPACITY,
};
use crate::piecemove::PieceMove;
use crate::specialmove::SpecialMove;
use vstd::prelude::*;

verus! {

proof fn lemma_listed_len(start: int, targets: Seq<bool>, n: int)
    ensures
        listed_moves(start, targets, n).len() <= MOVE_CAPACITY,
    decreases n,
{
    if n > 0 {
        lemma_listed_len(start, targets, n - 1);
    }
}

/// The plain moves from `start` to each square set in `board`, in ascending
/// order of square (at most the list's capacity of them).
pub fn bitboard_to_piecemoves(board: u64, start: u8) -> (r: MoveList)
    ensures
        move_items(r) == listed_moves(start as int, bits_of(board), 64),
{
    let mut square_moves = move_list_new();
    let mut i: u8 = 0;
    while i < 64
        invariant
            i <= 64,
            move_items(square_moves) == listed_moves(start as int, bits_of(board), i as int),
        decreases 64 - i,
    {
        proof {
            lemma_listed_len(start as int, bits_of(board), i as int);
        }
        if (board >> i) & 1 == 1 {
            let _ = move_list_try_push(
                &mut square_moves,
                PieceMove { start, end: i, special: SpecialMove::Normal },
            );
        }
        i += 1;
    }
    square_moves
}

/// Every move of the list ends on the board.
pub open spec fn ends_on_board(moves: Seq<PieceMove>) -> bool {
    forall|i: int| 0 <= i < moves.len() ==> #[trigger] moves[i].end < 64
}

/// Some move of the list ends on `t`.
pub open spec fn reaches(moves: Seq<PieceMove>, t: int) -> bool {
    exists|i: int| 0 <= i < moves.len() && #[trigger] moves[i].end == t
}

/// The bitboard of the squares that the moves of the list end on.
pub fn piecemoves_to_bitboard(piece_moves: MoveList) -> (r: u64)
    requires
        ends_on_board(move_items(piece_moves)),
    ensures
        forall|t: int| 0 <= t < 64 ==> bit(r, t) == reaches(move_items(piece_moves), t),
{
    let ghost items = move_items(piece_moves);
    let n = move_list_len(&piece_moves);
    let mut bitboard: u64 = 0;
    let mut move_idx: usize = 0;
    proof {
        assert forall|t: int| 0 <= t < 64 implies !bit(bitboard, t) by {
            lemma_bit_zero(t as u64);
        }
    }
    while move_idx < n
        invariant
            n == items.len(),
            items == move_items(piece_moves),
            ends_on_board(items),
            move_idx <= n,
            forall|t: int|
                0 <= t < 64 ==> bit(bitboard, t) == reaches(items.subrange(0, move_idx as int), t),
        decreases n - move_idx,
    {
        let m = move_list_get(&piece_moves, move_idx);
        assert(m.end < 64);
        let ghost before = bitboard;
        bitboard = bitboard | (1u64 << m.end);
        proof {
            let pre = items.subrange(0, move_idx as int);
            let post = items.subrange(0, move_idx + 1);
            assert forall|t: int| 0 <= t < 64 implies bit(bitboard, t) == reaches(post, t) by {
                lemma_bit_set(before, m.end as u64, t as u64);
                if reaches(pre, t) {
                    let i = choose|i: int| 0 <= i < pre.len() && #[trigger] pre[i].end == t;
                    assert(post[i] == pre[i]);
                }
                if reaches(post, t) {
                    let i = choose|i: int| 0 <= i < post.len() && #[trigger] post[i].end == t;
                    if i < move_idx {
                        assert(pre[i] == post[i]);
                    }
                }
                if t == m.end {
                    assert(post[move_idx as int] == m);
                }
            }
        }
        move_idx += 1;
    }
    proof {
        assert(items.subrange(0, n as int) =~= items);
    }
    bitboard
}

/// Whether `color` may play `m` with its piece of kind `piece`: the end
/// square holds none of its own pieces; a castle has an empty path, its rook
/// in place, and does not pass through check; and the move does not leave
/// `color`'s king in check.
pub open spec fn legal_spec(b: BoardView, color: u8, piece: u8, m: PieceMove) -> bool {
    let s = m.start as int;
    let e = m.end as int;
    if b.exists[e] && b.color[e] == color {
        false
    } else if m.special == SpecialMove::CastleKingside {
        if b.exists[s + 1] || b.exists[s + 2] {
            false
        } else if !(e + 1 < 64 && own_piece(b, color, e + 1, 3)) {
            false
        } else if in_check_spec(
            after_make(b, color, piece, mk(s, s + 1, SpecialMove::Normal)),
            color,
        ) {
            false
        } else {
            !in_check_spec(after_make(b, color, piece, m), color)
        }
    } else if m.special == SpecialMove::CastleQueenside {
        if s < 4 {
            false
        } else if b.exists[s - 1] || b.exists[s - 2] || b.exists[s - 3] {
            false
        } else if !own_piece(b, color, e - 2, 3) {
            false
        } else if in_check_spec(
            after_make(b, color, piece, mk(s, s - 1, SpecialMove::Normal)),
            color,
        ) {
            false
        } else {
            !in_check_spec(after_make(b, color, piece, m), color)
        }
    } else {
        !in_check_spec(after_make(b, color, piece, m), color)
    }
}

/// Whether `color` may play `piece_move` with its piece of kind `piece`.
/// The position is left as it was.
pub fn legal_move(game: &mut Game, color: u8, piece: u8, piece_move: &PieceMove) -> (r: bool)
    requires
        old(game).wf(),
        color < 2,
        piece < 6,
        own_piece(old(game).board(), color, piece_move.start as int, piece),
        piece_move.end < 64,
        piece_move.special == SpecialMove::CastleKingside ==> piece == 5 && piece_move.end
            == piece_move.start + 2,
        piece_move.special == SpecialMove::CastleQueenside ==> piece == 5 && piece_move.end
            == piece_move.start - 2,
        piece_move.special == SpecialMove::EnPassant ==> piece == 0 && make_ok(
            old(game).board(),
            color,
            piece,
            *piece_move,
        ),
    ensures
        final(game).wf(),
        final(game).board() == old(game).board(),
        r == legal_spec(old(game).board(), color, piece, *piece_move),
{
    let ghost b = game.board();
    let start = piece_move.start;
    let end = piece_move.end;
    if game.square_exists[end as usize] && game.square_to_color[end as usize] == color {
        return false;
    }
    if piece_move.special == SpecialMove::CastleKingside {
        if game.square_exists[start as usize + 1] || game.square_exists[start as usize + 2] {
            return false;
        }
        if end + 1 >= 64 || !(game.square_exists[end as usize + 1] && game.square_to_color[end
            as usize + 1] == color && game.square_to_piece[end as usize + 1] == 3) {
            return false;
        }
        let mid_castle_move = PieceMove {
            start,
            end: start + 1,
            special: SpecialMove::Normal,
        };
        let prev_game_state = game.make_move(color, piece, &mid_castle_move);
        let through_check = game.in_check(color);
        game.unmake_move(color, piece, &mid_castle_move, &prev_game_state);
        proof {
            lemma_make_unmake_board(b, color, piece, mid_castle_move, prev_game_state);
        }
        if through_check {
            return false;
        }
    } else if piece_move.special == SpecialMove::CastleQueenside {
        if start < 4 {
            return false;
        }
        if game.square_exists[start as usize - 1] || game.square_exists[start as usize - 2]
            || game.square_exists[start as usize - 3] {
            return false;
        }
        if !(game.square_exists[end as usize - 2] && game.square_to_color[end as usize - 2]
            == color && game.square_to_piece[end as usize - 2] == 3) {
            return false;
        }
        let mid_castle_move = PieceMove {
            start,
            end: start - 1,
            special: SpecialMove::Normal,
        };
        let prev_game_state = game.make_move(color, piece, &mid_castle_move);
        let through_check = game.in_check(color);
        game.unmake_move(color, piece, &mid_castle_move, &prev_game_state);
        proof {
            lemma_make_unmake_board(b, color, piece, mid_castle_move, prev_game_state);
        }
        if through_check {
            return false;
        }
    }
    let prev_move_state = game.make_move(color, piece, piece_move);
    let in_check = game.in_check(color);
    game.unmake_move(color, piece, piece_move, &prev_move_state);
    proof {
        lemma_make_unmake_board(b, color, piece, *piece_move, prev_move_state);
    }
    !in_check
}

} // verus!
