use crate::game::{after_make, back_rank, board_moves, start_board, BoardView};
use crate::geometry::{
    bishop_targets, file, king_targets, knight_targets, listed_moves, pawn_expand, pawn_step,
    queen_targets, rank, ray_attack, rook_targets, slide_hits,
};
use crate::piecemove::PieceMove;
use crate::see::{first_to, lowest_attacker, see_spec};
use crate::specialmove::SpecialMove;
use vstd::prelude::*;

verus! {

/// Square `t` lies in the half of the board where `color` starts: ranks one
/// to four for white, five to eight for black.
pub open spec fn in_half(color: u8, t: int) -> bool {
    if color == 0 {
        0 <= t < 32
    } else {
        32 <= t < 64
    }
}

proof fn lemma_listed_ends(start: int, targets: Seq<bool>, n: int)
    requires
        n <= 64,
    ensures
        forall|k: int|
            0 <= k < listed_moves(start, targets, n).len() ==> {
                let t = (#[trigger] listed_moves(start, targets, n)[k]).end as int;
                0 <= t < n && targets[t]
            },
    decreases n,
{
    if n > 0 {
        lemma_listed_ends(start, targets, n - 1);
    }
}

proof fn lemma_slide_flat(f: int, r: int, df: int, occ: Seq<bool>, t: int, n: nat)
    requires
        slide_hits(f, r, df, 0, occ, t, n),
    ensures
        t / 8 == r,
    decreases n,
{
    if n > 0 {
        let nf = f + df;
        if t != r * 8 + nf {
            lemma_slide_flat(nf, r, df, occ, t, (n - 1) as nat);
        }
    }
}

/// A slider on a back rank whose next rank is full reaches only the back
/// rank and the next one.
proof fn lemma_back_rank_ray(color: u8, s: int, df: int, dr: int, occ: Seq<bool>, t: int)
    requires
        color < 2,
        0 <= s < 64,
        rank(s) == if color == 0 {
            0int
        } else {
            7int
        },
        -1 <= df <= 1,
        -1 <= dr <= 1,
        forall|u: int| (if color == 0 { 8 <= u < 16 } else { 48 <= u < 56 }) ==> #[trigger] occ[u],
        ray_attack(s, df, dr, occ, t),
    ensures
        if color == 0 {
            0 <= t < 16
        } else {
            48 <= t < 64
        },
{
    let f = file(s);
    let r = rank(s);
    let nf = f + df;
    let nr = r + dr;
    if dr == 0 {
        if t != nr * 8 + nf {
            lemma_slide_flat(nf, nr, df, occ, t, 6);
        }
    }
}

/// Every pseudo-legal move of a piece standing where it starts, while both
/// of its colour's home ranks are full, ends in its colour's half.
proof fn lemma_home_moves(b: BoardView, color: u8, s: int)
    requires
        color < 2,
        0 <= s < 64,
        b.exists.len() == 64,
        forall|u: int|
            (if color == 0 { 0 <= u < 16 } else { 48 <= u < 64 }) ==> #[trigger] b.exists[u],
        b.exists[s],
        b.color[s] == color,
        if color == 0 {
            0 <= s < 16
        } else {
            48 <= s < 64
        },
        b.kind[s] == if 8 <= s < 56 {
            0u8
        } else {
            back_rank(s % 8)
        },
    ensures
        forall|k: int|
            0 <= k < board_moves(b, s).len() ==> in_half(
                color,
                (#[trigger] board_moves(b, s)[k]).end as int,
            ),
{
    let occ = b.exists;
    let piece = b.kind[s];
    let l = board_moves(b, s);
    if piece == 0 {
        let to = s + pawn_step(color);
        let two = s + 2 * pawn_step(color);
        let promo = to >= 56 || to < 8;
        crate::geometry::lemma_gen_shape(color, piece, s, occ, b.castle);
        assert forall|k: int| 0 <= k < l.len() implies in_half(color, (#[trigger] l[k]).end as int) by {
            let e = l[k].end as int;
            assert(e == to || e == two || e == to + 1 || e == to - 1) by {
                let pushes = if 0 <= to < 64 && !occ[to] {
                    if crate::geometry::pawn_home(color, s) && !occ[two] {
                        pawn_expand(s, to, promo) + pawn_expand(s, two, promo)
                    } else {
                        pawn_expand(s, to, promo)
                    }
                } else {
                    Seq::empty()
                };
                let east = if 0 <= to + 1 < 64 && occ[to + 1] && (s + 1) % 8 != 0 {
                    pawn_expand(s, to + 1, promo)
                } else {
                    Seq::empty()
                };
                let west = if 0 <= to - 1 < 64 && occ[to - 1] && s % 8 != 0 {
                    pawn_expand(s, to - 1, promo)
                } else {
                    Seq::empty()
                };
                assert(l == pushes + east + west);
            }
        }
    } else if piece == 1 {
        lemma_listed_ends(s, knight_targets(s), 64);
    } else if piece == 2 || piece == 3 || piece == 4 {
        let targets = if piece == 2 {
            bishop_targets(s, occ)
        } else if piece == 3 {
            rook_targets(s, occ)
        } else {
            queen_targets(s, occ)
        };
        lemma_listed_ends(s, targets, 64);
        assert forall|k: int| 0 <= k < l.len() implies in_half(color, (#[trigger] l[k]).end as int) by {
            let t = l[k].end as int;
            assert(targets[t]);
            if ray_attack(s, 0, 1, occ, t) {
                lemma_back_rank_ray(color, s, 0, 1, occ, t);
            } else if ray_attack(s, 1, 0, occ, t) {
                lemma_back_rank_ray(color, s, 1, 0, occ, t);
            } else if ray_attack(s, 0, -1, occ, t) {
                lemma_back_rank_ray(color, s, 0, -1, occ, t);
            } else if ray_attack(s, -1, 0, occ, t) {
                lemma_back_rank_ray(color, s, -1, 0, occ, t);
            } else if ray_attack(s, 1, 1, occ, t) {
                lemma_back_rank_ray(color, s, 1, 1, occ, t);
            } else if ray_attack(s, 1, -1, occ, t) {
                lemma_back_rank_ray(color, s, 1, -1, occ, t);
            } else if ray_attack(s, -1, -1, occ, t) {
                lemma_back_rank_ray(color, s, -1, -1, occ, t);
            } else {
                lemma_back_rank_ray(color, s, -1, 1, occ, t);
            }
        }
    } else {
        lemma_listed_ends(s, king_targets(s), 64);
    }
}

/// In the initial position a move onto an empty square stays in the
/// mover's half and carries no tag.
proof fn lemma_quiet_opening_move(s: int, k: int)
    requires
        0 <= s < 64,
        start_board().exists[s],
        0 <= k < board_moves(start_board(), s).len(),
        !start_board().exists[board_moves(start_board(), s)[k].end as int],
    ensures
        in_half(start_board().color[s], board_moves(start_board(), s)[k].end as int),
        board_moves(start_board(), s)[k].special == SpecialMove::Normal,
        board_moves(start_board(), s)[k].start as int == s,
{
    let b = start_board();
    let c = b.color[s];
    lemma_home_moves(b, c, s);
    crate::geometry::lemma_gen_shape(c, b.kind[s], s, b.exists, b.castle);
    let m = board_moves(b, s)[k];
    if b.kind[s] == 0 {
        let to = s + pawn_step(c);
        let two = s + 2 * pawn_step(c);
        let occ = b.exists;
        assert(!(to >= 56 || to < 8));
        let pushes = if 0 <= to < 64 && !occ[to] {
            if crate::geometry::pawn_home(c, s) && !occ[two] {
                pawn_expand(s, to, false) + pawn_expand(s, two, false)
            } else {
                pawn_expand(s, to, false)
            }
        } else {
            Seq::empty()
        };
        let east = if 0 <= to + 1 < 64 && occ[to + 1] && (s + 1) % 8 != 0 {
            pawn_expand(s, to + 1, false)
        } else {
            Seq::empty()
        };
        let west = if 0 <= to - 1 < 64 && occ[to - 1] && s % 8 != 0 {
            pawn_expand(s, to - 1, false)
        } else {
            Seq::empty()
        };
        assert(board_moves(b, s) == pushes + east + west);
    }
}

proof fn lemma_first_to_none(moves: Seq<PieceMove>, t: int, n: int)
    requires
        n <= moves.len(),
        forall|k: int| 0 <= k < moves.len() ==> (#[trigger] moves[k]).end != t,
    ensures
        first_to(moves, t, n) == -1,
    decreases n,
{
    if n > 0 {
        lemma_first_to_none(moves, t, n - 1);
    }
}

proof fn lemma_no_recapture(b2: BoardView, c: u8, e: int, n: int)
    requires
        c < 2,
        in_half(c, e),
        n <= 64,
        b2.exists.len() == 64,
        forall|u: int|
            (if c == 0 { 48 <= u < 64 } else { 0 <= u < 16 }) ==> #[trigger] b2.exists[u] && b2.color[u]
                == 1 - c && b2.kind[u] == if 8 <= u < 56 {
                0u8
            } else {
                back_rank(u % 8)
            },
        forall|u: int|
            0 <= u < 64 && b2.exists[u] && b2.color[u] != c ==> (if c == 0 {
                48 <= u < 64
            } else {
                0 <= u < 16
            }),
    ensures
        lowest_attacker(b2, c, e, n) == -1,
    decreases n,
{
    if n > 0 {
        lemma_no_recapture(b2, c, e, n - 1);
        let sq = n - 1;
        if b2.exists[sq] && b2.color[sq] != c {
            let o = (1 - c) as u8;
            lemma_home_moves(b2, o, sq);
            let ms = board_moves(b2, sq);
            assert forall|k: int| 0 <= k < ms.len() implies (#[trigger] ms[k]).end != e by {
                assert(in_half(o, ms[k].end as int));
            }
            lemma_first_to_none(ms, e, ms.len() as int);
        }
    }
}

/// In the initial position, the static exchange evaluation of any move onto
/// an empty square is zero: nothing is taken, and no piece of the opponent
/// can reach the square to start an exchange.
pub proof fn lemma_see_quiet_opening(s: int, k: int)
    requires
        0 <= s < 64,
        start_board().exists[s],
        0 <= k < board_moves(start_board(), s).len(),
        !start_board().exists[board_moves(start_board(), s)[k].end as int],
    ensures
        see_spec(start_board(), board_moves(start_board(), s)[k]) == 0,
{
    let b = start_board();
    let m = board_moves(b, s)[k];
    let c = b.color[s];
    let e = m.end as int;
    lemma_quiet_opening_move(s, k);
    let b2 = after_make(b, c, b.kind[s], m);
    assert forall|u: int|
        (if c == 0 { 48 <= u < 64 } else { 0 <= u < 16 }) implies #[trigger] b2.exists[u]
        && b2.color[u] == 1 - c && b2.kind[u] == if 8 <= u < 56 {
        0u8
    } else {
        back_rank(u % 8)
    } by {
        assert(u != s && u != e);
    }
    assert forall|u: int| 0 <= u < 64 && b2.exists[u] && b2.color[u] != c implies (if c == 0 {
        48 <= u < 64
    } else {
        0 <= u < 16
    }) by {
        assert(u != e);
    }
    lemma_no_recapture(b2, c, e, 64);
}

} // verus!
