use crate::bits::bit;
use crate::movelist::MOVE_CAPACITY;
use crate::piecemove::PieceMove;
use crate::specialmove::SpecialMove;
use vstd::prelude::*;

verus! {

/// File of a square: 0 is the a-file, 7 the h-file.
pub open spec fn file(s: int) -> int {
    s % 8
}

/// Rank of a square: 0 is the first rank, 7 the eighth.
pub open spec fn rank(s: int) -> int {
    s / 8
}

pub open spec fn dist(a: int, b: int) -> int {
    if a >= b {
        a - b
    } else {
        b - a
    }
}

/// The squares of a bitboard, as 64 flags.
pub open spec fn bits_of(b: u64) -> Seq<bool> {
    Seq::new(64, |i: int| bit(b, i))
}

/// A knight on `s` reaches `t`.
pub open spec fn knight_step(s: int, t: int) -> bool {
    let df = dist(file(s), file(t));
    let dr = dist(rank(s), rank(t));
    (df == 1 && dr == 2) || (df == 2 && dr == 1)
}

/// A king on `s` reaches `t` in one step.
pub open spec fn king_step(s: int, t: int) -> bool {
    let df = dist(file(s), file(t));
    let dr = dist(rank(s), rank(t));
    df <= 1 && dr <= 1 && !(df == 0 && dr == 0)
}

/// Walking from file `f`, rank `r` by `(df, dr)` for at most `n` steps,
/// stopping on the first occupied square, the walk reaches `t`.
pub open spec fn slide_hits(
    f: int,
    r: int,
    df: int,
    dr: int,
    occ: Seq<bool>,
    t: int,
    n: nat,
) -> bool
    decreases n,
{
    if n == 0 {
        false
    } else {
        let nf = f + df;
        let nr = r + dr;
        if !(0 <= nf < 8 && 0 <= nr < 8) {
            false
        } else if t == nr * 8 + nf {
            true
        } else if occ[nr * 8 + nf] {
            false
        } else {
            slide_hits(nf, nr, df, dr, occ, t, (n - 1) as nat)
        }
    }
}

/// A slider on `s` moving in direction `(df, dr)` attacks `t`.
pub open spec fn ray_attack(s: int, df: int, dr: int, occ: Seq<bool>, t: int) -> bool {
    slide_hits(file(s), rank(s), df, dr, occ, t, 7)
}

pub open spec fn rook_attack(s: int, occ: Seq<bool>, t: int) -> bool {
    ray_attack(s, 0, 1, occ, t) || ray_attack(s, 1, 0, occ, t) || ray_attack(s, 0, -1, occ, t)
        || ray_attack(s, -1, 0, occ, t)
}

pub open spec fn bishop_attack(s: int, occ: Seq<bool>, t: int) -> bool {
    ray_attack(s, 1, 1, occ, t) || ray_attack(s, 1, -1, occ, t) || ray_attack(s, -1, -1, occ, t)
        || ray_attack(s, -1, 1, occ, t)
}

pub open spec fn knight_targets(s: int) -> Seq<bool> {
    Seq::new(64, |t: int| knight_step(s, t))
}

pub open spec fn king_targets(s: int) -> Seq<bool> {
    Seq::new(64, |t: int| king_step(s, t))
}

pub open spec fn bishop_targets(s: int, occ: Seq<bool>) -> Seq<bool> {
    Seq::new(64, |t: int| bishop_attack(s, occ, t))
}

pub open spec fn rook_targets(s: int, occ: Seq<bool>) -> Seq<bool> {
    Seq::new(64, |t: int| rook_attack(s, occ, t))
}

pub open spec fn queen_targets(s: int, occ: Seq<bool>) -> Seq<bool> {
    Seq::new(64, |t: int| rook_attack(s, occ, t) || bishop_attack(s, occ, t))
}

pub open spec fn mk(start: int, end: int, special: SpecialMove) -> PieceMove {
    PieceMove { start: start as u8, end: end as u8, special }
}

/// Appends `m` while the list has room, as a fixed-capacity move list does.
pub open spec fn push_capped(l: Seq<PieceMove>, m: PieceMove) -> Seq<PieceMove> {
    if l.len() < MOVE_CAPACITY {
        l.push(m)
    } else {
        l
    }
}

/// Plain moves from `start` to each flagged square below `n`, in ascending order.
pub open spec fn listed_moves(start: int, targets: Seq<bool>, n: int) -> Seq<PieceMove>
    decreases n,
{
    if n <= 0 {
        Seq::empty()
    } else {
        let prev = listed_moves(start, targets, n - 1);
        if targets[n - 1] {
            push_capped(prev, mk(start, n - 1, SpecialMove::Normal))
        } else {
            prev
        }
    }
}

/// One pawn destination: four promotion records, or one plain move.
pub open spec fn pawn_expand(start: int, end: int, promo: bool) -> Seq<PieceMove> {
    if promo {
        seq![
            mk(start, end, SpecialMove::KnightPromotion),
            mk(start, end, SpecialMove::BishopPromotion),
            mk(start, end, SpecialMove::RookPromotion),
            mk(start, end, SpecialMove::QueenPromotion),
        ]
    } else {
        seq![mk(start, end, SpecialMove::Normal)]
    }
}

pub open spec fn pawn_step(color: u8) -> int {
    if color == 0 {
        8
    } else {
        -8
    }
}

pub open spec fn pawn_home(color: u8, s: int) -> bool {
    if color == 0 {
        8 <= s < 16
    } else {
        48 <= s < 56
    }
}

/// Pseudo-legal pawn moves: pushes, then the capture towards the h-file,
/// then the one towards the a-file.
pub open spec fn pawn_moves(color: u8, s: int, occ: Seq<bool>) -> Seq<PieceMove> {
    let to = s + pawn_step(color);
    let two = s + 2 * pawn_step(color);
    let promo = to >= 56 || to < 8;
    let pushes = if 0 <= to < 64 && !occ[to] {
        if pawn_home(color, s) && !occ[two] {
            pawn_expand(s, to, promo) + pawn_expand(s, two, promo)
        } else {
            pawn_expand(s, to, promo)
        }
    } else {
        Seq::empty()
    };
    let east = if 0 <= to + 1 < 64 && occ[to + 1] && (s + 1) % 8 != 0 {
        pawn_expand(s, to + 1, promo)
    } else {
        Seq::empty()
    };
    let west = if 0 <= to - 1 < 64 && occ[to - 1] && s % 8 != 0 {
        pawn_expand(s, to - 1, promo)
    } else {
        Seq::empty()
    };
    pushes + east + west
}

/// King steps in ascending order, then the castling candidates.
pub open spec fn king_moves(color: u8, s: int, occ: Seq<bool>, castle: Seq<bool>) -> Seq<PieceMove> {
    let base = listed_moves(s, king_targets(s), 64);
    let with_short = if castle[2 * color] && s + 2 < 64 && !occ[s + 1] && !occ[s + 2] {
        push_capped(base, mk(s, s + 2, SpecialMove::CastleKingside))
    } else {
        base
    };
    if castle[2 * color + 1] && s >= 2 && !occ[s - 1] && !occ[s - 2] {
        push_capped(with_short, mk(s, s - 2, SpecialMove::CastleQueenside))
    } else {
        with_short
    }
}

/// The pseudo-legal moves of a piece of kind `piece` and colour `color` on `s`.
pub open spec fn gen_moves(color: u8, piece: u8, s: int, occ: Seq<bool>, castle: Seq<bool>) -> Seq<
    PieceMove,
> {
    if piece == 0 {
        pawn_moves(color, s, occ)
    } else if piece == 1 {
        listed_moves(s, knight_targets(s), 64)
    } else if piece == 2 {
        listed_moves(s, bishop_targets(s, occ), 64)
    } else if piece == 3 {
        listed_moves(s, rook_targets(s, occ), 64)
    } else if piece == 4 {
        listed_moves(s, queen_targets(s, occ), 64)
    } else if piece == 5 {
        king_moves(color, s, occ, castle)
    } else {
        Seq::empty()
    }
}

pub open spec fn is_promotion(special: SpecialMove) -> bool {
    special == SpecialMove::KnightPromotion || special == SpecialMove::BishopPromotion
        || special == SpecialMove::RookPromotion || special == SpecialMove::QueenPromotion
}

/// What every generated move of a piece of kind `piece` on `s` looks like:
/// it starts on `s` and ends on the board, is never tagged en passant, and
/// carries a castling tag only for a king two files away, a promotion tag
/// only for a pawn.
pub open spec fn move_shape(piece: u8, s: int, m: PieceMove) -> bool {
    &&& m.start as int == s
    &&& m.end < 64
    &&& m.special != SpecialMove::EnPassant
    &&& m.special == SpecialMove::CastleKingside ==> piece == 5 && m.end == s + 2
    &&& m.special == SpecialMove::CastleQueenside ==> piece == 5 && m.end == s - 2
    &&& is_promotion(m.special) ==> piece == 0
}

proof fn lemma_listed_shape(piece: u8, s: int, targets: Seq<bool>, n: int)
    requires
        0 <= s < 64,
        n <= 64,
    ensures
        forall|i: int|
            0 <= i < listed_moves(s, targets, n).len() ==> #[trigger] listed_moves(
                s,
                targets,
                n,
            )[i].special == SpecialMove::Normal && move_shape(piece, s, listed_moves(s, targets, n)[i]),
    decreases n,
{
    if n > 0 {
        lemma_listed_shape(piece, s, targets, n - 1);
    }
}

proof fn lemma_expand_shape(s: int, e: int, promo: bool)
    requires
        0 <= s < 64,
        0 <= e < 64,
    ensures
        forall|i: int|
            0 <= i < pawn_expand(s, e, promo).len() ==> move_shape(
                0,
                s,
                #[trigger] pawn_expand(s, e, promo)[i],
            ),
{
}

proof fn lemma_pawn_shape(color: u8, s: int, occ: Seq<bool>)
    requires
        0 <= s < 64,
        color < 2,
    ensures
        forall|i: int|
            0 <= i < pawn_moves(color, s, occ).len() ==> move_shape(
                0,
                s,
                #[trigger] pawn_moves(color, s, occ)[i],
            ),
{
    let to = s + pawn_step(color);
    let two = s + 2 * pawn_step(color);
    let promo = to >= 56 || to < 8;
    if 0 <= to < 64 {
        lemma_expand_shape(s, to, promo);
    }
    if pawn_home(color, s) {
        lemma_expand_shape(s, two, promo);
    }
    if 0 <= to + 1 < 64 {
        lemma_expand_shape(s, to + 1, promo);
    }
    if 0 <= to - 1 < 64 {
        lemma_expand_shape(s, to - 1, promo);
    }
}

proof fn lemma_king_shape(color: u8, s: int, occ: Seq<bool>, castle: Seq<bool>)
    requires
        0 <= s < 64,
        color < 2,
    ensures
        forall|i: int|
            0 <= i < king_moves(color, s, occ, castle).len() ==> move_shape(
                5,
                s,
                #[trigger] king_moves(color, s, occ, castle)[i],
            ),
{
    lemma_listed_shape(5, s, king_targets(s), 64);
}

pub proof fn lemma_gen_shape(color: u8, piece: u8, s: int, occ: Seq<bool>, castle: Seq<bool>)
    requires
        0 <= s < 64,
        color < 2,
    ensures
        forall|i: int|
            0 <= i < gen_moves(color, piece, s, occ, castle).len() ==> move_shape(
                piece,
                s,
                #[trigger] gen_moves(color, piece, s, occ, castle)[i],
            ),
{
    if piece == 0 {
        lemma_pawn_shape(color, s, occ);
    } else if piece == 1 {
        lemma_listed_shape(piece, s, knight_targets(s), 64);
    } else if piece == 2 {
        lemma_listed_shape(piece, s, bishop_targets(s, occ), 64);
    } else if piece == 3 {
        lemma_listed_shape(piece, s, rook_targets(s, occ), 64);
    } else if piece == 4 {
        lemma_listed_shape(piece, s, queen_targets(s, occ), 64);
    } else if piece == 5 {
        lemma_king_shape(color, s, occ, castle);
    }
}

/// The promotion tag of the `j`-th record of a promotion: knight, bishop,
/// rook, then queen.
pub open spec fn promotion_tag(j: int) -> SpecialMove {
    if j == 0 {
        SpecialMove::KnightPromotion
    } else if j == 1 {
        SpecialMove::BishopPromotion
    } else if j == 2 {
        SpecialMove::RookPromotion
    } else {
        SpecialMove::QueenPromotion
    }
}

proof fn lemma_expand_ends(s: int, e: int, promo: bool)
    ensures
        forall|i: int|
            0 <= i < pawn_expand(s, e, promo).len() ==> #[trigger] pawn_expand(s, e, promo)[i].end
                == e as u8,
        pawn_expand(s, e, promo).len() == if promo {
            4int
        } else {
            1int
        },
{
}

/// Pawn captures do not wrap around the board's edge: a pawn on the a-file
/// never reaches the h-file, and a pawn on the h-file never reaches the a-file.
pub proof fn lemma_pawn_no_wraparound(color: u8, s: int, occ: Seq<bool>)
    requires
        0 <= s < 64,
        color < 2,
    ensures
        forall|i: int|
            0 <= i < pawn_moves(color, s, occ).len() ==> {
                let t = (#[trigger] pawn_moves(color, s, occ)[i]).end as int;
                &&& file(s) == 0 ==> file(t) != 7
                &&& file(s) == 7 ==> file(t) != 0
            },
{
    let to = s + pawn_step(color);
    let two = s + 2 * pawn_step(color);
    let promo = to >= 56 || to < 8;
    lemma_expand_ends(s, to, promo);
    lemma_expand_ends(s, two, promo);
    lemma_expand_ends(s, to + 1, promo);
    lemma_expand_ends(s, to - 1, promo);
    lemma_pawn_shape(color, s, occ);
}

/// A pawn whose square ahead is occupied has no move two squares ahead.
pub proof fn lemma_double_push_blocked(color: u8, s: int, occ: Seq<bool>)
    requires
        0 <= s < 64,
        color < 2,
        0 <= s + pawn_step(color) < 64,
        occ[s + pawn_step(color)],
    ensures
        forall|i: int|
            0 <= i < pawn_moves(color, s, occ).len() ==> (#[trigger] pawn_moves(color, s, occ)[i]).end
                != s + 2 * pawn_step(color),
{
    let to = s + pawn_step(color);
    let promo = to >= 56 || to < 8;
    lemma_expand_ends(s, to + 1, promo);
    lemma_expand_ends(s, to - 1, promo);
    lemma_pawn_shape(color, s, occ);
}

/// A pawn that reaches its last rank generates, for each square it can
/// reach, four consecutive records to that square: knight, bishop, rook and
/// queen promotions; no square appears in two groups.
pub proof fn lemma_promotion_records(color: u8, s: int, occ: Seq<bool>)
    requires
        0 <= s < 64,
        color < 2,
        s + pawn_step(color) >= 56 || s + pawn_step(color) < 8,
    ensures
        pawn_moves(color, s, occ).len() % 4 == 0,
        forall|k: int, j: int|
            0 <= k < pawn_moves(color, s, occ).len() / 4 && 0 <= j < 4 ==> #[trigger] pawn_moves(
                color,
                s,
                occ,
            )[4 * k + j] == mk(s, pawn_moves(color, s, occ)[4 * k].end as int, promotion_tag(j)),
        forall|k1: int, k2: int|
            0 <= k1 < k2 < pawn_moves(color, s, occ).len() / 4 ==> #[trigger] pawn_moves(
                color,
                s,
                occ,
            )[4 * k1].end != #[trigger] pawn_moves(color, s, occ)[4 * k2].end,
{
    let l = pawn_moves(color, s, occ);
    let to = s + pawn_step(color);
    let push = 0 <= to < 64 && !occ[to];
    let east = 0 <= to + 1 < 64 && occ[to + 1] && (s + 1) % 8 != 0;
    let west = 0 <= to - 1 < 64 && occ[to - 1] && s % 8 != 0;
    assert(!pawn_home(color, s));
    let d: Seq<int> = (if push {
        seq![to]
    } else {
        Seq::empty()
    }) + (if east {
        seq![to + 1]
    } else {
        Seq::empty()
    }) + (if west {
        seq![to - 1]
    } else {
        Seq::empty()
    });
    assert(l.len() == 4 * d.len());
    assert forall|k: int, j: int| 0 <= k < d.len() && 0 <= j < 4 implies l[4 * k + j] == mk(
        s,
        d[k],
        promotion_tag(j),
    ) by {
        if push && east && west {
            assert(l =~= pawn_expand(s, to, true) + pawn_expand(s, to + 1, true) + pawn_expand(
                s,
                to - 1,
                true,
            ));
        } else if push && east {
            assert(l =~= pawn_expand(s, to, true) + pawn_expand(s, to + 1, true));
        } else if push && west {
            assert(l =~= pawn_expand(s, to, true) + pawn_expand(s, to - 1, true));
        } else if east && west {
            assert(l =~= pawn_expand(s, to + 1, true) + pawn_expand(s, to - 1, true));
        }
    }
    assert forall|k: int| 0 <= k < d.len() implies #[trigger] l[4 * k].end == d[k] as u8 by {
        assert(l[4 * k + 0] == mk(s, d[k], promotion_tag(0)));
    }
    assert forall|k: int, j: int|
        0 <= k < l.len() / 4 && 0 <= j < 4 implies #[trigger] l[4 * k + j] == mk(
        s,
        l[4 * k].end as int,
        promotion_tag(j),
    ) by {
        assert(l[4 * k].end == d[k] as u8);
    }
    assert forall|k1: int, k2: int| 0 <= k1 < k2 < l.len() / 4 implies #[trigger] l[4 * k1].end
        != #[trigger] l[4 * k2].end by {
        assert(l[4 * k1].end == d[k1] as u8);
        assert(l[4 * k2].end == d[k2] as u8);
    }
}

} // verus!
