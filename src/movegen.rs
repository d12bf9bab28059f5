use crate::bits::{bit, lemma_bit_or, lemma_bit_set, lemma_bit_zero};
use crate::geometry::{
    bishop_attack, bishop_targets, bits_of, gen_moves, king_moves, king_step, king_targets,
    knight_step, knight_targets, listed_moves, pawn_expand, pawn_moves, queen_targets,
    ray_attack, rook_attack, rook_targets, slide_hits,
};
use crate::movelist::{move_items, move_list_new, move_list_try_push, MoveList};
use crate::moveutil::bitboard_to_piecemoves;
use crate::piecemove::PieceMove;
use crate::specialmove::SpecialMove;
use vstd::prelude::*;

verus! {

/// Precomputed knight and king destinations for every square.
#[derive(Clone, Copy)]
pub struct MoveGen {
    knight_moves: [u64; 64],
    king_moves: [u64; 64],
}

/// Two lists built from flags that agree below 64 are the same.
proof fn lemma_listed_ext(start: int, a: Seq<bool>, b: Seq<bool>, n: int)
    requires
        n <= 64,
        forall|t: int| 0 <= t < 64 ==> a[t] == b[t],
    ensures
        listed_moves(start, a, n) == listed_moves(start, b, n),
    decreases n,
{
    if n > 0 {
        lemma_listed_ext(start, a, b, n - 1);
    }
}

/// Whether a knight (`knight`) or a king (`!knight`) on `s` reaches `t`.
fn steps_to(s: u8, t: u8, knight: bool) -> (r: bool)
    requires
        s < 64,
        t < 64,
    ensures
        r == if knight {
            knight_step(s as int, t as int)
        } else {
            king_step(s as int, t as int)
        },
{
    let sf = (s % 8) as i8;
    let sr = (s / 8) as i8;
    let tf = (t % 8) as i8;
    let tr = (t / 8) as i8;
    let df = if sf >= tf {
        sf - tf
    } else {
        tf - sf
    };
    let dr = if sr >= tr {
        sr - tr
    } else {
        tr - sr
    };
    if knight {
        (df == 1 && dr == 2) || (df == 2 && dr == 1)
    } else {
        df <= 1 && dr <= 1 && !(df == 0 && dr == 0)
    }
}

/// The bitboard of the squares that a knight or king on `s` reaches.
fn step_board(s: u8, knight: bool) -> (r: u64)
    requires
        s < 64,
    ensures
        forall|t: int|
            0 <= t < 64 ==> bit(r, t) == if knight {
                knight_step(s as int, t)
            } else {
                king_step(s as int, t)
            },
{
    let mut board: u64 = 0;
    let mut t: u8 = 0;
    proof {
        assert forall|u: int| 0 <= u < 64 implies !bit(board, u) by {
            lemma_bit_zero(u as u64);
        }
    }
    while t < 64
        invariant
            s < 64,
            t <= 64,
            forall|u: int|
                0 <= u < 64 ==> bit(board, u) == (u < t && if knight {
                    knight_step(s as int, u)
                } else {
                    king_step(s as int, u)
                }),
        decreases 64 - t,
    {
        if steps_to(s, t, knight) {
            let ghost before = board;
            board = board | (1u64 << t);
            proof {
                assert forall|u: int| 0 <= u < 64 implies bit(board, u) == (bit(before, u) || u
                    == t) by {
                    lemma_bit_set(before, t as u64, u as u64);
                }
            }
        }
        t += 1;
    }
    board
}

/// The squares that a slider on `position` attacks in direction `(df, dr)`,
/// up to and including the first occupied one.
fn slide_ray(position: u8, df: i8, dr: i8, blockers: u64) -> (r: u64)
    requires
        position < 64,
        -1 <= df <= 1,
        -1 <= dr <= 1,
    ensures
        forall|t: int|
            0 <= t < 64 ==> bit(r, t) == ray_attack(
                position as int,
                df as int,
                dr as int,
                bits_of(blockers),
                t,
            ),
{
    let ghost occ = bits_of(blockers);
    let mut f: i8 = (position % 8) as i8;
    let mut rk: i8 = (position / 8) as i8;
    let mut n: u8 = 7;
    let mut board: u64 = 0;
    proof {
        assert forall|u: int| 0 <= u < 64 implies !bit(board, u) by {
            lemma_bit_zero(u as u64);
        }
    }
    while n > 0
        invariant
            0 <= f < 8,
            0 <= rk < 8,
            n <= 7,
            -1 <= df <= 1,
            -1 <= dr <= 1,
            occ == bits_of(blockers),
            forall|t: int|
                0 <= t < 64 ==> #[trigger] ray_attack(position as int, df as int, dr as int, occ, t) == (bit(
                    board,
                    t,
                ) || slide_hits(f as int, rk as int, df as int, dr as int, occ, t, n as nat)),
        decreases n,
    {
        let nf = f + df;
        let nr = rk + dr;
        if nf < 0 || nf >= 8 || nr < 0 || nr >= 8 {
            proof {
                assert forall|t: int| 0 <= t < 64 implies !slide_hits(
                    f as int,
                    rk as int,
                    df as int,
                    dr as int,
                    occ,
                    t,
                    n as nat,
                ) by {}
            }
            return board;
        }
        let sq: u8 = (nr * 8 + nf) as u8;
        let ghost before = board;
        board = board | (1u64 << sq);
        proof {
            assert forall|u: int| 0 <= u < 64 implies bit(board, u) == (bit(before, u) || u
                == sq) by {
                lemma_bit_set(before, sq as u64, u as u64);
            }
        }
        proof {
            assert forall|t: int| 0 <= t < 64 implies slide_hits(
                f as int,
                rk as int,
                df as int,
                dr as int,
                occ,
                t,
                n as nat,
            ) == (t == sq || (!occ[sq as int] && slide_hits(
                nf as int,
                nr as int,
                df as int,
                dr as int,
                occ,
                t,
                (n - 1) as nat,
            ))) by {}
        }
        if (blockers >> sq) & 1 == 1 {
            proof {
                assert(occ[sq as int]);
                assert forall|t: int| 0 <= t < 64 implies bit(board, t) == ray_attack(
                    position as int,
                    df as int,
                    dr as int,
                    occ,
                    t,
                ) by {
                    assert(bit(board, t) == (bit(before, t) || t == sq));
                    assert(ray_attack(position as int, df as int, dr as int, occ, t) == (bit(
                        before,
                        t,
                    ) || slide_hits(f as int, rk as int, df as int, dr as int, occ, t, n as nat)));
                    assert(slide_hits(f as int, rk as int, df as int, dr as int, occ, t, n as nat)
                        == (t == sq));
                }
            }
            return board;
        }
        proof {
            assert forall|t: int| 0 <= t < 64 implies ray_attack(
                position as int,
                df as int,
                dr as int,
                occ,
                t,
            ) == (bit(board, t) || slide_hits(
                nf as int,
                nr as int,
                df as int,
                dr as int,
                occ,
                t,
                (n - 1) as nat,
            )) by {
                assert(bit(board, t) == (bit(before, t) || t == sq));
                assert(slide_hits(f as int, rk as int, df as int, dr as int, occ, t, n as nat) == (t
                    == sq || slide_hits(
                    nf as int,
                    nr as int,
                    df as int,
                    dr as int,
                    occ,
                    t,
                    (n - 1) as nat,
                )));
            }
        }
        f = nf;
        rk = nr;
        n = n - 1;
    }
    board
}

impl MoveGen {
    /// The tables hold, for every square, exactly the knight and king destinations.
    pub closed spec fn wf(&self) -> bool {
        &&& forall|s: int, t: int|
            0 <= s < 64 && 0 <= t < 64 ==> #[trigger] bit(self.knight_moves[s], t) == knight_step(
                s,
                t,
            )
        &&& forall|s: int, t: int|
            0 <= s < 64 && 0 <= t < 64 ==> #[trigger] bit(self.king_moves[s], t) == king_step(s, t)
    }

    pub fn new() -> (r: MoveGen)
        ensures
            r.wf(),
    {
        let mut knight_moves = [0u64; 64];
        let mut king_moves = [0u64; 64];
        let mut s: u8 = 0;
        while s < 64
            invariant
                s <= 64,
                forall|q: int, t: int|
                    0 <= q < s && 0 <= t < 64 ==> #[trigger] bit(knight_moves[q], t)
                        == knight_step(q, t),
                forall|q: int, t: int|
                    0 <= q < s && 0 <= t < 64 ==> #[trigger] bit(king_moves[q], t) == king_step(
                        q,
                        t,
                    ),
            decreases 64 - s,
        {
            let kn = step_board(s, true);
            let kg = step_board(s, false);
            knight_moves[s as usize] = kn;
            king_moves[s as usize] = kg;
            assert(knight_moves[s as int] == kn);
            assert(king_moves[s as int] == kg);
            s += 1;
        }
        let r = MoveGen { knight_moves, king_moves };
        r
    }
}


/// Whether square `s` is set in `b`.
fn occupied(b: u64, s: u8) -> (r: bool)
    requires
        s < 64,
    ensures
        r == bit(b, s as int),
        r == bits_of(b)[s as int],
{
    (b >> s) & 1 == 1
}

/// Appends the records of one pawn destination: four promotions, or one plain move.
fn add_pawn_move(square_moves: &mut MoveList, start: u8, end: u8, promo: bool)
    requires
        move_items(*old(square_moves)).len() + 4 <= 28,
    ensures
        move_items(*final(square_moves)) == move_items(*old(square_moves)) + pawn_expand(
            start as int,
            end as int,
            promo,
        ),
{
    let ghost before = move_items(*square_moves);
    if promo {
        let _ = move_list_try_push(
            square_moves,
            PieceMove { start, end, special: SpecialMove::KnightPromotion },
        );
        let _ = move_list_try_push(
            square_moves,
            PieceMove { start, end, special: SpecialMove::BishopPromotion },
        );
        let _ = move_list_try_push(
            square_moves,
            PieceMove { start, end, special: SpecialMove::RookPromotion },
        );
        let _ = move_list_try_push(
            square_moves,
            PieceMove { start, end, special: SpecialMove::QueenPromotion },
        );
    } else {
        let _ = move_list_try_push(
            square_moves,
            PieceMove { start, end, special: SpecialMove::Normal },
        );
    }
    assert(move_items(*square_moves) =~= before + pawn_expand(start as int, end as int, promo));
}

impl MoveGen {
    /// The pseudo-legal moves of the piece of kind `piece` and colour
    /// `color` on `position`, with `blockers` the occupied squares.
    pub fn gen_move(
        &self,
        color: u8,
        piece: u8,
        position: u8,
        blockers: u64,
        castle_available: [bool; 4],
    ) -> (r: MoveList)
        requires
            self.wf(),
            color < 2,
            position < 64,
        ensures
            move_items(r) == gen_moves(
                color,
                piece,
                position as int,
                bits_of(blockers),
                castle_available@,
            ),
    {
        match piece {
            0 => self.gen_pawn(color, position, blockers),
            1 => {
                let r = bitboard_to_piecemoves(self.knight_moves[position as usize], position);
                proof {
                    assert forall|t: int| 0 <= t < 64 implies bits_of(
                        self.knight_moves[position as int],
                    )[t] == knight_targets(position as int)[t] by {
                        assert(bit(self.knight_moves[position as int], t) == knight_step(position as int, t));
                    }
                    lemma_listed_ext(
                        position as int,
                        bits_of(self.knight_moves[position as int]),
                        knight_targets(position as int),
                        64,
                    );
                }
                r
            },
            2 => self.gen_bishop(position, blockers),
            3 => self.gen_rook(position, blockers),
            4 => self.gen_queen(position, blockers),
            5 => self.gen_king(color, position, blockers, castle_available),
            _ => move_list_new(),
        }
    }

    fn gen_pawn(&self, color: u8, position: u8, blockers: u64) -> (r: MoveList)
        requires
            color < 2,
            position < 64,
        ensures
            move_items(r) == pawn_moves(color, position as int, bits_of(blockers)),
    {
        let ghost occ = bits_of(blockers);
        let s = position as i16;
        let step: i16 = if color == 0 {
            8
        } else {
            -8
        };
        let to = s + step;
        let promo = to >= 56 || to < 8;
        let mut square_moves = move_list_new();
        let ghost pushes: Seq<PieceMove> = Seq::empty();
        if 0 <= to && to < 64 && !occupied(blockers, to as u8) {
            add_pawn_move(&mut square_moves, position, to as u8, promo);
            let home = if color == 0 {
                8 <= s && s < 16
            } else {
                48 <= s && s < 56
            };
            let two = s + 2 * step;
            if home && !occupied(blockers, two as u8) {
                add_pawn_move(&mut square_moves, position, two as u8, promo);
            }
            proof {
                pushes = move_items(square_moves);
            }
        }
        let ghost after_pushes = move_items(square_moves);
        assert(after_pushes =~= pushes);
        if 0 <= to + 1 && to + 1 < 64 && occupied(blockers, (to + 1) as u8) && (s + 1) % 8 != 0 {
            add_pawn_move(&mut square_moves, position, (to + 1) as u8, promo);
        }
        let ghost after_east = move_items(square_moves);
        if 0 <= to - 1 && to - 1 < 64 && occupied(blockers, (to - 1) as u8) && s % 8 != 0 {
            add_pawn_move(&mut square_moves, position, (to - 1) as u8, promo);
        }
        assert(move_items(square_moves) =~= pawn_moves(color, position as int, occ));
        square_moves
    }

    fn gen_bishop(&self, position: u8, blockers: u64) -> (r: MoveList)
        requires
            position < 64,
        ensures
            move_items(r) == listed_moves(
                position as int,
                bishop_targets(position as int, bits_of(blockers)),
                64,
            ),
    {
        let moves = MoveGen::gen_bishop_classical(position, blockers);
        let r = bitboard_to_piecemoves(moves, position);
        proof {
            lemma_listed_ext(
                position as int,
                bits_of(moves),
                bishop_targets(position as int, bits_of(blockers)),
                64,
            );
        }
        r
    }

    fn gen_rook(&self, position: u8, blockers: u64) -> (r: MoveList)
        requires
            position < 64,
        ensures
            move_items(r) == listed_moves(
                position as int,
                rook_targets(position as int, bits_of(blockers)),
                64,
            ),
    {
        let moves = MoveGen::gen_rook_classical(position, blockers);
        let r = bitboard_to_piecemoves(moves, position);
        proof {
            lemma_listed_ext(
                position as int,
                bits_of(moves),
                rook_targets(position as int, bits_of(blockers)),
                64,
            );
        }
        r
    }

    /// The squares a bishop on `position` attacks: along each diagonal, up to
    /// and including the first occupied square.
    fn gen_bishop_classical(position: u8, blockers: u64) -> (r: u64)
        requires
            position < 64,
        ensures
            forall|t: int|
                0 <= t < 64 ==> bit(r, t) == bishop_attack(position as int, bits_of(blockers), t),
    {
        let a = slide_ray(position, 1, 1, blockers);
        let b = slide_ray(position, 1, -1, blockers);
        let c = slide_ray(position, -1, -1, blockers);
        let d = slide_ray(position, -1, 1, blockers);
        let board = a | b | c | d;
        proof {
            assert forall|t: int| 0 <= t < 64 implies bit(board, t) == bishop_attack(
                position as int,
                bits_of(blockers),
                t,
            ) by {
                lemma_bit_or(a, b, t as u64);
                lemma_bit_or(a | b, c, t as u64);
                lemma_bit_or(a | b | c, d, t as u64);
            }
        }
        board
    }

    /// The squares a rook on `position` attacks: along each file and rank
    /// direction, up to and including the first occupied square.
    fn gen_rook_classical(position: u8, blockers: u64) -> (r: u64)
        requires
            position < 64,
        ensures
            forall|t: int|
                0 <= t < 64 ==> bit(r, t) == rook_attack(position as int, bits_of(blockers), t),
    {
        let a = slide_ray(position, 0, 1, blockers);
        let b = slide_ray(position, 1, 0, blockers);
        let c = slide_ray(position, 0, -1, blockers);
        let d = slide_ray(position, -1, 0, blockers);
        let board = a | b | c | d;
        proof {
            assert forall|t: int| 0 <= t < 64 implies bit(board, t) == rook_attack(
                position as int,
                bits_of(blockers),
                t,
            ) by {
                lemma_bit_or(a, b, t as u64);
                lemma_bit_or(a | b, c, t as u64);
                lemma_bit_or(a | b | c, d, t as u64);
            }
        }
        board
    }

    fn gen_queen(&self, position: u8, blockers: u64) -> (r: MoveList)
        requires
            position < 64,
        ensures
            move_items(r) == listed_moves(
                position as int,
                queen_targets(position as int, bits_of(blockers)),
                64,
            ),
    {
        let rook = MoveGen::gen_rook_classical(position, blockers);
        let bishop = MoveGen::gen_bishop_classical(position, blockers);
        let board = rook | bishop;
        let r = bitboard_to_piecemoves(board, position);
        proof {
            assert forall|t: int| 0 <= t < 64 implies bits_of(board)[t] == queen_targets(
                position as int,
                bits_of(blockers),
            )[t] by {
                lemma_bit_or(rook, bishop, t as u64);
            }
            lemma_listed_ext(
                position as int,
                bits_of(board),
                queen_targets(position as int, bits_of(blockers)),
                64,
            );
        }
        r
    }

    fn gen_king(&self, color: u8, position: u8, blockers: u64, castle_available: [bool; 4]) -> (r:
        MoveList)
        requires
            self.wf(),
            color < 2,
            position < 64,
        ensures
            move_items(r) == king_moves(
                color,
                position as int,
                bits_of(blockers),
                castle_available@,
            ),
    {
        let mut square_moves = bitboard_to_piecemoves(self.king_moves[position as usize], position);
        proof {
            assert forall|t: int| 0 <= t < 64 implies bits_of(self.king_moves[position as int])[t]
                == king_targets(position as int)[t] by {
                assert(bit(self.king_moves[position as int], t) == king_step(position as int, t));
            }
            lemma_listed_ext(
                position as int,
                bits_of(self.king_moves[position as int]),
                king_targets(position as int),
                64,
            );
        }
        if castle_available[(color * 2) as usize] && position + 2 < 64 && !occupied(
            blockers,
            position + 1,
        ) && !occupied(blockers, position + 2) {
            let _ = move_list_try_push(
                &mut square_moves,
                PieceMove {
                    start: position,
                    end: position + 2,
                    special: SpecialMove::CastleKingside,
                },
            );
        }
        if castle_available[(color * 2 + 1) as usize] && position >= 2 && !occupied(
            blockers,
            position - 1,
        ) && !occupied(blockers, position - 2) {
            let _ = move_list_try_push(
                &mut square_moves,
                PieceMove {
                    start: position,
                    end: position - 2,
                    special: SpecialMove::CastleQueenside,
                },
            );
        }
        square_moves
    }
}

} // verus!
