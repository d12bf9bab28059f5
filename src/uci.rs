use crate::game::{BoardView, Game};
use crate::geometry::mk;
use crate::piecemove::PieceMove;
use crate::specialmove::SpecialMove;
use vstd::prelude::*;

verus! {

/// The square named by a file letter `a`-`h` and a rank digit `1`-`8`.
pub open spec fn square_named(f: u8, r: u8) -> Option<int> {
    if 97 <= f <= 104 && 49 <= r <= 56 {
        Some((f - 97) + (r - 49) * 8)
    } else {
        None
    }
}

/// The promotion tag named by a letter `n`, `b`, `r` or `q`.
pub open spec fn promotion_named(c: u8) -> SpecialMove {
    if c == 110 {
        SpecialMove::KnightPromotion
    } else if c == 98 {
        SpecialMove::BishopPromotion
    } else if c == 114 {
        SpecialMove::RookPromotion
    } else if c == 113 {
        SpecialMove::QueenPromotion
    } else {
        SpecialMove::Normal
    }
}

/// The tag of a move from `s` to `e` of the piece on `s`: a king moving two
/// files castles; a pawn reaching a last rank takes the promotion letter
/// that follows, if any; a pawn moving diagonally onto an empty square takes
/// en passant.
pub open spec fn inferred_tag(b: BoardView, s: int, e: int, text: Seq<u8>) -> SpecialMove {
    let piece = b.kind[s];
    if piece == 5 {
        if s - e == 2 {
            SpecialMove::CastleQueenside
        } else if e - s == 2 {
            SpecialMove::CastleKingside
        } else {
            SpecialMove::Normal
        }
    } else if piece == 0 {
        if e < 8 || e >= 56 {
            if text.len() > 4 {
                promotion_named(text[4])
            } else {
                SpecialMove::Normal
            }
        } else if s - e != 8 && e - s != 8 && s - e != 16 && e - s != 16 && !b.exists[e] {
            SpecialMove::EnPassant
        } else {
            SpecialMove::Normal
        }
    } else {
        SpecialMove::Normal
    }
}

/// The move that a long-algebraic text such as `e2e4` or `e7e8q` names on
/// board `b`, with the kind of the piece on its start square.
pub open spec fn decoded(b: BoardView, text: Seq<u8>) -> Option<(u8, PieceMove)> {
    if text.len() < 4 {
        None
    } else {
        match (square_named(text[0], text[1]), square_named(text[2], text[3])) {
            (Some(s), Some(e)) => Some((b.kind[s], mk(s, e, inferred_tag(b, s, e, text)))),
            _ => None,
        }
    }
}

fn square_from(f: u8, r: u8) -> (res: Option<u8>)
    ensures
        match square_named(f, r) {
            Some(s) => res == Some(s as u8) && 0 <= s < 64,
            None => res is None,
        },
{
    if 97 <= f && f <= 104 && 49 <= r && r <= 56 {
        Some((f - 97) + (r - 49) * 8)
    } else {
        None
    }
}

/// Reads a move in long algebraic notation and infers its tag from the
/// position; `None` when the text names no pair of squares.
pub fn decode_move(game: &Game, text: &[u8]) -> (r: Option<(u8, PieceMove)>)
    requires
        game.mirrors_agree(),
    ensures
        r == decoded(game.board(), text@),
{
    if text.len() < 4 {
        return None;
    }
    let start = match square_from(text[0], text[1]) {
        Some(s) => s,
        None => {
            return None;
        },
    };
    let end = match square_from(text[2], text[3]) {
        Some(e) => e,
        None => {
            return None;
        },
    };
    let piece = game.square_to_piece[start as usize];
    let s = start as i16;
    let e = end as i16;
    let mut special = SpecialMove::Normal;
    if piece == 5 {
        if s - e == 2 {
            special = SpecialMove::CastleQueenside;
        } else if e - s == 2 {
            special = SpecialMove::CastleKingside;
        }
    } else if piece == 0 {
        if end < 8 || end >= 56 {
            if text.len() > 4 {
                let c = text[4];
                if c == 110 {
                    special = SpecialMove::KnightPromotion;
                } else if c == 98 {
                    special = SpecialMove::BishopPromotion;
                } else if c == 114 {
                    special = SpecialMove::RookPromotion;
                } else if c == 113 {
                    special = SpecialMove::QueenPromotion;
                }
            }
        } else if s - e != 8 && e - s != 8 && s - e != 16 && e - s != 16
            && !game.square_exists[end as usize] {
            special = SpecialMove::EnPassant;
        }
    }
    Some((piece, PieceMove { start, end, special }))
}

/// The long-algebraic text of a move: start square, end square, and the
/// letter of its promotion, if any.
pub open spec fn encoded(m: PieceMove) -> Seq<u8> {
    let base = seq![
        (m.start % 8 + 97) as u8,
        (m.start / 8 + 49) as u8,
        (m.end % 8 + 97) as u8,
        (m.end / 8 + 49) as u8,
    ];
    if m.special == SpecialMove::KnightPromotion {
        base.push(110u8)
    } else if m.special == SpecialMove::BishopPromotion {
        base.push(98u8)
    } else if m.special == SpecialMove::RookPromotion {
        base.push(114u8)
    } else if m.special == SpecialMove::QueenPromotion {
        base.push(113u8)
    } else {
        base
    }
}

/// Writes a move on the board in long algebraic notation.
pub fn encode_move(m: &PieceMove) -> (r: Vec<u8>)
    requires
        m.start < 64,
        m.end < 64,
    ensures
        r@ == encoded(*m),
{
    let mut text: Vec<u8> = Vec::new();
    text.push(m.start % 8 + 97);
    text.push(m.start / 8 + 49);
    text.push(m.end % 8 + 97);
    text.push(m.end / 8 + 49);
    match m.special {
        SpecialMove::KnightPromotion => text.push(110),
        SpecialMove::BishopPromotion => text.push(98),
        SpecialMove::RookPromotion => text.push(114),
        SpecialMove::QueenPromotion => text.push(113),
        _ => {},
    }
    assert(text@ =~= encoded(*m));
    text
}

/// The milliseconds to think: the move time when one is given, else a
/// thirty-fifth of the side's clock (none, or a negative clock, counts as
/// zero), plus one second, at most fifteen seconds.
pub open spec fn budget(move_time: Option<i128>, side_time: Option<i128>) -> int {
    let base: int = match move_time {
        Some(t) => t as int,
        None => match side_time {
            Some(c) => if c >= 0 {
                c as int / 35
            } else {
                0
            },
            None => 0,
        },
    };
    if base + 1000 > 15000 {
        15000
    } else {
        base + 1000
    }
}

/// The search time for a `go` command (see `budget`).
pub fn time_budget(move_time: Option<i128>, side_time: Option<i128>) -> (r: i128)
    ensures
        r == budget(move_time, side_time),
{
    let base: i128 = match move_time {
        Some(t) => t,
        None => match side_time {
            Some(c) => if c >= 0 {
                c / 35
            } else {
                0
            },
            None => 0,
        },
    };
    if base > 14000 {
        15000
    } else {
        base + 1000
    }
}

} // verus!
