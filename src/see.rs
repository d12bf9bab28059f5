use crate::game::{
    after_make, board_moves, canonical, cleared, make_ok, own_piece, placed, BoardView, Game,
};
use crate::geometry::{lemma_gen_shape, move_shape};
use crate::movelist::{move_items, move_list_get, move_list_len, MoveList};
use crate::moveutil::{legal_move, legal_spec};
use crate::piecemove::PieceMove;
use crate::specialmove::SpecialMove;
use vstd::prelude::*;

verus! {

/// Material value of a piece kind in hundredths of a pawn: pawn 1, knight 3,
/// bishop 3.25, rook 5, queen 9, king 10000.
pub open spec fn piece_value(kind: u8) -> int {
    if kind == 0 {
        100
    } else if kind == 1 {
        300
    } else if kind == 2 {
        325
    } else if kind == 3 {
        500
    } else if kind == 4 {
        900
    } else {
        1000000
    }
}

/// The material value of a piece kind, in hundredths of a pawn.
pub fn piece_score(kind: u8) -> (r: i64)
    ensures
        r == piece_value(kind),
{
    match kind {
        0 => 100,
        1 => 300,
        2 => 325,
        3 => 500,
        4 => 900,
        _ => 1000000,
    }
}

/// How many of the first `n` flags are set.
pub open spec fn count_set(s: Seq<bool>, n: int) -> nat
    decreases n,
{
    if n <= 0 {
        0
    } else {
        count_set(s, n - 1) + if s[n - 1] {
            1nat
        } else {
            0nat
        }
    }
}

/// The number of occupied squares.
pub open spec fn piece_count(b: BoardView) -> nat {
    count_set(b.exists, 64)
}

/// The index of the first move of `moves` below `n` that ends on `t`, or -1.
pub open spec fn first_to(moves: Seq<PieceMove>, t: int, n: int) -> int
    decreases n,
{
    if n <= 0 {
        -1
    } else {
        let prev = first_to(moves, t, n - 1);
        if prev >= 0 {
            prev
        } else if moves[n - 1].end == t {
            n - 1
        } else {
            -1
        }
    }
}

/// The first cached move of the piece on `s` onto `t`, if it has one.
pub open spec fn attacker_move(b: BoardView, s: int, t: int) -> Option<PieceMove> {
    let ms = board_moves(b, s);
    let k = first_to(ms, t, ms.len() as int);
    if k >= 0 {
        Some(ms[k])
    } else {
        None
    }
}

/// The piece on `s` belongs to the side other than `color`, and its first
/// move onto `t` is legal.
pub open spec fn recaptures(b: BoardView, color: u8, s: int, t: int) -> bool {
    &&& 0 <= s < 64
    &&& b.exists[s]
    &&& b.color[s] != color
    &&& attacker_move(b, s, t) is Some
    &&& legal_spec(b, b.color[s], b.kind[s], attacker_move(b, s, t)->Some_0)
}

/// Among the squares below `n` whose piece recaptures on `t`, the one of
/// lowest piece kind, the lowest square among equals; -1 if there is none.
pub open spec fn lowest_attacker(b: BoardView, color: u8, t: int, n: int) -> int
    decreases n,
{
    if n <= 0 {
        -1
    } else {
        let prev = lowest_attacker(b, color, t, n - 1);
        if recaptures(b, color, n - 1, t) && (prev < 0 || b.kind[n - 1] < b.kind[prev]) {
            n - 1
        } else {
            prev
        }
    }
}

/// Twice the number of pieces, plus one when `m` captures nothing: each
/// step of an exchange lowers it.
pub open spec fn see_measure(b: BoardView, m: PieceMove) -> int {
    2 * piece_count(b) + if b.exists[m.end as int] {
        0int
    } else {
        1int
    }
}

/// The moves that `see` evaluates: a move that `make_move` applies, of the
/// piece on its start square.
pub open spec fn see_ok(b: BoardView, m: PieceMove) -> bool {
    let s = m.start as int;
    0 <= s < 64 && b.exists[s] && make_ok(b, b.color[s], b.kind[s], m)
}

/// Static exchange evaluation of `m`, white-positive, in hundredths of a
/// pawn: the value taken on the end square, plus the exchange that the
/// opponent's cheapest legal recapture there starts. (The comparison of
/// measures always holds; it states why the recursion ends.)
pub open spec fn see_spec(b: BoardView, m: PieceMove) -> int
    decreases see_measure(b, m),
{
    let s = m.start as int;
    let e = m.end as int;
    let color = b.color[s];
    let gain = if b.exists[e] {
        piece_value(b.kind[e])
    } else {
        0
    };
    let signed = if color == 0 {
        gain
    } else {
        -gain
    };
    let b2 = after_make(b, color, b.kind[s], m);
    let a = lowest_attacker(b2, color, e, 64);
    if a >= 0 && see_measure(b2, attacker_move(b2, a, e)->Some_0) < see_measure(b, m) {
        signed + see_spec(b2, attacker_move(b2, a, e)->Some_0)
    } else {
        signed
    }
}

proof fn lemma_count_update(s: Seq<bool>, i: int, v: bool, n: int)
    requires
        0 <= i < s.len(),
        n <= s.len(),
    ensures
        count_set(s.update(i, v), n) == count_set(s, n) - (if 0 <= i < n && s[i] {
            1int
        } else {
            0int
        }) + (if 0 <= i < n && v {
            1int
        } else {
            0int
        }),
    decreases n,
{
    if n > 0 {
        lemma_count_update(s, i, v, n - 1);
    }
}

pub proof fn lemma_count_bound(s: Seq<bool>, n: int)
    requires
        0 <= n,
    ensures
        0 <= count_set(s, n) <= n,
    decreases n,
{
    if n > 0 {
        lemma_count_bound(s, n - 1);
    }
}

proof fn lemma_cleared_count(b: BoardView, x: int)
    requires
        canonical(b),
        0 <= x < 64,
    ensures
        piece_count(cleared(b, x)) == piece_count(b) - if b.exists[x] {
            1int
        } else {
            0int
        },
{
    lemma_count_update(b.exists, x, false, 64);
}

proof fn lemma_placed_count(b: BoardView, x: int, c: u8, p: u8)
    requires
        canonical(b),
        0 <= x < 64,
    ensures
        piece_count(placed(b, x, c, p)) == piece_count(b) + if b.exists[x] {
            0int
        } else {
            1int
        },
{
    lemma_count_update(b.exists, x, true, 64);
}

/// A move never adds a piece, and a capture removes one.
pub proof fn lemma_make_count(b: BoardView, color: u8, piece: u8, m: PieceMove)
    requires
        canonical(b),
        make_ok(b, color, piece, m),
    ensures
        piece_count(after_make(b, color, piece, m)) + (if b.exists[m.end as int] {
            1int
        } else {
            0int
        }) <= piece_count(b),
{
    let s = m.start as int;
    let e = m.end as int;
    let b0 = cleared(b, s);
    lemma_cleared_count(b, s);
    let b1 = placed(b0, e, color, piece);
    lemma_placed_count(b0, e, color, piece);
    crate::history::lemma_make_canonical(b, color, piece, m);
    if piece == 5 && m.special == SpecialMove::CastleKingside {
        let b2 = cleared(b1, e + 1);
        lemma_cleared_count(b1, e + 1);
        lemma_placed_count(b2, e - 1, color, 3);
    } else if piece == 5 && m.special == SpecialMove::CastleQueenside {
        let b2 = cleared(b1, e - 2);
        lemma_cleared_count(b1, e - 2);
        lemma_placed_count(b2, e + 1, color, 3);
    } else if piece == 0 && crate::geometry::is_promotion(m.special) {
        lemma_placed_count(b1, e, color, crate::game::promoted_kind(m.special));
    } else if piece == 0 && m.special == SpecialMove::EnPassant {
        lemma_cleared_count(b1, crate::game::en_passant_square(color, m));
    }
    assert(after_make(b, color, piece, m).exists == if piece == 5 && m.special
        == SpecialMove::CastleKingside {
        placed(cleared(b1, e + 1), e - 1, color, 3).exists
    } else if piece == 5 && m.special == SpecialMove::CastleQueenside {
        placed(cleared(b1, e - 2), e + 1, color, 3).exists
    } else if piece == 0 && crate::geometry::is_promotion(m.special) {
        placed(b1, e, color, crate::game::promoted_kind(m.special)).exists
    } else if piece == 0 && m.special == SpecialMove::EnPassant {
        cleared(b1, crate::game::en_passant_square(color, m)).exists
    } else {
        b1.exists
    });
}

/// A legal generated move is one that `make_move` applies.
pub proof fn lemma_legal_make_ok(b: BoardView, color: u8, piece: u8, m: PieceMove)
    requires
        canonical(b),
        color < 2,
        piece < 6,
        own_piece(b, color, m.start as int, piece),
        move_shape(piece, m.start as int, m),
        legal_spec(b, color, piece, m),
    ensures
        make_ok(b, color, piece, m),
{
}

proof fn lemma_count_pos(s: Seq<bool>, n: int, i: int)
    requires
        0 <= i < n,
        s[i],
    ensures
        count_set(s, n) >= 1,
    decreases n,
{
    lemma_count_bound(s, n - 1);
    if i < n - 1 {
        lemma_count_pos(s, n - 1, i);
    }
}

proof fn lemma_first_to(moves: Seq<PieceMove>, t: int, n: int, m: int)
    requires
        0 <= n <= m,
    ensures
        first_to(moves, t, n) >= 0 ==> first_to(moves, t, m) == first_to(moves, t, n),
        first_to(moves, t, n) >= 0 ==> first_to(moves, t, n) < n && moves[first_to(
            moves,
            t,
            n,
        )].end == t,
        first_to(moves, t, n) >= -1,
    decreases m,
{
    if m > n {
        lemma_first_to(moves, t, n, m - 1);
    } else if n > 0 {
        lemma_first_to(moves, t, n - 1, n - 1);
    }
}

proof fn lemma_lowest(b: BoardView, color: u8, t: int, n: int, m: int)
    requires
        0 <= n <= m,
    ensures
        lowest_attacker(b, color, t, n) >= -1,
        lowest_attacker(b, color, t, n) >= 0 ==> lowest_attacker(b, color, t, n) < n && recaptures(
            b,
            color,
            lowest_attacker(b, color, t, n),
            t,
        ),
        lowest_attacker(b, color, t, n) >= 0 && b.kind[lowest_attacker(b, color, t, n)] == 0
            ==> lowest_attacker(b, color, t, m) == lowest_attacker(b, color, t, n),
    decreases m,
{
    if m > n {
        lemma_lowest(b, color, t, n, m - 1);
    } else if n > 0 {
        lemma_lowest(b, color, t, n - 1, n - 1);
    }
}

/// The index of the first move of the list that ends on `target`.
fn first_move_to(list: &MoveList, target: u8) -> (r: Option<usize>)
    ensures
        first_to(move_items(*list), target as int, move_items(*list).len() as int) == match r {
            Some(k) => k as int,
            None => -1,
        },
{
    let ghost items = move_items(*list);
    let n = move_list_len(list);
    let mut i: usize = 0;
    while i < n
        invariant
            items == move_items(*list),
            n == items.len(),
            i <= n,
            first_to(items, target as int, i as int) == -1,
        decreases n - i,
    {
        if move_list_get(list, i).end == target {
            proof {
                lemma_first_to(items, target as int, i + 1, n as int);
            }
            return Some(i);
        }
        i += 1;
    }
    None
}

/// Static exchange evaluation of `piece_move`, white-positive, in hundredths
/// of a pawn. The position is left as it was.
pub fn see(game: &mut Game, piece_move: &PieceMove) -> (r: i64)
    requires
        old(game).wf(),
        see_ok(old(game).board(), *piece_move),
    ensures
        final(game).wf(),
        final(game).board() == old(game).board(),
        r == see_spec(old(game).board(), *piece_move),
        -1000000 * see_measure(old(game).board(), *piece_move) <= r <= 1000000 * see_measure(
            old(game).board(),
            *piece_move,
        ),
    decreases see_measure(old(game).board(), *piece_move),
{
    let ghost b = game.board();
    let start = piece_move.start;
    let end = piece_move.end;
    let color = game.square_to_color[start as usize];
    let piece = game.square_to_piece[start as usize];
    let gain: i64 = if game.square_exists[end as usize] {
        piece_score(game.square_to_piece[end as usize])
    } else {
        0
    };
    let mut score: i64 = if color == 0 {
        gain
    } else {
        -gain
    };
    proof {
        lemma_count_bound(b.exists, 64);
        lemma_count_pos(b.exists, 64, start as int);
        lemma_make_count(b, color, piece, *piece_move);
    }
    let prev_game_state = game.make_move(color, piece, piece_move);
    let ghost b2 = game.board();
    let mut lowest_attacker_square: i64 = -1;
    let mut lowest_attacker_move = PieceMove::empty();
    let mut lowest_attacker_piece: u8 = 0;
    let mut pawn_found = false;
    let mut square: usize = 0;
    while square < 64 && !pawn_found
        invariant
            game.wf(),
            game.board() == b2,
            color < 2,
            square <= 64,
            end < 64,
            lowest_attacker_square == lowest_attacker(b2, color, end as int, square as int),
            lowest_attacker_square >= 0 ==> lowest_attacker_move == attacker_move(
                b2,
                lowest_attacker_square as int,
                end as int,
            )->Some_0 && lowest_attacker_piece == b2.kind[lowest_attacker_square as int],
            pawn_found ==> lowest_attacker_square >= 0 && lowest_attacker_piece == 0,
        decreases 64 - square,
    {
        proof {
            lemma_lowest(b2, color, end as int, square as int, square as int);
        }
        if game.square_exists[square] && game.square_to_color[square] != color {
            let ghost moves = board_moves(b2, square as int);
            proof {
                assert(b2.exists[square as int]);
                lemma_gen_shape(
                    b2.color[square as int],
                    b2.kind[square as int],
                    square as int,
                    b2.exists,
                    b2.castle,
                );
                lemma_first_to(moves, end as int, moves.len() as int, moves.len() as int);
            }
            match first_move_to(&game.square_moves[square], end) {
                Some(capture_idx) => {
                    let capture_move = move_list_get(&game.square_moves[square], capture_idx);
                    let square_color = game.square_to_color[square];
                    let square_piece = game.square_to_piece[square];
                    assert(move_shape(square_piece, square as int, moves[capture_idx as int]));
                    if legal_move(game, square_color, square_piece, &capture_move) {
                        if lowest_attacker_square == -1 || square_piece < lowest_attacker_piece {
                            lowest_attacker_square = square as i64;
                            lowest_attacker_move = capture_move;
                            lowest_attacker_piece = square_piece;
                            if square_piece == 0 {
                                pawn_found = true;
                            }
                        }
                    }
                },
                None => {},
            }
        }
        square += 1;
    }
    proof {
        lemma_lowest(b2, color, end as int, square as int, 64);
        lemma_lowest(b2, color, end as int, 64, 64);
    }
    if lowest_attacker_square != -1 {
        let ghost a = lowest_attacker_square as int;
        let ghost am = attacker_move(b2, a, end as int)->Some_0;
        proof {
            let ms = board_moves(b2, a);
            lemma_gen_shape(b2.color[a], b2.kind[a], a, b2.exists, b2.castle);
            lemma_first_to(ms, end as int, ms.len() as int, ms.len() as int);
            crate::history::lemma_make_canonical(b, color, piece, *piece_move);
            lemma_legal_make_ok(b2, b2.color[a], b2.kind[a], am);
            lemma_count_bound(b2.exists, 64);
        }
        let rest = see(game, &lowest_attacker_move);
        score = score + rest;
    }
    game.unmake_move(color, piece, piece_move, &prev_game_state);
    proof {
        crate::game::lemma_make_unmake_board(b, color, piece, *piece_move, prev_game_state);
    }
    score
}

} // verus!
