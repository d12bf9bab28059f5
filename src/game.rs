use crate::bits::{bit, lemma_and_nonzero, lemma_bit_clear, lemma_bit_or, lemma_bit_set, lemma_bits_eq};
use crate::geometry::{
    bits_of, dist, file, gen_moves, is_promotion, lemma_gen_shape, move_shape, rank,
};
use crate::moveutil::{legal_move, legal_spec, piecemoves_to_bitboard, reaches};
use crate::movegen::MoveGen;
use crate::movelist::{move_items, move_list_get, move_list_len, move_list_new, MoveList};
use crate::piecemove::PieceMove;
use crate::prevgamestate::PrevGameState;
use crate::specialmove::SpecialMove;
use vstd::prelude::*;

verus! {

/// The squares and castling rights of a position, as mathematical sequences:
/// per square whether it is occupied, by which colour and by which kind.
pub struct BoardView {
    pub exists: Seq<bool>,
    pub color: Seq<u8>,
    pub kind: Seq<u8>,
    pub castle: Seq<bool>,
}

/// The board with square `s` emptied.
pub open spec fn cleared(b: BoardView, s: int) -> BoardView {
    BoardView {
        exists: b.exists.update(s, false),
        color: b.color.update(s, 0),
        kind: b.kind.update(s, 0),
        castle: b.castle,
    }
}

/// The board with a piece of colour `c` and kind `p` on square `s`.
pub open spec fn placed(b: BoardView, s: int, c: u8, p: u8) -> BoardView {
    BoardView {
        exists: b.exists.update(s, true),
        color: b.color.update(s, c),
        kind: b.kind.update(s, p),
        castle: b.castle,
    }
}

/// The board with nothing on it and no castling rights.
pub open spec fn empty_board() -> BoardView {
    BoardView {
        exists: Seq::new(64, |i: int| false),
        color: Seq::new(64, |i: int| 0u8),
        kind: Seq::new(64, |i: int| 0u8),
        castle: Seq::new(4, |i: int| false),
    }
}

/// The kind of piece that starts on file `f` of a back rank.
pub open spec fn back_rank(f: int) -> u8 {
    if f == 0 || f == 7 {
        3
    } else if f == 1 || f == 6 {
        1
    } else if f == 2 || f == 5 {
        2
    } else if f == 3 {
        4
    } else {
        5
    }
}

/// The initial position of chess, with every castling right.
pub open spec fn start_board() -> BoardView {
    BoardView {
        exists: Seq::new(64, |s: int| s < 16 || s >= 48),
        color: Seq::new(
            64,
            |s: int|
                if s >= 48 {
                    1u8
                } else {
                    0u8
                },
        ),
        kind: Seq::new(
            64,
            |s: int|
                if 8 <= s < 56 {
                    0u8
                } else {
                    back_rank(s % 8)
                },
        ),
        castle: Seq::new(4, |i: int| true),
    }
}

/// The start position with the files below `f` set up and the rest empty.
pub open spec fn start_files(f: int) -> BoardView {
    BoardView {
        exists: Seq::new(64, |s: int| s % 8 < f && (s < 16 || s >= 48)),
        color: Seq::new(
            64,
            |s: int|
                if s % 8 < f && s >= 48 {
                    1u8
                } else {
                    0u8
                },
        ),
        kind: Seq::new(
            64,
            |s: int|
                if s % 8 < f && (s < 8 || s >= 56) {
                    back_rank(s % 8)
                } else {
                    0u8
                },
        ),
        castle: Seq::new(4, |i: int| false),
    }
}

fn back_rank_piece(f: u8) -> (r: u8)
    requires
        f < 8,
    ensures
        r == back_rank(f as int),
        r < 6,
{
    match f {
        0 | 7 => 3,
        1 | 6 => 1,
        2 | 5 => 2,
        3 => 4,
        _ => 5,
    }
}

/// The kind a pawn becomes under a promotion tag.
pub open spec fn promoted_kind(special: SpecialMove) -> u8 {
    if special == SpecialMove::KnightPromotion {
        1
    } else if special == SpecialMove::BishopPromotion {
        2
    } else if special == SpecialMove::RookPromotion {
        3
    } else {
        4
    }
}

/// The square of the pawn taken en passant: beside the start square, on the
/// file of the end square.
pub open spec fn en_passant_square(color: u8, m: PieceMove) -> int {
    if color == 0 {
        if m.end - m.start == 7 {
            m.start - 1
        } else {
            m.start + 1
        }
    } else {
        if m.start - m.end == 7 {
            m.start + 1
        } else {
            m.start - 1
        }
    }
}

/// Castling rights after a piece of kind `piece` leaves `start`: a king
/// gives up both of its colour's rights, a rook leaving a corner the one of
/// that corner.
pub open spec fn revoked(castle: Seq<bool>, color: u8, piece: u8, start: int) -> Seq<bool> {
    if piece == 5 {
        castle.update(2 * color, false).update(2 * color + 1, false)
    } else if piece == 3 {
        if start == 0 {
            castle.update(1, false)
        } else if start == 7 {
            castle.update(0, false)
        } else if start == 56 {
            castle.update(3, false)
        } else if start == 63 {
            castle.update(2, false)
        } else {
            castle
        }
    } else {
        castle
    }
}

/// The board after `color` moves its piece of kind `piece` by `m`.
pub open spec fn after_make(b: BoardView, color: u8, piece: u8, m: PieceMove) -> BoardView {
    let s = m.start as int;
    let e = m.end as int;
    let b1 = placed(cleared(b, s), e, color, piece);
    let b2 = if piece == 5 && m.special == SpecialMove::CastleKingside {
        placed(cleared(b1, e + 1), e - 1, color, 3)
    } else if piece == 5 && m.special == SpecialMove::CastleQueenside {
        placed(cleared(b1, e - 2), e + 1, color, 3)
    } else if piece == 0 && is_promotion(m.special) {
        placed(b1, e, color, promoted_kind(m.special))
    } else if piece == 0 && m.special == SpecialMove::EnPassant {
        cleared(b1, en_passant_square(color, m))
    } else {
        b1
    };
    BoardView { castle: revoked(b.castle, color, piece, s), ..b2 }
}

/// The reversal token of that move: what stood on the end square, and the
/// castling rights before it.
pub open spec fn token_of(tok: PrevGameState, b: BoardView, m: PieceMove) -> bool {
    let before = cleared(b, m.start as int);
    &&& tok.is_capture == before.exists[m.end as int]
    &&& tok.capture_piece == before.kind[m.end as int]
    &&& tok.castle_available@ == b.castle
}

/// The board after taking back the move `m` of `color` with token `tok`.
pub open spec fn after_unmake(
    b: BoardView,
    color: u8,
    piece: u8,
    m: PieceMove,
    tok: PrevGameState,
) -> BoardView {
    let s = m.start as int;
    let e = m.end as int;
    let b1 = cleared(b, e);
    let b2 = if tok.is_capture {
        placed(b1, e, (1 - color) as u8, tok.capture_piece)
    } else {
        b1
    };
    let b3 = placed(b2, s, color, piece);
    let b4 = if piece == 5 && m.special == SpecialMove::CastleKingside {
        placed(cleared(b3, e - 1), e + 1, color, 3)
    } else if piece == 5 && m.special == SpecialMove::CastleQueenside {
        placed(cleared(b3, e + 1), e - 2, color, 3)
    } else if piece == 0 && m.special == SpecialMove::EnPassant {
        placed(b3, en_passant_square(color, m), (1 - color) as u8, 0)
    } else {
        b3
    };
    BoardView { castle: tok.castle_available@, ..b4 }
}

pub open spec fn own_piece(b: BoardView, color: u8, s: int, piece: u8) -> bool {
    0 <= s < 64 && b.exists[s] && b.color[s] == color && b.kind[s] == piece
}

/// The conditions under which `make_move` applies `m`: the piece is on the
/// start square, the end square holds no piece of the mover, a castle has its
/// rook and an empty path, an en-passant capture has its pawn beside.
pub open spec fn make_ok(b: BoardView, color: u8, piece: u8, m: PieceMove) -> bool {
    let s = m.start as int;
    let e = m.end as int;
    &&& color < 2
    &&& piece < 6
    &&& e < 64
    &&& own_piece(b, color, s, piece)
    &&& !(b.exists[e] && b.color[e] == color)
    &&& (piece == 5 && m.special == SpecialMove::CastleKingside) ==> (e == s + 2 && e + 1 < 64
        && !b.exists[s + 1] && !b.exists[e] && own_piece(b, color, e + 1, 3))
    &&& (piece == 5 && m.special == SpecialMove::CastleQueenside) ==> (e == s - 2 && e >= 2
        && !b.exists[s - 1] && !b.exists[e] && own_piece(b, color, e - 2, 3))
    &&& (piece == 0 && m.special == SpecialMove::EnPassant) ==> en_passant_ok(b, color, m)
}

/// An en-passant capture of `color`: a pawn on its fifth rank moves one
/// square diagonally forward onto an empty square, and the opponent's pawn
/// stands beside it on the file of that square.
pub open spec fn en_passant_ok(b: BoardView, color: u8, m: PieceMove) -> bool {
    let s = m.start as int;
    let e = m.end as int;
    &&& !b.exists[e]
    &&& color == 0 ==> rank(s) == 4 && (e == s + 7 || e == s + 9)
    &&& color == 1 ==> rank(s) == 3 && (s == e + 7 || s == e + 9)
    &&& dist(file(s), file(e)) == 1
    &&& own_piece(b, (1 - color) as u8, en_passant_square(color, m), 0)
}

/// An en-passant capture that `make_move` applies takes a pawn of the
/// opponent that stands beside the capturing pawn, on the rank it starts
/// from and the file it arrives on, and the capturing pawn starts on its
/// fifth rank.
pub proof fn lemma_en_passant_geometry(b: BoardView, color: u8, m: PieceMove)
    requires
        make_ok(b, color, 0, m),
        m.special == SpecialMove::EnPassant,
    ensures
        ({
            let x = en_passant_square(color, m);
            &&& rank(x) == rank(m.start as int)
            &&& file(x) == file(m.end as int)
            &&& own_piece(b, (1 - color) as u8, x, 0)
            &&& !b.exists[m.end as int]
            &&& rank(m.start as int) == if color == 0 {
                4int
            } else {
                3int
            }
        }),
{
}

/// The index ranges that `unmake_move` needs.
pub open spec fn unmake_ok(color: u8, piece: u8, m: PieceMove, tok: PrevGameState) -> bool {
    let s = m.start as int;
    let e = m.end as int;
    &&& color < 2
    &&& piece < 6
    &&& s < 64
    &&& e < 64
    &&& tok.capture_piece < 6
    &&& (piece == 5 && m.special == SpecialMove::CastleKingside) ==> (1 <= e && e + 1 < 64)
    &&& (piece == 5 && m.special == SpecialMove::CastleQueenside) ==> (2 <= e && e + 1 < 64)
    &&& (piece == 0 && m.special == SpecialMove::EnPassant) ==> ((color == 0 ==> e > s) && (color
        == 1 ==> s > e) && 0 <= en_passant_square(color, m) < 64)
}

/// A board of 64 squares whose empty squares read colour 0 and kind 0, and
/// whose pieces have a colour below 2 and a kind below 6.
pub open spec fn canonical(b: BoardView) -> bool {
    &&& b.exists.len() == 64
    &&& b.color.len() == 64
    &&& b.kind.len() == 64
    &&& b.castle.len() == 4
    &&& forall|s: int|
        0 <= s < 64 ==> if #[trigger] b.exists[s] {
            b.color[s] < 2 && b.kind[s] < 6
        } else {
            b.color[s] == 0 && b.kind[s] == 0
        }
}

/// Taking back a move with the token that playing it returned gives back
/// the board and the castling rights it was played on.
pub proof fn lemma_make_unmake_board(
    b: BoardView,
    color: u8,
    piece: u8,
    m: PieceMove,
    tok: PrevGameState,
)
    requires
        canonical(b),
        make_ok(b, color, piece, m),
        token_of(tok, b, m),
    ensures
        after_unmake(after_make(b, color, piece, m), color, piece, m, tok) == b,
{
    let r = after_unmake(after_make(b, color, piece, m), color, piece, m, tok);
    assert(r.exists =~= b.exists);
    assert(r.color =~= b.color);
    assert(r.kind =~= b.kind);
    assert(r.castle =~= b.castle);
}

/// The pseudo-legal moves of the piece on `s`.
pub open spec fn board_moves(b: BoardView, s: int) -> Seq<PieceMove> {
    gen_moves(b.color[s], b.kind[s], s, b.exists, b.castle)
}

/// `color`'s king stands on `t`.
pub open spec fn king_on(b: BoardView, color: u8, t: int) -> bool {
    0 <= t < 64 && b.exists[t] && b.color[t] == color && b.kind[t] == 5
}

/// The piece on `s` has a pseudo-legal move onto `color`'s king.
pub open spec fn attacks_king(b: BoardView, color: u8, s: int) -> bool {
    exists|i: int|
        0 <= i < board_moves(b, s).len() && king_on(b, color, #[trigger] board_moves(b, s)[i].end as int)
}

/// Some piece of the opponent of `color` has a pseudo-legal move onto
/// `color`'s king.
pub open spec fn in_check_spec(b: BoardView, color: u8) -> bool {
    exists|s: int|
        0 <= s < 64 && b.exists[s] && b.color[s] == 1 - color && #[trigger] attacks_king(b, color, s)
}

/// Some piece of `color` has a legal move.
pub open spec fn has_legal_move(b: BoardView, color: u8) -> bool {
    exists|s: int, i: int|
        0 <= s < 64 && b.exists[s] && b.color[s] == color && 0 <= i < board_moves(b, s).len()
            && legal_spec(b, color, b.kind[s], #[trigger] board_moves(b, s)[i])
}

pub open spec fn checkmate_spec(b: BoardView, color: u8) -> bool {
    in_check_spec(b, color) && !has_legal_move(b, color)
}

pub open spec fn stalemate_spec(b: BoardView, color: u8) -> bool {
    !in_check_spec(b, color) && !has_legal_move(b, color)
}

/// A chess position: one bitboard per colour and kind, per-square mirrors of
/// them, castling rights, and the pseudo-legal moves of every occupied square.
#[derive(Clone)]
pub struct Game {
    pub piece_positions: [[u64; 6]; 2],
    pub square_to_color: [u8; 64],
    pub square_to_piece: [u8; 64],
    pub square_exists: [bool; 64],
    pub square_moves: [MoveList; 64],
    pub castle_available: [bool; 4],
    pub move_gen: MoveGen,
}

impl Game {
    pub open spec fn board(&self) -> BoardView {
        BoardView {
            exists: self.square_exists@,
            color: self.square_to_color@,
            kind: self.square_to_piece@,
            castle: self.castle_available@,
        }
    }

    pub open spec fn tables_ready(&self) -> bool {
        self.move_gen.wf()
    }

    /// The bitboards and the per-square mirrors describe the same pieces.
    pub open spec fn mirrors_agree(&self) -> bool {
        &&& canonical(self.board())
        &&& forall|c: int, p: int, s: int|
            0 <= c < 2 && 0 <= p < 6 && 0 <= s < 64 ==> #[trigger] bit(
                self.piece_positions[c][p],
                s,
            ) == (self.square_exists[s] && self.square_to_color[s] == c
                && self.square_to_piece[s] == p)
    }

    pub open spec fn consistent(&self) -> bool {
        self.tables_ready() && self.mirrors_agree()
    }

    /// The moves that the position's move generator gives the piece on `s`.
    pub open spec fn cache_fresh(&self) -> bool {
        forall|s: int|
            0 <= s < 64 ==> move_items(#[trigger] self.square_moves[s]) == if self.square_exists[s] {
                gen_moves(
                    self.square_to_color[s],
                    self.square_to_piece[s],
                    s,
                    self.square_exists@,
                    self.castle_available@,
                )
            } else {
                Seq::empty()
            }
    }

    pub open spec fn wf(&self) -> bool {
        self.consistent() && self.cache_fresh()
    }

    /// An empty board with no castling rights.
    pub fn new() -> (r: Game)
        ensures
            r.wf(),
            r.board() == empty_board(),
            forall|s: int| 0 <= s < 64 ==> move_items(#[trigger] r.square_moves[s]) == Seq::<
                PieceMove,
            >::empty(),
    {
        let empty = move_list_new();
        let mut r = Game {
            piece_positions: [[0u64; 6]; 2],
            square_to_color: [0u8; 64],
            square_to_piece: [0u8; 64],
            square_exists: [false; 64],
            square_moves: [empty; 64],
            castle_available: [false; 4],
            move_gen: MoveGen::new(),
        };
        proof {
            assert forall|c: int, p: int, s: int|
                0 <= c < 2 && 0 <= p < 6 && 0 <= s < 64 implies #[trigger] bit(
                r.piece_positions[c][p],
                s,
            ) == (r.square_exists[s] && r.square_to_color[s] == c && r.square_to_piece[s] == p) by {
                crate::bits::lemma_bit_zero(s as u64);
            }
            assert(r.board().exists =~= empty_board().exists);
            assert(r.board().color =~= empty_board().color);
            assert(r.board().kind =~= empty_board().kind);
            assert(r.board().castle =~= empty_board().castle);
        }
        r.set_moves();
        r
    }

    /// Empties square `s`, removing its piece from its bitboard.
    fn clear_square(&mut self, s: u8)
        requires
            old(self).consistent(),
            s < 64,
        ensures
            final(self).consistent(),
            final(self).board() == cleared(old(self).board(), s as int),
            final(self).square_moves == old(self).square_moves,
    {
        let ghost g0 = *self;
        let si = s as usize;
        if self.square_exists[si] {
            let c = self.square_to_color[si] as usize;
            let p = self.square_to_piece[si] as usize;
            let old_bb = self.piece_positions[c][p];
            self.piece_positions[c][p] = old_bb & !(1u64 << s);
            proof {
                assert forall|t: int| 0 <= t < 64 implies bit(self.piece_positions[c as int][p as int], t)
                    == (bit(old_bb, t) && t != s) by {
                    lemma_bit_clear(old_bb, s as u64, t as u64);
                }
            }
        }
        self.square_exists[si] = false;
        self.square_to_color[si] = 0;
        self.square_to_piece[si] = 0;
        proof {
            assert forall|c: int, p: int, t: int|
                0 <= c < 2 && 0 <= p < 6 && 0 <= t < 64 implies #[trigger] bit(
                self.piece_positions[c][p],
                t,
            ) == (self.square_exists[t] && self.square_to_color[t] == c
                && self.square_to_piece[t] == p) by {
                assert(bit(g0.piece_positions[c][p], t) == (g0.square_exists[t]
                    && g0.square_to_color[t] == c && g0.square_to_piece[t] == p));
            }
            assert(self.board().exists =~= cleared(g0.board(), s as int).exists);
            assert(self.board().color =~= cleared(g0.board(), s as int).color);
            assert(self.board().kind =~= cleared(g0.board(), s as int).kind);
        }
    }

    /// Puts a piece of colour `c` and kind `p` on square `s`, replacing
    /// whatever stood there.
    fn place(&mut self, s: u8, c: u8, p: u8)
        requires
            old(self).consistent(),
            s < 64,
            c < 2,
            p < 6,
        ensures
            final(self).consistent(),
            final(self).board() == placed(old(self).board(), s as int, c, p),
            final(self).square_moves == old(self).square_moves,
    {
        let ghost g0 = *self;
        self.clear_square(s);
        let ghost g1 = *self;
        let si = s as usize;
        let old_bb = self.piece_positions[c as usize][p as usize];
        self.piece_positions[c as usize][p as usize] = old_bb | (1u64 << s);
        self.square_exists[si] = true;
        self.square_to_color[si] = c;
        self.square_to_piece[si] = p;
        proof {
            assert forall|t: int| 0 <= t < 64 implies bit(self.piece_positions[c as int][p as int], t)
                == (bit(old_bb, t) || t == s) by {
                lemma_bit_set(old_bb, s as u64, t as u64);
            }
            assert forall|oc: int, op: int, t: int|
                0 <= oc < 2 && 0 <= op < 6 && 0 <= t < 64 implies #[trigger] bit(
                self.piece_positions[oc][op],
                t,
            ) == (self.square_exists[t] && self.square_to_color[t] == oc
                && self.square_to_piece[t] == op) by {
                assert(bit(g1.piece_positions[oc][op], t) == (g1.square_exists[t]
                    && g1.square_to_color[t] == oc && g1.square_to_piece[t] == op));
            }
            assert(self.board().exists =~= placed(g0.board(), s as int, c, p).exists);
            assert(self.board().color =~= placed(g0.board(), s as int, c, p).color);
            assert(self.board().kind =~= placed(g0.board(), s as int, c, p).kind);
        }
    }

    /// The union of the twelve bitboards.
    fn occupancy(&self) -> (r: u64)
        requires
            self.mirrors_agree(),
        ensures
            bits_of(r) == self.square_exists@,
    {
        let w = self.piece_positions[0];
        let b = self.piece_positions[1];
        let white = w[0] | w[1] | w[2] | w[3] | w[4] | w[5];
        let black = b[0] | b[1] | b[2] | b[3] | b[4] | b[5];
        let blockers = white | black;
        proof {
            assert forall|t: int| 0 <= t < 64 implies bits_of(blockers)[t]
                == self.square_exists@[t] by {
                let tt = t as u64;
                lemma_bit_or(w[0], w[1], tt);
                lemma_bit_or(w[0] | w[1], w[2], tt);
                lemma_bit_or(w[0] | w[1] | w[2], w[3], tt);
                lemma_bit_or(w[0] | w[1] | w[2] | w[3], w[4], tt);
                lemma_bit_or(w[0] | w[1] | w[2] | w[3] | w[4], w[5], tt);
                lemma_bit_or(b[0], b[1], tt);
                lemma_bit_or(b[0] | b[1], b[2], tt);
                lemma_bit_or(b[0] | b[1] | b[2], b[3], tt);
                lemma_bit_or(b[0] | b[1] | b[2] | b[3], b[4], tt);
                lemma_bit_or(b[0] | b[1] | b[2] | b[3] | b[4], b[5], tt);
                lemma_bit_or(white, black, tt);
                assert(bit(self.piece_positions[0][0], t) == (self.square_exists[t]
                    && self.square_to_color[t] == 0 && self.square_to_piece[t] == 0));
                assert(bit(self.piece_positions[0][1], t) == (self.square_exists[t]
                    && self.square_to_color[t] == 0 && self.square_to_piece[t] == 1));
                assert(bit(self.piece_positions[0][2], t) == (self.square_exists[t]
                    && self.square_to_color[t] == 0 && self.square_to_piece[t] == 2));
                assert(bit(self.piece_positions[0][3], t) == (self.square_exists[t]
                    && self.square_to_color[t] == 0 && self.square_to_piece[t] == 3));
                assert(bit(self.piece_positions[0][4], t) == (self.square_exists[t]
                    && self.square_to_color[t] == 0 && self.square_to_piece[t] == 4));
                assert(bit(self.piece_positions[0][5], t) == (self.square_exists[t]
                    && self.square_to_color[t] == 0 && self.square_to_piece[t] == 5));
                assert(bit(self.piece_positions[1][0], t) == (self.square_exists[t]
                    && self.square_to_color[t] == 1 && self.square_to_piece[t] == 0));
                assert(bit(self.piece_positions[1][1], t) == (self.square_exists[t]
                    && self.square_to_color[t] == 1 && self.square_to_piece[t] == 1));
                assert(bit(self.piece_positions[1][2], t) == (self.square_exists[t]
                    && self.square_to_color[t] == 1 && self.square_to_piece[t] == 2));
                assert(bit(self.piece_positions[1][3], t) == (self.square_exists[t]
                    && self.square_to_color[t] == 1 && self.square_to_piece[t] == 3));
                assert(bit(self.piece_positions[1][4], t) == (self.square_exists[t]
                    && self.square_to_color[t] == 1 && self.square_to_piece[t] == 4));
                assert(bit(self.piece_positions[1][5], t) == (self.square_exists[t]
                    && self.square_to_color[t] == 1 && self.square_to_piece[t] == 5));
            }
            assert(bits_of(blockers) =~= self.square_exists@);
        }
        blockers
    }

    /// Refreshes the cached moves of every occupied square and empties the
    /// cache of every empty one.
    pub fn set_moves(&mut self)
        requires
            old(self).consistent(),
        ensures
            final(self).wf(),
            final(self).board() == old(self).board(),
            final(self).piece_positions == old(self).piece_positions,
            final(self).move_gen == old(self).move_gen,
    {
        let ghost g0 = *self;
        let blockers = self.occupancy();
        let mut square: usize = 0;
        while square < 64
            invariant
                square <= 64,
                self.consistent(),
                self.board() == g0.board(),
                self.piece_positions == g0.piece_positions,
                self.move_gen == g0.move_gen,
                bits_of(blockers) == self.square_exists@,
                forall|s: int|
                    0 <= s < square ==> move_items(#[trigger] self.square_moves[s]) == if self.square_exists[s] {
                        gen_moves(
                            self.square_to_color[s],
                            self.square_to_piece[s],
                            s,
                            self.square_exists@,
                            self.castle_available@,
                        )
                    } else {
                        Seq::empty()
                    },
            decreases 64 - square,
        {
            if self.square_exists[square] {
                let square_move = self.move_gen.gen_move(
                    self.square_to_color[square],
                    self.square_to_piece[square],
                    square as u8,
                    blockers,
                    self.castle_available,
                );
                self.square_moves[square] = square_move;
            } else {
                self.square_moves[square] = move_list_new();
            }
            square += 1;
        }
    }

    /// Empties the board and clears the castling rights and the move cache.
    pub fn blank_game(&mut self)
        requires
            old(self).consistent(),
        ensures
            final(self).wf(),
            final(self).board() == empty_board(),
            forall|s: int| 0 <= s < 64 ==> move_items(#[trigger] final(self).square_moves[s]) == Seq::<
                PieceMove,
            >::empty(),
    {
        let empty = move_list_new();
        self.piece_positions = [[0u64; 6]; 2];
        self.square_to_color = [0u8; 64];
        self.square_to_piece = [0u8; 64];
        self.square_exists = [false; 64];
        self.square_moves = [empty; 64];
        self.castle_available = [false; 4];
        proof {
            assert forall|c: int, p: int, s: int|
                0 <= c < 2 && 0 <= p < 6 && 0 <= s < 64 implies #[trigger] bit(
                self.piece_positions[c][p],
                s,
            ) == (self.square_exists[s] && self.square_to_color[s] == c
                && self.square_to_piece[s] == p) by {
                crate::bits::lemma_bit_zero(s as u64);
            }
            assert(self.board().exists =~= empty_board().exists);
            assert(self.board().color =~= empty_board().color);
            assert(self.board().kind =~= empty_board().kind);
            assert(self.board().castle =~= empty_board().castle);
        }
        self.set_moves();
    }

    /// Puts a piece of colour `color` and kind `piece` on `position`,
    /// replacing whatever stood there. The move cache is not refreshed.
    pub fn create_piece(&mut self, color: u8, piece: u8, position: u8)
        requires
            old(self).consistent(),
            color < 2,
            piece < 6,
            position < 64,
        ensures
            final(self).consistent(),
            final(self).board() == placed(old(self).board(), position as int, color, piece),
            final(self).square_moves == old(self).square_moves,
    {
        self.place(position, color, piece);
    }

    /// Removes the piece on `position`, if any. The move cache is not refreshed.
    pub fn delete_piece(&mut self, position: u8)
        requires
            old(self).consistent(),
            position < 64,
        ensures
            final(self).consistent(),
            final(self).board() == cleared(old(self).board(), position as int),
            final(self).square_moves == old(self).square_moves,
    {
        self.clear_square(position);
    }

    /// Sets up the initial position of chess, with every castling right.
    pub fn starting_game(&mut self)
        requires
            old(self).consistent(),
        ensures
            final(self).wf(),
            final(self).board() == start_board(),
    {
        self.blank_game();
        proof {
            assert(self.board().exists =~= start_files(0).exists);
            assert(self.board().color =~= start_files(0).color);
            assert(self.board().kind =~= start_files(0).kind);
            assert(self.board().castle =~= start_files(0).castle);
        }
        let mut f: u8 = 0;
        while f < 8
            invariant
                f <= 8,
                self.consistent(),
                self.board() == start_files(f as int),
            decreases 8 - f,
        {
            let k = back_rank_piece(f);
            let ghost b0 = self.board();
            self.create_piece(0, 0, f + 8);
            self.create_piece(1, 0, f + 48);
            self.create_piece(0, k, f);
            self.create_piece(1, k, f + 56);
            proof {
                let nb = start_files(f + 1);
                assert(self.board().exists =~= nb.exists);
                assert(self.board().color =~= nb.color);
                assert(self.board().kind =~= nb.kind);
                assert(self.board().castle =~= nb.castle);
            }
            f += 1;
        }
        self.castle_available = [true; 4];
        proof {
            let sb = start_board();
            assert(self.board().exists =~= sb.exists);
            assert(self.board().color =~= sb.color);
            assert(self.board().kind =~= sb.kind);
            assert(self.board().castle =~= sb.castle);
        }
        self.set_moves();
    }

    /// Plays move `piece_move` of `color`'s piece of kind `piece`, refreshes
    /// the move cache, and returns what `unmake_move` needs to take it back.
    pub fn make_move(&mut self, color: u8, piece: u8, piece_move: &PieceMove) -> (r: PrevGameState)
        requires
            old(self).consistent(),
            make_ok(old(self).board(), color, piece, *piece_move),
        ensures
            final(self).wf(),
            final(self).board() == after_make(old(self).board(), color, piece, *piece_move),
            token_of(r, old(self).board(), *piece_move),
            unmake_ok(color, piece, *piece_move, r),
            forall|i: int|
                0 <= i < 4 && #[trigger] final(self).castle_available[i]
                    ==> old(self).castle_available[i],
    {
        let ghost b0 = self.board();
        let start = piece_move.start;
        let end = piece_move.end;
        let prev_castle_available = self.castle_available;
        self.clear_square(start);
        let mut capture_piece: u8 = 0;
        let mut is_capture = false;
        if self.square_exists[end as usize] {
            capture_piece = self.square_to_piece[end as usize];
            is_capture = true;
        }
        self.place(end, color, piece);
        if piece == 5 {
            self.castle_available[(color * 2) as usize] = false;
            self.castle_available[(color * 2 + 1) as usize] = false;
            if piece_move.special == SpecialMove::CastleKingside {
                self.clear_square(end + 1);
                self.place(end - 1, color, 3);
            } else if piece_move.special == SpecialMove::CastleQueenside {
                self.clear_square(end - 2);
                self.place(end + 1, color, 3);
            }
        } else if piece == 3 {
            match start {
                0 => self.castle_available[1] = false,
                7 => self.castle_available[0] = false,
                56 => self.castle_available[3] = false,
                63 => self.castle_available[2] = false,
                _ => (),
            }
        } else if piece == 0 {
            match piece_move.special {
                SpecialMove::KnightPromotion => self.place(end, color, 1),
                SpecialMove::BishopPromotion => self.place(end, color, 2),
                SpecialMove::RookPromotion => self.place(end, color, 3),
                SpecialMove::QueenPromotion => self.place(end, color, 4),
                SpecialMove::EnPassant => {
                    if color == 0 {
                        if end - start == 7 {
                            self.clear_square(start - 1);
                        } else {
                            self.clear_square(start + 1);
                        }
                    } else {
                        if start - end == 7 {
                            self.clear_square(start + 1);
                        } else {
                            self.clear_square(start - 1);
                        }
                    }
                },
                _ => (),
            }
        }
        proof {
            let want = after_make(b0, color, piece, *piece_move);
            assert(self.board().exists =~= want.exists);
            assert(self.board().color =~= want.color);
            assert(self.board().kind =~= want.kind);
            assert(self.board().castle =~= want.castle);
        }
        self.set_moves();
        PrevGameState { capture_piece, is_capture, castle_available: prev_castle_available }
    }

    /// Takes back move `piece_move` of `color`'s piece of kind `piece`, given
    /// the token that `make_move` returned for it, and refreshes the cache.
    pub fn unmake_move(
        &mut self,
        color: u8,
        piece: u8,
        piece_move: &PieceMove,
        prev_game_state: &PrevGameState,
    )
        requires
            old(self).consistent(),
            unmake_ok(color, piece, *piece_move, *prev_game_state),
        ensures
            final(self).wf(),
            final(self).board() == after_unmake(
                old(self).board(),
                color,
                piece,
                *piece_move,
                *prev_game_state,
            ),
    {
        let ghost b0 = self.board();
        let start = piece_move.start;
        let end = piece_move.end;
        let opponent_color = 1 - color;
        self.clear_square(end);
        if prev_game_state.is_capture {
            self.place(end, opponent_color, prev_game_state.capture_piece);
        }
        self.place(start, color, piece);
        self.castle_available = prev_game_state.castle_available;
        if piece == 5 {
            if piece_move.special == SpecialMove::CastleKingside {
                self.clear_square(end - 1);
                self.place(end + 1, color, 3);
            } else if piece_move.special == SpecialMove::CastleQueenside {
                self.clear_square(end + 1);
                self.place(end - 2, color, 3);
            }
        } else if piece == 0 {
            if piece_move.special == SpecialMove::EnPassant {
                if color == 0 {
                    if end - start == 7 {
                        self.place(start - 1, opponent_color, 0);
                    } else {
                        self.place(start + 1, opponent_color, 0);
                    }
                } else {
                    if start - end == 7 {
                        self.place(start + 1, opponent_color, 0);
                    } else {
                        self.place(start - 1, opponent_color, 0);
                    }
                }
            }
        }
        proof {
            let want = after_unmake(b0, color, piece, *piece_move, *prev_game_state);
            assert(self.board().exists =~= want.exists);
            assert(self.board().color =~= want.color);
            assert(self.board().kind =~= want.kind);
            assert(self.board().castle =~= want.castle);
        }
        self.set_moves();
    }

    /// Whether some piece of the opponent has a cached move onto `color`'s king.
    pub fn in_check(&self, color: u8) -> (r: bool)
        requires
            self.wf(),
            color < 2,
        ensures
            r == in_check_spec(self.board(), color),
    {
        let ghost b = self.board();
        let opponent_color = color ^ 1;
        assert(opponent_color == 1 - color) by (bit_vector)
            requires
                color < 2,
                opponent_color == color ^ 1,
        ;
        let king = self.piece_positions[color as usize][5];
        proof {
            assert forall|t: int| 0 <= t < 64 implies bit(king, t) == king_on(b, color, t) by {
                assert(bit(self.piece_positions[color as int][5], t) == (self.square_exists[t]
                    && self.square_to_color[t] == color && self.square_to_piece[t] == 5));
            }
        }
        let mut square: usize = 0;
        while square < 64
            invariant
                self.wf(),
                b == self.board(),
                color < 2,
                opponent_color == 1 - color,
                square <= 64,
                forall|t: int| 0 <= t < 64 ==> bit(king, t) == king_on(b, color, t),
                forall|s: int|
                    0 <= s < square && b.exists[s] && b.color[s] == 1 - color ==> !#[trigger] attacks_king(b, color, s),
            decreases 64 - square,
        {
            if self.square_exists[square] && self.square_to_color[square] == opponent_color {
                let ghost items = move_items(self.square_moves[square as int]);
                proof {
                    assert(b.exists[square as int]);
                    assert(items == board_moves(b, square as int));
                    lemma_gen_shape(
                        b.color[square as int],
                        b.kind[square as int],
                        square as int,
                        b.exists,
                        b.castle,
                    );
                    assert forall|i: int| 0 <= i < items.len() implies #[trigger] items[i].end < 64 by {
                        assert(board_moves(b, square as int)[i] == items[i]);
                    }
                }
                let attacked = piecemoves_to_bitboard(self.square_moves[square]);
                proof {
                    lemma_and_nonzero(king, attacked);
                    if king & attacked != 0 {
                        let t = choose|t: int| 0 <= t < 64 && #[trigger] bit(king, t) && bit(attacked, t);
                        assert(reaches(items, t));
                        let i = choose|i: int| 0 <= i < items.len() && #[trigger] items[i].end == t;
                        assert(king_on(b, color, board_moves(b, square as int)[i].end as int));
                        assert(attacks_king(b, color, square as int));
                    } else if attacks_king(b, color, square as int) {
                        let i = choose|i: int|
                            0 <= i < board_moves(b, square as int).len() && king_on(
                                b,
                                color,
                                #[trigger] board_moves(b, square as int)[i].end as int,
                            );
                        let t = items[i].end as int;
                        assert(reaches(items, t));
                        assert(bit(king, t) && bit(attacked, t));
                    }
                }
                if king & attacked != 0 {
                    return true;
                }
            }
            square += 1;
        }
        false
    }

    /// Whether some piece of `color` has a legal move. The position is left
    /// as it was.
    fn any_legal_move(&mut self, color: u8) -> (r: bool)
        requires
            old(self).wf(),
            color < 2,
        ensures
            final(self).wf(),
            final(self).board() == old(self).board(),
            r == has_legal_move(old(self).board(), color),
    {
        let ghost b = self.board();
        let mut square: usize = 0;
        while square < 64
            invariant
                self.wf(),
                self.board() == b,
                b == old(self).board(),
                color < 2,
                square <= 64,
                forall|s: int, i: int|
                    0 <= s < square && b.exists[s] && b.color[s] == color && 0 <= i < board_moves(
                        b,
                        s,
                    ).len() ==> !legal_spec(b, color, b.kind[s], #[trigger] board_moves(b, s)[i]),
            decreases 64 - square,
        {
            if self.square_exists[square] && self.square_to_color[square] == color {
                let piece = self.square_to_piece[square];
                let ghost moves = board_moves(b, square as int);
                proof {
                    assert(b.exists[square as int]);
                    lemma_gen_shape(color, piece, square as int, b.exists, b.castle);
                }
                let n = move_list_len(&self.square_moves[square]);
                let mut move_idx: usize = 0;
                while move_idx < n
                    invariant
                        self.wf(),
                        self.board() == b,
                        b == old(self).board(),
                        color < 2,
                        square < 64,
                        b.exists[square as int],
                        b.color[square as int] == color,
                        b.kind[square as int] == piece,
                        moves == board_moves(b, square as int),
                        n == moves.len(),
                        move_idx <= n,
                        forall|i: int| 0 <= i < moves.len() ==> move_shape(piece, square as int, #[trigger] moves[i]),
                        forall|i: int|
                            0 <= i < move_idx ==> !legal_spec(b, color, piece, #[trigger] moves[i]),
                    decreases n - move_idx,
                {
                    assert(move_items(self.square_moves[square as int]) == moves);
                    let piece_move = move_list_get(&self.square_moves[square], move_idx);
                    assert(move_shape(piece, square as int, moves[move_idx as int]));
                    if legal_move(self, color, piece, &piece_move) {
                        assert(legal_spec(b, color, b.kind[square as int], board_moves(b, square as int)[move_idx as int]));
                        return true;
                    }
                    move_idx += 1;
                }
                proof {
                    assert forall|i: int|
                        0 <= i < board_moves(b, square as int).len() implies !legal_spec(
                        b,
                        color,
                        b.kind[square as int],
                        #[trigger] board_moves(b, square as int)[i],
                    ) by {
                        assert(moves[i] == board_moves(b, square as int)[i]);
                    }
                }
            }
            square += 1;
        }
        false
    }

    /// Whether `color` is in check and has no legal move.
    pub fn in_checkmate(&mut self, color: u8) -> (r: bool)
        requires
            old(self).wf(),
            color < 2,
        ensures
            final(self).wf(),
            final(self).board() == old(self).board(),
            r == checkmate_spec(old(self).board(), color),
    {
        if !self.in_check(color) {
            return false;
        }
        !self.any_legal_move(color)
    }

    /// Whether `color` is not in check and has no legal move.
    pub fn in_stalemate(&mut self, color: u8) -> (r: bool)
        requires
            old(self).wf(),
            color < 2,
        ensures
            final(self).wf(),
            final(self).board() == old(self).board(),
            r == stalemate_spec(old(self).board(), color),
    {
        if self.in_check(color) {
            return false;
        }
        !self.any_legal_move(color)
    }

    /// Whether `color` is checkmated or stalemated, that is, has no legal move.
    pub fn game_over(&mut self, color: u8) -> (r: bool)
        requires
            old(self).wf(),
            color < 2,
        ensures
            final(self).wf(),
            final(self).board() == old(self).board(),
            r == (checkmate_spec(old(self).board(), color) || stalemate_spec(
                old(self).board(),
                color,
            )),
            r == !has_legal_move(old(self).board(), color),
    {
        self.in_checkmate(color) || self.in_stalemate(color)
    }

    /// Whether `color`'s piece on the piece's start square is of kind `piece`.
    fn holds(&self, color: u8, s: i32, piece: u8) -> (r: bool)
        requires
            self.mirrors_agree(),
        ensures
            r == own_piece(self.board(), color, s as int, piece),
    {
        0 <= s && s < 64 && self.square_exists[s as usize] && self.square_to_color[s as usize]
            == color && self.square_to_piece[s as usize] == piece
    }

    /// Whether `make_move` applies `m` as a move of `color`'s piece of kind
    /// `piece` on this board.
    pub fn move_applies(&self, color: u8, piece: u8, m: &PieceMove) -> (r: bool)
        requires
            self.mirrors_agree(),
        ensures
            r == make_ok(self.board(), color, piece, *m),
    {
        let s = m.start as i32;
        let e = m.end as i32;
        if color >= 2 || piece >= 6 || e >= 64 || !self.holds(color, s, piece) {
            return false;
        }
        if self.square_exists[e as usize] && self.square_to_color[e as usize] == color {
            return false;
        }
        if piece == 5 && m.special == SpecialMove::CastleKingside {
            if !(e == s + 2 && e + 1 < 64 && !self.square_exists[(s + 1) as usize]
                && !self.square_exists[e as usize] && self.holds(color, e + 1, 3)) {
                return false;
            }
        }
        if piece == 5 && m.special == SpecialMove::CastleQueenside {
            if !(e == s - 2 && e >= 2 && !self.square_exists[(s - 1) as usize]
                && !self.square_exists[e as usize] && self.holds(color, e - 2, 3)) {
                return false;
            }
        }
        if piece == 0 && m.special == SpecialMove::EnPassant {
            let x = if color == 0 {
                if e - s == 7 {
                    s - 1
                } else {
                    s + 1
                }
            } else {
                if s - e == 7 {
                    s + 1
                } else {
                    s - 1
                }
            };
            let toward = if color == 0 {
                s / 8 == 4 && (e == s + 7 || e == s + 9)
            } else {
                s / 8 == 3 && (s == e + 7 || s == e + 9)
            };
            let file_step = s % 8 - e % 8 == 1 || e % 8 - s % 8 == 1;
            if !(!self.square_exists[e as usize] && toward && file_step && self.holds(
                1 - color,
                x,
                0,
            )) {
                return false;
            }
        }
        true
    }
}

/// Two well-formed positions on the same board have the same bitboards and
/// the same cached moves on every square.
pub proof fn lemma_same_board(g: Game, h: Game)
    requires
        g.wf(),
        h.wf(),
        g.board() == h.board(),
    ensures
        g.piece_positions == h.piece_positions,
        forall|s: int|
            0 <= s < 64 ==> move_items(#[trigger] g.square_moves[s]) == move_items(
                h.square_moves[s],
            ),
{
    assert forall|c: int, p: int| 0 <= c < 2 && 0 <= p < 6 implies g.piece_positions[c][p]
        == h.piece_positions[c][p] by {
        assert forall|t: int| 0 <= t < 64 implies bit(g.piece_positions[c][p], t) == bit(
            h.piece_positions[c][p],
            t,
        ) by {
            assert(g.square_exists@[t] == h.square_exists@[t]);
            assert(g.square_to_color@[t] == h.square_to_color@[t]);
            assert(g.square_to_piece@[t] == h.square_to_piece@[t]);
        }
        lemma_bits_eq(g.piece_positions[c][p], h.piece_positions[c][p]);
    }
    assert(g.piece_positions[0] =~= h.piece_positions[0]);
    assert(g.piece_positions[1] =~= h.piece_positions[1]);
    assert(g.piece_positions =~= h.piece_positions);
    assert(g.square_exists@ == h.square_exists@);
    assert(g.castle_available@ == h.castle_available@);
    assert forall|s: int| 0 <= s < 64 implies move_items(#[trigger] g.square_moves[s])
        == move_items(h.square_moves[s]) by {
        assert(g.square_exists@[s] == h.square_exists@[s]);
        assert(g.square_to_color@[s] == h.square_to_color@[s]);
        assert(g.square_to_piece@[s] == h.square_to_piece@[s]);
    }
}

/// Playing a legal move and taking it back with its token restores the
/// position: the board, the castling rights, the twelve bitboards, and the
/// cached moves of every square.
pub proof fn lemma_make_unmake(
    g0: Game,
    g1: Game,
    g2: Game,
    color: u8,
    piece: u8,
    m: PieceMove,
    tok: PrevGameState,
)
    requires
        g0.wf(),
        make_ok(g0.board(), color, piece, m),
        g1.wf(),
        g1.board() == after_make(g0.board(), color, piece, m),
        token_of(tok, g0.board(), m),
        g2.wf(),
        g2.board() == after_unmake(g1.board(), color, piece, m, tok),
    ensures
        g2.board() == g0.board(),
        g2.piece_positions == g0.piece_positions,
        forall|s: int|
            0 <= s < 64 ==> move_items(#[trigger] g2.square_moves[s]) == move_items(
                g0.square_moves[s],
            ),
{
    lemma_make_unmake_board(g0.board(), color, piece, m, tok);
    lemma_same_board(g2, g0);
}

/// Each square's mirrors name the bitboard that holds it: an occupied square
/// is set in the bitboard of its colour and kind, and a square set in any
/// bitboard is occupied by a piece of that colour and kind.
pub proof fn lemma_mirrors_agree(g: Game, s: int)
    requires
        g.consistent(),
        0 <= s < 64,
    ensures
        g.square_exists[s] ==> g.square_to_color[s] < 2 && g.square_to_piece[s] < 6 && bit(
            g.piece_positions[g.square_to_color[s] as int][g.square_to_piece[s] as int],
            s,
        ),
        forall|c: int, p: int|
            0 <= c < 2 && 0 <= p < 6 && #[trigger] bit(g.piece_positions[c][p], s) ==> g.square_exists[s]
                && g.square_to_color[s] == c && g.square_to_piece[s] == p,
{
    if g.square_exists[s] {
        assert(g.board().exists[s]);
        let c = g.square_to_color[s] as int;
        let p = g.square_to_piece[s] as int;
        assert(bit(g.piece_positions[c][p], s) == (g.square_exists[s] && g.square_to_color[s] == c
            && g.square_to_piece[s] == p));
    }
}

} // verus!
