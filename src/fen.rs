use crate::game::{placed, BoardView, Game};
use vstd::prelude::*;

verus! {

/// Where a left-to-right reading of a FEN record stands: the board read so
/// far, the rank and file of the next square of the placement field, the
/// index of the field being read, whether a gap of spaces was just crossed,
/// and whether any field has begun.
pub struct FenState {
    pub board: BoardView,
    pub rank: int,
    pub file: int,
    pub field: int,
    pub gap: bool,
    pub started: bool,
}

/// The kind named by a lower-case piece letter, if it names one.
pub open spec fn letter_kind(c: u8) -> Option<u8> {
    if c == 112 {
        Some(0u8)
    } else if c == 110 {
        Some(1u8)
    } else if c == 98 {
        Some(2u8)
    } else if c == 114 {
        Some(3u8)
    } else if c == 113 {
        Some(4u8)
    } else if c == 107 {
        Some(5u8)
    } else {
        None
    }
}

/// Colour and kind named by a piece letter: upper case is white.
pub open spec fn piece_of(c: u8) -> Option<(u8, u8)> {
    if 65 <= c <= 90 {
        match letter_kind((c + 32) as u8) {
            Some(k) => Some((0u8, k)),
            None => None,
        }
    } else {
        match letter_kind(c) {
            Some(k) => Some((1u8, k)),
            None => None,
        }
    }
}

/// The castling right that a letter of the castling field grants.
pub open spec fn castle_index(c: u8) -> int {
    if c == 75 {
        0
    } else if c == 81 {
        1
    } else if c == 107 {
        2
    } else if c == 113 {
        3
    } else {
        -1
    }
}

/// Reads one character of the placement field.
pub open spec fn place_step(st: FenState, c: u8) -> FenState {
    if c == 47 {
        FenState { rank: if st.rank >= 0 { st.rank - 1 } else { -1 }, file: 0, ..st }
    } else if 49 <= c <= 56 {
        FenState { file: if st.file + (c - 48) <= 8 { st.file + (c - 48) } else { 8 }, ..st }
    } else {
        match piece_of(c) {
            Some(pk) => if 0 <= st.rank < 8 && 0 <= st.file < 8 {
                FenState {
                    board: placed(st.board, st.rank * 8 + st.file, pk.0, pk.1),
                    file: st.file + 1,
                    ..st
                }
            } else {
                FenState { file: if st.file < 8 { st.file + 1 } else { 8 }, ..st }
            },
            None => st,
        }
    }
}

/// Reads one character of a FEN record: fields are separated by runs of
/// spaces; the first places pieces, the third grants castling rights.
pub open spec fn fen_step(st: FenState, c: u8) -> FenState {
    if c == 32 {
        FenState { gap: st.started, ..st }
    } else {
        let field = if st.gap {
            st.field + 1
        } else {
            st.field
        };
        let st1 = FenState { field, gap: false, started: true, ..st };
        if field == 0 {
            place_step(st1, c)
        } else if field == 2 && castle_index(c) >= 0 {
            FenState {
                board: BoardView { castle: st1.board.castle.update(castle_index(c), true), ..st1.board },
                ..st1
            }
        } else {
            st1
        }
    }
}

/// The state after reading the first `n` characters of `fen` onto `start`.
pub open spec fn fen_read(start: BoardView, fen: Seq<u8>, n: int) -> FenState
    decreases n,
{
    if n <= 0 {
        FenState { board: start, rank: 7, file: 0, field: 0, gap: false, started: false }
    } else {
        fen_step(fen_read(start, fen, n - 1), fen[n - 1])
    }
}

/// The board and castling rights that a FEN record describes, read onto an
/// empty board.
pub open spec fn fen_board(fen: Seq<u8>) -> BoardView {
    fen_read(crate::game::empty_board(), fen, fen.len() as int).board
}

fn piece_from_letter(c: u8) -> (r: Option<(u8, u8)>)
    ensures
        r == piece_of(c),
{
    let (color, lower) = if 65 <= c && c <= 90 {
        (0u8, c + 32)
    } else {
        (1u8, c)
    };
    let kind = match lower {
        112 => 0u8,
        110 => 1,
        98 => 2,
        114 => 3,
        113 => 4,
        107 => 5,
        _ => {
            return None;
        },
    };
    Some((color, kind))
}

/// Sets `game` to the position of the FEN record `fen`: its piece placement
/// and castling rights. Characters that fit no field are passed over.
pub fn parse_fen(game: &mut Game, fen: &[u8])
    requires
        old(game).consistent(),
    ensures
        final(game).wf(),
        final(game).board() == fen_board(fen@),
{
    game.blank_game();
    let ghost start = game.board();
    let mut rank: i64 = 7;
    let mut file: i64 = 0;
    let mut field: u64 = 0;
    let mut gap = false;
    let mut started = false;
    let mut i: usize = 0;
    while i < fen.len()
        invariant
            i <= fen.len(),
            game.consistent(),
            start == crate::game::empty_board(),
            -1 <= rank <= 7,
            0 <= file <= 8,
            field <= i,
            ({
                let st = fen_read(start, fen@, i as int);
                &&& st.board == game.board()
                &&& st.rank == rank
                &&& st.file == file
                &&& st.field == field
                &&& st.gap == gap
                &&& st.started == started
            }),
        decreases fen.len() - i,
    {
        let c = fen[i];
        if c == 32 {
            gap = started;
        } else {
            if gap {
                field = field + 1;
            }
            gap = false;
            started = true;
            if field == 0 {
                if c == 47 {
                    if rank >= 0 {
                        rank = rank - 1;
                    }
                    file = 0;
                } else if 49 <= c && c <= 56 {
                    file = file + (c - 48) as i64;
                    if file > 8 {
                        file = 8;
                    }
                } else {
                    match piece_from_letter(c) {
                        Some((color, kind)) => {
                            if 0 <= rank && rank < 8 && 0 <= file && file < 8 {
                                game.create_piece(color, kind, (rank * 8 + file) as u8);
                            }
                            if file < 8 {
                                file = file + 1;
                            }
                        },
                        None => {},
                    }
                }
            } else if field == 2 {
                if c == 75 {
                    game.castle_available[0] = true;
                } else if c == 81 {
                    game.castle_available[1] = true;
                } else if c == 107 {
                    game.castle_available[2] = true;
                } else if c == 113 {
                    game.castle_available[3] = true;
                }
            }
        }
        proof {
            let st = fen_read(start, fen@, i + 1);
            assert(fen@.subrange(0, i + 1)[i as int] == c);
            assert(st.board.exists =~= game.board().exists);
            assert(st.board.color =~= game.board().color);
            assert(st.board.kind =~= game.board().kind);
            assert(st.board.castle =~= game.board().castle);
        }
        i += 1;
    }
    game.set_moves();
}

} // verus!
