use crate::game::{
    after_make, board_moves, checkmate_spec, has_legal_move, lemma_make_unmake_board, make_ok,
    own_piece, stalemate_spec, BoardView, Game,
};
use crate::geometry::{lemma_gen_shape, move_shape};
use crate::movelist::{move_list_get, move_list_len};
use crate::moveutil::{legal_move, legal_spec};
use crate::piecemove::PieceMove;
use crate::see::{
    lemma_legal_make_ok, lemma_make_count, piece_count, piece_score,
    piece_value, see, see_spec,
};
use std::time::{Duration, Instant};
use vstd::prelude::*;

verus! {

#[verifier::external_type_specification]
#[verifier::external_body]
pub struct ExInstant(Instant);

/// Relies on `Instant::now`: a reading of the monotonic clock.
#[verifier::external_body]
fn clock_now() -> Instant {
    Instant::now()
}

/// Relies on `Instant::elapsed`: the time since `start`.
#[verifier::external_body]
fn time_since(start: &Instant) -> Duration {
    start.elapsed()
}

/// Relies on `Duration::as_millis`: the whole milliseconds of `d`.
#[verifier::external_body]
fn whole_millis(d: &Duration) -> u128 {
    d.as_millis()
}

/// Whole milliseconds since `start`, saturating at `i128::MAX`.
fn elapsed_ms(start: &Instant) -> (r: i128)
    ensures
        r >= 0,
{
    let ms = whole_millis(&time_since(start));
    if ms > i128::MAX as u128 {
        i128::MAX
    } else {
        ms as i128
    }
}

/// The budget that stands for "no deadline": a search given it is never
/// cancelled.
pub const NO_DEADLINE: i128 = i128::MAX;

/// Whether a search started at `start` with `search_time` milliseconds has
/// run out of time. It never has without a deadline, and always has with a
/// negative budget.
fn out_of_time(start: &Instant, search_time: i128) -> (r: bool)
    ensures
        search_time == NO_DEADLINE ==> !r,
        search_time < 0 ==> r,
{
    search_time != NO_DEADLINE && elapsed_ms(start) > search_time
}

/// What is left of a budget of `budget` milliseconds after `spent`; no
/// deadline stays no deadline.
fn remaining(budget: i128, spent: i128) -> (r: i128)
    requires
        spent >= 0,
    ensures
        r == if budget == NO_DEADLINE {
            NO_DEADLINE as int
        } else if budget - spent >= i128::MIN {
            budget - spent
        } else {
            i128::MIN as int
        },
{
    if budget == NO_DEADLINE {
        NO_DEADLINE
    } else if budget < i128::MIN + spent {
        i128::MIN
    } else {
        budget - spent
    }
}

/// The score of a mate, in hundredths of a pawn.
pub const MATE: i64 = 1000000;

/// The colour whose turn it is in the search: white maximises.
pub open spec fn side(white: bool) -> u8 {
    if white {
        0
    } else {
        1
    }
}

/// White's material minus black's over the squares below `n`, kings
/// excluded, in hundredths of a pawn.
pub open spec fn material(b: BoardView, n: int) -> int
    decreases n,
{
    if n <= 0 {
        0
    } else {
        material(b, n - 1) + if b.exists[n - 1] && b.kind[n - 1] < 5 {
            if b.color[n - 1] == 0 {
                piece_value(b.kind[n - 1])
            } else {
                -piece_value(b.kind[n - 1])
            }
        } else {
            0
        }
    }
}

/// The white-relative score of `color` being checkmated.
pub open spec fn mate_score(color: u8) -> int {
    if color == 0 {
        -MATE as int
    } else {
        MATE as int
    }
}

/// White-relative static evaluation with `color` to move: zero when
/// `color` is stalemated, the mate score when `color` is checkmated (or
/// else its opponent), else the material balance.
pub open spec fn eval_spec(b: BoardView, color: u8) -> int {
    if stalemate_spec(b, color) {
        0
    } else if checkmate_spec(b, color) {
        mate_score(color)
    } else if checkmate_spec(b, (1 - color) as u8) {
        mate_score((1 - color) as u8)
    } else {
        material(b, 64)
    }
}

/// White-relative static evaluation with `color` to move; the position is
/// left as it was. Material only: no piece-square bonuses.
pub fn eval(game: &mut Game, color: u8) -> (r: i64)
    requires
        old(game).wf(),
        color < 2,
    ensures
        final(game).wf(),
        final(game).board() == old(game).board(),
        r == eval_spec(old(game).board(), color),
{
    let ghost b = game.board();
    if game.in_stalemate(color) {
        return 0;
    }
    if game.in_checkmate(color) {
        return if color == 0 {
            -MATE
        } else {
            MATE
        };
    }
    if game.in_checkmate(1 - color) {
        return if color == 0 {
            MATE
        } else {
            -MATE
        };
    }
    let mut score: i64 = 0;
    let mut square: usize = 0;
    while square < 64
        invariant
            game.board() == b,
            square <= 64,
            score == material(b, square as int),
            -1000 * square <= score <= 1000 * square,
        decreases 64 - square,
    {
        if game.square_exists[square] && game.square_to_piece[square] < 5 {
            let value = piece_score(game.square_to_piece[square]);
            if game.square_to_color[square] == 0 {
                score = score + value;
            } else {
                score = score - value;
            }
        }
        square += 1;
    }
    score
}

/// Quiescence value with `white` to move, white-relative and fail-hard in
/// the window `[alpha, beta]`: the stand-pat evaluation, improved by the
/// captures that static exchange does not call losing, searched to the end.
pub open spec fn quiesce_spec(b: BoardView, white: bool, alpha: int, beta: int) -> int
    decreases 2 * piece_count(b) + 1, 0int, 0int,
{
    let c = side(white);
    let stand_pat = eval_spec(b, c);
    if !has_legal_move(b, c) {
        stand_pat
    } else if white {
        if stand_pat >= beta {
            beta
        } else {
            quiesce_fold(
                b,
                white,
                if stand_pat > alpha {
                    stand_pat
                } else {
                    alpha
                },
                beta,
                0,
                0,
            )
        }
    } else {
        if stand_pat <= alpha {
            alpha
        } else {
            quiesce_fold(
                b,
                white,
                alpha,
                if stand_pat < beta {
                    stand_pat
                } else {
                    beta
                },
                0,
                0,
            )
        }
    }
}

/// The capture search of `quiesce_spec` from the `i`-th cached move of
/// square `s` on, in scan order: squares ascending, each square's moves in
/// generation order. (The comparison of piece counts always holds for a
/// capture; it states why the recursion ends.)
pub open spec fn quiesce_fold(b: BoardView, white: bool, alpha: int, beta: int, s: int, i: int) -> int
    decreases 2 * piece_count(b), 64 - s, board_moves(b, s).len() - i,
{
    let c = side(white);
    if s >= 64 || s < 0 {
        if white {
            alpha
        } else {
            beta
        }
    } else if !(b.exists[s] && b.color[s] == c) || i >= board_moves(b, s).len() || i < 0 {
        quiesce_fold(b, white, alpha, beta, s + 1, 0)
    } else {
        let m = board_moves(b, s)[i];
        let b2 = after_make(b, c, b.kind[s], m);
        if !b.exists[m.end as int] || !legal_spec(b, c, b.kind[s], m) || (white && see_spec(b, m)
            < 0) || (!white && see_spec(b, m) > 0) || piece_count(b2) >= piece_count(b) {
            quiesce_fold(b, white, alpha, beta, s, i + 1)
        } else {
            let v = quiesce_spec(b2, !white, alpha, beta);
            if white {
                if v >= beta {
                    beta
                } else {
                    quiesce_fold(
                        b,
                        white,
                        if v > alpha {
                            v
                        } else {
                            alpha
                        },
                        beta,
                        s,
                        i + 1,
                    )
                }
            } else {
                if v <= alpha {
                    alpha
                } else {
                    quiesce_fold(
                        b,
                        white,
                        alpha,
                        if v < beta {
                            v
                        } else {
                            beta
                        },
                        s,
                        i + 1,
                    )
                }
            }
        }
    }
}

/// The `i`-th cached move of a piece of the side to move: it starts on
/// its square, has the generator's shape, and if legal, `make_move`
/// applies it.
proof fn lemma_cached_move(b: BoardView, color: u8, s: int, i: int)
    requires
        crate::game::canonical(b),
        color < 2,
        0 <= s < 64,
        b.exists[s],
        b.color[s] == color,
        0 <= i < board_moves(b, s).len(),
    ensures
        move_shape(b.kind[s], s, board_moves(b, s)[i]),
        own_piece(b, color, board_moves(b, s)[i].start as int, b.kind[s]),
        legal_spec(b, color, b.kind[s], board_moves(b, s)[i]) ==> make_ok(
            b,
            color,
            b.kind[s],
            board_moves(b, s)[i],
        ),
{
    lemma_gen_shape(b.color[s], b.kind[s], s, b.exists, b.castle);
    let m = board_moves(b, s)[i];
    if legal_spec(b, color, b.kind[s], m) {
        lemma_legal_make_ok(b, color, b.kind[s], m);
    }
}

/// Quiescence search with `white` to move (see `quiesce_spec`); `None`
/// when `search_time` milliseconds ran out first. The position is left as
/// it was.
fn quiesce(game: &mut Game, white: bool, alpha: i64, beta: i64, search_time: i128) -> (r: Option<
    i64,
>)
    requires
        old(game).wf(),
    ensures
        final(game).wf(),
        final(game).board() == old(game).board(),
        r is Some ==> r->Some_0 == quiesce_spec(old(game).board(), white, alpha as int, beta as int),
        !has_legal_move(old(game).board(), side(white)) ==> r is Some && r->Some_0 == eval_spec(
            old(game).board(),
            side(white),
        ),
        has_legal_move(old(game).board(), side(white)) && white && eval_spec(old(game).board(), 0)
            >= beta ==> r == Some(beta),
        has_legal_move(old(game).board(), side(white)) && !white && eval_spec(old(game).board(), 1)
            <= alpha ==> r == Some(alpha),
        search_time == NO_DEADLINE ==> r is Some,
    decreases piece_count(old(game).board()),
{
    let ghost b = game.board();
    let ghost want = quiesce_spec(b, white, alpha as int, beta as int);
    let start_time = clock_now();
    let color: u8 = if white {
        0
    } else {
        1
    };
    let stand_pat = eval(game, color);
    if game.game_over(color) {
        return Some(stand_pat);
    }
    let mut lower = alpha;
    let mut upper = beta;
    if white {
        if stand_pat >= upper {
            return Some(upper);
        }
        if stand_pat > lower {
            lower = stand_pat;
        }
    } else {
        if stand_pat <= lower {
            return Some(lower);
        }
        if stand_pat < upper {
            upper = stand_pat;
        }
    }
    let mut square: usize = 0;
    while square < 64
        invariant
            game.wf(),
            game.board() == b,
            b == old(game).board(),
            want == quiesce_spec(b, white, alpha as int, beta as int),
            has_legal_move(b, color),
            white ==> eval_spec(b, 0) < beta,
            !white ==> eval_spec(b, 1) > alpha,
            color == side(white),
            square <= 64,
            want == quiesce_fold(b, white, lower as int, upper as int, square as int, 0),
        decreases 64 - square,
    {
        if game.square_exists[square] && game.square_to_color[square] == color {
            let piece = game.square_to_piece[square];
            let ghost moves = board_moves(b, square as int);
            let n = move_list_len(&game.square_moves[square]);
            let mut move_idx: usize = 0;
            while move_idx < n
                invariant
                    game.wf(),
                    game.board() == b,
                    b == old(game).board(),
                    want == quiesce_spec(b, white, alpha as int, beta as int),
                    has_legal_move(b, color),
                    white ==> eval_spec(b, 0) < beta,
                    !white ==> eval_spec(b, 1) > alpha,
            has_legal_move(b, color),
            white ==> eval_spec(b, 0) < beta,
            !white ==> eval_spec(b, 1) > alpha,
                    color == side(white),
                    square < 64,
                    b.exists[square as int],
                    b.color[square as int] == color,
                    b.kind[square as int] == piece,
                    moves == board_moves(b, square as int),
                    n == moves.len(),
                    move_idx <= n,
                    want == quiesce_fold(
                        b,
                        white,
                        lower as int,
                        upper as int,
                        square as int,
                        move_idx as int,
                    ),
                decreases n - move_idx,
            {
                if out_of_time(&start_time, search_time) {
                    return None;
                }
                let piece_move = move_list_get(&game.square_moves[square], move_idx);
                proof {
                    lemma_cached_move(b, color, square as int, move_idx as int);
                }
                if game.square_exists[piece_move.end as usize] && legal_move(
                    game,
                    color,
                    piece,
                    &piece_move,
                ) {
                    let exchange = see(game, &piece_move);
                    if (white && exchange >= 0) || (!white && exchange <= 0) {
                        proof {
                            lemma_make_count(b, color, piece, piece_move);
                        }
                        let prev_game_state = game.make_move(color, piece, &piece_move);
                        let score = quiesce(
                            game,
                            !white,
                            lower,
                            upper,
                            remaining(search_time, elapsed_ms(&start_time)),
                        );
                        game.unmake_move(color, piece, &piece_move, &prev_game_state);
                        proof {
                            lemma_make_unmake_board(b, color, piece, piece_move, prev_game_state);
                        }
                        match score {
                            None => {
                                return None;
                            },
                            Some(v) => {
                                if white {
                                    if v >= upper {
                                        return Some(upper);
                                    }
                                    if v > lower {
                                        lower = v;
                                    }
                                } else {
                                    if v <= lower {
                                        return Some(lower);
                                    }
                                    if v < upper {
                                        upper = v;
                                    }
                                }
                            },
                        }
                    }
                }
                move_idx += 1;
            }
        }
        square += 1;
    }
    if white {
        Some(lower)
    } else {
        Some(upper)
    }
}

/// Alpha-beta value to `depth` plies with `white` to move, white-relative
/// and fail-hard in the window `[alpha, beta]`: the evaluation when the side
/// to move has no legal move, the quiescence value at depth zero, else the
/// best reply over the legal moves in scan order, cut off at the window.
pub open spec fn search_spec(b: BoardView, white: bool, alpha: int, beta: int, depth: int) -> int
    decreases depth, 2int, 0int, 0int,
{
    let c = side(white);
    if !has_legal_move(b, c) {
        eval_spec(b, c)
    } else if depth <= 0 {
        quiesce_spec(b, white, alpha, beta)
    } else {
        search_fold(b, white, alpha, beta, depth, 0, 0)
    }
}

/// The move loop of `search_spec` from the `i`-th cached move of square
/// `s` on.
pub open spec fn search_fold(
    b: BoardView,
    white: bool,
    alpha: int,
    beta: int,
    depth: int,
    s: int,
    i: int,
) -> int
    decreases depth, 1int, 64 - s, board_moves(b, s).len() - i,
{
    let c = side(white);
    if s >= 64 || s < 0 || depth <= 0 {
        if white {
            alpha
        } else {
            beta
        }
    } else if !(b.exists[s] && b.color[s] == c) || i >= board_moves(b, s).len() || i < 0 {
        search_fold(b, white, alpha, beta, depth, s + 1, 0)
    } else {
        let m = board_moves(b, s)[i];
        if !legal_spec(b, c, b.kind[s], m) {
            search_fold(b, white, alpha, beta, depth, s, i + 1)
        } else {
            let v = search_spec(after_make(b, c, b.kind[s], m), !white, alpha, beta, depth - 1);
            if white {
                if v >= beta {
                    beta
                } else {
                    search_fold(
                        b,
                        white,
                        if v > alpha {
                            v
                        } else {
                            alpha
                        },
                        beta,
                        depth,
                        s,
                        i + 1,
                    )
                }
            } else {
                if v <= alpha {
                    alpha
                } else {
                    search_fold(
                        b,
                        white,
                        alpha,
                        if v < beta {
                            v
                        } else {
                            beta
                        },
                        depth,
                        s,
                        i + 1,
                    )
                }
            }
        }
    }
}

/// Alpha-beta search with `white` to move (see `search_spec`); `None` when
/// `search_time` milliseconds ran out first. The position is left as it was.
fn alpha_beta(
    game: &mut Game,
    white: bool,
    alpha: i64,
    beta: i64,
    depth: u8,
    search_time: i128,
) -> (r: Option<i64>)
    requires
        old(game).wf(),
    ensures
        final(game).wf(),
        final(game).board() == old(game).board(),
        r is Some ==> r->Some_0 == search_spec(
            old(game).board(),
            white,
            alpha as int,
            beta as int,
            depth as int,
        ),
        !has_legal_move(old(game).board(), side(white)) ==> r is Some && r->Some_0 == eval_spec(
            old(game).board(),
            side(white),
        ),
        search_time == NO_DEADLINE ==> r is Some,
        search_time < 0 && depth >= 1 && has_legal_move(old(game).board(), side(white)) ==> r is None,
    decreases depth,
{
    let ghost b = game.board();
    let ghost want = search_spec(b, white, alpha as int, beta as int, depth as int);
    let start_time = clock_now();
    let color: u8 = if white {
        0
    } else {
        1
    };
    if game.game_over(color) {
        return Some(eval(game, color));
    }
    if depth == 0 {
        return quiesce(game, white, alpha, beta, remaining(search_time, elapsed_ms(&start_time)));
    }
    let mut lower = alpha;
    let mut upper = beta;
    let mut square: usize = 0;
    while square < 64
        invariant
            game.wf(),
            game.board() == b,
            b == old(game).board(),
            want == search_spec(b, white, alpha as int, beta as int, depth as int),
            has_legal_move(b, color),
            color == side(white),
            depth > 0,
            square <= 64,
            want == search_fold(b, white, lower as int, upper as int, depth as int, square as int, 0),
            search_time < 0 ==> forall|q: int|
                0 <= q < square && b.exists[q] && b.color[q] == color ==> #[trigger] board_moves(
                    b,
                    q,
                ).len() == 0,
        decreases 64 - square,
    {
        if game.square_exists[square] && game.square_to_color[square] == color {
            let piece = game.square_to_piece[square];
            let ghost moves = board_moves(b, square as int);
            let n = move_list_len(&game.square_moves[square]);
            let mut move_idx: usize = 0;
            while move_idx < n
                invariant
                    game.wf(),
                    game.board() == b,
                    b == old(game).board(),
                    want == search_spec(b, white, alpha as int, beta as int, depth as int),
                    has_legal_move(b, color),
            has_legal_move(b, color),
                    color == side(white),
                    depth > 0,
                    square < 64,
                    b.exists[square as int],
                    b.color[square as int] == color,
                    b.kind[square as int] == piece,
                    moves == board_moves(b, square as int),
                    n == moves.len(),
                    move_idx <= n,
                    search_time < 0 ==> move_idx == 0,
                    search_time < 0 ==> forall|q: int|
                        0 <= q < square && b.exists[q] && b.color[q] == color ==> #[trigger] board_moves(
                            b,
                            q,
                        ).len() == 0,
                    want == search_fold(
                        b,
                        white,
                        lower as int,
                        upper as int,
                        depth as int,
                        square as int,
                        move_idx as int,
                    ),
                decreases n - move_idx,
            {
                if out_of_time(&start_time, search_time) {
                    return None;
                }
                let piece_move = move_list_get(&game.square_moves[square], move_idx);
                proof {
                    lemma_cached_move(b, color, square as int, move_idx as int);
                }
                if legal_move(game, color, piece, &piece_move) {
                    let prev_game_state = game.make_move(color, piece, &piece_move);
                    let score = alpha_beta(
                        game,
                        !white,
                        lower,
                        upper,
                        depth - 1,
                        remaining(search_time, elapsed_ms(&start_time)),
                    );
                    game.unmake_move(color, piece, &piece_move, &prev_game_state);
                    proof {
                        lemma_make_unmake_board(b, color, piece, piece_move, prev_game_state);
                    }
                    match score {
                        None => {
                            return None;
                        },
                        Some(v) => {
                            if white {
                                if v >= upper {
                                    return Some(upper);
                                }
                                if v > lower {
                                    lower = v;
                                }
                            } else {
                                if v <= lower {
                                    return Some(lower);
                                }
                                if v < upper {
                                    upper = v;
                                }
                            }
                        },
                    }
                }
                move_idx += 1;
            }
        }
        square += 1;
    }
    proof {
        if search_time < 0 && has_legal_move(b, color) {
            let (q, i) = choose|q: int, i: int|
                0 <= q < 64 && b.exists[q] && b.color[q] == color && 0 <= i < board_moves(b, q).len()
                    && legal_spec(b, color, b.kind[q], #[trigger] board_moves(b, q)[i]);
            assert(board_moves(b, q).len() == 0);
        }
    }
    if white {
        Some(lower)
    } else {
        Some(upper)
    }
}

/// White's alpha-beta search to `depth` plies in the window `[alpha, beta]`.
pub fn max(game: &mut Game, alpha: i64, beta: i64, depth: u8, search_time: i128) -> (r: Option<
    i64,
>)
    requires
        old(game).wf(),
    ensures
        final(game).wf(),
        final(game).board() == old(game).board(),
        r is Some ==> r->Some_0 == search_spec(
            old(game).board(),
            true,
            alpha as int,
            beta as int,
            depth as int,
        ),
        !has_legal_move(old(game).board(), 0) ==> r is Some && r->Some_0 == eval_spec(
            old(game).board(),
            0,
        ),
        search_time == NO_DEADLINE ==> r is Some,
        search_time < 0 && depth >= 1 && has_legal_move(old(game).board(), 0) ==> r is None,
{
    alpha_beta(game, true, alpha, beta, depth, search_time)
}

/// Black's alpha-beta search to `depth` plies in the window `[alpha, beta]`.
pub fn min(game: &mut Game, alpha: i64, beta: i64, depth: u8, search_time: i128) -> (r: Option<
    i64,
>)
    requires
        old(game).wf(),
    ensures
        final(game).wf(),
        final(game).board() == old(game).board(),
        r is Some ==> r->Some_0 == search_spec(
            old(game).board(),
            false,
            alpha as int,
            beta as int,
            depth as int,
        ),
        !has_legal_move(old(game).board(), 1) ==> r is Some && r->Some_0 == eval_spec(
            old(game).board(),
            1,
        ),
        search_time == NO_DEADLINE ==> r is Some,
        search_time < 0 && depth >= 1 && has_legal_move(old(game).board(), 1) ==> r is None,
{
    alpha_beta(game, false, alpha, beta, depth, search_time)
}

/// White's quiescence search in the window `[alpha, beta]`.
pub fn q_max(game: &mut Game, alpha: i64, beta: i64, search_time: i128) -> (r: Option<i64>)
    requires
        old(game).wf(),
    ensures
        final(game).wf(),
        final(game).board() == old(game).board(),
        r is Some ==> r->Some_0 == quiesce_spec(old(game).board(), true, alpha as int, beta as int),
        !has_legal_move(old(game).board(), 0) ==> r is Some && r->Some_0 == eval_spec(
            old(game).board(),
            0,
        ),
        has_legal_move(old(game).board(), 0) && eval_spec(old(game).board(), 0) >= beta ==> r
            == Some(beta),
        search_time == NO_DEADLINE ==> r is Some,
{
    quiesce(game, true, alpha, beta, search_time)
}

/// Black's quiescence search in the window `[alpha, beta]`.
pub fn q_min(game: &mut Game, alpha: i64, beta: i64, search_time: i128) -> (r: Option<i64>)
    requires
        old(game).wf(),
    ensures
        final(game).wf(),
        final(game).board() == old(game).board(),
        r is Some ==> r->Some_0 == quiesce_spec(
            old(game).board(),
            false,
            alpha as int,
            beta as int,
        ),
        !has_legal_move(old(game).board(), 1) ==> r is Some && r->Some_0 == eval_spec(
            old(game).board(),
            1,
        ),
        has_legal_move(old(game).board(), 1) && eval_spec(old(game).board(), 1) <= alpha ==> r
            == Some(alpha),
        search_time == NO_DEADLINE ==> r is Some,
{
    quiesce(game, false, alpha, beta, search_time)
}

/// The legal moves of `color` from the `i`-th cached move of square `s`
/// on, in scan order, each with the kind of the piece that plays it.
pub open spec fn legal_from(b: BoardView, color: u8, s: int, i: int) -> Seq<(u8, PieceMove)>
    decreases 64 - s, board_moves(b, s).len() - i,
{
    if s >= 64 || s < 0 {
        Seq::empty()
    } else if !(b.exists[s] && b.color[s] == color) || i >= board_moves(b, s).len() || i < 0 {
        legal_from(b, color, s + 1, 0)
    } else {
        let m = board_moves(b, s)[i];
        let rest = legal_from(b, color, s, i + 1);
        if legal_spec(b, color, b.kind[s], m) {
            seq![(b.kind[s], m)] + rest
        } else {
            rest
        }
    }
}

/// The legal moves of `color`, in scan order.
pub open spec fn legal_list(b: BoardView, color: u8) -> Seq<(u8, PieceMove)> {
    legal_from(b, color, 0, 0)
}

proof fn lemma_legal_from_applies(b: BoardView, color: u8, s: int, i: int)
    requires
        crate::game::canonical(b),
        color < 2,
    ensures
        forall|k: int|
            0 <= k < legal_from(b, color, s, i).len() ==> make_ok(
                b,
                color,
                (#[trigger] legal_from(b, color, s, i)[k]).0,
                legal_from(b, color, s, i)[k].1,
            ),
    decreases 64 - s, board_moves(b, s).len() - i,
{
    if s >= 64 || s < 0 {
    } else if !(b.exists[s] && b.color[s] == color) || i >= board_moves(b, s).len() || i < 0 {
        lemma_legal_from_applies(b, color, s + 1, 0);
        assert(legal_from(b, color, s, i) == legal_from(b, color, s + 1, 0));
    } else {
        lemma_legal_from_applies(b, color, s, i + 1);
        lemma_cached_move(b, color, s, i);
        let m = board_moves(b, s)[i];
        let l = legal_from(b, color, s, i);
        let rest = legal_from(b, color, s, i + 1);
        if legal_spec(b, color, b.kind[s], m) {
            assert(l == seq![(b.kind[s], m)] + rest);
            assert forall|k: int| 0 <= k < l.len() implies make_ok(
                b,
                color,
                (#[trigger] l[k]).0,
                l[k].1,
            ) by {
                if k > 0 {
                    assert(l[k] == rest[k - 1]);
                } else {
                    assert(l[k] == (b.kind[s], m));
                }
            }
        } else {
            assert(l == rest);
        }
    }
}

/// The legal moves of `color`, square by square, each square's moves in
/// generation order, with the kind of the piece that plays each. The
/// position is left as it was.
pub fn root_moves(game: &mut Game, color: u8) -> (r: Vec<(u8, PieceMove)>)
    requires
        old(game).wf(),
        color < 2,
    ensures
        final(game).wf(),
        final(game).board() == old(game).board(),
        r@ == legal_list(old(game).board(), color),
{
    let ghost b = game.board();
    let mut moves: Vec<(u8, PieceMove)> = Vec::new();
    let mut square: usize = 0;
    while square < 64
        invariant
            game.wf(),
            game.board() == b,
            b == old(game).board(),
            color < 2,
            square <= 64,
            moves@ + legal_from(b, color, square as int, 0) == legal_list(b, color),
        decreases 64 - square,
    {
        if game.square_exists[square] && game.square_to_color[square] == color {
            let piece = game.square_to_piece[square];
            let ghost list = board_moves(b, square as int);
            let n = move_list_len(&game.square_moves[square]);
            let mut move_idx: usize = 0;
            while move_idx < n
                invariant
                    game.wf(),
                    game.board() == b,
                    b == old(game).board(),
                    color < 2,
                    square < 64,
                    b.exists[square as int],
                    b.color[square as int] == color,
                    b.kind[square as int] == piece,
                    list == board_moves(b, square as int),
                    n == list.len(),
                    move_idx <= n,
                    moves@ + legal_from(b, color, square as int, move_idx as int) == legal_list(
                        b,
                        color,
                    ),
                decreases n - move_idx,
            {
                let piece_move = move_list_get(&game.square_moves[square], move_idx);
                proof {
                    lemma_cached_move(b, color, square as int, move_idx as int);
                }
                let ghost before = moves@;
                if legal_move(game, color, piece, &piece_move) {
                    moves.push((piece, piece_move));
                    proof {
                        let rest = legal_from(b, color, square as int, move_idx + 1);
                        assert(before + (seq![(piece, piece_move)] + rest) =~= moves@ + rest);
                    }
                }
                move_idx += 1;
            }
        }
        square += 1;
    }
    proof {
        assert(moves@ + legal_from(b, color, 64, 0) =~= moves@);
    }
    moves
}

/// The score that `color`'s search starts from: minus infinity for white,
/// plus infinity for black.
pub open spec fn worst_score(color: u8) -> int {
    if color == 0 {
        i64::MIN as int
    } else {
        i64::MAX as int
    }
}

/// The root search over `moves` from the `k`-th on, `best` being the best
/// move and score so far: each move is answered by the opponent's search to
/// `depth - 1` plies in the window that `best` leaves, and replaces `best`
/// when it scores strictly better for `color`.
pub open spec fn root_fold(
    b: BoardView,
    color: u8,
    moves: Seq<(u8, PieceMove)>,
    depth: int,
    k: int,
    best: (PieceMove, int),
) -> (PieceMove, int)
    decreases moves.len() - k,
{
    if k >= moves.len() || k < 0 {
        best
    } else {
        let piece = moves[k].0;
        let m = moves[k].1;
        let b2 = after_make(b, color, piece, m);
        let v = if color == 0 {
            search_spec(b2, false, best.1, i64::MAX as int, depth - 1)
        } else {
            search_spec(b2, true, i64::MIN as int, best.1, depth - 1)
        };
        let next = if (color == 0 && v > best.1) || (color != 0 && v < best.1) {
            (m, v)
        } else {
            best
        };
        root_fold(b, color, moves, depth, k + 1, next)
    }
}

/// The best of `moves` for `color` by a search to `depth` plies, with its
/// score (see `root_fold`); `None` when `search_time` milliseconds ran out
/// first. The position is left as it was.
pub fn search_moves(
    game: &mut Game,
    color: u8,
    moves: &Vec<(u8, PieceMove)>,
    depth: u8,
    search_time: i128,
) -> (r: Option<(PieceMove, i64)>)
    requires
        old(game).wf(),
        color < 2,
        depth >= 1,
        forall|k: int|
            0 <= k < moves@.len() ==> make_ok(
                old(game).board(),
                color,
                (#[trigger] moves@[k]).0,
                moves@[k].1,
            ),
    ensures
        final(game).wf(),
        final(game).board() == old(game).board(),
        r is Some ==> (r->Some_0.0, r->Some_0.1 as int) == root_fold(
            old(game).board(),
            color,
            moves@,
            depth as int,
            0,
            (PieceMove::empty_spec(), worst_score(color)),
        ),
        moves@.len() == 0 ==> r is Some && r->Some_0.0 == PieceMove::empty_spec() && r->Some_0.1
            == worst_score(color),
        search_time == NO_DEADLINE ==> r is Some,
{
    let ghost b = game.board();
    let start_time = clock_now();
    let mut best_move = PieceMove::empty();
    let mut best_score: i64 = if color == 0 {
        i64::MIN
    } else {
        i64::MAX
    };
    let mut k: usize = 0;
    while k < moves.len()
        invariant
            game.wf(),
            game.board() == b,
            b == old(game).board(),
            color < 2,
            depth >= 1,
            k <= moves@.len(),
            forall|j: int|
                0 <= j < moves@.len() ==> make_ok(b, color, (#[trigger] moves@[j]).0, moves@[j].1),
            root_fold(
                b,
                color,
                moves@,
                depth as int,
                0,
                (PieceMove::empty_spec(), worst_score(color)),
            ) == root_fold(b, color, moves@, depth as int, k as int, (best_move, best_score as int)),
        decreases moves.len() - k,
    {
        let (piece, piece_move) = moves[k];
        assert(make_ok(b, color, moves@[k as int].0, moves@[k as int].1));
        let prev_game_state = game.make_move(color, piece, &piece_move);
        let new_time = remaining(search_time, elapsed_ms(&start_time));
        let score = if color == 0 {
            min(game, best_score, i64::MAX, depth - 1, new_time)
        } else {
            max(game, i64::MIN, best_score, depth - 1, new_time)
        };
        game.unmake_move(color, piece, &piece_move, &prev_game_state);
        proof {
            lemma_make_unmake_board(b, color, piece, piece_move, prev_game_state);
        }
        match score {
            None => {
                return None;
            },
            Some(v) => {
                if (color == 0 && v > best_score) || (color != 0 && v < best_score) {
                    best_move = piece_move;
                    best_score = v;
                }
            },
        }
        k += 1;
    }
    Some((best_move, best_score))
}

/// The best move of `color` by a search to `depth` plies over all its legal
/// moves, with its white-relative score in hundredths of a pawn; `None`
/// when `search_time` milliseconds ran out first. The position is left as
/// it was.
pub fn best_move(game: &mut Game, color: u8, depth: u8, search_time: i128) -> (r: Option<
    (PieceMove, i64),
>)
    requires
        old(game).wf(),
        color < 2,
        depth >= 1,
    ensures
        final(game).wf(),
        final(game).board() == old(game).board(),
        r is Some ==> (r->Some_0.0, r->Some_0.1 as int) == root_fold(
            old(game).board(),
            color,
            legal_list(old(game).board(), color),
            depth as int,
            0,
            (PieceMove::empty_spec(), worst_score(color)),
        ),
        search_time == NO_DEADLINE ==> r is Some,
{
    let start_time = clock_now();
    let moves = root_moves(game, color);
    if out_of_time(&start_time, search_time) {
        return None;
    }
    proof {
        lemma_legal_from_applies(game.board(), color, 0, 0);
    }
    search_moves(game, color, &moves, depth, remaining(search_time, elapsed_ms(&start_time)))
}

} // verus!
