use plankton::fen::parse_fen;
use plankton::game::Game;
use plankton::moveutil::{bitboard_to_piecemoves, legal_move, piecemoves_to_bitboard};
use plankton::piecemove::PieceMove;
use plankton::see::{piece_score, see};
use plankton::specialmove::SpecialMove;
use plankton::uci::{decode_move, encode_move, time_budget};

fn plain(start: u8, end: u8) -> PieceMove {
    PieceMove {
        start,
        end,
        special: SpecialMove::Normal,
    }
}

fn has_move(game: &Game, square: usize, end: u8) -> bool {
    game.square_moves[square].iter().any(|m| m.end == end)
}

#[test]
fn test_check_functions() {
    let mut game = Game::new();
    game.create_piece(1, 5, 0);
    game.create_piece(0, 5, 16);
    game.create_piece(0, 3, 7);
    game.set_moves();
    assert!(game.in_check(1));
    assert!(game.in_checkmate(1));
}

#[test]
fn test_movegen() {
    let mut game = Game::new();
    game.create_piece(0, 0, 8);
    game.set_moves();
    assert_eq!(
        game.square_moves[8][0..2],
        [
            PieceMove {
                start: 8,
                end: 16,
                special: SpecialMove::Normal,
            },
            PieceMove {
                start: 8,
                end: 24,
                special: SpecialMove::Normal,
            }
        ][..]
    )
}

#[test]
fn test_see() {
    let mut game = Game::new();
    game.create_piece(0, 5, 0);
    game.create_piece(1, 5, 2);
    game.create_piece(1, 0, 55);
    game.create_piece(0, 3, 46);
    game.create_piece(0, 0, 37);
    game.set_moves();
    let score = see(
        &mut game,
        &PieceMove {
            start: 55,
            end: 46,
            special: SpecialMove::Normal,
        },
    ) as f64
        / 100.0;
    assert!((score - -4.0).abs() < 0.5);
}

#[test]
fn see_exact_value_of_rook_for_pawn_exchange() {
    let mut game = Game::new();
    game.create_piece(0, 5, 0);
    game.create_piece(1, 5, 2);
    game.create_piece(1, 0, 55);
    game.create_piece(0, 3, 46);
    game.create_piece(0, 0, 37);
    game.set_moves();
    // black takes the rook (-500), white's pawn retakes (+100)
    assert_eq!(see(&mut game, &plain(55, 46)), -400);
    assert!(game.square_exists[55] && game.square_exists[46] && game.square_exists[37]);
    assert_eq!(game.square_to_piece[46], 3);
}

#[test]
fn see_is_zero_for_quiet_moves_from_the_start() {
    let mut game = Game::new();
    game.starting_game();
    for square in 0..64usize {
        if !game.square_exists[square] {
            continue;
        }
        let color = game.square_to_color[square];
        let piece = game.square_to_piece[square];
        let moves: Vec<PieceMove> = game.square_moves[square].iter().copied().collect();
        for m in moves {
            if game.square_exists[m.end as usize] || !legal_move(&mut game, color, piece, &m) {
                continue;
            }
            assert_eq!(see(&mut game, &m), 0, "{:?}", m);
        }
    }
}

#[test]
fn piece_scores_in_hundredths() {
    assert_eq!(piece_score(0), 100);
    assert_eq!(piece_score(1), 300);
    assert_eq!(piece_score(2), 325);
    assert_eq!(piece_score(3), 500);
    assert_eq!(piece_score(4), 900);
    assert_eq!(piece_score(5), 1000000);
}

#[test]
fn make_unmake_restores_the_start_position() {
    let mut game = Game::new();
    game.starting_game();
    let before = game.clone();
    let m = plain(12, 28);
    let token = game.make_move(0, 0, &m);
    assert!(game.square_exists[28] && !game.square_exists[12]);
    game.unmake_move(0, 0, &m, &token);
    assert_eq!(game.piece_positions, before.piece_positions);
    assert_eq!(game.square_to_color, before.square_to_color);
    assert_eq!(game.square_to_piece, before.square_to_piece);
    assert_eq!(game.square_exists, before.square_exists);
    assert_eq!(game.castle_available, before.castle_available);
    for s in 0..64 {
        if before.square_exists[s] {
            assert_eq!(game.square_moves[s][..], before.square_moves[s][..]);
        }
    }
}

#[test]
fn play_and_take_back_a_sequence() {
    let mut game = Game::new();
    game.starting_game();
    let before = game.clone();
    let plies = [
        (0u8, 0u8, plain(12, 28)),
        (1, 0, plain(51, 35)),
        (0, 0, plain(28, 35)),
        (1, 4, plain(59, 35)),
        (0, 1, plain(6, 21)),
    ];
    let mut tokens = Vec::new();
    for (color, piece, m) in plies.iter() {
        tokens.push(game.make_move(*color, *piece, m));
    }
    assert_eq!(game.square_to_piece[35], 4);
    assert_eq!(game.square_to_color[35], 1);
    for ((color, piece, m), token) in plies.iter().zip(tokens.iter()).rev() {
        game.unmake_move(*color, *piece, m, token);
    }
    assert_eq!(game.piece_positions, before.piece_positions);
    assert_eq!(game.square_to_color, before.square_to_color);
    assert_eq!(game.square_to_piece, before.square_to_piece);
    assert_eq!(game.square_exists, before.square_exists);
    assert_eq!(game.castle_available, before.castle_available);
}

#[test]
fn mirrors_match_bitboards_after_moves() {
    let mut game = Game::new();
    game.starting_game();
    game.make_move(0, 0, &plain(12, 28));
    game.make_move(1, 0, &plain(51, 35));
    game.make_move(0, 0, &plain(28, 35));
    for s in 0..64usize {
        for c in 0..2usize {
            for p in 0..6usize {
                let set = (game.piece_positions[c][p] >> s) & 1 == 1;
                let mirrored = game.square_exists[s]
                    && game.square_to_color[s] as usize == c
                    && game.square_to_piece[s] as usize == p;
                assert_eq!(set, mirrored);
            }
        }
    }
}

#[test]
fn checkmate_and_stalemate_detection() {
    let mut game = Game::new();
    game.create_piece(1, 5, 56);
    game.create_piece(0, 4, 41);
    game.create_piece(0, 5, 7);
    game.set_moves();
    assert!(!game.in_check(1));
    assert!(game.in_stalemate(1));
    assert!(!game.in_checkmate(1));
    assert!(game.game_over(1));
    assert!(!game.game_over(0));

    let mut mate = Game::new();
    mate.create_piece(1, 5, 0);
    mate.create_piece(0, 5, 16);
    mate.create_piece(0, 3, 7);
    mate.set_moves();
    assert!(mate.in_checkmate(1));
    assert!(!mate.in_stalemate(1));
    assert!(mate.game_over(1));
}

#[test]
fn castling_rights_only_decrease() {
    let mut game = Game::new();
    game.starting_game();
    game.make_move(0, 0, &plain(12, 28));
    assert_eq!(game.castle_available, [true; 4]);
    game.make_move(0, 5, &plain(4, 12));
    assert_eq!(game.castle_available, [false, false, true, true]);
    game.make_move(1, 0, &plain(55, 39));
    game.make_move(1, 3, &plain(63, 55));
    assert_eq!(game.castle_available, [false, false, false, true]);
    game.make_move(0, 5, &plain(12, 4));
    assert_eq!(game.castle_available, [false, false, false, true]);
}

#[test]
fn pawn_on_a_file_does_not_capture_onto_h_file() {
    let mut game = Game::new();
    game.create_piece(0, 0, 8);
    game.create_piece(1, 1, 15);
    game.create_piece(1, 1, 17);
    game.set_moves();
    assert!(!has_move(&game, 8, 15));
    assert!(has_move(&game, 8, 17));
    let mut black = Game::new();
    black.create_piece(1, 0, 55);
    black.create_piece(0, 1, 48);
    black.set_moves();
    assert!(!has_move(&black, 55, 48));
}

#[test]
fn double_push_blocked_by_intermediate_piece() {
    let mut game = Game::new();
    game.create_piece(0, 0, 12);
    game.create_piece(1, 1, 20);
    game.set_moves();
    assert_eq!(game.square_moves[12].len(), 0);

    let mut far = Game::new();
    far.create_piece(0, 0, 12);
    far.create_piece(1, 1, 28);
    far.set_moves();
    assert_eq!(far.square_moves[12][..], [plain(12, 20)][..]);
}

#[test]
fn en_passant_removes_and_restores_the_adjacent_pawn() {
    let mut game = Game::new();
    game.create_piece(0, 5, 4);
    game.create_piece(1, 5, 60);
    game.create_piece(0, 0, 36);
    game.create_piece(1, 0, 35);
    game.set_moves();
    let m = PieceMove {
        start: 36,
        end: 43,
        special: SpecialMove::EnPassant,
    };
    assert!(legal_move(&mut game, 0, 0, &m));
    let token = game.make_move(0, 0, &m);
    assert!(!game.square_exists[35]);
    assert!(game.square_exists[43]);
    assert_eq!(game.piece_positions[1][0], 0);
    game.unmake_move(0, 0, &m, &token);
    assert!(game.square_exists[35] && game.square_to_color[35] == 1);
    assert!(game.square_exists[36] && !game.square_exists[43]);
    assert_eq!(game.piece_positions[1][0], 1u64 << 35);

    let mut east = Game::new();
    east.create_piece(0, 5, 4);
    east.create_piece(1, 5, 60);
    east.create_piece(0, 0, 36);
    east.create_piece(1, 0, 37);
    east.set_moves();
    let m = PieceMove {
        start: 36,
        end: 45,
        special: SpecialMove::EnPassant,
    };
    east.make_move(0, 0, &m);
    assert!(!east.square_exists[37]);
    assert_eq!(east.square_to_piece[45], 0);
}

#[test]
fn castling_through_check_is_rejected() {
    let mut game = Game::new();
    game.create_piece(0, 5, 4);
    game.create_piece(0, 3, 7);
    game.create_piece(1, 5, 56);
    game.create_piece(1, 3, 61);
    game.castle_available = [true, false, false, false];
    game.set_moves();
    let castle = PieceMove {
        start: 4,
        end: 6,
        special: SpecialMove::CastleKingside,
    };
    assert!(has_move(&game, 4, 6));
    assert!(!legal_move(&mut game, 0, 5, &castle));
}

#[test]
fn castling_with_attacked_rook_is_allowed() {
    let mut game = Game::new();
    game.create_piece(0, 5, 4);
    game.create_piece(0, 3, 7);
    game.create_piece(1, 5, 56);
    game.create_piece(1, 3, 63);
    game.castle_available = [true, false, false, false];
    game.set_moves();
    let castle = PieceMove {
        start: 4,
        end: 6,
        special: SpecialMove::CastleKingside,
    };
    assert!(legal_move(&mut game, 0, 5, &castle));
    game.make_move(0, 5, &castle);
    assert_eq!(game.square_to_piece[6], 5);
    assert_eq!(game.square_to_piece[5], 3);
    assert!(!game.square_exists[7] && !game.square_exists[4]);
}

#[test]
fn queenside_castle_moves_the_rook() {
    let mut game = Game::new();
    game.create_piece(1, 5, 60);
    game.create_piece(1, 3, 56);
    game.create_piece(0, 5, 4);
    game.castle_available = [false, false, false, true];
    game.set_moves();
    let castle = PieceMove {
        start: 60,
        end: 58,
        special: SpecialMove::CastleQueenside,
    };
    assert!(has_move(&game, 60, 58));
    assert!(legal_move(&mut game, 1, 5, &castle));
    let token = game.make_move(1, 5, &castle);
    assert_eq!(game.square_to_piece[59], 3);
    assert!(!game.square_exists[56]);
    game.unmake_move(1, 5, &castle, &token);
    assert_eq!(game.square_to_piece[56], 3);
    assert_eq!(game.square_to_piece[60], 5);
    assert_eq!(game.castle_available, [false, false, false, true]);
}

#[test]
fn promotion_gives_four_records_per_destination() {
    let mut game = Game::new();
    game.create_piece(0, 0, 52);
    game.create_piece(1, 1, 59);
    game.set_moves();
    let moves = game.square_moves[52];
    assert_eq!(moves.len(), 8);
    let tags = [
        SpecialMove::KnightPromotion,
        SpecialMove::BishopPromotion,
        SpecialMove::RookPromotion,
        SpecialMove::QueenPromotion,
    ];
    for (k, tag) in tags.iter().enumerate() {
        assert_eq!(moves[k], PieceMove { start: 52, end: 60, special: *tag });
        assert_eq!(moves[4 + k], PieceMove { start: 52, end: 59, special: *tag });
    }
    let token = game.make_move(0, 0, &moves[7]);
    assert_eq!(game.square_to_piece[59], 4);
    assert_eq!(game.piece_positions[0][4], 1u64 << 59);
    game.unmake_move(0, 0, &PieceMove { start: 52, end: 59, special: SpecialMove::QueenPromotion }, &token);
    assert_eq!(game.square_to_piece[52], 0);
    assert_eq!(game.square_to_piece[59], 1);
    assert_eq!(game.piece_positions[0][4], 0);
}

#[test]
fn knight_and_slider_moves() {
    let mut game = Game::new();
    game.create_piece(0, 1, 0);
    game.create_piece(0, 3, 27);
    game.create_piece(1, 0, 43);
    game.create_piece(0, 2, 63);
    game.set_moves();
    let knight: Vec<u8> = game.square_moves[0].iter().map(|m| m.end).collect();
    assert_eq!(knight, vec![10, 17]);
    let rook: Vec<u8> = game.square_moves[27].iter().map(|m| m.end).collect();
    assert_eq!(rook, vec![3, 11, 19, 24, 25, 26, 28, 29, 30, 31, 35, 43]);
    let bishop: Vec<u8> = game.square_moves[63].iter().map(|m| m.end).collect();
    assert_eq!(bishop, vec![27, 36, 45, 54]);
}

#[test]
fn starting_position_has_twenty_legal_moves() {
    let mut game = Game::new();
    game.starting_game();
    let mut count = 0;
    for square in 0..64usize {
        if game.square_exists[square] && game.square_to_color[square] == 0 {
            let piece = game.square_to_piece[square];
            let moves: Vec<PieceMove> = game.square_moves[square].iter().copied().collect();
            for m in moves {
                if legal_move(&mut game, 0, piece, &m) {
                    count += 1;
                }
            }
        }
    }
    assert_eq!(count, 20);
    assert!(!game.in_check(0));
    assert!(!game.game_over(0));
}

#[test]
fn blank_and_delete() {
    let mut game = Game::new();
    game.starting_game();
    game.delete_piece(4);
    assert!(!game.square_exists[4]);
    assert_eq!(game.piece_positions[0][5], 0);
    game.blank_game();
    assert_eq!(game.piece_positions, [[0; 6]; 2]);
    assert_eq!(game.castle_available, [false; 4]);
}

#[test]
fn fen_start_position_matches_starting_game() {
    let mut expected = Game::new();
    expected.starting_game();
    let mut game = Game::new();
    parse_fen(
        &mut game,
        "rnbqkbnr/pppppppp/8/8/8/8/PPPPPPPP/RNBQKBNR w KQkq - 0 1 ".as_bytes(),
    );
    assert_eq!(game.piece_positions, expected.piece_positions);
    assert_eq!(game.square_to_piece, expected.square_to_piece);
    assert_eq!(game.square_to_color, expected.square_to_color);
    assert_eq!(game.castle_available, [true; 4]);
}

#[test]
fn fen_partial_castling_and_sparse_board() {
    let mut game = Game::new();
    parse_fen(&mut game, "4k3/8/8/8/8/8/8/R3K2R w Kq - 0 1".as_bytes());
    assert_eq!(game.castle_available, [true, false, false, true]);
    assert!(game.square_exists[60] && game.square_to_color[60] == 1);
    assert_eq!(game.square_to_piece[60], 5);
    assert!(game.square_exists[0] && game.square_exists[4] && game.square_exists[7]);
    assert_eq!(game.piece_positions[0][3], 1 | (1 << 7));
    parse_fen(&mut game, "8/8/8/8/8/8/8/8 b - - 0 1".as_bytes());
    assert_eq!(game.castle_available, [false; 4]);
    assert_eq!(game.piece_positions, [[0; 6]; 2]);
}

#[test]
fn bitboard_conversions() {
    let moves = bitboard_to_piecemoves(0b101 | (1 << 63), 9);
    assert_eq!(moves[..], [plain(9, 0), plain(9, 2), plain(9, 63)][..]);
    assert_eq!(piecemoves_to_bitboard(moves), 0b101 | (1 << 63));
    assert_eq!(bitboard_to_piecemoves(0, 9).len(), 0);
    assert_eq!(bitboard_to_piecemoves(u64::MAX, 9).len(), 28);
}

#[test]
fn en_passant_needs_the_fifth_rank_and_an_adjacent_pawn() {
    let mut game = Game::new();
    game.create_piece(0, 5, 4);
    game.create_piece(1, 5, 60);
    game.create_piece(0, 0, 36);
    game.create_piece(1, 0, 35);
    game.create_piece(0, 0, 28);
    game.create_piece(1, 0, 27);
    game.create_piece(0, 0, 39);
    game.set_moves();
    let ep = |start: u8, end: u8| PieceMove {
        start,
        end,
        special: SpecialMove::EnPassant,
    };
    assert!(game.move_applies(0, 0, &ep(36, 43)));
    // a pawn on the fourth rank cannot take en passant
    assert!(!game.move_applies(0, 0, &ep(28, 35)));
    // nothing stands beside the pawn on the side it moves to
    assert!(!game.move_applies(0, 0, &ep(36, 45)));
    // h-file pawn: the square up-left wraps to the a-file on a wrong diagonal
    assert!(!game.move_applies(0, 0, &ep(39, 48)));
    assert!(!game.move_applies(0, 0, &ep(36, 44)));
}

#[test]
fn long_algebraic_moves() {
    let mut game = Game::new();
    game.starting_game();
    assert_eq!(decode_move(&game, b"e2e4"), Some((0, plain(12, 28))));
    assert_eq!(decode_move(&game, b"g1f3"), Some((1, plain(6, 21))));
    assert_eq!(decode_move(&game, b"e2"), None);
    assert_eq!(decode_move(&game, b"i2e4"), None);
    assert_eq!(
        decode_move(&game, b"e1g1"),
        Some((5, PieceMove { start: 4, end: 6, special: SpecialMove::CastleKingside }))
    );
    assert_eq!(
        decode_move(&game, b"e8c8"),
        Some((5, PieceMove { start: 60, end: 58, special: SpecialMove::CastleQueenside }))
    );
    let mut ep = Game::new();
    ep.create_piece(0, 0, 36);
    ep.create_piece(1, 0, 35);
    ep.set_moves();
    assert_eq!(
        decode_move(&ep, b"e5d6"),
        Some((0, PieceMove { start: 36, end: 43, special: SpecialMove::EnPassant }))
    );
    let mut promo = Game::new();
    promo.create_piece(0, 0, 52);
    promo.set_moves();
    assert_eq!(
        decode_move(&promo, b"e7e8n"),
        Some((0, PieceMove { start: 52, end: 60, special: SpecialMove::KnightPromotion }))
    );
    assert_eq!(encode_move(&plain(12, 28)), b"e2e4".to_vec());
    assert_eq!(
        encode_move(&PieceMove { start: 52, end: 60, special: SpecialMove::QueenPromotion }),
        b"e7e8q".to_vec()
    );
}

#[test]
fn go_time_budget() {
    assert_eq!(time_budget(Some(2000), Some(350000)), 3000);
    assert_eq!(time_budget(None, Some(35000)), 2000);
    assert_eq!(time_budget(None, Some(3500000)), 15000);
    assert_eq!(time_budget(None, None), 1000);
    assert_eq!(time_budget(Some(i128::MAX), None), 15000);
}

#[test]
fn make_unmake_restores_every_cached_list() {
    let mut game = Game::new();
    game.starting_game();
    let before = game.clone();
    let m = plain(6, 21);
    let token = game.make_move(0, 1, &m);
    assert!(game.square_moves[6].is_empty());
    assert!(!game.square_moves[21].is_empty());
    game.unmake_move(0, 1, &m, &token);
    for s in 0..64 {
        assert_eq!(game.square_moves[s][..], before.square_moves[s][..]);
    }
    assert!(game.square_moves[21].is_empty());
}

#[test]
fn new_and_blank_games_have_empty_caches() {
    let game = Game::new();
    assert!(game.square_moves.iter().all(|l| l.is_empty()));
    let mut started = Game::new();
    started.starting_game();
    started.blank_game();
    assert!(started.square_moves.iter().all(|l| l.is_empty()));
}
