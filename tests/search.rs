use plankton::game::Game;
use plankton::piecemove::PieceMove;
use plankton::search::{
    best_move, eval, max, min, q_max, q_min, root_moves, search_moves, NO_DEADLINE,
};
use plankton::specialmove::SpecialMove;

fn pawns(score: i64) -> f64 {
    score as f64 / 100.0
}

#[test]
fn test_checkmates() {
    //rook back-rank
    let mut game = Game::new();
    game.create_piece(1, 5, 0);
    game.create_piece(0, 5, 16);
    game.create_piece(0, 3, 15);
    game.set_moves();
    let (piece_move, score) = best_move(&mut game, 0, 1, i128::MAX).unwrap();
    assert_eq!(
        (piece_move, pawns(score)),
        (
            PieceMove {
                start: 15,
                end: 7,
                special: SpecialMove::Normal,
            },
            10000.0
        )
    );
}

#[test]
fn test_stalemates() {
    let mut game = Game::new();
    game.create_piece(1, 5, 0);
    game.create_piece(1, 2, 10);
    game.create_piece(0, 4, 11);
    game.create_piece(0, 5, 63);
    game.set_moves();
    let best = best_move(&mut game, 0, 1, i128::MAX).unwrap();
    assert_ne!((best.0.start, best.0.end), (11, 10));
}

#[test]
fn test_material_gain() {
    let mut game = Game::new();
    game.create_piece(1, 5, 0);
    game.create_piece(1, 4, 16);
    game.create_piece(0, 5, 63);
    game.create_piece(0, 1, 4);
    game.set_moves();
    let best = best_move(&mut game, 0, 3, i128::MAX).unwrap();
    assert_eq!((best.0.start, best.0.end), (4, 10));
}

#[test]
fn eval_counts_material_and_mates() {
    let mut game = Game::new();
    game.starting_game();
    assert_eq!(eval(&mut game, 0), 0);

    let mut up = Game::new();
    up.create_piece(0, 5, 4);
    up.create_piece(1, 5, 60);
    up.create_piece(0, 2, 20);
    up.create_piece(0, 0, 12);
    up.create_piece(1, 1, 40);
    up.set_moves();
    assert_eq!(eval(&mut up, 0), 325 + 100 - 300);

    let mut mate = Game::new();
    mate.create_piece(1, 5, 0);
    mate.create_piece(0, 5, 16);
    mate.create_piece(0, 3, 7);
    mate.set_moves();
    assert_eq!(eval(&mut mate, 1), 1000000);

    let mut stale = Game::new();
    stale.create_piece(1, 5, 56);
    stale.create_piece(0, 4, 41);
    stale.create_piece(0, 5, 7);
    stale.set_moves();
    assert_eq!(eval(&mut stale, 1), 0);
}

#[test]
fn search_respects_the_window_and_the_deadline() {
    let mut game = Game::new();
    game.create_piece(1, 5, 0);
    game.create_piece(0, 5, 16);
    game.create_piece(0, 3, 15);
    game.set_moves();
    // white mates at once: the fail-hard search returns its upper bound
    assert_eq!(max(&mut game, -50, 50, 1, i128::MAX), Some(50));
    assert_eq!(max(&mut game, i64::MIN, i64::MAX, 1, i128::MAX), Some(1000000));
    // no time at all: the search gives up
    assert_eq!(max(&mut game, i64::MIN, i64::MAX, 2, -1), None);
    assert!(game.square_exists[15] && !game.square_exists[7]);
}

#[test]
fn quiescence_takes_hanging_pieces() {
    let mut game = Game::new();
    game.create_piece(0, 5, 0);
    game.create_piece(1, 5, 63);
    game.create_piece(0, 3, 24);
    game.create_piece(1, 4, 31);
    game.set_moves();
    // white to move wins the queen for nothing
    assert_eq!(q_max(&mut game, i64::MIN, i64::MAX, i128::MAX), Some(500));
    // black to move keeps the queen and takes the rook
    assert_eq!(q_min(&mut game, i64::MIN, i64::MAX, i128::MAX), Some(-900));
    assert_eq!(min(&mut game, i64::MIN, i64::MAX, 0, i128::MAX), Some(-900));
}

#[test]
fn root_moves_and_group_search() {
    let mut game = Game::new();
    game.starting_game();
    let moves = root_moves(&mut game, 0);
    assert_eq!(moves.len(), 20);
    assert_eq!(moves[0], (1, PieceMove { start: 1, end: 16, special: SpecialMove::Normal }));
    let group: Vec<(u8, PieceMove)> = moves.iter().copied().step_by(4).collect();
    let best = search_moves(&mut game, 0, &group, 1, i128::MAX).unwrap();
    assert!(group.iter().any(|(_, m)| *m == best.0));
    let none = search_moves(&mut game, 0, &Vec::new(), 1, i128::MAX).unwrap();
    assert_eq!(none, (PieceMove::default(), i64::MIN));
}

#[test]
fn deadline_rules() {
    let mut game = Game::new();
    game.starting_game();
    // a negative budget cancels a search that has moves to try
    assert_eq!(min(&mut game, i64::MIN, i64::MAX, 1, -1), None);
    assert_eq!(max(&mut game, i64::MIN, i64::MAX, 1, -5), None);
    // no deadline: the search always finishes
    assert!(max(&mut game, i64::MIN, i64::MAX, 1, NO_DEADLINE).is_some());
    assert!(best_move(&mut game, 1, 1, NO_DEADLINE).is_some());
    // a finished game is scored before any clock reading
    let mut mate = Game::new();
    mate.create_piece(1, 5, 0);
    mate.create_piece(0, 5, 16);
    mate.create_piece(0, 3, 7);
    mate.set_moves();
    assert_eq!(min(&mut mate, i64::MIN, i64::MAX, 3, -1), Some(1000000));
    assert_eq!(q_min(&mut mate, i64::MIN, i64::MAX, -1), Some(1000000));
}

#[test]
fn evaluation_scores_the_side_to_move_mated() {
    let mut mate = Game::new();
    mate.create_piece(0, 5, 0);
    mate.create_piece(1, 5, 16);
    mate.create_piece(1, 3, 7);
    mate.set_moves();
    assert_eq!(eval(&mut mate, 0), -1000000);
}
