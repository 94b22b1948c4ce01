use legal_chess::game::Game;
use legal_chess::pieces::piece::PieceEnum;

pub struct Counter(pub u128);

fn perft(
    game: &mut Game,
    depth: u8,
    ep_counter: &mut Counter,
    castle_counter: &mut Counter,
    capture_counter: &mut Counter,
) -> usize {
    if depth == 0 {
        return 1;
    }

    let moves = game.legal_moves();

    if depth == 1 {
        for mv in &moves {
            if game.board().get_square(mv.to).is_some() {
                capture_counter.0 += 1;
            }

            let piece = match game.board().get_square(mv.from) {
                None => panic!(),
                Some(v) => v,
            };

            if piece.piece() == PieceEnum::KING && (mv.from.0 as i8 - mv.to.0 as i8).abs() == 2 {
                castle_counter.0 += 1;
            } else if piece.piece() == PieceEnum::PAWN
                && mv.from.0 != mv.to.0
                && game.board().get_square(mv.to).is_none()
            {
                ep_counter.0 += 1;
            }
        }
        return moves.len();
    }

    let mut nodes: usize = 0;

    for mv in moves {
        game.make_move(mv).unwrap();
        nodes += perft(game, depth - 1, ep_counter, castle_counter, capture_counter);
        game.undo_last_move().unwrap();
    }

    nodes
}

const GAME_ARR: [u8; 73] = [
    2, 1, 0, 0, 0, 14, 11, 12, 0, 1, 0, 11, 0, 13, 0, 0, 0, 1, 3, 0, 0, 0, 11, 0, 0, 4, 0, 0, 1,
    0, 11, 0, 6, 4, 0, 1, 3, 11, 15, 16, 0, 1, 5, 0, 0, 13, 11, 0, 0, 1, 0, 0, 0, 11, 14, 0, 2, 1,
    11, 0, 0, 0, 0, 12, 0, 0, 1, 1, 1, 1, 0, 1, 0,
];

#[test]
fn perft_kiwipete_depth_1() {
    let mut game = Game::from_game_arr(&GAME_ARR).unwrap();
    let mut ep_counter = Counter(0);
    let mut castle_counter = Counter(0);
    let mut capture_counter = Counter(0);

    let moves = perft(&mut game, 1, &mut ep_counter, &mut castle_counter, &mut capture_counter);

    assert_eq!(2, castle_counter.0);
    assert_eq!(8, capture_counter.0);
    assert_eq!(48, moves);
}

#[test]
fn perft_kiwipete_depth_2() {
    let mut game = Game::from_game_arr(&GAME_ARR).unwrap();
    let mut ep_counter = Counter(0);
    let mut castle_counter = Counter(0);
    let mut capture_counter = Counter(0);

    let moves = perft(&mut game, 2, &mut ep_counter, &mut castle_counter, &mut capture_counter);

    assert_eq!(1, ep_counter.0);
    assert_eq!(351 - 1, capture_counter.0);
    assert_eq!(2039, moves);
    assert_eq!(91, castle_counter.0);
}

#[test]
fn perft_kiwipete_depth_3() {
    let mut game = Game::from_game_arr(&GAME_ARR).unwrap();
    let mut ep_counter = Counter(0);
    let mut castle_counter = Counter(0);
    let mut capture_counter = Counter(0);

    let moves = perft(&mut game, 3, &mut ep_counter, &mut castle_counter, &mut capture_counter);

    assert_eq!(45, ep_counter.0);
    assert_eq!(17102 - 45, capture_counter.0);
    assert_eq!(3162, castle_counter.0, "Wrong castle number");
    assert_eq!(97862, moves);
}

#[test]
fn perft_kiwipete_depth_4() {
    let mut game = Game::from_game_arr(&GAME_ARR).unwrap();
    let mut ep_counter = Counter(0);
    let mut castle_counter = Counter(0);
    let mut capture_counter = Counter(0);

    let moves = perft(&mut game, 4, &mut ep_counter, &mut castle_counter, &mut capture_counter);

    assert_eq!(1929, ep_counter.0);
    assert_eq!(128013, castle_counter.0);
    assert_eq!(757163 - 1929, capture_counter.0);
    assert_eq!(4085603, moves);
}
