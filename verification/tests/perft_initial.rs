use legal_chess::game::Game;
use legal_chess::pieces::piece::PieceEnum;

pub struct Counter(pub u128);

fn perft(
    game: &mut Game,
    depth: u8,
    ep_counter: &mut Counter,
    castle_counter: &mut Counter,
    capture_counter: &mut Counter,
) -> usize {
    if depth == 0 {
        return 1;
    }

    let moves = game.legal_moves();

    if depth == 1 {
        for mv in &moves {
            if game.board().get_square(mv.to).is_some() {
                capture_counter.0 += 1;
            }

            let piece = match game.board().get_square(mv.from) {
                None => panic!(),
                Some(v) => v,
            };

            if piece.piece() == PieceEnum::KING && (mv.from.0 as i8 - mv.to.0 as i8).abs() == 2 {
                castle_counter.0 += 1;
            } else if piece.piece() == PieceEnum::PAWN
                && mv.from.0 != mv.to.0
                && game.board().get_square(mv.to).is_none()
            {
                ep_counter.0 += 1;
            }
        }
        return moves.len();
    }

    let mut nodes: usize = 0;

    for mv in moves {
        game.make_move(mv).unwrap();
        nodes += perft(game, depth - 1, ep_counter, castle_counter, capture_counter);
        game.undo_last_move().unwrap();
    }

    nodes
}

#[test]
fn perft_initial_depth_1() {
    let mut game = Game::new();
    let mut ep_counter = Counter(0);
    let mut castle_counter = Counter(0);
    let mut capture_counter = Counter(0);

    let moves = perft(&mut game, 1, &mut ep_counter, &mut castle_counter, &mut capture_counter);

    assert_eq!(20, moves);
}

#[test]
fn perft_initial_depth_2() {
    let mut game = Game::new();
    let mut ep_counter = Counter(0);
    let mut castle_counter = Counter(0);
    let mut capture_counter = Counter(0);

    let moves = perft(&mut game, 2, &mut ep_counter, &mut castle_counter, &mut capture_counter);

    assert_eq!(400, moves);
}

#[test]
fn perft_initial_depth_3() {
    let mut game = Game::new();
    let mut ep_counter = Counter(0);
    let mut castle_counter = Counter(0);
    let mut capture_counter = Counter(0);

    let moves = perft(&mut game, 3, &mut ep_counter, &mut castle_counter, &mut capture_counter);

    assert_eq!(34, capture_counter.0);
    assert_eq!(8902, moves);
}

#[test]
fn perft_initial_depth_4() {
    let mut game = Game::new();
    let mut ep_counter = Counter(0);
    let mut castle_counter = Counter(0);
    let mut capture_counter = Counter(0);

    let moves = perft(&mut game, 4, &mut ep_counter, &mut castle_counter, &mut capture_counter);

    assert_eq!(1576, capture_counter.0);
    assert_eq!(197281, moves);
}

#[test]
fn perft_initial_depth_5() {
    let mut game = Game::new();
    let mut ep_counter = Counter(0);
    let mut castle_counter = Counter(0);
    let mut capture_counter = Counter(0);

    let moves = perft(&mut game, 5, &mut ep_counter, &mut castle_counter, &mut capture_counter);

    assert_eq!(258, ep_counter.0);
    assert_eq!(82719 - 258, capture_counter.0);
    assert_eq!(4865609, moves);
}
