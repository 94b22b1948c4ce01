use legal_chess::board::Board;
use legal_chess::chessmove::ChessMove;
use legal_chess::color::Color;
use legal_chess::game::Game;
use legal_chess::pieces::position::Position;

const INITIAL_GAME_ARR: [u8; 73] = [
    2, 1, 0, 0, 0, 0, 11, 12, 3, 1, 0, 0, 0, 0, 11, 13, 4, 1, 0, 0, 0, 0, 11, 14, 5, 1, 0, 0, 0,
    0, 11, 15, 6, 1, 0, 0, 0, 0, 11, 16, 4, 1, 0, 0, 0, 0, 11, 14, 3, 1, 0, 0, 0, 0, 11, 13, 2, 1,
    0, 0, 0, 0, 11, 12, 0, 0, 1, 1, 1, 1, 0, 1, 0,
];

/// A record with the given (value, file, rank) pieces on an otherwise
/// empty board; the decoder demands a king of each side, so every
/// position here names both kings.
fn record(
    pieces: &[(u8, u8, u8)],
    ep: (u8, u8),
    crw: (u8, u8),
    crb: (u8, u8),
    side: u8,
) -> [u8; 73] {
    let mut arr = [0u8; 73];
    for &(code, file, rank) in pieces {
        arr[((file - 1) * 8 + (rank - 1)) as usize] = code;
    }
    arr[64] = ep.0;
    arr[65] = ep.1;
    arr[66] = crw.0;
    arr[67] = crw.1;
    arr[68] = crb.0;
    arr[69] = crb.1;
    arr[71] = 1;
    arr[72] = side;
    arr
}

/// The initial record with some squares overwritten.
fn initial_with(pieces: &[(u8, u8, u8)], side: u8) -> [u8; 73] {
    let mut arr = INITIAL_GAME_ARR;
    for &(code, file, rank) in pieces {
        arr[((file - 1) * 8 + (rank - 1)) as usize] = code;
    }
    arr[72] = side;
    arr
}

fn mv(from: (u8, u8), to: (u8, u8)) -> ChessMove {
    ChessMove { from: Position(from.0, from.1), to: Position(to.0, to.1), promotion: None }
}

#[test]
fn from_game_arr_initial_board() {
    let actual_game = Game::from_game_arr(&INITIAL_GAME_ARR).unwrap();
    let actual_board = actual_game.board();
    let actual_board = actual_board.to_u8_board();

    let expected_board = Board::initial();
    let expected_board = expected_board.to_u8_board();

    for i in 0..64 {
        assert_eq!(expected_board[i], actual_board[i]);
    }
}

#[test]
fn to_game_arr_initial_board() {
    let game = Game::new();
    let game_arr = game.to_game_arr();
    for i in 0..73 {
        assert_eq!(INITIAL_GAME_ARR[i], game_arr[i]);
    }
}

#[test]
fn from_game_arr_initial_en_passant() {
    let actual_game = Game::from_game_arr(&INITIAL_GAME_ARR).unwrap();

    assert_eq!(None, *actual_game.en_passant());
}

#[test]
fn from_game_arr_initial_side_to_move() {
    let actual_game = Game::from_game_arr(&INITIAL_GAME_ARR).unwrap();

    assert_eq!(Color::WHITE, *actual_game.side_to_move());
}

#[test]
fn from_game_arr_initial_castling_rights() {
    let actual_game = Game::from_game_arr(&INITIAL_GAME_ARR).unwrap();

    assert_eq!((true, true), actual_game.castling_rights_white());
    assert_eq!((true, true), actual_game.castling_rights_black());
}

#[test]
fn from_game_arr_initial_half_moves() {
    let actual_game = Game::from_game_arr(&INITIAL_GAME_ARR).unwrap();

    assert_eq!(0, actual_game.half_moves());
}

#[test]
fn from_game_arr_initial_full_moves() {
    let actual_game = Game::from_game_arr(&INITIAL_GAME_ARR).unwrap();

    assert_eq!(1, actual_game.full_moves());
}

#[test]
fn two_attackers_king_can_capture() {
    // white king a1 checked by rook h1 and queen b2; the far black king
    // stands on h8
    let arr = record(
        &[(6, 1, 1), (12, 8, 1), (15, 2, 2), (16, 8, 8)],
        (0, 0),
        (1, 1),
        (1, 1),
        0,
    );
    let game = Game::from_game_arr(&arr).unwrap();

    let moves = game.legal_moves();
    assert_eq!(1, moves.len());
    assert_eq!(mv((1, 1), (2, 2)), moves[0]);
}

#[test]
fn two_attackers_king_cannot_capture() {
    let arr = record(
        &[(6, 1, 1), (12, 8, 1), (15, 2, 2), (13, 4, 3), (16, 8, 8)],
        (0, 0),
        (1, 1),
        (1, 1),
        0,
    );
    let game = Game::from_game_arr(&arr).unwrap();

    let moves = game.legal_moves();
    assert_eq!(0, moves.len());
}

#[test]
fn scholars_mate() {
    let arr = initial_with(&[(5, 6, 7), (4, 3, 4)], 1);
    let game = Game::from_game_arr(&arr).unwrap();

    let moves = game.legal_moves();
    assert_eq!(0, moves.len());
}

#[test]
fn initial_game_setup_legal_moves() {
    let game = Game::new();

    let moves = game.legal_moves();
    assert_eq!(20, moves.len());
}

#[test]
fn king_attacked_by_slider_cannot_move_back() {
    let arr = record(&[(15, 1, 8), (6, 1, 2), (16, 8, 8)], (0, 0), (1, 1), (1, 1), 0);
    let game = Game::from_game_arr(&arr).unwrap();

    let moves = game.legal_moves();
    assert_eq!(3, moves.len());
    assert!(!moves.contains(&mv((1, 2), (1, 1))));
}

#[test]
fn double_en_passant() {
    let arr = record(
        &[(1, 4, 4), (11, 3, 4), (11, 5, 4), (16, 8, 8), (6, 1, 1)],
        (4, 3),
        (1, 1),
        (0, 0),
        1,
    );
    let game = Game::from_game_arr(&arr).unwrap();

    let actual_legal_moves = game.legal_moves();
    let expected_legal_moves = vec![
        mv((3, 4), (3, 3)),
        mv((3, 4), (4, 3)),
        mv((5, 4), (4, 3)),
        mv((5, 4), (5, 3)),
        mv((8, 8), (7, 8)),
        mv((8, 8), (7, 7)),
        mv((8, 8), (8, 7)),
    ];

    assert_eq!(expected_legal_moves.len(), actual_legal_moves.len());
    for m in &expected_legal_moves {
        assert!(actual_legal_moves.contains(m));
    }
}

#[test]
fn king_attacked_by_horse_in_initial_pos() {
    let arr = initial_with(&[(13, 4, 3)], 0);
    let game = Game::from_game_arr(&arr).unwrap();

    let actual_legal_moves = game.legal_moves();
    let expected_legal_moves = vec![mv((3, 2), (4, 3)), mv((5, 2), (4, 3))];
    assert_eq!(expected_legal_moves.len(), actual_legal_moves.len());
    for m in &actual_legal_moves {
        assert!(expected_legal_moves.contains(m));
    }
}

#[test]
fn check_that_can_be_removed_by_en_passant() {
    let arr = record(
        &[(6, 6, 4), (1, 4, 5), (11, 5, 5), (16, 1, 8)],
        (5, 6),
        (1, 1),
        (1, 1),
        0,
    );
    let game = Game::from_game_arr(&arr).unwrap();

    match game.en_passant() {
        None => panic!("there should be en passant"),
        Some(ep) => assert_eq!(Position(5, 6), *ep),
    }

    let actual_legal_moves = game.legal_moves();
    let expected_legal_moves = vec![
        mv((6, 4), (6, 3)),
        mv((6, 4), (5, 3)),
        mv((6, 4), (5, 4)),
        mv((6, 4), (5, 5)),
        mv((6, 4), (6, 5)),
        mv((6, 4), (7, 5)),
        mv((6, 4), (7, 4)),
        mv((6, 4), (7, 3)),
        mv((4, 5), (5, 6)),
    ];
    assert_eq!(expected_legal_moves.len(), actual_legal_moves.len());
    for m in &expected_legal_moves {
        assert!(actual_legal_moves.contains(m));
    }
}

#[test]
fn scholars_mate_with_pawn() {
    let arr = initial_with(&[(1, 6, 7), (4, 3, 4)], 1);
    let game = Game::from_game_arr(&arr).unwrap();

    let moves = game.legal_moves();
    assert_eq!(0, moves.len());
}

#[test]
fn scholars_mate_black() {
    let arr = initial_with(&[(15, 6, 2), (14, 3, 5)], 0);
    let game = Game::from_game_arr(&arr).unwrap();

    let moves = game.legal_moves();
    assert_eq!(0, moves.len());
}

#[test]
fn knight_corner_mate() {
    let arr = record(
        &[(16, 8, 8), (11, 8, 7), (3, 6, 7), (2, 7, 2), (6, 1, 1)],
        (0, 0),
        (1, 1),
        (1, 1),
        1,
    );
    let game = Game::from_game_arr(&arr).unwrap();

    let actual_legal_moves = game.legal_moves();
    assert_eq!(0, actual_legal_moves.len());
}

#[test]
fn black_cannot_castle_because_it_is_in_check() {
    let arr = record(
        &[(12, 1, 8), (12, 8, 8), (16, 5, 8), (4, 2, 5), (6, 1, 1)],
        (0, 0),
        (1, 1),
        (1, 1),
        1,
    );
    let game = Game::from_game_arr(&arr).unwrap();

    let actual_legal_moves = game.legal_moves();
    let expected_legal_moves =
        vec![mv((5, 8), (4, 8)), mv((5, 8), (5, 7)), mv((5, 8), (6, 7)), mv((5, 8), (6, 8))];
    assert_eq!(expected_legal_moves.len(), actual_legal_moves.len());

    for m in &expected_legal_moves {
        assert!(actual_legal_moves.contains(m));
    }
}

#[test]
fn black_can_castle() {
    let arr = record(
        &[(12, 1, 8), (12, 8, 8), (16, 5, 8), (6, 1, 1)],
        (0, 0),
        (1, 1),
        (1, 1),
        1,
    );
    let game = Game::from_game_arr(&arr).unwrap();

    let actual_legal_moves = game.legal_moves();

    let mut expected_legal_moves = vec![
        mv((5, 8), (4, 8)),
        mv((5, 8), (5, 7)),
        mv((5, 8), (6, 7)),
        mv((5, 8), (6, 8)),
        mv((5, 8), (4, 7)),
        mv((5, 8), (3, 8)),
        mv((5, 8), (7, 8)),
    ];
    for i in 1..8 {
        expected_legal_moves.push(mv((1, 8), (1, i)));
        expected_legal_moves.push(mv((8, 8), (8, i)));
    }
    for i in 2..5 {
        expected_legal_moves.push(mv((1, 8), (i, 8)));
    }
    for i in 6..8 {
        expected_legal_moves.push(mv((8, 8), (i, 8)));
    }
    assert_eq!(expected_legal_moves.len(), actual_legal_moves.len());

    for m in &expected_legal_moves {
        assert!(actual_legal_moves.contains(m));
    }
}

#[test]
fn black_can_castle_king_side() {
    let arr = record(
        &[(12, 1, 8), (12, 8, 8), (16, 5, 8), (6, 1, 1)],
        (0, 0),
        (1, 1),
        (1, 0),
        1,
    );
    let game = Game::from_game_arr(&arr).unwrap();

    let actual_legal_moves = game.legal_moves();

    let mut expected_legal_moves = vec![
        mv((5, 8), (4, 8)),
        mv((5, 8), (5, 7)),
        mv((5, 8), (6, 7)),
        mv((5, 8), (6, 8)),
        mv((5, 8), (4, 7)),
        mv((5, 8), (7, 8)),
    ];
    for i in 1..8 {
        expected_legal_moves.push(mv((1, 8), (1, i)));
        expected_legal_moves.push(mv((8, 8), (8, i)));
    }
    for i in 2..5 {
        expected_legal_moves.push(mv((1, 8), (i, 8)));
    }
    for i in 6..8 {
        expected_legal_moves.push(mv((8, 8), (i, 8)));
    }
    assert_eq!(expected_legal_moves.len(), actual_legal_moves.len());

    for m in &expected_legal_moves {
        assert!(actual_legal_moves.contains(m));
    }
}

#[test]
fn white_castling_rights_get_removed() {
    let arr = record(&[(6, 5, 1), (2, 8, 1), (16, 8, 8)], (0, 0), (1, 1), (1, 1), 0);
    let mut game = Game::from_game_arr(&arr).unwrap();

    assert_eq!((true, true), game.castling_rights_white());

    game.make_move(mv((5, 1), (5, 2))).unwrap();

    assert_eq!(Position(5, 2), game.board().get_square(Position(5, 2)).unwrap().position());
    assert_eq!((false, false), game.castling_rights_white());
    assert_eq!(Color::BLACK, *game.side_to_move());
}

#[test]
fn en_passant_is_registered() {
    let mut game = Game::new();

    game.make_move(mv((5, 2), (5, 4))).unwrap();

    match game.en_passant() {
        None => panic!(),
        Some(ep) => assert_eq!(Position(5, 3), *ep),
    }

    assert!(game.board().get_square(Position(5, 2)).is_none());
    assert!(game.board().get_square(Position(5, 4)).is_some());
}

#[test]
fn assert_make_move_moves_piece() {
    let mut game = Game::new();

    game.make_move(mv((5, 2), (5, 4))).unwrap();

    assert!(game.board().get_square(Position(5, 2)).is_none());
    assert!(game.board().get_square(Position(5, 4)).is_some());

    match game.board().get_square(Position(5, 4)) {
        None => panic!(),
        Some(p) => assert_eq!(Position(5, 4), p.position()),
    }
}

#[test]
fn undo_last_move() {
    let mut game = Game::new();

    game.make_move(mv((5, 2), (5, 4))).unwrap();

    assert!(game.board().get_square(Position(5, 2)).is_none());
    assert!(game.board().get_square(Position(5, 4)).is_some());
    assert_eq!(Color::BLACK, *game.side_to_move());
    match game.en_passant() {
        None => panic!(),
        Some(ep) => assert_eq!(Position(5, 3), *ep),
    }

    game.undo_last_move().unwrap();

    assert!(game.board().get_square(Position(5, 2)).is_some());
    assert!(game.board().get_square(Position(5, 4)).is_none());
    assert_eq!(Color::WHITE, *game.side_to_move());
    if let Some(_) = game.en_passant() {
        panic!();
    }
}

#[test]
fn castling_kingside_leads_to_pieces_having_moved() {
    let arr = record(
        &[(12, 1, 8), (12, 8, 8), (16, 5, 8), (6, 1, 1)],
        (0, 0),
        (1, 1),
        (1, 0),
        1,
    );
    let mut game = Game::from_game_arr(&arr).unwrap();

    game.make_move(mv((5, 8), (7, 8))).unwrap();

    assert!(game.board().get_square(Position(7, 8)).is_some());
    assert!(game.board().get_square(Position(6, 8)).is_some());
}

#[test]
fn castling_queenside_leads_to_pieces_having_moved() {
    let arr = record(
        &[(12, 1, 8), (12, 8, 8), (16, 5, 8), (6, 1, 1)],
        (0, 0),
        (1, 1),
        (1, 1),
        1,
    );
    let mut game = Game::from_game_arr(&arr).unwrap();

    game.make_move(mv((5, 8), (3, 8))).unwrap();

    assert!(game.board().get_square(Position(3, 8)).is_some());
    assert!(game.board().get_square(Position(4, 8)).is_some());
    assert!(game.board().get_square(Position(1, 8)).is_none());
    assert!(game.board().get_square(Position(5, 8)).is_none());
}

#[test]
fn cannot_castle_through_check() {
    let game = Game::from_game_arr(&[
        2, 1, 0, 0, 0, 14, 11, 12, 0, 1, 0, 11, 0, 13, 0, 0, 0, 1, 3, 0, 0, 0, 11, 0, 0, 4, 0, 0,
        1, 0, 11, 0, 6, 4, 0, 1, 3, 11, 15, 16, 0, 1, 5, 0, 0, 13, 11, 0, 0, 11, 0, 0, 0, 11, 14,
        0, 2, 1, 0, 0, 0, 0, 0, 12, 0, 0, 1, 1, 1, 1, 0, 1, 0,
    ])
    .unwrap();

    let moves = game.legal_moves();

    assert!(!moves.contains(&mv((5, 1), (7, 1))));
    assert!(moves.contains(&mv((5, 1), (3, 1))));
}

#[test]
fn cannot_castle_through_check_2() {
    let game = Game::from_game_arr(&[
        2, 1, 0, 0, 0, 0, 11, 12, 0, 1, 0, 11, 0, 13, 0, 0, 0, 1, 3, 0, 0, 0, 11, 0, 0, 4, 0, 0,
        1, 0, 11, 0, 6, 14, 0, 1, 3, 11, 15, 16, 0, 1, 5, 0, 0, 13, 11, 0, 0, 11, 0, 0, 0, 11, 14,
        0, 2, 1, 0, 0, 0, 0, 0, 12, 0, 0, 1, 1, 1, 1, 0, 1, 0,
    ])
    .unwrap();

    let moves = game.legal_moves();

    assert!(!moves.contains(&mv((5, 1), (3, 1))));
}

#[test]
fn en_passant_anti_check_and_pawn_capture_anti_check() {
    let game = Game::from_game_arr(&[
        0, 0, 0, 0, 0, 0, 0, 0,
        0, 0, 0, 0, 0, 0, 0, 0,
        0, 0, 0, 0, 16, 0, 0, 0,
        0, 0, 0, 1, 0, 0, 0, 0,
        0, 0, 0, 11, 11, 0, 0, 0,
        0, 0, 0, 0, 0, 0, 0, 0,
        0, 0, 0, 0, 0, 0, 0, 0,
        6, 0, 0, 0, 0, 0, 0, 0,
        4, 3, 0, 0, 0, 0, 0, 1, 14,
    ])
    .unwrap();

    match game.en_passant() {
        None => panic!("there should be en passant"),
        Some(ep) => assert_eq!(Position(4, 3), *ep),
    }

    let moves = game.legal_moves();

    assert!(moves.contains(&mv((5, 4), (4, 3))));
    assert!(moves.contains(&mv((5, 5), (4, 4))));
}
