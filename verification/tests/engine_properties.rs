use legal_chess::board::Board;
use legal_chess::chessmove::ChessMove;
use legal_chess::color::Color;
use legal_chess::game::{Game, GameError};
use legal_chess::pieces::piece::{PieceEnum, PromotionPiece};
use legal_chess::pieces::position::Position;
use legal_chess::pieces::relative_position::{get_line_to_other_piece, Direction, RelativePosition};
use legal_chess::pieces::to_piece::{is_valid_square_byte, piece_byte, to_piece};

const KIWIPETE_ARR: [u8; 73] = [
    2, 1, 0, 0, 0, 14, 11, 12, 0, 1, 0, 11, 0, 13, 0, 0, 0, 1, 3, 0, 0, 0, 11, 0, 0, 4, 0, 0, 1,
    0, 11, 0, 6, 4, 0, 1, 3, 11, 15, 16, 0, 1, 5, 0, 0, 13, 11, 0, 0, 1, 0, 0, 0, 11, 14, 0, 2, 1,
    11, 0, 0, 0, 0, 12, 0, 0, 1, 1, 1, 1, 0, 1, 0,
];

fn mv(from: (u8, u8), to: (u8, u8)) -> ChessMove {
    ChessMove { from: Position(from.0, from.1), to: Position(to.0, to.1), promotion: None }
}

#[test]
fn record_round_trip_kiwipete() {
    let game = Game::from_game_arr(&KIWIPETE_ARR).unwrap();
    let encoded = game.to_game_arr();
    assert_eq!(KIWIPETE_ARR.to_vec(), encoded);
}

#[test]
fn record_round_trip_with_en_passant() {
    let mut arr = [0u8; 73];
    arr[4] = 6; // white king a5
    arr[60] = 16; // black king h5
    arr[11] = 1; // white pawn b4
    arr[64] = 5;
    arr[65] = 6;
    arr[66] = 1;
    arr[69] = 1;
    arr[70] = 17;
    arr[71] = 42;
    arr[72] = 1;
    let game = Game::from_game_arr(&arr).unwrap();
    assert_eq!(arr.to_vec(), game.to_game_arr());
}

#[test]
fn malformed_record_wrong_length() {
    let arr = [0u8; 10];
    match Game::from_game_arr(&arr) {
        Err(GameError::MalformedRecord) => {}
        _ => panic!("expected a malformed record"),
    }
}

#[test]
fn malformed_record_bad_square_value() {
    let mut arr = KIWIPETE_ARR;
    arr[10] = 7;
    match Game::from_game_arr(&arr) {
        Err(GameError::MalformedRecord) => {}
        _ => panic!("expected a malformed record"),
    }
}

#[test]
fn missing_king_record() {
    let mut arr = KIWIPETE_ARR;
    arr[32] = 0; // remove the white king
    match Game::from_game_arr(&arr) {
        Err(GameError::MissingKing) => {}
        _ => panic!("expected a missing king"),
    }
}

#[test]
fn illegal_move_is_rejected_and_state_kept() {
    let mut game = Game::new();
    let before = game.to_game_arr();
    match game.make_move(mv((5, 2), (5, 5))) {
        Err(GameError::IllegalMove) => {}
        _ => panic!("expected an illegal move"),
    }
    assert_eq!(before, game.to_game_arr());
}

#[test]
fn empty_history_undo_fails() {
    let mut game = Game::new();
    match game.undo_last_move() {
        Err(GameError::EmptyHistory) => {}
        _ => panic!("expected an empty history"),
    }
}

#[test]
fn double_check_only_king_moves_concrete() {
    // white king a1 under check from rook h1 and queen b2 at once
    let mut arr = [0u8; 73];
    arr[0] = 6; // white king a1
    arr[56] = 12; // black rook h1
    arr[9] = 15; // black queen b2
    arr[63] = 16; // black king h8
    arr[66] = 1;
    arr[67] = 1;
    arr[68] = 1;
    arr[69] = 1;
    arr[71] = 1;
    let game = Game::from_game_arr(&arr).unwrap();
    let moves = game.legal_moves();
    assert!(moves.len() >= 1);
    for m in &moves {
        assert_eq!(Position(1, 1), m.from);
    }
}

#[test]
fn pinned_piece_stays_on_the_pin_line() {
    // white knight d4 pinned by the queen d8 against the king d1: the
    // knight has no move at all, every other white move remains
    let mut arr = [0u8; 73];
    arr[((4 - 1) * 8 + (1 - 1)) as usize] = 6; // white king d1
    arr[((4 - 1) * 8 + (4 - 1)) as usize] = 3; // white knight d4
    arr[((4 - 1) * 8 + (8 - 1)) as usize] = 15; // black queen d8
    arr[((8 - 1) * 8 + (8 - 1)) as usize] = 16; // black king h8
    arr[71] = 1;
    let game = Game::from_game_arr(&arr).unwrap();
    let moves = game.legal_moves();
    for m in &moves {
        assert_ne!(Position(4, 4), m.from);
    }
}

#[test]
fn pinned_queen_may_capture_its_pinner() {
    // a white queen e2 pinned by a rook e8 against the king e1 may only
    // slide along the e-file, up to capturing the rook
    let mut arr = [0u8; 73];
    arr[((5 - 1) * 8 + (1 - 1)) as usize] = 6; // white king e1
    arr[((5 - 1) * 8 + (2 - 1)) as usize] = 5; // white queen e2
    arr[((5 - 1) * 8 + (8 - 1)) as usize] = 12; // black rook e8
    arr[((1 - 1) * 8 + (8 - 1)) as usize] = 16; // black king a8
    arr[71] = 1;
    let game = Game::from_game_arr(&arr).unwrap();
    let moves = game.legal_moves();
    for m in moves.iter().filter(|m| m.from == Position(5, 2)) {
        assert_eq!(5, m.to.0);
    }
    assert!(moves.contains(&mv((5, 2), (5, 8))));
    assert!(!moves.contains(&ChessMove {
        from: Position(5, 2),
        to: Position(4, 2),
        promotion: None
    }));
}

#[test]
fn make_then_undo_restores_every_field() {
    let mut game = Game::from_game_arr(&KIWIPETE_ARR).unwrap();
    let before = game.to_game_arr();
    let moves = game.legal_moves();
    for m in moves {
        game.make_move(m).unwrap();
        game.undo_last_move().unwrap();
        assert_eq!(before, game.to_game_arr());
    }
}

#[test]
fn promotion_expands_into_four_moves() {
    // white pawn a7 ready to promote
    let mut arr = [0u8; 73];
    arr[((1 - 1) * 8 + (7 - 1)) as usize] = 1; // white pawn a7
    arr[((5 - 1) * 8 + (1 - 1)) as usize] = 6; // white king e1
    arr[((8 - 1) * 8 + (5 - 1)) as usize] = 16; // black king h5
    arr[71] = 1;
    let game = Game::from_game_arr(&arr).unwrap();
    let moves = game.legal_moves();
    let promotions = moves
        .iter()
        .filter(|m| m.from == Position(1, 7) && m.to == Position(1, 8))
        .collect::<Vec<_>>();
    assert_eq!(4, promotions.len());
    for kind in [
        PromotionPiece::Rook,
        PromotionPiece::Knight,
        PromotionPiece::Bishop,
        PromotionPiece::Queen,
    ] {
        assert!(promotions.iter().any(|m| m.promotion == Some(kind)));
    }
}

#[test]
fn promotion_substitutes_the_piece() {
    let mut arr = [0u8; 73];
    arr[((1 - 1) * 8 + (7 - 1)) as usize] = 1; // white pawn a7
    arr[((5 - 1) * 8 + (1 - 1)) as usize] = 6; // white king e1
    arr[((8 - 1) * 8 + (5 - 1)) as usize] = 16; // black king h5
    arr[71] = 1;
    let mut game = Game::from_game_arr(&arr).unwrap();
    game.make_move(ChessMove {
        from: Position(1, 7),
        to: Position(1, 8),
        promotion: Some(PromotionPiece::Queen),
    })
    .unwrap();
    let promoted = game.board().get_square(Position(1, 8)).unwrap();
    assert_eq!(PieceEnum::QUEEN, promoted.piece());
    assert_eq!(Color::WHITE, promoted.color());
    game.undo_last_move().unwrap();
    let back = game.board().get_square(Position(1, 7)).unwrap();
    assert_eq!(PieceEnum::PAWN, back.piece());
}

#[test]
fn en_passant_capture_removes_the_passed_pawn() {
    // black pawns c4 and e4 may both capture the white pawn d4 en
    // passant on d3
    let mut arr = [0u8; 73];
    arr[((4 - 1) * 8 + (4 - 1)) as usize] = 1; // white pawn d4
    arr[((3 - 1) * 8 + (4 - 1)) as usize] = 11; // black pawn c4
    arr[((5 - 1) * 8 + (4 - 1)) as usize] = 11; // black pawn e4
    arr[((8 - 1) * 8 + (8 - 1)) as usize] = 16; // black king h8
    arr[((1 - 1) * 8 + (1 - 1)) as usize] = 6; // white king a1
    arr[64] = 4;
    arr[65] = 3;
    arr[66] = 1;
    arr[67] = 1;
    arr[71] = 1;
    arr[72] = 1;
    let mut game = Game::from_game_arr(&arr).unwrap();
    game.make_move(mv((3, 4), (4, 3))).unwrap();
    assert!(game.board().get_square(Position(4, 4)).is_none());
    assert!(game.board().get_square(Position(4, 3)).is_some());
    game.undo_last_move().unwrap();
    assert!(game.board().get_square(Position(4, 4)).is_some());
    assert!(game.board().get_square(Position(3, 4)).is_some());
}

#[test]
fn rook_move_revokes_one_castling_right() {
    let mut arr = [0u8; 73];
    arr[((5 - 1) * 8 + (1 - 1)) as usize] = 6; // white king e1
    arr[((1 - 1) * 8 + (1 - 1)) as usize] = 2; // white rook a1
    arr[((8 - 1) * 8 + (1 - 1)) as usize] = 2; // white rook h1
    arr[((8 - 1) * 8 + (8 - 1)) as usize] = 16; // black king h8
    arr[66] = 1;
    arr[67] = 1;
    arr[71] = 1;
    let mut game = Game::from_game_arr(&arr).unwrap();
    game.make_move(mv((1, 1), (1, 2))).unwrap();
    assert_eq!((true, false), game.castling_rights_white());
}

#[test]
fn full_move_counter_rises_after_black_moves() {
    let mut game = Game::new();
    assert_eq!(1, game.full_moves());
    game.make_move(mv((5, 2), (5, 4))).unwrap();
    assert_eq!(1, game.full_moves());
    game.make_move(mv((5, 7), (5, 5))).unwrap();
    assert_eq!(2, game.full_moves());
}

#[test]
fn current_king_position_follows_the_side_to_move() {
    let mut game = Game::new();
    assert_eq!(Position(5, 1), game.current_king_position());
    game.make_move(mv((5, 2), (5, 4))).unwrap();
    assert_eq!(Position(5, 8), game.current_king_position());
}

#[test]
fn square_value_codec_round_trip() {
    for v in 0..=255u8 {
        let valid = v == 0 || (1 <= v && v <= 6) || (11 <= v && v <= 16);
        assert_eq!(valid, is_valid_square_byte(v));
        if valid {
            let decoded = to_piece(v, Position(3, 4));
            assert_eq!(v, piece_byte(&decoded));
            if let Some(p) = decoded {
                assert_eq!(Position(3, 4), p.position());
            }
        }
    }
}

#[test]
fn line_between_squares() {
    assert_eq!(
        Some(((0, 1), Direction::STRAIGHT(RelativePosition::Up))),
        get_line_to_other_piece(&Position(4, 1), Position(4, 8))
    );
    assert_eq!(
        Some(((-1, -1), Direction::DIAGONAL(RelativePosition::BottomLeft))),
        get_line_to_other_piece(&Position(6, 6), Position(1, 1))
    );
    assert_eq!(None, get_line_to_other_piece(&Position(1, 1), Position(3, 2)));
}

#[test]
fn pieces_of_color_except_king_on_initial_board() {
    let board = Board::initial();
    let white = board.pieces_of_color_except_king(Color::WHITE);
    let black = board.pieces_of_color_except_king(Color::BLACK);
    assert_eq!(15, white.len());
    assert_eq!(15, black.len());
    for p in &white {
        assert_eq!(Color::WHITE, p.color());
        assert!(p.piece() != PieceEnum::KING);
    }
    for p in &black {
        assert_eq!(Color::BLACK, p.color());
        assert!(p.piece() != PieceEnum::KING);
    }
}
