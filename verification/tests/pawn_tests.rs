use legal_chess::board::Board;
use legal_chess::chessmove::ChessMove;
use legal_chess::color::Color;
use legal_chess::pieces::piece::{Piece, PieceEnum};
use legal_chess::pieces::position::Position;

fn piece(kind: PieceEnum, color: Color, file: u8, rank: u8) -> Piece {
    Piece { kind, color, position: Position(file, rank) }
}

fn set_piece(board: &mut Board, p: Piece) {
    let position = p.position();
    board.set_square(Some(p), position);
}

#[test]
fn pawn_attrs() {
    let p = piece(PieceEnum::PAWN, Color::WHITE, 2, 2);
    assert_eq!(Position(2, 2), p.position());
    assert_eq!(Color::WHITE, p.color());
}

// comparing with assert_eq is not possible because it cares about order
#[test]
fn white_pawn_attacks_middle() {
    let expected = vec![Position(6, 3), Position(4, 3)];
    let p = piece(PieceEnum::PAWN, Color::WHITE, 5, 2);

    let actual = p.attacks(&Board::empty(), Position(0, 0));

    for square in expected {
        assert!(actual.contains(&square));
    }
}

#[test]
fn white_pawn_attacks_file_one() {
    let expected = vec![Position(2, 3)];
    let p = piece(PieceEnum::PAWN, Color::WHITE, 1, 2);
    assert_eq!(expected, p.attacks(&Board::empty(), Position(0, 0)));
}

#[test]
fn white_pawn_attacks_file_eight() {
    let expected = vec![Position(7, 3)];
    let p = piece(PieceEnum::PAWN, Color::WHITE, 8, 2);
    assert_eq!(expected, p.attacks(&Board::empty(), Position(0, 0)));
}

// comparing with assert_eq is not possible because it cares about order
#[test]
fn black_pawn_attacks_middle() {
    let expected = vec![Position(6, 6), Position(4, 6)];
    let p = piece(PieceEnum::PAWN, Color::BLACK, 5, 7);

    let actual = p.attacks(&Board::empty(), Position(0, 0));

    for square in expected {
        assert!(actual.contains(&square));
    }
}

#[test]
fn black_pawn_attacks_file_one() {
    let expected = vec![Position(2, 6)];
    let p = piece(PieceEnum::PAWN, Color::BLACK, 1, 7);
    assert_eq!(expected, p.attacks(&Board::empty(), Position(0, 0)));
}

#[test]
fn black_pawn_attacks_file_eight() {
    let expected = vec![Position(7, 6)];
    let p = piece(PieceEnum::PAWN, Color::BLACK, 8, 7);
    assert_eq!(expected, p.attacks(&Board::empty(), Position(0, 0)));
}

#[test]
fn white_pawn_moves() {
    let mut board = Board::initial();

    set_piece(&mut board, piece(PieceEnum::PAWN, Color::BLACK, 5, 3));

    let white_pawn = piece(PieceEnum::PAWN, Color::WHITE, 4, 2);

    let expected_moves = vec![
        ChessMove { from: white_pawn.position(), to: Position(4, 3), promotion: None },
        ChessMove { from: white_pawn.position(), to: Position(4, 4), promotion: None },
        ChessMove { from: white_pawn.position(), to: Position(5, 3), promotion: None },
    ];
    let moves = white_pawn.moves_ignoring_pins(&board, &None, Position(0, 0));
    assert_eq!(3, moves.len());
    for mv in expected_moves {
        assert!(moves.contains(&mv));
    }
}

#[test]
fn white_pawn_blocked() {
    let mut board = Board::initial();
    let white_pawn = piece(PieceEnum::PAWN, Color::WHITE, 4, 2);
    set_piece(&mut board, piece(PieceEnum::PAWN, Color::WHITE, 4, 3));

    let moves = white_pawn.moves_ignoring_pins(&board, &None, Position(0, 0));
    assert_eq!(0, moves.len());
}

#[test]
fn white_pawn_blocked_2() {
    let mut board = Board::initial();
    let white_pawn = piece(PieceEnum::PAWN, Color::WHITE, 4, 2);
    set_piece(&mut board, piece(PieceEnum::PAWN, Color::WHITE, 4, 4));

    let moves = white_pawn.moves_ignoring_pins(&board, &None, Position(0, 0));
    assert_eq!(1, moves.len());
    assert_eq!(
        ChessMove { from: white_pawn.position(), to: Position(4, 3), promotion: None },
        moves[0]
    );
}

#[test]
fn black_pawn_moves() {
    let mut board = Board::initial();

    set_piece(&mut board, piece(PieceEnum::PAWN, Color::WHITE, 6, 6));

    let black_pawn = piece(PieceEnum::PAWN, Color::BLACK, 5, 7);

    let expected_moves = vec![
        ChessMove { from: black_pawn.position(), to: Position(5, 6), promotion: None },
        ChessMove { from: black_pawn.position(), to: Position(5, 5), promotion: None },
        ChessMove { from: black_pawn.position(), to: Position(6, 6), promotion: None },
    ];
    let moves = black_pawn.moves_ignoring_pins(&board, &None, Position(0, 0));
    assert_eq!(3, moves.len());
    for mv in expected_moves {
        assert!(moves.contains(&mv));
    }
}

#[test]
fn black_pawn_blocked() {
    let mut board = Board::initial();
    let black_pawn = piece(PieceEnum::PAWN, Color::BLACK, 5, 7);
    set_piece(&mut board, piece(PieceEnum::PAWN, Color::BLACK, 5, 6));

    let moves = black_pawn.moves_ignoring_pins(&board, &None, Position(0, 0));
    assert_eq!(0, moves.len());
}

#[test]
fn black_pawn_blocked_2() {
    let mut board = Board::initial();
    let black_pawn = piece(PieceEnum::PAWN, Color::BLACK, 5, 7);
    set_piece(&mut board, piece(PieceEnum::PAWN, Color::BLACK, 5, 5));

    let moves = black_pawn.moves_ignoring_pins(&board, &None, Position(0, 0));
    assert_eq!(1, moves.len());
    assert_eq!(
        ChessMove { from: black_pawn.position(), to: Position(5, 6), promotion: None },
        moves[0]
    );
}

#[test]
fn en_passant() {
    let mut board = Board::empty();
    let black_pawn = piece(PieceEnum::PAWN, Color::BLACK, 4, 4);
    set_piece(&mut board, piece(PieceEnum::PAWN, Color::WHITE, 5, 4));

    let moves = black_pawn.moves_ignoring_pins(&board, &Some(Position(5, 3)), Position(0, 0));
    let expected = vec![
        ChessMove { from: black_pawn.position(), to: Position(4, 3), promotion: None },
        ChessMove { from: black_pawn.position(), to: Position(5, 3), promotion: None },
    ];
    assert_eq!(expected.len(), moves.len());
    for mv in expected {
        assert!(moves.contains(&mv));
    }
}

// 8/8/8/K1Pp3q/8/8/8/8 w - - 0 1 invalid en passant because of discovered check
#[test]
fn pawn_invalid_en_passant_because_of_discovered_check_white() {
    let mut board = Board::empty();

    set_piece(&mut board, piece(PieceEnum::PAWN, Color::WHITE, 3, 5));
    set_piece(&mut board, piece(PieceEnum::KING, Color::WHITE, 1, 5));
    set_piece(&mut board, piece(PieceEnum::QUEEN, Color::BLACK, 8, 5));
    set_piece(&mut board, piece(PieceEnum::PAWN, Color::BLACK, 4, 5));

    let pawn = match board.get_square(Position(3, 5)) {
        None => panic!(),
        Some(p) => *p,
    };
    assert_eq!(1, pawn.moves(&board, Position(1, 5), &Some(Position(4, 6))).len());
}

// 8/8/8/8/Q2Pp2k/8/8/8 w - - 0 1 invalid en passant because of discovered check
#[test]
fn pawn_invalid_en_passant_because_of_discovered_check_black() {
    let mut board = Board::empty();

    set_piece(&mut board, piece(PieceEnum::PAWN, Color::WHITE, 4, 4));
    set_piece(&mut board, piece(PieceEnum::KING, Color::BLACK, 8, 4));
    set_piece(&mut board, piece(PieceEnum::QUEEN, Color::WHITE, 1, 4));
    set_piece(&mut board, piece(PieceEnum::PAWN, Color::BLACK, 5, 4));

    let pawn = match board.get_square(Position(5, 4)) {
        None => panic!(),
        Some(p) => *p,
    };
    assert_eq!(1, pawn.moves(&board, Position(8, 4), &Some(Position(4, 3))).len());
}

#[test]
fn pawn_invalid_en_passant_because_of_discovered_check_black_blocked_queenside() {
    let mut board = Board::empty();

    set_piece(&mut board, piece(PieceEnum::PAWN, Color::WHITE, 4, 4));
    set_piece(&mut board, piece(PieceEnum::KING, Color::BLACK, 8, 4));
    set_piece(&mut board, piece(PieceEnum::QUEEN, Color::WHITE, 1, 4));
    set_piece(&mut board, piece(PieceEnum::PAWN, Color::BLACK, 5, 4));
    set_piece(&mut board, piece(PieceEnum::ROOK, Color::BLACK, 3, 4));

    let pawn = match board.get_square(Position(5, 4)) {
        None => panic!(),
        Some(p) => *p,
    };
    assert_eq!(2, pawn.moves(&board, Position(8, 4), &Some(Position(4, 3))).len());
}

#[test]
fn pawn_invalid_en_passant_because_of_discovered_check_black_blocked_kingside() {
    let mut board = Board::empty();

    set_piece(&mut board, piece(PieceEnum::PAWN, Color::WHITE, 4, 4));
    set_piece(&mut board, piece(PieceEnum::KING, Color::BLACK, 8, 4));
    set_piece(&mut board, piece(PieceEnum::QUEEN, Color::WHITE, 1, 4));
    set_piece(&mut board, piece(PieceEnum::PAWN, Color::BLACK, 5, 4));
    set_piece(&mut board, piece(PieceEnum::BISHOP, Color::WHITE, 6, 4));

    let pawn = match board.get_square(Position(5, 4)) {
        None => panic!(),
        Some(p) => *p,
    };
    assert_eq!(2, pawn.moves(&board, Position(8, 4), &Some(Position(4, 3))).len());
}
