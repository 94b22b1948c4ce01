use legal_chess::board::Board;
use legal_chess::chessmove::ChessMove;
use legal_chess::color::Color;
use legal_chess::pieces::piece::{Piece, PieceEnum};
use legal_chess::pieces::position::Position;

fn piece(kind: PieceEnum, color: Color, file: u8, rank: u8) -> Piece {
    Piece { kind, color, position: Position(file, rank) }
}

fn set_piece(board: &mut Board, p: Piece) {
    let position = p.position();
    board.set_square(Some(p), position);
}

#[test]
fn rook_bottom_left_empty_board() {
    let mut empty_board = Board::empty();

    let position = Position(1, 1);
    set_piece(&mut empty_board, piece(PieceEnum::ROOK, Color::WHITE, 1, 1));

    let rook = match empty_board.get_square(position) {
        None => panic!(),
        Some(b) => *b,
    };

    let attacked_positions = rook.attacks(&empty_board, Position(0, 0));

    let mut expected_attacked_positions = vec![];
    for count_file in 2..9 {
        expected_attacked_positions.push(Position(count_file, rook.position().1));
    }
    for count_rank in 2..9 {
        expected_attacked_positions.push(Position(rook.position().0, count_rank));
    }

    assert_eq!(expected_attacked_positions, attacked_positions);
}

#[test]
fn rook_middle_with_obstacles() {
    let mut empty_board = Board::empty();

    let position = Position(5, 4);
    set_piece(&mut empty_board, piece(PieceEnum::ROOK, Color::WHITE, 5, 4));
    set_piece(&mut empty_board, piece(PieceEnum::PAWN, Color::WHITE, 5, 5));
    set_piece(&mut empty_board, piece(PieceEnum::ROOK, Color::BLACK, 8, 4));
    set_piece(&mut empty_board, piece(PieceEnum::BISHOP, Color::BLACK, 5, 2));
    set_piece(&mut empty_board, piece(PieceEnum::KNIGHT, Color::WHITE, 3, 4));

    let rook = match empty_board.get_square(position) {
        None => panic!(),
        Some(b) => *b,
    };

    let attacked_positions = rook.attacks(&empty_board, Position(0, 0));
    let mut expected_attacked_positions = vec![];
    // horizontal right
    expected_attacked_positions.push(Position(6, 4));
    expected_attacked_positions.push(Position(7, 4));
    expected_attacked_positions.push(Position(8, 4));
    // horizontal left
    expected_attacked_positions.push(Position(4, 4));
    expected_attacked_positions.push(Position(3, 4));
    // vertical top
    expected_attacked_positions.push(Position(5, 5));
    // vertical bottom
    expected_attacked_positions.push(Position(5, 3));
    expected_attacked_positions.push(Position(5, 2));

    assert_eq!(expected_attacked_positions, attacked_positions);
}

#[test]
fn queen_bottom_left() {
    let mut empty_board = Board::empty();

    let position = Position(1, 1);
    set_piece(&mut empty_board, piece(PieceEnum::QUEEN, Color::WHITE, 1, 1));

    let queen = match empty_board.get_square(position) {
        None => panic!(),
        Some(b) => *b,
    };

    let attacked_positions = queen.attacks(&empty_board, Position(0, 0));

    let mut expected_attacked_positions = vec![];
    for count_file in 2..9 {
        expected_attacked_positions.push(Position(count_file, queen.position().1));
    }
    for count_rank in 2..9 {
        expected_attacked_positions.push(Position(queen.position().0, count_rank));
    }
    for count_diagonal in 2..9 {
        expected_attacked_positions.push(Position(count_diagonal, count_diagonal));
    }

    assert_eq!(expected_attacked_positions, attacked_positions);
}

#[test]
fn bishop_bottom_left_empty_board() {
    let mut empty_board = Board::empty();

    let position = Position(1, 1);
    set_piece(&mut empty_board, piece(PieceEnum::BISHOP, Color::WHITE, 1, 1));

    let bishop = match empty_board.get_square(position) {
        None => panic!(),
        Some(b) => *b,
    };

    let attacked_positions = bishop.attacks(&empty_board, Position(0, 0));

    let mut expected_attacked_positions = vec![];
    for count in 2..9 {
        expected_attacked_positions.push(Position(count, count));
    }

    assert_eq!(expected_attacked_positions, attacked_positions);
}

#[test]
fn bishop_bottom_left_middle_obstacle_attacks() {
    let mut empty_board = Board::empty();

    let bishop_position = Position(1, 1);
    set_piece(&mut empty_board, piece(PieceEnum::BISHOP, Color::WHITE, 1, 1));
    set_piece(&mut empty_board, piece(PieceEnum::PAWN, Color::WHITE, 5, 5));

    let bishop = match empty_board.get_square(bishop_position) {
        None => panic!(),
        Some(b) => *b,
    };

    let attacked_positions = bishop.attacks(&empty_board, Position(0, 0));

    let mut expected_attacked_positions = vec![];
    for count in 2..6 {
        expected_attacked_positions.push(Position(count, count));
    }
    assert_eq!(expected_attacked_positions, attacked_positions);
}

#[test]
fn bishop_top_middle_with_obstacles_attacks() {
    let mut empty_board = Board::empty();

    let bishop_position = Position(4, 8);
    set_piece(&mut empty_board, piece(PieceEnum::BISHOP, Color::WHITE, 4, 8));
    set_piece(&mut empty_board, piece(PieceEnum::KNIGHT, Color::WHITE, 2, 6));
    set_piece(&mut empty_board, piece(PieceEnum::PAWN, Color::BLACK, 7, 5));

    let bishop = match empty_board.get_square(bishop_position) {
        None => panic!(),
        Some(b) => *b,
    };

    let attacked_positions = bishop.attacks(&empty_board, Position(0, 0));
    let mut expected_attacked_positions = vec![];
    expected_attacked_positions.push(Position(5, 7));
    expected_attacked_positions.push(Position(6, 6));
    expected_attacked_positions.push(Position(7, 5));
    expected_attacked_positions.push(Position(3, 7));
    expected_attacked_positions.push(Position(2, 6));

    assert_eq!(expected_attacked_positions, attacked_positions);
}

#[test]
fn bishop_bottom_left_moves() {
    let mut empty_board = Board::empty();

    let position = Position(1, 1);
    set_piece(&mut empty_board, piece(PieceEnum::BISHOP, Color::WHITE, 1, 1));

    let bishop = match empty_board.get_square(position) {
        None => panic!(),
        Some(b) => *b,
    };

    let actual_moves = bishop.moves_ignoring_pins(&empty_board, &None, Position(0, 0));

    let mut expected_moves = vec![];
    for count in 2..9 {
        expected_moves.push(ChessMove {
            from: bishop.position(),
            to: Position(count, count),
            promotion: None,
        });
    }

    assert_eq!(expected_moves, actual_moves);
}

#[test]
fn bishop_middle_moves() {
    let mut empty_board = Board::empty();

    let position = Position(4, 4);
    set_piece(&mut empty_board, piece(PieceEnum::BISHOP, Color::WHITE, 4, 4));

    let bishop = match empty_board.get_square(position) {
        None => panic!(),
        Some(b) => *b,
    };

    let actual_moves = bishop.moves_ignoring_pins(&empty_board, &None, Position(0, 0));
    assert_eq!(13, actual_moves.len());
}

#[test]
fn bishop_middle_obstacle_moves() {
    let board_arr: [u8; 64] = [
        2, 1, 0, 0, 0, 14, 11, 12,
        0, 1, 0, 11, 0, 13, 0, 0,
        0, 1, 3, 0, 0, 0, 11, 0,
        0, 4, 0, 0, 1, 0, 11, 0,
        6, 4, 0, 1, 3, 11, 15, 16,
        0, 1, 5, 0, 0, 13, 11, 0,
        0, 1, 0, 0, 0, 11, 14, 0,
        2, 1, 11, 0, 0, 0, 0, 12,
    ];
    let (board, white_king, _) = Board::from_u8_board(&board_arr).unwrap();

    let bishop = match board.get_square(Position(1, 6)) {
        None => panic!(),
        Some(b) => *b,
    };

    let moves = bishop.moves(&board, white_king, &None);

    assert_eq!(6, moves.len());
}
