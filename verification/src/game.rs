use vstd::prelude::*;

use crate::attack::{get_attacked_squares, spec_attacked, AttackedBoard};
use crate::board::{
    all_bytes_valid, board_wf, last_code_pos, lemma_last_code_pos, piece_at, spec_board_bytes,
    spec_decoded_board, spec_initial_board, Board,
};
use crate::chessmove::{moves_contain, moves_shape_ok, promotions_none, ChessMove};
use crate::color::{other, spec_other, Color};
use crate::pieces::king::spec_king_moves;
use crate::pieces::piece::{
    lemma_piece_moves_shape, promotion_piece_to_piece, spec_piece_moves, spec_promotion_piece,
    Piece, PieceEnum,
};
use crate::pieces::position::{
    is_on_board, lemma_pos_at_sq, lemma_sq_pos_at, on_board, pos_at, sq, sq_of, Position,
};
use crate::pieces::relative_position::{get_line_to_other_piece, spec_line};
use crate::pieces::sliding_attacks::ray_attacks;
use crate::pieces::to_piece::spec_to_piece;

verus! {

/// The failures the engine can report. Every one of them marks a caller
/// error: a correct caller never sees them.
#[derive(Clone, Copy, Debug, PartialEq, Eq, Structural, Hash)]
pub enum GameError {
    /// A move was played that the current position does not allow.
    IllegalMove,
    /// A decoded record holds no king for one of the sides.
    MissingKing,
    /// An undo was asked for with no move left to take back.
    EmptyHistory,
    /// A record to decode is not in the compact format.
    MalformedRecord,
}

/// One entry of the history stack: everything needed to restore the
/// state before a move, the board kept in its compact encoding.
pub struct PreviousGameState {
    en_passant: Option<Position>,
    side_to_move: Color,
    castling_rights_white: (bool, bool),
    castling_rights_black: (bool, bool),
    half_moves: u16,
    full_moves: u16,
    u8_board: Vec<u8>,
}

/// The abstract value of one history entry.
#[verifier::ext_equal]
pub ghost struct SnapshotV {
    pub en_passant: Option<Position>,
    pub side_to_move: Color,
    pub castling_rights_white: (bool, bool),
    pub castling_rights_black: (bool, bool),
    pub half_moves: u16,
    pub full_moves: u16,
    pub board_bytes: Seq<u8>,
}

impl View for PreviousGameState {
    type V = SnapshotV;

    closed spec fn view(&self) -> SnapshotV {
        SnapshotV {
            en_passant: self.en_passant,
            side_to_move: self.side_to_move,
            castling_rights_white: self.castling_rights_white,
            castling_rights_black: self.castling_rights_black,
            half_moves: self.half_moves,
            full_moves: self.full_moves,
            board_bytes: self.u8_board@,
        }
    }
}

/// The abstract value of a game: the board, all ancillary state, and
/// the history of snapshots, oldest first.
#[verifier::ext_equal]
pub ghost struct GameV {
    pub board: Seq<Option<Piece>>,
    pub en_passant: Option<Position>,
    pub side_to_move: Color,
    pub castling_rights_white: (bool, bool),
    pub castling_rights_black: (bool, bool),
    pub half_moves: u16,
    pub full_moves: u16,
    pub white_king: Position,
    pub black_king: Position,
    pub history: Seq<SnapshotV>,
}

/// The full mutable position: board, side to move, en passant target,
/// castling rights, move clocks, cached king squares, and the history
/// stack for undo.
pub struct Game {
    board: Board,
    en_passant: Option<Position>,
    side_to_move: Color,
    castling_rights_white: (bool, bool),
    castling_rights_black: (bool, bool),
    half_moves: u16,
    full_moves: u16,
    white_king: Position,
    black_king: Position,
    previous_game_states: Vec<PreviousGameState>,
}

impl View for Game {
    type V = GameV;

    closed spec fn view(&self) -> GameV {
        GameV {
            board: self.board@,
            en_passant: self.en_passant,
            side_to_move: self.side_to_move,
            castling_rights_white: self.castling_rights_white,
            castling_rights_black: self.castling_rights_black,
            half_moves: self.half_moves,
            full_moves: self.full_moves,
            white_king: self.white_king,
            black_king: self.black_king,
            history: self.previous_game_states@.map_values(|s: PreviousGameState| s@),
        }
    }
}

/// A well-formed game: the board is well formed and each side's king
/// stands on its cached square.
pub open spec fn spec_game_wf(g: GameV) -> bool {
    &&& board_wf(g.board)
    &&& on_board(g.white_king)
    &&& on_board(g.black_king)
    &&& g.board[sq_of(g.white_king)] == Some(
        Piece { kind: PieceEnum::KING, color: Color::WHITE, position: g.white_king },
    )
    &&& g.board[sq_of(g.black_king)] == Some(
        Piece { kind: PieceEnum::KING, color: Color::BLACK, position: g.black_king },
    )
}

/// The cached square of the side-to-move's king.
pub open spec fn spec_current_king(g: GameV) -> Position {
    match g.side_to_move {
        Color::WHITE => g.white_king,
        Color::BLACK => g.black_king,
    }
}

/// The game value of the standard initial position.
pub open spec fn spec_new_game() -> GameV {
    GameV {
        board: spec_initial_board(),
        en_passant: None,
        side_to_move: Color::WHITE,
        castling_rights_white: (true, true),
        castling_rights_black: (true, true),
        half_moves: 0,
        full_moves: 1,
        white_king: Position(5, 1),
        black_king: Position(5, 8),
        history: Seq::empty(),
    }
}

/// The game a 73-byte record decodes to: 64 board squares, the en
/// passant target, the four castling rights, the move clocks and the
/// side to move, with an empty history.
pub open spec fn spec_decoded_game(bytes: Seq<u8>) -> GameV {
    GameV {
        board: spec_decoded_board(bytes.take(64)),
        en_passant: if bytes[64] == 0 {
            None
        } else {
            Some(Position(bytes[64], bytes[65]))
        },
        side_to_move: if bytes[72] == 0 {
            Color::WHITE
        } else {
            Color::BLACK
        },
        castling_rights_white: (bytes[66] == 1, bytes[67] == 1),
        castling_rights_black: (bytes[68] == 1, bytes[69] == 1),
        half_moves: bytes[70] as u16,
        full_moves: bytes[71] as u16,
        white_king: last_code_pos(bytes.take(64), 6, 64)->Some_0,
        black_king: last_code_pos(bytes.take(64), 16, 64)->Some_0,
        history: Seq::empty(),
    }
}

/// The 73-byte record a game encodes to.
pub open spec fn spec_game_record(g: GameV) -> Seq<u8> {
    spec_board_bytes(g.board).push(
        match g.en_passant {
            None => 0u8,
            Some(ep) => ep.0,
        },
    ).push(
        match g.en_passant {
            None => 0u8,
            Some(ep) => ep.1,
        },
    ).push(
        if g.castling_rights_white.0 {
            1u8
        } else {
            0u8
        },
    ).push(
        if g.castling_rights_white.1 {
            1u8
        } else {
            0u8
        },
    ).push(
        if g.castling_rights_black.0 {
            1u8
        } else {
            0u8
        },
    ).push(
        if g.castling_rights_black.1 {
            1u8
        } else {
            0u8
        },
    ).push((g.half_moves % 256) as u8).push((g.full_moves % 256) as u8).push(
        match g.side_to_move {
            Color::WHITE => 0u8,
            Color::BLACK => 1u8,
        },
    )
}

/// The attack map the legal move assembler works under: the opposing
/// side's attacks, rays seeing through the side-to-move's king.
pub open spec fn spec_attacked_of(g: GameV) -> Seq<Seq<Piece>> {
    spec_attacked(g.board, spec_other(g.side_to_move), spec_current_king(g))
}

/// The side-to-move's king as a piece.
pub open spec fn spec_king_piece(g: GameV) -> Piece {
    Piece { kind: PieceEnum::KING, color: g.side_to_move, position: spec_current_king(g) }
}

/// The pin-aware moves of every piece of `side` except its king, taken
/// from the first `n` squares in board order.
pub open spec fn non_king_moves_upto(
    b: Seq<Option<Piece>>,
    side: Color,
    king: Position,
    en_passant: Option<Position>,
    n: int,
) -> Seq<ChessMove>
    decreases n,
{
    if n <= 0 {
        Seq::empty()
    } else {
        non_king_moves_upto(b, side, king, en_passant, n - 1) + (match b[n - 1] {
            Some(p) => if p.color == side && p.kind != PieceEnum::KING {
                spec_piece_moves(b, p, king, en_passant)
            } else {
                Seq::empty()
            },
            None => Seq::empty(),
        })
    }
}

/// Holds of a move whose destination no enemy piece threatens.
pub open spec fn safe_pred(ab: Seq<Seq<Piece>>) -> spec_fn(ChessMove) -> bool {
    |mv: ChessMove| ab[sq_of(mv.to)].len() == 0
}

/// Holds of a move that lands on `target`.
pub open spec fn to_target_pred(target: Position) -> spec_fn(ChessMove) -> bool {
    |mv: ChessMove| mv.to == target
}

/// Holds of a move whose destination is one of `allowed`.
pub open spec fn block_pred(allowed: Seq<Position>) -> spec_fn(ChessMove) -> bool {
    |mv: ChessMove| allowed.contains(mv.to)
}

/// Holds of a move that answers a pawn's check: it captures the
/// checking pawn, or, when it is itself a pawn move to the en passant
/// target, removes the checker by capturing en passant.
pub open spec fn pawn_check_pred(
    b: Seq<Option<Piece>>,
    en_passant: Option<Position>,
    attacker: Piece,
) -> spec_fn(ChessMove) -> bool {
    |mv: ChessMove|
        match en_passant {
            None => mv.to == attacker.position,
            Some(ep) => {
                if on_board(mv.from) && (b[sq_of(mv.from)] matches Some(p) && p.kind
                    == PieceEnum::PAWN) {
                    mv.to == ep || mv.to == attacker.position
                } else {
                    mv.to == attacker.position
                }
            },
        }
}

/// Whether the king on `k` may castle kingside as far as squares are
/// concerned: both squares it crosses are real, empty and unattacked.
pub open spec fn spec_can_castle_kingside(
    b: Seq<Option<Piece>>,
    k: Position,
    ab: Seq<Seq<Piece>>,
) -> bool {
    &&& on_board(k)
    &&& k.0 + 2 <= 8
    &&& b[sq(k.0 + 1, k.1 as int)] is None
    &&& b[sq(k.0 + 2, k.1 as int)] is None
    &&& ab[sq(k.0 + 1, k.1 as int)].len() == 0
    &&& ab[sq(k.0 + 2, k.1 as int)].len() == 0
}

/// Whether the king on `k` may castle queenside as far as squares are
/// concerned: the three squares toward the rook are real and empty, and
/// the two the king crosses are unattacked.
pub open spec fn spec_can_castle_queenside(
    b: Seq<Option<Piece>>,
    k: Position,
    ab: Seq<Seq<Piece>>,
) -> bool {
    &&& on_board(k)
    &&& k.0 >= 4
    &&& b[sq(k.0 - 1, k.1 as int)] is None
    &&& b[sq(k.0 - 2, k.1 as int)] is None
    &&& b[sq(k.0 - 3, k.1 as int)] is None
    &&& ab[sq(k.0 - 1, k.1 as int)].len() == 0
    &&& ab[sq(k.0 - 2, k.1 as int)].len() == 0
}

/// The side-to-move's king's legal moves under the attack map `ab`:
/// its plain moves onto unattacked squares, and, when it is not in
/// check, the castling moves whose rights are held and whose squares
/// allow them.
pub open spec fn spec_king_legal_moves(g: GameV, ab: Seq<Seq<Piece>>) -> Seq<ChessMove> {
    let king = spec_king_piece(g);
    let k = king.position;
    let base = spec_king_moves(g.board, king).filter(safe_pred(ab));
    if ab[sq_of(k)].len() > 0 {
        base
    } else {
        let rights = match g.side_to_move {
            Color::BLACK => g.castling_rights_black,
            Color::WHITE => g.castling_rights_white,
        };
        let base2 = if rights.0 && spec_can_castle_kingside(g.board, k, ab) {
            base.push(ChessMove { from: k, to: Position((k.0 + 2) as u8, k.1), promotion: None })
        } else {
            base
        };
        if rights.1 && spec_can_castle_queenside(g.board, k, ab) {
            base2.push(ChessMove { from: k, to: Position((k.0 - 2) as u8, k.1), promotion: None })
        } else {
            base2
        }
    }
}

/// The squares that block or capture a checking slider: walking from
/// the king toward the checker, every square up to and including the
/// first occupied one. Nothing when the two squares share no line.
pub open spec fn spec_allowed_block(
    b: Seq<Option<Piece>>,
    king: Position,
    attacker_pos: Position,
) -> Seq<Position> {
    match spec_line(king, attacker_pos) {
        None => Seq::empty(),
        Some((mover, direction)) => if on_board(king) {
            ray_attacks(
                b,
                king.0 as int,
                king.1 as int,
                mover.0 as int,
                mover.1 as int,
                Position(0, 0),
            )
        } else {
            Seq::empty()
        },
    }
}

/// The exact set of legal moves of `g`, in generation order, driven by
/// how many enemy pieces check the side-to-move's king: under a double
/// check only king moves; under a single check only moves that capture
/// the checker, block its line, or capture a checking pawn en passant,
/// plus king moves; with no check every pin-aware piece move, king
/// moves and castling.
pub open spec fn spec_legal_moves(g: GameV) -> Seq<ChessMove> {
    let king_pos = spec_current_king(g);
    let ab = spec_attacked_of(g);
    let checkers = ab[sq_of(king_pos)];
    if checkers.len() > 1 {
        spec_king_legal_moves(g, ab)
    } else {
        let moves = non_king_moves_upto(g.board, g.side_to_move, king_pos, g.en_passant, 64);
        if checkers.len() == 0 {
            moves + spec_king_legal_moves(g, ab)
        } else {
            let attacker = checkers[0];
            if attacker.kind == PieceEnum::KNIGHT {
                moves.filter(to_target_pred(attacker.position)) + spec_king_legal_moves(g, ab)
            } else if attacker.kind == PieceEnum::PAWN {
                moves.filter(pawn_check_pred(g.board, g.en_passant, attacker))
                    + spec_king_legal_moves(g, ab)
            } else {
                moves.filter(block_pred(spec_allowed_block(g.board, king_pos, attacker.position)))
                    + spec_king_legal_moves(g, ab)
            }
        }
    }
}

/// A list of moves each of which starts on an occupied board square
/// and ends on a board square.
pub open spec fn legal_shape_ok(b: Seq<Option<Piece>>, s: Seq<ChessMove>) -> bool {
    forall|i: int|
        0 <= i < s.len() ==> {
            let mv = #[trigger] s[i];
            on_board(mv.from) && on_board(mv.to) && b[sq_of(mv.from)] is Some
        }
}

/// Filtering keeps a list of moves in legal shape.
pub proof fn lemma_filter_legal_shape(
    b: Seq<Option<Piece>>,
    s: Seq<ChessMove>,
    p: spec_fn(ChessMove) -> bool,
)
    requires
        legal_shape_ok(b, s),
    ensures
        legal_shape_ok(b, s.filter(p)),
{
    crate::pieces::piece::lemma_filter_subset(s, p);
    let out = s.filter(p);
    assert forall|i: int| 0 <= i < out.len() implies {
        let mv = #[trigger] out[i];
        on_board(mv.from) && on_board(mv.to) && b[sq_of(mv.from)] is Some
    } by {
        assert(s.contains(out[i]));
        let j = choose|j: int| 0 <= j < s.len() && s[j] == out[i];
        assert(on_board(s[j].from) && on_board(s[j].to) && b[sq_of(s[j].from)] is Some);
    }
}

/// Joining two lists of moves in legal shape gives one.
pub proof fn lemma_concat_legal_shape(b: Seq<Option<Piece>>, s1: Seq<ChessMove>, s2: Seq<ChessMove>)
    requires
        legal_shape_ok(b, s1),
        legal_shape_ok(b, s2),
    ensures
        legal_shape_ok(b, s1 + s2),
{
    assert forall|i: int| 0 <= i < (s1 + s2).len() implies {
        let mv = #[trigger] (s1 + s2)[i];
        on_board(mv.from) && on_board(mv.to) && b[sq_of(mv.from)] is Some
    } by {
        if i < s1.len() {
            assert((s1 + s2)[i] == s1[i]);
        } else {
            assert((s1 + s2)[i] == s2[i - s1.len()]);
        }
    }
}

/// The collected non-king moves are in legal shape.
pub proof fn lemma_non_king_moves_shape(
    b: Seq<Option<Piece>>,
    side: Color,
    king: Position,
    en_passant: Option<Position>,
    n: int,
)
    requires
        board_wf(b),
        0 <= n <= 64,
    ensures
        legal_shape_ok(b, non_king_moves_upto(b, side, king, en_passant, n)),
    decreases n,
{
    if n > 0 {
        lemma_non_king_moves_shape(b, side, king, en_passant, n - 1);
        let prev = non_king_moves_upto(b, side, king, en_passant, n - 1);
        let chunk = match b[n - 1] {
            Some(p) => if p.color == side && p.kind != PieceEnum::KING {
                spec_piece_moves(b, p, king, en_passant)
            } else {
                Seq::empty()
            },
            None => Seq::empty(),
        };
        match b[n - 1] {
            Some(p) => {
                if p.color == side && p.kind != PieceEnum::KING {
                    lemma_sq_pos_at(n - 1);
                    assert(p.position == pos_at(n - 1));
                    assert(on_board(p.position));
                    assert(sq_of(p.position) == n - 1);
                    lemma_piece_moves_shape(b, p, king, en_passant);
                    assert(legal_shape_ok(b, chunk));
                }
            },
            None => {},
        }
        lemma_concat_legal_shape(b, prev, chunk);
    }
}

/// Every king legal move starts at the side-to-move's king square,
/// lands on the board, and carries no promotion.
pub proof fn lemma_king_legal_moves_shape(g: GameV, ab: Seq<Seq<Piece>>)
    requires
        spec_game_wf(g),
    ensures
        legal_shape_ok(g.board, spec_king_legal_moves(g, ab)),
        forall|i: int|
            0 <= i < spec_king_legal_moves(g, ab).len() ==> (#[trigger] spec_king_legal_moves(
                g,
                ab,
            )[i]).from == spec_current_king(g),
        promotions_none(spec_king_legal_moves(g, ab)),
{
    let king = spec_king_piece(g);
    let k = king.position;
    crate::pieces::king::lemma_king_moves_shape(g.board, king);
    let pseudo = spec_king_moves(g.board, king);
    crate::pieces::piece::lemma_filter_subset(pseudo, safe_pred(ab));
    let base = pseudo.filter(safe_pred(ab));
    assert(on_board(k));
    assert(g.board[sq_of(k)] is Some);
    assert forall|i: int| 0 <= i < base.len() implies (#[trigger] base[i]).from == k && on_board(
        base[i].to,
    ) by {
        assert(pseudo.contains(base[i]));
        let j = choose|j: int| 0 <= j < pseudo.len() && pseudo[j] == base[i];
        assert(pseudo[j].from == k && on_board(pseudo[j].to));
    }
    crate::pieces::piece::lemma_filter_promotions_none(pseudo, safe_pred(ab));
    let out = spec_king_legal_moves(g, ab);
    assert forall|i: int| 0 <= i < out.len() implies (#[trigger] out[i]).from == k && on_board(
        out[i].to,
    ) && g.board[sq_of(out[i].from)] is Some && out[i].promotion is None by {
        if i < base.len() {
            assert(out[i] == base[i]);
        }
    }
}

/// A king legal move that crosses two files is a castle: the matching
/// squares were free and unattacked.
pub proof fn lemma_king_legal_moves_castle(g: GameV, ab: Seq<Seq<Piece>>, mv: ChessMove)
    requires
        spec_game_wf(g),
        spec_king_legal_moves(g, ab).contains(mv),
    ensures
        mv.to.0 == mv.from.0 + 2 ==> spec_can_castle_kingside(g.board, spec_current_king(g), ab)
            && mv.to.1 == mv.from.1,
        mv.from.0 == mv.to.0 + 2 ==> spec_can_castle_queenside(g.board, spec_current_king(g), ab)
            && mv.to.1 == mv.from.1,
{
    let king = spec_king_piece(g);
    let k = king.position;
    crate::pieces::king::lemma_king_moves_shape(g.board, king);
    let pseudo = spec_king_moves(g.board, king);
    crate::pieces::piece::lemma_filter_subset(pseudo, safe_pred(ab));
    let base = pseudo.filter(safe_pred(ab));
    assert forall|i: int| 0 <= i < base.len() implies {
        let m = #[trigger] base[i];
        m.to.0 <= m.from.0 + 1 && m.from.0 <= m.to.0 + 1
    } by {
        assert(pseudo.contains(base[i]));
        let j = choose|j: int| 0 <= j < pseudo.len() && pseudo[j] == base[i];
        assert(pseudo[j].to.0 <= pseudo[j].from.0 + 1 && pseudo[j].from.0 <= pseudo[j].to.0 + 1);
    }
    let out = spec_king_legal_moves(g, ab);
    let j = choose|j: int| 0 <= j < out.len() && out[j] == mv;
    if j < base.len() {
        assert(mv == base[j]);
    }
}

/// Every legal move starts on an occupied board square and lands on a
/// board square.
pub proof fn lemma_legal_moves_shape(g: GameV)
    requires
        spec_game_wf(g),
    ensures
        legal_shape_ok(g.board, spec_legal_moves(g)),
{
    let king_pos = spec_current_king(g);
    let ab = spec_attacked(g.board, spec_other(g.side_to_move), king_pos);
    let checkers = ab[sq_of(king_pos)];
    lemma_king_legal_moves_shape(g, ab);
    let kingm = spec_king_legal_moves(g, ab);
    if checkers.len() > 1 {
    } else {
        lemma_non_king_moves_shape(g.board, g.side_to_move, king_pos, g.en_passant, 64);
        let moves = non_king_moves_upto(g.board, g.side_to_move, king_pos, g.en_passant, 64);
        if checkers.len() == 0 {
            lemma_concat_legal_shape(g.board, moves, kingm);
        } else {
            let attacker = checkers[0];
            if attacker.kind == PieceEnum::KNIGHT {
                lemma_filter_legal_shape(g.board, moves, to_target_pred(attacker.position));
                lemma_concat_legal_shape(
                    g.board,
                    moves.filter(to_target_pred(attacker.position)),
                    kingm,
                );
            } else if attacker.kind == PieceEnum::PAWN {
                lemma_filter_legal_shape(
                    g.board,
                    moves,
                    pawn_check_pred(g.board, g.en_passant, attacker),
                );
                lemma_concat_legal_shape(
                    g.board,
                    moves.filter(pawn_check_pred(g.board, g.en_passant, attacker)),
                    kingm,
                );
            } else {
                let allowed = spec_allowed_block(g.board, king_pos, attacker.position);
                lemma_filter_legal_shape(g.board, moves, block_pred(allowed));
                lemma_concat_legal_shape(g.board, moves.filter(block_pred(allowed)), kingm);
            }
        }
    }
}

/// The abstract value of the snapshot `make_move` pushes: the state
/// before the move, the board in its compact encoding.
pub open spec fn spec_snapshot(g: GameV) -> SnapshotV {
    SnapshotV {
        en_passant: g.en_passant,
        side_to_move: g.side_to_move,
        castling_rights_white: g.castling_rights_white,
        castling_rights_black: g.castling_rights_black,
        half_moves: g.half_moves,
        full_moves: g.full_moves,
        board_bytes: spec_board_bytes(g.board),
    }
}

/// The castling rights left after the square `p` was vacated or landed
/// on: leaving or touching a rook's home square takes the matching
/// right away for good.
pub open spec fn rights_after_square(
    crw: (bool, bool),
    crb: (bool, bool),
    p: Position,
) -> ((bool, bool), (bool, bool)) {
    if p == Position(1, 8) {
        (crw, (crb.0, false))
    } else if p == Position(8, 8) {
        (crw, (false, crb.1))
    } else if p == Position(1, 1) {
        ((crw.0, false), crb)
    } else if p == Position(8, 1) {
        ((false, crw.1), crb)
    } else {
        (crw, crb)
    }
}

/// The board after the piece on `from` (if the named squares are real
/// and `from` is occupied) moved to `to`, its carried square updated.
pub open spec fn spec_move_piece(b: Seq<Option<Piece>>, from: Position, to: Position) -> Seq<
    Option<Piece>,
> {
    if on_board(from) && on_board(to) && b[sq_of(from)] is Some {
        let pc = b[sq_of(from)]->Some_0;
        b.update(sq_of(from), None).update(sq_of(to), Some(Piece { position: to, ..pc }))
    } else {
        b
    }
}

/// The state after the legal move `mv` was applied to `g`: the
/// snapshot pushed, the piece moved (a pawn possibly promoted), the en
/// passant target set or cleared and a passed pawn removed, castling
/// handled with its rook, castling rights revoked, and the side to move
/// flipped, the full-move counter rising after Black's move.
pub open spec fn spec_make(g: GameV, mv: ChessMove) -> GameV {
    let hist2 = g.history.push(spec_snapshot(g));
    let piece0 = g.board[sq_of(mv.from)]->Some_0;
    let b1 = g.board.update(sq_of(mv.from), None);
    let is_pawn = piece0.kind == PieceEnum::PAWN;
    let two_step_white = mv.from.1 == 2 && mv.to.1 == 4;
    let two_step_black = mv.from.1 == 7 && mv.to.1 == 5;
    let ep2 = if is_pawn && two_step_white {
        Some(Position(mv.to.0, 3))
    } else if is_pawn && two_step_black {
        Some(Position(mv.to.0, 6))
    } else {
        None
    };
    let b2 = if is_pawn && !two_step_white && !two_step_black && g.en_passant == Some(mv.to) {
        let ps = if g.side_to_move == Color::WHITE {
            Position(mv.to.0, 5)
        } else {
            Position(mv.to.0, 4)
        };
        if on_board(ps) && b1[sq_of(ps)] is Some {
            b1.update(sq_of(ps), None)
        } else {
            b1
        }
    } else {
        b1
    };
    let is_king = piece0.kind == PieceEnum::KING;
    let wk2 = if is_king && g.side_to_move == Color::WHITE {
        mv.to
    } else {
        g.white_king
    };
    let bk2 = if is_king && g.side_to_move == Color::BLACK {
        mv.to
    } else {
        g.black_king
    };
    let crw1 = if is_king && g.side_to_move == Color::WHITE {
        (false, false)
    } else {
        g.castling_rights_white
    };
    let crb1 = if is_king && g.side_to_move == Color::BLACK {
        (false, false)
    } else {
        g.castling_rights_black
    };
    let b3 = if is_king && mv.from.0 + 2 == mv.to.0 && mv.from.0 + 3 <= 8 {
        spec_move_piece(
            b2,
            Position((mv.from.0 + 3) as u8, mv.from.1),
            Position((mv.from.0 + 1) as u8, mv.to.1),
        )
    } else if is_king && mv.from.0 >= 5 && mv.from.0 - 2 == mv.to.0 {
        spec_move_piece(
            b2,
            Position((mv.from.0 - 4) as u8, mv.from.1),
            Position((mv.from.0 - 1) as u8, mv.to.1),
        )
    } else {
        b2
    };
    let rights2 = rights_after_square(crw1, crb1, mv.from);
    let rights3 = rights_after_square(rights2.0, rights2.1, mv.to);
    let piece1 = match mv.promotion {
        None => piece0,
        Some(pp) => spec_promotion_piece(pp, g.side_to_move, mv.to),
    };
    let piece2 = Piece { position: mv.to, ..piece1 };
    let b4 = if on_board(mv.to) {
        b3.update(sq_of(mv.to), Some(piece2))
    } else {
        b3
    };
    GameV {
        board: b4,
        en_passant: ep2,
        side_to_move: spec_other(g.side_to_move),
        castling_rights_white: rights3.0,
        castling_rights_black: rights3.1,
        half_moves: g.half_moves,
        full_moves: if g.side_to_move == Color::BLACK {
            (g.full_moves + 1) as u16
        } else {
            g.full_moves
        },
        white_king: wk2,
        black_king: bk2,
        history: hist2,
    }
}

/// The state after the newest history entry was popped and restored:
/// every field taken back from the snapshot, the board and the king
/// squares rebuilt from its compact encoding.
pub open spec fn spec_undo(g: GameV) -> GameV {
    let snap = g.history.last();
    GameV {
        board: spec_decoded_board(snap.board_bytes),
        en_passant: snap.en_passant,
        side_to_move: snap.side_to_move,
        castling_rights_white: snap.castling_rights_white,
        castling_rights_black: snap.castling_rights_black,
        half_moves: snap.half_moves,
        full_moves: snap.full_moves,
        white_king: last_code_pos(snap.board_bytes, 6, 64)->Some_0,
        black_king: last_code_pos(snap.board_bytes, 16, 64)->Some_0,
        history: g.history.drop_last(),
    }
}

/// A snapshot whose board encoding can be restored: 64 valid square
/// values holding a king of each side.
pub open spec fn snapshot_ok(s: SnapshotV) -> bool {
    &&& s.board_bytes.len() == 64
    &&& all_bytes_valid(s.board_bytes)
    &&& last_code_pos(s.board_bytes, 6, 64) is Some
    &&& last_code_pos(s.board_bytes, 16, 64) is Some
}

/// Filters `moves` down to those landing on `target`.
fn filter_moves_to_target(moves: &Vec<ChessMove>, target: Position) -> (r: Vec<ChessMove>)
    ensures
        r@ == moves@.filter(to_target_pred(target)),
{
    let ghost pred = to_target_pred(target);
    let mut acc: Vec<ChessMove> = Vec::new();
    let mut i: usize = 0;
    proof {
        reveal(Seq::filter);
        assert(moves@.take(0).filter(pred) =~= Seq::<ChessMove>::empty());
    }
    while i < moves.len()
        invariant
            i <= moves@.len(),
            pred == to_target_pred(target),
            acc@ == moves@.take(i as int).filter(pred),
        decreases moves@.len() - i,
    {
        let mv = moves[i];
        if mv.to == target {
            acc.push(mv);
        }
        proof {
            reveal(Seq::filter);
            assert(moves@.take(i + 1).drop_last() =~= moves@.take(i as int));
            assert(moves@.take(i + 1).last() == moves@[i as int]);
        }
        i += 1;
    }
    proof {
        assert(moves@.take(moves@.len() as int) =~= moves@);
    }
    acc
}

/// Filters `moves` down to those landing on one of `allowed`.
fn filter_moves_blocking(moves: &Vec<ChessMove>, allowed: &Vec<Position>) -> (r: Vec<ChessMove>)
    ensures
        r@ == moves@.filter(block_pred(allowed@)),
{
    let ghost pred = block_pred(allowed@);
    let mut acc: Vec<ChessMove> = Vec::new();
    let mut i: usize = 0;
    proof {
        reveal(Seq::filter);
        assert(moves@.take(0).filter(pred) =~= Seq::<ChessMove>::empty());
    }
    while i < moves.len()
        invariant
            i <= moves@.len(),
            pred == block_pred(allowed@),
            acc@ == moves@.take(i as int).filter(pred),
        decreases moves@.len() - i,
    {
        let mv = moves[i];
        if crate::pieces::piece::positions_contain(allowed, mv.to) {
            acc.push(mv);
        }
        proof {
            reveal(Seq::filter);
            assert(moves@.take(i + 1).drop_last() =~= moves@.take(i as int));
            assert(moves@.take(i + 1).last() == moves@[i as int]);
        }
        i += 1;
    }
    proof {
        assert(moves@.take(moves@.len() as int) =~= moves@);
    }
    acc
}

/// Filters `moves` down to those that answer a pawn's check.
fn filter_pawn_check(
    board: &Board,
    en_passant: &Option<Position>,
    attacker: Piece,
    moves: &Vec<ChessMove>,
) -> (r: Vec<ChessMove>)
    requires
        board.dim_ok(),
    ensures
        r@ == moves@.filter(pawn_check_pred(board@, *en_passant, attacker)),
{
    let ghost pred = pawn_check_pred(board@, *en_passant, attacker);
    let mut acc: Vec<ChessMove> = Vec::new();
    let mut i: usize = 0;
    proof {
        reveal(Seq::filter);
        assert(moves@.take(0).filter(pred) =~= Seq::<ChessMove>::empty());
    }
    while i < moves.len()
        invariant
            i <= moves@.len(),
            board.dim_ok(),
            pred == pawn_check_pred(board@, *en_passant, attacker),
            acc@ == moves@.take(i as int).filter(pred),
        decreases moves@.len() - i,
    {
        let mv = moves[i];
        let keep = match en_passant {
            None => mv.to == attacker.position,
            Some(ep) => {
                if is_on_board(mv.from) {
                    match board.get_square(mv.from) {
                        Some(p) => {
                            if matches!(p.kind, PieceEnum::PAWN) {
                                mv.to == *ep || mv.to == attacker.position
                            } else {
                                mv.to == attacker.position
                            }
                        },
                        None => mv.to == attacker.position,
                    }
                } else {
                    mv.to == attacker.position
                }
            },
        };
        if keep {
            acc.push(mv);
        }
        proof {
            reveal(Seq::filter);
            assert(moves@.take(i + 1).drop_last() =~= moves@.take(i as int));
            assert(moves@.take(i + 1).last() == moves@[i as int]);
        }
        i += 1;
    }
    proof {
        assert(moves@.take(moves@.len() as int) =~= moves@);
    }
    acc
}

impl Game {
    /// A well-formed game.
    pub open spec fn wf(&self) -> bool {
        spec_game_wf(self@)
    }

    /// Whether the king may castle kingside as far as squares are
    /// concerned.
    fn can_castle_kingside(&self, king: &Piece, attacked_board: &AttackedBoard) -> (r: bool)
        requires
            self@.board.len() == 64,
            attacked_board@.len() == 64,
            on_board(king.position),
        ensures
            r == spec_can_castle_kingside(self@.board, king.position, attacked_board@),
    {
        let k = king.position;
        if k.0 + 2 > 8 {
            return false;
        }
        let one_right_of_king = Position(k.0 + 1, k.1);
        let two_right_of_king = Position(k.0 + 2, k.1);
        self.board.is_empty(one_right_of_king) && self.board.is_empty(two_right_of_king)
            && attacked_board.attacker_count(one_right_of_king) == 0
            && attacked_board.attacker_count(two_right_of_king) == 0
    }

    /// Whether the king may castle queenside as far as squares are
    /// concerned.
    fn can_castle_queenside(&self, king: &Piece, attacked_board: &AttackedBoard) -> (r: bool)
        requires
            self@.board.len() == 64,
            attacked_board@.len() == 64,
            on_board(king.position),
        ensures
            r == spec_can_castle_queenside(self@.board, king.position, attacked_board@),
    {
        let k = king.position;
        if k.0 < 4 {
            return false;
        }
        let one_left_of_king = Position(k.0 - 1, k.1);
        let two_left_of_king = Position(k.0 - 2, k.1);
        let three_left_king = Position(k.0 - 3, k.1);
        self.board.is_empty(one_left_of_king) && self.board.is_empty(two_left_of_king)
            && self.board.is_empty(three_left_king) && attacked_board.attacker_count(
            one_left_of_king,
        ) == 0 && attacked_board.attacker_count(two_left_of_king) == 0
    }

    /// The king's legal moves under the attack map: plain moves onto
    /// unattacked squares, plus castling when not in check.
    fn king_moves(&self, king: &Piece, attacked_board: &AttackedBoard) -> (r: Vec<ChessMove>)
        requires
            self@.board.len() == 64,
            attacked_board@.len() == 64,
            on_board(king.position),
            *king == spec_king_piece(self@),
        ensures
            r@ == spec_king_legal_moves(self@, attacked_board@),
    {
        let pseudo = crate::pieces::king::king_moves(king, &self.board);
        proof {
            crate::pieces::king::lemma_king_moves_shape(self@.board, *king);
        }
        let ghost pred = safe_pred(attacked_board@);
        let mut moves: Vec<ChessMove> = Vec::new();
        let mut i: usize = 0;
        proof {
            reveal(Seq::filter);
            assert(pseudo@.take(0).filter(pred) =~= Seq::<ChessMove>::empty());
        }
        while i < pseudo.len()
            invariant
                i <= pseudo@.len(),
                attacked_board@.len() == 64,
                pseudo@ == spec_king_moves(self@.board, *king),
                moves_shape_ok(pseudo@, king.position),
                pred == safe_pred(attacked_board@),
                moves@ == pseudo@.take(i as int).filter(pred),
            decreases pseudo@.len() - i,
        {
            let mv = pseudo[i];
            assert(on_board(mv.to));
            if attacked_board.attacker_count(mv.to) == 0 {
                moves.push(mv);
            }
            proof {
                reveal(Seq::filter);
                assert(pseudo@.take(i + 1).drop_last() =~= pseudo@.take(i as int));
                assert(pseudo@.take(i + 1).last() == pseudo@[i as int]);
            }
            i += 1;
        }
        proof {
            assert(pseudo@.take(pseudo@.len() as int) =~= pseudo@);
        }
        if attacked_board.attacker_count(king.position) > 0 {
            return moves;
        }
        let castling_rights = match self.side_to_move {
            Color::BLACK => self.castling_rights_black,
            Color::WHITE => self.castling_rights_white,
        };
        if castling_rights.0 && self.can_castle_kingside(king, attacked_board) {
            moves.push(
                ChessMove {
                    from: king.position,
                    to: Position(king.position.0 + 2, king.position.1),
                    promotion: None,
                },
            );
        }
        if castling_rights.1 && self.can_castle_queenside(king, attacked_board) {
            moves.push(
                ChessMove {
                    from: king.position,
                    to: Position(king.position.0 - 2, king.position.1),
                    promotion: None,
                },
            );
        }
        moves
    }

    /// The exact set of legal moves of the current position, in
    /// generation order: under a double check only king moves; under a
    /// single check only moves that capture the checker, block its
    /// line, or capture a checking pawn en passant, plus king moves;
    /// with no check every pin-aware piece move, king moves and
    /// castling.
    pub fn legal_moves(&self) -> (r: Vec<ChessMove>)
        requires
            self.wf(),
        ensures
            r@ == spec_legal_moves(self@),
    {
        let other_side = other(self.side_to_move);
        let king_position = self.current_king_position();
        let attacked_board = get_attacked_squares(&self.board, other_side, king_position);
        let king = Piece {
            kind: PieceEnum::KING,
            color: self.side_to_move,
            position: king_position,
        };
        proof {
            assert(king == spec_king_piece(self@));
        }
        let n_checkers = attacked_board.attacker_count(king_position);
        if n_checkers > 1 {
            return self.king_moves(&king, &attacked_board);
        }
        let mut moves: Vec<ChessMove> = Vec::new();
        let mut n: usize = 0;
        while n < 64
            invariant
                n <= 64,
                self.wf(),
                king_position == spec_current_king(self@),
                moves@ == non_king_moves_upto(
                    self@.board,
                    self@.side_to_move,
                    king_position,
                    self@.en_passant,
                    n as int,
                ),
            decreases 64 - n,
        {
            let file = (n / 8 + 1) as u8;
            let rank = (n % 8 + 1) as u8;
            let pos = Position(file, rank);
            proof {
                lemma_sq_pos_at(n as int);
                assert(pos == pos_at(n as int));
                assert(piece_at(self@.board, pos) == self@.board[n as int]);
            }
            match self.board.get_square(pos) {
                None => {},
                Some(p) => {
                    if p.color() == self.side_to_move && !matches!(p.kind, PieceEnum::KING) {
                        let p = *p;
                        let mut pm = p.moves(&self.board, king_position, &self.en_passant);
                        moves.append(&mut pm);
                    }
                },
            }
            n += 1;
        }
        if n_checkers == 0 {
            let mut km = self.king_moves(&king, &attacked_board);
            moves.append(&mut km);
            moves
        } else {
            let attacker = attacked_board.attackers(king_position)[0];
            let mut filtered = if matches!(attacker.kind, PieceEnum::KNIGHT) {
                filter_moves_to_target(&moves, attacker.position)
            } else if matches!(attacker.kind, PieceEnum::PAWN) {
                filter_pawn_check(&self.board, &self.en_passant, attacker, &moves)
            } else {
                let allowed = match get_line_to_other_piece(&king_position, attacker.position) {
                    None => Vec::new(),
                    Some((mover, _direction)) => crate::pieces::sliding_attacks::ray_attacks_walk(
                        &self.board,
                        king_position,
                        mover.0,
                        mover.1,
                        Position(0, 0),
                    ),
                };
                proof {
                    assert(allowed@ == spec_allowed_block(
                        self@.board,
                        king_position,
                        attacker.position,
                    ));
                }
                filter_moves_blocking(&moves, &allowed)
            };
            let mut km = self.king_moves(&king, &attacked_board);
            filtered.append(&mut km);
            filtered
        }
    }

    /// The standard initial position, White to move, full rights, an
    /// empty history.
    pub fn new() -> (r: Game)
        ensures
            r@ == spec_new_game(),
            r.wf(),
    {
        let r = Game {
            board: Board::initial(),
            en_passant: None,
            side_to_move: Color::WHITE,
            castling_rights_white: (true, true),
            castling_rights_black: (true, true),
            half_moves: 0,
            full_moves: 1,
            white_king: Position(5, 1),
            black_king: Position(5, 8),
            previous_game_states: Vec::new(),
        };
        proof {
            assert(r@.history =~= Seq::<SnapshotV>::empty());
            assert(r@ == spec_new_game());
            lemma_sq_pos_at(32);
            lemma_sq_pos_at(39);
            assert(r@.board[32] == crate::board::spec_initial_at(Position(5, 1)));
            assert(r@.board[39] == crate::board::spec_initial_at(Position(5, 8)));
        }
        r
    }

    /// The board of this game.
    pub fn board(&self) -> (r: &Board)
        ensures
            r@ == self@.board,
    {
        &self.board
    }

    /// The en passant target square, if the previous move set one.
    pub fn en_passant(&self) -> (r: &Option<Position>)
        ensures
            *r == self@.en_passant,
    {
        &self.en_passant
    }

    /// The side to move.
    pub fn side_to_move(&self) -> (r: &Color)
        ensures
            *r == self@.side_to_move,
    {
        &self.side_to_move
    }

    /// White's (kingside, queenside) castling rights.
    pub fn castling_rights_white(&self) -> (r: (bool, bool))
        ensures
            r == self@.castling_rights_white,
    {
        self.castling_rights_white
    }

    /// Black's (kingside, queenside) castling rights.
    pub fn castling_rights_black(&self) -> (r: (bool, bool))
        ensures
            r == self@.castling_rights_black,
    {
        self.castling_rights_black
    }

    /// The half-move clock.
    pub fn half_moves(&self) -> (r: u16)
        ensures
            r == self@.half_moves,
    {
        self.half_moves
    }

    /// The full-move counter.
    pub fn full_moves(&self) -> (r: u16)
        ensures
            r == self@.full_moves,
    {
        self.full_moves
    }

    /// The cached square of the side-to-move's king.
    pub fn current_king_position(&self) -> (r: Position)
        ensures
            r == spec_current_king(self@),
    {
        match self.side_to_move {
            Color::WHITE => self.white_king,
            Color::BLACK => self.black_king,
        }
    }

    /// Pushes a snapshot of the current state onto the history stack.
    fn add_previous_game_state(&mut self)
        requires
            old(self)@.board.len() == 64,
        ensures
            final(self)@ == (GameV {
                history: old(self)@.history.push(spec_snapshot(old(self)@)),
                ..old(self)@
            }),
    {
        let snapshot = PreviousGameState {
            u8_board: self.board.to_u8_board(),
            castling_rights_black: self.castling_rights_black,
            castling_rights_white: self.castling_rights_white,
            en_passant: self.en_passant,
            full_moves: self.full_moves,
            half_moves: self.half_moves,
            side_to_move: self.side_to_move,
        };
        proof {
            assert(snapshot@ == spec_snapshot(self@));
        }
        self.previous_game_states.push(snapshot);
        proof {
            assert(self@.history =~= old(self)@.history.push(spec_snapshot(old(self)@)));
        }
    }

    /// Moves the piece on `from` (if the named squares are real and
    /// `from` is occupied) to `to`, updating its carried square.
    fn move_piece(&mut self, from: Position, to: Position)
        requires
            old(self)@.board.len() == 64,
        ensures
            final(self)@ == (GameV {
                board: spec_move_piece(old(self)@.board, from, to),
                ..old(self)@
            }),
    {
        if is_on_board(from) && is_on_board(to) {
            let occupied = self.board.get_square(from).is_some();
            if occupied {
                let mut pc = self.board.take_piece(from);
                pc.set_position(to);
                self.board.set_square(Some(pc), to);
            }
        }
    }

    /// Removes the piece standing on `sqr`; the caller must name an
    /// occupied square.
    fn remove_piece(&mut self, sqr: Position)
        requires
            old(self)@.board.len() == 64,
            on_board(sqr),
            old(self)@.board[sq_of(sqr)] is Some,
        ensures
            final(self)@ == (GameV {
                board: old(self)@.board.update(sq_of(sqr), None),
                ..old(self)@
            }),
    {
        let _ = self.board.take_piece(sqr);
    }

    /// Applies the move `mv` when the current position allows it, and
    /// rejects it with `IllegalMove`, changing nothing, when it does
    /// not. On success the state advances to `spec_make` of the old
    /// state: snapshot pushed, piece moved (a pawn possibly promoted),
    /// en passant and castling handled, rights revoked, side flipped.
    pub fn make_move(&mut self, mv: ChessMove) -> (r: Result<(), GameError>)
        requires
            old(self).wf(),
            old(self)@.side_to_move == Color::BLACK ==> old(self)@.full_moves < u16::MAX,
        ensures
            spec_legal_moves(old(self)@).contains(mv) ==> r == Ok::<(), GameError>(())
                && final(self)@ == spec_make(old(self)@, mv),
            !spec_legal_moves(old(self)@).contains(mv) ==> r == Err::<(), GameError>(
                GameError::IllegalMove,
            ) && final(self)@ == old(self)@,
    {
        let legal = self.legal_moves();
        if !moves_contain(&legal, &mv) {
            return Err(GameError::IllegalMove);
        }
        proof {
            lemma_legal_moves_shape(self@);
            let j = choose|j: int| 0 <= j < legal@.len() && legal@[j] == mv;
            assert(on_board(mv.from) && on_board(mv.to) && self@.board[sq_of(mv.from)] is Some);
        }
        let ghost g0 = self@;
        self.add_previous_game_state();
        let piece = self.board.take_piece(mv.from);
        proof {
            assert(piece == g0.board[sq_of(mv.from)]->Some_0);
        }
        if matches!(piece.kind, PieceEnum::PAWN) {
            if mv.from.1 == 2 && mv.to.1 == 4 {
                self.en_passant = Some(Position(mv.to.0, 3));
            } else if mv.from.1 == 7 && mv.to.1 == 5 {
                self.en_passant = Some(Position(mv.to.0, 6));
            } else {
                let ep_hit = match &self.en_passant {
                    Some(ep) => ep.0 == mv.to.0 && ep.1 == mv.to.1,
                    None => false,
                };
                if ep_hit {
                    let ps = match self.side_to_move {
                        Color::WHITE => Position(mv.to.0, 5),
                        Color::BLACK => Position(mv.to.0, 4),
                    };
                    if is_on_board(ps) {
                        let occupied = self.board.get_square(ps).is_some();
                        if occupied {
                            self.remove_piece(ps);
                        }
                    }
                }
                self.en_passant = None;
            }
        } else {
            self.en_passant = None;
        }
        if matches!(piece.kind, PieceEnum::KING) {
            match self.side_to_move {
                Color::WHITE => {
                    self.white_king = mv.to;
                    self.castling_rights_white = (false, false);
                },
                Color::BLACK => {
                    self.black_king = mv.to;
                    self.castling_rights_black = (false, false);
                },
            }
            let castle_kingside = mv.from.0 + 2 == mv.to.0;
            let castle_queenside = mv.from.0 as i16 - 2 == mv.to.0 as i16;
            if castle_kingside && mv.from.0 + 3 <= 8 {
                self.move_piece(
                    Position(mv.from.0 + 3, mv.from.1),
                    Position(mv.from.0 + 1, mv.to.1),
                );
            } else if castle_queenside && mv.from.0 >= 5 {
                self.move_piece(
                    Position(mv.from.0 - 4, mv.from.1),
                    Position(mv.from.0 - 1, mv.to.1),
                );
            }
        }
        if mv.from.0 == 1 && mv.from.1 == 8 {
            self.castling_rights_black = (self.castling_rights_black.0, false);
        } else if mv.from.0 == 8 && mv.from.1 == 8 {
            self.castling_rights_black = (false, self.castling_rights_black.1);
        } else if mv.from.0 == 1 && mv.from.1 == 1 {
            self.castling_rights_white = (self.castling_rights_white.0, false);
        } else if mv.from.0 == 8 && mv.from.1 == 1 {
            self.castling_rights_white = (false, self.castling_rights_white.1);
        }
        if mv.to.0 == 1 && mv.to.1 == 8 {
            self.castling_rights_black = (self.castling_rights_black.0, false);
        } else if mv.to.0 == 8 && mv.to.1 == 8 {
            self.castling_rights_black = (false, self.castling_rights_black.1);
        } else if mv.to.0 == 1 && mv.to.1 == 1 {
            self.castling_rights_white = (self.castling_rights_white.0, false);
        } else if mv.to.0 == 8 && mv.to.1 == 1 {
            self.castling_rights_white = (false, self.castling_rights_white.1);
        }
        let position = mv.to;
        let mut piece = match mv.promotion {
            None => piece,
            Some(promotion_piece) => promotion_piece_to_piece(
                promotion_piece,
                self.side_to_move,
                position,
            ),
        };
        piece.set_position(position);
        self.board.set_square(Some(piece), position);
        match self.side_to_move {
            Color::BLACK => {
                self.full_moves = self.full_moves + 1;
                self.side_to_move = Color::WHITE;
            },
            Color::WHITE => {
                self.side_to_move = Color::BLACK;
            },
        }
        proof {
            assert(self@.board =~= spec_make(g0, mv).board);
            assert(self@ == spec_make(g0, mv));
        }
        Ok(())
    }

    /// Takes back the newest move by popping its snapshot and
    /// restoring every field from it; fails with `EmptyHistory`,
    /// changing nothing, when no move is left to take back. Every
    /// snapshot on the stack came from `make_move`, so it decodes.
    pub fn undo_last_move(&mut self) -> (r: Result<(), GameError>)
        requires
            forall|i: int|
                0 <= i < old(self)@.history.len() ==> snapshot_ok(#[trigger] old(self)@.history[i]),
        ensures
            old(self)@.history.len() == 0 ==> r == Err::<(), GameError>(GameError::EmptyHistory)
                && final(self)@ == old(self)@,
            old(self)@.history.len() > 0 ==> r == Ok::<(), GameError>(()) && final(self)@
                == spec_undo(old(self)@) && final(self).wf(),
    {
        if self.previous_game_states.len() == 0 {
            return Err(GameError::EmptyHistory);
        }
        let previous_game_state = match self.previous_game_states.pop() {
            None => unreached(),
            Some(v) => v,
        };
        proof {
            assert(previous_game_state@ == old(self)@.history.last());
            assert(snapshot_ok(old(self)@.history.last()));
            assert(self@.history =~= old(self)@.history.drop_last());
        }
        self.castling_rights_black = previous_game_state.castling_rights_black;
        self.castling_rights_white = previous_game_state.castling_rights_white;
        self.en_passant = previous_game_state.en_passant;
        self.full_moves = previous_game_state.full_moves;
        self.half_moves = previous_game_state.half_moves;
        self.side_to_move = previous_game_state.side_to_move;
        let (board, white_king, black_king) = match Board::from_u8_board(
            previous_game_state.u8_board.as_slice(),
        ) {
            Err(_) => unreached(),
            Ok(t) => t,
        };
        self.board = board;
        self.white_king = white_king;
        self.black_king = black_king;
        proof {
            let snap = old(self)@.history.last();
            assert(self@ == spec_undo(old(self)@));
            lemma_last_code_pos(snap.board_bytes, 6, 64);
            lemma_last_code_pos(snap.board_bytes, 16, 64);
            assert(self@.board[sq_of(white_king)] == spec_to_piece(
                snap.board_bytes[sq_of(white_king)],
                pos_at(sq_of(white_king)),
            ));
            lemma_pos_at_sq(white_king);
            lemma_pos_at_sq(black_king);
        }
        Ok(())
    }

    /// Decodes a game from its compact 73-byte record. Fails with
    /// `MalformedRecord` when the record has the wrong length or a
    /// board byte is not a square value, and with `MissingKing` when a
    /// side has no king on the decoded board.
    pub fn from_game_arr(game_arr: &[u8]) -> (r: Result<Game, GameError>)
        ensures
            r matches Err(e) ==> (e == GameError::MalformedRecord || e == GameError::MissingKing),
            (r == Err::<Game, GameError>(GameError::MalformedRecord)) <==> (game_arr@.len() != 73
                || !all_bytes_valid(game_arr@.take(64))),
            (r == Err::<Game, GameError>(GameError::MissingKing)) <==> (game_arr@.len() == 73
                && all_bytes_valid(game_arr@.take(64)) && (last_code_pos(game_arr@.take(64), 6, 64)
                is None || last_code_pos(game_arr@.take(64), 16, 64) is None)),
            r matches Ok(g) ==> g@ == spec_decoded_game(game_arr@) && g.wf(),
    {
        if game_arr.len() != 73 {
            return Err(GameError::MalformedRecord);
        }
        let board_slice = vstd::slice::slice_subrange(game_arr, 0, 64);
        proof {
            assert(board_slice@ =~= game_arr@.take(64));
        }
        let (board, white_king, black_king) = match Board::from_u8_board(board_slice) {
            Err(e) => {
                return Err(e);
            },
            Ok(t) => t,
        };
        let b64 = *vstd::slice::slice_index_get(game_arr, 64);
        let b65 = *vstd::slice::slice_index_get(game_arr, 65);
        let en_passant: Option<Position> = if b64 == 0 {
            None
        } else {
            Some(Position(b64, b65))
        };
        let b66 = *vstd::slice::slice_index_get(game_arr, 66);
        let b67 = *vstd::slice::slice_index_get(game_arr, 67);
        let b68 = *vstd::slice::slice_index_get(game_arr, 68);
        let b69 = *vstd::slice::slice_index_get(game_arr, 69);
        let castling_rights_white = (b66 == 1, b67 == 1);
        let castling_rights_black = (b68 == 1, b69 == 1);
        let half_moves = *vstd::slice::slice_index_get(game_arr, 70);
        let full_moves = *vstd::slice::slice_index_get(game_arr, 71);
        let side_to_move = if *vstd::slice::slice_index_get(game_arr, 72) == 0 {
            Color::WHITE
        } else {
            Color::BLACK
        };
        let g = Game {
            board,
            en_passant,
            castling_rights_white,
            castling_rights_black,
            side_to_move,
            half_moves: half_moves as u16,
            full_moves: full_moves as u16,
            white_king,
            black_king,
            previous_game_states: Vec::new(),
        };
        proof {
            assert(g@.history =~= Seq::<SnapshotV>::empty());
            assert(g@ == spec_decoded_game(game_arr@));
            let bytes = game_arr@.take(64);
            lemma_last_code_pos(bytes, 6, 64);
            lemma_last_code_pos(bytes, 16, 64);
            assert(g@.board[sq_of(white_king)] == spec_to_piece(
                bytes[sq_of(white_king)],
                pos_at(sq_of(white_king)),
            ));
            lemma_pos_at_sq(white_king);
            lemma_pos_at_sq(black_king);
        }
        Ok(g)
    }

    /// Encodes this game as its compact 73-byte record; the history is
    /// not part of the record.
    pub fn to_game_arr(&self) -> (r: Vec<u8>)
        requires
            self@.board.len() == 64,
        ensures
            r@ == spec_game_record(self@),
    {
        let mut game_arr = self.board.to_u8_board();
        match self.en_passant {
            None => {
                game_arr.push(0);
                game_arr.push(0);
            },
            Some(ep) => {
                game_arr.push(ep.0);
                game_arr.push(ep.1);
            },
        };
        game_arr.push(if self.castling_rights_white.0 {
            1
        } else {
            0
        });
        game_arr.push(if self.castling_rights_white.1 {
            1
        } else {
            0
        });
        game_arr.push(if self.castling_rights_black.0 {
            1
        } else {
            0
        });
        game_arr.push(if self.castling_rights_black.1 {
            1
        } else {
            0
        });
        game_arr.push((self.half_moves % 256) as u8);
        game_arr.push((self.full_moves % 256) as u8);
        game_arr.push(match self.side_to_move {
            Color::WHITE => 0,
            Color::BLACK => 1,
        });
        game_arr
    }
}

} // verus!

