//! The stated laws of the engine, proved once and for all: the record
//! round trip, the double-check invariant, the undo invariant, pin
//! soundness, and preservation of well-formedness by a legal move.

use vstd::prelude::*;

use crate::board::{
    all_bytes_valid, last_code_pos, lemma_code_present, spec_board_bytes, spec_decoded_board,
};
use crate::chessmove::ChessMove;
use crate::color::Color;
use crate::game::{
    block_pred, non_king_moves_upto, pawn_check_pred, snapshot_ok, spec_allowed_block,
    spec_attacked_of, spec_current_king, spec_game_record, spec_game_wf, spec_king_legal_moves,
    spec_legal_moves, spec_make, spec_snapshot, spec_undo, to_target_pred, GameV,
};
use crate::pieces::piece::{
    lemma_filter_subset, lemma_piece_moves_promotions, lemma_piece_moves_shape, spec_piece_moves,
    spec_pin_restriction, Piece, PieceEnum,
};
use crate::pieces::position::{
    lemma_pos_at_sq, lemma_sq_pos_at, on_board, pos_at, sq_of, Position,
};
use crate::pieces::to_piece::{
    lemma_byte_round_trip, lemma_piece_round_trip, spec_piece_byte, spec_to_piece,
};

verus! {

/// Round trip of the compact record: a record that decodes without
/// error, whose flag bytes are written as the encoder writes them (en
/// passant bytes zero together, castling bytes and the side byte 0 or
/// 1), encodes back to itself byte for byte.
pub proof fn lemma_record_round_trip(bytes: Seq<u8>)
    requires
        bytes.len() == 73,
        all_bytes_valid(bytes.take(64)),
        last_code_pos(bytes.take(64), 6, 64) is Some,
        last_code_pos(bytes.take(64), 16, 64) is Some,
        bytes[64] == 0 ==> bytes[65] == 0,
        bytes[66] == 0 || bytes[66] == 1,
        bytes[67] == 0 || bytes[67] == 1,
        bytes[68] == 0 || bytes[68] == 1,
        bytes[69] == 0 || bytes[69] == 1,
        bytes[72] == 0 || bytes[72] == 1,
    ensures
        spec_game_record(crate::game::spec_decoded_game(bytes)) == bytes,
{
    let g = crate::game::spec_decoded_game(bytes);
    let out = spec_game_record(g);
    assert forall|i: int| 0 <= i < 64 implies spec_board_bytes(g.board)[i] == bytes[i] by {
        assert(g.board[i] == spec_to_piece(bytes.take(64)[i], pos_at(i)));
        assert(bytes.take(64)[i] == bytes[i]);
        lemma_byte_round_trip(bytes[i], pos_at(i));
    }
    assert forall|i: int| 0 <= i < 73 implies out[i] == bytes[i] by {
        if i < 64 {
            assert(out[i] == spec_board_bytes(g.board)[i]);
        }
    }
    assert(out =~= bytes);
}

/// Double-check invariant: with two or more enemy pieces attacking the
/// side-to-move's king square, every legal move is a move of that
/// king.
pub proof fn lemma_double_check_only_king_moves(g: GameV, mv: ChessMove)
    requires
        spec_game_wf(g),
        spec_attacked_of(g)[sq_of(spec_current_king(g))].len() >= 2,
        spec_legal_moves(g).contains(mv),
    ensures
        mv.from == spec_current_king(g),
{
    let ab = spec_attacked_of(g);
    crate::game::lemma_king_legal_moves_shape(g, ab);
    let s = spec_king_legal_moves(g, ab);
    let j = choose|j: int| 0 <= j < s.len() && s[j] == mv;
    assert(s[j].from == spec_current_king(g));
}

/// Each side's king stands nowhere but on its cached square.
pub open spec fn kings_unique(g: GameV) -> bool {
    forall|i: int|
        0 <= i < 64 ==> (match #[trigger] g.board[i] {
            Some(p) => p.kind == PieceEnum::KING ==> (if p.color == Color::WHITE {
                i == sq_of(g.white_king)
            } else {
                i == sq_of(g.black_king)
            }),
            None => true,
        })
}

/// In the compact encoding of a well-formed board with unique kings,
/// the last king value of a side lies exactly on that side's cached
/// square.
proof fn lemma_last_king_code(g: GameV, v: u8, n: int)
    requires
        spec_game_wf(g),
        kings_unique(g),
        v == 6 || v == 16,
        0 <= n <= 64,
    ensures
        last_code_pos(spec_board_bytes(g.board), v, n) == (if n > sq_of(
            if v == 6 {
                g.white_king
            } else {
                g.black_king
            },
        ) {
            Some(
                if v == 6 {
                    g.white_king
                } else {
                    g.black_king
                },
            )
        } else {
            None::<Position>
        }),
    decreases n,
{
    let k = if v == 6 {
        g.white_king
    } else {
        g.black_king
    };
    let bytes = spec_board_bytes(g.board);
    lemma_pos_at_sq(k);
    if n > 0 {
        assert(bytes[n - 1] == spec_piece_byte(g.board[n - 1]));
        if bytes[n - 1] == v {
            assert(g.board[n - 1] matches Some(p) && p.kind == PieceEnum::KING && (p.color
                == Color::WHITE <==> v == 6));
            assert(n - 1 == sq_of(k));
            lemma_sq_pos_at(n - 1);
        } else {
            assert(n - 1 != sq_of(k));
            lemma_last_king_code(g, v, n - 1);
        }
    }
}

/// The snapshot of a well-formed game can be restored: its board
/// encoding is 64 valid square values holding both kings, so a later
/// undo decodes it. This is what lets a caller take back a move it
/// just made.
pub proof fn lemma_snapshot_ok(g: GameV)
    requires
        spec_game_wf(g),
    ensures
        snapshot_ok(spec_snapshot(g)),
{
    let bytes = spec_board_bytes(g.board);
    assert forall|i: int| 0 <= i < 64 implies crate::pieces::to_piece::valid_square_byte(
        #[trigger] bytes[i],
    ) by {
        lemma_piece_round_trip(g.board[i], pos_at(i));
    }
    lemma_pos_at_sq(g.white_king);
    lemma_pos_at_sq(g.black_king);
    assert(bytes[sq_of(g.white_king)] == 6);
    assert(bytes[sq_of(g.black_king)] == 16);
    lemma_code_present(bytes, 6, sq_of(g.white_king), 64);
    lemma_code_present(bytes, 16, sq_of(g.black_king), 64);
}

/// Undo invariant: after a move is made, one undo restores the state
/// field by field — board, rights, en passant target, clocks, side to
/// move, cached king squares and history.
pub proof fn lemma_undo_after_make(g: GameV, mv: ChessMove)
    requires
        spec_game_wf(g),
        kings_unique(g),
    ensures
        spec_undo(spec_make(g, mv)) == g,
{
    let h = spec_make(g, mv);
    let u = spec_undo(h);
    assert(h.history.last() == crate::game::spec_snapshot(g));
    assert(h.history.drop_last() =~= g.history);
    let bytes = spec_board_bytes(g.board);
    assert forall|i: int| 0 <= i < 64 implies spec_decoded_board(bytes)[i] == g.board[i] by {
        lemma_piece_round_trip(g.board[i], pos_at(i));
    }
    assert(u.board =~= g.board);
    lemma_last_king_code(g, 6, 64);
    lemma_last_king_code(g, 16, 64);
    lemma_pos_at_sq(g.white_king);
    lemma_pos_at_sq(g.black_king);
    assert(u =~= g);
}

/// Some square among the first `n` holds a non-king piece of `side`
/// whose pin-aware moves include `mv`.
pub open spec fn some_piece_move(
    b: Seq<Option<Piece>>,
    side: Color,
    king: Position,
    en_passant: Option<Position>,
    n: int,
    mv: ChessMove,
) -> bool {
    exists|i: int|
        0 <= i < n && (match #[trigger] b[i] {
            Some(p) => p.color == side && p.kind != PieceEnum::KING && spec_piece_moves(
                b,
                p,
                king,
                en_passant,
            ).contains(mv),
            None => false,
        })
}

/// Every collected non-king move is a pin-aware move of some non-king
/// piece of the moving side.
proof fn lemma_non_king_moves_mem(
    b: Seq<Option<Piece>>,
    side: Color,
    king: Position,
    en_passant: Option<Position>,
    n: int,
    mv: ChessMove,
)
    requires
        0 <= n <= 64,
        non_king_moves_upto(b, side, king, en_passant, n).contains(mv),
    ensures
        some_piece_move(b, side, king, en_passant, n, mv),
    decreases n,
{
    let whole = non_king_moves_upto(b, side, king, en_passant, n);
    assert(n > 0);
    let prev = non_king_moves_upto(b, side, king, en_passant, n - 1);
    let chunk = match b[n - 1] {
        Some(p) => if p.color == side && p.kind != PieceEnum::KING {
            spec_piece_moves(b, p, king, en_passant)
        } else {
            Seq::empty()
        },
        None => Seq::empty(),
    };
    let j = choose|j: int| 0 <= j < whole.len() && whole[j] == mv;
    if j < prev.len() {
        assert(prev[j] == mv);
        assert(prev.contains(mv));
        lemma_non_king_moves_mem(b, side, king, en_passant, n - 1, mv);
        let i = choose|i: int|
            0 <= i < n - 1 && (match #[trigger] b[i] {
                Some(p) => p.color == side && p.kind != PieceEnum::KING && spec_piece_moves(
                    b,
                    p,
                    king,
                    en_passant,
                ).contains(mv),
                None => false,
            });
        assert(0 <= i < n && (match b[i] {
            Some(p) => p.color == side && p.kind != PieceEnum::KING && spec_piece_moves(
                b,
                p,
                king,
                en_passant,
            ).contains(mv),
            None => false,
        }));
    } else {
        assert(chunk[j - prev.len()] == mv);
        assert(chunk.contains(mv));
        assert(b[n - 1] matches Some(p) && p.color == side && p.kind != PieceEnum::KING
            && spec_piece_moves(b, p, king, en_passant).contains(mv));
    }
}

/// Pin soundness: a non-king piece whose pin resolver returns a
/// whitelist never has a legal destination outside it — its legal
/// moves stay on the pin line, up to and including the pinning slider.
pub proof fn lemma_pin_soundness(g: GameV, piece: Piece, ws: Seq<Position>, mv: ChessMove)
    requires
        spec_game_wf(g),
        on_board(piece.position),
        g.board[sq_of(piece.position)] == Some(piece),
        piece.color == g.side_to_move,
        piece.kind != PieceEnum::KING,
        spec_pin_restriction(g.board, piece, spec_current_king(g)) == Some(ws),
        spec_legal_moves(g).contains(mv),
        mv.from == piece.position,
    ensures
        ws.contains(mv.to),
{
    let king_pos = spec_current_king(g);
    let ab = spec_attacked_of(g);
    let checkers = ab[sq_of(king_pos)];
    crate::game::lemma_king_legal_moves_shape(g, ab);
    let kingm = spec_king_legal_moves(g, ab);
    // the pinned piece does not stand on the king's square
    assert(piece.position != king_pos) by {
        if piece.position == king_pos {
            assert(g.board[sq_of(king_pos)] == Some(crate::game::spec_king_piece(g)));
        }
    }
    let legal = spec_legal_moves(g);
    if checkers.len() > 1 {
        let j = choose|j: int| 0 <= j < kingm.len() && kingm[j] == mv;
        assert(false);
    } else {
        let moves = non_king_moves_upto(g.board, g.side_to_move, king_pos, g.en_passant, 64);
        let fold_part: Seq<ChessMove> = if checkers.len() == 0 {
            moves
        } else {
            let attacker = checkers[0];
            if attacker.kind == PieceEnum::KNIGHT {
                moves.filter(to_target_pred(attacker.position))
            } else if attacker.kind == PieceEnum::PAWN {
                moves.filter(pawn_check_pred(g.board, g.en_passant, attacker))
            } else {
                moves.filter(block_pred(spec_allowed_block(g.board, king_pos, attacker.position)))
            }
        };
        assert(legal == fold_part + kingm);
        let j = choose|j: int| 0 <= j < legal.len() && legal[j] == mv;
        if j < fold_part.len() {
            assert(fold_part[j] == mv);
        } else {
            assert(kingm[j - fold_part.len()] == mv);
            assert(false);
        }
        assert(fold_part.contains(mv));
        if checkers.len() != 0 {
            let attacker = checkers[0];
            if attacker.kind == PieceEnum::KNIGHT {
                lemma_filter_subset(moves, to_target_pred(attacker.position));
            } else if attacker.kind == PieceEnum::PAWN {
                lemma_filter_subset(moves, pawn_check_pred(g.board, g.en_passant, attacker));
            } else {
                lemma_filter_subset(
                    moves,
                    block_pred(spec_allowed_block(g.board, king_pos, attacker.position)),
                );
            }
            let jj = choose|jj: int| 0 <= jj < fold_part.len() && fold_part[jj] == mv;
            assert(moves.contains(mv));
        }
        lemma_non_king_moves_mem(g.board, g.side_to_move, king_pos, g.en_passant, 64, mv);
        let i = choose|i: int|
            0 <= i < 64 && (match #[trigger] g.board[i] {
                Some(p) => p.color == g.side_to_move && p.kind != PieceEnum::KING
                    && spec_piece_moves(g.board, p, king_pos, g.en_passant).contains(mv),
                None => false,
            });
        let p_i = g.board[i]->Some_0;
        lemma_sq_pos_at(i);
        assert(p_i.position == pos_at(i));
        lemma_piece_moves_shape(g.board, p_i, king_pos, g.en_passant);
        let pm = spec_piece_moves(g.board, p_i, king_pos, g.en_passant);
        let k = choose|k: int| 0 <= k < pm.len() && pm[k] == mv;
        assert(pm[k].from == p_i.position);
        assert(p_i.position == piece.position);
        assert(sq_of(p_i.position) == i);
        lemma_pos_at_sq(piece.position);
        assert(i == sq_of(piece.position));
        assert(p_i == piece);
        // the piece's moves are its pin-unaware moves cut to the whitelist
        let mi = crate::pieces::piece::spec_moves_ignoring_pins(
            g.board,
            piece,
            g.en_passant,
            king_pos,
        );
        assert(pm == mi.filter(crate::pieces::piece::pin_pred(ws)));
        mi.lemma_filter_pred(crate::pieces::piece::pin_pred(ws), k);
        assert(ws.contains(pm[k].to));
    }
}

/// A legal move is either a move of the side-to-move's king or a
/// pin-aware move of one of its other pieces.
proof fn lemma_legal_move_split(g: GameV, mv: ChessMove)
    requires
        spec_game_wf(g),
        spec_legal_moves(g).contains(mv),
    ensures
        spec_king_legal_moves(g, spec_attacked_of(g)).contains(mv) || some_piece_move(
            g.board,
            g.side_to_move,
            spec_current_king(g),
            g.en_passant,
            64,
            mv,
        ),
{
    let king_pos = spec_current_king(g);
    let ab = spec_attacked_of(g);
    let checkers = ab[sq_of(king_pos)];
    let kingm = spec_king_legal_moves(g, ab);
    let legal = spec_legal_moves(g);
    if checkers.len() > 1 {
    } else {
        let moves = non_king_moves_upto(g.board, g.side_to_move, king_pos, g.en_passant, 64);
        let fold_part: Seq<ChessMove> = if checkers.len() == 0 {
            moves
        } else {
            let attacker = checkers[0];
            if attacker.kind == PieceEnum::KNIGHT {
                moves.filter(to_target_pred(attacker.position))
            } else if attacker.kind == PieceEnum::PAWN {
                moves.filter(pawn_check_pred(g.board, g.en_passant, attacker))
            } else {
                moves.filter(block_pred(spec_allowed_block(g.board, king_pos, attacker.position)))
            }
        };
        assert(legal == fold_part + kingm);
        let j = choose|j: int| 0 <= j < legal.len() && legal[j] == mv;
        if j < fold_part.len() {
            assert(fold_part[j] == mv);
            assert(fold_part.contains(mv));
            if checkers.len() != 0 {
                let attacker = checkers[0];
                if attacker.kind == PieceEnum::KNIGHT {
                    lemma_filter_subset(moves, to_target_pred(attacker.position));
                } else if attacker.kind == PieceEnum::PAWN {
                    lemma_filter_subset(moves, pawn_check_pred(g.board, g.en_passant, attacker));
                } else {
                    lemma_filter_subset(
                        moves,
                        block_pred(spec_allowed_block(g.board, king_pos, attacker.position)),
                    );
                }
                let jj = choose|jj: int| 0 <= jj < fold_part.len() && fold_part[jj] == mv;
                assert(moves.contains(mv));
            }
            lemma_non_king_moves_mem(g.board, g.side_to_move, king_pos, g.en_passant, 64, mv);
        } else {
            assert(kingm[j - fold_part.len()] == mv);
            assert(kingm.contains(mv));
        }
    }
}

/// What stands on the source square of a legal move: a piece of the
/// side to move; a king only when the move is the king's own, and a
/// promotion only when it is a pawn's.
pub proof fn lemma_legal_move_origin(g: GameV, mv: ChessMove)
    requires
        spec_game_wf(g),
        spec_legal_moves(g).contains(mv),
    ensures
        on_board(mv.from),
        on_board(mv.to),
        g.board[sq_of(mv.from)] is Some,
        g.board[sq_of(mv.from)]->Some_0.color == g.side_to_move,
        g.board[sq_of(mv.from)]->Some_0.kind == PieceEnum::KING ==> mv.from == spec_current_king(
            g,
        ),
        mv.promotion is Some ==> g.board[sq_of(mv.from)]->Some_0.kind == PieceEnum::PAWN,
{
    crate::game::lemma_legal_moves_shape(g);
    let legal = spec_legal_moves(g);
    let j0 = choose|j0: int| 0 <= j0 < legal.len() && legal[j0] == mv;
    assert(on_board(mv.from) && on_board(mv.to) && g.board[sq_of(mv.from)] is Some);
    let king_pos = spec_current_king(g);
    let ab = spec_attacked_of(g);
    crate::game::lemma_king_legal_moves_shape(g, ab);
    let kingm = spec_king_legal_moves(g, ab);
    lemma_legal_move_split(g, mv);
    if kingm.contains(mv) {
        let j = choose|j: int| 0 <= j < kingm.len() && kingm[j] == mv;
        assert(mv.from == king_pos);
        assert(g.board[sq_of(king_pos)] == Some(crate::game::spec_king_piece(g)));
        assert(mv.promotion is None);
    } else {
        let i = choose|i: int|
            0 <= i < 64 && (match #[trigger] g.board[i] {
                Some(p) => p.color == g.side_to_move && p.kind != PieceEnum::KING
                    && spec_piece_moves(g.board, p, king_pos, g.en_passant).contains(mv),
                None => false,
            });
        let p_i = g.board[i]->Some_0;
        lemma_sq_pos_at(i);
        lemma_piece_moves_shape(g.board, p_i, king_pos, g.en_passant);
        let pm = spec_piece_moves(g.board, p_i, king_pos, g.en_passant);
        let k = choose|k: int| 0 <= k < pm.len() && pm[k] == mv;
        assert(pm[k].from == p_i.position);
        assert(sq_of(mv.from) == i);
        assert(g.board[sq_of(mv.from)] == Some(p_i));
        if mv.promotion is Some && p_i.kind != PieceEnum::PAWN {
            lemma_piece_moves_promotions(g.board, p_i, king_pos, g.en_passant);
            assert(pm[k].promotion is None);
        }
    }
}

/// No king stands on the square `p`.
pub open spec fn not_a_king_square(b: Seq<Option<Piece>>, p: Position) -> bool {
    !(b[sq_of(p)] matches Some(q) && q.kind == PieceEnum::KING)
}

/// Applying a legal move keeps the game well formed and its kings
/// unique, provided the move clears or fills no king's square besides
/// the mover's own: its destination, the passed pawn's square on an en
/// passant capture, and the moved rook's home square on a castle hold
/// no king. In ordinary play they never do: a legal position never
/// offers the capture of a king.
pub proof fn lemma_make_preserves_wf(g: GameV, mv: ChessMove)
    requires
        spec_game_wf(g),
        kings_unique(g),
        spec_legal_moves(g).contains(mv),
        not_a_king_square(g.board, mv.to),
        g.en_passant == Some(mv.to) ==> not_a_king_square(
            g.board,
            Position(
                mv.to.0,
                if g.side_to_move == Color::WHITE {
                    5
                } else {
                    4
                },
            ),
        ),
        mv.to.0 == mv.from.0 + 2 && mv.from.0 + 3 <= 8 ==> not_a_king_square(
            g.board,
            Position((mv.from.0 + 3) as u8, mv.from.1),
        ),
        mv.from.0 == mv.to.0 + 2 && mv.from.0 >= 5 ==> not_a_king_square(
            g.board,
            Position((mv.from.0 - 4) as u8, mv.from.1),
        ),
    ensures
        spec_game_wf(spec_make(g, mv)),
        kings_unique(spec_make(g, mv)),
{
    lemma_legal_move_origin(g, mv);
    let side = g.side_to_move;
    let king_pos = spec_current_king(g);
    let h = spec_make(g, mv);
    let piece0 = g.board[sq_of(mv.from)]->Some_0;
    let is_king = piece0.kind == PieceEnum::KING;
    let is_pawn = piece0.kind == PieceEnum::PAWN;
    lemma_pos_at_sq(mv.from);
    lemma_pos_at_sq(mv.to);
    lemma_pos_at_sq(g.white_king);
    lemma_pos_at_sq(g.black_king);
    assert(g.white_king != g.black_king);

    // the two board squares an en passant capture may clear
    let two_step = (mv.from.1 == 2 && mv.to.1 == 4) || (mv.from.1 == 7 && mv.to.1 == 5);
    let ep_hit = is_pawn && !two_step && g.en_passant == Some(mv.to);
    let ps = if side == Color::WHITE {
        Position(mv.to.0, 5)
    } else {
        Position(mv.to.0, 4)
    };
    if ep_hit {
        lemma_pos_at_sq(ps);
    }

    // a two-file king move is a castle over checked squares
    let castle_kingside = is_king && mv.to.0 == mv.from.0 + 2 && mv.from.0 + 3 <= 8;
    let castle_queenside = is_king && mv.from.0 >= 5 && mv.from.0 - 2 == mv.to.0;
    let rook_home = if castle_kingside {
        Position((mv.from.0 + 3) as u8, mv.from.1)
    } else if castle_queenside {
        Position((mv.from.0 - 4) as u8, mv.from.1)
    } else {
        Position(0, 0)
    };
    let rook_dest = if castle_kingside {
        Position((mv.from.0 + 1) as u8, mv.to.1)
    } else if castle_queenside {
        Position((mv.from.0 - 1) as u8, mv.to.1)
    } else {
        Position(0, 0)
    };
    if is_king {
        assert(mv.from == king_pos);
        // the king's own move cannot be one of another piece
        let ab = spec_attacked_of(g);
        crate::game::lemma_king_legal_moves_shape(g, ab);
        lemma_legal_move_split(g, mv);
        if !spec_king_legal_moves(g, ab).contains(mv) {
            let i = choose|i: int|
                0 <= i < 64 && (match #[trigger] g.board[i] {
                    Some(p) => p.color == g.side_to_move && p.kind != PieceEnum::KING
                        && spec_piece_moves(g.board, p, king_pos, g.en_passant).contains(mv),
                    None => false,
                });
            let p_i = g.board[i]->Some_0;
            lemma_sq_pos_at(i);
            lemma_piece_moves_shape(g.board, p_i, king_pos, g.en_passant);
            let pm = spec_piece_moves(g.board, p_i, king_pos, g.en_passant);
            let k = choose|k: int| 0 <= k < pm.len() && pm[k] == mv;
            assert(pm[k].from == p_i.position);
            assert(g.board[sq_of(mv.from)] == Some(p_i));
            assert(false);
        }
        if castle_kingside || castle_queenside {
            crate::game::lemma_king_legal_moves_castle(g, ab, mv);
            assert(mv.to.1 == mv.from.1);
            lemma_pos_at_sq(rook_home);
            lemma_pos_at_sq(rook_dest);
            // the square the rook lands on was empty: the castle checked it
            assert(g.board[sq_of(rook_dest)] is None);
        }
    }

    assert forall|i: int| 0 <= i < 64 implies ((#[trigger] h.board[i]) matches Some(p) ==>
        p.position == pos_at(i)) by {
        if h.board[i] is Some {
            if i == sq_of(mv.to) {
                lemma_sq_pos_at(i);
            } else if (castle_kingside || castle_queenside) && on_board(rook_dest) && i == sq_of(
                rook_dest,
            ) {
                lemma_sq_pos_at(i);
            } else {
                assert(h.board[i] == g.board[i]);
            }
        }
    }

    let wk2 = h.white_king;
    let bk2 = h.black_king;
    assert(on_board(wk2) && on_board(bk2));

    // each cached king square holds its king afterwards
    if is_king {
        assert(h.board[sq_of(mv.to)] == Some(
            Piece { kind: PieceEnum::KING, color: side, position: mv.to },
        ));
        let opp_king = if side == Color::WHITE {
            g.black_king
        } else {
            g.white_king
        };
        assert(sq_of(opp_king) != sq_of(mv.from));
        if castle_kingside || castle_queenside {
            assert(sq_of(rook_home) != sq_of(opp_king));
            assert(sq_of(rook_dest) != sq_of(opp_king));
        }
        assert(h.board[sq_of(opp_king)] == g.board[sq_of(opp_king)]);
    } else {
        assert(sq_of(mv.from) != sq_of(g.white_king) && sq_of(mv.from) != sq_of(g.black_king));
        assert(sq_of(mv.to) != sq_of(g.white_king) && sq_of(mv.to) != sq_of(g.black_king));
        if ep_hit {
            assert(sq_of(ps) != sq_of(g.white_king) && sq_of(ps) != sq_of(g.black_king));
        }
        assert(h.board[sq_of(g.white_king)] == g.board[sq_of(g.white_king)]);
        assert(h.board[sq_of(g.black_king)] == g.board[sq_of(g.black_king)]);
    }

    // no second king appears anywhere
    assert forall|i: int| 0 <= i < 64 implies (match #[trigger] h.board[i] {
        Some(p) => p.kind == PieceEnum::KING ==> (if p.color == Color::WHITE {
            i == sq_of(wk2)
        } else {
            i == sq_of(bk2)
        }),
        None => true,
    }) by {
        if h.board[i] matches Some(p) && p.kind == PieceEnum::KING {
            if i == sq_of(mv.to) {
                assert(is_king);
            } else if (castle_kingside || castle_queenside) && on_board(rook_dest) && i == sq_of(
                rook_dest,
            ) {
                assert(false);
            } else {
                assert(h.board[i] == g.board[i]);
            }
        }
    }
}

} // verus!

