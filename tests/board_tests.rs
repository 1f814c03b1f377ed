use mangrove::bitboard::BitBoard;
use mangrove::board::{Board, MoveTextError};
use mangrove::color::Color;
use mangrove::pieces::{Move, MoveMeta, Piece, PieceKind};
use mangrove::square::Square;
use mangrove::zobrist::{zobrist_ep_file, zobrist_piece, zobrist_side};

fn sq(name: &str) -> Square {
    let chars: Vec<char> = name.chars().collect();
    Square::from_chars(chars[0], chars[1]).unwrap()
}

fn piece(kind: PieceKind, color: Color) -> Piece {
    Piece { kind, color }
}

fn board_with(to_move: Color, pieces: &[(PieceKind, Color, &str)]) -> Board {
    let mut b = Board::empty(to_move);
    for (kind, color, name) in pieces {
        b.place_piece(piece(*kind, *color), sq(name));
    }
    b.update_move_constraints();
    b
}

fn play(b: &mut Board, text: &str) -> bool {
    let m = b.interpret_move(text).unwrap();
    let irreversible = b.make_move_unchecked(&m);
    assert_eq!(b.hash, b.compute_hash(), "hash after {}", text);
    irreversible
}

#[test]
fn starting_position_pieces() {
    let b = Board::starting_position();
    assert_eq!(b.get_piece(sq("e1")), Some(piece(PieceKind::King, Color::White)));
    assert_eq!(b.get_piece(sq("d8")), Some(piece(PieceKind::Queen, Color::Black)));
    assert_eq!(b.get_piece(sq("b2")), Some(piece(PieceKind::Pawn, Color::White)));
    assert_eq!(b.get_piece(sq("e4")), None);
    assert_eq!(b.white_player().occupation, BitBoard(0xffff));
    assert_eq!(b.black_player().occupation, BitBoard(0xffff_0000_0000_0000));
    assert_eq!(b.hash, b.compute_hash());
    assert!(!b.current_player.king_must_move);
    assert!(b.current_player.valid_targets.is_full());
}

#[test]
fn double_push_from_start() {
    let mut b = Board::starting_position();
    let m = b.interpret_move("e2e4").unwrap();
    assert_eq!(m.meta, MoveMeta::DoublePush);
    let before = b.hash;
    let irreversible = b.make_move_unchecked(&m);
    assert!(irreversible);
    let ep = b.ep_data.unwrap();
    assert_eq!(ep.pawn, sq("e4"));
    assert_eq!(ep.capture_point, sq("e3").as_bitboard());
    let pawn = piece(PieceKind::Pawn, Color::White);
    let expected = zobrist_piece(pawn, sq("e2"))
        ^ zobrist_piece(pawn, sq("e4"))
        ^ zobrist_ep_file(sq("e4"))
        ^ zobrist_side(Color::White)
        ^ zobrist_side(Color::Black);
    assert_eq!(before ^ b.hash, expected);
    assert_eq!(b.hash, b.compute_hash());
    assert_eq!(b.current_color, Color::Black);
}

#[test]
fn hash_follows_a_game() {
    let mut b = Board::starting_position();
    assert!(play(&mut b, "e2e4"));
    assert!(play(&mut b, "d7d5"));
    assert!(play(&mut b, "e4d5"));
    assert!(play(&mut b, "c7c5"));
    let ep_move = b.interpret_move("d5c6").unwrap();
    assert_eq!(ep_move.meta, MoveMeta::EnPassant);
    assert!(play(&mut b, "d5c6"));
    assert_eq!(b.get_piece(sq("c5")), None);
    assert!(!b.black_player().pawns.get_bit(sq("c5")));
    assert!(!b.black_player().occupation.get_bit(sq("c5")));
    assert_eq!(b.get_piece(sq("c6")), Some(piece(PieceKind::Pawn, Color::White)));
    assert!(b.white_player().occupation.get_bit(sq("c6")));
    assert!(play(&mut b, "b7c6"));
    assert!(!play(&mut b, "g1f3"));
    assert!(!play(&mut b, "g8f6"));
    assert!(!play(&mut b, "f1e2"));
    assert!(play(&mut b, "e7e6"));
    let castle = b.interpret_move("e1g1").unwrap();
    assert_eq!(castle.meta, MoveMeta::CastleKs);
    assert!(!play(&mut b, "e1g1"));
    assert_eq!(b.get_piece(sq("f1")), Some(piece(PieceKind::Rook, Color::White)));
    assert_eq!(b.get_piece(sq("h1")), None);
    assert_eq!(b.get_piece(sq("g1")), Some(piece(PieceKind::King, Color::White)));
}

#[test]
fn promotion_keeps_hash() {
    let mut b = board_with(
        Color::White,
        &[
            (PieceKind::King, Color::White, "a1"),
            (PieceKind::King, Color::Black, "h8"),
            (PieceKind::Pawn, Color::White, "c7"),
        ],
    );
    let m = b.interpret_move("c7c8n").unwrap();
    assert_eq!(m.meta, MoveMeta::Promotion(PieceKind::Knight));
    assert!(b.make_move_unchecked(&m));
    assert_eq!(b.get_piece(sq("c8")), Some(piece(PieceKind::Knight, Color::White)));
    assert!(b.black_player().king.get_bit(sq("h8")));
    assert!(b.white_player().knights.get_bit(sq("c8")));
    assert!(!b.white_player().pawns.get_bit(sq("c8")));
    assert_eq!(b.hash, b.compute_hash());
}

#[test]
fn queen_side_castle_moves_rook() {
    let mut b = board_with(
        Color::Black,
        &[
            (PieceKind::King, Color::White, "e1"),
            (PieceKind::King, Color::Black, "e8"),
            (PieceKind::Rook, Color::Black, "a8"),
        ],
    );
    let m = b.interpret_move("e8c8").unwrap();
    assert_eq!(m.meta, MoveMeta::CastleQs);
    b.make_move_unchecked(&m);
    assert_eq!(b.get_piece(sq("d8")), Some(piece(PieceKind::Rook, Color::Black)));
    assert_eq!(b.get_piece(sq("a8")), None);
    assert_eq!(b.hash, b.compute_hash());
}

#[test]
fn castling_rights_are_revoked() {
    let mut b = Board::starting_position();
    play(&mut b, "g2g3");
    play(&mut b, "g7g6");
    play(&mut b, "g1f3");
    play(&mut b, "g8f6");
    play(&mut b, "h1g1");
    assert!(!b.white_player().castling_rights.get_bit(sq("h1")));
    assert!(b.white_player().castling_rights.get_bit(sq("a1")));
    assert!(b.black_player().castling_rights.get_bit(sq("h8")));
}

#[test]
fn rook_off_the_king_lines_gives_no_check() {
    let b = board_with(
        Color::White,
        &[(PieceKind::King, Color::White, "e1"), (PieceKind::Rook, Color::Black, "h4")],
    );
    assert!(b.current_player.valid_targets.is_full());
    assert!(!b.current_player.king_must_move);
}

#[test]
fn queen_on_open_file_gives_check() {
    let b = board_with(
        Color::White,
        &[(PieceKind::King, Color::White, "e1"), (PieceKind::Queen, Color::Black, "e8")],
    );
    assert!(!b.current_player.king_must_move);
    assert!(b.current_player.pins.vertical.is_empty());
    let mut expected = BitBoard(0);
    for name in ["e2", "e3", "e4", "e5", "e6", "e7", "e8"] {
        expected.toggle_bit(sq(name));
    }
    assert_eq!(b.current_player.valid_targets, expected);
}

#[test]
fn piece_between_king_and_queen_is_pinned() {
    let b = board_with(
        Color::White,
        &[
            (PieceKind::King, Color::White, "e1"),
            (PieceKind::Queen, Color::Black, "e8"),
            (PieceKind::Bishop, Color::White, "e4"),
        ],
    );
    assert!(b.current_player.pins.vertical.get_bit(sq("e4")));
    assert!(b.current_player.valid_targets.is_full());
    assert!(!b.current_player.king_must_move);
}

#[test]
fn double_check_forces_king_move() {
    let b = board_with(
        Color::White,
        &[
            (PieceKind::King, Color::White, "e1"),
            (PieceKind::Rook, Color::Black, "e8"),
            (PieceKind::Knight, Color::Black, "d3"),
        ],
    );
    assert!(b.current_player.king_must_move);
}

#[test]
fn single_knight_check_restricts_targets() {
    let b = board_with(
        Color::White,
        &[(PieceKind::King, Color::White, "e1"), (PieceKind::Knight, Color::Black, "f3")],
    );
    assert_eq!(b.current_player.valid_targets, sq("f3").as_bitboard());
    assert!(!b.current_player.king_must_move);
}

#[test]
fn pawn_check_restricts_targets() {
    let b = board_with(
        Color::White,
        &[(PieceKind::King, Color::White, "e4"), (PieceKind::Pawn, Color::Black, "d5")],
    );
    assert_eq!(b.current_player.valid_targets, sq("d5").as_bitboard());
}

fn round_trip(b: &Board, m: Move) {
    let text = m.to_text();
    assert_eq!(b.interpret_move(&text), Ok(m), "{}", text);
}

#[test]
fn move_text_round_trips() {
    let start = Board::starting_position();
    round_trip(
        &start,
        Move { origin: sq("e2"), target: sq("e4"), moved_piece_kind: PieceKind::Pawn, meta: MoveMeta::DoublePush },
    );
    round_trip(
        &start,
        Move { origin: sq("g1"), target: sq("f3"), moved_piece_kind: PieceKind::Knight, meta: MoveMeta::Plain },
    );
    round_trip(
        &start,
        Move { origin: sq("e2"), target: sq("e3"), moved_piece_kind: PieceKind::Pawn, meta: MoveMeta::Plain },
    );
    let pawns = board_with(
        Color::White,
        &[
            (PieceKind::King, Color::White, "a1"),
            (PieceKind::King, Color::Black, "h8"),
            (PieceKind::Pawn, Color::White, "e7"),
            (PieceKind::Pawn, Color::White, "e5"),
            (PieceKind::Pawn, Color::Black, "d5"),
        ],
    );
    for kind in [PieceKind::Queen, PieceKind::Rook, PieceKind::Bishop, PieceKind::Knight] {
        round_trip(
            &pawns,
            Move { origin: sq("e7"), target: sq("e8"), moved_piece_kind: PieceKind::Pawn, meta: MoveMeta::Promotion(kind) },
        );
    }
    round_trip(
        &pawns,
        Move { origin: sq("e5"), target: sq("d6"), moved_piece_kind: PieceKind::Pawn, meta: MoveMeta::EnPassant },
    );
    let kings = board_with(
        Color::White,
        &[
            (PieceKind::King, Color::White, "e1"),
            (PieceKind::Rook, Color::White, "a1"),
            (PieceKind::Rook, Color::White, "h1"),
            (PieceKind::King, Color::Black, "e8"),
        ],
    );
    round_trip(
        &kings,
        Move { origin: sq("e1"), target: sq("g1"), moved_piece_kind: PieceKind::King, meta: MoveMeta::CastleKs },
    );
    round_trip(
        &kings,
        Move { origin: sq("e1"), target: sq("c1"), moved_piece_kind: PieceKind::King, meta: MoveMeta::CastleQs },
    );
    round_trip(
        &kings,
        Move { origin: sq("e8"), target: sq("g8"), moved_piece_kind: PieceKind::King, meta: MoveMeta::CastleKs },
    );
    round_trip(
        &kings,
        Move { origin: sq("e1"), target: sq("e2"), moved_piece_kind: PieceKind::King, meta: MoveMeta::Plain },
    );
}

#[test]
fn move_text_errors() {
    let b = Board::starting_position();
    assert_eq!(b.interpret_move("e2"), Err(MoveTextError::Length));
    assert_eq!(b.interpret_move("e2e4e5"), Err(MoveTextError::Length));
    assert_eq!(b.interpret_move("z9e4"), Err(MoveTextError::Square));
    assert_eq!(b.interpret_move("e2E4"), Err(MoveTextError::Square));
    assert_eq!(b.interpret_move("e3e4"), Err(MoveTextError::NoPiece));
    let p = board_with(Color::White, &[(PieceKind::Pawn, Color::White, "e7")]);
    assert_eq!(p.interpret_move("e7e8x"), Err(MoveTextError::Promotion));
    assert_eq!(b.interpret_move("g1f3x"), Err(MoveTextError::Promotion));
    assert_eq!(b.interpret_move("e2e4x"), Err(MoveTextError::Promotion));
}

#[test]
fn text_of_moves() {
    let m = Move { origin: sq("e7"), target: sq("e8"), moved_piece_kind: PieceKind::Pawn, meta: MoveMeta::Promotion(PieceKind::Queen) };
    assert_eq!(m.to_text(), "e7e8q");
    let n = Move { origin: sq("b1"), target: sq("c3"), moved_piece_kind: PieceKind::Knight, meta: MoveMeta::Plain };
    assert_eq!(n.to_text(), "b1c3");
}
