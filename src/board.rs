use vstd::prelude::*;

use crate::attacks::{
    knight_attacks, knight_bits, ray_bits, separated_bishop_slides, separated_rook_slides,
};
use crate::bitboard::{popcount, right_bits, up_bits, BitBoard};
use crate::color::{opposite, Color};
use crate::pieces::{
    move_text, promotion_kind, EpData, Move, MoveMeta, Piece, PieceKind, Pins, Player,
};
use crate::square::{file_of, parse_square, rank_of, square_text, Square};
use crate::zobrist::{
    castling_key, ep_file_key, lemma_fold_ext, lemma_fold_update, piece_key, side_key, xor_fold,
    zobrist_castling_rights, zobrist_ep_file, zobrist_piece, zobrist_side,
};

verus! {

/// A position: the side to move and its opponent, each with its pieces, the kind of piece on
/// each square, the en passant state and the Zobrist hash.
#[derive(Clone, Debug)]
pub struct Board {
    pub current_player: Player,
    pub opposing_player: Player,
    pub current_color: Color,
    pub piece_table: Vec<Option<PieceKind>>,
    pub ep_data: Option<EpData>,
    pub hash: u64,
}

/// The color of the piece on square `s`: the side whose occupation holds it.
pub open spec fn color_on(b: Board, s: int) -> Color {
    if b.current_player.occupation.contains(s) {
        b.current_color
    } else {
        opposite(b.current_color)
    }
}

/// The piece on square `s`, if any.
pub open spec fn piece_on(b: Board, s: int) -> Option<Piece> {
    match b.piece_table@[s] {
        None => None,
        Some(kind) => Some(Piece { kind, color: color_on(b, s) }),
    }
}

/// The hash key of what stands on square `s`: 0 for an empty square.
pub open spec fn square_term(b: Board, s: int) -> u64 {
    match piece_on(b, s) {
        None => 0,
        Some(p) => piece_key(p, s),
    }
}

/// Square by square, the hash key of what stands there.
pub open spec fn piece_terms(b: Board) -> spec_fn(int) -> u64 {
    |s: int| square_term(b, s)
}

/// The hash key of the en passant state: that of the file of the pawn that may be taken.
pub open spec fn ep_term(ep: Option<EpData>) -> u64 {
    match ep {
        None => 0,
        Some(e) => ep_file_key(file_of(e.pawn@)),
    }
}

/// The part of the hash that does not come from the pieces.
pub open spec fn hash_rest(b: Board) -> u64 {
    ((castling_key(b.current_player.castling_rights) ^ castling_key(
        b.opposing_player.castling_rights,
    )) ^ ep_term(b.ep_data)) ^ side_key(b.current_color)
}

/// The Zobrist hash of a position, computed from scratch: the XOR of the keys of the pieces
/// on their squares, of the castling rights, of the en passant file and of the side to move.
pub open spec fn board_hash(b: Board) -> u64 {
    xor_fold(piece_terms(b), 64) ^ hash_rest(b)
}

/// The piece table and the occupations agree: a square holds a piece exactly when one of the
/// two sides occupies it, and never both do.
pub open spec fn tables_agree(b: Board) -> bool {
    occupancy_agrees(b.piece_table@, b.current_player.occupation, b.opposing_player.occupation)
}

/// A table of 64 squares holds a piece on a square exactly when one of `ours` and `theirs`
/// holds the square, and never both do.
#[verifier::opaque]
pub open spec fn occupancy_agrees(table: Seq<Option<PieceKind>>, ours: BitBoard, theirs: BitBoard) -> bool {
    &&& table.len() == 64
    &&& forall|s: int| 0 <= s < 64 ==> (#[trigger] table[s] is Some <==> (ours.contains(s) || theirs.contains(s)))
    &&& forall|s: int| !(#[trigger] ours.contains(s) && theirs.contains(s))
}

/// In a position whose tables agree, an empty square is occupied by neither side, and an
/// occupied square holds a piece.
pub proof fn lemma_agree_facts(b: Board, s: int)
    requires
        tables_agree(b),
        0 <= s < 64,
    ensures
        b.piece_table@.len() == 64,
        b.piece_table@[s] is Some ==> b.current_player.occupation.contains(s) || b.opposing_player.occupation.contains(s),
        b.piece_table@[s] is None ==> !b.current_player.occupation.contains(s) && !b.opposing_player.occupation.contains(s),
        b.current_player.occupation.contains(s) ==> b.piece_table@[s] is Some && !b.opposing_player.occupation.contains(s),
        b.opposing_player.occupation.contains(s) ==> b.piece_table@[s] is Some && !b.current_player.occupation.contains(s),
{
    reveal(occupancy_agrees);
}

/// A sound position: tables that agree and a hash equal to the hash computed from scratch.
pub open spec fn is_sound(b: Board) -> bool {
    tables_agree(b) && b.hash == board_hash(b)
}

/// The square of the king of a side: the lowest square of its king board.
pub open spec fn king_index(p: Player) -> int {
    p.king.0.trailing_zeros() as int
}

/// The pins `pins` with `ray` added on the line `axis` (0 vertical, 1 horizontal, 2 diagonal,
/// 3 anti-diagonal).
pub open spec fn add_pin(pins: Pins, axis: int, ray: u64) -> Pins {
    if axis == 0 {
        Pins { vertical: BitBoard(pins.vertical.0 | ray), ..pins }
    } else if axis == 1 {
        Pins { horizontal: BitBoard(pins.horizontal.0 | ray), ..pins }
    } else if axis == 2 {
        Pins { diagonal: BitBoard(pins.diagonal.0 | ray), ..pins }
    } else {
        Pins { anti_diagonal: BitBoard(pins.anti_diagonal.0 | ray), ..pins }
    }
}

/// One ray from the king: if it reaches an enemy piece of `casters`, one friendly piece on it
/// is pinned along `axis`; none means check along the ray, which restricts the valid targets
/// to the ray, or forces the king to move if they were already restricted.
pub open spec fn slide_step(p: Player, ray: u64, casters: u64, axis: int) -> Player {
    if p.king_must_move || ray & casters == 0 {
        p
    } else {
        let blockers = ray & p.occupation.0;
        if popcount(blockers) == 1 {
            Player { pins: add_pin(p.pins, axis, ray), ..p }
        } else if blockers == 0 {
            if p.valid_targets.0 == BitBoard::FULL {
                Player { valid_targets: BitBoard(ray), ..p }
            } else {
                Player { king_must_move: true, ..p }
            }
        } else {
            p
        }
    }
}

/// The knights and pawns that give check.
pub open spec fn jump_checkers(b: Board) -> u64 {
    let king = b.current_player.king.0;
    let c = b.current_color;
    let up = up_bits(king, c);
    (knight_bits(king_index(b.current_player)) & b.opposing_player.knights.0) | ((right_bits(
        up,
        opposite(c),
    ) | right_bits(up, c)) & b.opposing_player.pawns.0)
}

/// The checks by knights and pawns: one checker restricts the valid targets to its square
/// (or forces the king to move if they were already restricted); two force the king to move.
pub open spec fn jump_step(p: Player, attackers: u64) -> Player {
    if p.king_must_move {
        p
    } else if popcount(attackers) == 1 {
        if p.valid_targets.0 == BitBoard::FULL {
            Player { valid_targets: BitBoard(attackers), ..p }
        } else {
            Player { king_must_move: true, ..p }
        }
    } else if attackers != 0 {
        Player { king_must_move: true, ..p }
    } else {
        p
    }
}

/// The side to move with its pins, valid targets and king-must-move flag worked out afresh
/// from the position: the eight rays from its king in turn, then the knights and pawns.
pub open spec fn constrained(b: Board) -> Player {
    let step0 = unconstrained(b.current_player);
    if b.current_player.king.0 == 0 {
        step0
    } else {
        let k = king_index(b.current_player);
        let opp = b.opposing_player;
        let blk = opp.occupation.0;
        let diagonal = opp.bishops.0 | opp.queens.0;
        let cross = opp.rooks.0 | opp.queens.0;
        let step1 = slide_step(step0, ray_bits(k, 1, 0, blk, 7), cross, 0);
        let step2 = slide_step(step1, ray_bits(k, 1, 1, blk, 7), diagonal, 2);
        let step3 = slide_step(step2, ray_bits(k, 0, 1, blk, 7), cross, 1);
        let step4 = slide_step(step3, ray_bits(k, -1, 1, blk, 7), diagonal, 3);
        let step5 = slide_step(step4, ray_bits(k, -1, 0, blk, 7), cross, 0);
        let step6 = slide_step(step5, ray_bits(k, -1, -1, blk, 7), diagonal, 2);
        let step7 = slide_step(step6, ray_bits(k, 0, -1, blk, 7), cross, 1);
        let step8 = slide_step(step7, ray_bits(k, 1, -1, blk, 7), diagonal, 3);
        jump_step(step8, jump_checkers(b))
    }
}

/// A player with its pins, valid targets and king-must-move flag reset.
pub open spec fn unconstrained(p: Player) -> Player {
    Player {
        pins: Pins {
            vertical: BitBoard(0),
            horizontal: BitBoard(0),
            diagonal: BitBoard(0),
            anti_diagonal: BitBoard(0),
        },
        valid_targets: BitBoard(BitBoard::FULL),
        king_must_move: false,
        ..p
    }
}

/// Working out the constraints again on a position whose constraints were just worked out
/// changes nothing: the constraints depend on the pieces alone.
pub proof fn lemma_constrained_stable(b: Board)
    ensures
        constrained(Board { current_player: constrained(b), ..b }) == constrained(b),
{
    let c = constrained(b);
    let b2 = Board { current_player: c, ..b };
    let p = b.current_player;
    let k = king_index(p);
    let opp = b.opposing_player;
    let blk = opp.occupation.0;
    let diagonal = opp.bishops.0 | opp.queens.0;
    let cross = opp.rooks.0 | opp.queens.0;
    let step0 = unconstrained(p);
    let step1 = slide_step(step0, ray_bits(k, 1, 0, blk, 7), cross, 0);
    let step2 = slide_step(step1, ray_bits(k, 1, 1, blk, 7), diagonal, 2);
    let step3 = slide_step(step2, ray_bits(k, 0, 1, blk, 7), cross, 1);
    let step4 = slide_step(step3, ray_bits(k, -1, 1, blk, 7), diagonal, 3);
    let step5 = slide_step(step4, ray_bits(k, -1, 0, blk, 7), cross, 0);
    let step6 = slide_step(step5, ray_bits(k, -1, -1, blk, 7), diagonal, 2);
    let step7 = slide_step(step6, ray_bits(k, 0, -1, blk, 7), cross, 1);
    let step8 = slide_step(step7, ray_bits(k, 1, -1, blk, 7), diagonal, 3);
    assert(unconstrained(step1) == step0);
    assert(unconstrained(step2) == step0);
    assert(unconstrained(step3) == step0);
    assert(unconstrained(step4) == step0);
    assert(unconstrained(step5) == step0);
    assert(unconstrained(step6) == step0);
    assert(unconstrained(step7) == step0);
    assert(unconstrained(step8) == step0);
    assert(unconstrained(c) == step0);
    assert(c.king == p.king);
    assert(jump_checkers(b2) == jump_checkers(b));
}

impl Player {
    fn slide_update(&mut self, ray: BitBoard, casters: BitBoard, axis: u8)
        requires
            axis < 4,
        ensures
            *final(self) == slide_step(*old(self), ray.0, casters.0, axis as int),
            final(self).castling_rights == old(self).castling_rights,
            final(self).occupation == old(self).occupation,
            final(self).king == old(self).king,
    {
        if self.king_must_move || ray.intersection(casters).is_empty() {
            return ;
        }
        let blockers = ray.intersection(self.occupation);
        if blockers.is_a_single_one() {
            if axis == 0 {
                self.pins.vertical = self.pins.vertical.union(ray);
            } else if axis == 1 {
                self.pins.horizontal = self.pins.horizontal.union(ray);
            } else if axis == 2 {
                self.pins.diagonal = self.pins.diagonal.union(ray);
            } else {
                self.pins.anti_diagonal = self.pins.anti_diagonal.union(ray);
            }
        } else if blockers.is_empty() {
            if self.valid_targets.is_full() {
                self.valid_targets = ray;
            } else {
                self.king_must_move = true;
            }
        }
    }
}

impl Board {
    /// The board of the White pieces' side.
    pub fn white_player(&self) -> (r: &Player)
        ensures
            *r == (if self.current_color == Color::White {
                self.current_player
            } else {
                self.opposing_player
            }),
    {
        match self.current_color {
            Color::White => &self.current_player,
            Color::Black => &self.opposing_player,
        }
    }

    /// The board of the Black pieces' side.
    pub fn black_player(&self) -> (r: &Player)
        ensures
            *r == (if self.current_color == Color::White {
                self.opposing_player
            } else {
                self.current_player
            }),
    {
        match self.current_color {
            Color::White => &self.opposing_player,
            Color::Black => &self.current_player,
        }
    }

    /// The piece on `square`, with the color of the side that occupies it.
    pub fn get_piece(&self, square: Square) -> (r: Option<Piece>)
        requires
            self.piece_table@.len() == 64,
        ensures
            r == piece_on(*self, square@),
    {
        let i = square.index() as usize;
        match self.piece_table[i] {
            None => None,
            Some(kind) => {
                let color = if self.current_player.occupation.get_bit(square) {
                    self.current_color
                } else {
                    self.current_color.negate()
                };
                Some(Piece { kind, color })
            },
        }
    }

    fn update_slide_constraints(&mut self, king_square: Square)
        requires
            old(self).current_player.king.0 != 0,
            king_square@ == king_index(old(self).current_player),
        ensures
            final(self).current_player == slide_step(
                slide_step(
                    slide_step(
                        slide_step(
                            slide_step(
                                slide_step(
                                    slide_step(
                                        slide_step(
                                            old(self).current_player,
                                            ray_bits(king_square@, 1, 0, old(self).opposing_player.occupation.0, 7),
                                            old(self).opposing_player.rooks.0 | old(self).opposing_player.queens.0,
                                            0,
                                        ),
                                        ray_bits(king_square@, 1, 1, old(self).opposing_player.occupation.0, 7),
                                        old(self).opposing_player.bishops.0 | old(self).opposing_player.queens.0,
                                        2,
                                    ),
                                    ray_bits(king_square@, 0, 1, old(self).opposing_player.occupation.0, 7),
                                    old(self).opposing_player.rooks.0 | old(self).opposing_player.queens.0,
                                    1,
                                ),
                                ray_bits(king_square@, -1, 1, old(self).opposing_player.occupation.0, 7),
                                old(self).opposing_player.bishops.0 | old(self).opposing_player.queens.0,
                                3,
                            ),
                            ray_bits(king_square@, -1, 0, old(self).opposing_player.occupation.0, 7),
                            old(self).opposing_player.rooks.0 | old(self).opposing_player.queens.0,
                            0,
                        ),
                        ray_bits(king_square@, -1, -1, old(self).opposing_player.occupation.0, 7),
                        old(self).opposing_player.bishops.0 | old(self).opposing_player.queens.0,
                        2,
                    ),
                    ray_bits(king_square@, 0, -1, old(self).opposing_player.occupation.0, 7),
                    old(self).opposing_player.rooks.0 | old(self).opposing_player.queens.0,
                    1,
                ),
                ray_bits(king_square@, 1, -1, old(self).opposing_player.occupation.0, 7),
                old(self).opposing_player.bishops.0 | old(self).opposing_player.queens.0,
                3,
            ),
            final(self).current_player.castling_rights == old(self).current_player.castling_rights,
            final(self).current_player.occupation == old(self).current_player.occupation,
            final(self).current_player.king == old(self).current_player.king,
            final(self).opposing_player == old(self).opposing_player,
            final(self).current_color == old(self).current_color,
            final(self).piece_table == old(self).piece_table,
            final(self).ep_data == old(self).ep_data,
            final(self).hash == old(self).hash,
    {
        let opp = self.opposing_player;
        let diagonal = opp.bishops.union(opp.queens);
        let cross = opp.rooks.union(opp.queens);
        let (up, right, down, left) = separated_rook_slides(king_square, opp.occupation);
        let (up_left, up_right, down_right, down_left) = separated_bishop_slides(
            king_square,
            opp.occupation,
        );
        self.current_player.slide_update(up, cross, 0);
        self.current_player.slide_update(up_right, diagonal, 2);
        self.current_player.slide_update(right, cross, 1);
        self.current_player.slide_update(down_right, diagonal, 3);
        self.current_player.slide_update(down, cross, 0);
        self.current_player.slide_update(down_left, diagonal, 2);
        self.current_player.slide_update(left, cross, 1);
        self.current_player.slide_update(up_left, diagonal, 3);
    }

    fn update_non_slide_constraints(&mut self, king_square: Square)
        requires
            king_square@ == king_index(old(self).current_player),
        ensures
            final(self).current_player == jump_step(old(self).current_player, jump_checkers(*old(self))),
            final(self).current_player.castling_rights == old(self).current_player.castling_rights,
            final(self).current_player.occupation == old(self).current_player.occupation,
            final(self).opposing_player == old(self).opposing_player,
            final(self).current_color == old(self).current_color,
            final(self).piece_table == old(self).piece_table,
            final(self).ep_data == old(self).ep_data,
            final(self).hash == old(self).hash,
    {
        if self.current_player.king_must_move {
            return ;
        }
        let king = self.current_player.king;
        let color = self.current_color;
        let knights = knight_attacks(king_square).intersection(self.opposing_player.knights);
        let pawns = king.move_one_up_left(color).union(king.move_one_up_right(color)).intersection(
            self.opposing_player.pawns,
        );
        let attackers = knights.union(pawns);
        if attackers.is_a_single_one() {
            if self.current_player.valid_targets.is_full() {
                self.current_player.valid_targets = attackers;
            } else {
                self.current_player.king_must_move = true;
            }
        } else if !attackers.is_empty() {
            self.current_player.king_must_move = true;
        }
    }

    /// Works out the pins, the valid targets and whether the king must move, for the side to
    /// move; nothing else changes.
    #[verifier::spinoff_prover]
    pub fn update_move_constraints(&mut self)
        ensures
            final(self).current_player == constrained(*old(self)),
            final(self).current_player.castling_rights == old(self).current_player.castling_rights,
            final(self).current_player.occupation == old(self).current_player.occupation,
            final(self).opposing_player == old(self).opposing_player,
            final(self).current_color == old(self).current_color,
            final(self).piece_table == old(self).piece_table,
            final(self).ep_data == old(self).ep_data,
            final(self).hash == old(self).hash,
    {
        self.current_player.king_must_move = false;
        self.current_player.pins = Pins::empty();
        self.current_player.valid_targets = BitBoard::full();
        assert(self.current_player == unconstrained(old(self).current_player));
        let first = self.current_player.king.first_one_as_square();
        match first {
            None => {},
            Some(king_square) => {
                proof {
                    broadcast use vstd::std_specs::bits::axiom_u64_trailing_zeros;

                    crate::bitboard::lemma_nonzero_has_bit(self.current_player.king.0);
                    let t = self.current_player.king.0.trailing_zeros() as int;
                    if t < king_square@ {
                        assert(self.current_player.king.contains(t));
                    }
                    if king_square@ < t {
                        assert(!crate::bitboard::bit(self.current_player.king.0, king_square@ as u64));
                    }
                }
                let ghost reset = *self;
                self.update_slide_constraints(king_square);
                assert(jump_checkers(*self) == jump_checkers(reset));
                self.update_non_slide_constraints(king_square);
            },
        }
    }
}

/// Identities of XOR for following the hash through the steps of a move.
proof fn lemma_hash_steps(f: u64, a: u64, b: u64, c: u64, d: u64, e: u64, x: u64, y: u64)
    by (bit_vector)
    ensures
        (f ^ (((a ^ b) ^ e) ^ x)) ^ e == f ^ (((a ^ b) ^ 0) ^ x),
        (f ^ (((a ^ b) ^ 0) ^ x)) ^ e == f ^ (((a ^ b) ^ e) ^ x),
        ((f ^ (((a ^ b) ^ e) ^ x)) ^ (a ^ b)) ^ (c ^ d) == f ^ (((c ^ d) ^ e) ^ x),
        (f ^ (((a ^ b) ^ e) ^ x)) ^ (x ^ y) == f ^ (((b ^ a) ^ e) ^ y),
{
}

/// What the move leaves on the piece table.
pub open spec fn table_after(b: Board, m: Move) -> Seq<Option<PieceKind>> {
    let t0 = b.piece_table@.update(m.origin@, None).update(m.target@, Some(m.moved_piece_kind));
    match m.meta {
        MoveMeta::Promotion(k) => t0.update(m.target@, Some(k)),
        MoveMeta::EnPassant => t0.update(b.ep_data.unwrap().pawn@, None),
        MoveMeta::CastleKs => {
            let (h, d) = king_side_rook(b.current_color);
            t0.update(h, None).update(d, Some(PieceKind::Rook))
        },
        MoveMeta::CastleQs => {
            let (h, d) = queen_side_rook(b.current_color);
            t0.update(h, None).update(d, Some(PieceKind::Rook))
        },
        _ => t0,
    }
}

/// The home and the castled square of the king-side rook of a side.
pub open spec fn king_side_rook(c: Color) -> (int, int) {
    match c {
        Color::White => (7, 5),
        Color::Black => (63, 61),
    }
}

/// The home and the castled square of the queen-side rook of a side.
pub open spec fn queen_side_rook(c: Color) -> (int, int) {
    match c {
        Color::White => (0, 3),
        Color::Black => (56, 59),
    }
}

/// The square a pawn on `s` comes from when it moves one rank up for side `c`.
pub open spec fn square_behind(s: int, c: Color) -> int {
    match c {
        Color::White => s - 8,
        Color::Black => s + 8,
    }
}

/// What a move needs of the position for it to be applied: the moved piece stands on its
/// origin and belongs to the side to move, the target holds no piece of that side, and each
/// kind of move finds what it moves or takes where it expects it.
pub open spec fn move_fits(b: Board, m: Move) -> bool {
    let o = m.origin@;
    let t = m.target@;
    let c = b.current_color;
    &&& o != t
    &&& b.piece_table@[o] == Some(m.moved_piece_kind)
    &&& b.current_player.occupation.contains(o)
    &&& !b.current_player.occupation.contains(t)
    &&& match m.meta {
        MoveMeta::Promotion(_) => m.moved_piece_kind == PieceKind::Pawn,
        MoveMeta::EnPassant => {
            &&& b.ep_data is Some
            &&& b.ep_data.unwrap().pawn@ != t
            &&& b.ep_data.unwrap().pawn@ != o
            &&& b.piece_table@[b.ep_data.unwrap().pawn@] == Some(PieceKind::Pawn)
            &&& b.opposing_player.occupation.contains(b.ep_data.unwrap().pawn@)
            &&& b.opposing_player.pawns.contains(b.ep_data.unwrap().pawn@)
            &&& b.piece_table@[t] is None
        },
        MoveMeta::DoublePush => 0 <= square_behind(t, c) < 64,
        MoveMeta::CastleKs => rook_fits(b, m, king_side_rook(c)),
        MoveMeta::CastleQs => rook_fits(b, m, queen_side_rook(c)),
        MoveMeta::Plain => true,
    }
}

/// The castling rook stands on its home square, its castled square is empty, and neither is
/// the king's origin or target.
pub open spec fn rook_fits(b: Board, m: Move, squares: (int, int)) -> bool {
    let (h, d) = squares;
    &&& b.piece_table@[h] == Some(PieceKind::Rook)
    &&& b.current_player.occupation.contains(h)
    &&& b.piece_table@[d] is None
    &&& h != m.origin@ && h != m.target@ && d != m.origin@ && d != m.target@
}

/// Moving a piece of the side to move from `o` to `t`, taking what stands on `t`, keeps a
/// position sound when the hash takes the keys of the piece on both squares and of the taken
/// piece.
proof fn lemma_move_piece_sound(
    before: Board,
    after: Board,
    kind: PieceKind,
    o: int,
    t: int,
    moving: u64,
    taken: u64,
)
    requires
        is_sound(before),
        0 <= o < 64,
        0 <= t < 64,
        o != t,
        before.piece_table@[o] == Some(kind),
        before.current_player.occupation.contains(o),
        !before.current_player.occupation.contains(t),
        after.piece_table@ == before.piece_table@.update(o, None).update(t, Some(kind)),
        after.current_color == before.current_color,
        after.ep_data == before.ep_data,
        after.current_player.castling_rights == before.current_player.castling_rights,
        after.opposing_player.castling_rights == before.opposing_player.castling_rights,
        forall|i: int| #[trigger] after.current_player.occupation.contains(i) <==> (before.current_player.occupation.contains(i) != (i == o || i == t)),
        forall|i: int| #[trigger] after.opposing_player.occupation.contains(i) <==> (before.opposing_player.occupation.contains(i) && i != t),
        moving == piece_key(Piece { kind, color: before.current_color }, o) ^ piece_key(Piece { kind, color: before.current_color }, t),
        taken == square_term(before, t),
        after.hash == (before.hash ^ moving) ^ taken,
    ensures
        is_sound(after),
{
    reveal(occupancy_agrees);
    assert(tables_agree(after));
    let f = piece_terms(before);
    let g = piece_terms(after);
    let h = |s: int| if s == o { 0u64 } else { square_term(before, s) };
    assert forall|i: int| 0 <= i < 64 && i != o implies #[trigger] f(i) == h(i) by {}
    lemma_fold_update(f, h, o, 64);
    assert forall|i: int| 0 <= i < 64 && i != t implies #[trigger] h(i) == g(i) by {
        if i != o {
            assert(piece_on(after, i) == piece_on(before, i));
        }
    }
    lemma_fold_update(h, g, t, 64);
    assert(hash_rest(after) == hash_rest(before));
    assert(f(o) == piece_key(Piece { kind, color: before.current_color }, o));
    assert(g(t) == piece_key(Piece { kind, color: before.current_color }, t));
    assert(h(t) == taken);
    let ff = xor_fold(f, 64);
    let hh = xor_fold(h, 64);
    let gg = xor_fold(g, 64);
    let r = hash_rest(before);
    let fo = f(o);
    let ht = h(t);
    let gt = g(t);
    let x = after.hash;
    assert(x == gg ^ r) by (bit_vector)
        requires
            x == ((ff ^ r) ^ (fo ^ gt)) ^ ht,
            hh == (ff ^ fo) ^ 0u64,
            gg == (hh ^ ht) ^ gt,
    ;
}

impl Board {
    /// Moves the piece of `kind` of the side to move from `origin` to `target`, taking what
    /// stands on `target`; the hash follows.
    #[verifier::spinoff_prover]
    #[verifier::rlimit(100)]
    fn move_piece_unchecked(&mut self, kind: PieceKind, origin: Square, target: Square)
        requires
            is_sound(*old(self)),
            origin@ != target@,
            old(self).piece_table@[origin@] == Some(kind),
            old(self).current_player.occupation.contains(origin@),
            !old(self).current_player.occupation.contains(target@),
        ensures
            is_sound(*final(self)),
            final(self).piece_table@ == old(self).piece_table@.update(origin@, None).update(
                target@,
                Some(kind),
            ),
            final(self).current_color == old(self).current_color,
            final(self).ep_data == old(self).ep_data,
            final(self).current_player.castling_rights == old(self).current_player.castling_rights,
            final(self).opposing_player.castling_rights == old(self).opposing_player.castling_rights,
            forall|i: int| #[trigger] final(self).current_player.occupation.contains(i) <==> (old(self).current_player.occupation.contains(i) != (i == origin@ || i == target@)),
            forall|i: int| #[trigger] final(self).opposing_player.occupation.contains(i) <==> (old(self).opposing_player.occupation.contains(i) && i != target@),
            old(self).piece_table@[target@] is None ==> final(self).opposing_player == old(self).opposing_player,
    {
        let oi = origin.index() as usize;
        let ti = target.index() as usize;
        proof {
            lemma_agree_facts(*self, target@);
        }
        let ghost before = *self;
        let color = self.current_color;
        let captured = self.piece_table[ti];
        self.piece_table[oi] = None;
        self.piece_table[ti] = Some(kind);
        let moving = zobrist_piece(Piece { kind, color }, origin) ^ zobrist_piece(
            Piece { kind, color },
            target,
        );
        self.hash = self.hash ^ moving;
        self.current_player.move_piece_unchecked(kind, origin, target);
        let mut taken: u64 = 0;
        match captured {
            Some(captured_kind) => {
                taken = zobrist_piece(Piece { kind: captured_kind, color: color.negate() }, target);
                self.opposing_player.toggle_piece(captured_kind, target);
            },
            None => {},
        }
        self.hash = self.hash ^ taken;
        proof {
            lemma_move_piece_sound(before, *self, kind, origin@, target@, moving, taken);
        }
    }
}

/// Changing what stands on one square `t` keeps a position sound when the hash takes the
/// keys of what stood there before and what stands there after.
proof fn lemma_square_change_sound(before: Board, after: Board, t: int, delta: u64)
    requires
        is_sound(before),
        tables_agree(after),
        0 <= t < 64,
        hash_rest(after) == hash_rest(before),
        forall|i: int| 0 <= i < 64 && i != t ==> #[trigger] piece_on(after, i) == piece_on(before, i),
        delta == square_term(before, t) ^ square_term(after, t),
        after.hash == before.hash ^ delta,
    ensures
        is_sound(after),
{
    let f = piece_terms(before);
    let g = piece_terms(after);
    assert forall|i: int| 0 <= i < 64 && i != t implies #[trigger] f(i) == g(i) by {
        assert(piece_on(after, i) == piece_on(before, i));
    }
    lemma_fold_update(f, g, t, 64);
    let ff = xor_fold(f, 64);
    let gg = xor_fold(g, 64);
    let r = hash_rest(before);
    let a = f(t);
    let b = g(t);
    let x = after.hash;
    assert(x == gg ^ r) by (bit_vector)
        requires
            x == (ff ^ r) ^ (a ^ b),
            gg == (ff ^ a) ^ b,
    ;
}

/// A change that keeps every piece where it is keeps the piece part of the hash.
proof fn lemma_same_pieces(before: Board, after: Board)
    requires
        forall|i: int| 0 <= i < 64 ==> #[trigger] piece_on(after, i) == piece_on(before, i),
    ensures
        xor_fold(piece_terms(after), 64) == xor_fold(piece_terms(before), 64),
{
    let f = piece_terms(before);
    let g = piece_terms(after);
    assert forall|i: int| 0 <= i < 64 implies #[trigger] f(i) == g(i) by {
        assert(piece_on(after, i) == piece_on(before, i));
    }
    lemma_fold_ext(f, g, 64);
}

/// The rook move that goes with a castling move: its home and its castled square.
pub open spec fn castle_rook(m: Move, c: Color) -> Option<(int, int)> {
    match m.meta {
        MoveMeta::CastleKs => Some(king_side_rook(c)),
        MoveMeta::CastleQs => Some(queen_side_rook(c)),
        _ => None,
    }
}

/// Whether the mover occupies square `i` after move `m`: it leaves the origin (and the home
/// of a castling rook) and holds the target (and the castled square of the rook).
pub open spec fn mover_occupies_after(b: Board, m: Move, i: int) -> bool {
    if i == m.target@ {
        true
    } else if i == m.origin@ {
        false
    } else {
        match castle_rook(m, b.current_color) {
            Some((h, d)) => if i == h {
                false
            } else if i == d {
                true
            } else {
                b.current_player.occupation.contains(i)
            },
            None => b.current_player.occupation.contains(i),
        }
    }
}

/// Whether the other side occupies square `i` after move `m`: it loses what stood on the
/// target and, on an en passant capture, the pawn taken.
pub open spec fn opponent_occupies_after(b: Board, m: Move, i: int) -> bool {
    &&& b.opposing_player.occupation.contains(i)
    &&& i != m.target@
    &&& !(m.meta == MoveMeta::EnPassant && i == b.ep_data.unwrap().pawn@)
}

/// The kind that stands on the target after move `m`: the promoted kind on a promotion, the
/// moved kind otherwise.
pub open spec fn landed_kind(m: Move) -> PieceKind {
    match m.meta {
        MoveMeta::Promotion(k) => k,
        _ => m.moved_piece_kind,
    }
}

/// What the extra effect of move `m` needs of the position after its piece has moved: the
/// pawn to promote on the target, the pawn to take en passant, no en passant state and room
/// behind the target for a double push, the castling rook at home with its castled square
/// free.
pub open spec fn meta_fits(b: Board, m: Move, past: Option<EpData>) -> bool {
    match m.meta {
        MoveMeta::Promotion(_) => b.piece_table@[m.target@] == Some(PieceKind::Pawn) && b.current_player.occupation.contains(m.target@),
        MoveMeta::EnPassant => {
            &&& past is Some
            &&& b.piece_table@[past.unwrap().pawn@] == Some(PieceKind::Pawn)
            &&& b.opposing_player.occupation.contains(past.unwrap().pawn@)
            &&& b.opposing_player.pawns.contains(past.unwrap().pawn@)
        },
        MoveMeta::DoublePush => b.ep_data is None && 0 <= square_behind(m.target@, b.current_color) < 64,
        MoveMeta::CastleKs => castle_fits(b, king_side_rook(b.current_color)),
        MoveMeta::CastleQs => castle_fits(b, queen_side_rook(b.current_color)),
        MoveMeta::Plain => true,
    }
}

/// The castling rook stands at home, and its castled square is free.
pub open spec fn castle_fits(b: Board, squares: (int, int)) -> bool {
    let (h, d) = squares;
    &&& b.piece_table@[h] == Some(PieceKind::Rook)
    &&& b.current_player.occupation.contains(h)
    &&& !b.current_player.occupation.contains(d)
    &&& b.piece_table@[d] is None
}

/// The piece table after the extra effect of move `m`.
pub open spec fn table_after_meta(b: Board, m: Move, past: Option<EpData>) -> Seq<Option<PieceKind>> {
    match m.meta {
        MoveMeta::Promotion(k) => b.piece_table@.update(m.target@, Some(k)),
        MoveMeta::EnPassant => b.piece_table@.update(past.unwrap().pawn@, None),
        MoveMeta::CastleKs => {
            let (h, d) = king_side_rook(b.current_color);
            b.piece_table@.update(h, None).update(d, Some(PieceKind::Rook))
        },
        MoveMeta::CastleQs => {
            let (h, d) = queen_side_rook(b.current_color);
            b.piece_table@.update(h, None).update(d, Some(PieceKind::Rook))
        },
        _ => b.piece_table@,
    }
}

impl Board {
    #[verifier::spinoff_prover]
    fn apply_meta(&mut self, chess_move: &Move, past_ep_data: Option<EpData>)
        requires
            is_sound(*old(self)),
            meta_fits(*old(self), *chess_move, past_ep_data),
        ensures
            is_sound(*final(self)),
            final(self).current_color == old(self).current_color,
            final(self).piece_table@ == table_after_meta(*old(self), *chess_move, past_ep_data),
            chess_move.meta == MoveMeta::DoublePush ==> final(self).ep_data == Some(EpData {
                pawn: chess_move.target,
                capture_point: BitBoard(1u64 << (square_behind(chess_move.target@, old(self).current_color) as u64)),
            }),
            chess_move.meta != MoveMeta::DoublePush ==> final(self).ep_data == old(self).ep_data,
            final(self).current_player.castling_rights == old(self).current_player.castling_rights,
            final(self).opposing_player.castling_rights == old(self).opposing_player.castling_rights,
            forall|i: int| #[trigger] final(self).current_player.occupation.contains(i) <==> match castle_rook(*chess_move, old(self).current_color) {
                Some((h, d)) => if i == h {
                    false
                } else if i == d {
                    true
                } else {
                    old(self).current_player.occupation.contains(i)
                },
                None => old(self).current_player.occupation.contains(i),
            },
            forall|i: int| #[trigger] final(self).opposing_player.occupation.contains(i) <==> (old(self).opposing_player.occupation.contains(i) && !(chess_move.meta == MoveMeta::EnPassant && i == past_ep_data.unwrap().pawn@)),
            chess_move.meta == MoveMeta::EnPassant ==> forall|i: int| #[trigger] final(self).opposing_player.pawns.contains(i) <==> (old(self).opposing_player.pawns.contains(i) && i != past_ep_data.unwrap().pawn@),
    {
        let target = chess_move.target;
        match chess_move.meta {
            MoveMeta::Promotion(promoted) => self.promote(target, promoted),
            MoveMeta::EnPassant => self.take_en_passant(past_ep_data.unwrap().pawn),
            MoveMeta::DoublePush => self.record_double_push(target),
            MoveMeta::CastleKs => {
                let (home, castled) = match self.current_color {
                    Color::White => (Square::at(0, 7), Square::at(0, 5)),
                    Color::Black => (Square::at(7, 7), Square::at(7, 5)),
                };
                self.move_piece_unchecked(PieceKind::Rook, home, castled);
            },
            MoveMeta::CastleQs => {
                let (home, castled) = match self.current_color {
                    Color::White => (Square::at(0, 0), Square::at(0, 3)),
                    Color::Black => (Square::at(7, 0), Square::at(7, 3)),
                };
                self.move_piece_unchecked(PieceKind::Rook, home, castled);
            },
            MoveMeta::Plain => {},
        }
    }
}

impl Board {
    fn clear_en_passant(&mut self) -> (past: Option<EpData>)
        requires
            is_sound(*old(self)),
        ensures
            is_sound(*final(self)),
            past == old(self).ep_data,
            final(self).ep_data is None,
            final(self).piece_table == old(self).piece_table,
            final(self).current_player == old(self).current_player,
            final(self).opposing_player == old(self).opposing_player,
            final(self).current_color == old(self).current_color,
    {
        let ghost s0 = *self;
        let past_ep_data = self.ep_data;
        self.ep_data = None;
        match past_ep_data {
            Some(ep) => {
                let k = zobrist_ep_file(ep.pawn);
                self.hash = self.hash ^ k;
            },
            None => {},
        }
        proof {
            lemma_same_pieces(s0, *self);
            let c1 = castling_key(s0.current_player.castling_rights);
            let c2 = castling_key(s0.opposing_player.castling_rights);
            lemma_hash_steps(xor_fold(piece_terms(s0), 64), c1, c2, 0, 0, ep_term(s0.ep_data), side_key(s0.current_color), 0);
            crate::zobrist::lemma_xor(s0.hash, 0, 0, 0);
        }
        past_ep_data
    }

    fn revoke_castling_rights(&mut self, origin: Square, target: Square)
        requires
            is_sound(*old(self)),
        ensures
            is_sound(*final(self)),
            final(self).ep_data == old(self).ep_data,
            final(self).piece_table == old(self).piece_table,
            final(self).current_color == old(self).current_color,
            final(self).current_player == (Player {
                castling_rights: BitBoard(old(self).current_player.castling_rights.0 & !(1u64 << (origin@ as u64))),
                ..old(self).current_player
            }),
            final(self).opposing_player == (Player {
                castling_rights: BitBoard(old(self).opposing_player.castling_rights.0 & !(1u64 << (target@ as u64))),
                ..old(self).opposing_player
            }),
    {
        let ghost s1 = *self;
        let old_rights = zobrist_castling_rights(self.current_player.castling_rights) ^ zobrist_castling_rights(self.opposing_player.castling_rights);
        self.hash = self.hash ^ old_rights;
        self.current_player.castling_rights = self.current_player.castling_rights.intersection(origin.as_bitboard().complement());
        self.opposing_player.castling_rights = self.opposing_player.castling_rights.intersection(target.as_bitboard().complement());
        let new_rights = zobrist_castling_rights(self.current_player.castling_rights) ^ zobrist_castling_rights(self.opposing_player.castling_rights);
        self.hash = self.hash ^ new_rights;
        proof {
            lemma_same_pieces(s1, *self);
            lemma_hash_steps(
                xor_fold(piece_terms(s1), 64),
                castling_key(s1.current_player.castling_rights),
                castling_key(s1.opposing_player.castling_rights),
                castling_key(self.current_player.castling_rights),
                castling_key(self.opposing_player.castling_rights),
                ep_term(s1.ep_data),
                side_key(s1.current_color),
                0,
            );
        }
    }

    fn promote(&mut self, target: Square, promoted: PieceKind)
        requires
            is_sound(*old(self)),
            old(self).piece_table@[target@] == Some(PieceKind::Pawn),
            old(self).current_player.occupation.contains(target@),
        ensures
            is_sound(*final(self)),
            final(self).piece_table@ == old(self).piece_table@.update(target@, Some(promoted)),
            final(self).ep_data == old(self).ep_data,
            final(self).current_color == old(self).current_color,
            final(self).current_player.castling_rights == old(self).current_player.castling_rights,
            final(self).opposing_player == old(self).opposing_player,
            forall|i: int| #[trigger] final(self).current_player.occupation.contains(i) == old(self).current_player.occupation.contains(i),
    {
        let ti = target.index() as usize;
        proof {
            lemma_agree_facts(*self, target@);
        }
        let ghost s3 = *self;
        let color = self.current_color;
        self.piece_table[ti] = Some(promoted);
        self.current_player.toggle_piece(PieceKind::Pawn, target);
        self.current_player.toggle_piece(promoted, target);
        let delta = zobrist_piece(Piece { kind: PieceKind::Pawn, color }, target) ^ zobrist_piece(Piece { kind: promoted, color }, target);
        self.hash = self.hash ^ delta;
        proof {
            reveal(occupancy_agrees);
            lemma_square_change_sound(s3, *self, target@, delta);
        }
    }

    #[verifier::spinoff_prover]
    fn take_en_passant(&mut self, pawn_square: Square)
        requires
            is_sound(*old(self)),
            old(self).piece_table@[pawn_square@] == Some(PieceKind::Pawn),
            old(self).opposing_player.occupation.contains(pawn_square@),
        ensures
            is_sound(*final(self)),
            final(self).piece_table@ == old(self).piece_table@.update(pawn_square@, None),
            final(self).ep_data == old(self).ep_data,
            final(self).current_color == old(self).current_color,
            final(self).current_player == old(self).current_player,
            final(self).opposing_player.castling_rights == old(self).opposing_player.castling_rights,
            forall|i: int| #[trigger] final(self).opposing_player.occupation.contains(i) <==> (old(self).opposing_player.occupation.contains(i) && i != pawn_square@),
            old(self).opposing_player.pawns.contains(pawn_square@) ==> forall|i: int| #[trigger] final(self).opposing_player.pawns.contains(i) <==> (old(self).opposing_player.pawns.contains(i) && i != pawn_square@),
    {
        let pi = pawn_square.index() as usize;
        proof {
            lemma_agree_facts(*self, pawn_square@);
        }
        let ghost s3 = *self;
        let color = self.current_color;
        self.opposing_player.toggle_piece(PieceKind::Pawn, pawn_square);
        assert(self.opposing_player.kind_board(PieceKind::Pawn) == self.opposing_player.pawns);
        self.piece_table[pi] = None;
        let k = zobrist_piece(Piece { kind: PieceKind::Pawn, color: color.negate() }, pawn_square);
        self.hash = self.hash ^ k;
        proof {
            crate::zobrist::lemma_xor(k, 0, 0, 0);
            reveal(occupancy_agrees);
            lemma_square_change_sound(s3, *self, pawn_square@, k);
        }
    }

    fn record_double_push(&mut self, target: Square)
        requires
            is_sound(*old(self)),
            old(self).ep_data is None,
            0 <= square_behind(target@, old(self).current_color) < 64,
        ensures
            is_sound(*final(self)),
            final(self).ep_data == Some(EpData {
                pawn: target,
                capture_point: BitBoard(1u64 << (square_behind(target@, old(self).current_color) as u64)),
            }),
            final(self).piece_table == old(self).piece_table,
            final(self).current_player == old(self).current_player,
            final(self).opposing_player == old(self).opposing_player,
            final(self).current_color == old(self).current_color,
    {
        let ghost s3 = *self;
        let color = self.current_color;
        let behind = match color {
            Color::White => Square::from_index(target.index() - 8).unwrap(),
            Color::Black => Square::from_index(target.index() + 8).unwrap(),
        };
        let k = zobrist_ep_file(target);
        self.hash = self.hash ^ k;
        self.ep_data = Some(EpData { pawn: target, capture_point: behind.as_bitboard() });
        proof {
            lemma_same_pieces(s3, *self);
            lemma_hash_steps(
                xor_fold(piece_terms(s3), 64),
                castling_key(s3.current_player.castling_rights),
                castling_key(s3.opposing_player.castling_rights),
                0,
                0,
                k,
                side_key(color),
                0,
            );
        }
    }

    fn pass_turn(&mut self)
        requires
            is_sound(*old(self)),
        ensures
            is_sound(*final(self)),
            final(self).current_color == opposite(old(self).current_color),
            final(self).current_player == old(self).opposing_player,
            final(self).opposing_player == old(self).current_player,
            final(self).piece_table == old(self).piece_table,
            final(self).ep_data == old(self).ep_data,
    {
        let ghost s4 = *self;
        let color = self.current_color;
        let sides = zobrist_side(color) ^ zobrist_side(color.negate());
        self.hash = self.hash ^ sides;
        self.current_color = color.negate();
        let mover = self.current_player;
        self.current_player = self.opposing_player;
        self.opposing_player = mover;
        proof {
            reveal(occupancy_agrees);
            lemma_same_pieces(s4, *self);
            lemma_hash_steps(
                xor_fold(piece_terms(s4), 64),
                castling_key(s4.current_player.castling_rights),
                castling_key(s4.opposing_player.castling_rights),
                0,
                0,
                ep_term(s4.ep_data),
                side_key(color),
                side_key(opposite(color)),
            );
        }
    }

    /// Applies a move that fits the position (see `move_fits`); nothing of its legality is
    /// checked. The hash is kept equal to the hash computed from scratch, the sides swap and
    /// the constraints of the new side to move are worked out. Returns whether the move was
    /// a pawn move or a capture.
    #[verifier::spinoff_prover]
    #[verifier::rlimit(100)]
    pub fn make_move_unchecked(&mut self, chess_move: &Move) -> (r: bool)
        requires
            is_sound(*old(self)),
            move_fits(*old(self), *chess_move),
        ensures
            is_sound(*final(self)),
            r == (chess_move.moved_piece_kind == PieceKind::Pawn || old(self).piece_table@[chess_move.target@] is Some),
            final(self).current_color == opposite(old(self).current_color),
            final(self).piece_table@ == table_after(*old(self), *chess_move),
            chess_move.meta == MoveMeta::DoublePush ==> final(self).ep_data == Some(EpData {
                pawn: chess_move.target,
                capture_point: BitBoard(1u64 << (square_behind(chess_move.target@, old(self).current_color) as u64)),
            }),
            chess_move.meta != MoveMeta::DoublePush ==> final(self).ep_data is None,
            final(self).opposing_player.castling_rights.0 == old(self).current_player.castling_rights.0 & !(1u64 << (chess_move.origin@ as u64)),
            final(self).current_player.castling_rights.0 == old(self).opposing_player.castling_rights.0 & !(1u64 << (chess_move.target@ as u64)),
            final(self).current_player == constrained(*final(self)),
            forall|i: int| #[trigger] final(self).opposing_player.occupation.contains(i) <==> mover_occupies_after(*old(self), *chess_move, i),
            forall|i: int| #[trigger] final(self).current_player.occupation.contains(i) <==> opponent_occupies_after(*old(self), *chess_move, i),
            piece_on(*final(self), chess_move.target@) == Some(Piece { kind: landed_kind(*chess_move), color: old(self).current_color }),
            chess_move.meta == MoveMeta::EnPassant ==> forall|i: int| #[trigger] final(self).current_player.pawns.contains(i) <==> (old(self).opposing_player.pawns.contains(i) && i != old(self).ep_data.unwrap().pawn@),
    {
        let origin = chess_move.origin;
        let target = chess_move.target;
        let kind = chess_move.moved_piece_kind;
        let ti = target.index() as usize;
        proof {
            lemma_agree_facts(*self, target@);
            lemma_agree_facts(*self, king_side_rook(self.current_color).1);
            lemma_agree_facts(*self, queen_side_rook(self.current_color).1);
        }
        let ghost s0 = *self;
        let past_ep_data = self.clear_en_passant();
        self.revoke_castling_rights(origin, target);
        let is_capture = self.piece_table[ti].is_some();
        let is_pawn_move = match kind {
            PieceKind::Pawn => true,
            _ => false,
        };
        self.move_piece_unchecked(kind, origin, target);
        let ghost s3 = *self;
        proof {
            lemma_agree_facts(s3, king_side_rook(s3.current_color).1);
            lemma_agree_facts(s3, queen_side_rook(s3.current_color).1);
        }
        self.apply_meta(chess_move, past_ep_data);
        let ghost s4 = *self;
        self.pass_turn();
        let ghost s5 = *self;
        self.update_move_constraints();
        proof {
            assert forall|i: int| #[trigger] s4.current_player.occupation.contains(i) <==> mover_occupies_after(s0, *chess_move, i) by {}
            assert forall|i: int| #[trigger] s4.opposing_player.occupation.contains(i) <==> opponent_occupies_after(s0, *chess_move, i) by {}
            lemma_same_pieces(s5, *self);
            assert(hash_rest(*self) == hash_rest(s5));
            lemma_constrained_stable(s5);
            assert(*self == Board { current_player: constrained(s5), ..s5 });
        }
        is_pawn_move || is_capture
    }
}

/// Why a move text could not be read.
#[derive(Clone, Copy, Debug, PartialEq, Eq, Structural)]
pub enum MoveTextError {
    /// The text is not 4 or 5 characters long.
    Length,
    /// A square of the text is not a file letter and a rank digit.
    Square,
    /// No piece stands on the origin square.
    NoPiece,
    /// The fifth character is not `q`, `r`, `b` or `n`.
    Promotion,
}

/// The meta of a move of a piece of `kind` from `o` to `t` on board `b`, read from the board
/// and the kind `promo` named by a fifth character: castling for a king leaving e1 or e8 for
/// the g-file or c-file square, double push for a pawn from the second or seventh rank to the
/// fourth or fifth, en passant for a pawn changing file onto an empty square, and promotion
/// for another pawn move with a fifth character.
pub open spec fn inferred_meta(b: Board, kind: PieceKind, o: int, t: int, promo: Option<PieceKind>) -> MoveMeta {
    if kind == PieceKind::King && (o == 4 || o == 60) {
        if t == 6 || t == 62 {
            MoveMeta::CastleKs
        } else if t == 2 || t == 58 {
            MoveMeta::CastleQs
        } else {
            MoveMeta::Plain
        }
    } else if kind == PieceKind::Pawn {
        if (rank_of(o) == 1 || rank_of(o) == 6) && (rank_of(t) == 3 || rank_of(t) == 4) {
            MoveMeta::DoublePush
        } else if file_of(o) != file_of(t) && piece_on(b, t) is None {
            MoveMeta::EnPassant
        } else if promo is Some {
            MoveMeta::Promotion(promo.unwrap())
        } else {
            MoveMeta::Plain
        }
    } else {
        MoveMeta::Plain
    }
}

/// The move that a coordinate text names on board `b`, or why there is none: a text not 4 or
/// 5 characters long, a malformed square, a fifth character other than `q`, `r`, `b` and
/// `n`, or an empty origin square.
pub open spec fn interpretation(b: Board, s: Seq<char>) -> Result<(int, int, PieceKind, MoveMeta), MoveTextError> {
    if s.len() < 4 || s.len() > 5 {
        Err(MoveTextError::Length)
    } else if parse_square(s[0], s[1]) is None || parse_square(s[2], s[3]) is None {
        Err(MoveTextError::Square)
    } else if s.len() == 5 && promotion_kind(s[4]) is None {
        Err(MoveTextError::Promotion)
    } else {
        let o = parse_square(s[0], s[1]).unwrap();
        let t = parse_square(s[2], s[3]).unwrap();
        let promo = if s.len() == 5 { promotion_kind(s[4]) } else { None };
        match piece_on(b, o) {
            None => Err(MoveTextError::NoPiece),
            Some(p) => Ok((o, t, p.kind, inferred_meta(b, p.kind, o, t, promo))),
        }
    }
}

/// Whether a move is what `interpretation` gives for the move's own text.
pub open spec fn names(r: Result<Move, MoveTextError>, i: Result<(int, int, PieceKind, MoveMeta), MoveTextError>) -> bool {
    match (r, i) {
        (Ok(m), Ok((o, t, k, meta))) => m.origin@ == o && m.target@ == t && m.moved_piece_kind == k && m.meta == meta,
        (Err(e), Err(f)) => e == f,
        _ => false,
    }
}

impl Board {
    /// Reads a move in coordinate text (`e2e4`, `e7e8q`) on this board: the meta is read from
    /// the board as `inferred_meta` says; legality is not checked.
    pub fn interpret_move(&self, move_str: &str) -> (r: Result<Move, MoveTextError>)
        requires
            self.piece_table@.len() == 64,
        ensures
            names(r, interpretation(*self, move_str@)),
    {
        let n = move_str.unicode_len();
        if n < 4 || n > 5 {
            return Err(MoveTextError::Length);
        }
        let origin = match Square::from_chars(move_str.get_char(0), move_str.get_char(1)) {
            Some(s) => s,
            None => return Err(MoveTextError::Square),
        };
        let target = match Square::from_chars(move_str.get_char(2), move_str.get_char(3)) {
            Some(s) => s,
            None => return Err(MoveTextError::Square),
        };
        let promo: Option<PieceKind> = if n == 5 {
            let c = move_str.get_char(4);
            if c == 'q' {
                Some(PieceKind::Queen)
            } else if c == 'r' {
                Some(PieceKind::Rook)
            } else if c == 'b' {
                Some(PieceKind::Bishop)
            } else if c == 'n' {
                Some(PieceKind::Knight)
            } else {
                return Err(MoveTextError::Promotion);
            }
        } else {
            None
        };
        let moved_piece_kind = match self.get_piece(origin) {
            Some(piece) => piece.kind,
            None => return Err(MoveTextError::NoPiece),
        };
        let oi = origin.index();
        let ti = target.index();
        let meta = match moved_piece_kind {
            PieceKind::King if oi == 4 || oi == 60 => {
                if ti == 6 || ti == 62 {
                    MoveMeta::CastleKs
                } else if ti == 2 || ti == 58 {
                    MoveMeta::CastleQs
                } else {
                    MoveMeta::Plain
                }
            },
            PieceKind::Pawn => {
                let or = origin.rank();
                let tr = target.rank();
                if (or == 1 || or == 6) && (tr == 3 || tr == 4) {
                    MoveMeta::DoublePush
                } else if origin.file() != target.file() && self.get_piece(target).is_none() {
                    MoveMeta::EnPassant
                } else {
                    match promo {
                        Some(k) => MoveMeta::Promotion(k),
                        None => MoveMeta::Plain,
                    }
                }
            },
            _ => MoveMeta::Plain,
        };
        Ok(Move { origin, target, moved_piece_kind, meta })
    }
}

/// Reading the text of a move gives the move back, for every kind of move, when the move is
/// what the board says of it: its piece stands on its origin and its meta is the one read
/// from the board.
pub proof fn lemma_interpret_round_trip(b: Board, m: Move)
    requires
        0 <= m.origin@ < 64,
        0 <= m.target@ < 64,
        b.piece_table@.len() == 64,
        b.piece_table@[m.origin@] == Some(m.moved_piece_kind),
        inferred_meta(b, m.moved_piece_kind, m.origin@, m.target@, match m.meta {
            MoveMeta::Promotion(k) => Some(k),
            _ => None,
        }) == m.meta,
        match m.meta {
            MoveMeta::Promotion(k) => k == PieceKind::Queen || k == PieceKind::Rook || k == PieceKind::Bishop || k == PieceKind::Knight,
            _ => true,
        },
    ensures
        interpretation(b, move_text(m)) == Ok::<(int, int, PieceKind, MoveMeta), MoveTextError>((m.origin@, m.target@, m.moved_piece_kind, m.meta)),
{
    crate::square::lemma_square_text_round_trip(m.origin@);
    crate::square::lemma_square_text_round_trip(m.target@);
    let s = move_text(m);
    assert(s[0] == square_text(m.origin@)[0]);
    assert(s[1] == square_text(m.origin@)[1]);
    assert(s[2] == square_text(m.target@)[0]);
    assert(s[3] == square_text(m.target@)[1]);
}

/// The piece on square `s` in the starting position.
pub open spec fn start_piece(s: int) -> Option<Piece> {
    let r = rank_of(s);
    let f = file_of(s);
    if r == 1 {
        Some(Piece { kind: PieceKind::Pawn, color: Color::White })
    } else if r == 6 {
        Some(Piece { kind: PieceKind::Pawn, color: Color::Black })
    } else if r == 0 {
        Some(Piece { kind: back_rank_kind(f), color: Color::White })
    } else if r == 7 {
        Some(Piece { kind: back_rank_kind(f), color: Color::Black })
    } else {
        None
    }
}

/// The kind of the piece that starts on file `f` of a back rank.
pub open spec fn back_rank_kind(f: int) -> PieceKind {
    if f == 0 || f == 7 {
        PieceKind::Rook
    } else if f == 1 || f == 6 {
        PieceKind::Knight
    } else if f == 2 || f == 5 {
        PieceKind::Bishop
    } else if f == 3 {
        PieceKind::Queen
    } else {
        PieceKind::King
    }
}

fn back_rank_piece(file: u8) -> (k: PieceKind)
    ensures
        k == back_rank_kind(file as int),
{
    if file == 0 || file == 7 {
        PieceKind::Rook
    } else if file == 1 || file == 6 {
        PieceKind::Knight
    } else if file == 2 || file == 5 {
        PieceKind::Bishop
    } else if file == 3 {
        PieceKind::Queen
    } else {
        PieceKind::King
    }
}

impl Board {
    /// The Zobrist hash of the position computed from scratch.
    pub fn compute_hash(&self) -> (r: u64)
        requires
            self.piece_table@.len() == 64,
        ensures
            r == board_hash(*self),
    {
        let ghost f = piece_terms(*self);
        let mut h: u64 = 0;
        let mut i: u8 = 0;
        while i < 64
            invariant
                i <= 64,
                self.piece_table@.len() == 64,
                f == piece_terms(*self),
                h == xor_fold(f, i as nat),
            decreases 64 - i,
        {
            let square = Square::from_index(i).unwrap();
            let term: u64 = match self.get_piece(square) {
                Some(piece) => zobrist_piece(piece, square),
                None => 0,
            };
            assert(term == f(i as int));
            h = h ^ term;
            i = i + 1;
        }
        let ep: u64 = match self.ep_data {
            Some(e) => zobrist_ep_file(e.pawn),
            None => 0,
        };
        let rest = ((zobrist_castling_rights(self.current_player.castling_rights)
            ^ zobrist_castling_rights(self.opposing_player.castling_rights)) ^ ep) ^ zobrist_side(
            self.current_color,
        );
        h ^ rest
    }

    fn rehash(&mut self)
        requires
            old(self).piece_table@.len() == 64,
        ensures
            final(self).hash == board_hash(*final(self)),
            final(self).piece_table == old(self).piece_table,
            final(self).current_player == old(self).current_player,
            final(self).opposing_player == old(self).opposing_player,
            final(self).current_color == old(self).current_color,
            final(self).ep_data == old(self).ep_data,
    {
        let h = self.compute_hash();
        let ghost before = *self;
        self.hash = h;
        proof {
            lemma_same_pieces(before, *self);
        }
    }

    /// An empty board with `color` to move, no castling rights and no en passant chance.
    pub fn empty(color: Color) -> (r: Board)
        ensures
            is_sound(r),
            r.current_color == color,
            r.ep_data is None,
            forall|s: int| 0 <= s < 64 ==> #[trigger] r.piece_table@[s] is None,
            r.current_player.castling_rights.0 == 0,
            r.opposing_player.castling_rights.0 == 0,
    {
        let mut table: Vec<Option<PieceKind>> = Vec::new();
        let mut i: u8 = 0;
        while i < 64
            invariant
                i <= 64,
                table@.len() == i,
                forall|s: int| 0 <= s < i ==> #[trigger] table@[s] is None,
            decreases 64 - i,
        {
            table.push(None);
            i = i + 1;
        }
        let mut b = Board {
            current_player: Player::empty(),
            opposing_player: Player::empty(),
            current_color: color,
            piece_table: table,
            ep_data: None,
            hash: 0,
        };
        b.rehash();
        proof {
            reveal(occupancy_agrees);
        }
        b
    }

    /// Puts `piece` on the empty square `square`; the hash follows.
    pub fn place_piece(&mut self, piece: Piece, square: Square)
        requires
            is_sound(*old(self)),
            old(self).piece_table@[square@] is None,
        ensures
            is_sound(*final(self)),
            piece_on(*final(self), square@) == Some(piece),
            forall|i: int| 0 <= i < 64 && i != square@ ==> #[trigger] piece_on(*final(self), i) == piece_on(*old(self), i),
            final(self).current_color == old(self).current_color,
            final(self).ep_data == old(self).ep_data,
            final(self).current_player.castling_rights == old(self).current_player.castling_rights,
            final(self).opposing_player.castling_rights == old(self).opposing_player.castling_rights,
    {
        let si = square.index() as usize;
        proof {
            lemma_agree_facts(*self, square@);
        }
        if piece.color == self.current_color {
            self.current_player.toggle_piece(piece.kind, square);
        } else {
            self.opposing_player.toggle_piece(piece.kind, square);
        }
        self.piece_table[si] = Some(piece.kind);
        proof {
            reveal(occupancy_agrees);
            assert(tables_agree(*self));
        }
        self.rehash();
    }

    /// Gives `color` the castling rights held on the squares of `rights`.
    pub fn set_castling_rights(&mut self, color: Color, rights: BitBoard)
        requires
            is_sound(*old(self)),
        ensures
            is_sound(*final(self)),
            final(self).current_color == old(self).current_color,
            final(self).piece_table == old(self).piece_table,
            final(self).ep_data == old(self).ep_data,
            color == old(self).current_color ==> final(self).current_player == (Player { castling_rights: rights, ..old(self).current_player }),
            color == old(self).current_color ==> final(self).opposing_player == old(self).opposing_player,
            color != old(self).current_color ==> final(self).opposing_player == (Player { castling_rights: rights, ..old(self).opposing_player }),
            color != old(self).current_color ==> final(self).current_player == old(self).current_player,
    {
        if color == self.current_color {
            self.current_player.castling_rights = rights;
        } else {
            self.opposing_player.castling_rights = rights;
        }
        proof {
            lemma_agree_facts(*self, 0);
        }
        self.rehash();
    }

    /// The starting position: White to move, every castling right held, and the constraints
    /// of White's first move worked out.
    pub fn starting_position() -> (r: Board)
        ensures
            is_sound(r),
            r.current_color == Color::White,
            r.ep_data is None,
            forall|s: int| 0 <= s < 64 ==> #[trigger] piece_on(r, s) == start_piece(s),
            r.current_player.castling_rights.0 == 0x91,
            r.opposing_player.castling_rights.0 == 0x9100_0000_0000_0000,
    {
        let mut b = Board::empty(Color::White);
        let mut f: u8 = 0;
        while f < 8
            invariant
                f <= 8,
                is_sound(b),
                b.current_color == Color::White,
                b.ep_data is None,
                forall|s: int| 0 <= s < 64 && file_of(s) < f ==> #[trigger] piece_on(b, s) == start_piece(s),
                forall|s: int| 0 <= s < 64 && file_of(s) >= f ==> #[trigger] b.piece_table@[s] is None,
            decreases 8 - f,
        {
            let kind = back_rank_piece(f);
            let ghost b0 = b;
            assert(piece_on(b0, 8 + f) is None && piece_on(b0, 48 + f) is None && piece_on(b0, 56 + f) is None);
            b.place_piece(Piece { kind, color: Color::White }, Square::at(0, f));
            assert(piece_on(b, 8 + f) == piece_on(b0, 8 + f));
            b.place_piece(Piece { kind: PieceKind::Pawn, color: Color::White }, Square::at(1, f));
            let ghost b2 = b;
            assert(piece_on(b, 48 + f) == piece_on(b0, 48 + f));
            assert(piece_on(b, 56 + f) == piece_on(b0, 56 + f));
            b.place_piece(Piece { kind: PieceKind::Pawn, color: Color::Black }, Square::at(6, f));
            assert(piece_on(b, 56 + f) == piece_on(b2, 56 + f));
            b.place_piece(Piece { kind, color: Color::Black }, Square::at(7, f));
            proof {
                assert forall|s: int| 0 <= s < 64 && file_of(s) >= f + 1 implies #[trigger] b.piece_table@[s] is None by {
                    assert(piece_on(b, s) is None);
                }
            }
            f = f + 1;
        }
        let ghost placed = b;
        b.set_castling_rights(Color::White, BitBoard(0x91));
        b.set_castling_rights(Color::Black, BitBoard(0x9100_0000_0000_0000));
        proof {
            assert forall|s: int| 0 <= s < 64 implies #[trigger] piece_on(b, s) == start_piece(s) by {
                assert(file_of(s) < 8);
                assert(piece_on(placed, s) == start_piece(s));
                assert(piece_on(b, s) == piece_on(placed, s));
            }
        }
        let ghost before = b;
        b.update_move_constraints();
        proof {
            lemma_same_pieces(before, b);
            assert forall|s: int| 0 <= s < 64 implies #[trigger] piece_on(b, s) == start_piece(s) by {
                assert(piece_on(b, s) == piece_on(before, s));
            }
        }
        b
    }
}

} // verus!
