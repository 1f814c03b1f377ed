use vstd::prelude::*;

use crate::bitboard::BitBoard;
use crate::color::Color;
use crate::square::{square_text, Square};

verus! {

/// The kind of a piece.
#[derive(Clone, Copy, Debug, PartialEq, Eq, Structural)]
pub enum PieceKind {
    Pawn,
    Knight,
    Bishop,
    Rook,
    Queen,
    King,
}

/// A piece: its kind and its color.
#[derive(Clone, Copy, Debug, PartialEq, Eq, Structural)]
pub struct Piece {
    pub kind: PieceKind,
    pub color: Color,
}

/// What a move does beyond taking a piece from its origin to its target.
#[derive(Clone, Copy, Debug, PartialEq, Eq, Structural)]
pub enum MoveMeta {
    /// Nothing more.
    Plain,
    /// A pawn moves two ranks from its start rank.
    DoublePush,
    /// A pawn captures the pawn that just made a double push, passing behind it.
    EnPassant,
    /// A pawn reaches the last rank and becomes the given kind.
    Promotion(PieceKind),
    /// The king castles on the king's side.
    CastleKs,
    /// The king castles on the queen's side.
    CastleQs,
}

/// A move: the piece of kind `moved_piece_kind` goes from `origin` to `target`.
#[derive(Clone, Copy, Debug, PartialEq, Eq, Structural)]
pub struct Move {
    pub origin: Square,
    pub target: Square,
    pub moved_piece_kind: PieceKind,
    pub meta: MoveMeta,
}

/// The en passant state after a double push: the pawn that may be taken, and the square a
/// capturing pawn lands on.
#[derive(Clone, Copy, Debug, PartialEq, Eq, Structural)]
pub struct EpData {
    pub pawn: Square,
    pub capture_point: BitBoard,
}

/// The pinned pieces of a side, one board per line of the pin.
#[derive(Clone, Copy, Debug, PartialEq, Eq, Structural)]
pub struct Pins {
    pub vertical: BitBoard,
    pub horizontal: BitBoard,
    pub diagonal: BitBoard,
    pub anti_diagonal: BitBoard,
}

impl Pins {
    /// No pins.
    pub fn empty() -> (r: Pins)
        ensures
            r.vertical.0 == 0,
            r.horizontal.0 == 0,
            r.diagonal.0 == 0,
            r.anti_diagonal.0 == 0,
    {
        Pins {
            vertical: BitBoard(0),
            horizontal: BitBoard(0),
            diagonal: BitBoard(0),
            anti_diagonal: BitBoard(0),
        }
    }
}

/// One side's pieces and the constraints on its next move.
#[derive(Clone, Copy, Debug, PartialEq, Eq, Structural)]
pub struct Player {
    pub pawns: BitBoard,
    pub knights: BitBoard,
    pub bishops: BitBoard,
    pub rooks: BitBoard,
    pub queens: BitBoard,
    pub king: BitBoard,
    /// The union of the six boards above.
    pub occupation: BitBoard,
    /// The rook and king home squares whose castling rights are still held.
    pub castling_rights: BitBoard,
    pub pins: Pins,
    /// The squares a move other than a king move may go to.
    pub valid_targets: BitBoard,
    /// Whether only a king move can be legal.
    pub king_must_move: bool,
}

impl Player {
    /// The board of this player's pieces of `kind`.
    pub open spec fn kind_board(self, kind: PieceKind) -> BitBoard {
        match kind {
            PieceKind::Pawn => self.pawns,
            PieceKind::Knight => self.knights,
            PieceKind::Bishop => self.bishops,
            PieceKind::Rook => self.rooks,
            PieceKind::Queen => self.queens,
            PieceKind::King => self.king,
        }
    }

    /// A player with no pieces and no castling rights.
    pub fn empty() -> (r: Player)
        ensures
            forall|i: int| !#[trigger] r.occupation.contains(i),
            forall|k: PieceKind, i: int| !#[trigger] r.kind_board(k).contains(i),
            r.castling_rights.0 == 0,
            r.valid_targets.0 == BitBoard::FULL,
            !r.king_must_move,
    {
        let e = BitBoard::empty();
        Player {
            pawns: e,
            knights: e,
            bishops: e,
            rooks: e,
            queens: e,
            king: e,
            occupation: e,
            castling_rights: e,
            pins: Pins::empty(),
            valid_targets: BitBoard::full(),
            king_must_move: false,
        }
    }

    /// Adds or removes a piece of `kind` on `square`: toggles the square on the board of that
    /// kind and on the occupation.
    pub fn toggle_piece(&mut self, kind: PieceKind, square: Square)
        ensures
            forall|i: int| #[trigger] final(self).occupation.contains(i) <==> (old(self).occupation.contains(i) != (i == square@)),
            forall|i: int| #[trigger] final(self).kind_board(kind).contains(i) <==> (old(self).kind_board(kind).contains(i) != (i == square@)),
            forall|k: PieceKind| k != kind ==> #[trigger] final(self).kind_board(k) == old(self).kind_board(k),
            final(self).castling_rights == old(self).castling_rights,
            final(self).pins == old(self).pins,
            final(self).valid_targets == old(self).valid_targets,
            final(self).king_must_move == old(self).king_must_move,
    {
        match kind {
            PieceKind::Pawn => self.pawns.toggle_bit(square),
            PieceKind::Knight => self.knights.toggle_bit(square),
            PieceKind::Bishop => self.bishops.toggle_bit(square),
            PieceKind::Rook => self.rooks.toggle_bit(square),
            PieceKind::Queen => self.queens.toggle_bit(square),
            PieceKind::King => self.king.toggle_bit(square),
        }
        self.occupation.toggle_bit(square);
    }

    /// Moves this player's piece of `kind` from `origin` to `target`, which must differ.
    pub fn move_piece_unchecked(&mut self, kind: PieceKind, origin: Square, target: Square)
        requires
            origin@ != target@,
        ensures
            forall|i: int| #[trigger] final(self).occupation.contains(i) <==> (old(self).occupation.contains(i) != (i == origin@ || i == target@)),
            forall|i: int| #[trigger] final(self).kind_board(kind).contains(i) <==> (old(self).kind_board(kind).contains(i) != (i == origin@ || i == target@)),
            forall|k: PieceKind| k != kind ==> #[trigger] final(self).kind_board(k) == old(self).kind_board(k),
            final(self).castling_rights == old(self).castling_rights,
            final(self).pins == old(self).pins,
            final(self).valid_targets == old(self).valid_targets,
            final(self).king_must_move == old(self).king_must_move,
    {
        self.toggle_piece(kind, origin);
        self.toggle_piece(kind, target);
    }
}

/// The letter of a piece kind that a pawn may be promoted to: `q`, `r`, `b` or `n`.
pub open spec fn promotion_letter(k: PieceKind) -> char {
    match k {
        PieceKind::Queen => 'q',
        PieceKind::Rook => 'r',
        PieceKind::Bishop => 'b',
        PieceKind::Knight => 'n',
        PieceKind::Pawn => 'p',
        PieceKind::King => 'k',
    }
}

/// The piece kind a promotion letter names, if it is one of `q`, `r`, `b` and `n`.
pub open spec fn promotion_kind(c: char) -> Option<PieceKind> {
    if c == 'q' {
        Some(PieceKind::Queen)
    } else if c == 'r' {
        Some(PieceKind::Rook)
    } else if c == 'b' {
        Some(PieceKind::Bishop)
    } else if c == 'n' {
        Some(PieceKind::Knight)
    } else {
        None
    }
}

/// The coordinate text of a move: origin, target, and the promotion letter if any.
pub open spec fn move_text(m: Move) -> Seq<char> {
    let squares = square_text(m.origin@) + square_text(m.target@);
    match m.meta {
        MoveMeta::Promotion(k) => squares.push(promotion_letter(k)),
        _ => squares,
    }
}

/// Relies on `String::push`: appends the character.
#[verifier::external_body]
fn push_char(s: &mut String, c: char)
    ensures
        final(s)@ == old(s)@.push(c),
{
    s.push(c)
}

impl Move {
    /// The coordinate text of the move, such as `e2e4` or `e7e8q`.
    pub fn to_text(&self) -> (r: String)
        ensures
            r@ == move_text(*self),
    {
        let mut s = String::new();
        push_char(&mut s, self.origin.file_letter());
        push_char(&mut s, self.origin.rank_digit());
        push_char(&mut s, self.target.file_letter());
        push_char(&mut s, self.target.rank_digit());
        match self.meta {
            MoveMeta::Promotion(k) => {
                let c = match k {
                    PieceKind::Queen => 'q',
                    PieceKind::Rook => 'r',
                    PieceKind::Bishop => 'b',
                    PieceKind::Knight => 'n',
                    PieceKind::Pawn => 'p',
                    PieceKind::King => 'k',
                };
                push_char(&mut s, c);
            },
            _ => {},
        }
        assert(s@ =~= move_text(*self));
        s
    }
}

} // verus!
