use vstd::prelude::*;

use crate::bitboard::BitBoard;
use crate::color::Color;
use crate::pieces::{Piece, PieceKind};
use crate::square::{file_of, Square};

verus! {

/// The first feature number of the castling rights, one per square.
pub const CASTLING_FEATURES: u64 = 768;

/// The first feature number of the en passant files, one per file.
pub const EP_FEATURES: u64 = 832;

/// The first feature number of the side to move, one per color.
pub const SIDE_FEATURES: u64 = 840;

/// The pseudo-random key of feature number `n`: the splitmix64 output for `n + 1`.
pub open spec fn mix(n: u64) -> u64 {
    let z0 = n.wrapping_add(1).wrapping_mul(0x9e37_79b9_7f4a_7c15);
    let z1 = (z0 ^ (z0 >> 30u64)).wrapping_mul(0xbf58_476d_1ce4_e5b9);
    let z2 = (z1 ^ (z1 >> 27u64)).wrapping_mul(0x94d0_49bb_1331_11eb);
    z2 ^ (z2 >> 31u64)
}

/// The number of a color: 0 for White, 1 for Black.
pub open spec fn color_number(c: Color) -> u64 {
    match c {
        Color::White => 0,
        Color::Black => 1,
    }
}

/// The number of a piece kind, from 0 for pawns to 5 for kings.
pub open spec fn kind_number(k: PieceKind) -> u64 {
    match k {
        PieceKind::Pawn => 0,
        PieceKind::Knight => 1,
        PieceKind::Bishop => 2,
        PieceKind::Rook => 3,
        PieceKind::Queen => 4,
        PieceKind::King => 5,
    }
}

/// The key of a piece standing on square `s`.
pub open spec fn piece_key(p: Piece, s: int) -> u64 {
    mix((color_number(p.color) * 384 + kind_number(p.kind) * 64 + s) as u64)
}

/// The key of a castling right held on square `s`.
pub open spec fn castling_square_key(s: int) -> u64 {
    mix((CASTLING_FEATURES + s) as u64)
}

/// The key of an en passant chance on file `f`.
pub open spec fn ep_file_key(f: int) -> u64 {
    mix((EP_FEATURES + f) as u64)
}

/// The key of the side to move.
pub open spec fn side_key(c: Color) -> u64 {
    mix((SIDE_FEATURES + color_number(c)) as u64)
}

/// The XOR of `f(0)`, ..., `f(n - 1)`.
pub open spec fn xor_fold(f: spec_fn(int) -> u64, n: nat) -> u64
    decreases n,
{
    if n == 0 {
        0
    } else {
        xor_fold(f, (n - 1) as nat) ^ f(n - 1)
    }
}

/// The key of the castling rights held on the squares of `rights`.
pub open spec fn castling_key(rights: BitBoard) -> u64 {
    xor_fold(castling_terms(rights), 64)
}

/// Square by square, the key of the castling right held there, or 0.
pub open spec fn castling_terms(rights: BitBoard) -> spec_fn(int) -> u64 {
    |s: int| if rights.contains(s) { castling_square_key(s) } else { 0 }
}

/// Identities of XOR used to follow a hash through its updates.
pub proof fn lemma_xor(a: u64, b: u64, c: u64, d: u64)
    by (bit_vector)
    ensures
        a ^ 0 == a,
        0 ^ a == a,
        a ^ a == 0,
        a ^ b == b ^ a,
        (a ^ b) ^ c == a ^ (b ^ c),
        (a ^ b) ^ b == a,
        ((a ^ b) ^ c) ^ d == ((a ^ d) ^ b) ^ c,
        ((a ^ b) ^ b) ^ c == a ^ c,
{
}

/// Folds of functions that agree below `n` are equal.
pub proof fn lemma_fold_ext(f: spec_fn(int) -> u64, g: spec_fn(int) -> u64, n: nat)
    requires
        forall|i: int| 0 <= i < n ==> #[trigger] f(i) == g(i),
    ensures
        xor_fold(f, n) == xor_fold(g, n),
    decreases n,
{
    if n > 0 {
        lemma_fold_ext(f, g, (n - 1) as nat);
    }
}

/// Changing the function at one point `s` below `n` changes the fold by the XOR of the old
/// and the new value there.
pub proof fn lemma_fold_update(f: spec_fn(int) -> u64, g: spec_fn(int) -> u64, s: int, n: nat)
    requires
        0 <= s < n,
        forall|i: int| 0 <= i < n && i != s ==> #[trigger] f(i) == g(i),
    ensures
        xor_fold(g, n) == (xor_fold(f, n) ^ f(s)) ^ g(s),
    decreases n,
{
    let m = (n - 1) as nat;
    if s == m {
        lemma_fold_ext(f, g, m);
        lemma_xor(xor_fold(f, m), f(s), g(s), 0);
    } else {
        lemma_fold_update(f, g, s, m);
        lemma_xor(xor_fold(f, m), f(s), g(s), f(m as int));
    }
}

/// The key of feature number `n`.
pub fn mix_key(n: u64) -> (r: u64)
    ensures
        r == mix(n),
{
    let z0 = n.wrapping_add(1).wrapping_mul(0x9e37_79b9_7f4a_7c15);
    let z1 = (z0 ^ (z0 >> 30u64)).wrapping_mul(0xbf58_476d_1ce4_e5b9);
    let z2 = (z1 ^ (z1 >> 27u64)).wrapping_mul(0x94d0_49bb_1331_11eb);
    z2 ^ (z2 >> 31u64)
}

/// The key of `piece` standing on `square`.
pub fn zobrist_piece(piece: Piece, square: Square) -> (r: u64)
    ensures
        r == piece_key(piece, square@),
{
    let c: u64 = match piece.color {
        Color::White => 0,
        Color::Black => 1,
    };
    let k: u64 = match piece.kind {
        PieceKind::Pawn => 0,
        PieceKind::Knight => 1,
        PieceKind::Bishop => 2,
        PieceKind::Rook => 3,
        PieceKind::Queen => 4,
        PieceKind::King => 5,
    };
    mix_key(c * 384 + k * 64 + square.index() as u64)
}

/// The key of an en passant chance on the file of `square`.
pub fn zobrist_ep_file(square: Square) -> (r: u64)
    ensures
        r == ep_file_key(file_of(square@)),
{
    mix_key(EP_FEATURES + square.file() as u64)
}

/// The key of `color` being the side to move.
pub fn zobrist_side(color: Color) -> (r: u64)
    ensures
        r == side_key(color),
{
    match color {
        Color::White => mix_key(SIDE_FEATURES),
        Color::Black => mix_key(SIDE_FEATURES + 1),
    }
}

/// The key of the castling rights on the squares of `rights`.
pub fn zobrist_castling_rights(rights: BitBoard) -> (r: u64)
    ensures
        r == castling_key(rights),
{
    let ghost f = castling_terms(rights);
    let mut h: u64 = 0;
    let mut i: u8 = 0;
    while i < 64
        invariant
            i <= 64,
            f == castling_terms(rights),
            h == xor_fold(f, i as nat),
        decreases 64 - i,
    {
        let square = Square::from_index(i).unwrap();
        let ghost before = h;
        if rights.get_bit(square) {
            let k = mix_key(CASTLING_FEATURES + i as u64);
            assert(k == castling_square_key(i as int));
            assert(f(i as int) == k);
            h = h ^ k;
        } else {
            assert(f(i as int) == 0);
            proof {
                lemma_xor(h, 0, 0, 0);
            }
        }
        proof {
            assert(xor_fold(f, (i + 1) as nat) == xor_fold(f, i as nat) ^ f(i as int));
            assert(h == before ^ f(i as int));
        }
        i = i + 1;
    }
    h
}

} // verus!
