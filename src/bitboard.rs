use vstd::prelude::*;

use crate::color::{opposite, Color};
use crate::square::{file_of, rank_of, Square};

verus! {

/// Whether bit `i` of `x` is set.
pub open spec fn bit(x: u64, i: u64) -> bool {
    (x >> i) & 1u64 == 1u64
}

/// The number of set bits of `x` among the bits `0..n`.
pub open spec fn ones_below(x: u64, n: nat) -> nat
    decreases n,
{
    if n == 0 {
        0
    } else {
        ones_below(x, (n - 1) as nat) + if bit(x, (n - 1) as u64) {
            1nat
        } else {
            0nat
        }
    }
}

/// The number of set bits of `x`.
pub open spec fn popcount(x: u64) -> nat {
    ones_below(x, 64)
}

/// One step "up" for a side, in ranks: White moves towards the eighth rank, Black towards the
/// first.
pub open spec fn ahead(c: Color) -> int {
    match c {
        Color::White => 1,
        Color::Black => -1,
    }
}

/// A set of squares, held as one bit per square: bit `i` stands for the square of index `i`.
#[derive(Clone, Copy, Debug, PartialEq, Eq, Structural)]
pub struct BitBoard(pub u64);

/// `r` holds square `i` exactly when `b` holds the square `dr` ranks and `df` files before it,
/// and that square moved by `(dr, df)` stays on the board.
pub open spec fn shifted(b: BitBoard, dr: int, df: int, i: int) -> bool {
    let s = i - 8 * dr - df;
    &&& b.contains(s)
    &&& 0 <= rank_of(s) + dr < 8
    &&& 0 <= file_of(s) + df < 8
}

/// `r` is `b` moved by `dr` ranks and `df` files, where bits that would leave the board vanish.
pub open spec fn is_shift(r: BitBoard, b: BitBoard, dr: int, df: int) -> bool {
    forall|i: int| 0 <= i < 64 ==> (#[trigger] r.contains(i) <==> shifted(b, dr, df, i))
}

/// Bits of the results of the bitwise operators.
pub proof fn lemma_bit_ops(x: u64, y: u64, i: u64)
    by (bit_vector)
    requires
        i < 64,
    ensures
        bit(x & y, i) == (bit(x, i) && bit(y, i)),
        bit(x | y, i) == (bit(x, i) || bit(y, i)),
        bit(x ^ y, i) == (bit(x, i) != bit(y, i)),
        bit(!x, i) == !bit(x, i),
        !bit(0u64, i),
        bit(0xffff_ffff_ffff_ffffu64, i),
{
}

/// Bits of a left shift.
pub proof fn lemma_bit_shl(x: u64, k: u64, i: u64)
    by (bit_vector)
    requires
        k < 64,
        i < 64,
    ensures
        bit(x << k, i) == (i >= k && bit(x, (i - k) as u64)),
{
}

/// Bits of a right shift.
pub proof fn lemma_bit_shr(x: u64, k: u64, i: u64)
    by (bit_vector)
    requires
        k < 64,
        i < 64,
    ensures
        bit(x >> k, i) == (i + k < 64 && bit(x, (i + k) as u64)),
{
}

/// Two words with the same bits are equal.
pub proof fn lemma_bits_equal(x: u64, y: u64)
    requires
        forall|i: u64| i < 64 ==> bit(x, i) == bit(y, i),
    ensures
        x == y,
{
    if x != y {
        let z = x ^ y;
        assert(z != 0) by (bit_vector)
            requires
                x != y,
                z == x ^ y,
        ;
        broadcast use vstd::std_specs::bits::axiom_u64_trailing_zeros;

        let t = z.trailing_zeros() as u64;
        assert(t < 64);
        lemma_bit_ops(x, y, t);
    }
}

impl BitBoard {
    /// Whether the board holds the square of index `i`.
    pub open spec fn contains(self, i: int) -> bool {
        0 <= i < 64 && bit(self.0, i as u64)
    }

    /// The number of squares the board holds.
    pub open spec fn len(self) -> nat {
        popcount(self.0)
    }

    /// Two boards that hold the same squares are equal.
    pub proof fn lemma_ext(a: BitBoard, b: BitBoard)
        requires
            forall|i: int| 0 <= i < 64 ==> a.contains(i) == b.contains(i),
        ensures
            a == b,
    {
        assert forall|i: u64| i < 64 implies bit(a.0, i) == bit(b.0, i) by {
            assert(a.contains(i as int) == b.contains(i as int));
        }
        lemma_bits_equal(a.0, b.0);
    }

    /// The empty board.
    pub const EMPTY: u64 = 0;

    /// The board of all 64 squares.
    pub const FULL: u64 = 0xffff_ffff_ffff_ffff;

    /// The squares of the a-file.
    pub const A_FILE: u64 = 0x0101_0101_0101_0101;

    /// The squares of the h-file.
    pub const H_FILE: u64 = 0x8080_8080_8080_8080;

    /// The squares of the a-file and the h-file.
    pub const EDGE_FILES: u64 = 0x8181_8181_8181_8181;

    /// The squares of the first rank.
    pub const RANK_1: u64 = 0x0000_0000_0000_00ff;

    /// The squares of the second rank.
    pub const RANK_2: u64 = 0x0000_0000_0000_ff00;

    /// The squares of the seventh rank.
    pub const RANK_7: u64 = 0x00ff_0000_0000_0000;

    /// The squares of the eighth rank.
    pub const RANK_8: u64 = 0xff00_0000_0000_0000;

    /// The squares of the first and the eighth rank.
    pub const EDGE_RANKS: u64 = 0xff00_0000_0000_00ff;

    /// The squares on the border of the board.
    pub const EDGES: u64 = 0xff81_8181_8181_81ff;

    /// f1 and g1: the squares between White's king and king-side rook, which must be empty
    /// and not attacked for castling.
    pub const WHITE_KING_SIDE_CASTLE_MASK: u64 = 0x0000_0000_0000_0060;

    /// b1, c1 and d1: the squares between White's king and queen-side rook.
    pub const WHITE_QUEEN_SIDE_CASTLE_OCCUPATION_MASK: u64 = 0x0000_0000_0000_000e;

    /// c1 and d1: the squares White's king crosses when castling queen-side.
    pub const WHITE_QUEEN_SIDE_CASTLE_ATTACK_MASK: u64 = 0x0000_0000_0000_000c;

    /// f8 and g8.
    pub const BLACK_KING_SIDE_CASTLE_MASK: u64 = 0x6000_0000_0000_0000;

    /// c8 and d8.
    pub const BLACK_QUEEN_SIDE_CASTLE_ATTACK_MASK: u64 = 0x0c00_0000_0000_0000;

    /// b8, c8 and d8.
    pub const BLACK_QUEEN_SIDE_CASTLE_OCCUPATION_MASK: u64 = 0x0e00_0000_0000_0000;

    /// The second and the seventh rank, where pawns start.
    pub const PAWN_START_RANKS: u64 = 0x00ff_0000_0000_ff00;

    /// The sixth rank, where a White pawn lands when capturing en passant.
    pub const WHITE_EN_PASSANT_CAPTURE_RANKS: u64 = 0x0000_ff00_0000_0000;

    /// The third rank, where a Black pawn lands when capturing en passant.
    pub const BLACK_EN_PASSANT_CAPTURE_RANKS: u64 = 0x0000_0000_00ff_0000;

    /// c1, e1, g1, c8, e8 and g8: the squares a king leaves from or lands on when castling.
    pub const KING_CASTLE_MOVES: u64 = 0x5400_0000_0000_0054;

    /// The squares of both boards.
    pub fn union(self, other: BitBoard) -> (r: BitBoard)
        ensures
            r.0 == self.0 | other.0,
            forall|i: int| #[trigger] r.contains(i) <==> (self.contains(i) || other.contains(i)),
    {
        let r = BitBoard(self.0 | other.0);
        assert forall|i: int| #[trigger] r.contains(i) <==> (self.contains(i) || other.contains(
            i,
        )) by {
            if 0 <= i < 64 {
                lemma_bit_ops(self.0, other.0, i as u64);
            }
        }
        r
    }

    /// The squares held by both boards.
    pub fn intersection(self, other: BitBoard) -> (r: BitBoard)
        ensures
            r.0 == self.0 & other.0,
            forall|i: int| #[trigger] r.contains(i) <==> (self.contains(i) && other.contains(i)),
    {
        let r = BitBoard(self.0 & other.0);
        assert forall|i: int| #[trigger] r.contains(i) <==> (self.contains(i) && other.contains(
            i,
        )) by {
            if 0 <= i < 64 {
                lemma_bit_ops(self.0, other.0, i as u64);
            }
        }
        r
    }

    /// The squares held by exactly one of the two boards.
    pub fn symmetric_difference(self, other: BitBoard) -> (r: BitBoard)
        ensures
            r.0 == self.0 ^ other.0,
            forall|i: int| #[trigger] r.contains(i) <==> (self.contains(i) != other.contains(i)),
    {
        let r = BitBoard(self.0 ^ other.0);
        assert forall|i: int| #[trigger] r.contains(i) <==> (self.contains(i) != other.contains(
            i,
        )) by {
            if 0 <= i < 64 {
                lemma_bit_ops(self.0, other.0, i as u64);
            }
        }
        r
    }

    /// The squares the board does not hold.
    pub fn complement(self) -> (r: BitBoard)
        ensures
            r.0 == !self.0,
            forall|i: int| 0 <= i < 64 ==> (#[trigger] r.contains(i) <==> !self.contains(i)),
    {
        let r = BitBoard(!self.0);
        assert forall|i: int| 0 <= i < 64 implies (#[trigger] r.contains(i) <==> !self.contains(
            i,
        )) by {
            lemma_bit_ops(self.0, 0, i as u64);
        }
        r
    }

    /// Whether the board holds no square.
    pub fn is_empty(&self) -> (r: bool)
        ensures
            r <==> forall|i: int| 0 <= i < 64 ==> !#[trigger] self.contains(i),
            r <==> self.0 == BitBoard::EMPTY,
    {
        proof {
            if self.0 != 0 {
                lemma_nonzero_has_bit(self.0);
                let t = self.0.trailing_zeros() as u64;
                assert(self.contains(t as int));
            }
            assert forall|i: int| 0 <= i < 64 && self.0 == 0 implies !#[trigger] self.contains(
                i,
            ) by {
                lemma_bit_ops(0, 0, i as u64);
            }
        }
        self.0 == 0
    }

    /// Whether the board holds every square.
    pub fn is_full(&self) -> (r: bool)
        ensures
            r <==> forall|i: int| 0 <= i < 64 ==> #[trigger] self.contains(i),
            r <==> self.0 == BitBoard::FULL,
    {
        proof {
            let x = self.0;
            let c = !x;
            if x != 0xffff_ffff_ffff_ffff {
                assert(c != 0) by (bit_vector)
                    requires
                        c == !x,
                        x != 0xffff_ffff_ffff_ffffu64,
                ;
                lemma_nonzero_has_bit(c);
                let t = c.trailing_zeros() as u64;
                lemma_bit_ops(self.0, 0, t);
                assert(!self.contains(t as int));
            }
            assert forall|i: int|
                0 <= i < 64 && self.0 == 0xffff_ffff_ffff_ffff implies #[trigger] self.contains(
                i,
            ) by {
                lemma_bit_ops(0, 0, i as u64);
            }
        }
        self.0 == 0xffff_ffff_ffff_ffff
    }

    /// Whether every square of this board is on `other` too.
    pub fn is_subset_of(&self, other: BitBoard) -> (r: bool)
        ensures
            r <==> forall|i: int| #[trigger] self.contains(i) ==> other.contains(i),
    {
        let both = self.intersection(other);
        proof {
            if both != *self {
                if forall|i: int| #[trigger] self.contains(i) ==> other.contains(i) {
                    assert forall|i: int| 0 <= i < 64 implies both.contains(i) == self.contains(
                        i,
                    ) by {}
                    BitBoard::lemma_ext(both, *self);
                }
            }
        }
        both.0 == self.0
    }
}

/// A nonzero word has a set bit, at the index of its trailing zeros.
pub proof fn lemma_nonzero_has_bit(x: u64)
    requires
        x != 0,
    ensures
        x.trailing_zeros() < 64,
        bit(x, x.trailing_zeros() as u64),
        forall|j: u64| j < x.trailing_zeros() ==> !bit(x, j),
{
    broadcast use vstd::std_specs::bits::axiom_u64_trailing_zeros;

}

impl std::ops::BitAnd for BitBoard {
    type Output = BitBoard;

    fn bitand(self, rhs: BitBoard) -> BitBoard {
        BitBoard(self.0 & rhs.0)
    }
}

impl vstd::std_specs::ops::BitAndSpecImpl for BitBoard {
    open spec fn obeys_bitand_spec() -> bool {
        true
    }

    open spec fn bitand_req(self, rhs: BitBoard) -> bool {
        true
    }

    open spec fn bitand_spec(self, rhs: BitBoard) -> BitBoard {
        BitBoard(self.0 & rhs.0)
    }
}

impl std::ops::BitOr for BitBoard {
    type Output = BitBoard;

    fn bitor(self, rhs: BitBoard) -> BitBoard {
        BitBoard(self.0 | rhs.0)
    }
}

impl vstd::std_specs::ops::BitOrSpecImpl for BitBoard {
    open spec fn obeys_bitor_spec() -> bool {
        true
    }

    open spec fn bitor_req(self, rhs: BitBoard) -> bool {
        true
    }

    open spec fn bitor_spec(self, rhs: BitBoard) -> BitBoard {
        BitBoard(self.0 | rhs.0)
    }
}

impl std::ops::BitXor for BitBoard {
    type Output = BitBoard;

    fn bitxor(self, rhs: BitBoard) -> BitBoard {
        BitBoard(self.0 ^ rhs.0)
    }
}

impl vstd::std_specs::ops::BitXorSpecImpl for BitBoard {
    open spec fn obeys_bitxor_spec() -> bool {
        true
    }

    open spec fn bitxor_req(self, rhs: BitBoard) -> bool {
        true
    }

    open spec fn bitxor_spec(self, rhs: BitBoard) -> BitBoard {
        BitBoard(self.0 ^ rhs.0)
    }
}

impl std::ops::Not for BitBoard {
    type Output = BitBoard;

    fn not(self) -> BitBoard {
        BitBoard(!self.0)
    }
}

impl vstd::std_specs::ops::NotSpecImpl for BitBoard {
    open spec fn obeys_not_spec() -> bool {
        true
    }

    open spec fn not_req(self) -> bool {
        true
    }

    open spec fn not_spec(self) -> BitBoard {
        BitBoard(!self.0)
    }
}

impl std::ops::BitOrAssign for BitBoard {
    fn bitor_assign(&mut self, rhs: BitBoard) {
        self.0 = self.0 | rhs.0;
    }
}

impl std::ops::BitXorAssign for BitBoard {
    fn bitxor_assign(&mut self, rhs: BitBoard) {
        self.0 = self.0 ^ rhs.0;
    }
}

/// Bits of the board masks.
pub proof fn lemma_mask_bits(i: u64)
    by (bit_vector)
    requires
        i < 64,
    ensures
        bit(BitBoard::RANK_1, i) == (i < 8),
        bit(BitBoard::RANK_2, i) == (8 <= i && i < 16),
        bit(BitBoard::RANK_7, i) == (48 <= i && i < 56),
        bit(BitBoard::RANK_8, i) == (56 <= i),
        bit(BitBoard::A_FILE, i) == (i % 8 == 0),
        bit(BitBoard::H_FILE, i) == (i % 8 == 7),
{
}

/// Bits of a board masked and then shifted left.
proof fn lemma_masked_shl(x: u64, m: u64, k: u64, i: u64)
    requires
        k < 64,
        i < 64,
    ensures
        bit((x & !m) << k, i) == (i >= k && bit(x, (i - k) as u64) && !bit(m, (i - k) as u64)),
{
    lemma_bit_shl(x & !m, k, i);
    if i >= k {
        lemma_bit_ops(x, !m, (i - k) as u64);
        lemma_bit_ops(m, 0, (i - k) as u64);
    }
}

/// Bits of a board masked and then shifted right.
proof fn lemma_masked_shr(x: u64, m: u64, k: u64, i: u64)
    requires
        k < 64,
        i < 64,
    ensures
        bit((x & !m) >> k, i) == (i + k < 64 && bit(x, (i + k) as u64) && !bit(m, (i + k) as u64)),
{
    lemma_bit_shr(x & !m, k, i);
    if i + k < 64 {
        lemma_bit_ops(x, !m, (i + k) as u64);
        lemma_bit_ops(m, 0, (i + k) as u64);
    }
}

/// Rank and file of a square moved by whole ranks or by files within its rank.
proof fn lemma_coords(s: int, dr: int, df: int)
    requires
        0 <= s < 64,
        -2 <= dr <= 2,
        -1 <= df <= 1,
        0 <= rank_of(s) + dr < 8,
        0 <= file_of(s) + df < 8,
    ensures
        0 <= s + 8 * dr + df < 64,
        rank_of(s + 8 * dr + df) == rank_of(s) + dr,
        file_of(s + 8 * dr + df) == file_of(s) + df,
{
}

/// Moving by ranks and then by files is moving by both at once.
pub proof fn lemma_shift_compose(b: BitBoard, r1: BitBoard, r2: BitBoard, dr: int, df: int)
    requires
        -1 <= dr <= 1,
        -1 <= df <= 1,
        is_shift(r1, b, dr, 0),
        is_shift(r2, r1, 0, df),
    ensures
        is_shift(r2, b, dr, df),
{
    assert forall|i: int| 0 <= i < 64 implies (#[trigger] r2.contains(i) <==> shifted(b, dr, df, i)) by {
        let t = i - df;
        let s = i - 8 * dr - df;
        if r2.contains(i) {
            assert(r1.contains(t));
            assert(shifted(b, dr, 0, t));
            lemma_coords(s, dr, 0);
            lemma_coords(t, 0, df);
        }
        if shifted(b, dr, df, i) {
            lemma_coords(s, dr, 0);
            lemma_coords(s, dr, df);
            assert(shifted(b, dr, 0, t));
            assert(r1.contains(t));
        }
    }
}

/// The word of `x` moved one rank up as seen from `c`'s side.
pub open spec fn up_bits(x: u64, c: Color) -> u64 {
    match c {
        Color::White => (x & !BitBoard::RANK_8) << 8u64,
        Color::Black => (x & !BitBoard::RANK_1) >> 8u64,
    }
}

/// The word of `x` moved one file right as seen from `c`'s side.
pub open spec fn right_bits(x: u64, c: Color) -> u64 {
    match c {
        Color::White => (x & !BitBoard::H_FILE) << 1u64,
        Color::Black => (x & !BitBoard::A_FILE) >> 1u64,
    }
}

impl BitBoard {
    /// The board with no square.
    pub fn empty() -> (r: BitBoard)
        ensures
            r.0 == BitBoard::EMPTY,
            forall|i: int| !#[trigger] r.contains(i),
    {
        proof {
            assert forall|i: int| !#[trigger] BitBoard(0).contains(i) by {
                if 0 <= i < 64 {
                    lemma_bit_ops(0, 0, i as u64);
                }
            }
        }
        BitBoard(BitBoard::EMPTY)
    }

    /// The board of all squares.
    pub fn full() -> (r: BitBoard)
        ensures
            r.0 == BitBoard::FULL,
            forall|i: int| 0 <= i < 64 ==> #[trigger] r.contains(i),
    {
        proof {
            assert forall|i: int| 0 <= i < 64 implies #[trigger] BitBoard(BitBoard::FULL).contains(i) by {
                lemma_bit_ops(0, 0, i as u64);
            }
        }
        BitBoard(BitBoard::FULL)
    }

    fn shift_visually_right(self, squares: u8) -> (r: BitBoard)
        requires
            squares < 64,
        ensures
            r.0 == self.0 << squares,
    {
        BitBoard(self.0 << squares)
    }

    fn shift_visually_left(self, squares: u8) -> (r: BitBoard)
        requires
            squares < 64,
        ensures
            r.0 == self.0 >> squares,
    {
        BitBoard(self.0 >> squares)
    }

    /// Moves every square one rank up, as seen from `color`'s side; squares on the last rank
    /// vanish.
    pub fn move_one_up(self, color: Color) -> (r: BitBoard)
        ensures
            is_shift(r, self, ahead(color), 0),
            r.0 == up_bits(self.0, color),
    {
        match color {
            Color::White => {
                let r = BitBoard(self.0 & !BitBoard::RANK_8).shift_visually_right(8);
                assert forall|i: int| 0 <= i < 64 implies (#[trigger] r.contains(i) <==> shifted(self, 1, 0, i)) by {
                    lemma_masked_shl(self.0, BitBoard::RANK_8, 8, i as u64);
                    if i >= 8 {
                        lemma_mask_bits((i - 8) as u64);
                    }
                }
                r
            },
            Color::Black => {
                let r = BitBoard(self.0 & !BitBoard::RANK_1).shift_visually_left(8);
                assert forall|i: int| 0 <= i < 64 implies (#[trigger] r.contains(i) <==> shifted(self, -1, 0, i)) by {
                    lemma_masked_shr(self.0, BitBoard::RANK_1, 8, i as u64);
                    if i < 56 {
                        lemma_mask_bits((i + 8) as u64);
                    }
                }
                r
            },
        }
    }

    /// Moves every square two ranks up, as seen from `color`'s side; squares that would leave
    /// the board vanish.
    pub fn move_two_up(self, color: Color) -> (r: BitBoard)
        ensures
            is_shift(r, self, 2 * ahead(color), 0),
    {
        match color {
            Color::White => {
                let r = BitBoard(self.0 & !(BitBoard::RANK_7 | BitBoard::RANK_8)).shift_visually_right(16);
                assert forall|i: int| 0 <= i < 64 implies (#[trigger] r.contains(i) <==> shifted(self, 2, 0, i)) by {
                    lemma_masked_shl(self.0, BitBoard::RANK_7 | BitBoard::RANK_8, 16, i as u64);
                    if i >= 16 {
                        lemma_mask_bits((i - 16) as u64);
                        lemma_bit_ops(BitBoard::RANK_7, BitBoard::RANK_8, (i - 16) as u64);
                    }
                }
                r
            },
            Color::Black => {
                let r = BitBoard(self.0 & !(BitBoard::RANK_1 | BitBoard::RANK_2)).shift_visually_left(16);
                assert forall|i: int| 0 <= i < 64 implies (#[trigger] r.contains(i) <==> shifted(self, -2, 0, i)) by {
                    lemma_masked_shr(self.0, BitBoard::RANK_1 | BitBoard::RANK_2, 16, i as u64);
                    if i < 48 {
                        lemma_mask_bits((i + 16) as u64);
                        lemma_bit_ops(BitBoard::RANK_1, BitBoard::RANK_2, (i + 16) as u64);
                    }
                }
                r
            },
        }
    }

    /// Moves every square one rank down, as seen from `color`'s side; squares on the first rank
    /// vanish.
    pub fn move_one_down(self, color: Color) -> (r: BitBoard)
        ensures
            is_shift(r, self, -ahead(color), 0),
            r.0 == up_bits(self.0, opposite(color)),
    {
        self.move_one_up(color.negate())
    }

    /// Moves every square one file to the right, as seen from `color`'s side; squares on the
    /// rightmost file vanish.
    pub fn move_one_right(self, color: Color) -> (r: BitBoard)
        ensures
            is_shift(r, self, 0, ahead(color)),
            r.0 == right_bits(self.0, color),
    {
        match color {
            Color::White => {
                let r = BitBoard(self.0 & !BitBoard::H_FILE).shift_visually_right(1);
                assert forall|i: int| 0 <= i < 64 implies (#[trigger] r.contains(i) <==> shifted(self, 0, 1, i)) by {
                    lemma_masked_shl(self.0, BitBoard::H_FILE, 1, i as u64);
                    if i >= 1 {
                        lemma_mask_bits((i - 1) as u64);
                    }
                }
                r
            },
            Color::Black => {
                let r = BitBoard(self.0 & !BitBoard::A_FILE).shift_visually_left(1);
                assert forall|i: int| 0 <= i < 64 implies (#[trigger] r.contains(i) <==> shifted(self, 0, -1, i)) by {
                    lemma_masked_shr(self.0, BitBoard::A_FILE, 1, i as u64);
                    if i < 63 {
                        lemma_mask_bits((i + 1) as u64);
                    }
                }
                r
            },
        }
    }

    /// Moves every square one file to the left, as seen from `color`'s side; squares on the
    /// leftmost file vanish.
    pub fn move_one_left(self, color: Color) -> (r: BitBoard)
        ensures
            is_shift(r, self, 0, -ahead(color)),
            r.0 == right_bits(self.0, opposite(color)),
    {
        self.move_one_right(color.negate())
    }

    /// One rank up and one file to the right, as seen from `color`'s side.
    pub fn move_one_up_right(self, color: Color) -> (r: BitBoard)
        ensures
            is_shift(r, self, ahead(color), ahead(color)),
            r.0 == right_bits(up_bits(self.0, color), color),
    {
        let u = self.move_one_up(color);
        let r = u.move_one_right(color);
        proof {
            lemma_shift_compose(self, u, r, ahead(color), ahead(color));
        }
        r
    }

    /// One rank up and one file to the left, as seen from `color`'s side.
    pub fn move_one_up_left(self, color: Color) -> (r: BitBoard)
        ensures
            is_shift(r, self, ahead(color), -ahead(color)),
            r.0 == right_bits(up_bits(self.0, color), opposite(color)),
    {
        let u = self.move_one_up(color);
        let r = u.move_one_left(color);
        proof {
            lemma_shift_compose(self, u, r, ahead(color), -ahead(color));
        }
        r
    }

    /// One rank down and one file to the left, as seen from `color`'s side.
    pub fn move_one_down_left(self, color: Color) -> (r: BitBoard)
        ensures
            is_shift(r, self, -ahead(color), -ahead(color)),
            r.0 == right_bits(up_bits(self.0, opposite(color)), opposite(color)),
    {
        let d = self.move_one_down(color);
        let r = d.move_one_left(color);
        proof {
            lemma_shift_compose(self, d, r, -ahead(color), -ahead(color));
        }
        r
    }

    /// One rank down and one file to the right, as seen from `color`'s side.
    pub fn move_one_down_right(self, color: Color) -> (r: BitBoard)
        ensures
            is_shift(r, self, -ahead(color), ahead(color)),
            r.0 == right_bits(up_bits(self.0, opposite(color)), color),
    {
        let d = self.move_one_down(color);
        let r = d.move_one_right(color);
        proof {
            lemma_shift_compose(self, d, r, -ahead(color), ahead(color));
        }
        r
    }

    /// The board together with its squares moved one rank up, as seen from `color`'s side.
    pub fn smear_one_up(self, color: Color) -> (r: BitBoard)
        ensures
            forall|i: int|
                0 <= i < 64 ==> (#[trigger] r.contains(i) <==> (self.contains(i) || shifted(
                    self,
                    ahead(color),
                    0,
                    i,
                ))),
    {
        let u = self.move_one_up(color);
        u.union(self)
    }
}

/// The square that mirrors square `i` across the middle of the board: same file, rank
/// counted from the other side.
pub open spec fn mirror(i: int) -> int {
    8 * (7 - rank_of(i)) + file_of(i)
}

/// Bits of a byte swap.
proof fn lemma_swap_bits(x: u64, i: u64)
    by (bit_vector)
    requires
        i < 64,
    ensures
        bit(
            (x << 56u64) | ((x & 0xff00u64) << 40u64) | ((x & 0xff_0000u64) << 24u64) | ((x
                & 0xff00_0000u64) << 8u64) | ((x >> 8u64) & 0xff00_0000u64) | ((x >> 24u64)
                & 0xff_0000u64) | ((x >> 40u64) & 0xff00u64) | (x >> 56u64),
            i,
        ) == bit(x, (8 * (7 - i / 8) + i % 8) as u64),
{
}

/// Bits of a word with one bit set, and of clearing the lowest set bit.
proof fn lemma_single_bits(x: u64, t: u64, i: u64)
    by (bit_vector)
    requires
        t < 64,
        i < 64,
    ensures
        bit(1u64 << t, i) == (i == t),
        (x >> i) & 1u64 <= 1u64,
        (x != 0 && bit(x, t) && (x << ((64 - t) as u64)) == 0) ==> bit(x & ((x - 1) as u64), i) == (
        bit(x, i) && i != t),
{
}

impl BitBoard {
    /// Flips the board across its horizontal middle: each square goes to the square of the
    /// same file on the mirrored rank.
    pub fn vertical_flip(self) -> (r: BitBoard)
        ensures
            forall|i: int| 0 <= i < 64 ==> (#[trigger] r.contains(i) <==> self.contains(mirror(i))),
    {
        let x = self.0;
        let r = BitBoard(
            (x << 56u64) | ((x & 0xff00u64) << 40u64) | ((x & 0xff_0000u64) << 24u64) | ((x
                & 0xff00_0000u64) << 8u64) | ((x >> 8u64) & 0xff00_0000u64) | ((x >> 24u64)
                & 0xff_0000u64) | ((x >> 40u64) & 0xff00u64) | (x >> 56u64),
        );
        assert forall|i: int| 0 <= i < 64 implies (#[trigger] r.contains(i) <==> self.contains(mirror(i))) by {
            lemma_swap_bits(x, i as u64);
        }
        r
    }

    /// The number of squares on the board.
    pub fn count_ones(&self) -> (r: u32)
        ensures
            r == self.len(),
            r <= 64,
    {
        let mut count: u32 = 0;
        let mut i: u64 = 0;
        while i < 64
            invariant
                i <= 64,
                count == ones_below(self.0, i as nat),
                count <= i,
            decreases 64 - i,
        {
            proof {
                lemma_single_bits(self.0, 0, i);
            }
            count = count + ((self.0 >> i) & 1) as u32;
            i = i + 1;
        }
        count
    }

    /// Whether the board holds exactly one square.
    pub fn is_a_single_one(&self) -> (r: bool)
        ensures
            r <==> self.len() == 1,
    {
        self.count_ones() == 1
    }

    /// The lowest square of the board, or `None` for the empty board.
    pub fn first_one_as_square(&self) -> (r: Option<Square>)
        ensures
            r is None <==> self.0 == BitBoard::EMPTY,
            r is Some ==> self.contains(r.unwrap()@),
            r is Some ==> forall|j: int| 0 <= j < r.unwrap()@ ==> !#[trigger] self.contains(j),
    {
        let t = self.0.trailing_zeros();
        proof {
            broadcast use vstd::std_specs::bits::axiom_u64_trailing_zeros;

            if self.0 != 0 {
                lemma_nonzero_has_bit(self.0);
                assert forall|j: int| 0 <= j < t implies !#[trigger] self.contains(j) by {
                    assert(!bit(self.0, j as u64));
                }
            }
        }
        if t < 64 {
            Square::from_index(t as u8)
        } else {
            None
        }
    }

    /// Removes the lowest square of the board and returns it; `None`, with the board left
    /// as it was, if the board is empty.
    pub fn pop_first_one(&mut self) -> (r: Option<Square>)
        ensures
            r is None <==> old(self).0 == BitBoard::EMPTY,
            r is None ==> *final(self) == *old(self),
            r is Some ==> old(self).contains(r.unwrap()@),
            r is Some ==> forall|j: int| 0 <= j < r.unwrap()@ ==> !#[trigger] old(self).contains(j),
            r is Some ==> forall|j: int|
                #[trigger] final(self).contains(j) <==> (old(self).contains(j) && j != r.unwrap()@),
    {
        let first = self.first_one_as_square();
        match first {
            Some(square) => {
                let ghost x = self.0;
                proof {
                    broadcast use vstd::std_specs::bits::axiom_u64_trailing_zeros;

                    lemma_nonzero_has_bit(x);
                }
                self.0 = self.0 & (self.0 - 1);
                proof {
                    let t = x.trailing_zeros() as u64;
                    if (t as int) < square@ {
                        assert(BitBoard(x).contains(t as int));
                    }
                    if square@ < t as int {
                        assert(!bit(x, square@ as u64));
                    }
                    assert(t == square@);
                    assert forall|j: int| #[trigger] self.contains(j) <==> (BitBoard(x).contains(j) && j != square@) by {
                        if 0 <= j < 64 {
                            lemma_single_bits(x, t, j as u64);
                        }
                    }
                }
                Some(square)
            },
            None => None,
        }
    }

    /// The squares of the board in increasing order.
    pub fn bits(&self) -> (r: Vec<Square>)
        ensures
            forall|k: int, l: int| 0 <= k < l < r.len() ==> r[k]@ < r[l]@,
            forall|k: int| 0 <= k < r.len() ==> self.contains(#[trigger] r[k]@),
            forall|i: int| #[trigger] self.contains(i) ==> exists|k: int| 0 <= k < r.len() && r[k]@ == i,
    {
        let mut rest = *self;
        let mut out: Vec<Square> = Vec::new();
        proof {
            lemma_ones_below_bound(self.0, 64);
        }
        while !rest.is_empty()
            invariant
                forall|k: int, l: int| 0 <= k < l < out.len() ==> out[k]@ < out[l]@,
                forall|k: int| 0 <= k < out.len() ==> self.contains(#[trigger] out[k]@),
                forall|k: int, j: int| 0 <= k < out.len() && rest.contains(j) ==> out[k]@ < j,
                forall|i: int| #[trigger] self.contains(i) ==> (rest.contains(i) || exists|k: int| 0 <= k < out.len() && out[k]@ == i),
                forall|i: int| #[trigger] rest.contains(i) ==> self.contains(i),
                out.len() + rest.len() <= 64,
            decreases rest.len(),
        {
            let ghost before = rest;
            let ghost before_out = out@;
            let popped = rest.pop_first_one();
            let square = popped.unwrap();
            proof {
                lemma_len_remove(before, rest, square@);
            }
            out.push(square);
            proof {
                assert forall|i: int| #[trigger] self.contains(i) implies (rest.contains(i) || exists|k: int| 0 <= k < out.len() && out[k]@ == i) by {
                    if !rest.contains(i) {
                        if i == square@ {
                            assert(out[out.len() - 1]@ == i);
                        } else {
                            assert(!before.contains(i));
                            let k = choose|k: int| 0 <= k < before_out.len() && before_out[k]@ == i;
                            assert(out[k]@ == i);
                        }
                    }
                }
            }
        }
        out
    }
}

/// Removing one held square lowers the count by one.
proof fn lemma_len_remove(a: BitBoard, b: BitBoard, s: int)
    requires
        a.contains(s),
        forall|j: int| #[trigger] b.contains(j) <==> (a.contains(j) && j != s),
    ensures
        b.len() + 1 == a.len(),
{
    lemma_ones_below_remove(a.0, b.0, s, 64);
}

/// At most `n` of the bits `0..n` are set.
pub proof fn lemma_ones_below_bound(x: u64, n: nat)
    ensures
        ones_below(x, n) <= n,
    decreases n,
{
    if n > 0 {
        lemma_ones_below_bound(x, (n - 1) as nat);
    }
}

proof fn lemma_ones_below_remove(x: u64, y: u64, s: int, n: nat)
    requires
        0 <= s < 64,
        n <= 64,
        bit(x, s as u64),
        forall|j: int| #[trigger] BitBoard(y).contains(j) <==> (BitBoard(x).contains(j) && j != s),
    ensures
        s < n ==> ones_below(y, n) + 1 == ones_below(x, n),
        s >= n ==> ones_below(y, n) == ones_below(x, n),
    decreases n,
{
    if n > 0 {
        lemma_ones_below_remove(x, y, s, (n - 1) as nat);
        assert(BitBoard(y).contains(n - 1) <==> (BitBoard(x).contains(n - 1) && n - 1 != s));
    }
}

/// The subset of `mask` that follows `v` in the carry-rippler enumeration.
pub open spec fn next_subset(v: u64, mask: u64) -> u64 {
    v.wrapping_sub(mask) & mask
}

/// The carry-rippler step: from a subset `v` of `mask` other than `mask` itself, the step
/// gives the least subset of `mask` above `v`; from `mask` itself it wraps to zero.
proof fn lemma_carry_rippler(v: u64, mask: u64, y: u64)
    by (bit_vector)
    requires
        v & mask == v,
    ensures
        next_subset(v, mask) & mask == next_subset(v, mask),
        v != mask ==> next_subset(v, mask) > v,
        (v != mask && y & mask == y && y > v) ==> y >= next_subset(v, mask),
        v == mask ==> next_subset(v, mask) == 0,
        v <= mask,
{
}

/// The board of one square.
pub fn square_board(square: Square) -> (r: BitBoard)
    ensures
        forall|i: int| #[trigger] r.contains(i) <==> i == square@,
        r.0 == 1u64 << (square@ as u64),
{
    let k = square.index() as u64;
    let r = BitBoard(1u64 << k);
    assert forall|i: int| #[trigger] r.contains(i) <==> i == square@ by {
        if 0 <= i < 64 {
            lemma_single_bits(0, k, i as u64);
        }
    }
    r
}

impl Square {
    /// The board holding only this square.
    pub fn as_bitboard(self) -> (r: BitBoard)
        ensures
            forall|i: int| #[trigger] r.contains(i) <==> i == self@,
            r.0 == 1u64 << (self@ as u64),
    {
        square_board(self)
    }
}

impl From<Square> for BitBoard {
    fn from(square: Square) -> BitBoard {
        BitBoard(1u64 << square.index() as u64)
    }
}

impl vstd::std_specs::convert::FromSpecImpl<Square> for BitBoard {
    open spec fn obeys_from_spec() -> bool {
        true
    }

    open spec fn from_spec(square: Square) -> BitBoard {
        BitBoard(1u64 << (square@ as u64))
    }
}

/// The walk over all subsets of a board, from the empty board upwards in the order of their
/// numeric values; `upcoming` is the subset the next call of `next` returns.
#[derive(Clone, Copy, Debug)]
pub struct Subsets {
    pub mask: BitBoard,
    pub upcoming: Option<BitBoard>,
}

impl Subsets {
    /// Returns the upcoming subset and steps to the following one; `None` once every subset
    /// has been returned.
    pub fn next(&mut self) -> (r: Option<BitBoard>)
        ensures
            r == old(self).upcoming,
            final(self).mask == old(self).mask,
            final(self).upcoming == match old(self).upcoming {
                None => None,
                Some(v) => if next_subset(v.0, old(self).mask.0) == 0 {
                    None
                } else {
                    Some(BitBoard(next_subset(v.0, old(self).mask.0)))
                },
            },
    {
        match self.upcoming {
            None => None,
            Some(v) => {
                let n = v.0.wrapping_sub(self.mask.0) & self.mask.0;
                self.upcoming = if n == 0 {
                    None
                } else {
                    Some(BitBoard(n))
                };
                Some(v)
            },
        }
    }
}

/// Whether `v` is a subset of `mask` under the mask law `v & mask == v`.
pub open spec fn is_subset_word(v: u64, mask: u64) -> bool {
    v & mask == v
}

/// The subset walk, seen as a sequence: each subset of `mask` comes exactly once, in
/// increasing order, the empty board first and `mask` last. From a subset `v` other than
/// `mask` the walk goes on to a subset of `mask` that is larger than `v`, with no subset of
/// `mask` in between; after `mask` it ends. Starting from the empty board, this passes every
/// subset once and only subsets.
pub proof fn lemma_subsets_walk(mask: BitBoard, v: BitBoard, y: BitBoard)
    requires
        is_subset_word(v.0, mask.0),
    ensures
        is_subset_word(next_subset(v.0, mask.0), mask.0),
        v != mask ==> next_subset(v.0, mask.0) > v.0 && next_subset(v.0, mask.0) != 0,
        v != mask && is_subset_word(y.0, mask.0) && y.0 > v.0 ==> y.0 >= next_subset(v.0, mask.0),
        v == mask ==> next_subset(v.0, mask.0) == 0,
        is_subset_word(0, mask.0),
        is_subset_word(mask.0, mask.0),
{
    lemma_carry_rippler(v.0, mask.0, y.0);
    let m = mask.0;
    assert(0u64 & m == 0u64 && m & m == m) by (bit_vector);
}

impl BitBoard {
    /// Walks all subsets of the board, starting with the empty board.
    pub fn subsets(&self) -> (r: Subsets)
        ensures
            r.mask == *self,
            r.upcoming == Some(BitBoard(0)),
    {
        Subsets { mask: *self, upcoming: Some(BitBoard(BitBoard::EMPTY)) }
    }

    /// Whether the board holds `square`.
    pub fn get_bit(&self, square: Square) -> (r: bool)
        ensures
            r == self.contains(square@),
    {
        let one = square.as_bitboard();
        let both = self.intersection(one);
        let e = both.is_empty();
        proof {
            if !e {
                assert(both.contains(square@) || exists|i: int| 0 <= i < 64 && both.contains(i));
            } else {
                assert(!both.contains(square@));
            }
        }
        !e
    }

    /// Adds `square` to the board if it is not there, and removes it if it is.
    pub fn toggle_bit(&mut self, square: Square)
        ensures
            forall|i: int| #[trigger] final(self).contains(i) <==> (old(self).contains(i) != (i == square@)),
    {
        let one = square.as_bitboard();
        *self = self.symmetric_difference(one);
    }

    /// The squares between White's or Black's king and its king-side rook.
    pub fn king_side_castle_mask(color: Color) -> (r: BitBoard)
        ensures
            r.0 == match color {
                Color::White => BitBoard::WHITE_KING_SIDE_CASTLE_MASK,
                Color::Black => BitBoard::BLACK_KING_SIDE_CASTLE_MASK,
            },
    {
        match color {
            Color::White => BitBoard(BitBoard::WHITE_KING_SIDE_CASTLE_MASK),
            Color::Black => BitBoard(BitBoard::BLACK_KING_SIDE_CASTLE_MASK),
        }
    }

    /// The squares between White's or Black's king and its queen-side rook.
    pub fn queen_side_castle_occupation_mask(color: Color) -> (r: BitBoard)
        ensures
            r.0 == match color {
                Color::White => BitBoard::WHITE_QUEEN_SIDE_CASTLE_OCCUPATION_MASK,
                Color::Black => BitBoard::BLACK_QUEEN_SIDE_CASTLE_OCCUPATION_MASK,
            },
    {
        match color {
            Color::White => BitBoard(BitBoard::WHITE_QUEEN_SIDE_CASTLE_OCCUPATION_MASK),
            Color::Black => BitBoard(BitBoard::BLACK_QUEEN_SIDE_CASTLE_OCCUPATION_MASK),
        }
    }

    /// The squares White's or Black's king crosses when castling queen-side.
    pub fn queen_side_castle_attack_mask(color: Color) -> (r: BitBoard)
        ensures
            r.0 == match color {
                Color::White => BitBoard::WHITE_QUEEN_SIDE_CASTLE_ATTACK_MASK,
                Color::Black => BitBoard::BLACK_QUEEN_SIDE_CASTLE_ATTACK_MASK,
            },
    {
        match color {
            Color::White => BitBoard(BitBoard::WHITE_QUEEN_SIDE_CASTLE_ATTACK_MASK),
            Color::Black => BitBoard(BitBoard::BLACK_QUEEN_SIDE_CASTLE_ATTACK_MASK),
        }
    }
}

/// Mirroring twice gives back every square.
pub proof fn lemma_mirror_mirror(i: int)
    requires
        0 <= i < 64,
    ensures
        0 <= mirror(i) < 64,
        mirror(mirror(i)) == i,
{
}

/// Flipping a board twice gives back the board.
pub proof fn lemma_vertical_flip_twice(b: BitBoard, f: BitBoard, g: BitBoard)
    requires
        forall|i: int| 0 <= i < 64 ==> (#[trigger] f.contains(i) <==> b.contains(mirror(i))),
        forall|i: int| 0 <= i < 64 ==> (#[trigger] g.contains(i) <==> f.contains(mirror(i))),
    ensures
        g == b,
{
    assert forall|i: int| 0 <= i < 64 implies g.contains(i) == b.contains(i) by {
        lemma_mirror_mirror(i);
        assert(f.contains(mirror(i)) <==> b.contains(mirror(mirror(i))));
    }
    BitBoard::lemma_ext(g, b);
}

/// Moving a board one rank up and then one rank down, as seen from one side, gives back the
/// squares that were not on that side's last rank, and loses those that were.
pub proof fn lemma_up_then_down(b: BitBoard, color: Color, u: BitBoard, d: BitBoard)
    requires
        is_shift(u, b, ahead(color), 0),
        is_shift(d, u, -ahead(color), 0),
    ensures
        forall|i: int|
            #[trigger] d.contains(i) <==> (b.contains(i) && 0 <= rank_of(i) + ahead(color) < 8),
{
    let a = ahead(color);
    assert forall|i: int| #[trigger] d.contains(i) <==> (b.contains(i) && 0 <= rank_of(i) + a < 8) by {
        if 0 <= i < 64 {
            if d.contains(i) {
                assert(shifted(u, -a, 0, i));
                assert(u.contains(i + 8 * a));
                assert(shifted(b, a, 0, i + 8 * a));
                lemma_coords(i + 8 * a, -a, 0);
            }
            if b.contains(i) && 0 <= rank_of(i) + a < 8 {
                lemma_coords(i, a, 0);
                assert(shifted(b, a, 0, i + 8 * a));
                assert(u.contains(i + 8 * a));
                lemma_coords(i + 8 * a, -a, 0);
                assert(shifted(u, -a, 0, i));
            }
        }
    }
}

/// A board of the one square `s`, moved one rank up and then one rank down as seen from one
/// side, comes back unchanged, unless `s` is on that side's last rank: then it comes back
/// empty.
pub proof fn lemma_single_up_then_down(s: int, b: BitBoard, color: Color, u: BitBoard, d: BitBoard)
    requires
        0 <= s < 64,
        forall|i: int| #[trigger] b.contains(i) <==> i == s,
        is_shift(u, b, ahead(color), 0),
        is_shift(d, u, -ahead(color), 0),
    ensures
        0 <= rank_of(s) + ahead(color) < 8 ==> d == b,
        !(0 <= rank_of(s) + ahead(color) < 8) ==> d.0 == 0,
{
    lemma_up_then_down(b, color, u, d);
    if 0 <= rank_of(s) + ahead(color) < 8 {
        assert forall|i: int| 0 <= i < 64 implies d.contains(i) == b.contains(i) by {}
        BitBoard::lemma_ext(d, b);
    } else {
        assert forall|i: int| 0 <= i < 64 implies d.contains(i) == BitBoard(0).contains(i) by {
            lemma_bit_ops(0, 0, i as u64);
        }
        BitBoard::lemma_ext(d, BitBoard(0));
    }
}

/// The subsets of `mask` under the mask law `v & mask == v`.
pub open spec fn subsets_of(mask: u64) -> Set<u64> {
    Set::new(|v: u64| v & mask == v)
}

/// Splitting the subsets of `m` on a set bit `t`: those without bit `t` are the subsets of
/// `m` without `t`, and those with it are these with bit `t` added.
proof fn lemma_subset_split(m: u64, t: u64, v: u64, w: u64)
    by (bit_vector)
    requires
        t < 64,
        (m >> t) & 1u64 == 1u64,
    ensures
        (v & m == v) == ((v & (m ^ (1u64 << t)) == v) || (v & (1u64 << t) != 0 && (v ^ (1u64 << t))
            & (m ^ (1u64 << t)) == (v ^ (1u64 << t)))),
        (w & (m ^ (1u64 << t)) == w) ==> (w & (1u64 << t) == 0 && (w | (1u64 << t)) & m == (w | (1u64
            << t)) && (w | (1u64 << t)) & (1u64 << t) != 0 && (w | (1u64 << t)) ^ (1u64 << t) == w),
        v & (1u64 << t) != 0 ==> (v ^ (1u64 << t)) | (1u64 << t) == v,
        (v & (1u64 << t) == 0 && w & (1u64 << t) == 0 && (v | (1u64 << t)) == (w | (1u64 << t)))
            ==> v == w,
{
}

/// A board of `n` squares has `2^n` subsets: the walk of `subsets` yields that many values.
pub proof fn lemma_subsets_count(mask: u64)
    ensures
        subsets_of(mask).finite(),
        subsets_of(mask).len() == vstd::arithmetic::power2::pow2(popcount(mask)),
    decreases popcount(mask),
{
    let s = subsets_of(mask);
    if mask == 0 {
        assert forall|v: u64| s.contains(v) <==> v == 0u64 by {
            assert((v & 0u64 == v) == (v == 0u64)) by (bit_vector);
        }
        assert(s =~= set![0u64]);
        assert(popcount(0) == 0) by {
            lemma_popcount_zero();
        }
        vstd::arithmetic::power2::lemma_pow2(0);
        vstd::arithmetic::power::lemma_pow0(2);
    } else {
        lemma_nonzero_has_bit(mask);
        let t = mask.trailing_zeros() as u64;
        let b = 1u64 << t;
        let m2 = mask ^ b;
        assert forall|j: int| #[trigger] BitBoard(m2).contains(j) <==> (BitBoard(mask).contains(j) && j != t) by {
            if 0 <= j < 64 {
                lemma_bit_ops(mask, b, j as u64);
                lemma_single_bits(0, t, j as u64);
            }
        }
        lemma_len_remove(BitBoard(mask), BitBoard(m2), t as int);
        lemma_subsets_count(m2);
        let a = subsets_of(m2);
        let f = |w: u64| w | b;
        let bs = a.map(f);
        assert forall|v: u64, w: u64| a.contains(v) && a.contains(w) && #[trigger] f(v) == #[trigger] f(w) implies v == w by {
            lemma_subset_split(mask, t, v, w);
            lemma_subset_split(mask, t, w, v);
        }
        vstd::set_lib::lemma_map_size(a, bs, f);
        assert forall|v: u64| s.contains(v) <==> (a.contains(v) || bs.contains(v)) by {
            lemma_subset_split(mask, t, v, v ^ b);
            if bs.contains(v) {
                let w = choose|w: u64| a.contains(w) && f(w) == v;
                lemma_subset_split(mask, t, v, w);
            }
            if s.contains(v) && !a.contains(v) {
                lemma_subset_split(mask, t, v ^ b, v ^ b);
                assert(a.contains(v ^ b));
                assert(f(v ^ b) == v);
            }
        }
        assert(s =~= a + bs);
        assert forall|v: u64| !(a.contains(v) && bs.contains(v)) by {
            if bs.contains(v) {
                let w = choose|w: u64| a.contains(w) && f(w) == v;
                lemma_subset_split(mask, t, v, w);
                lemma_subset_split(mask, t, w, v);
            }
        }
        assert(a.disjoint(bs));
        vstd::set_lib::lemma_set_disjoint_lens(a, bs);
        vstd::arithmetic::power2::lemma_pow2_unfold(popcount(mask));
    }
}

/// The empty word has no set bit.
proof fn lemma_popcount_zero()
    ensures
        popcount(0) == 0,
{
    lemma_ones_below_zero(64);
}

proof fn lemma_ones_below_zero(n: nat)
    requires
        n <= 64,
    ensures
        ones_below(0, n) == 0,
    decreases n,
{
    if n > 0 {
        lemma_ones_below_zero((n - 1) as nat);
        lemma_bit_ops(0, 0, (n - 1) as u64);
    }
}

/// The first `n` values the subset walk of `mask` yields: the empty board, then each step of
/// the carry-rippler from the value before.
pub open spec fn walk(mask: u64, n: nat) -> Seq<u64>
    decreases n,
{
    if n == 0 {
        seq![]
    } else if n == 1 {
        seq![0u64]
    } else {
        let w = walk(mask, (n - 1) as nat);
        w.push(next_subset(w.last(), mask))
    }
}

proof fn lemma_walk_prefix(mask: u64, n: nat)
    requires
        1 <= n <= vstd::arithmetic::power2::pow2(popcount(mask)),
    ensures
        walk(mask, n).len() == n,
        walk(mask, n)[0] == 0,
        forall|j: int| 0 <= j < n ==> is_subset_word(#[trigger] walk(mask, n)[j], mask),
        forall|j: int, k: int| 0 <= j < k < n ==> walk(mask, n)[j] < walk(mask, n)[k],
        forall|y: u64| is_subset_word(y, mask) && y <= walk(mask, n).last() ==> #[trigger] walk(
            mask,
            n,
        ).contains(y),
    decreases n,
{
    let w = walk(mask, n);
    if n == 1 {
        assert forall|y: u64| is_subset_word(y, mask) && y <= w.last() implies #[trigger] w.contains(y) by {
            assert(w[0] == y);
        }
        let m = mask;
        assert(0u64 & m == 0u64) by (bit_vector);
    } else {
        let n1 = (n - 1) as nat;
        lemma_walk_prefix(mask, n1);
        let v = walk(mask, n1);
        let last = v.last();
        lemma_subsets_count(mask);
        if last == mask {
            // Then every subset is among the first values, which are distinct: too many of them.
            assert(v.to_set().subset_of(subsets_of(mask)));
            assert(subsets_of(mask).subset_of(v.to_set())) by {
                assert forall|y: u64| subsets_of(mask).contains(y) implies v.to_set().contains(y) by {
                    lemma_carry_rippler(y, mask, y);
                    assert(v.contains(y));
                }
            }
            assert(v.no_duplicates());
            v.unique_seq_to_set();
            assert(v.to_set() =~= subsets_of(mask));
            assert(false);
        }
        lemma_carry_rippler(last, mask, last);
        let nx = next_subset(last, mask);
        assert(w == v.push(nx));
        assert forall|y: u64| is_subset_word(y, mask) && y <= w.last() implies #[trigger] w.contains(y) by {
            if y <= last {
                assert(v.contains(y));
                let j = choose|j: int| 0 <= j < v.len() && v[j] == y;
                assert(w[j] == y);
            } else {
                lemma_carry_rippler(last, mask, y);
                assert(w[n - 1] == y);
            }
        }
    }
}

/// The subset walk of a board of `p` squares yields exactly `2^p` values before it ends: each
/// is a subset under the mask law, all are distinct (they increase), the first is the empty
/// board, the last is the board itself, and the step after the last ends the walk.
pub proof fn lemma_subsets_walk_yields_all(mask: u64)
    ensures
        ({
            let n = vstd::arithmetic::power2::pow2(popcount(mask));
            let w = walk(mask, n);
            &&& w.len() == n
            &&& w[0] == 0
            &&& w.last() == mask
            &&& next_subset(w.last(), mask) == 0
            &&& forall|j: int| 0 <= j < n ==> is_subset_word(#[trigger] w[j], mask)
            &&& forall|j: int, k: int| 0 <= j < k < n ==> w[j] != w[k]
            &&& forall|j: int| 0 <= j < n - 1 ==> #[trigger] next_subset(w[j], mask) == w[j + 1]
        }),
{
    let n = vstd::arithmetic::power2::pow2(popcount(mask));
    lemma_subsets_count(mask);
    vstd::arithmetic::power2::lemma_pow2_pos(popcount(mask));
    lemma_walk_prefix(mask, n);
    let w = walk(mask, n);
    assert(w.to_set().subset_of(subsets_of(mask)));
    assert(w.no_duplicates());
    w.unique_seq_to_set();
    vstd::set_lib::lemma_subset_equality(w.to_set(), subsets_of(mask));
    let m = mask;
    assert(m & m == m) by (bit_vector);
    assert(w.to_set().contains(mask));
    let j = choose|j: int| 0 <= j < w.len() && w[j] == mask;
    lemma_carry_rippler(w.last(), mask, w.last());
    if j < n - 1 {
        assert(w[j] < w[n - 1]);
    }
    lemma_carry_rippler(mask, mask, mask);
    assert forall|j: int| 0 <= j < n - 1 implies #[trigger] next_subset(w[j], mask) == w[j + 1] by {
        lemma_walk_steps(mask, n, j);
    }
}

proof fn lemma_walk_steps(mask: u64, n: nat, j: int)
    requires
        0 <= j < n - 1,
    ensures
        walk(mask, n)[j + 1] == next_subset(walk(mask, n)[j], mask),
    decreases n,
{
    if n >= 2 {
        lemma_walk_len(mask, (n - 1) as nat);
        if j < n - 2 {
            lemma_walk_steps(mask, (n - 1) as nat, j);
        }
    }
}

proof fn lemma_walk_len(mask: u64, n: nat)
    ensures
        walk(mask, n).len() == n,
    decreases n,
{
    if n > 1 {
        lemma_walk_len(mask, (n - 1) as nat);
    }
}

} // verus!
