use mangrove::bitboard::{BitBoard, Subsets};
use mangrove::color::Color;
use mangrove::square::Square;

fn sq(name: &str) -> Square {
    let chars: Vec<char> = name.chars().collect();
    Square::from_chars(chars[0], chars[1]).unwrap()
}

fn all_subsets(b: BitBoard) -> Vec<BitBoard> {
    let mut walk: Subsets = b.subsets();
    let mut out = Vec::new();
    while let Some(s) = walk.next() {
        out.push(s);
    }
    out
}

#[test]
fn subsets_of_three_squares() {
    let b = BitBoard(0b1011_0000);
    let subsets = all_subsets(b);
    assert_eq!(subsets.len(), 1 << b.count_ones());
    assert_eq!(subsets.len(), 8);
    for (i, s) in subsets.iter().enumerate() {
        assert_eq!(s.0 & b.0, s.0);
        for t in subsets.iter().skip(i + 1) {
            assert_ne!(s.0, t.0);
        }
    }
    assert_eq!(subsets.iter().filter(|s| s.0 == 0).count(), 1);
    assert_eq!(subsets.iter().filter(|s| s.0 == b.0).count(), 1);
    assert_eq!(subsets[0], BitBoard(0));
    assert_eq!(subsets[7], b);
}

#[test]
fn subsets_of_empty_board() {
    let subsets = all_subsets(BitBoard(0));
    assert_eq!(subsets, vec![BitBoard(0)]);
}

#[test]
fn subsets_of_spread_squares() {
    let b = BitBoard(0x8000_0000_0001_0201);
    let subsets = all_subsets(b);
    assert_eq!(subsets.len(), 16);
    for w in subsets.windows(2) {
        assert!(w[0].0 < w[1].0);
    }
}

#[test]
fn vertical_flip_twice_is_identity() {
    for x in [0u64, 1, 0xff, 0x0123_4567_89ab_cdef, u64::MAX, 0x8000_0000_0000_0001] {
        let b = BitBoard(x);
        assert_eq!(b.vertical_flip().vertical_flip(), b);
    }
}

#[test]
fn vertical_flip_mirrors_ranks() {
    assert_eq!(BitBoard(0xff).vertical_flip(), BitBoard(0xff00_0000_0000_0000));
    assert_eq!(sq("e2").as_bitboard().vertical_flip(), sq("e7").as_bitboard());
    assert_eq!(
        BitBoard(BitBoard::WHITE_KING_SIDE_CASTLE_MASK).vertical_flip(),
        BitBoard(BitBoard::BLACK_KING_SIDE_CASTLE_MASK)
    );
    assert_eq!(
        BitBoard(BitBoard::WHITE_QUEEN_SIDE_CASTLE_ATTACK_MASK).vertical_flip(),
        BitBoard(BitBoard::BLACK_QUEEN_SIDE_CASTLE_ATTACK_MASK)
    );
    assert_eq!(
        BitBoard(BitBoard::WHITE_QUEEN_SIDE_CASTLE_OCCUPATION_MASK).vertical_flip(),
        BitBoard(BitBoard::BLACK_QUEEN_SIDE_CASTLE_OCCUPATION_MASK)
    );
}

#[test]
fn up_then_down_returns_inner_squares() {
    for color in [Color::White, Color::Black] {
        for i in 0u8..64 {
            let s = Square::from_index(i).unwrap();
            let b = s.as_bitboard();
            let back = b.move_one_up(color).move_one_down(color);
            let last_rank = match color {
                Color::White => 7,
                Color::Black => 0,
            };
            if s.rank() == last_rank {
                assert_eq!(back, BitBoard(0));
            } else {
                assert_eq!(back, b);
            }
        }
    }
}

#[test]
fn up_then_down_on_edges() {
    assert_eq!(sq("a8").as_bitboard().move_one_up(Color::White), BitBoard(0));
    assert_eq!(sq("h1").as_bitboard().move_one_up(Color::Black), BitBoard(0));
    assert_eq!(
        sq("a1").as_bitboard().move_one_up(Color::White).move_one_down(Color::White),
        sq("a1").as_bitboard()
    );
    assert_eq!(
        sq("h8").as_bitboard().move_one_up(Color::Black).move_one_down(Color::Black),
        sq("h8").as_bitboard()
    );
    assert_eq!(
        sq("h4").as_bitboard().move_one_up(Color::White).move_one_down(Color::White),
        sq("h4").as_bitboard()
    );
}

#[test]
fn moves_do_not_wrap() {
    assert_eq!(sq("h4").as_bitboard().move_one_right(Color::White), BitBoard(0));
    assert_eq!(sq("a4").as_bitboard().move_one_right(Color::Black), BitBoard(0));
    assert_eq!(sq("a4").as_bitboard().move_one_left(Color::White), BitBoard(0));
    assert_eq!(sq("e4").as_bitboard().move_one_right(Color::White), sq("f4").as_bitboard());
    assert_eq!(sq("e4").as_bitboard().move_one_right(Color::Black), sq("d4").as_bitboard());
    assert_eq!(sq("e2").as_bitboard().move_two_up(Color::White), sq("e4").as_bitboard());
    assert_eq!(sq("e7").as_bitboard().move_two_up(Color::Black), sq("e5").as_bitboard());
    assert_eq!(sq("e7").as_bitboard().move_two_up(Color::White), BitBoard(0));
    assert_eq!(sq("e4").as_bitboard().move_one_up_right(Color::White), sq("f5").as_bitboard());
    assert_eq!(sq("e4").as_bitboard().move_one_up_left(Color::White), sq("d5").as_bitboard());
    assert_eq!(sq("e4").as_bitboard().move_one_down_left(Color::White), sq("d3").as_bitboard());
    assert_eq!(sq("e4").as_bitboard().move_one_down_right(Color::White), sq("f3").as_bitboard());
    assert_eq!(sq("e4").as_bitboard().move_one_up_right(Color::Black), sq("d3").as_bitboard());
    assert_eq!(sq("a4").as_bitboard().move_one_up_left(Color::White), BitBoard(0));
}

#[test]
fn smear_keeps_and_copies() {
    let b = sq("c3").as_bitboard();
    assert_eq!(b.smear_one_up(Color::White), BitBoard(b.0 | sq("c4").as_bitboard().0));
    assert_eq!(b.smear_one_up(Color::Black), BitBoard(b.0 | sq("c2").as_bitboard().0));
}

#[test]
fn counting_and_predicates() {
    assert_eq!(BitBoard(u64::MAX).count_ones(), 64);
    assert_eq!(BitBoard(0).count_ones(), 0);
    assert_eq!(BitBoard(0b1010).count_ones(), 2);
    assert!(BitBoard(1 << 40).is_a_single_one());
    assert!(!BitBoard(0).is_a_single_one());
    assert!(!BitBoard(3).is_a_single_one());
    assert!(BitBoard(u64::MAX).is_full());
    assert!(!BitBoard(u64::MAX - 1).is_full());
    assert!(BitBoard(0).is_empty());
    assert!(!BitBoard(8).is_empty());
    assert!(BitBoard(0b0101).is_subset_of(BitBoard(0b1101)));
    assert!(!BitBoard(0b0111).is_subset_of(BitBoard(0b1101)));
}

#[test]
fn first_one_and_pop() {
    let mut b = BitBoard(0b1010_0000);
    assert_eq!(b.first_one_as_square(), Some(Square::from_index(5).unwrap()));
    assert_eq!(b.pop_first_one(), Some(Square::from_index(5).unwrap()));
    assert_eq!(b, BitBoard(0b1000_0000));
    assert_eq!(b.pop_first_one(), Some(Square::from_index(7).unwrap()));
    assert_eq!(b.pop_first_one(), None);
    assert_eq!(b, BitBoard(0));
    assert_eq!(BitBoard(0).first_one_as_square(), None);
}

#[test]
fn bits_in_increasing_order() {
    let b = BitBoard((1 << 63) | (1 << 9) | 1);
    let squares: Vec<u8> = b.bits().iter().map(|s| s.index()).collect();
    assert_eq!(squares, vec![0, 9, 63]);
    assert!(BitBoard(0).bits().is_empty());
    assert_eq!(BitBoard(u64::MAX).bits().len(), 64);
}

#[test]
fn get_and_toggle_bits() {
    let mut b = BitBoard(0);
    assert!(!b.get_bit(sq("h1")));
    b.toggle_bit(sq("e4"));
    assert!(b.get_bit(sq("e4")));
    assert_eq!(b, BitBoard(1 << 28));
    b.toggle_bit(sq("e4"));
    assert_eq!(b, BitBoard(0));
    assert_eq!(BitBoard::from(sq("a1")), BitBoard(1));
}

#[test]
fn castle_masks_by_color() {
    assert_eq!(BitBoard::king_side_castle_mask(Color::White), BitBoard(0x60));
    assert_eq!(BitBoard::king_side_castle_mask(Color::Black), BitBoard(0x6000_0000_0000_0000));
    assert_eq!(BitBoard::queen_side_castle_occupation_mask(Color::White), BitBoard(0x0e));
    assert_eq!(BitBoard::queen_side_castle_attack_mask(Color::White), BitBoard(0x0c));
    assert_eq!(
        BitBoard::queen_side_castle_attack_mask(Color::Black),
        BitBoard(0x0c00_0000_0000_0000)
    );
}

#[test]
fn bitwise_operators() {
    let a = BitBoard(0b1100);
    let b = BitBoard(0b1010);
    assert_eq!(a & b, BitBoard(0b1000));
    assert_eq!(a | b, BitBoard(0b1110));
    assert_eq!(a ^ b, BitBoard(0b0110));
    assert_eq!(!BitBoard(0), BitBoard(u64::MAX));
    let mut c = a;
    c |= b;
    assert_eq!(c, BitBoard(0b1110));
    c ^= b;
    assert_eq!(c, BitBoard(0b0100));
}
