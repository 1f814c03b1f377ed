use mangrove::attacks::{knight_attacks, ray, separated_bishop_slides, separated_rook_slides};
use mangrove::bitboard::BitBoard;
use mangrove::square::Square;

fn sq(name: &str) -> Square {
    let chars: Vec<char> = name.chars().collect();
    Square::from_chars(chars[0], chars[1]).unwrap()
}

fn board(names: &[&str]) -> BitBoard {
    let mut b = BitBoard(0);
    for name in names {
        b.toggle_bit(sq(name));
    }
    b
}

#[test]
fn knight_jumps_stay_on_board() {
    assert_eq!(knight_attacks(sq("a1")), board(&["b3", "c2"]));
    assert_eq!(
        knight_attacks(sq("e4")),
        board(&["d6", "f6", "c5", "g5", "c3", "g3", "d2", "f2"])
    );
    assert_eq!(knight_attacks(sq("h8")), board(&["g6", "f7"]));
}

#[test]
fn rays_stop_at_first_blocker() {
    assert_eq!(ray(sq("e1"), 1, 0, board(&["e4", "e6"])), board(&["e2", "e3", "e4"]));
    assert_eq!(ray(sq("a1"), 1, 1, BitBoard(0)).count_ones(), 7);
    assert_eq!(ray(sq("h1"), 0, 1, BitBoard(0)), BitBoard(0));
    let (up, right, down, left) = separated_rook_slides(sq("d4"), board(&["d6", "b4"]));
    assert_eq!(up, board(&["d5", "d6"]));
    assert_eq!(right, board(&["e4", "f4", "g4", "h4"]));
    assert_eq!(down, board(&["d3", "d2", "d1"]));
    assert_eq!(left, board(&["c4", "b4"]));
    let (up_left, up_right, down_right, down_left) = separated_bishop_slides(sq("a1"), BitBoard(0));
    assert_eq!(up_left, BitBoard(0));
    assert_eq!(up_right.count_ones(), 7);
    assert_eq!(down_right, BitBoard(0));
    assert_eq!(down_left, BitBoard(0));
}
