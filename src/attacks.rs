use vstd::prelude::*;

use crate::bitboard::{bit, BitBoard};
use crate::square::{file_of, rank_of, Square};

verus! {

/// Whether square `s` moved by `dr` ranks and `df` files stays on the board.
pub open spec fn can_step(s: int, dr: int, df: int) -> bool {
    0 <= rank_of(s) + dr < 8 && 0 <= file_of(s) + df < 8
}

/// The ray from square `s`, not included, in the direction of `dr` ranks and `df` files per
/// step: each square in turn up to the edge of the board, or up to and including the first
/// square that `blockers` holds; at most `fuel` steps.
pub open spec fn ray_bits(s: int, dr: int, df: int, blockers: u64, fuel: nat) -> u64
    decreases fuel,
{
    if fuel == 0 || !can_step(s, dr, df) {
        0
    } else {
        let t = s + 8 * dr + df;
        let here = 1u64 << (t as u64);
        if bit(blockers, t as u64) {
            here
        } else {
            here | ray_bits(t, dr, df, blockers, (fuel - 1) as nat)
        }
    }
}

/// The bit of the square a jump of `dr` ranks and `df` files from `s` reaches, or 0 if the
/// jump leaves the board.
pub open spec fn jump_bit(s: int, dr: int, df: int) -> u64 {
    if can_step(s, dr, df) {
        1u64 << ((s + 8 * dr + df) as u64)
    } else {
        0
    }
}

/// The squares a knight on `s` attacks.
pub open spec fn knight_bits(s: int) -> u64 {
    jump_bit(s, 2, 1) | jump_bit(s, 2, -1) | jump_bit(s, -2, 1) | jump_bit(s, -2, -1) | jump_bit(
        s,
        1,
        2,
    ) | jump_bit(s, 1, -2) | jump_bit(s, -1, 2) | jump_bit(s, -1, -2)
}

proof fn lemma_or(a: u64, b: u64, c: u64)
    by (bit_vector)
    ensures
        a | 0 == a,
        a | (b | c) == (a | b) | c,
{
}

/// The ray from `square` in the direction of `dr` ranks and `df` files per step, up to the
/// edge or up to and including the first square of `blockers`.
pub fn ray(square: Square, dr: i8, df: i8, blockers: BitBoard) -> (r: BitBoard)
    requires
        -1 <= dr <= 1,
        -1 <= df <= 1,
    ensures
        r.0 == ray_bits(square@, dr as int, df as int, blockers.0, 7),
{
    let ghost total = ray_bits(square@, dr as int, df as int, blockers.0, 7);
    let mut acc: u64 = 0;
    let mut rank: i8 = square.rank() as i8;
    let mut file: i8 = square.file() as i8;
    let mut fuel: u8 = 7;
    let mut done = false;
    proof {
        lemma_or(0, 0, total);
        assert(0u64 | total == total) by (bit_vector);
    }
    while !done && fuel > 0
        invariant
            -1 <= dr <= 1,
            -1 <= df <= 1,
            0 <= rank < 8,
            0 <= file < 8,
            fuel <= 7,
            total == ray_bits(square@, dr as int, df as int, blockers.0, 7),
            done ==> acc == total,
            !done ==> (acc | ray_bits(8 * rank + file, dr as int, df as int, blockers.0, fuel as nat))
                == total,
        decreases fuel + if done {
            0int
        } else {
            1int
        },
    {
        let ghost cur = 8 * rank + file;
        let next_rank = rank + dr;
        let next_file = file + df;
        assert(rank_of(cur) == rank && file_of(cur) == file);
        if next_rank < 0 || next_rank >= 8 || next_file < 0 || next_file >= 8 {
            proof {
                lemma_or(acc, 0, 0);
            }
            done = true;
        } else {
            let t = (8 * next_rank + next_file) as u64;
            let here = 1u64 << t;
            let ghost tail = ray_bits(t as int, dr as int, df as int, blockers.0, (fuel - 1) as nat);
            assert(cur + 8 * dr + df == t);
            proof {
                lemma_or(acc, here, tail);
            }
            acc = acc | here;
            if (blockers.0 >> t) & 1 == 1 {
                done = true;
            } else {
                rank = next_rank;
                file = next_file;
                fuel = fuel - 1;
            }
        }
    }
    proof {
        if !done {
            lemma_or(acc, 0, 0);
        }
    }
    BitBoard(acc)
}

/// The four orthogonal rays from `square`: up, right, down and left, as seen from White's
/// side, each up to the edge or up to and including the first square of `blockers`.
pub fn separated_rook_slides(square: Square, blockers: BitBoard) -> (r: (
    BitBoard,
    BitBoard,
    BitBoard,
    BitBoard,
))
    ensures
        r.0.0 == ray_bits(square@, 1, 0, blockers.0, 7),
        r.1.0 == ray_bits(square@, 0, 1, blockers.0, 7),
        r.2.0 == ray_bits(square@, -1, 0, blockers.0, 7),
        r.3.0 == ray_bits(square@, 0, -1, blockers.0, 7),
{
    (ray(square, 1, 0, blockers), ray(square, 0, 1, blockers), ray(square, -1, 0, blockers), ray(square, 0, -1, blockers))
}

/// The four diagonal rays from `square`: up-left, up-right, down-right and down-left, as
/// seen from White's side.
pub fn separated_bishop_slides(square: Square, blockers: BitBoard) -> (r: (
    BitBoard,
    BitBoard,
    BitBoard,
    BitBoard,
))
    ensures
        r.0.0 == ray_bits(square@, 1, -1, blockers.0, 7),
        r.1.0 == ray_bits(square@, 1, 1, blockers.0, 7),
        r.2.0 == ray_bits(square@, -1, 1, blockers.0, 7),
        r.3.0 == ray_bits(square@, -1, -1, blockers.0, 7),
{
    (ray(square, 1, -1, blockers), ray(square, 1, 1, blockers), ray(square, -1, 1, blockers), ray(square, -1, -1, blockers))
}

fn jump(rank: u8, file: u8, dr: i8, df: i8) -> (r: u64)
    requires
        rank < 8,
        file < 8,
        -2 <= dr <= 2,
        -2 <= df <= 2,
    ensures
        r == jump_bit(8 * rank + file, dr as int, df as int),
{
    let nr = rank as i8 + dr;
    let nf = file as i8 + df;
    assert(rank_of(8 * rank + file) == rank && file_of(8 * rank + file) == file);
    if nr < 0 || nr >= 8 || nf < 0 || nf >= 8 {
        0
    } else {
        1u64 << ((8 * nr + nf) as u64)
    }
}

/// The squares a knight on `square` attacks.
pub fn knight_attacks(square: Square) -> (r: BitBoard)
    ensures
        r.0 == knight_bits(square@),
{
    let rank = square.rank();
    let file = square.file();
    assert(square@ == 8 * rank + file);
    BitBoard(
        jump(rank, file, 2, 1) | jump(rank, file, 2, -1) | jump(rank, file, -2, 1) | jump(
            rank,
            file,
            -2,
            -1,
        ) | jump(rank, file, 1, 2) | jump(rank, file, 1, -2) | jump(rank, file, -1, 2) | jump(
            rank,
            file,
            -1,
            -2,
        ),
    )
}

} // verus!
