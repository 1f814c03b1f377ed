use vstd::prelude::*;

verus! {

/// A square of the board. Squares are numbered from 0 to 63 as `rank * 8 + file`, so that
/// a1 is 0, h1 is 7, a2 is 8 and h8 is 63. This numbering is the bit index of the square in
/// every bitboard.
#[derive(Clone, Copy, Debug, PartialEq, Eq, Structural)]
pub struct Square {
    index: u8,
}

impl Square {
    #[verifier::type_invariant]
    spec fn in_range(self) -> bool {
        self.index < 64
    }
}

impl Square {
    /// The square of index `i`, if `i` is below 64.
    pub fn from_index(i: u8) -> (r: Option<Square>)
        ensures
            r is Some <==> i < 64,
            r is Some ==> r.unwrap()@ == i as int,
    {
        if i < 64 {
            Some(Square { index: i })
        } else {
            None
        }
    }

    /// The square on rank `rank` and file `file`, both counted from 0.
    pub fn at(rank: u8, file: u8) -> (r: Square)
        requires
            rank < 8,
            file < 8,
        ensures
            r@ == 8 * rank + file,
            rank_of(r@) == rank,
            file_of(r@) == file,
    {
        Square { index: 8 * rank + file }
    }

    /// The index of the square, in `0..64`.
    pub fn index(self) -> (r: u8)
        ensures
            r as int == self@,
            r < 64,
    {
        proof {
            use_type_invariant(&self);
        }
        self.index
    }

    /// The file of the square: 0 for the a-file up to 7 for the h-file.
    pub fn file(self) -> (r: u8)
        ensures
            r as int == file_of(self@),
            r < 8,
    {
        proof {
            use_type_invariant(&self);
        }
        self.index % 8
    }

    /// The rank of the square: 0 for the first rank up to 7 for the eighth.
    pub fn rank(self) -> (r: u8)
        ensures
            r as int == rank_of(self@),
            r < 8,
    {
        proof {
            use_type_invariant(&self);
        }
        self.index / 8
    }
}

impl View for Square {
    type V = int;

    closed spec fn view(&self) -> int {
        self.index as int
    }
}

/// The file (0 for a, 7 for h) of a square index.
pub open spec fn file_of(i: int) -> int {
    i % 8
}

/// The rank (0 for the first rank, 7 for the eighth) of a square index.
pub open spec fn rank_of(i: int) -> int {
    i / 8
}

/// The letter of a file: `a` to `h`.
pub open spec fn file_char(f: int) -> char {
    (('a' as u32) + f) as char
}

/// The digit of a rank: `1` to `8`.
pub open spec fn rank_char(r: int) -> char {
    (('1' as u32) + r) as char
}

/// The coordinate text of square `i`, such as `e4`.
pub open spec fn square_text(i: int) -> Seq<char> {
    seq![file_char(file_of(i)), rank_char(rank_of(i))]
}

/// The square that two characters name, if they are a file letter `a`..`h` and a rank digit
/// `1`..`8`.
pub open spec fn parse_square(f: char, r: char) -> Option<int> {
    if 'a' as u32 <= f as u32 <= 'h' as u32 && '1' as u32 <= r as u32 <= '8' as u32 {
        Some(8 * (r as u32 - '1' as u32) + (f as u32 - 'a' as u32))
    } else {
        None
    }
}

/// Reading the text of a square gives the square back.
pub proof fn lemma_square_text_round_trip(i: int)
    requires
        0 <= i < 64,
    ensures
        parse_square(square_text(i)[0], square_text(i)[1]) == Some(i),
{
}

impl Square {
    /// The square named by a file letter and a rank digit, such as `e` and `4`.
    pub fn from_chars(f: char, r: char) -> (res: Option<Square>)
        ensures
            res is Some <==> parse_square(f, r) is Some,
            res is Some ==> Some(res.unwrap()@) == parse_square(f, r),
    {
        let fu = f as u32;
        let ru = r as u32;
        if 97 <= fu && fu <= 104 && 49 <= ru && ru <= 56 {
            let i = (8 * (ru - 49) + (fu - 97)) as u8;
            Square::from_index(i)
        } else {
            None
        }
    }

    /// The file letter of the square.
    pub fn file_letter(self) -> (c: char)
        ensures
            c == file_char(file_of(self@)),
    {
        let f = self.file();
        ((97 + f as u32) as u8) as char
    }

    /// The rank digit of the square.
    pub fn rank_digit(self) -> (c: char)
        ensures
            c == rank_char(rank_of(self@)),
    {
        let r = self.rank();
        ((49 + r as u32) as u8) as char
    }
}

} // verus!
