use vstd::prelude::*;

verus! {

/// The largest magnitude of a score: the value of a mate in no moves.
pub const MATE_MAXIMUM: i16 = 32767;

/// The largest magnitude of a finite evaluation.
pub const SCORE_MAXIMUM: i16 = 10;

/// The sign of an integer: -1, 0 or 1.
pub open spec fn sign(x: int) -> int {
    if x > 0 {
        1
    } else if x < 0 {
        -1
    } else {
        0
    }
}

/// The value that encodes a mate `distance` half-moves away; a negative distance is a mate
/// against the side to move.
pub open spec fn mate_value(distance: int) -> int {
    sign(distance) * MATE_MAXIMUM - distance
}

/// An evaluation clamped to the finite band.
pub open spec fn clamped(e: int) -> int {
    if e > SCORE_MAXIMUM {
        SCORE_MAXIMUM as int
    } else if e < -SCORE_MAXIMUM {
        -SCORE_MAXIMUM
    } else {
        e
    }
}

/// The moves to mate shown for a mate value: positive when the side to move mates, negative
/// when it is mated, the same number either way for mirrored values.
pub open spec fn mate_moves(value: int) -> int {
    if value > 0 {
        (MATE_MAXIMUM - value + 1) / 2
    } else {
        -((MATE_MAXIMUM + value + 1) / 2)
    }
}

/// The decimal text of an integer, with a leading `-` when it is negative.
pub open spec fn decimal_text(v: int) -> Seq<char>
    decreases
            if v < 0 {
                -v + 1
            } else {
                v
            },
{
    if v < 0 {
        seq!['-'] + decimal_text(-v)
    } else if v < 10 {
        seq![digit_char(v)]
    } else {
        decimal_text(v / 10) + seq![digit_char(v % 10)]
    }
}

/// The character of a decimal digit.
pub open spec fn digit_char(d: int) -> char {
    if d == 0 {
        '0'
    } else if d == 1 {
        '1'
    } else if d == 2 {
        '2'
    } else if d == 3 {
        '3'
    } else if d == 4 {
        '4'
    } else if d == 5 {
        '5'
    } else if d == 6 {
        '6'
    } else if d == 7 {
        '7'
    } else if d == 8 {
        '8'
    } else {
        '9'
    }
}

/// The text of a score value: `#` and the signed half-moves to mate for a mate, the value
/// itself for a finite evaluation.
pub open spec fn score_text(value: int) -> Seq<char> {
    if value > SCORE_MAXIMUM || value < -SCORE_MAXIMUM {
        seq!['#'] + decimal_text(mate_moves(value))
    } else {
        decimal_text(value)
    }
}

/// Relies on `i32::to_string` (through `Display`): the decimal text of the value.
#[verifier::external_body]
fn decimal(v: i32) -> (r: String)
    ensures
        r@ == decimal_text(v as int),
{
    v.to_string()
}

/// An evaluation of a position from the side to move's perspective: either a finite
/// evaluation in `-SCORE_MAXIMUM..=SCORE_MAXIMUM`, or a mate, whose magnitude is larger the
/// nearer the mate is.
#[derive(Clone, Copy, Debug, PartialEq, Eq, Structural, PartialOrd, Ord)]
pub struct Score {
    value: i16,
}

impl View for Score {
    type V = int;

    closed spec fn view(&self) -> int {
        self.value as int
    }
}

impl Score {
    #[verifier::type_invariant]
    spec fn negatable(self) -> bool {
        self.value > i16::MIN
    }

    /// The score of a draw: zero.
    pub fn draw() -> (r: Score)
        ensures
            r@ == 0,
    {
        Score { value: 0 }
    }

    /// The worst score: being mated at once.
    pub fn worst() -> (r: Score)
        ensures
            r@ == mate_value(-1),
    {
        Score::from_mate_distance(-1)
    }

    /// The best score: mating at once.
    pub fn best() -> (r: Score)
        ensures
            r@ == mate_value(1),
    {
        Score::from_mate_distance(1)
    }

    /// The score of a mate `distance` half-moves away, for the side to move if `distance` is
    /// positive and against it if negative.
    pub fn from_mate_distance(distance: i16) -> (r: Score)
        ensures
            r@ == mate_value(distance as int),
    {
        let value: i16 = if distance > 0 {
            MATE_MAXIMUM - distance
        } else if distance < 0 {
            -MATE_MAXIMUM - distance
        } else {
            0
        };
        Score { value }
    }

    /// The score of a finite evaluation, clamped to `-SCORE_MAXIMUM..=SCORE_MAXIMUM`.
    pub fn from_evaluation(eval: i16) -> (r: Score)
        ensures
            r@ == clamped(eval as int),
    {
        let value: i16 = if eval > SCORE_MAXIMUM {
            SCORE_MAXIMUM
        } else if eval < -SCORE_MAXIMUM {
            -SCORE_MAXIMUM
        } else {
            eval
        };
        Score { value }
    }

    /// Turns the score to the other side's perspective.
    pub fn flip_in_place(&mut self)
        ensures
            final(self)@ == -old(self)@,
    {
        proof {
            use_type_invariant(&*self);
        }
        self.value = -self.value;
    }

    /// The score from the other side's perspective.
    pub fn flip(self) -> (r: Score)
        ensures
            r@ == -self@,
    {
        let mut s = self;
        s.flip_in_place();
        s
    }

    /// The value of the score.
    pub fn value(&self) -> (r: i16)
        ensures
            r as int == self@,
    {
        self.value
    }

    /// The text of the score: `#` and the signed half-moves to mate for a mate, the value
    /// itself otherwise.
    pub fn to_text(&self) -> (r: String)
        ensures
            r@ == score_text(self@),
    {
        proof {
            use_type_invariant(self);
        }
        if self.value > SCORE_MAXIMUM || self.value < -SCORE_MAXIMUM {
            let moves: i32 = if self.value > 0 {
                (MATE_MAXIMUM as i32 - self.value as i32 + 1) / 2
            } else {
                -((MATE_MAXIMUM as i32 + self.value as i32 + 1) / 2)
            };
            let digits = decimal(moves);
            let hash = String::from_str("#");
            proof {
                reveal_strlit("#");
            }
            hash.concat(digits.as_str())
        } else {
            decimal(self.value as i32)
        }
    }
}

/// Flipping a score twice gives back the score.
pub proof fn lemma_flip_twice(s: Score, f: Score, g: Score)
    requires
        f@ == -s@,
        g@ == -f@,
    ensures
        g@ == s@,
{
}

/// Mate scores: a mate for the side to move is worth more than any finite evaluation, and
/// more the nearer it is; a mate against it is worth less than any finite evaluation, and
/// less the nearer it is.
pub proof fn lemma_mate_order(d1: int, d2: int, e: int)
    requires
        0 < d1 < d2 <= MATE_MAXIMUM - SCORE_MAXIMUM - 1,
    ensures
        mate_value(d1) > mate_value(d2) > clamped(e),
        mate_value(-d1) < mate_value(-d2) < clamped(e),
        mate_value(0) == 0,
{
}

} // verus!
