use vstd::prelude::*;

verus! {

/// A side of the game.
#[derive(Clone, Copy, Debug, PartialEq, Eq, Structural)]
pub enum Color {
    White,
    Black,
}

/// The error of parsing a color from text other than `w` or `b`.
#[derive(Clone, Copy, Debug, PartialEq, Eq, Structural)]
pub struct ParseColorError;

/// The other side.
pub open spec fn opposite(c: Color) -> Color {
    match c {
        Color::White => Color::Black,
        Color::Black => Color::White,
    }
}

/// The text of a color: `w` or `b`.
pub open spec fn color_text(c: Color) -> Seq<char> {
    match c {
        Color::White => seq!['w'],
        Color::Black => seq!['b'],
    }
}

impl Color {
    /// The opposite color.
    pub fn negate(self) -> (r: Color)
        ensures
            r == opposite(self),
    {
        match self {
            Color::White => Color::Black,
            Color::Black => Color::White,
        }
    }

    /// Parses `w` as White and `b` as Black; any other text is an error.
    pub fn from_text(s: &str) -> (r: Result<Color, ParseColorError>)
        ensures
            s@ == seq!['w'] <==> r == Ok::<Color, ParseColorError>(Color::White),
            s@ == seq!['b'] <==> r == Ok::<Color, ParseColorError>(Color::Black),
            r is Err <==> (s@ != seq!['w'] && s@ != seq!['b']),
    {
        if s.unicode_len() != 1 {
            return Err(ParseColorError);
        }
        let ch = s.get_char(0);
        if ch == 'w' {
            proof {
                assert(s@ =~= seq!['w']);
            }
            Ok(Color::White)
        } else if ch == 'b' {
            proof {
                assert(s@ =~= seq!['b']);
            }
            Ok(Color::Black)
        } else {
            Err(ParseColorError)
        }
    }

    /// The one-letter text of the color.
    pub fn to_text(self) -> (r: String)
        ensures
            r@ == color_text(self),
    {
        match self {
            Color::White => {
                let r = String::from_str("w");
                proof {
                    reveal_strlit("w");
                }
                r
            },
            Color::Black => {
                let r = String::from_str("b");
                proof {
                    reveal_strlit("b");
                }
                r
            },
        }
    }
}

impl std::ops::Not for Color {
    type Output = Color;

    fn not(self) -> Color {
        self.negate()
    }
}

impl vstd::std_specs::ops::NotSpecImpl for Color {
    open spec fn obeys_not_spec() -> bool {
        true
    }

    open spec fn not_req(self) -> bool {
        true
    }

    open spec fn not_spec(self) -> Color {
        opposite(self)
    }
}

impl std::str::FromStr for Color {
    type Err = ParseColorError;

    fn from_str(s: &str) -> Result<Color, ParseColorError> {
        Color::from_text(s)
    }
}

} // verus!
