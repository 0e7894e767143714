use vstd::prelude::*;
use vstd::string::StrSliceExecFns;
use vstd::string::StringExecFns;

verus! {

/// A board coordinate: `x` is the file (0 = "a"), `y` is the rank (0 = "1").
/// Internal logic only ever constructs values with both components in 0..8;
/// values read from text are validated before use.
#[derive(Debug, Clone, Copy, PartialEq, Eq, PartialOrd, Ord, Default, Structural)]
pub struct Square {
    pub x: u8,
    pub y: u8,
}

/// The file index denoted by an algebraic file letter, upper or lower case.
pub open spec fn file_of_char(c: char) -> Option<u8> {
    if c == 'a' || c == 'A' {
        Some(0u8)
    } else if c == 'b' || c == 'B' {
        Some(1u8)
    } else if c == 'c' || c == 'C' {
        Some(2u8)
    } else if c == 'd' || c == 'D' {
        Some(3u8)
    } else if c == 'e' || c == 'E' {
        Some(4u8)
    } else if c == 'f' || c == 'F' {
        Some(5u8)
    } else if c == 'g' || c == 'G' {
        Some(6u8)
    } else if c == 'h' || c == 'H' {
        Some(7u8)
    } else {
        None
    }
}

/// The rank index denoted by an algebraic rank digit.
pub open spec fn rank_of_char(c: char) -> Option<u8> {
    if c == '1' {
        Some(0u8)
    } else if c == '2' {
        Some(1u8)
    } else if c == '3' {
        Some(2u8)
    } else if c == '4' {
        Some(3u8)
    } else if c == '5' {
        Some(4u8)
    } else if c == '6' {
        Some(5u8)
    } else if c == '7' {
        Some(6u8)
    } else if c == '8' {
        Some(7u8)
    } else {
        None
    }
}

/// One step of parsing algebraic text: a file letter overwrites only the file,
/// a rank digit overwrites only the rank, and any other character fails.
pub open spec fn square_after_char(sq: Square, c: char) -> Option<Square> {
    match file_of_char(c) {
        Some(f) => Some(Square { x: f, ..sq }),
        None => match rank_of_char(c) {
            Some(r) => Some(Square { y: r, ..sq }),
            None => None,
        },
    }
}

/// The square denoted by a 2-character algebraic string, starting from the
/// all-zero square and applying each character in turn; any other length or
/// any unrecognized character fails.
pub open spec fn parse_square(s: Seq<char>) -> Option<Square> {
    if s.len() != 2 {
        None
    } else {
        match square_after_char(Square { x: 0, y: 0 }, s[0]) {
            Some(sq) => square_after_char(sq, s[1]),
            None => None,
        }
    }
}

/// The algebraic file letter for file `x`.
pub open spec fn file_char(x: int) -> char {
    if x == 0 {
        'a'
    } else if x == 1 {
        'b'
    } else if x == 2 {
        'c'
    } else if x == 3 {
        'd'
    } else if x == 4 {
        'e'
    } else if x == 5 {
        'f'
    } else if x == 6 {
        'g'
    } else {
        'h'
    }
}

/// The algebraic rank digit for rank `y`.
pub open spec fn rank_char(y: int) -> char {
    if y == 0 {
        '1'
    } else if y == 1 {
        '2'
    } else if y == 2 {
        '3'
    } else if y == 3 {
        '4'
    } else if y == 4 {
        '5'
    } else if y == 5 {
        '6'
    } else if y == 6 {
        '7'
    } else {
        '8'
    }
}

/// The 2-character algebraic rendering of an in-range square.
pub open spec fn algebraic_chars(sq: Square) -> Seq<char> {
    seq![file_char(sq.x as int), rank_char(sq.y as int)]
}

impl Square {
    fn after_char(sq: Square, c: char) -> (r: Option<Square>)
        ensures
            r == square_after_char(sq, c),
    {
        match c {
            'a' | 'A' => Some(Square { x: 0, ..sq }),
            'b' | 'B' => Some(Square { x: 1, ..sq }),
            'c' | 'C' => Some(Square { x: 2, ..sq }),
            'd' | 'D' => Some(Square { x: 3, ..sq }),
            'e' | 'E' => Some(Square { x: 4, ..sq }),
            'f' | 'F' => Some(Square { x: 5, ..sq }),
            'g' | 'G' => Some(Square { x: 6, ..sq }),
            'h' | 'H' => Some(Square { x: 7, ..sq }),
            '1' => Some(Square { y: 0, ..sq }),
            '2' => Some(Square { y: 1, ..sq }),
            '3' => Some(Square { y: 2, ..sq }),
            '4' => Some(Square { y: 3, ..sq }),
            '5' => Some(Square { y: 4, ..sq }),
            '6' => Some(Square { y: 5, ..sq }),
            '7' => Some(Square { y: 6, ..sq }),
            '8' => Some(Square { y: 7, ..sq }),
            _ => None,
        }
    }

    /// Parse a 2-character algebraic coordinate such as "e4" (case-insensitive
    /// in the file letter). Fails on any other length or any character outside
    /// the two valid classes.
    pub fn try_from(value: &str) -> (r: Result<Square, ()>)
        ensures
            match r {
                Ok(sq) => parse_square(value@) == Some(sq),
                Err(_) => parse_square(value@) is None,
            },
    {
        if value.unicode_len() != 2 {
            return Err(());
        }
        let c0 = value.get_char(0);
        let c1 = value.get_char(1);
        match Self::after_char(Square { x: 0, y: 0 }, c0) {
            Some(sq) => match Self::after_char(sq, c1) {
                Some(sq2) => Ok(sq2),
                None => Err(()),
            },
            None => Err(()),
        }
    }

    /// Render the square as its 2-character algebraic string.
    pub fn to_algebraic(&self) -> (r: String)
        requires
            self.x < 8,
            self.y < 8,
        ensures
            r@ == algebraic_chars(*self),
    {
        let f: &str = match self.x {
            0 => "a",
            1 => "b",
            2 => "c",
            3 => "d",
            4 => "e",
            5 => "f",
            6 => "g",
            _ => "h",
        };
        let k: &str = match self.y {
            0 => "1",
            1 => "2",
            2 => "3",
            3 => "4",
            4 => "5",
            5 => "6",
            6 => "7",
            _ => "8",
        };
        let mut s = String::new();
        s.append(f);
        s.append(k);
        proof {
            reveal_strlit("a");
            reveal_strlit("b");
            reveal_strlit("c");
            reveal_strlit("d");
            reveal_strlit("e");
            reveal_strlit("f");
            reveal_strlit("g");
            reveal_strlit("h");
            reveal_strlit("1");
            reveal_strlit("2");
            reveal_strlit("3");
            reveal_strlit("4");
            reveal_strlit("5");
            reveal_strlit("6");
            reveal_strlit("7");
            reveal_strlit("8");
            assert(s@ =~= algebraic_chars(*self));
        }
        s
    }
}

impl From<(u8, u8)> for Square {
    fn from(tuple: (u8, u8)) -> (r: Self) {
        Square { x: tuple.0, y: tuple.1 }
    }
}

impl vstd::std_specs::convert::FromSpecImpl<(u8, u8)> for Square {
    open spec fn obeys_from_spec() -> bool {
        true
    }

    open spec fn from_spec(v: (u8, u8)) -> Self {
        Square { x: v.0, y: v.1 }
    }
}

impl From<[u8; 2]> for Square {
    fn from(pair: [u8; 2]) -> (r: Self) {
        Square { x: pair[0], y: pair[1] }
    }
}

impl vstd::std_specs::convert::FromSpecImpl<[u8; 2]> for Square {
    open spec fn obeys_from_spec() -> bool {
        true
    }

    open spec fn from_spec(v: [u8; 2]) -> Self {
        Square { x: v[0], y: v[1] }
    }
}

} // verus!
