use vstd::prelude::*;
use crate::error::FanoronaError;

verus! {

/// The eight compass directions a piece can move in.
///
/// North is towards higher rows (row 0 is White's back row), East towards
/// higher columns.
#[derive(Debug, Clone, Copy, PartialEq, Eq, Structural)]
pub enum Direction {
    North,
    South,
    East,
    West,
    NorthWest,
    NorthEast,
    SouthWest,
    SouthEast,
}

impl Direction {
    /// Row offset of one step.
    pub open spec fn dr(self) -> int {
        match self {
            Direction::North | Direction::NorthWest | Direction::NorthEast => 1,
            Direction::South | Direction::SouthWest | Direction::SouthEast => -1,
            Direction::East | Direction::West => 0,
        }
    }

    /// Column offset of one step.
    pub open spec fn dc(self) -> int {
        match self {
            Direction::East | Direction::NorthEast | Direction::SouthEast => 1,
            Direction::West | Direction::NorthWest | Direction::SouthWest => -1,
            Direction::North | Direction::South => 0,
        }
    }

    /// Offset of one step in row-major square indices.
    pub open spec fn increment(self) -> int {
        9 * self.dr() + self.dc()
    }

    /// The direction turned by 180 degrees.
    pub open spec fn spec_mirror(self) -> Direction {
        match self {
            Direction::North => Direction::South,
            Direction::NorthEast => Direction::SouthWest,
            Direction::East => Direction::West,
            Direction::SouthEast => Direction::NorthWest,
            Direction::South => Direction::North,
            Direction::SouthWest => Direction::NorthEast,
            Direction::West => Direction::East,
            Direction::NorthWest => Direction::SouthEast,
        }
    }

    /// Position in the clockwise order that starts at North.
    pub open spec fn spec_clockwise_index(self) -> usize {
        match self {
            Direction::North => 0,
            Direction::NorthEast => 1,
            Direction::East => 2,
            Direction::SouthEast => 3,
            Direction::South => 4,
            Direction::SouthWest => 5,
            Direction::West => 6,
            Direction::NorthWest => 7,
        }
    }

    /// The directions in clockwise order, starting at North.
    pub open spec fn clockwise() -> Seq<Direction> {
        seq![
            Direction::North,
            Direction::NorthEast,
            Direction::East,
            Direction::SouthEast,
            Direction::South,
            Direction::SouthWest,
            Direction::West,
            Direction::NorthWest,
        ]
    }

    /// Upper-case notation: `N`, `S`, `E`, `W`, `NW`, `NE`, `SW`, `SE`.
    pub open spec fn notation(self) -> Seq<char> {
        match self {
            Direction::North => seq!['N'],
            Direction::South => seq!['S'],
            Direction::East => seq!['E'],
            Direction::West => seq!['W'],
            Direction::NorthWest => seq!['N', 'W'],
            Direction::NorthEast => seq!['N', 'E'],
            Direction::SouthWest => seq!['S', 'W'],
            Direction::SouthEast => seq!['S', 'E'],
        }
    }

    /// The direction whose notation is `s`, compared case-insensitively.
    pub open spec fn from_notation(s: Seq<char>) -> Option<Direction> {
        if s.len() == 1 {
            if same_letter(s[0], 'N') {
                Some(Direction::North)
            } else if same_letter(s[0], 'S') {
                Some(Direction::South)
            } else if same_letter(s[0], 'E') {
                Some(Direction::East)
            } else if same_letter(s[0], 'W') {
                Some(Direction::West)
            } else {
                None
            }
        } else if s.len() == 2 {
            if same_letter(s[0], 'N') && same_letter(s[1], 'W') {
                Some(Direction::NorthWest)
            } else if same_letter(s[0], 'N') && same_letter(s[1], 'E') {
                Some(Direction::NorthEast)
            } else if same_letter(s[0], 'S') && same_letter(s[1], 'W') {
                Some(Direction::SouthWest)
            } else if same_letter(s[0], 'S') && same_letter(s[1], 'E') {
                Some(Direction::SouthEast)
            } else {
                None
            }
        } else {
            None
        }
    }

    /// Return the mirror image of the direction, flipped 180 degrees.
    #[verifier::when_used_as_spec(spec_mirror)]
    pub fn mirror(self) -> (r: Direction)
        ensures
            r == self.spec_mirror(),
            r.dr() == -self.dr(),
            r.dc() == -self.dc(),
    {
        match self {
            Direction::North => Direction::South,
            Direction::NorthEast => Direction::SouthWest,
            Direction::East => Direction::West,
            Direction::SouthEast => Direction::NorthWest,
            Direction::South => Direction::North,
            Direction::SouthWest => Direction::NorthEast,
            Direction::West => Direction::East,
            Direction::NorthWest => Direction::SouthEast,
        }
    }

    /// Return the offset that one step in this direction adds to a square index.
    pub fn to_increment(self) -> (r: i8)
        ensures
            r == self.increment(),
    {
        match self {
            Direction::North => 9,
            Direction::NorthEast => 10,
            Direction::East => 1,
            Direction::SouthEast => -8,
            Direction::South => -9,
            Direction::SouthWest => -10,
            Direction::West => -1,
            Direction::NorthWest => 8,
        }
    }

    /// Row offset of one step.
    pub fn row_step(self) -> (r: i8)
        ensures
            r == self.dr(),
    {
        match self {
            Direction::North | Direction::NorthWest | Direction::NorthEast => 1,
            Direction::South | Direction::SouthWest | Direction::SouthEast => -1,
            Direction::East | Direction::West => 0,
        }
    }

    /// Column offset of one step.
    pub fn col_step(self) -> (r: i8)
        ensures
            r == self.dc(),
    {
        match self {
            Direction::East | Direction::NorthEast | Direction::SouthEast => 1,
            Direction::West | Direction::NorthWest | Direction::SouthWest => -1,
            Direction::North | Direction::South => 0,
        }
    }

    /// Position of the direction in clockwise order from North.
    #[verifier::when_used_as_spec(spec_clockwise_index)]
    pub fn clockwise_index(self) -> (r: usize)
        ensures
            r == self.spec_clockwise_index(),
            r < 8,
            Direction::clockwise()[r as int] == self,
    {
        match self {
            Direction::North => 0,
            Direction::NorthEast => 1,
            Direction::East => 2,
            Direction::SouthEast => 3,
            Direction::South => 4,
            Direction::SouthWest => 5,
            Direction::West => 6,
            Direction::NorthWest => 7,
        }
    }

    /// All eight directions in clockwise order, starting at North.
    pub fn all() -> (r: Vec<Direction>)
        ensures
            r@ == Direction::clockwise(),
    {
        let r = vec![
            Direction::North,
            Direction::NorthEast,
            Direction::East,
            Direction::SouthEast,
            Direction::South,
            Direction::SouthWest,
            Direction::West,
            Direction::NorthWest,
        ];
        assert(r@ =~= Direction::clockwise());
        r
    }

    /// The upper-case notation of the direction.
    pub fn to_string(&self) -> (r: String)
        ensures
            r@ == self.notation(),
    {
        proof {
            reveal_strlit("N");
            reveal_strlit("S");
            reveal_strlit("E");
            reveal_strlit("W");
            reveal_strlit("NW");
            reveal_strlit("NE");
            reveal_strlit("SW");
            reveal_strlit("SE");
        }
        match self {
            Direction::North => String::from_str("N"),
            Direction::South => String::from_str("S"),
            Direction::East => String::from_str("E"),
            Direction::West => String::from_str("W"),
            Direction::NorthWest => String::from_str("NW"),
            Direction::NorthEast => String::from_str("NE"),
            Direction::SouthWest => String::from_str("SW"),
            Direction::SouthEast => String::from_str("SE"),
        }
    }

    /// Parse a direction, case-insensitively; `None` if `s` names no direction.
    pub fn parse_dir(s: &str) -> (r: Option<Direction>)
        ensures
            r == Direction::from_notation(s@),
    {
        let n = s.unicode_len();
        if n == 1 {
            let a = s.get_char(0);
            if is_letter(a, 'N') {
                Some(Direction::North)
            } else if is_letter(a, 'S') {
                Some(Direction::South)
            } else if is_letter(a, 'E') {
                Some(Direction::East)
            } else if is_letter(a, 'W') {
                Some(Direction::West)
            } else {
                None
            }
        } else if n == 2 {
            let a = s.get_char(0);
            let b = s.get_char(1);
            if is_letter(a, 'N') && is_letter(b, 'W') {
                Some(Direction::NorthWest)
            } else if is_letter(a, 'N') && is_letter(b, 'E') {
                Some(Direction::NorthEast)
            } else if is_letter(a, 'S') && is_letter(b, 'W') {
                Some(Direction::SouthWest)
            } else if is_letter(a, 'S') && is_letter(b, 'E') {
                Some(Direction::SouthEast)
            } else {
                None
            }
        } else {
            None
        }
    }
}

impl Direction {
    /// Parse a direction as `parse_dir` does, with `TryFromStrError` for text
    /// that names none.
    pub fn try_from(s: &str) -> (r: Result<Direction, FanoronaError>)
        ensures
            Direction::from_notation(s@) matches Some(d) ==> r == Ok::<Direction, FanoronaError>(
                d,
            ),
            Direction::from_notation(s@) is None ==> r == Err::<Direction, FanoronaError>(
                FanoronaError::TryFromStrError,
            ),
    {
        match Direction::parse_dir(s) {
            Some(d) => Ok(d),
            None => Err(FanoronaError::TryFromStrError),
        }
    }
}

/// `c` is the upper-case ASCII letter `u` or its lower-case form.
pub open spec fn same_letter(c: char, u: char) -> bool {
    c == u || c as u32 == u as u32 + 32
}

/// Case-insensitive comparison of `c` with the upper-case ASCII letter `u`.
pub fn is_letter(c: char, u: char) -> (r: bool)
    requires
        'A' <= u <= 'Z',
    ensures
        r == same_letter(c, u),
{
    c == u || c as u32 == u as u32 + 32
}

/// Turning a direction around twice gives the direction back; the mirror
/// steps exactly backwards.
pub proof fn lemma_mirror_involutive(d: Direction)
    ensures
        d.spec_mirror().spec_mirror() == d,
        d.spec_mirror().increment() == -d.increment(),
{
}

/// Reading a direction's notation back gives the direction.
pub proof fn lemma_direction_round_trip(d: Direction)
    ensures
        Direction::from_notation(d.notation()) == Some(d),
{
}

} // verus!
