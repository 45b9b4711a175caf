use vstd::prelude::*;
use crate::direction::Direction;
use crate::error::FanoronaError;
use crate::text::push_char;

verus! {

/// Number of rows of the board.
pub const ROWS: usize = 5;

/// Number of columns of the board.
pub const COLS: usize = 9;

/// Number of squares of the board.
pub const NUM_SQUARES: usize = 45;

/// The square reached from index `i` by one step in direction `d`, if that
/// step stays on the 5 x 9 board.
pub open spec fn neighbor(i: int, d: Direction) -> Option<int> {
    let r = i / 9 + d.dr();
    let c = i % 9 + d.dc();
    if 0 <= i < 45 && 0 <= r < 5 && 0 <= c < 9 {
        Some(r * 9 + c)
    } else {
        None
    }
}

/// A step that stays on the board moves the index by the direction's increment.
pub proof fn lemma_neighbor(i: int, d: Direction)
    ensures
        neighbor(i, d) matches Some(n) ==> n == i + d.increment() && 0 <= n < 45,
{
}

/// Column of a column letter (`A`..`I`, either case).
pub open spec fn column_of_letter(c: char) -> Option<int> {
    if 'A' <= c <= 'I' {
        Some(c as int - 'A' as int)
    } else if 'a' <= c <= 'i' {
        Some(c as int - 'a' as int)
    } else {
        None
    }
}

/// Row of a row digit (`1`..`5`).
pub open spec fn row_of_digit(c: char) -> Option<int> {
    if '1' <= c <= '5' {
        Some(c as int - '1' as int)
    } else {
        None
    }
}

/// The square index that text starting with `s` names: a column letter
/// followed by a row digit. What follows those two characters is not read.
pub open spec fn square_from_notation(s: Seq<char>) -> Option<int> {
    if s.len() >= 2 && column_of_letter(s[0]) is Some && row_of_digit(s[1]) is Some {
        Some(row_of_digit(s[1])->0 * 9 + column_of_letter(s[0])->0)
    } else {
        None
    }
}

/// The notation of square index `i`: upper-case column letter, then row digit.
pub open spec fn square_notation(i: int) -> Seq<char> {
    seq![('A' as int + i % 9) as char, ('1' as int + i / 9) as char]
}

/// A representation of a square on the Fanorona board, an index 0..45 in
/// row-major order; row 0 is White's back row.
#[derive(Debug, Clone, Copy, PartialEq, Eq, Structural)]
pub struct Square {
    index: usize,
}

impl View for Square {
    type V = int;

    closed spec fn view(&self) -> int {
        self.index as int
    }
}

/// Two squares are equal exactly when their indices are.
pub broadcast proof fn lemma_square_view_injective(a: Square, b: Square)
    ensures
        #![trigger a@, b@]
        a@ == b@ <==> a == b,
        0 <= a@,
{
}

impl Square {
    /// Every square has an index below 45.
    pub open spec fn wf(self) -> bool {
        0 <= self@ < 45
    }

    /// The square with index `sq`, or `SquareOutOfBoundsError` when `sq >= 45`.
    pub fn new(sq: usize) -> (r: Result<Square, FanoronaError>)
        ensures
            sq < 45 ==> (r matches Ok(s) && s@ == sq),
            sq >= 45 ==> r == Err::<Square, FanoronaError>(FanoronaError::SquareOutOfBoundsError),
    {
        if sq < NUM_SQUARES {
            Ok(Square { index: sq })
        } else {
            Err(FanoronaError::SquareOutOfBoundsError)
        }
    }

    /// The square at `(row, col)`, or `SquareOutOfBoundsError` off the board.
    pub fn from_tuple(rc: (usize, usize)) -> (r: Result<Square, FanoronaError>)
        ensures
            rc.0 < 5 && rc.1 < 9 ==> (r matches Ok(s) && s@ == rc.0 * 9 + rc.1),
            !(rc.0 < 5 && rc.1 < 9) ==> r == Err::<Square, FanoronaError>(
                FanoronaError::SquareOutOfBoundsError,
            ),
    {
        if rc.0 < ROWS && rc.1 < COLS {
            Ok(Square { index: rc.0 * COLS + rc.1 })
        } else {
            Err(FanoronaError::SquareOutOfBoundsError)
        }
    }

    /// The index of the square.
    pub fn index(&self) -> (r: usize)
        ensures
            r == self@,
    {
        self.index
    }

    /// The square as a `(row, col)` pair.
    pub fn as_tuple(&self) -> (r: (usize, usize))
        ensures
            r.0 == self@ / 9,
            r.1 == self@ % 9,
    {
        (self.index / COLS, self.index % COLS)
    }

    /// Get the resultant square after translating it by one in a particular
    /// direction; `None` if that square would be off the board.
    pub fn translate(self, direction: Direction) -> (r: Option<Square>)
        requires
            self.wf(),
        ensures
            r matches Some(t) ==> neighbor(self@, direction) == Some(t@),
            r is None ==> neighbor(self@, direction) is None,
    {
        let row = (self.index / COLS) as i64 + direction.row_step() as i64;
        let col = (self.index % COLS) as i64 + direction.col_step() as i64;
        if 0 <= row && row < 5 && 0 <= col && col < 9 {
            Some(Square { index: (row * 9 + col) as usize })
        } else {
            None
        }
    }

    /// All squares in index order.
    pub fn all() -> (r: Vec<Square>)
        ensures
            r@.len() == 45,
            forall|i: int| 0 <= i < 45 ==> #[trigger] r@[i]@ == i,
    {
        let mut r: Vec<Square> = Vec::new();
        let mut i: usize = 0;
        while i < NUM_SQUARES
            invariant
                i <= 45,
                r@.len() == i,
                forall|j: int| 0 <= j < i ==> #[trigger] r@[j]@ == j,
            decreases 45 - i,
        {
            r.push(Square { index: i });
            i = i + 1;
        }
        r
    }

    /// Parse the square named by the first two characters of `s`: a column
    /// letter `A`..`I` (either case) and a row digit `1`..`5`.
    pub fn from_str(s: &str) -> (r: Option<Square>)
        ensures
            r matches Some(sq) ==> square_from_notation(s@) == Some(sq@),
            r is None ==> square_from_notation(s@) is None,
    {
        if s.unicode_len() < 2 {
            return None;
        }
        let c = s.get_char(0) as u32;
        let d = s.get_char(1) as u32;
        let col: u32 = if 65 <= c && c <= 73 {
            c - 65
        } else if 97 <= c && c <= 105 {
            c - 97
        } else {
            return None;
        };
        if !(49 <= d && d <= 53) {
            return None;
        }
        let row = d - 49;
        Some(Square { index: (row * 9 + col) as usize })
    }

    /// Parse a square as `from_str` does, with `TryFromStrError` for text
    /// that names none.
    pub fn try_from(s: &str) -> (r: Result<Square, FanoronaError>)
        ensures
            r matches Ok(sq) ==> square_from_notation(s@) == Some(sq@),
            r is Err ==> square_from_notation(s@) is None && r == Err::<Square, FanoronaError>(
                FanoronaError::TryFromStrError,
            ),
    {
        match Square::from_str(s) {
            Some(sq) => Ok(sq),
            None => Err(FanoronaError::TryFromStrError),
        }
    }

    /// The notation of the square, such as `A1` or `I5`.
    pub fn to_string(&self) -> (r: String)
        requires
            self.wf(),
        ensures
            r@ == square_notation(self@),
    {
        let mut r = String::new();
        push_char(&mut r, (65 + (self.index % COLS) as u8) as char);
        push_char(&mut r, (49 + (self.index / COLS) as u8) as char);
        assert(r@ =~= square_notation(self@));
        r
    }
}

/// Reading a square's notation back gives the square.
pub proof fn lemma_square_round_trip(i: int)
    requires
        0 <= i < 45,
    ensures
        square_from_notation(square_notation(i)) == Some(i),
{
}

/// Walks the squares beyond a starting square along one direction.
pub struct SquareIterator {
    current: Square,
    direction: Direction,
}

impl SquareIterator {
    /// The square the walk has reached.
    pub closed spec fn current(&self) -> Square {
        self.current
    }

    /// The direction of the walk.
    pub closed spec fn direction(&self) -> Direction {
        self.direction
    }

    pub fn new(start: Square, dir: Direction) -> (r: SquareIterator)
        ensures
            r.current() == start,
            r.direction() == dir,
    {
        SquareIterator { current: start, direction: dir }
    }

    /// The next square along the direction, or `None` at the edge.
    pub fn next(&mut self) -> (r: Option<Square>)
        requires
            old(self).current().wf(),
        ensures
            final(self).direction() == old(self).direction(),
            r matches Some(t) ==> neighbor(old(self).current()@, old(self).direction()) == Some(
                t@,
            ) && final(self).current() == t,
            r is None ==> neighbor(old(self).current()@, old(self).direction()) is None
                && final(self).current() == old(self).current(),
    {
        let result = self.current.translate(self.direction);
        if let Some(square) = result {
            self.current = square;
        }
        result
    }
}

} // verus!
