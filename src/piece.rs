use vstd::prelude::*;

verus! {

/// The two sides of the game.
#[derive(Debug, Clone, Copy, PartialEq, Eq, Structural)]
pub enum Piece {
    Black,
    White,
}

impl Piece {
    /// The opposing side.
    pub open spec fn spec_other(&self) -> Piece {
        match self {
            Piece::Black => Piece::White,
            Piece::White => Piece::Black,
        }
    }

    /// The position of this side's board in a `[black, white]` pair.
    pub open spec fn spec_index(&self) -> usize {
        match self {
            Piece::Black => 0,
            Piece::White => 1,
        }
    }

    /// The one-letter notation of the side.
    pub open spec fn notation(self) -> Seq<char> {
        match self {
            Piece::Black => seq!['B'],
            Piece::White => seq!['W'],
        }
    }

    /// The side named by `s`, case-insensitively.
    pub open spec fn from_notation(s: Seq<char>) -> Option<Piece> {
        if s.len() == 1 && (s[0] == 'W' || s[0] == 'w') {
            Some(Piece::White)
        } else if s.len() == 1 && (s[0] == 'B' || s[0] == 'b') {
            Some(Piece::Black)
        } else {
            None
        }
    }

    #[verifier::when_used_as_spec(spec_other)]
    pub fn other(&self) -> (r: Piece)
        ensures
            r == self.spec_other(),
    {
        match self {
            Piece::Black => Piece::White,
            Piece::White => Piece::Black,
        }
    }

    #[verifier::when_used_as_spec(spec_index)]
    pub fn index(&self) -> (r: usize)
        ensures
            r == self.spec_index(),
    {
        match self {
            Piece::Black => 0,
            Piece::White => 1,
        }
    }

    pub fn to_string(&self) -> (r: String)
        ensures
            r@ == self.notation(),
    {
        proof {
            reveal_strlit("B");
            reveal_strlit("W");
        }
        match self {
            Piece::Black => String::from_str("B"),
            Piece::White => String::from_str("W"),
        }
    }

    pub fn parse(s: &str) -> (r: Option<Piece>)
        ensures
            r == Piece::from_notation(s@),
    {
        if s.unicode_len() != 1 {
            return None;
        }
        let c = s.get_char(0);
        if c == 'W' || c == 'w' {
            Some(Piece::White)
        } else if c == 'B' || c == 'b' {
            Some(Piece::Black)
        } else {
            None
        }
    }
}

} // verus!
