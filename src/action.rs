use vstd::prelude::*;
use crate::capture_type::{CaptureType, lemma_capture_type_round_trip};
use crate::direction::{Direction, same_letter, is_letter, lemma_direction_round_trip};
use crate::error::FanoronaError;
use crate::square::{Square, square_from_notation, square_notation, lemma_square_round_trip};
use crate::text::append_chars;

verus! {

/// A move seen through the index of its square.
pub enum MoveView {
    Step { from: int, direction: Direction, capture_type: Option<CaptureType> },
    EndTurn,
}

/// The representation of a Fanorona move.
#[derive(Debug, Clone, Copy, PartialEq, Eq, Structural)]
pub enum Move {
    /// Move the piece on `from` one step along `direction`; for a capture,
    /// `capture_type` says which run is taken when both would be.
    Move { from: Square, direction: Direction, capture_type: Option<CaptureType> },
    /// End the turn while in a capture sequence.
    EndTurn,
}

impl View for Move {
    type V = MoveView;

    open spec fn view(&self) -> MoveView {
        match *self {
            Move::Move { from, direction, capture_type } => MoveView::Step {
                from: from@,
                direction,
                capture_type,
            },
            Move::EndTurn => MoveView::EndTurn,
        }
    }
}

/// The notation of an optional capture type: its letter, or nothing.
pub open spec fn capture_type_notation(t: Option<CaptureType>) -> Seq<char> {
    match t {
        Some(t) => t.notation(),
        None => Seq::empty(),
    }
}

/// The notation of a move: square, direction and optional capture type, such
/// as `E2N` or `D3EB`; `X` for the end of a turn.
pub open spec fn move_notation(m: MoveView) -> Seq<char> {
    match m {
        MoveView::Step { from, direction, capture_type } => square_notation(from)
            + direction.notation() + capture_type_notation(capture_type),
        MoveView::EndTurn => seq!['X'],
    }
}

/// The move that the whole of `s` names, case-insensitively.
pub open spec fn move_from_notation(s: Seq<char>) -> Option<MoveView> {
    if s.len() == 1 && same_letter(s[0], 'X') {
        Some(MoveView::EndTurn)
    } else if s.len() >= 3 && square_from_notation(s) is Some {
        let from = square_from_notation(s)->0;
        let rest = s.subrange(2, s.len() as int);
        if Direction::from_notation(rest) is Some {
            Some(
                MoveView::Step {
                    from,
                    direction: Direction::from_notation(rest)->0,
                    capture_type: None,
                },
            )
        } else if Direction::from_notation(rest.drop_last()) is Some
            && CaptureType::from_notation(seq![rest.last()]) is Some {
            Some(
                MoveView::Step {
                    from,
                    direction: Direction::from_notation(rest.drop_last())->0,
                    capture_type: Some(CaptureType::from_notation(seq![rest.last()])->0),
                },
            )
        } else {
            None
        }
    } else {
        None
    }
}

impl Move {
    /// The move's square is on the board.
    pub open spec fn wf(self) -> bool {
        match self {
            Move::Move { from, .. } => from.wf(),
            Move::EndTurn => true,
        }
    }

    /// The notation of the move, such as `A1N` or `D3EB`; `X` for an end of turn.
    pub fn to_string(&self) -> (r: String)
        requires
            self.wf(),
        ensures
            r@ == move_notation(self@),
    {
        match self {
            Move::Move { from, direction, capture_type } => {
                let mut r = from.to_string();
                append_chars(&mut r, &direction.to_string());
                match capture_type {
                    Some(t) => append_chars(&mut r, &t.to_string()),
                    None => {},
                }
                assert(r@ =~= move_notation(self@));
                r
            },
            Move::EndTurn => {
                proof {
                    reveal_strlit("X");
                }
                String::from_str("X")
            },
        }
    }

    /// Parse a move: a square, a direction and an optional capture type (`F`
    /// forward, `B` backward), or `X` for the end of a turn; case-insensitive.
    /// The whole text must be the move, else `TryFromStrError`.
    pub fn try_from(s: &str) -> (r: Result<Move, FanoronaError>)
        ensures
            r matches Ok(m) ==> m.wf() && move_from_notation(s@) == Some(m@),
            r is Err ==> move_from_notation(s@) is None && r == Err::<Move, FanoronaError>(
                FanoronaError::TryFromStrError,
            ),
    {
        let n = s.unicode_len();
        if n == 1 && is_letter(s.get_char(0), 'X') {
            return Ok(Move::EndTurn);
        }
        if n < 3 {
            return Err(FanoronaError::TryFromStrError);
        }
        let from = match Square::from_str(s) {
            Some(sq) => sq,
            None => {
                return Err(FanoronaError::TryFromStrError);
            },
        };
        let rest = s.substring_char(2, n);
        match Direction::parse_dir(rest) {
            Some(direction) => {
                return Ok(Move::Move { from, direction, capture_type: None });
            },
            None => {},
        }
        let dir_part = s.substring_char(2, n - 1);
        let type_part = s.substring_char(n - 1, n);
        proof {
            assert(dir_part@ =~= rest@.drop_last());
            assert(type_part@ =~= seq![rest@.last()]);
        }
        match (Direction::parse_dir(dir_part), CaptureType::parse_capture(type_part)) {
            (Some(direction), Some(t)) => Ok(
                Move::Move { from, direction, capture_type: Some(t) },
            ),
            _ => Err(FanoronaError::TryFromStrError),
        }
    }
}

/// Reading a move's notation back gives the move.
pub proof fn lemma_move_round_trip(m: MoveView)
    requires
        m matches MoveView::Step { from, .. } ==> 0 <= from < 45,
    ensures
        move_from_notation(move_notation(m)) == Some(m),
        move_notation(m) != seq!['-'],
{
    match m {
        MoveView::Step { from, direction, capture_type } => {
            let s = move_notation(m);
            let rest = s.subrange(2, s.len() as int);
            lemma_square_round_trip(from);
            lemma_direction_round_trip(direction);
            assert(s[0] == square_notation(from)[0]);
            assert(s[1] == square_notation(from)[1]);
            assert(square_from_notation(s) == Some(from));
            assert(rest =~= direction.notation() + capture_type_notation(capture_type));
            match capture_type {
                Some(t) => {
                    assert(rest.drop_last() =~= direction.notation());
                    assert(seq![rest.last()] =~= t.notation());
                    lemma_capture_type_round_trip(t);
                },
                None => {
                    assert(rest =~= direction.notation());
                },
            }
            assert(s.len() >= 3);
        },
        MoveView::EndTurn => {
            assert(seq!['X'] != seq!['-']) by {
                assert(seq!['X'][0] != seq!['-'][0]);
            }
        },
    }
}

} // verus!
