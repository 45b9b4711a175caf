use vstd::prelude::*;
use crate::direction::{same_letter, is_letter};
use crate::error::FanoronaError;

verus! {

/// Which run of opposing pieces a capture removes.
#[derive(Debug, Clone, Copy, PartialEq, Eq, Structural)]
pub enum CaptureType {
    /// The run beyond the square moved to, in the direction of travel (`F`).
    Approach,
    /// The run behind the square moved from, against the direction of travel (`B`).
    Withdrawal,
}

impl CaptureType {
    /// The one-letter notation: `F` (forward) or `B` (backward).
    pub open spec fn notation(self) -> Seq<char> {
        match self {
            CaptureType::Approach => seq!['F'],
            CaptureType::Withdrawal => seq!['B'],
        }
    }

    /// The capture type named by `s`, case-insensitively.
    pub open spec fn from_notation(s: Seq<char>) -> Option<CaptureType> {
        if s.len() == 1 && same_letter(s[0], 'F') {
            Some(CaptureType::Approach)
        } else if s.len() == 1 && same_letter(s[0], 'B') {
            Some(CaptureType::Withdrawal)
        } else {
            None
        }
    }

    /// Print the capture type as `F` (forward) or `B` (backward).
    pub fn to_string(&self) -> (r: String)
        ensures
            r@ == self.notation(),
    {
        proof {
            reveal_strlit("F");
            reveal_strlit("B");
        }
        match self {
            CaptureType::Approach => String::from_str("F"),
            CaptureType::Withdrawal => String::from_str("B"),
        }
    }

    /// Parse a capture type, case-insensitively; `None` if `s` names none.
    pub fn parse_capture(s: &str) -> (r: Option<CaptureType>)
        ensures
            r == CaptureType::from_notation(s@),
    {
        if s.unicode_len() != 1 {
            return None;
        }
        let c = s.get_char(0);
        if is_letter(c, 'F') {
            Some(CaptureType::Approach)
        } else if is_letter(c, 'B') {
            Some(CaptureType::Withdrawal)
        } else {
            None
        }
    }

    /// Parse a capture type as `parse_capture` does, with `TryFromStrError`
    /// for text that names none.
    pub fn try_from(s: &str) -> (r: Result<CaptureType, FanoronaError>)
        ensures
            CaptureType::from_notation(s@) matches Some(t) ==> r == Ok::<
                CaptureType,
                FanoronaError,
            >(t),
            CaptureType::from_notation(s@) is None ==> r == Err::<CaptureType, FanoronaError>(
                FanoronaError::TryFromStrError,
            ),
    {
        match CaptureType::parse_capture(s) {
            Some(t) => Ok(t),
            None => Err(FanoronaError::TryFromStrError),
        }
    }
}

/// Reading a capture type's notation back gives the capture type.
pub proof fn lemma_capture_type_round_trip(t: CaptureType)
    ensures
        CaptureType::from_notation(t.notation()) == Some(t),
{
}

} // verus!
