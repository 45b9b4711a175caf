use vstd::prelude::*;
use crate::base_board::IsCaptureReason;
use crate::board::IsLegalReason;

verus! {

/// Errors returned by parsing and by moves that cannot be carried out.
#[derive(Debug, Clone, Copy, PartialEq, Eq, Structural)]
pub enum FanoronaError {
    /// Text that does not follow the notation.
    TryFromStrError,
    /// A move that cannot be carried out on the board, and why.
    MoveError(IsCaptureReason),
    /// A move that the game state refuses, and which rule it breaks.
    IllegalMove(IsLegalReason),
    /// A square index or coordinate off the board.
    SquareOutOfBoundsError,
    /// A game state whose text lacks one of its fields.
    ParseError,
}

} // verus!
