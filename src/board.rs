use vstd::prelude::*;
use crate::action::{Move, MoveView, move_from_notation};
use crate::base_board::{BaseBoard, IsCaptureReason, start_squares};
use crate::bitboard::BitBoard;
use crate::capture_type::CaptureType;
use crate::direction::Direction;
use crate::error::FanoronaError;
use crate::board_notation::board_notation;
use crate::piece::Piece;
use crate::state_notation::{state_notation, state_from_notation, visited_notation, last_notation, lemma_state_notation_round_trip};
use crate::text::{split, split_at_char, join_strings};
use crate::square::{Square, neighbor, lemma_square_view_injective};

verus! {

broadcast use lemma_square_view_injective, BitBoard::lemma_on_board;

/// Why a move is not legal in the current game state.
#[derive(Debug, Clone, Copy, PartialEq, Eq, Structural)]
pub enum IsLegalReason {
    /// The square moved from does not hold a piece of the side to move.
    OwnPieceNotMoved,
    /// The move leaves the board.
    PieceMovingOutOfBounds,
    /// The recorded last capture leaves the board.
    LastCaptureOutOfBounds,
    /// In a capture sequence, only the piece that captured last may move.
    MoveMustFollowLastCapture,
    /// In a capture sequence, a square visited before cannot be entered again.
    VisitingVisitedSquare,
    /// In a capture sequence, a piece cannot continue along the line of its
    /// last capture, forwards or backwards.
    CannotCaptureSameDirection,
    /// A move that captures nothing while the side has a capture to play.
    PaikaWhenCaptureExists,
    /// A move that captures both ways without saying which.
    AmbiguousCapture,
    /// Ending the turn outside a capture sequence.
    EndTurnWithoutCaptureSequence,
    /// The piece that captured last does not belong to the side to move.
    LastCaptureNotByCurrentPlayer,
    /// A capture sequence without a recorded last capture.
    LastCaptureNoneInCaptureSequence,
    /// The square moved to is occupied.
    MovingToOccupiedSquare,
}

/// Whether the text is a single `-`.
fn is_dash(s: &str) -> (r: bool)
    ensures
        r == (s@ == seq!['-']),
{
    let r = s.unicode_len() == 1 && s.get_char(0) == '-';
    proof {
        if s@.len() == 1 && s@[0] == '-' {
            assert(s@ =~= seq!['-']);
        }
    }
    r
}

/// The capture type at position `t` (0 or 1) of the order in which moves are listed.
pub open spec fn listed_capture_type(t: int) -> CaptureType {
    if t == 0 {
        CaptureType::Approach
    } else {
        CaptureType::Withdrawal
    }
}

/// The `k`-th of the 720 moves that are tried when listing the legal moves:
/// squares in index order, then directions clockwise from North, then
/// approach before withdrawal.
pub open spec fn candidate(k: int) -> MoveView {
    MoveView::Step {
        from: k / 16,
        direction: Direction::clockwise()[(k / 2) % 8],
        capture_type: Some(listed_capture_type(k % 2)),
    }
}

/// The first `n` moves that are tried when listing the legal moves.
pub open spec fn candidates(n: int) -> Seq<MoveView> {
    Seq::new(n as nat, |k: int| candidate(k))
}

/// Representation of a Fanorona game state.
#[derive(Debug, Clone, Copy, PartialEq, Eq, Structural)]
pub struct Board {
    /// The current board position.
    base_board: BaseBoard,
    /// Whose turn it is.
    turn: Piece,
    /// The squares moved from in the current capture sequence.
    visited: BitBoard,
    /// The last capture made, while in a capture sequence.
    last_capture: Option<Move>,
}

impl Board {
    /// The board position.
    pub closed spec fn position(self) -> BaseBoard {
        self.base_board
    }

    /// The side to move.
    pub closed spec fn spec_turn(self) -> Piece {
        self.turn
    }

    /// The squares moved from in the current capture sequence.
    pub closed spec fn visited_set(self) -> Set<int> {
        self.visited@
    }

    /// The last capture of the current capture sequence.
    pub closed spec fn last(self) -> Option<Move> {
        self.last_capture
    }

    /// The parts are well formed.
    pub closed spec fn wf(self) -> bool {
        &&& self.base_board.wf()
        &&& self.visited.wf()
        &&& match self.last_capture {
            Some(m) => m.wf() && m is Move,
            None => true,
        }
    }

    /// The state is in a capture sequence.
    pub open spec fn in_chain(self) -> bool {
        self.last() matches Some(Move::Move { .. })
    }

    /// In a well-formed state, a recorded last capture is always a step, so
    /// the state is in a capture sequence exactly when one is recorded.
    pub proof fn lemma_in_chain_iff_last(self)
        requires
            self.wf(),
        ensures
            self.in_chain() <==> self.last() is Some,
    {
    }

    /// Some square has been visited exactly when a last capture is recorded.
    pub open spec fn chain_consistent(self) -> bool {
        (self.visited_set() != Set::<int>::empty()) <==> self.last() is Some
    }

    /// The last capture seen through its square's index.
    pub open spec fn last_view(self) -> Option<MoveView> {
        match self.last() {
            Some(m) => Some(m@),
            None => None,
        }
    }

    /// The state as board cells, side to move, visited squares and last capture.
    pub open spec fn state(self) -> (Seq<Option<Piece>>, Piece, Set<int>, Option<MoveView>) {
        (self.position().cells(), self.spec_turn(), self.visited_set(), self.last_view())
    }

    /// Whether move `m` is legal here, and if not, the first rule it breaks.
    pub open spec fn legal_check(self, m: MoveView) -> Result<(), IsLegalReason> {
        let pos = self.position();
        let turn = self.spec_turn();
        match m {
            MoveView::Step { from, direction, capture_type } => {
                if pos.spec_piece_at(from) != Some(turn) {
                    Err(IsLegalReason::OwnPieceNotMoved)
                } else if neighbor(from, direction) is None {
                    Err(IsLegalReason::PieceMovingOutOfBounds)
                } else if pos.spec_piece_at(neighbor(from, direction)->0) is Some {
                    Err(IsLegalReason::MovingToOccupiedSquare)
                } else {
                    match self.last() {
                        Some(Move::Move { from: lc_from, direction: lc_dir, .. }) => {
                            if neighbor(lc_from@, lc_dir) is None {
                                Err(IsLegalReason::LastCaptureOutOfBounds)
                            } else if from != neighbor(lc_from@, lc_dir)->0 {
                                Err(IsLegalReason::MoveMustFollowLastCapture)
                            } else if direction == lc_dir.spec_mirror() {
                                Err(IsLegalReason::CannotCaptureSameDirection)
                            } else if self.visited_set().contains(neighbor(from, direction)->0) {
                                Err(IsLegalReason::VisitingVisitedSquare)
                            } else if direction == lc_dir {
                                Err(IsLegalReason::CannotCaptureSameDirection)
                            } else {
                                Ok(())
                            }
                        },
                        _ => {
                            let c = pos.capture_check(from, direction, capture_type);
                            if c == Err::<(), IsCaptureReason>(IsCaptureReason::AmbiguousCapture) {
                                Err(IsLegalReason::AmbiguousCapture)
                            } else if c is Err && pos.spec_capture_exists(turn) {
                                Err(IsLegalReason::PaikaWhenCaptureExists)
                            } else {
                                Ok(())
                            }
                        },
                    }
                }
            },
            MoveView::EndTurn => match self.last() {
                Some(Move::Move { from: lc_from, direction: lc_dir, .. }) => {
                    if neighbor(lc_from@, lc_dir) is None {
                        Err(IsLegalReason::LastCaptureOutOfBounds)
                    } else if pos.spec_piece_at(neighbor(lc_from@, lc_dir)->0) != Some(turn) {
                        Err(IsLegalReason::LastCaptureNotByCurrentPlayer)
                    } else {
                        Ok(())
                    }
                },
                _ => Err(IsLegalReason::EndTurnWithoutCaptureSequence),
            },
        }
    }

    /// The legal moves other than the end of a turn, in the order in which
    /// they are listed.
    pub open spec fn legal_steps(self) -> Seq<MoveView> {
        candidates(720).filter(self.legal_pred())
    }

    /// All legal moves in the order in which they are listed: the steps, then
    /// the end of the turn when in a capture sequence.
    pub open spec fn spec_legal_moves(self) -> Seq<MoveView> {
        if self.in_chain() {
            self.legal_steps().push(MoveView::EndTurn)
        } else {
            self.legal_steps()
        }
    }

    /// What playing move `m` on state `b` does: `r` is its result and `b2`
    /// the state after it.
    pub open spec fn push_effect(
        b: Board,
        m: MoveView,
        b2: Board,
        r: Result<(), FanoronaError>,
    ) -> bool {
        &&& r is Err ==> b2 == b
        &&& match m {
            MoveView::EndTurn => {
                &&& (r is Ok <==> b.in_chain())
                &&& (!b.in_chain() ==> r == Err::<(), FanoronaError>(
                    FanoronaError::IllegalMove(IsLegalReason::EndTurnWithoutCaptureSequence),
                ))
                &&& r is Ok ==> {
                &&& b2.position() == b.position()
                &&& b2.spec_turn() == b.spec_turn().spec_other()
                &&& b2.visited_set() == Set::<int>::empty()
                &&& b2.last() is None
                }
            },
            MoveView::Step { from, direction, capture_type } => {
                let pos = b.position();
                &&& (r is Ok <==> pos.can_step(from, direction))
                &&& (pos.spec_piece_at(from) is None ==> r == Err::<(), FanoronaError>(
                    FanoronaError::MoveError(IsCaptureReason::FromEmpty),
                ))
                &&& (pos.spec_piece_at(from) is Some && neighbor(from, direction) is None ==> r
                    == Err::<(), FanoronaError>(
                    FanoronaError::MoveError(IsCaptureReason::SquareOutOfBounds),
                ))
                &&& (r is Ok && pos.capture_check(from, direction, capture_type) is Ok) ==> {
                    &&& forall|q: Piece| #[trigger] b2.position().side(q) == pos.after_capture(
                        from,
                        direction,
                        capture_type,
                        q,
                    )
                    &&& b2.spec_turn() == b.spec_turn()
                    &&& b2.visited_set() == b.visited_set().insert(from)
                    &&& b2.last() matches Some(lm) && lm@ == m
                }
                &&& (r is Ok && pos.capture_check(from, direction, capture_type) is Err) ==> {
                    &&& forall|q: Piece| #[trigger] b2.position().side(q) == pos.after_paika(
                        from,
                        direction,
                        q,
                    )
                    &&& b2.spec_turn() == b.spec_turn().spec_other()
                    &&& b2.visited_set() == Set::<int>::empty()
                    &&& b2.last() is None
                }
            },
        }
    }

    /// The predicate that picks the legal moves.
    pub open spec fn legal_pred(self) -> spec_fn(MoveView) -> bool {
        |m: MoveView| self.legal_check(m) is Ok
    }

    /// Create a new board with the initial game state: the start position,
    /// White to move, no capture sequence.
    pub fn new() -> (r: Board)
        ensures
            r.wf(),
            r.chain_consistent(),
            r.position().black() == start_squares(Piece::Black),
            r.position().white() == start_squares(Piece::White),
            r.spec_turn() == Piece::White,
            r.visited_set() == Set::<int>::empty(),
            r.last() is None,
    {
        Board {
            base_board: BaseBoard::new(),
            turn: Piece::White,
            visited: BitBoard::empty(),
            last_capture: None,
        }
    }

    /// The board position.
    pub fn base_board(&self) -> (r: BaseBoard)
        ensures
            r == self.position(),
            self.wf() ==> r.wf(),
    {
        self.base_board
    }

    /// The side to move.
    pub fn turn(&self) -> (r: Piece)
        ensures
            r == self.spec_turn(),
    {
        self.turn
    }

    /// The squares moved from in the current capture sequence.
    pub fn visited(&self) -> (r: BitBoard)
        requires
            self.wf(),
        ensures
            r.wf(),
            r@ == self.visited_set(),
    {
        self.visited
    }

    /// The last capture of the current capture sequence.
    pub fn last_capture(&self) -> (r: Option<Move>)
        ensures
            r == self.last(),
    {
        self.last_capture
    }

    /// Pass the turn to the other player.
    pub fn pass_turn(&mut self)
        ensures
            final(self).spec_turn() == old(self).spec_turn().spec_other(),
            final(self).position() == old(self).position(),
            final(self).visited_set() == old(self).visited_set(),
            final(self).last() == old(self).last(),
            final(self).wf() == old(self).wf(),
    {
        self.turn = self.turn.other();
    }

    /// Test if the game is in a capture sequence: the last move was a capture.
    pub fn in_capture_seq(&self) -> (r: bool)
        ensures
            r == self.in_chain(),
    {
        match self.last_capture {
            Some(Move::Move { .. }) => true,
            _ => false,
        }
    }

    /// Test if a given move is a capture; the end of a turn never is.
    pub fn is_capture(&self, fmove: Move) -> (r: Result<(), IsCaptureReason>)
        requires
            self.wf(),
            fmove.wf(),
        ensures
            r == match fmove@ {
                MoveView::Step { from, direction, capture_type } => self.position().capture_check(
                    from,
                    direction,
                    capture_type,
                ),
                MoveView::EndTurn => Err(IsCaptureReason::EndTurnMove),
            },
    {
        match fmove {
            Move::Move { from, direction, capture_type } => self.base_board.is_capture(
                from,
                direction,
                capture_type,
            ),
            Move::EndTurn => Err(IsCaptureReason::EndTurnMove),
        }
    }

    /// Execute a move.
    ///
    /// The end of a turn clears the capture sequence and passes the turn; outside
    /// a capture sequence it fails with `EndTurnWithoutCaptureSequence`. A
    /// capture moves the piece, removes the captured pieces, records the move
    /// as the last capture and the square left as visited; the same side
    /// moves again. Any other move is played as a paika: it clears the capture
    /// sequence and passes the turn. A step that cannot be carried out fails
    /// and leaves the state as it was.
    pub fn push(&mut self, fmove: Move) -> (r: Result<(), FanoronaError>)
        requires
            old(self).wf(),
            fmove.wf(),
        ensures
            final(self).wf(),
            old(self).chain_consistent() ==> final(self).chain_consistent(),
            Board::push_effect(*old(self), fmove@, *final(self), r),
    {
        match fmove {
            Move::EndTurn => {
                if !self.in_capture_seq() {
                    return Err(
                        FanoronaError::IllegalMove(IsLegalReason::EndTurnWithoutCaptureSequence),
                    );
                }
                self.visited = BitBoard::empty();
                self.last_capture = None;
                self.pass_turn();
                Ok(())
            },
            Move::Move { from, direction, capture_type } => {
                if self.is_capture(fmove).is_ok() {
                    let r = self.base_board.make_capture(from, direction, capture_type);
                    if r.is_ok() {
                        self.last_capture = Some(fmove);
                        let p = BitBoard::pos(from);
                        self.visited = self.visited.or(&p);
                        assert(self.visited@.contains(from@));
                        assert(self.visited@ =~= old(self).visited@.insert(from@));
                    }
                    r
                } else {
                    let r = self.base_board.make_paika(from, direction);
                    if r.is_ok() {
                        self.last_capture = None;
                        self.visited = BitBoard::empty();
                        self.pass_turn();
                    }
                    r
                }
            },
        }
    }

    /// `legal_check`, given whether the side to move has a capture.
    fn legal_given(&self, fmove: Move, capture_exists: bool) -> (r: Result<(), IsLegalReason>)
        requires
            self.wf(),
            fmove.wf(),
            capture_exists == self.position().spec_capture_exists(self.spec_turn()),
        ensures
            r == self.legal_check(fmove@),
    {
        match fmove {
            Move::Move { from, direction, capture_type } => {
                if self.base_board.piece_at(from) != Some(self.turn) {
                    return Err(IsLegalReason::OwnPieceNotMoved);
                }
                let to = match from.translate(direction) {
                    Some(t) => t,
                    None => {
                        return Err(IsLegalReason::PieceMovingOutOfBounds);
                    },
                };
                if self.base_board.piece_at(to).is_some() {
                    return Err(IsLegalReason::MovingToOccupiedSquare);
                }
                match self.last_capture {
                    Some(Move::Move { from: lc_from, direction: lc_dir, .. }) => {
                        let lc_to = match lc_from.translate(lc_dir) {
                            Some(t) => t,
                            None => {
                                return Err(IsLegalReason::LastCaptureOutOfBounds);
                            },
                        };
                        if from != lc_to {
                            return Err(IsLegalReason::MoveMustFollowLastCapture);
                        }
                        if direction == lc_dir.mirror() {
                            return Err(IsLegalReason::CannotCaptureSameDirection);
                        }
                        if self.visited.contains(to) {
                            return Err(IsLegalReason::VisitingVisitedSquare);
                        }
                        if direction == lc_dir {
                            return Err(IsLegalReason::CannotCaptureSameDirection);
                        }
                        Ok(())
                    },
                    _ => {
                        let c = self.base_board.is_capture(from, direction, capture_type);
                        match c {
                            Err(IsCaptureReason::AmbiguousCapture) => Err(
                                IsLegalReason::AmbiguousCapture,
                            ),
                            Err(_) => {
                                if capture_exists {
                                    Err(IsLegalReason::PaikaWhenCaptureExists)
                                } else {
                                    Ok(())
                                }
                            },
                            Ok(()) => Ok(()),
                        }
                    },
                }
            },
            Move::EndTurn => match self.last_capture {
                Some(Move::Move { from: lc_from, direction: lc_dir, .. }) => {
                    let lc_to = match lc_from.translate(lc_dir) {
                        Some(t) => t,
                        None => {
                            return Err(IsLegalReason::LastCaptureOutOfBounds);
                        },
                    };
                    if self.base_board.piece_at(lc_to) != Some(self.turn) {
                        return Err(IsLegalReason::LastCaptureNotByCurrentPlayer);
                    }
                    Ok(())
                },
                _ => Err(IsLegalReason::EndTurnWithoutCaptureSequence),
            },
        }
    }

    /// Test if a move is legal to play in the current game state, and if not,
    /// which rule it breaks.
    pub fn is_legal(&self, fmove: Move) -> (r: Result<(), IsLegalReason>)
        requires
            self.wf(),
            fmove.wf(),
        ensures
            r == self.legal_check(fmove@),
    {
        let capture_exists = self.base_board.capture_exists(self.turn);
        self.legal_given(fmove, capture_exists)
    }

    /// Parse a move and execute it; a text that names no move gives
    /// `TryFromStrError` and leaves the state as it was.
    pub fn push_str(&mut self, fmove_str: &str) -> (r: Result<(), FanoronaError>)
        requires
            old(self).wf(),
        ensures
            final(self).wf(),
            old(self).chain_consistent() ==> final(self).chain_consistent(),
            move_from_notation(fmove_str@) matches Some(m) ==> Board::push_effect(
                *old(self),
                m,
                *final(self),
                r,
            ),
            move_from_notation(fmove_str@) is None ==> r == Err::<(), FanoronaError>(
                FanoronaError::TryFromStrError,
            ) && *final(self) == *old(self),
    {
        let fmove = Move::try_from(fmove_str)?;
        self.push(fmove)
    }

    /// Return the list of all legal moves: for each square in index order,
    /// each direction clockwise from North, approach then withdrawal, the
    /// legal ones; then the end of the turn when in a capture sequence.
    pub fn legal_moves(&self) -> (r: Vec<Move>)
        requires
            self.wf(),
        ensures
            r@.map_values(|m: Move| m@) == self.spec_legal_moves(),
            forall|i: int| 0 <= i < r@.len() ==> #[trigger] r@[i].wf(),
    {
        let capture_exists = self.base_board.capture_exists(self.turn);
        let all = Square::all();
        let dirs = Direction::all();
        let mut moves: Vec<Move> = Vec::new();
        let mut k: usize = 0;
        while k < 720
            invariant
                self.wf(),
                capture_exists == self.position().spec_capture_exists(self.spec_turn()),
                all@.len() == 45,
                forall|j: int| 0 <= j < 45 ==> #[trigger] all@[j]@ == j,
                dirs@ == Direction::clockwise(),
                k <= 720,
                moves@.map_values(|m: Move| m@) == candidates(k as int).filter(self.legal_pred()),
                forall|i: int| 0 <= i < moves@.len() ==> #[trigger] moves@[i].wf(),
            decreases 720 - k,
        {
            let from = all[k / 16];
            let direction = dirs[(k / 2) % 8];
            let capture_type = if k % 2 == 0 {
                CaptureType::Approach
            } else {
                CaptureType::Withdrawal
            };
            let m = Move::Move { from, direction, capture_type: Some(capture_type) };
            assert(m@ == candidate(k as int));
            let ghost prev = moves@;
            if self.legal_given(m, capture_exists).is_ok() {
                moves.push(m);
            }
            proof {
                let c = candidates(k + 1);
                reveal(Seq::filter);
                assert(c.drop_last() =~= candidates(k as int));
                assert(c.last() == candidate(k as int));
                if self.legal_check(m@) is Ok {
                    assert(moves@.map_values(|m: Move| m@) =~= prev.map_values(|m: Move| m@).push(
                        m@,
                    ));
                } else {
                    assert(moves@ == prev);
                }
                assert forall|i: int| 0 <= i < moves@.len() implies #[trigger] moves@[i].wf() by {
                    if i < prev.len() {
                        assert(moves@[i] == prev[i]);
                    }
                }
            }
            k = k + 1;
        }
        if self.in_capture_seq() {
            let ghost prev = moves@;
            moves.push(Move::EndTurn);
            assert(moves@.map_values(|m: Move| m@) =~= prev.map_values(|m: Move| m@).push(
                MoveView::EndTurn,
            ));
            assert forall|i: int| 0 <= i < moves@.len() implies #[trigger] moves@[i].wf() by {
                if i < prev.len() {
                    assert(moves@[i] == prev[i]);
                }
            }
        }
        moves
    }

    /// Return the winner of the game, if there is one: when the side to move
    /// has no legal move, the other side has won.
    pub fn winner(&self) -> (r: Option<Piece>)
        requires
            self.wf(),
        ensures
            r == if self.spec_legal_moves().len() == 0 {
                Some(self.spec_turn().spec_other())
            } else {
                None
            },
    {
        let moves = self.legal_moves();
        assert(moves@.map_values(|m: Move| m@).len() == moves@.len());
        if moves.len() == 0 {
            Some(self.turn.other())
        } else {
            None
        }
    }

    /// The notation of the state: board, side to move (`W` or `B`), visited
    /// squares (`-` when none) and last capture (`-` when none), separated by
    /// single spaces.
    pub fn to_string(&self) -> (r: String)
        requires
            self.wf(),
        ensures
            r@ == state_notation(
                self.position().cells(),
                self.spec_turn(),
                self.visited_set(),
                self.last_view(),
            ),
    {
        let mut parts: Vec<String> = Vec::new();
        parts.push(self.base_board.to_string());
        parts.push(self.turn.to_string());
        parts.push(self.visited.to_squares_string());
        let last = match self.last_capture {
            Some(m) => m.to_string(),
            None => {
                proof {
                    reveal_strlit("-");
                }
                String::from_str("-")
            },
        };
        assert(last@ == last_notation(self.last_view()));
        parts.push(last);
        assert(parts@[0]@ == board_notation(self.position().cells()));
        assert(parts@[1]@ == self.spec_turn().notation());
        assert(parts@[2]@ == visited_notation(self.visited_set()));
        assert(parts@[3]@ == last_notation(self.last_view()));
        let r = join_strings(&parts, ' ');
        assert(parts@.map_values(|t: String| t@) =~= seq![
            board_notation(self.position().cells()),
            self.spec_turn().notation(),
            visited_notation(self.visited_set()),
            last_notation(self.last_view()),
        ]);
        r
    }

    /// Parse a state from its notation: four fields separated by single
    /// spaces. A text with another number of fields is a `ParseError`; a
    /// field that does not read is a `TryFromStrError`.
    pub fn try_from(value: &str) -> (r: Result<Board, FanoronaError>)
        ensures
            state_from_notation(value@) matches Some(st) ==> (r matches Ok(b) && b.wf()
                && b.state() == st),
            split(value@, ' ').len() != 4 ==> r == Err::<Board, FanoronaError>(
                FanoronaError::ParseError,
            ),
            split(value@, ' ').len() == 4 && state_from_notation(value@) is None ==> r == Err::<
                Board,
                FanoronaError,
            >(FanoronaError::TryFromStrError),
    {
        let parts = split_at_char(value, ' ');
        if parts.len() != 4 {
            return Err(FanoronaError::ParseError);
        }
        let base_board = BaseBoard::try_from(parts[0].as_str())?;
        let turn = match Piece::parse(parts[1].as_str()) {
            Some(p) => p,
            None => {
                return Err(FanoronaError::TryFromStrError);
            },
        };
        let visited = if is_dash(parts[2].as_str()) {
            BitBoard::empty()
        } else {
            BitBoard::try_from(parts[2].as_str())?
        };
        let last_capture = if is_dash(parts[3].as_str()) {
            None
        } else {
            match Move::try_from(parts[3].as_str())? {
                Move::EndTurn => {
                    return Err(FanoronaError::TryFromStrError);
                },
                m => Some(m),
            }
        };
        Ok(Board { base_board, turn, visited, last_capture })
    }

    /// The notation of a well-formed state reads back as that state.
    pub proof fn lemma_state_notation_reads_back(self)
        requires
            self.wf(),
        ensures
            state_from_notation(
                state_notation(
                    self.position().cells(),
                    self.spec_turn(),
                    self.visited_set(),
                    self.last_view(),
                ),
            ) == Some(self.state()),
    {
        let last = self.last_view();
        assert(last matches Some(m) ==> (m matches MoveView::Step { from, .. } && 0 <= from < 45));
        lemma_state_notation_round_trip(
            self.position().cells(),
            self.spec_turn(),
            self.visited_set(),
            last,
        );
    }

    /// Reading a state's notation back gives the state: the notation names
    /// the state's parts, and a well-formed state is determined by them.
    pub proof fn lemma_state_round_trip(self, other: Board)
        requires
            self.wf(),
            other.wf(),
            state_from_notation(
                state_notation(
                    self.position().cells(),
                    self.spec_turn(),
                    self.visited_set(),
                    self.last_view(),
                ),
            ) == Some(other.state()),
        ensures
            other == self,
    {
        let last = self.last_view();
        assert(last matches Some(m) ==> (m matches MoveView::Step { from, .. } && 0 <= from < 45));
        lemma_state_notation_round_trip(
            self.position().cells(),
            self.spec_turn(),
            self.visited_set(),
            last,
        );
        self.base_board.lemma_cells_injective(other.base_board);
        self.visited.lemma_view_injective(other.visited);
        match (self.last_capture, other.last_capture) {
            (Some(a), Some(b)) => {
                assert(a@ == b@);
                match (a, b) {
                    (Move::Move { from: f1, .. }, Move::Move { from: f2, .. }) => {
                        assert(f1@ == f2@);
                    },
                    _ => {},
                }
            },
            _ => {},
        }
    }
}

} // verus!
