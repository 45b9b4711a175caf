use vstd::prelude::*;
use crate::bitboard::{BitBoard, bit, capture_run, BLACK_START, WHITE_START};
use crate::capture_type::CaptureType;
use crate::direction::Direction;
use crate::error::FanoronaError;
use crate::piece::Piece;
use crate::square::{Square, neighbor, lemma_square_view_injective};

verus! {

broadcast use lemma_square_view_injective, BitBoard::lemma_on_board;

/// Why a move is not a capture.
#[derive(Debug, Clone, Copy, PartialEq, Eq, Structural)]
pub enum IsCaptureReason {
    /// No piece stands on the square the move starts from.
    FromEmpty,
    /// The move leaves the board.
    SquareOutOfBounds,
    /// The square that would be captured is off the board.
    CaptureOutOfBounds,
    /// The square that would be captured is empty.
    CaptureEmpty,
    /// The square that would be captured holds a piece of the moving side.
    SelfPieceOnCaptureSquare,
    /// Both an approach and a withdrawal are possible and no capture type was given.
    AmbiguousCapture,
    /// An end of turn captures nothing.
    EndTurnMove,
}

/// The squares of side `p` at the start of a game.
pub open spec fn start_squares(p: Piece) -> Set<int> {
    let b = match p {
        Piece::Black => BLACK_START,
        Piece::White => WHITE_START,
    };
    Set::new(|i: int| 0 <= i < 45 && bit(b, i as u64))
}

/// The side holding square `i`, given the squares of each side.
pub open spec fn occupant(black: Set<int>, white: Set<int>, i: int) -> Option<Piece> {
    if white.contains(i) {
        Some(Piece::White)
    } else if black.contains(i) {
        Some(Piece::Black)
    } else {
        None
    }
}

/// The squares that a capture removes from the opponent's squares `opp`, for
/// a piece that moved from `from` to `to` along `d`: the run beyond `to` for
/// an approach, the run behind `from` for a withdrawal, both when no type is given.
pub open spec fn removed_squares(
    opp: Set<int>,
    from: int,
    to: int,
    d: Direction,
    capture_type: Option<CaptureType>,
) -> Set<int> {
    match capture_type {
        Some(CaptureType::Approach) => capture_run(opp, to, d),
        Some(CaptureType::Withdrawal) => capture_run(opp, from, d.spec_mirror()),
        None => capture_run(opp, to, d).union(capture_run(opp, from, d.spec_mirror())),
    }
}

/// Representation of a Fanorona board position: the squares held by each side.
#[derive(Debug, Clone, Copy, PartialEq, Eq, Structural)]
pub struct BaseBoard {
    black: BitBoard,
    white: BitBoard,
}

impl BaseBoard {
    /// Squares held by Black.
    pub closed spec fn black(self) -> Set<int> {
        self.black@
    }

    /// Squares held by White.
    pub closed spec fn white(self) -> Set<int> {
        self.white@
    }

    /// Squares held by side `p`.
    pub open spec fn side(self, p: Piece) -> Set<int> {
        match p {
            Piece::Black => self.black(),
            Piece::White => self.white(),
        }
    }

    /// Both masks are well formed and no square is held by both sides.
    pub closed spec fn wf(self) -> bool {
        self.black.wf() && self.white.wf() && self.black@.disjoint(self.white@)
    }

    /// The two sides never share a square, and every held square is on the board.
    pub proof fn lemma_sides_disjoint(self)
        requires
            self.wf(),
        ensures
            self.black().disjoint(self.white()),
            forall|i: int| #[trigger] self.black().contains(i) ==> 0 <= i < 45,
            forall|i: int| #[trigger] self.white().contains(i) ==> 0 <= i < 45,
    {
    }

    /// Two well-formed positions with the same squares on each side are equal.
    pub proof fn lemma_view_injective(self, other: BaseBoard)
        requires
            self.wf(),
            other.wf(),
            self.black() == other.black(),
            self.white() == other.white(),
        ensures
            self == other,
    {
        self.black.lemma_view_injective(other.black);
        self.white.lemma_view_injective(other.white);
    }

    /// The side on each of the 45 squares, in index order.
    pub open spec fn cells(self) -> Seq<Option<Piece>> {
        Seq::new(45, |i: int| self.spec_piece_at(i))
    }

    /// A well-formed position is determined by what stands on each square.
    pub proof fn lemma_cells_injective(self, other: BaseBoard)
        requires
            self.wf(),
            other.wf(),
            self.cells() == other.cells(),
        ensures
            self == other,
    {
        assert forall|i: int| self.black().contains(i) == other.black().contains(i) by {
            if 0 <= i < 45 {
                assert(self.cells()[i] == other.cells()[i]);
            }
        }
        assert forall|i: int| self.white().contains(i) == other.white().contains(i) by {
            if 0 <= i < 45 {
                assert(self.cells()[i] == other.cells()[i]);
            }
        }
        assert(self.black() =~= other.black());
        assert(self.white() =~= other.white());
        self.lemma_view_injective(other);
    }

    /// The side on square `i`, if any.
    pub open spec fn spec_piece_at(self, i: int) -> Option<Piece> {
        occupant(self.black(), self.white(), i)
    }

    /// Whether moving the piece on `from` along `d` captures by approach, and
    /// if not, why.
    pub open spec fn approach_check(self, from: int, d: Direction) -> Result<(), IsCaptureReason> {
        match self.spec_piece_at(from) {
            None => Err(IsCaptureReason::FromEmpty),
            Some(moved) => match neighbor(from, d) {
                None => Err(IsCaptureReason::SquareOutOfBounds),
                Some(to) => match neighbor(to, d) {
                    None => Err(IsCaptureReason::CaptureOutOfBounds),
                    Some(target) => match self.spec_piece_at(target) {
                        None => Err(IsCaptureReason::CaptureEmpty),
                        Some(p) => if p == moved {
                            Err(IsCaptureReason::SelfPieceOnCaptureSquare)
                        } else {
                            Ok(())
                        },
                    },
                },
            },
        }
    }

    /// Whether moving the piece on `from` along `d` captures by withdrawal,
    /// and if not, why.
    pub open spec fn withdraw_check(self, from: int, d: Direction) -> Result<(), IsCaptureReason> {
        match self.spec_piece_at(from) {
            None => Err(IsCaptureReason::FromEmpty),
            Some(moved) => match neighbor(from, d.spec_mirror()) {
                None => Err(IsCaptureReason::CaptureOutOfBounds),
                Some(target) => match self.spec_piece_at(target) {
                    None => Err(IsCaptureReason::CaptureEmpty),
                    Some(p) => if p == moved {
                        Err(IsCaptureReason::SelfPieceOnCaptureSquare)
                    } else {
                        Ok(())
                    },
                },
            },
        }
    }

    /// Whether the move is a capture of the given type; with no type, whether it
    /// is exactly one kind of capture (`AmbiguousCapture` when it is both, the
    /// approach reason when it is neither).
    pub open spec fn capture_check(
        self,
        from: int,
        d: Direction,
        capture_type: Option<CaptureType>,
    ) -> Result<(), IsCaptureReason> {
        match capture_type {
            Some(CaptureType::Approach) => self.approach_check(from, d),
            Some(CaptureType::Withdrawal) => self.withdraw_check(from, d),
            None => {
                let a = self.approach_check(from, d);
                let w = self.withdraw_check(from, d);
                if a is Ok && w is Ok {
                    Err(IsCaptureReason::AmbiguousCapture)
                } else if a is Ok {
                    a
                } else if w is Ok {
                    w
                } else {
                    a
                }
            },
        }
    }

    /// The piece of `side` on `from` can capture by moving along `d` with the
    /// given type: it is a capture, and the square moved to is on the board
    /// and empty.
    pub open spec fn capture_available(
        self,
        side: Piece,
        from: int,
        d: Direction,
        capture_type: CaptureType,
    ) -> bool {
        &&& self.spec_piece_at(from) == Some(side)
        &&& self.capture_check(from, d, Some(capture_type)) is Ok
        &&& neighbor(from, d) matches Some(to) && self.spec_piece_at(to) is None
    }

    /// Side `side` has a capture to play.
    pub open spec fn spec_capture_exists(self, side: Piece) -> bool {
        exists|from: int, d: Direction, t: CaptureType|
            0 <= from < 45 && #[trigger] self.capture_available(side, from, d, t)
    }

    /// The squares of side `q` after the piece on `from` steps along `d` to
    /// an on-board square, capturing nothing.
    pub open spec fn after_paika(self, from: int, d: Direction, q: Piece) -> Set<int> {
        let p = self.spec_piece_at(from)->0;
        let to = neighbor(from, d)->0;
        if q == p {
            self.side(p).remove(from).insert(to)
        } else {
            self.side(q).remove(to)
        }
    }

    /// The squares of side `q` after the piece on `from` steps along `d` and
    /// removes the opposing run(s) that `capture_type` names.
    pub open spec fn after_capture(
        self,
        from: int,
        d: Direction,
        capture_type: Option<CaptureType>,
        q: Piece,
    ) -> Set<int> {
        let p = self.spec_piece_at(from)->0;
        let to = neighbor(from, d)->0;
        let opp = self.side(q).remove(to);
        if q == p {
            self.after_paika(from, d, q)
        } else {
            opp.difference(removed_squares(opp, from, to, d, capture_type))
        }
    }

    /// The piece on `from` exists and its step along `d` stays on the board.
    pub open spec fn can_step(self, from: int, d: Direction) -> bool {
        self.spec_piece_at(from) is Some && neighbor(from, d) is Some
    }

    /// The start position: each side fills its two home rows, and the middle
    /// row alternates with the centre left empty.
    pub fn new() -> (r: BaseBoard)
        ensures
            r.wf(),
            r.black() == start_squares(Piece::Black),
            r.white() == start_squares(Piece::White),
    {
        let black = BitBoard::from_bits(BLACK_START);
        let white = BitBoard::from_bits(WHITE_START);
        proof {
            assert(black@ =~= start_squares(Piece::Black));
            assert(white@ =~= start_squares(Piece::White));
            assert forall|i: int| 0 <= i < 45 implies !(#[trigger] bit(BLACK_START, i as u64)
                && bit(WHITE_START, i as u64)) by {
                let j = i as u64;
                assert(j < 45 ==> !(bit(0x1ffffa940000u64, j) && bit(0x52bffffu64, j)))
                    by (bit_vector);
            }
            assert(black@.disjoint(white@));
        }
        BaseBoard { black, white }
    }

    /// The position with no pieces.
    pub fn empty() -> (r: BaseBoard)
        ensures
            r.wf(),
            r.black() == Set::<int>::empty(),
            r.white() == Set::<int>::empty(),
    {
        BaseBoard { black: BitBoard::empty(), white: BitBoard::empty() }
    }

    /// The squares held by `side`.
    pub fn pieces(&self, side: Piece) -> (r: BitBoard)
        requires
            self.wf(),
        ensures
            r.wf(),
            r@ == self.side(side),
    {
        match side {
            Piece::Black => self.black,
            Piece::White => self.white,
        }
    }

    /// Returns the side of the piece on a square, if any.
    pub fn piece_at(&self, at: Square) -> (r: Option<Piece>)
        requires
            self.wf(),
            at.wf(),
        ensures
            r == self.spec_piece_at(at@),
    {
        if self.white.contains(at) {
            Some(Piece::White)
        } else if self.black.contains(at) {
            Some(Piece::Black)
        } else {
            None
        }
    }

    /// Remove a piece from a square, returning its side.
    pub fn remove_piece_at(&mut self, at: Square) -> (r: Option<Piece>)
        requires
            old(self).wf(),
            at.wf(),
        ensures
            final(self).wf(),
            r == old(self).spec_piece_at(at@),
            final(self).black() == old(self).black().remove(at@),
            final(self).white() == old(self).white().remove(at@),
    {
        let piece = self.piece_at(at);
        let p = BitBoard::pos(at);
        self.black = self.black.and_not(&p);
        self.white = self.white.and_not(&p);
        assert(self.black@ =~= old(self).black@.remove(at@));
        assert(self.white@ =~= old(self).white@.remove(at@));
        piece
    }

    /// Set a piece on a square, replacing whatever stood there.
    pub fn set_piece_at(&mut self, piece: Piece, at: Square)
        requires
            old(self).wf(),
            at.wf(),
        ensures
            final(self).wf(),
            final(self).side(piece) == old(self).side(piece).insert(at@),
            final(self).side(piece.spec_other()) == old(self).side(piece.spec_other()).remove(at@),
    {
        let p = BitBoard::pos(at);
        match piece {
            Piece::Black => {
                self.black = self.black.or(&p);
                self.white = self.white.and_not(&p);
            },
            Piece::White => {
                self.white = self.white.or(&p);
                self.black = self.black.and_not(&p);
            },
        }
        assert(p@ =~= set![at@]);
        assert(self.black@.disjoint(self.white@));
        assert(self.side(piece) =~= old(self).side(piece).insert(at@));
        assert(self.side(piece.spec_other()) =~= old(self).side(piece.spec_other()).remove(at@));
    }

    /// Move the piece on `from` one step along `direction`, capturing nothing.
    ///
    /// Fails, leaving the position as it was, with `FromEmpty` when `from` is
    /// empty and with `SquareOutOfBounds` when the step leaves the board.
    pub fn make_paika(&mut self, from: Square, direction: Direction) -> (r: Result<
        (),
        FanoronaError,
    >)
        requires
            old(self).wf(),
            from.wf(),
        ensures
            final(self).wf(),
            old(self).spec_piece_at(from@) is None ==> r == Err::<(), FanoronaError>(
                FanoronaError::MoveError(IsCaptureReason::FromEmpty),
            ),
            old(self).spec_piece_at(from@) is Some && neighbor(from@, direction) is None ==> r
                == Err::<(), FanoronaError>(
                FanoronaError::MoveError(IsCaptureReason::SquareOutOfBounds),
            ),
            r is Err ==> *final(self) == *old(self),
            r is Ok <==> old(self).can_step(from@, direction),
            r is Ok ==> forall|q: Piece| #[trigger] final(self).side(q) == old(self).after_paika(
                from@,
                direction,
                q,
            ),
    {
        let piece = match self.piece_at(from) {
            Some(p) => p,
            None => {
                return Err(FanoronaError::MoveError(IsCaptureReason::FromEmpty));
            },
        };
        let to = match from.translate(direction) {
            Some(t) => t,
            None => {
                return Err(FanoronaError::MoveError(IsCaptureReason::SquareOutOfBounds));
            },
        };
        proof {
            self.lemma_sides_disjoint();
        }
        self.remove_piece_at(from);
        self.set_piece_at(piece, to);
        assert(self.side(piece.spec_other()) =~= old(self).side(piece.spec_other()).remove(
            to@,
        ));
        assert forall|q: Piece| #[trigger] self.side(q) == old(self).after_paika(
            from@,
            direction,
            q,
        ) by {
            if q != piece {
                assert(q == piece.spec_other());
            }
        }
        Ok(())
    }

    /// Test if a given move could result in an approach capture.
    pub fn is_approach_capture(&self, from: Square, direction: Direction) -> (r: Result<
        (),
        IsCaptureReason,
    >)
        requires
            self.wf(),
            from.wf(),
        ensures
            r == self.approach_check(from@, direction),
    {
        let moved_piece = match self.piece_at(from) {
            Some(p) => p,
            None => {
                return Err(IsCaptureReason::FromEmpty);
            },
        };
        let to = match from.translate(direction) {
            Some(t) => t,
            None => {
                return Err(IsCaptureReason::SquareOutOfBounds);
            },
        };
        let approach_sq = match to.translate(direction) {
            Some(t) => t,
            None => {
                return Err(IsCaptureReason::CaptureOutOfBounds);
            },
        };
        match self.piece_at(approach_sq) {
            None => Err(IsCaptureReason::CaptureEmpty),
            Some(piece) => {
                if piece == moved_piece {
                    Err(IsCaptureReason::SelfPieceOnCaptureSquare)
                } else {
                    Ok(())
                }
            },
        }
    }

    /// Test if a given move could result in a withdrawal capture.
    pub fn is_withdraw_capture(&self, from: Square, direction: Direction) -> (r: Result<
        (),
        IsCaptureReason,
    >)
        requires
            self.wf(),
            from.wf(),
        ensures
            r == self.withdraw_check(from@, direction),
    {
        let moved_piece = match self.piece_at(from) {
            Some(p) => p,
            None => {
                return Err(IsCaptureReason::FromEmpty);
            },
        };
        let withdraw_sq = match from.translate(direction.mirror()) {
            Some(t) => t,
            None => {
                return Err(IsCaptureReason::CaptureOutOfBounds);
            },
        };
        match self.piece_at(withdraw_sq) {
            None => Err(IsCaptureReason::CaptureEmpty),
            Some(piece) => {
                if piece == moved_piece {
                    Err(IsCaptureReason::SelfPieceOnCaptureSquare)
                } else {
                    Ok(())
                }
            },
        }
    }

    /// Test if a given move is a capture. With a capture type, whether it is a
    /// capture of that type; without one, whether it is exactly one of the
    /// two, failing with `AmbiguousCapture` when it is both.
    pub fn is_capture(
        &self,
        from: Square,
        direction: Direction,
        capture_type: Option<CaptureType>,
    ) -> (r: Result<(), IsCaptureReason>)
        requires
            self.wf(),
            from.wf(),
        ensures
            r == self.capture_check(from@, direction, capture_type),
    {
        match capture_type {
            Some(CaptureType::Approach) => self.is_approach_capture(from, direction),
            Some(CaptureType::Withdrawal) => self.is_withdraw_capture(from, direction),
            None => {
                let approach = self.is_approach_capture(from, direction);
                let withdraw = self.is_withdraw_capture(from, direction);
                if approach.is_ok() && withdraw.is_ok() {
                    Err(IsCaptureReason::AmbiguousCapture)
                } else if approach.is_ok() {
                    approach
                } else if withdraw.is_ok() {
                    withdraw
                } else {
                    approach
                }
            },
        }
    }

    /// Whether the piece of `side` on `from` can capture along `direction`,
    /// by approach or by withdrawal.
    fn can_capture_along(&self, side: Piece, from: Square, direction: Direction) -> (r: bool)
        requires
            self.wf(),
            from.wf(),
            self.spec_piece_at(from@) == Some(side),
        ensures
            r == (self.capture_available(side, from@, direction, CaptureType::Approach)
                || self.capture_available(side, from@, direction, CaptureType::Withdrawal)),
    {
        let free = match from.translate(direction) {
            Some(to) => self.piece_at(to).is_none(),
            None => false,
        };
        free && (self.is_capture(from, direction, Some(CaptureType::Approach)).is_ok()
            || self.is_capture(from, direction, Some(CaptureType::Withdrawal)).is_ok())
    }

    /// Whether the piece of `side` on `from` has a capture to play.
    fn can_capture_from(&self, side: Piece, from: Square) -> (r: bool)
        requires
            self.wf(),
            from.wf(),
        ensures
            r == exists|d: Direction, t: CaptureType| #[trigger]
                self.capture_available(side, from@, d, t),
    {
        match self.piece_at(from) {
            Some(p) => {
                if p != side {
                    return false;
                }
            },
            None => {
                return false;
            },
        }
        let dirs = Direction::all();
        let mut k: usize = 0;
        while k < 8
            invariant
                self.wf(),
                from.wf(),
                self.spec_piece_at(from@) == Some(side),
                dirs@ == Direction::clockwise(),
                k <= 8,
                forall|j: int, t: CaptureType|
                    0 <= j < k ==> !#[trigger] self.capture_available(side, from@, dirs@[j], t),
            decreases 8 - k,
        {
            if self.can_capture_along(side, from, dirs[k]) {
                proof {
                    if self.capture_available(side, from@, dirs@[k as int], CaptureType::Approach) {
                        assert(self.capture_available(
                            side,
                            from@,
                            dirs@[k as int],
                            CaptureType::Approach,
                        ));
                    } else {
                        assert(self.capture_available(
                            side,
                            from@,
                            dirs@[k as int],
                            CaptureType::Withdrawal,
                        ));
                    }
                }
                return true;
            }
            proof {
                assert forall|j: int, t: CaptureType| 0 <= j < k + 1 implies !#[trigger]
                    self.capture_available(side, from@, dirs@[j], t) by {
                    if j == k {
                        match t {
                            CaptureType::Approach => {},
                            CaptureType::Withdrawal => {},
                        }
                    }
                }
            }
            k = k + 1;
        }
        proof {
            assert forall|d: Direction, t: CaptureType| !#[trigger] self.capture_available(
                side,
                from@,
                d,
                t,
            ) by {
                let j = d.spec_clockwise_index() as int;
                assert(dirs@[j] == d);
            }
        }
        false
    }

    /// Check whether `side` has a capture to play: a piece of its own that,
    /// moving one step to an empty square, captures by approach or withdrawal.
    pub fn capture_exists(&self, side: Piece) -> (r: bool)
        requires
            self.wf(),
        ensures
            r == self.spec_capture_exists(side),
    {
        let all = Square::all();
        let mut i: usize = 0;
        while i < 45
            invariant
                self.wf(),
                i <= 45,
                all@.len() == 45,
                forall|j: int| 0 <= j < 45 ==> #[trigger] all@[j]@ == j,
                forall|from: int, d: Direction, t: CaptureType|
                    0 <= from < i ==> !#[trigger] self.capture_available(side, from, d, t),
            decreases 45 - i,
        {
            let sq = all[i];
            assert(sq@ == i);
            if self.can_capture_from(side, sq) {
                return true;
            }
            i = i + 1;
        }
        false
    }

    /// Carry out a capture: move the piece on `from` one step along
    /// `direction`, then remove the opposing pieces that the capture type
    /// names (both runs when none is given).
    ///
    /// Fails as `make_paika` does, leaving the position as it was.
    pub fn make_capture(
        &mut self,
        from: Square,
        direction: Direction,
        capture_type: Option<CaptureType>,
    ) -> (r: Result<(), FanoronaError>)
        requires
            old(self).wf(),
            from.wf(),
        ensures
            final(self).wf(),
            old(self).spec_piece_at(from@) is None ==> r == Err::<(), FanoronaError>(
                FanoronaError::MoveError(IsCaptureReason::FromEmpty),
            ),
            old(self).spec_piece_at(from@) is Some && neighbor(from@, direction) is None ==> r
                == Err::<(), FanoronaError>(
                FanoronaError::MoveError(IsCaptureReason::SquareOutOfBounds),
            ),
            r is Err ==> *final(self) == *old(self),
            r is Ok <==> old(self).can_step(from@, direction),
            r is Ok ==> forall|q: Piece| #[trigger] final(self).side(q) == old(self).after_capture(
                from@,
                direction,
                capture_type,
                q,
            ),
    {
        let moved_piece = match self.piece_at(from) {
            Some(p) => p,
            None => {
                return Err(FanoronaError::MoveError(IsCaptureReason::FromEmpty));
            },
        };
        let to = match from.translate(direction) {
            Some(t) => t,
            None => {
                return Err(FanoronaError::MoveError(IsCaptureReason::SquareOutOfBounds));
            },
        };
        let _ = self.make_paika(from, direction);
        let opp_side = moved_piece.other();
        let ghost mid = *self;
        assert(mid.side(moved_piece) == old(self).after_paika(from@, direction, moved_piece));
        assert(mid.side(opp_side) == old(self).after_paika(from@, direction, opp_side));
        let opp_pieces = self.pieces(opp_side);
        let capture_mask = match capture_type {
            Some(CaptureType::Approach) => BitBoard::get_capture_mask(opp_pieces, to, direction),
            Some(CaptureType::Withdrawal) => BitBoard::get_capture_mask(
                opp_pieces,
                from,
                direction.mirror(),
            ),
            None => {
                let a = BitBoard::get_capture_mask(opp_pieces, to, direction);
                let w = BitBoard::get_capture_mask(opp_pieces, from, direction.mirror());
                a.or(&w)
            },
        };
        assert(capture_mask@ == removed_squares(opp_pieces@, from@, to@, direction, capture_type));
        let remaining = opp_pieces.and_not(&capture_mask);
        match opp_side {
            Piece::Black => {
                self.black = remaining;
            },
            Piece::White => {
                self.white = remaining;
            },
        }
        assert(self.black@.disjoint(self.white@));
        assert forall|q: Piece| #[trigger] self.side(q) == old(self).after_capture(
            from@,
            direction,
            capture_type,
            q,
        ) by {
            if q != moved_piece {
                assert(q == opp_side);
            }
        }
        Ok(())
    }
}

} // verus!
