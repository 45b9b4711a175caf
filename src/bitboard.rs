use vstd::prelude::*;
use crate::direction::Direction;
use crate::error::FanoronaError;
use crate::square::{Square, neighbor, lemma_neighbor, lemma_square_view_injective, NUM_SQUARES, square_from_notation, square_notation};
use crate::state_notation::{squares_from_notation, visited_notation};
use crate::text::{join, split, split_at_char, join_strings, push_char};

verus! {

broadcast use lemma_square_view_injective;

/// One more than the largest mask of the board's 45 squares.
pub const BOARD_LIMIT: u64 = 0x2000_0000_0000;

/// Squares of the start position held by Black.
pub const BLACK_START: u64 = 0x1ffffa940000;

/// Squares of the start position held by White.
pub const WHITE_START: u64 = 0x52bffff;

/// Bit `i` of `b` is set.
pub open spec fn bit(b: u64, i: u64) -> bool {
    (b >> i) & 1 == 1
}

/// A measure that one step along `d` from `i` lowers.
pub open spec fn walk_measure(i: int, d: Direction) -> int {
    if d.increment() > 0 {
        45 - i
    } else {
        i
    }
}

/// Every square strictly beyond square `i` along `d`, out to the edge.
pub open spec fn ray_set(i: int, d: Direction) -> Set<int>
    decreases walk_measure(i, d),
{
    match neighbor(i, d) {
        Some(n) => {
            if walk_measure(n, d) < walk_measure(i, d) && 0 <= walk_measure(n, d) {
                ray_set(n, d).insert(n)
            } else {
                Set::empty()
            }
        },
        None => Set::empty(),
    }
}

/// The contiguous run of squares of `opp` that starts next to square `i`
/// along `d`; it ends before the first square that `opp` does not hold, or at
/// the edge.
pub open spec fn capture_run(opp: Set<int>, i: int, d: Direction) -> Set<int>
    decreases walk_measure(i, d),
{
    match neighbor(i, d) {
        Some(n) => {
            if opp.contains(n) && walk_measure(n, d) < walk_measure(i, d) && 0 <= walk_measure(
                n,
                d,
            ) {
                capture_run(opp, n, d).insert(n)
            } else {
                Set::empty()
            }
        },
        None => Set::empty(),
    }
}

/// The square reached from `i` by `k` steps along `d`, if all of them stay on
/// the board.
pub open spec fn nth_step(i: int, d: Direction, k: nat) -> Option<int>
    decreases k,
{
    if k == 0 {
        if 0 <= i < 45 {
            Some(i)
        } else {
            None
        }
    } else {
        match nth_step(i, d, (k - 1) as nat) {
            Some(m) => neighbor(m, d),
            None => None,
        }
    }
}

/// One step along `d` lowers the walk measure and keeps it non-negative.
pub proof fn lemma_walk_measure(i: int, d: Direction)
    ensures
        neighbor(i, d) matches Some(n) ==> 0 <= walk_measure(n, d) < walk_measure(i, d),
{
    lemma_neighbor(i, d);
}

/// Walking `k` steps from `i` is one step to the neighbour `n`, then `k - 1` more.
proof fn lemma_nth_step_shift(i: int, d: Direction, n: int, k: nat)
    requires
        k >= 1,
        neighbor(i, d) == Some(n),
    ensures
        nth_step(i, d, k) == nth_step(n, d, (k - 1) as nat),
    decreases k,
{
    lemma_neighbor(i, d);
    assert(nth_step(i, d, 0) == Some(i));
    assert(nth_step(n, d, 0) == Some(n));
    if k > 1 {
        lemma_nth_step_shift(i, d, n, (k - 1) as nat);
        assert(nth_step(n, d, (k - 1) as nat) == match nth_step(n, d, (k - 2) as nat) {
            Some(m) => neighbor(m, d),
            None => None,
        });
    }
}

/// Every step along a walk lowers the walk measure.
proof fn lemma_nth_step_measure(n: int, d: Direction, m: nat)
    requires
        m >= 1,
        nth_step(n, d, m) is Some,
    ensures
        walk_measure(nth_step(n, d, m)->0, d) < walk_measure(n, d),
    decreases m,
{
    let y = nth_step(n, d, (m - 1) as nat)->0;
    lemma_walk_measure(y, d);
    if m > 1 {
        lemma_nth_step_measure(n, d, (m - 1) as nat);
    }
}

/// A capture never reaches past the first square along the ray that is off
/// the board or not held by the opponent: when step `j` is such a square,
/// no step `k >= j` is in the capture run.
pub proof fn lemma_capture_contiguous(opp: Set<int>, i: int, d: Direction, j: nat, k: nat)
    requires
        1 <= j <= k,
        nth_step(i, d, j) matches Some(y) ==> !opp.contains(y),
    ensures
        nth_step(i, d, k) matches Some(x) ==> !capture_run(opp, i, d).contains(x),
    decreases j,
{
    lemma_walk_measure(i, d);
    match neighbor(i, d) {
        Some(n) => {
            if opp.contains(n) {
                lemma_nth_step_shift(i, d, n, j);
                lemma_nth_step_shift(i, d, n, k);
                if j == 1 {
                    assert(nth_step(n, d, 0) == Some(n));
                } else {
                    lemma_capture_contiguous(opp, n, d, (j - 1) as nat, (k - 1) as nat);
                    if nth_step(i, d, k) is Some {
                        lemma_nth_step_measure(n, d, (k - 1) as nat);
                    }
                }
            }
        },
        None => {},
    }
}

/// The capture run consists of squares of the opponent on the ray.
pub proof fn lemma_capture_on_ray(opp: Set<int>, i: int, d: Direction)
    ensures
        capture_run(opp, i, d).subset_of(opp.intersect(ray_set(i, d))),
    decreases walk_measure(i, d),
{
    lemma_walk_measure(i, d);
    if let Some(n) = neighbor(i, d) {
        lemma_capture_on_ray(opp, n, d);
    }
}

/// Line `k` of the grid of `s`: row `4 - k`, columns left to right, `1`
/// for a held square.
pub open spec fn grid_line(s: Set<int>, k: int) -> Seq<char> {
    Seq::new(9, |c: int| if s.contains((4 - k) * 9 + c) { '1' } else { '0' })
}

/// The grid of `s`: its five lines, row 5 first, separated by newlines.
pub open spec fn grid_notation(s: Set<int>) -> Seq<char> {
    join(Seq::new(5, |k: int| grid_line(s, k)), '\n')
}

/// Membership in `s`, as a predicate.
pub open spec fn member_of(s: Set<int>) -> spec_fn(int) -> bool {
    |i: int| s.contains(i)
}

/// The squares of `s` in ascending order.
pub open spec fn sorted_squares(s: Set<int>) -> Seq<int> {
    Seq::new(45, |i: int| i).filter(member_of(s))
}

/// A set of the board's squares stored as a 64-bit mask: bit `i` set means
/// that the side owning the board has a piece on square `i`. Only bits 0..45
/// are ever set.
#[derive(Debug, Clone, Copy, PartialEq, Eq, Structural)]
pub struct BitBoard {
    bits: u64,
}

impl View for BitBoard {
    type V = Set<int>;

    closed spec fn view(&self) -> Set<int> {
        Set::new(|i: int| 0 <= i < 45 && bit(self.bits, i as u64))
    }
}

proof fn lemma_bit_and(a: u64, b: u64, i: u64)
    by (bit_vector)
    requires
        i < 64,
    ensures
        bit(a & b, i) == (bit(a, i) && bit(b, i)),
        bit(a | b, i) == (bit(a, i) || bit(b, i)),
        bit(a & !b, i) == (bit(a, i) && !bit(b, i)),
{
}

proof fn lemma_bit_single(j: u64, i: u64)
    by (bit_vector)
    requires
        i < 64,
        j < 64,
    ensures
        bit(1u64 << j, i) == (i == j),
        !bit(0u64, i),
{
}

proof fn lemma_limit_closed(a: u64, b: u64, j: u64)
    by (bit_vector)
    requires
        a < 0x2000_0000_0000u64,
        b < 0x2000_0000_0000u64,
        j < 45,
    ensures
        a & b < 0x2000_0000_0000u64,
        a | b < 0x2000_0000_0000u64,
        a & !b < 0x2000_0000_0000u64,
        (1u64 << j) < 0x2000_0000_0000u64,
        a >> 45u64 == 0,
{
}

proof fn lemma_shift_step(a: u64, b: u64, k: u64)
    by (bit_vector)
    requires
        k < 63,
        a >> ((k + 1) as u64) == b >> ((k + 1) as u64),
        bit(a, k) == bit(b, k),
    ensures
        a >> k == b >> k,
{
}

proof fn lemma_shift_zero(a: u64)
    by (bit_vector)
    ensures
        a >> 0u64 == a,
{
}

proof fn lemma_shift_eq(a: u64, b: u64, k: u64)
    requires
        k <= 45,
        a < BOARD_LIMIT,
        b < BOARD_LIMIT,
        forall|i: int| 0 <= i < 45 ==> #[trigger] bit(a, i as u64) == bit(b, i as u64),
    ensures
        a >> k == b >> k,
    decreases 45 - k,
{
    if k == 45 {
        lemma_limit_closed(a, b, 0);
        lemma_limit_closed(b, a, 0);
    } else {
        lemma_shift_eq(a, b, (k + 1) as u64);
        assert(bit(a, (k as int) as u64) == bit(b, (k as int) as u64));
        lemma_shift_step(a, b, k);
    }
}

impl BitBoard {
    /// Only the board's 45 bits are set.
    pub closed spec fn wf(self) -> bool {
        self.bits < BOARD_LIMIT
    }

    /// The squares are squares of the board.
    pub broadcast proof fn lemma_on_board(self, i: int)
        ensures
            #[trigger] self@.contains(i) ==> 0 <= i < 45,
    {
    }

    /// Two well-formed boards with the same squares are equal.
    pub proof fn lemma_view_injective(self, other: BitBoard)
        requires
            self.wf(),
            other.wf(),
            self@ == other@,
        ensures
            self == other,
    {
        assert forall|i: int| 0 <= i < 45 implies #[trigger] bit(self.bits, i as u64) == bit(
            other.bits,
            i as u64,
        ) by {
            assert(self@.contains(i) == other@.contains(i));
            assert(self@.contains(i) == bit(self.bits, i as u64));
            assert(other@.contains(i) == bit(other.bits, i as u64));
        }
        lemma_shift_eq(self.bits, other.bits, 0);
        lemma_shift_zero(self.bits);
        lemma_shift_zero(other.bits);
    }

    /// The empty board.
    pub fn empty() -> (r: BitBoard)
        ensures
            r.wf(),
            r@ == Set::<int>::empty(),
    {
        let r = BitBoard { bits: 0 };
        assert forall|i: int| !r@.contains(i) by {
            if 0 <= i < 45 {
                lemma_bit_single(0, i as u64);
            }
        }
        assert(r@ =~= Set::<int>::empty());
        r
    }

    /// The board that holds exactly the squares of `b` below 45.
    pub fn from_bits(b: u64) -> (r: BitBoard)
        ensures
            r.wf(),
            forall|i: int| 0 <= i < 45 ==> (r@.contains(i) <==> bit(b, i as u64)),
    {
        let r = BitBoard { bits: b & 0x1fff_ffff_ffff };
        assert(b & 0x1fff_ffff_ffffu64 < 0x2000_0000_0000u64) by (bit_vector);
        assert forall|i: int| 0 <= i < 45 implies (r@.contains(i) <==> bit(b, i as u64)) by {
            let j = i as u64;
            assert(j < 45 ==> (bit(b & 0x1fff_ffff_ffffu64, j) == bit(b, j))) by (bit_vector);
        }
        r
    }

    /// The mask: bit `i` is set exactly when square `i` is held.
    pub fn bits(&self) -> (r: u64)
        requires
            self.wf(),
        ensures
            r < BOARD_LIMIT,
            forall|i: int| 0 <= i < 45 ==> (self@.contains(i) <==> bit(r, i as u64)),
    {
        self.bits
    }

    /// Get the bitmask corresponding to a particular square.
    pub fn pos(square: Square) -> (r: BitBoard)
        requires
            square.wf(),
        ensures
            r.wf(),
            r@ == set![square@],
    {
        let j = square.index() as u64;
        let r = BitBoard { bits: 1u64 << j };
        proof {
            lemma_limit_closed(0, 0, j);
            assert forall|i: int| r@.contains(i) <==> i == square@ by {
                if 0 <= i < 45 {
                    lemma_bit_single(j, i as u64);
                }
            }
            assert(r@ =~= set![square@]);
        }
        r
    }

    /// Whether `square` is held.
    pub fn contains(&self, square: Square) -> (r: bool)
        requires
            square.wf(),
        ensures
            r == self@.contains(square@),
    {
        (self.bits >> (square.index() as u64)) & 1 == 1
    }

    /// Whether no square is held.
    pub fn is_empty(&self) -> (r: bool)
        requires
            self.wf(),
        ensures
            r == (self@ == Set::<int>::empty()),
    {
        proof {
            if self.bits == 0 {
                assert forall|i: int| !self@.contains(i) by {
                    if 0 <= i < 45 {
                        lemma_bit_single(0, i as u64);
                    }
                }
                assert(self@ =~= Set::<int>::empty());
            } else {
                let z = BitBoard { bits: 0 };
                assert forall|i: int| !z@.contains(i) by {
                    if 0 <= i < 45 {
                        lemma_bit_single(0, i as u64);
                    }
                }
                assert(z@ =~= Set::<int>::empty());
                if self@ == Set::<int>::empty() {
                    self.lemma_view_injective(z);
                }
            }
        }
        self.bits == 0
    }

    /// The squares held by both boards.
    pub fn and(&self, other: &BitBoard) -> (r: BitBoard)
        requires
            self.wf(),
            other.wf(),
        ensures
            r.wf(),
            r@ == self@.intersect(other@),
    {
        let r = BitBoard { bits: self.bits & other.bits };
        proof {
            lemma_limit_closed(self.bits, other.bits, 0);
            assert forall|i: int| 0 <= i < 45 implies r@.contains(i) == self@.intersect(
                other@,
            ).contains(i) by {
                lemma_bit_and(self.bits, other.bits, i as u64);
            }
            assert(r@ =~= self@.intersect(other@));
        }
        r
    }

    /// The squares held by either board.
    pub fn or(&self, other: &BitBoard) -> (r: BitBoard)
        requires
            self.wf(),
            other.wf(),
        ensures
            r.wf(),
            r@ == self@.union(other@),
    {
        let r = BitBoard { bits: self.bits | other.bits };
        proof {
            lemma_limit_closed(self.bits, other.bits, 0);
            assert forall|i: int| 0 <= i < 45 implies r@.contains(i) == self@.union(
                other@,
            ).contains(i) by {
                lemma_bit_and(self.bits, other.bits, i as u64);
            }
            assert(r@ =~= self@.union(other@));
        }
        r
    }

    /// The squares held by this board and not by `other`.
    pub fn and_not(&self, other: &BitBoard) -> (r: BitBoard)
        requires
            self.wf(),
            other.wf(),
        ensures
            r.wf(),
            r@ == self@.difference(other@),
    {
        let r = BitBoard { bits: self.bits & !other.bits };
        proof {
            lemma_limit_closed(self.bits, other.bits, 0);
            assert forall|i: int| 0 <= i < 45 implies r@.contains(i) == self@.difference(
                other@,
            ).contains(i) by {
                lemma_bit_and(self.bits, other.bits, i as u64);
            }
            assert(r@ =~= self@.difference(other@));
        }
        r
    }

    /// Get the bitmask of every square strictly beyond `square` along
    /// `direction`, out to the edge of the board.
    pub fn ray(square: Square, direction: Direction) -> (r: BitBoard)
        requires
            square.wf(),
        ensures
            r.wf(),
            r@ == ray_set(square@, direction),
    {
        let mut bb = BitBoard::empty();
        let mut cur = square;
        loop
            invariant
                cur.wf(),
                bb.wf(),
                bb@.union(ray_set(cur@, direction)) == ray_set(square@, direction),
            decreases walk_measure(cur@, direction),
        {
            proof {
                lemma_walk_measure(cur@, direction);
            }
            match cur.translate(direction) {
                Some(next) => {
                    let p = BitBoard::pos(next);
                    proof {
                        assert(bb@.union(p@).union(ray_set(next@, direction)) =~= bb@.union(
                            ray_set(cur@, direction),
                        ));
                    }
                    bb = bb.or(&p);
                    cur = next;
                },
                None => {
                    assert(bb@ =~= bb@.union(ray_set(cur@, direction)));
                    return bb;
                },
            }
        }
    }

    /// Get the mask of the contiguous run of the opponent's pieces that starts
    /// next to `ray_start` along `ray_dir`: it stops at the first square that
    /// the opponent does not hold, or at the edge.
    pub fn get_capture_mask(opponent_bb: BitBoard, ray_start: Square, ray_dir: Direction) -> (r:
        BitBoard)
        requires
            opponent_bb.wf(),
            ray_start.wf(),
        ensures
            r.wf(),
            r@ == capture_run(opponent_bb@, ray_start@, ray_dir),
    {
        let mut bb = BitBoard::empty();
        let mut cur = ray_start;
        loop
            invariant
                cur.wf(),
                bb.wf(),
                opponent_bb.wf(),
                bb@.union(capture_run(opponent_bb@, cur@, ray_dir)) == capture_run(
                    opponent_bb@,
                    ray_start@,
                    ray_dir,
                ),
            decreases walk_measure(cur@, ray_dir),
        {
            proof {
                lemma_walk_measure(cur@, ray_dir);
            }
            match cur.translate(ray_dir) {
                Some(next) => {
                    if opponent_bb.contains(next) {
                        let p = BitBoard::pos(next);
                        proof {
                            assert(bb@.union(p@).union(capture_run(opponent_bb@, next@, ray_dir))
                                =~= bb@.union(capture_run(opponent_bb@, cur@, ray_dir)));
                        }
                        bb = bb.or(&p);
                        cur = next;
                    } else {
                        assert(bb@ =~= bb@.union(capture_run(opponent_bb@, cur@, ray_dir)));
                        return bb;
                    }
                },
                None => {
                    assert(bb@ =~= bb@.union(capture_run(opponent_bb@, cur@, ray_dir)));
                    return bb;
                },
            }
        }
    }

    /// Get the list of squares that are held, in ascending index order.
    pub fn as_squares(&self) -> (r: Vec<Square>)
        requires
            self.wf(),
        ensures
            forall|k: int| 0 <= k < r@.len() ==> #[trigger] r@[k].wf(),
            r@.map_values(|q: Square| q@) == sorted_squares(self@),
    {
        let all = Square::all();
        let mut squares: Vec<Square> = Vec::new();
        let mut i: usize = 0;
        while i < NUM_SQUARES
            invariant
                i <= 45,
                all@.len() == 45,
                forall|j: int| 0 <= j < 45 ==> #[trigger] all@[j]@ == j,
                forall|k: int| 0 <= k < squares@.len() ==> #[trigger] squares@[k].wf(),
                squares@.map_values(|q: Square| q@) == Seq::new(i as nat, |j: int| j).filter(
                    member_of(self@),
                ),
            decreases 45 - i,
        {
            let sq = all[i];
            assert(sq@ == i);
            let ghost prev = squares@;
            if self.contains(sq) {
                squares.push(sq);
            }
            i = i + 1;
            proof {
                let ids = Seq::new(i as nat, |j: int| j);
                reveal(Seq::filter);
                assert(ids.drop_last() =~= Seq::new((i - 1) as nat, |j: int| j));
                assert(ids.last() == i - 1);
                if self@.contains(i - 1) {
                    assert(squares@.map_values(|q: Square| q@) =~= prev.map_values(|q: Square| q@).push(
                        i - 1,
                    ));
                } else {
                    assert(squares@ == prev);
                }
                assert forall|k: int| 0 <= k < squares@.len() implies #[trigger] squares@[k].wf() by {
                    if k < prev.len() {
                        assert(prev[k].wf());
                        assert(squares@[k] == prev[k]);
                    } else {
                        assert(squares@[k] == sq);
                    }
                }
            }
        }
        squares
    }

    /// Parse a list of squares separated by `,`, such as `A1,B2,C3`, into
    /// the board holding them; `TryFromStrError` if a piece names no square.
    pub fn try_from(value: &str) -> (r: Result<BitBoard, FanoronaError>)
        ensures
            squares_from_notation(value@) matches Some(v) ==> (r matches Ok(b) && b.wf() && b@
                == v),
            squares_from_notation(value@) is None ==> r == Err::<BitBoard, FanoronaError>(
                FanoronaError::TryFromStrError,
            ),
    {
        let parts = split_at_char(value, ',');
        let ghost ps = split(value@, ',');
        let mut bb = BitBoard::empty();
        let mut k: usize = 0;
        while k < parts.len()
            invariant
                ps == split(value@, ','),
                parts@.len() == ps.len(),
                forall|j: int| 0 <= j < parts@.len() ==> #[trigger] parts@[j]@ == ps[j],
                k <= parts@.len(),
                bb.wf(),
                forall|j: int| 0 <= j < k ==> #[trigger] square_from_notation(ps[j]) is Some,
                bb@ == Set::new(
                    |i: int|
                        exists|j: int|
                            0 <= j < k && #[trigger] square_from_notation(ps[j]) == Some(i),
                ),
            decreases parts@.len() - k,
        {
            let sq = match Square::from_str(parts[k].as_str()) {
                Some(sq) => sq,
                None => {
                    return Err(FanoronaError::TryFromStrError);
                },
            };
            assert(square_from_notation(ps[k as int]) == Some(sq@));
            let ghost prev = bb@;
            bb = bb.or(&BitBoard::pos(sq));
            k = k + 1;
            assert(bb@ =~= Set::new(
                |i: int|
                    exists|j: int| 0 <= j < k && #[trigger] square_from_notation(ps[j]) == Some(i),
            )) by {
                assert forall|i: int| bb@.contains(i) implies exists|j: int|
                    0 <= j < k && #[trigger] square_from_notation(ps[j]) == Some(i) by {
                    if i == sq@ {
                        assert(square_from_notation(ps[k - 1]) == Some(i));
                    }
                }
            }
        }
        Ok(bb)
    }

    /// The notation of the squares held: `-` when there are none, else the
    /// squares in ascending order separated by `,`.
    pub fn to_squares_string(&self) -> (r: String)
        requires
            self.wf(),
        ensures
            r@ == visited_notation(self@),
    {
        if self.is_empty() {
            proof {
                reveal_strlit("-");
            }
            return String::from_str("-");
        }
        let squares = self.as_squares();
        let mut texts: Vec<String> = Vec::new();
        let mut k: usize = 0;
        while k < squares.len()
            invariant
                forall|j: int| 0 <= j < squares@.len() ==> #[trigger] squares@[j].wf(),
                k <= squares@.len(),
                texts@.len() == k,
                forall|j: int| 0 <= j < k ==> #[trigger] texts@[j]@ == square_notation(
                    squares@[j]@,
                ),
            decreases squares@.len() - k,
        {
            texts.push(squares[k].to_string());
            k = k + 1;
        }
        let r = join_strings(&texts, ',');
        proof {
            let sv = squares@.map_values(|q: Square| q@);
            assert(texts@.map_values(|t: String| t@) =~= sorted_squares(self@).map_values(
                |i: int| square_notation(i),
            )) by {
                assert forall|j: int| #![trigger texts@[j]] 0 <= j < texts@.len() implies texts@.map_values(
                    |t: String| t@,
                )[j] == sorted_squares(self@).map_values(|i: int| square_notation(i))[j] by {
                    assert(sv[j] == squares@[j]@);
                }
            }
        }
        r
    }

    /// The mask as a 5 x 9 grid of `0` and `1`, row 5 at the top, one line
    /// per row.
    pub fn to_string(&self) -> (r: String)
        requires
            self.wf(),
        ensures
            r@ == grid_notation(self@),
    {
        let mut lines: Vec<String> = Vec::new();
        let mut k: usize = 0;
        while k < 5
            invariant
                self.wf(),
                k <= 5,
                lines@.len() == k,
                forall|j: int| 0 <= j < k ==> #[trigger] lines@[j]@ == grid_line(self@, j),
            decreases 5 - k,
        {
            let mut line = String::new();
            let mut c: usize = 0;
            while c < 9
                invariant
                    self.wf(),
                    k < 5,
                    c <= 9,
                    line@ == grid_line(self@, k as int).subrange(0, c as int),
                decreases 9 - c,
            {
                let sq = match Square::new((4 - k) * 9 + c) {
                    Ok(sq) => sq,
                    Err(_) => {
                        return String::new();
                    },
                };
                push_char(&mut line, if self.contains(sq) { '1' } else { '0' });
                c = c + 1;
                assert(line@ =~= grid_line(self@, k as int).subrange(0, c as int));
            }
            assert(line@ =~= grid_line(self@, k as int));
            lines.push(line);
            k = k + 1;
        }
        let r = join_strings(&lines, '\n');
        assert(lines@.map_values(|t: String| t@) =~= Seq::new(5, |j: int| grid_line(self@, j)));
        r
    }
}

} // verus!
