use vstd::prelude::*;
use crate::action::{MoveView, move_notation, move_from_notation, lemma_move_round_trip, capture_type_notation};
use crate::bitboard::{sorted_squares, member_of};
use crate::board_notation::{board_notation, board_from_notation, row_cells, row_notations, lemma_board_notation_round_trip, lemma_render_avoids};
use crate::piece::Piece;
use crate::square::{square_notation, square_from_notation, lemma_square_round_trip};
use crate::text::{join, split, lemma_split_join};

verus! {

broadcast use vstd::seq_lib::group_filter_ensures;

/// The notation of the visited squares: `-` when there are none, else the
/// squares in ascending order separated by `,`.
pub open spec fn visited_notation(v: Set<int>) -> Seq<char> {
    if v == Set::<int>::empty() {
        seq!['-']
    } else {
        join(sorted_squares(v).map_values(|i: int| square_notation(i)), ',')
    }
}

/// The squares that a list of squares separated by `,` names.
pub open spec fn squares_from_notation(s: Seq<char>) -> Option<Set<int>> {
    let parts = split(s, ',');
    if forall|k: int| 0 <= k < parts.len() ==> #[trigger] square_from_notation(parts[k]) is Some {
        Some(
            Set::new(
                |i: int|
                    exists|k: int|
                        0 <= k < parts.len() && #[trigger] square_from_notation(parts[k]) == Some(
                            i,
                        ),
            ),
        )
    } else {
        None
    }
}

/// The visited squares that `s` names: none for `-`.
pub open spec fn visited_from_notation(s: Seq<char>) -> Option<Set<int>> {
    if s == seq!['-'] {
        Some(Set::empty())
    } else {
        squares_from_notation(s)
    }
}

/// The notation of the last capture: `-` when there is none.
pub open spec fn last_notation(l: Option<MoveView>) -> Seq<char> {
    match l {
        Some(m) => move_notation(m),
        None => seq!['-'],
    }
}

/// The last capture that `s` names: none for `-`. A capture is a step, so
/// the end of a turn is not read here.
pub open spec fn last_from_notation(s: Seq<char>) -> Option<Option<MoveView>> {
    if s == seq!['-'] {
        Some(None)
    } else {
        match move_from_notation(s) {
            Some(MoveView::Step { from, direction, capture_type }) => Some(
                Some(MoveView::Step { from, direction, capture_type }),
            ),
            _ => None,
        }
    }
}

/// The notation of a game state: board, side to move, visited squares and
/// last capture, separated by single spaces.
pub open spec fn state_notation(
    cells: Seq<Option<Piece>>,
    turn: Piece,
    visited: Set<int>,
    last: Option<MoveView>,
) -> Seq<char> {
    join(
        seq![board_notation(cells), turn.notation(), visited_notation(visited), last_notation(last)],
        ' ',
    )
}

/// The game state that `s` names: exactly four fields separated by single
/// spaces, each of which reads.
pub open spec fn state_from_notation(s: Seq<char>) -> Option<
    (Seq<Option<Piece>>, Piece, Set<int>, Option<MoveView>),
> {
    let parts = split(s, ' ');
    if parts.len() == 4 && board_from_notation(parts[0]) is Some && Piece::from_notation(
        parts[1],
    ) is Some && visited_from_notation(parts[2]) is Some && last_from_notation(parts[3]) is Some {
        Some(
            (
                board_from_notation(parts[0])->0,
                Piece::from_notation(parts[1])->0,
                visited_from_notation(parts[2])->0,
                last_from_notation(parts[3])->0,
            ),
        )
    } else {
        None
    }
}

/// Joining parts that avoid `x` with a separator other than `x` avoids `x`.
proof fn lemma_join_avoids(parts: Seq<Seq<char>>, sep: char, x: char)
    requires
        sep != x,
        forall|i: int| 0 <= i < parts.len() ==> !(#[trigger] parts[i]).contains(x),
    ensures
        !join(parts, sep).contains(x),
    decreases parts.len(),
{
    if parts.len() > 1 {
        let tail = parts.drop_first();
        assert forall|i: int| 0 <= i < tail.len() implies !(#[trigger] tail[i]).contains(x) by {
            assert(tail[i] == parts[i + 1]);
        }
        lemma_join_avoids(tail, sep, x);
        let j = join(parts, sep);
        let a = parts[0] + seq![sep];
        assert(j == a + join(tail, sep));
        if j.contains(x) {
            let k = choose|k: int| 0 <= k < j.len() && j[k] == x;
            if k < parts[0].len() {
                assert(parts[0][k] == x);
            } else if k >= a.len() {
                assert(join(tail, sep)[k - a.len()] == x);
            }
        }
    } else if parts.len() == 1 {
        assert(!parts[0].contains(x));
    }
}

/// The fields of a state's notation hold no space.
proof fn lemma_fields_avoid_space(
    cells: Seq<Option<Piece>>,
    turn: Piece,
    visited: Set<int>,
    last: Option<MoveView>,
)
    requires
        cells.len() == 45,
        forall|i: int| visited.contains(i) ==> 0 <= i < 45,
        last matches Some(m) ==> (m matches MoveView::Step { from, .. } && 0 <= from < 45),
    ensures
        !board_notation(cells).contains(' '),
        !turn.notation().contains(' '),
        !visited_notation(visited).contains(' '),
        !last_notation(last).contains(' '),
{
    let rows = row_notations(cells);
    assert forall|r: int| 0 <= r < rows.len() implies !(#[trigger] rows[r]).contains(' ') by {
        lemma_render_avoids(row_cells(cells, r), 0, ' ');
    }
    lemma_join_avoids(rows, '/', ' ');
    if turn.notation().contains(' ') {
        let k = choose|k: int| 0 <= k < turn.notation().len() && turn.notation()[k] == ' ';
    }
    if visited != Set::<int>::empty() {
        let sq = sorted_squares(visited);
        let parts = sq.map_values(|i: int| square_notation(i));
        assert forall|k: int| 0 <= k < parts.len() implies !(#[trigger] parts[k]).contains(' ') by {
            lemma_sorted_in_range(visited, k);
            let p = parts[k];
            if p.contains(' ') {
                let j = choose|j: int| 0 <= j < p.len() && p[j] == ' ';
            }
        }
        lemma_join_avoids(parts, ',', ' ');
    } else {
        if seq!['-'].contains(' ') {
            let j = choose|j: int| 0 <= j < 1 && seq!['-'][j] == ' ';
        }
    }
    match last {
        Some(m) => {
            let s = move_notation(m);
            if s.contains(' ') {
                let j = choose|j: int| 0 <= j < s.len() && s[j] == ' ';
                match m {
                    MoveView::Step { from, direction, capture_type } => {
                        let a = square_notation(from);
                        let b = direction.notation();
                        assert(s == a + b + capture_type_notation(capture_type));
                        if j >= a.len() + b.len() {
                            assert(capture_type_notation(capture_type)[j - a.len() - b.len()]
                                == ' ');
                        } else if j >= a.len() {
                            assert(b[j - a.len()] == ' ');
                        }
                    },
                    MoveView::EndTurn => {},
                }
            }
        },
        None => {
            if seq!['-'].contains(' ') {
                let j = choose|j: int| 0 <= j < 1 && seq!['-'][j] == ' ';
            }
        },
    }
}

/// The ascending list of a set of squares holds squares of the set, and
/// every square of the set.
proof fn lemma_sorted_in_range(v: Set<int>, k: int)
    requires
        0 <= k < sorted_squares(v).len(),
    ensures
        0 <= sorted_squares(v)[k] < 45,
        v.contains(sorted_squares(v)[k]),
{
    let ids = Seq::new(45, |i: int| i);
    assert(ids.filter(member_of(v)).contains(sorted_squares(v)[k]));
    ids.lemma_filter_contains_rev(member_of(v), sorted_squares(v)[k]);
}

/// Reading the notation of a set of squares back gives the set.
proof fn lemma_visited_round_trip(v: Set<int>)
    requires
        forall|i: int| v.contains(i) ==> 0 <= i < 45,
    ensures
        visited_from_notation(visited_notation(v)) == Some(v),
{
    if v == Set::<int>::empty() {
    } else {
        let ids = Seq::new(45, |i: int| i);
        let sq = sorted_squares(v);
        let parts = sq.map_values(|i: int| square_notation(i));
        assert(exists|x: int| v.contains(x)) by {
            if !(exists|x: int| v.contains(x)) {
                assert(v =~= Set::<int>::empty());
            }
        }
        let x = choose|x: int| v.contains(x);
        assert(ids[x] == x);
        ids.lemma_filter_contains(member_of(v), x);
        assert(sq.len() >= 1);
        assert forall|k: int| 0 <= k < parts.len() implies !(#[trigger] parts[k]).contains(',') by {
            lemma_sorted_in_range(v, k);
            let p = parts[k];
            if p.contains(',') {
                let j = choose|j: int| 0 <= j < p.len() && p[j] == ',';
            }
        }
        lemma_split_join(parts, ',');
        let s = join(parts, ',');
        assert forall|k: int| 0 <= k < parts.len() implies #[trigger] square_from_notation(
            split(s, ',')[k],
        ) == Some(sq[k]) by {
            lemma_sorted_in_range(v, k);
            lemma_square_round_trip(sq[k]);
        }
        let got = squares_from_notation(s)->0;
        assert forall|i: int| got.contains(i) == v.contains(i) by {
            if v.contains(i) {
                assert(ids[i] == i);
                ids.lemma_filter_contains(member_of(v), i);
                let k = choose|k: int| 0 <= k < sq.len() && sq[k] == i;
                assert(square_from_notation(split(s, ',')[k]) == Some(i));
            }
            if got.contains(i) {
                let k = choose|k: int|
                    0 <= k < split(s, ',').len() && #[trigger] square_from_notation(
                        split(s, ',')[k],
                    ) == Some(i);
                lemma_sorted_in_range(v, k);
            }
        }
        assert(got =~= v);
        assert(s.len() >= 2) by {
            if sq.len() == 1 {
                assert(s == parts[0]);
            } else {
                assert(s == parts[0] + seq![','] + join(parts.drop_first(), ','));
            }
        }
    }
}

/// Reading a state's notation back gives the state.
pub proof fn lemma_state_notation_round_trip(
    cells: Seq<Option<Piece>>,
    turn: Piece,
    visited: Set<int>,
    last: Option<MoveView>,
)
    requires
        cells.len() == 45,
        forall|i: int| visited.contains(i) ==> 0 <= i < 45,
        last matches Some(m) ==> (m matches MoveView::Step { from, .. } && 0 <= from < 45),
    ensures
        state_from_notation(state_notation(cells, turn, visited, last)) == Some(
            (cells, turn, visited, last),
        ),
{
    let parts = seq![
        board_notation(cells),
        turn.notation(),
        visited_notation(visited),
        last_notation(last),
    ];
    lemma_fields_avoid_space(cells, turn, visited, last);
    assert forall|i: int| 0 <= i < parts.len() implies !(#[trigger] parts[i]).contains(' ') by {}
    lemma_split_join(parts, ' ');
    lemma_board_notation_round_trip(cells);
    lemma_visited_round_trip(visited);
    match last {
        Some(m) => lemma_move_round_trip(m),
        None => {},
    }
}

} // verus!
