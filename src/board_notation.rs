use vstd::prelude::*;
use crate::base_board::BaseBoard;
use crate::direction::{same_letter, is_letter};
use crate::error::FanoronaError;
use crate::piece::Piece;
use crate::square::{Square, lemma_square_view_injective};
use crate::text::{join, split, split_at_char, join_strings, lemma_split_join, push_char, append_chars};

verus! {

broadcast use lemma_square_view_injective;

/// The digit for a run of `n` empty squares.
pub open spec fn digit_char(n: int) -> char {
    ('0' as int + n) as char
}

/// The digit for a pending run of `e` empty squares, or nothing when `e == 0`.
pub open spec fn run_notation(e: int) -> Seq<char> {
    if e > 0 {
        seq![digit_char(e)]
    } else {
        Seq::empty()
    }
}

/// The notation of a row of cells, after `e` empty squares not yet written:
/// `W` or `B` for a piece, a digit for each run of empty squares.
pub open spec fn render_cells(cells: Seq<Option<Piece>>, e: int) -> Seq<char>
    decreases cells.len(),
{
    if cells.len() == 0 {
        run_notation(e)
    } else {
        match cells[0] {
            None => render_cells(cells.drop_first(), e + 1),
            Some(p) => run_notation(e) + p.notation() + render_cells(cells.drop_first(), 0),
        }
    }
}

/// The cells a single character stands for: a piece for `W` or `B` (either
/// case), that many empty squares for a digit `1`..`9`.
pub open spec fn token_cells(c: char) -> Option<Seq<Option<Piece>>> {
    if same_letter(c, 'W') {
        Some(seq![Some(Piece::White)])
    } else if same_letter(c, 'B') {
        Some(seq![Some(Piece::Black)])
    } else if '1' <= c <= '9' {
        Some(Seq::new((c as int - '0' as int) as nat, |i: int| None::<Piece>))
    } else {
        None
    }
}

/// The cells that a row's notation describes.
pub open spec fn parse_cells(s: Seq<char>) -> Option<Seq<Option<Piece>>>
    decreases s.len(),
{
    if s.len() == 0 {
        Some(Seq::empty())
    } else {
        match (parse_cells(s.drop_last()), token_cells(s.last())) {
            (Some(t), Some(u)) => Some(t + u),
            _ => None,
        }
    }
}

/// The cells of row `r` of a 45-cell board.
pub open spec fn row_cells(cells: Seq<Option<Piece>>, r: int) -> Seq<Option<Piece>> {
    cells.subrange(9 * r, 9 * r + 9)
}

/// The notations of the five rows, row 1 first.
pub open spec fn row_notations(cells: Seq<Option<Piece>>) -> Seq<Seq<char>> {
    Seq::new(5, |r: int| render_cells(row_cells(cells, r), 0))
}

/// The notation of a board given by its 45 cells: the rows joined by `/`,
/// such as `WWWWWWWWW/WWWWWWWWW/BWBW1BWBW/BBBBBBBBB/BBBBBBBBB`.
pub open spec fn board_notation(cells: Seq<Option<Piece>>) -> Seq<char> {
    join(row_notations(cells), '/')
}

/// The 45 cells that a board notation describes: five rows separated by `/`,
/// each of exactly nine squares.
pub open spec fn board_from_notation(s: Seq<char>) -> Option<Seq<Option<Piece>>> {
    let rows = split(s, '/');
    if rows.len() == 5 && forall|r: int|
        0 <= r < 5 ==> ((#[trigger] parse_cells(rows[r])) matches Some(c) && c.len() == 9) {
        Some(Seq::new(45, |i: int| parse_cells(rows[i / 9])->0[i % 9]))
    } else {
        None
    }
}

/// Reading two texts in a row gives their cells in a row.
proof fn lemma_parse_concat(a: Seq<char>, b: Seq<char>)
    requires
        parse_cells(a) is Some,
        parse_cells(b) is Some,
    ensures
        parse_cells(a + b) == Some(parse_cells(a)->0 + parse_cells(b)->0),
    decreases b.len(),
{
    if b.len() == 0 {
        assert(a + b =~= a);
        assert(parse_cells(a)->0 + parse_cells(b)->0 =~= parse_cells(a)->0);
    } else {
        lemma_parse_concat(a, b.drop_last());
        assert((a + b).drop_last() =~= a + b.drop_last());
        assert((a + b).last() == b.last());
        let pa = parse_cells(a)->0;
        let pb = parse_cells(b.drop_last())->0;
        let u = token_cells(b.last())->0;
        assert(pa + pb + u =~= pa + (pb + u));
    }
}

/// Reading a rendered row gives back its cells, after the pending empties.
proof fn lemma_parse_render(cells: Seq<Option<Piece>>, e: int)
    requires
        0 <= e,
        e + cells.len() <= 9,
    ensures
        parse_cells(render_cells(cells, e)) == Some(
            Seq::new(e as nat, |i: int| None::<Piece>) + cells,
        ),
    decreases cells.len(),
{
    let empties = Seq::new(e as nat, |i: int| None::<Piece>);
    assert(parse_cells(run_notation(e)) == Some(empties)) by {
        if e > 0 {
            reveal_with_fuel(parse_cells, 2);
            assert(seq![digit_char(e)].drop_last() =~= Seq::<char>::empty());
            assert(seq![digit_char(e)].last() == digit_char(e));
            assert(token_cells(digit_char(e)) == Some(empties));
            assert(Seq::<Option<Piece>>::empty() + empties =~= empties);
        } else {
            assert(empties =~= Seq::<Option<Piece>>::empty());
        }
    }
    if cells.len() == 0 {
        assert(empties + cells =~= empties);
    } else {
        let rest = cells.drop_first();
        match cells[0] {
            None => {
                lemma_parse_render(rest, e + 1);
                assert(Seq::new((e + 1) as nat, |i: int| None::<Piece>) + rest =~= empties
                    + cells);
            },
            Some(p) => {
                lemma_parse_render(rest, 0);
                let z = Seq::new(0, |i: int| None::<Piece>);
                assert(z + rest =~= rest);
                let l = p.notation();
                assert(parse_cells(l) == Some(seq![Some(p)])) by {
                    reveal_with_fuel(parse_cells, 2);
                    assert(l.drop_last() =~= Seq::<char>::empty());
                    assert(Seq::<Option<Piece>>::empty() + seq![Some(p)] =~= seq![Some(p)]);
                }
                lemma_parse_concat(run_notation(e), l);
                lemma_parse_concat(run_notation(e) + l, render_cells(rest, 0));
                assert(empties + seq![Some(p)] + rest =~= empties + cells);
            },
        }
    }
}

/// A rendered row holds only piece letters and digits.
pub proof fn lemma_render_avoids(cells: Seq<Option<Piece>>, e: int, x: char)
    requires
        0 <= e,
        e + cells.len() <= 9,
        x != 'W' && x != 'B' && !('1' <= x <= '9'),
    ensures
        !render_cells(cells, e).contains(x),
    decreases cells.len(),
{
    if cells.len() > 0 {
        let rest = cells.drop_first();
        match cells[0] {
            None => lemma_render_avoids(rest, e + 1, x),
            Some(p) => {
                lemma_render_avoids(rest, 0, x);
                let s = render_cells(cells, e);
                let a = run_notation(e) + p.notation();
                assert(s == a + render_cells(rest, 0));
                if s.contains(x) {
                    let k = choose|k: int| 0 <= k < s.len() && s[k] == x;
                    if k >= a.len() {
                        assert(render_cells(rest, 0)[k - a.len()] == x);
                    }
                }
            },
        }
    }
}

/// Reading a board's notation back gives its cells.
pub proof fn lemma_board_notation_round_trip(cells: Seq<Option<Piece>>)
    requires
        cells.len() == 45,
    ensures
        board_from_notation(board_notation(cells)) == Some(cells),
{
    let rows = row_notations(cells);
    assert forall|r: int| 0 <= r < rows.len() implies !(#[trigger] rows[r]).contains('/') by {
        lemma_render_avoids(row_cells(cells, r), 0, '/');
    }
    lemma_split_join(rows, '/');
    assert forall|r: int| 0 <= r < 5 implies (#[trigger] parse_cells(rows[r])) == Some(
        row_cells(cells, r),
    ) by {
        lemma_parse_render(row_cells(cells, r), 0);
        assert(Seq::new(0, |i: int| None::<Piece>) + row_cells(cells, r) =~= row_cells(cells, r));
    }
    assert(Seq::new(45, |i: int| parse_cells(rows[i / 9])->0[i % 9]) =~= cells);
}

/// Once a prefix of a row's text names no cells, the whole text names none.
proof fn lemma_parse_prefix_none(s: Seq<char>, i: int)
    requires
        0 <= i <= s.len(),
        parse_cells(s.subrange(0, i)) is None,
    ensures
        parse_cells(s) is None,
    decreases s.len() - i,
{
    if i < s.len() {
        assert(s.drop_last().subrange(0, i) =~= s.subrange(0, i));
        lemma_parse_prefix_none(s.drop_last(), i);
    } else {
        assert(s.subrange(0, i) =~= s);
    }
}

/// The cells that a row's text names, or `None` for a character that is not
/// `W`, `B` (either case) or a digit `1`..`9`.
pub fn parse_row(s: &str) -> (r: Option<Vec<Option<Piece>>>)
    ensures
        r matches Some(v) ==> parse_cells(s@) == Some(v@),
        r is None ==> parse_cells(s@) is None,
{
    let n = s.unicode_len();
    let mut cells: Vec<Option<Piece>> = Vec::new();
    let mut i: usize = 0;
    assert(s@.subrange(0, 0) =~= Seq::<char>::empty());
    while i < n
        invariant
            n == s@.len(),
            i <= n,
            parse_cells(s@.subrange(0, i as int)) == Some(cells@),
        decreases n - i,
    {
        let c = s.get_char(i);
        let ghost prev = cells@;
        proof {
            assert(s@.subrange(0, i + 1).drop_last() =~= s@.subrange(0, i as int));
            assert(s@.subrange(0, i + 1).last() == c);
        }
        if is_letter(c, 'W') {
            cells.push(Some(Piece::White));
            assert(cells@ =~= prev + seq![Some(Piece::White)]);
        } else if is_letter(c, 'B') {
            cells.push(Some(Piece::Black));
            assert(cells@ =~= prev + seq![Some(Piece::Black)]);
        } else if '1' <= c && c <= '9' {
            let d = (c as u32 - 48) as usize;
            let mut k: usize = 0;
            while k < d
                invariant
                    k <= d,
                    cells@ == prev + Seq::new(k as nat, |j: int| None::<Piece>),
                decreases d - k,
            {
                cells.push(None);
                k = k + 1;
                assert(cells@ =~= prev + Seq::new(k as nat, |j: int| None::<Piece>));
            }
            assert(token_cells(c) == Some(Seq::new(d as nat, |j: int| None::<Piece>)));
        } else {
            proof {
                lemma_parse_prefix_none(s@, i + 1);
            }
            return None;
        }
        i = i + 1;
    }
    assert(s@.subrange(0, i as int) =~= s@);
    Some(cells)
}

impl BaseBoard {
    /// The notation of row `r`.
    fn row_to_string(&self, r: usize) -> (out: String)
        requires
            self.wf(),
            r < 5,
        ensures
            out@ == render_cells(row_cells(self.cells(), r as int), 0),
    {
        let ghost row = row_cells(self.cells(), r as int);
        let mut out = String::new();
        let mut e: usize = 0;
        let mut c: usize = 0;
        proof {
            assert(row.subrange(0, 9) =~= row);
            assert(out@ + render_cells(row, 0) =~= render_cells(row, 0));
        }
        while c < 9
            invariant
                self.wf(),
                r < 5,
                row == row_cells(self.cells(), r as int),
                c <= 9,
                e <= c,
                out@ + render_cells(row.subrange(c as int, 9), e as int) == render_cells(row, 0),
            decreases 9 - c,
        {
            let sq = match Square::from_tuple((r, c)) {
                Ok(sq) => sq,
                Err(_) => {
                    return out;
                },
            };
            let ghost rest = row.subrange(c + 1, 9);
            assert(row.subrange(c as int, 9).drop_first() =~= rest);
            assert(row.subrange(c as int, 9)[0] == row[c as int]);
            assert(row[c as int] == self.spec_piece_at(sq@));
            match self.piece_at(sq) {
                None => {
                    e = e + 1;
                },
                Some(p) => {
                    let ghost before = out@;
                    if e > 0 {
                        push_char(&mut out, (48 + e as u8) as char);
                    }
                    append_chars(&mut out, &p.to_string());
                    assert(out@ =~= before + run_notation(e as int) + p.notation());
                    assert(out@ + render_cells(rest, 0) =~= before + render_cells(
                        row.subrange(c as int, 9),
                        e as int,
                    ));
                    e = 0;
                },
            }
            c = c + 1;
        }
        let ghost before = out@;
        if e > 0 {
            push_char(&mut out, (48 + e as u8) as char);
        }
        assert(out@ =~= before + run_notation(e as int));
        out
    }

    /// The notation of the position: five rows, row 1 first, separated by
    /// `/`; `W` and `B` for pieces, a digit for each run of empty squares.
    pub fn to_string(&self) -> (r: String)
        requires
            self.wf(),
        ensures
            r@ == board_notation(self.cells()),
    {
        let mut rows: Vec<String> = Vec::new();
        let mut r: usize = 0;
        while r < 5
            invariant
                self.wf(),
                r <= 5,
                rows@.len() == r,
                forall|k: int| 0 <= k < r ==> #[trigger] rows@[k]@ == row_notations(self.cells())[k],
            decreases 5 - r,
        {
            let text = self.row_to_string(r);
            rows.push(text);
            r = r + 1;
        }
        let out = join_strings(&rows, '/');
        assert(rows@.map_values(|t: String| t@) =~= row_notations(self.cells()));
        out
    }

    /// Parse a board notation: five rows separated by `/`, each of exactly
    /// nine squares written with `W`, `B` (either case) and digits `1`..`9`
    /// for runs of empty squares. Anything else is a `TryFromStrError`.
    pub fn try_from(board_str: &str) -> (r: Result<BaseBoard, FanoronaError>)
        ensures
            board_from_notation(board_str@) matches Some(c) ==> (r matches Ok(b) && b.wf()
                && b.cells() == c),
            board_from_notation(board_str@) is None ==> r == Err::<BaseBoard, FanoronaError>(
                FanoronaError::TryFromStrError,
            ),
    {
        let rows = split_at_char(board_str, '/');
        let ghost parts = split(board_str@, '/');
        if rows.len() != 5 {
            return Err(FanoronaError::TryFromStrError);
        }
        let ghost target = Seq::new(45, |i: int| parse_cells(parts[i / 9])->0[i % 9]);
        let mut board = BaseBoard::empty();
        let mut r: usize = 0;
        while r < 5
            invariant
                parts == split(board_str@, '/'),
                parts.len() == 5,
                rows@.len() == 5,
                forall|k: int| 0 <= k < 5 ==> #[trigger] rows@[k]@ == parts[k],
                target == Seq::new(45, |i: int| parse_cells(parts[i / 9])->0[i % 9]),
                r <= 5,
                board.wf(),
                forall|k: int| 0 <= k < r ==> ((#[trigger] parse_cells(parts[k])) matches Some(c)
                    && c.len() == 9),
                forall|i: int| 0 <= i < 9 * r ==> #[trigger] board.spec_piece_at(i) == target[i],
                forall|i: int| 9 * r <= i ==> #[trigger] board.spec_piece_at(i) is None,
            decreases 5 - r,
        {
            let cells = match parse_row(rows[r].as_str()) {
                Some(c) => c,
                None => {
                    return Err(FanoronaError::TryFromStrError);
                },
            };
            if cells.len() != 9 {
                return Err(FanoronaError::TryFromStrError);
            }
            assert(parse_cells(parts[r as int]) == Some(cells@));
            let mut c: usize = 0;
            while c < 9
                invariant
                    parts == split(board_str@, '/'),
                    parts.len() == 5,
                    target == Seq::new(45, |i: int| parse_cells(parts[i / 9])->0[i % 9]),
                    parse_cells(parts[r as int]) == Some(cells@),
                    cells@.len() == 9,
                    r < 5,
                    c <= 9,
                    board.wf(),
                    forall|i: int| 0 <= i < 9 * r + c ==> #[trigger] board.spec_piece_at(i)
                        == target[i],
                    forall|i: int| 9 * r + c <= i ==> #[trigger] board.spec_piece_at(i) is None,
                decreases 9 - c,
            {
                let sq = match Square::from_tuple((r, c)) {
                    Ok(sq) => sq,
                    Err(_) => {
                        return Err(FanoronaError::TryFromStrError);
                    },
                };
                let ghost i0 = 9 * r + c;
                assert(target[i0] == cells@[c as int]);
                match cells[c] {
                    Some(p) => {
                        let ghost prev = board;
                        board.set_piece_at(p, sq);
                        proof {
                            assert forall|i: int| i != i0 implies #[trigger] board.spec_piece_at(i)
                                == prev.spec_piece_at(i) by {
                                assert(board.side(p).contains(i) == prev.side(p).contains(i));
                                assert(board.side(p.spec_other()).contains(i) == prev.side(
                                    p.spec_other(),
                                ).contains(i));
                                match p {
                                    Piece::Black => {},
                                    Piece::White => {},
                                }
                            }
                            assert(board.side(p).contains(i0));
                            assert(!board.side(p.spec_other()).contains(i0));
                            match p {
                                Piece::Black => {},
                                Piece::White => {},
                            }
                            assert(board.spec_piece_at(i0) == Some(p));
                        }
                    },
                    None => {},
                }
                c = c + 1;
            }
            r = r + 1;
        }
        proof {
            assert(board_from_notation(board_str@) == Some(target));
            assert(board.cells() =~= target);
        }
        Ok(board)
    }
}

/// Reading a position's notation back gives the position: the notation names
/// the position's cells, and a well-formed position is determined by its cells.
pub proof fn lemma_position_round_trip(b: BaseBoard, b2: BaseBoard)
    requires
        b.wf(),
        b2.wf(),
        board_from_notation(board_notation(b.cells())) == Some(b2.cells()),
    ensures
        b2 == b,
{
    lemma_board_notation_round_trip(b.cells());
    b.lemma_cells_injective(b2);
}

} // verus!
