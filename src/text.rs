use vstd::prelude::*;

verus! {

/// Relies on `String::push`: the character is appended at the end.
#[verifier::external_body]
pub(crate) fn push_char(s: &mut String, c: char)
    ensures
        final(s)@ == old(s)@.push(c),
{
    s.push(c);
}

/// The characters of `s`, in order.
pub fn chars_of(s: &str) -> (r: Vec<char>)
    ensures
        r@ == s@,
{
    let n = s.unicode_len();
    let mut r: Vec<char> = Vec::new();
    let mut i: usize = 0;
    while i < n
        invariant
            n == s@.len(),
            i <= n,
            r@ == s@.subrange(0, i as int),
        decreases n - i,
    {
        r.push(s.get_char(i));
        i = i + 1;
    }
    assert(r@ =~= s@);
    r
}

/// Appends every character of `t` to `s`.
pub fn append_chars(s: &mut String, t: &String)
    ensures
        final(s)@ == old(s)@ + t@,
{
    let cs = chars_of(t.as_str());
    let mut i: usize = 0;
    while i < cs.len()
        invariant
            cs@ == t@,
            i <= cs@.len(),
            s@ == old(s)@ + t@.subrange(0, i as int),
        decreases cs@.len() - i,
    {
        push_char(s, cs[i]);
        i = i + 1;
        assert(s@ =~= old(s)@ + t@.subrange(0, i as int));
    }
    assert(t@.subrange(0, i as int) =~= t@);
}

/// The parts joined into one text, with `sep` between neighbours.
pub open spec fn join(parts: Seq<Seq<char>>, sep: char) -> Seq<char>
    decreases parts.len(),
{
    if parts.len() == 0 {
        Seq::empty()
    } else if parts.len() == 1 {
        parts[0]
    } else {
        parts[0] + seq![sep] + join(parts.drop_first(), sep)
    }
}

/// The pieces of `s` between the occurrences of `sep`; a text without `sep`
/// is one piece.
pub open spec fn split(s: Seq<char>, sep: char) -> Seq<Seq<char>>
    decreases s.len(),
{
    if s.len() == 0 {
        seq![Seq::empty()]
    } else {
        let t = split(s.drop_first(), sep);
        if s[0] == sep {
            seq![Seq::<char>::empty()] + t
        } else {
            t.update(0, seq![s[0]] + t[0])
        }
    }
}

/// `split` always gives at least one piece.
pub proof fn lemma_split_nonempty(s: Seq<char>, sep: char)
    ensures
        split(s, sep).len() >= 1,
    decreases s.len(),
{
    if s.len() > 0 {
        lemma_split_nonempty(s.drop_first(), sep);
    }
}

/// A prefix without `sep` joins the first piece.
pub proof fn lemma_split_prefix(a: Seq<char>, b: Seq<char>, sep: char)
    requires
        !a.contains(sep),
    ensures
        split(a + b, sep) == split(b, sep).update(0, a + split(b, sep)[0]),
    decreases a.len(),
{
    lemma_split_nonempty(b, sep);
    if a.len() == 0 {
        assert(a + b =~= b);
        assert(a + split(b, sep)[0] =~= split(b, sep)[0]);
        assert(split(b, sep).update(0, split(b, sep)[0]) =~= split(b, sep));
    } else {
        let rest = a.drop_first();
        assert(!rest.contains(sep)) by {
            if rest.contains(sep) {
                let k = choose|k: int| 0 <= k < rest.len() && rest[k] == sep;
                assert(a[k + 1] == sep);
            }
        }
        lemma_split_prefix(rest, b, sep);
        assert((a + b).drop_first() =~= rest + b);
        assert(a[0] != sep) by {
            if a[0] == sep {
                assert(a.contains(sep));
            }
        }
        lemma_split_nonempty(rest + b, sep);
        assert(seq![a[0]] + (rest + split(b, sep)[0]) =~= a + split(b, sep)[0]);
        assert(split(a + b, sep) =~= split(b, sep).update(0, a + split(b, sep)[0]));
    }
}

/// Splitting joined parts that hold no `sep` gives the parts back.
pub proof fn lemma_split_join(parts: Seq<Seq<char>>, sep: char)
    requires
        parts.len() >= 1,
        forall|i: int| 0 <= i < parts.len() ==> !(#[trigger] parts[i]).contains(sep),
    ensures
        split(join(parts, sep), sep) == parts,
    decreases parts.len(),
{
    if parts.len() == 1 {
        lemma_split_prefix(parts[0], Seq::empty(), sep);
        assert(parts[0] + Seq::<char>::empty() =~= parts[0]);
        assert(split(parts[0], sep) =~= parts);
    } else {
        let tail = parts.drop_first();
        assert forall|i: int| 0 <= i < tail.len() implies !(#[trigger] tail[i]).contains(sep) by {
            assert(tail[i] == parts[i + 1]);
        }
        lemma_split_join(tail, sep);
        let rest = seq![sep] + join(tail, sep);
        assert(parts[0] + seq![sep] + join(tail, sep) =~= parts[0] + rest);
        lemma_split_prefix(parts[0], rest, sep);
        assert(rest.drop_first() =~= join(tail, sep));
        assert(split(rest, sep) =~= seq![Seq::<char>::empty()] + tail);
        assert(parts[0] + Seq::<char>::empty() =~= parts[0]);
        assert(split(join(parts, sep), sep) =~= parts);
    }
}

/// The text with the characters `cs`.
pub fn string_of(cs: &Vec<char>) -> (r: String)
    ensures
        r@ == cs@,
{
    let mut r = String::new();
    let mut i: usize = 0;
    while i < cs.len()
        invariant
            i <= cs@.len(),
            r@ == cs@.subrange(0, i as int),
        decreases cs@.len() - i,
    {
        push_char(&mut r, cs[i]);
        i = i + 1;
        assert(r@ =~= cs@.subrange(0, i as int));
    }
    assert(cs@.subrange(0, i as int) =~= cs@);
    r
}

/// Split `s` at every `sep`.
pub fn split_at_char(s: &str, sep: char) -> (r: Vec<String>)
    ensures
        r@.len() == split(s@, sep).len(),
        forall|i: int| 0 <= i < r@.len() ==> #[trigger] r@[i]@ == split(s@, sep)[i],
{
    let cs = chars_of(s);
    let n = cs.len();
    let mut done: Vec<String> = Vec::new();
    let mut cur: Vec<char> = Vec::new();
    let mut i: usize = 0;
    proof {
        assert(cur@ + cs@.subrange(0, n as int) =~= s@);
        assert(done@.map_values(|t: String| t@) + split(s@, sep) =~= split(s@, sep));
    }
    while i < n
        invariant
            n == cs@.len(),
            cs@ == s@,
            i <= n,
            !cur@.contains(sep),
            split(s@, sep) == done@.map_values(|t: String| t@) + split(
                cur@ + cs@.subrange(i as int, n as int),
                sep,
            ),
        decreases n - i,
    {
        let c = cs[i];
        let ghost rest = cs@.subrange(i + 1, n as int);
        if c == sep {
            proof {
                assert(cur@ + cs@.subrange(i as int, n as int) =~= cur@ + (seq![sep] + rest));
                lemma_split_prefix(cur@, seq![sep] + rest, sep);
                assert((seq![sep] + rest).drop_first() =~= rest);
                assert(cur@ + Seq::<char>::empty() =~= cur@);
                assert(rest =~= Seq::<char>::empty() + rest);
            }
            let part = string_of(&cur);
            let ghost prev = done@;
            done.push(part);
            cur = Vec::new();
            proof {
                assert(done@.map_values(|t: String| t@) =~= prev.map_values(|t: String| t@).push(
                    part@,
                ));
                assert(cur@ + rest =~= rest);
                assert(split(s@, sep) =~= done@.map_values(|t: String| t@) + split(
                    cur@ + rest,
                    sep,
                ));
            }
        } else {
            let ghost prev = cur@;
            cur.push(c);
            proof {
                assert(prev + cs@.subrange(i as int, n as int) =~= cur@ + rest);
                assert(!cur@.contains(sep)) by {
                    if cur@.contains(sep) {
                        let k = choose|k: int| 0 <= k < cur@.len() && cur@[k] == sep;
                        if k < prev.len() {
                            assert(prev[k] == sep);
                        }
                    }
                }
            }
        }
        i = i + 1;
    }
    proof {
        assert(cur@ + cs@.subrange(i as int, n as int) =~= cur@ + Seq::<char>::empty());
        lemma_split_prefix(cur@, Seq::empty(), sep);
        assert(cur@ + Seq::<char>::empty() =~= cur@);
    }
    let part = string_of(&cur);
    let ghost prev = done@;
    done.push(part);
    proof {
        assert(done@.map_values(|t: String| t@) =~= prev.map_values(|t: String| t@).push(part@));
        assert(split(s@, sep) =~= done@.map_values(|t: String| t@));
        assert forall|i: int| 0 <= i < done@.len() implies #[trigger] done@[i]@ == split(s@, sep)[i] by {
            assert(done@.map_values(|t: String| t@)[i] == done@[i]@);
        }
    }
    done
}

/// Joining one more part adds the separator and the part.
pub proof fn lemma_join_push(parts: Seq<Seq<char>>, x: Seq<char>, sep: char)
    requires
        parts.len() >= 1,
    ensures
        join(parts.push(x), sep) == join(parts, sep) + seq![sep] + x,
    decreases parts.len(),
{
    if parts.len() == 1 {
        assert(parts.push(x).drop_first() =~= seq![x]);
        assert(join(seq![x], sep) == x);
        assert(parts.push(x)[0] == parts[0]);
        assert(join(parts.push(x), sep) =~= join(parts, sep) + seq![sep] + x);
    } else {
        lemma_join_push(parts.drop_first(), x, sep);
        assert(parts.push(x).drop_first() =~= parts.drop_first().push(x));
        assert(join(parts.push(x), sep) =~= join(parts, sep) + seq![sep] + x);
    }
}

/// The texts joined with `sep` between neighbours.
pub fn join_strings(parts: &Vec<String>, sep: char) -> (r: String)
    ensures
        r@ == join(parts@.map_values(|t: String| t@), sep),
{
    let ghost views = parts@.map_values(|t: String| t@);
    let mut r = String::new();
    let mut i: usize = 0;
    while i < parts.len()
        invariant
            views == parts@.map_values(|t: String| t@),
            i <= parts@.len(),
            r@ == join(views.take(i as int), sep),
        decreases parts@.len() - i,
    {
        if i > 0 {
            push_char(&mut r, sep);
        }
        append_chars(&mut r, &parts[i]);
        proof {
            assert(views.take(i + 1) =~= views.take(i as int).push(views[i as int]));
            if i > 0 {
                lemma_join_push(views.take(i as int), views[i as int], sep);
            } else {
                assert(views.take(1).len() == 1);
                assert(r@ =~= views[0]);
            }
        }
        i = i + 1;
    }
    assert(views.take(i as int) =~= views);
    r
}

} // verus!
