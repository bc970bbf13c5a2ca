//! Splitting a character sequence on a delimiter.
use vstd::prelude::*;

verus! {

/// The pieces of `s` between occurrences of `sep`, in order. There is always
/// at least one piece: the empty sequence splits into one empty piece, and
/// each delimiter, wherever it stands, closes one piece and opens the next.
pub open spec fn tokens_of(s: Seq<char>, sep: char) -> Seq<Seq<char>>
    decreases s.len(),
{
    if s.len() == 0 {
        seq![Seq::empty()]
    } else {
        let init = tokens_of(s.drop_last(), sep);
        if s.last() == sep {
            init.push(Seq::empty())
        } else {
            init.update(init.len() - 1, init.last().push(s.last()))
        }
    }
}

/// How many times `c` occurs in `s`.
pub open spec fn occurrences(s: Seq<char>, c: char) -> nat
    decreases s.len(),
{
    if s.len() == 0 {
        0
    } else {
        occurrences(s.drop_last(), c) + if s.last() == c { 1nat } else { 0nat }
    }
}

/// The views of a sequence of character vectors.
pub open spec fn views(v: Seq<Vec<char>>) -> Seq<Seq<char>> {
    v.map_values(|t: Vec<char>| t@)
}

/// Splitting yields one more piece than there are delimiters.
pub proof fn lemma_tokens_len(s: Seq<char>, sep: char)
    ensures
        tokens_of(s, sep).len() == occurrences(s, sep) + 1,
    decreases s.len(),
{
    if s.len() > 0 {
        lemma_tokens_len(s.drop_last(), sep);
    }
}

/// A sequence free of the delimiter is a single piece.
pub proof fn lemma_tokens_without_sep(s: Seq<char>, sep: char)
    requires
        !s.contains(sep),
    ensures
        tokens_of(s, sep) == seq![s],
    decreases s.len(),
{
    if s.len() > 0 {
        let p = s.drop_last();
        assert(!p.contains(sep)) by {
            if p.contains(sep) {
                let k = choose|k: int| 0 <= k < p.len() && p[k] == sep;
                assert(s[k] == sep);
            }
        }
        lemma_tokens_without_sep(p, sep);
        assert(s.last() != sep) by {
            assert(s[s.len() - 1] == s.last());
        }
        assert(p.push(s.last()) =~= s);
        assert(seq![p].update(0, p.push(s.last())) =~= seq![s]);
    } else {
        assert(s =~= Seq::empty());
    }
}

/// Joining two sequences with the delimiter joins their pieces.
pub proof fn lemma_tokens_join(a: Seq<char>, b: Seq<char>, sep: char)
    ensures
        tokens_of(a + seq![sep] + b, sep) == tokens_of(a, sep) + tokens_of(b, sep),
    decreases b.len(),
{
    let j = a + seq![sep] + b;
    if b.len() == 0 {
        assert(j.drop_last() =~= a);
        assert(tokens_of(a, sep).push(Seq::empty()) =~= tokens_of(a, sep) + tokens_of(b, sep));
    } else {
        let b0 = b.drop_last();
        lemma_tokens_join(a, b0, sep);
        assert(j.drop_last() =~= a + seq![sep] + b0);
        assert(j.last() == b.last());
        let x = tokens_of(a, sep);
        let y = tokens_of(b0, sep);
        lemma_tokens_len(b0, sep);
        if b.last() == sep {
            assert((x + y).push(Seq::empty()) =~= x + y.push(Seq::empty()));
        } else {
            let xy = x + y;
            assert(xy.last() == y.last());
            assert(xy.update(xy.len() - 1, xy.last().push(b.last())) =~= x + y.update(
                y.len() - 1,
                y.last().push(b.last()),
            ));
        }
    }
}

/// Splits `s` on `sep` into its pieces.
pub fn split_on(s: &[char], sep: char) -> (r: Vec<Vec<char>>)
    ensures
        views(r@) == tokens_of(s@, sep),
{
    let mut done: Vec<Vec<char>> = Vec::new();
    let mut cur: Vec<char> = Vec::new();
    let mut i: usize = 0;
    while i < s.len()
        invariant
            i <= s.len(),
            views(done@).push(cur@) == tokens_of(s@.take(i as int), sep),
        decreases s.len() - i,
    {
        let c = s[i];
        let ghost before = views(done@);
        let ghost piece = cur@;
        proof {
            assert(s@.take(i + 1).drop_last() =~= s@.take(i as int));
            assert(s@.take(i + 1).last() == c);
        }
        if c == sep {
            done.push(cur);
            cur = Vec::new();
            assert(views(done@) =~= before.push(piece));
            assert(views(done@).push(cur@) =~= before.push(piece).push(Seq::empty()));
        } else {
            cur.push(c);
            assert(views(done@).push(cur@) =~= before.push(piece).update(
                before.len() as int,
                piece.push(c),
            ));
        }
        i = i + 1;
    }
    let ghost before = views(done@);
    let ghost piece = cur@;
    done.push(cur);
    assert(views(done@) =~= before.push(piece));
    assert(s@.take(i as int) =~= s@);
    done
}

} // verus!
