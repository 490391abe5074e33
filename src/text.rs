//! Character-level helpers shared by the parser, the store and the renderer.
use vstd::prelude::*;
use vstd::std_specs::iter::IteratorSpec;

verus! {

/// Splits `s` at every occurrence of `sep`; `n` separators give `n + 1` pieces.
pub open spec fn split_on(s: Seq<char>, sep: char) -> Seq<Seq<char>>
    decreases s.len(),
{
    if s.len() == 0 {
        seq![Seq::<char>::empty()]
    } else {
        let prev = split_on(s.drop_last(), sep);
        if s.last() == sep {
            prev.push(Seq::<char>::empty())
        } else {
            prev.update(prev.len() - 1, prev.last().push(s.last()))
        }
    }
}

pub proof fn lemma_split_on_nonempty(s: Seq<char>, sep: char)
    ensures
        split_on(s, sep).len() >= 1,
    decreases s.len(),
{
    if s.len() > 0 {
        lemma_split_on_nonempty(s.drop_last(), sep);
    }
}

/// Text that is empty or ends with `sep` ends with an empty piece.
pub proof fn lemma_split_on_ends_empty(s: Seq<char>, sep: char)
    requires
        s.len() == 0 || s.last() == sep,
    ensures
        split_on(s, sep).len() >= 1,
        split_on(s, sep).last() == Seq::<char>::empty(),
{
    lemma_split_on_nonempty(s, sep);
}

/// Splitting text that has no separator gives the text itself.
pub proof fn lemma_split_on_without_sep(s: Seq<char>, sep: char)
    requires
        !s.contains(sep),
    ensures
        split_on(s, sep) == seq![s],
    decreases s.len(),
{
    if s.len() > 0 {
        let p = s.drop_last();
        assert(!p.contains(sep)) by {
            if p.contains(sep) {
                let j = choose|j: int| 0 <= j < p.len() && p[j] == sep;
                assert(s[j] == sep);
            }
        }
        assert(s[s.len() - 1] != sep);
        lemma_split_on_without_sep(p, sep);
        assert(p.push(s.last()) == s);
        assert(split_on(s, sep) =~= seq![s]);
    } else {
        assert(s == Seq::<char>::empty());
    }
}

/// After text that is empty or ends with `sep`, the pieces of what follows
/// start afresh.
pub proof fn lemma_split_on_concat(a: Seq<char>, b: Seq<char>, sep: char)
    requires
        a.len() == 0 || a.last() == sep,
    ensures
        split_on(a + b, sep) == split_on(a, sep).drop_last() + split_on(b, sep),
    decreases b.len(),
{
    lemma_split_on_ends_empty(a, sep);
    if b.len() == 0 {
        assert(a + b == a);
        assert(split_on(a, sep).drop_last() + split_on(b, sep) =~= split_on(a, sep));
    } else {
        let b0 = b.drop_last();
        lemma_split_on_concat(a, b0, sep);
        lemma_split_on_nonempty(b0, sep);
        assert((a + b).drop_last() == a + b0);
        assert((a + b).last() == b.last());
        assert(split_on(a + b, sep) =~= split_on(a, sep).drop_last() + split_on(b, sep));
    }
}

/// Relies on `String::push`: appends one character at the end.
#[verifier::external_body]
pub(crate) fn push_char(s: &mut String, c: char)
    ensures
        final(s)@ == old(s)@.push(c),
{
    s.push(c)
}

/// Splits `s` at every occurrence of `sep`.
pub fn split_str(s: &str, sep: char) -> (r: Vec<String>)
    ensures
        r@.map_values(|f: String| f@) == split_on(s@, sep),
{
    let mut pieces: Vec<String> = Vec::new();
    let mut cur = String::new();
    let mut it = s.chars();
    let ghost mut i: int = 0;
    loop
        invariant
            0 <= i <= s@.len(),
            it.remaining() == s@.subrange(i, s@.len() as int),
            pieces@.map_values(|f: String| f@).push(cur@) == split_on(s@.subrange(0, i), sep),
        ensures
            i == s@.len(),
            pieces@.map_values(|f: String| f@).push(cur@) == split_on(s@.subrange(0, i), sep),
        decreases s@.len() - i,
    {
        match it.next() {
            None => {
                break;
            },
            Some(c) => {
                assert(s@.subrange(0, i + 1).drop_last() == s@.subrange(0, i));
                proof {
                    lemma_split_on_nonempty(s@.subrange(0, i), sep);
                }
                if c == sep {
                    pieces.push(cur);
                    cur = String::new();
                } else {
                    push_char(&mut cur, c);
                }
                proof {
                    i = i + 1;
                }
                assert(pieces@.map_values(|f: String| f@).push(cur@) =~= split_on(s@.subrange(0, i), sep));
            },
        }
    }
    assert(s@.subrange(0, i) == s@);
    pieces.push(cur);
    assert(pieces@.map_values(|f: String| f@) =~= split_on(s@, sep));
    pieces
}

} // verus!
