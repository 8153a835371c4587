use crate::util::{contains_seq, matches_at, push_char, str_matches_at};
use vstd::prelude::*;
use vstd::string::*;

verus! {

/// `s` with every occurrence of `from` replaced by `to`, scanning left to
/// right without overlap, as `str::replace` does; an empty `from` leaves
/// `s` unchanged.
pub open spec fn spec_replace_all(s: Seq<char>, from: Seq<char>, to: Seq<char>) -> Seq<char>
    decreases s.len(),
{
    if from.len() == 0 || s.len() < from.len() {
        s
    } else if s.subrange(0, from.len() as int) == from {
        to + spec_replace_all(s.subrange(from.len() as int, s.len() as int), from, to)
    } else {
        seq![s[0]] + spec_replace_all(s.drop_first(), from, to)
    }
}

/// Replaces every occurrence of `from` in `s` by `to`.  The substitution
/// is purely textual: it touches every occurrence in the text, not only
/// those inside any particular element.
pub fn replace_all(s: &str, from: &str, to: &str) -> (r: String)
    ensures
        r@ == spec_replace_all(s@, from@, to@),
{
    let n: usize = s.unicode_len();
    let m: usize = from.unicode_len();
    if m == 0 {
        return String::from_str(s);
    }
    let mut out = String::new();
    let mut i: usize = 0;
    proof {
        assert(s@.subrange(0, n as int) =~= s@);
    }
    while i < n
        invariant
            i <= n,
            0 < m,
            n == s@.len(),
            m == from@.len(),
            spec_replace_all(s@, from@, to@) == out@ + spec_replace_all(
                s@.subrange(i as int, n as int),
                from@,
                to@,
            ),
        decreases n - i,
    {
        let ghost tail = s@.subrange(i as int, n as int);
        if str_matches_at(s, from, i) {
            out.append(to);
            proof {
                assert(tail.subrange(0, m as int) =~= s@.subrange(i as int, i + m));
                assert(tail.subrange(m as int, tail.len() as int) =~= s@.subrange(
                    i + m,
                    n as int,
                ));
            }
            i = i + m;
        } else {
            let c = s.get_char(i);
            let ghost prev = out@;
            push_char(&mut out, c);
            proof {
                if tail.len() >= m {
                    assert(tail.subrange(0, m as int) =~= s@.subrange(i as int, i + m));
                }
                assert(tail.drop_first() =~= s@.subrange(i + 1, n as int));
                assert(prev.push(c) =~= prev + seq![c]);
            }
            i = i + 1;
        }
    }
    proof {
        assert(s@.subrange(n as int, n as int) =~= Seq::<char>::empty());
        assert(s@.subrange(0, n as int) =~= s@);
    }
    out
}

proof fn lemma_matches_at_shift(s: Seq<char>, pat: Seq<char>, prefix: Seq<char>, i: int)
    requires
        matches_at(s, pat, i),
    ensures
        matches_at(prefix + s, pat, prefix.len() + i),
{
    assert((prefix + s).subrange(prefix.len() + i, prefix.len() + i + pat.len()) =~= s.subrange(
        i,
        i + pat.len(),
    ));
}

/// After a replacement, the text still holds a reference at every spot a
/// replaced occurrence stood: whenever `from` occurs in `s` (and neither
/// string is empty), the replacement string `to` occurs in the result.
pub proof fn lemma_replace_all_contains(s: Seq<char>, from: Seq<char>, to: Seq<char>)
    requires
        contains_seq(s, from),
        from.len() > 0,
        to.len() > 0,
    ensures
        contains_seq(spec_replace_all(s, from, to), to),
    decreases s.len(),
{
    let i = choose|i: int| matches_at(s, from, i);
    assert(s.len() >= from.len());
    if s.subrange(0, from.len() as int) == from {
        let rest = spec_replace_all(s.subrange(from.len() as int, s.len() as int), from, to);
        assert((to + rest).subrange(0, to.len() as int) =~= to);
        assert(matches_at(to + rest, to, 0));
    } else {
        // the head character cannot begin an occurrence, so one stands in
        // the tail
        if i == 0 {
            assert(s.subrange(0, from.len() as int) == from);
            assert(false);
        }
        let t = s.drop_first();
        assert(t.subrange(i - 1, i - 1 + from.len()) =~= s.subrange(i, i + from.len()));
        assert(matches_at(t, from, i - 1));
        lemma_replace_all_contains(t, from, to);
        let j = choose|j: int| matches_at(spec_replace_all(t, from, to), to, j);
        lemma_matches_at_shift(spec_replace_all(t, from, to), to, seq![s[0]], j);
    }
}

} // verus!
