//! The order names are listed in: character by character, by code point,
//! with a proper prefix first. This is the order `str`'s `Ord` gives, since
//! UTF-8 keeps code point order byte by byte.

use vstd::prelude::*;

use crate::text::{chars_of, strings_view};

verus! {

/// Whether `a` comes strictly before `b`.
pub open spec fn lex_lt(a: Seq<char>, b: Seq<char>) -> bool
    decreases a.len(),
{
    if a.len() == 0 {
        b.len() > 0
    } else if b.len() == 0 {
        false
    } else if a[0] != b[0] {
        (a[0] as int) < (b[0] as int)
    } else {
        lex_lt(a.drop_first(), b.drop_first())
    }
}

/// Whether `a` comes before `b` or is `b`.
pub open spec fn lex_le(a: Seq<char>, b: Seq<char>) -> bool {
    a == b || lex_lt(a, b)
}

/// Every element comes before or is each later one.
pub open spec fn sorted(s: Seq<Seq<char>>) -> bool {
    forall|i: int, j: int| 0 <= i < j < s.len() ==> lex_le(#[trigger] s[i], #[trigger] s[j])
}

/// Nothing comes strictly before itself.
pub proof fn lemma_lex_irreflexive(a: Seq<char>)
    ensures
        !lex_lt(a, a),
    decreases a.len(),
{
    if a.len() > 0 {
        lemma_lex_irreflexive(a.drop_first());
    }
}

/// Coming before is transitive.
pub proof fn lemma_lex_transitive(a: Seq<char>, b: Seq<char>, c: Seq<char>)
    requires
        lex_lt(a, b),
        lex_lt(b, c),
    ensures
        lex_lt(a, c),
    decreases a.len(),
{
    if a.len() > 0 && b.len() > 0 && c.len() > 0 && a[0] == b[0] && b[0] == c[0] {
        lemma_lex_transitive(a.drop_first(), b.drop_first(), c.drop_first());
    }
}

/// Of two different names, one comes before the other.
pub proof fn lemma_lex_total(a: Seq<char>, b: Seq<char>)
    ensures
        a == b || lex_lt(a, b) || lex_lt(b, a),
    decreases a.len(),
{
    if a.len() > 0 && b.len() > 0 && a[0] == b[0] {
        lemma_lex_total(a.drop_first(), b.drop_first());
        if a.drop_first() == b.drop_first() {
            assert(a =~= seq![a[0]] + a.drop_first());
            assert(b =~= seq![b[0]] + b.drop_first());
        }
    } else if a.len() == 0 && b.len() == 0 {
        assert(a =~= b);
    }
}

proof fn lemma_lex_skip(a: Seq<char>, b: Seq<char>, i: int)
    requires
        0 <= i <= a.len(),
        i <= b.len(),
        a.subrange(0, i) == b.subrange(0, i),
    ensures
        lex_lt(a, b) == lex_lt(a.subrange(i, a.len() as int), b.subrange(i, b.len() as int)),
    decreases i,
{
    if i > 0 {
        assert(a[0] == a.subrange(0, i)[0]);
        assert(b[0] == b.subrange(0, i)[0]);
        let a1 = a.drop_first();
        let b1 = b.drop_first();
        assert(a1.subrange(0, i - 1) =~= a.subrange(1, i));
        assert(b1.subrange(0, i - 1) =~= b.subrange(1, i));
        assert(a.subrange(1, i) =~= a.subrange(0, i).drop_first());
        assert(b.subrange(1, i) =~= b.subrange(0, i).drop_first());
        lemma_lex_skip(a1, b1, i - 1);
        assert(a1.subrange(i - 1, a1.len() as int) =~= a.subrange(i, a.len() as int));
        assert(b1.subrange(i - 1, b1.len() as int) =~= b.subrange(i, b.len() as int));
    } else {
        assert(a.subrange(0, a.len() as int) =~= a);
        assert(b.subrange(0, b.len() as int) =~= b);
    }
}

/// Whether `a` comes strictly before `b`.
pub fn less_than(a: &str, b: &str) -> (r: bool)
    ensures
        r == lex_lt(a@, b@),
{
    let x = chars_of(a);
    let y = chars_of(b);
    let mut i: usize = 0;
    while i < x.len() && i < y.len()
        invariant
            x@ == a@,
            y@ == b@,
            i <= x@.len(),
            i <= y@.len(),
            x@.subrange(0, i as int) == y@.subrange(0, i as int),
        decreases x@.len() - i,
    {
        if x[i] != y[i] {
            proof {
                lemma_lex_skip(x@, y@, i as int);
                let xs = x@.subrange(i as int, x@.len() as int);
                let ys = y@.subrange(i as int, y@.len() as int);
                assert(xs[0] == x@[i as int]);
                assert(ys[0] == y@[i as int]);
            }
            return x[i] < y[i];
        }
        proof {
            assert(x@.subrange(0, i + 1) =~= x@.subrange(0, i as int).push(x@[i as int]));
            assert(y@.subrange(0, i + 1) =~= y@.subrange(0, i as int).push(y@[i as int]));
        }
        i = i + 1;
    }
    proof {
        lemma_lex_skip(x@, y@, i as int);
    }
    i == x.len() && i < y.len()
}

/// `names` in ascending order: the same names, each as many times, sorted.
pub fn sort_strings(names: Vec<String>) -> (r: Vec<String>)
    ensures
        strings_view(r@).to_multiset() == strings_view(names@).to_multiset(),
        sorted(strings_view(r@)),
{
    broadcast use vstd::seq_lib::group_to_multiset_ensures;

    let ghost nv = strings_view(names@);
    let mut out: Vec<String> = Vec::new();
    let mut i: usize = 0;
    while i < names.len()
        invariant
            nv == strings_view(names@),
            i <= names@.len(),
            strings_view(out@).to_multiset() == nv.subrange(0, i as int).to_multiset(),
            sorted(strings_view(out@)),
        decreases names@.len() - i,
    {
        let x = names[i].clone();
        let ghost ov = strings_view(out@);
        let mut p: usize = 0;
        while p < out.len() && !less_than(x.as_str(), out[p].as_str())
            invariant
                ov == strings_view(out@),
                p <= out@.len(),
                forall|k: int| 0 <= k < p ==> lex_le(#[trigger] ov[k], x@),
            decreases out@.len() - p,
        {
            proof {
                lemma_lex_total(x@, ov[p as int]);
            }
            p = p + 1;
        }
        out.insert(p, x);
        proof {
            let nw = strings_view(out@);
            assert(nw =~= ov.insert(p as int, x@));
            assert forall|a: int, b: int| 0 <= a < b < nw.len() implies lex_le(
                #[trigger] nw[a],
                #[trigger] nw[b],
            ) by {
                if b < p {
                    assert(nw[a] == ov[a] && nw[b] == ov[b]);
                } else if b == p {
                    assert(nw[a] == ov[a]);
                } else if a > p {
                    assert(nw[a] == ov[a - 1] && nw[b] == ov[b - 1]);
                } else if a == p {
                    assert(lex_lt(x@, ov[p as int]));
                    assert(nw[b] == ov[b - 1]);
                    if b - 1 > p {
                        assert(lex_le(ov[p as int], ov[b - 1]));
                        if ov[p as int] != ov[b - 1] {
                            lemma_lex_transitive(x@, ov[p as int], ov[b - 1]);
                        }
                    }
                } else {
                    assert(nw[a] == ov[a] && nw[b] == ov[b - 1]);
                    assert(lex_le(ov[a], x@));
                    assert(lex_lt(x@, ov[p as int]));
                    if b - 1 > p {
                        assert(lex_le(ov[p as int], ov[b - 1]));
                    }
                    assert(lex_le(ov[a], ov[p as int])) by {
                        if ov[a] != x@ {
                            lemma_lex_transitive(ov[a], x@, ov[p as int]);
                        }
                    }
                    if ov[a] != ov[p as int] && ov[p as int] != ov[b - 1] && b - 1 > p {
                        lemma_lex_transitive(ov[a], ov[p as int], ov[b - 1]);
                    }
                }
            }
            assert(nv.subrange(0, i + 1) =~= nv.subrange(0, i as int).push(nv[i as int]));
            vstd::seq_lib::to_multiset_insert(ov, p as int, x@);
            assert(x@ == nv[i as int]);
            vstd::seq_lib::to_multiset_build(nv.subrange(0, i as int), nv[i as int]);
        }
        i = i + 1;
    }
    assert(nv.subrange(0, names@.len() as int) =~= nv);
    out
}

} // verus!
