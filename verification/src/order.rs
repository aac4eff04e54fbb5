//! Lexicographic order on character sequences and a sort for strings.

use vstd::prelude::*;
use crate::text::{chars_of, views};

verus! {

/// Lexicographic "less than" on `a` and `b`, looking from position `i` on.
pub open spec fn lex_lt_from(a: Seq<char>, b: Seq<char>, i: int) -> bool
    decreases a.len() - i,
{
    if i >= a.len() {
        i < b.len()
    } else if i >= b.len() {
        false
    } else if a[i] != b[i] {
        (a[i] as int) < (b[i] as int)
    } else {
        lex_lt_from(a, b, i + 1)
    }
}

/// Lexicographic order by character code, the order of `str`'s `cmp`.
pub open spec fn lex_lt(a: Seq<char>, b: Seq<char>) -> bool {
    lex_lt_from(a, b, 0)
}

/// `a` comes no later than `b`.
pub open spec fn lex_le(a: Seq<char>, b: Seq<char>) -> bool {
    !lex_lt(b, a)
}

/// Every element comes no later than the ones after it.
pub open spec fn sorted(s: Seq<Seq<char>>) -> bool {
    forall|i: int, j: int| 0 <= i < j < s.len() ==> lex_le(s[i], s[j])
}

proof fn lemma_irreflexive_from(a: Seq<char>, i: int)
    requires
        0 <= i,
    ensures
        !lex_lt_from(a, a, i),
    decreases a.len() - i,
{
    if i < a.len() {
        lemma_irreflexive_from(a, i + 1);
    }
}

proof fn lemma_transitive_from(a: Seq<char>, b: Seq<char>, c: Seq<char>, i: int)
    requires
        0 <= i,
        lex_lt_from(a, b, i),
        lex_lt_from(b, c, i),
    ensures
        lex_lt_from(a, c, i),
    decreases a.len() - i,
{
    if i < a.len() && i < b.len() && i < c.len() && a[i] == b[i] && b[i] == c[i] {
        lemma_transitive_from(a, b, c, i + 1);
    }
}

proof fn lemma_total_from(a: Seq<char>, b: Seq<char>, i: int)
    requires
        0 <= i <= a.len(),
        i <= b.len(),
        !lex_lt_from(a, b, i),
        !lex_lt_from(b, a, i),
    ensures
        a.subrange(i, a.len() as int) =~= b.subrange(i, b.len() as int),
    decreases a.len() - i,
{
    if i < a.len() && i < b.len() {
        assert(a[i] == b[i]);
        lemma_total_from(a, b, i + 1);
        assert forall|k: int| 0 <= k < a.len() - i implies a.subrange(i, a.len() as int)[k]
            == b.subrange(i, b.len() as int)[k] by {
            if k > 0 {
                assert(a.subrange(i + 1, a.len() as int)[k - 1] == b.subrange(
                    i + 1,
                    b.len() as int,
                )[k - 1]);
            }
        }
    }
}

/// Nothing comes before itself.
pub proof fn lemma_lex_irreflexive(a: Seq<char>)
    ensures
        !lex_lt(a, a),
{
    lemma_irreflexive_from(a, 0);
}

/// The order is transitive.
pub proof fn lemma_lex_transitive(a: Seq<char>, b: Seq<char>, c: Seq<char>)
    requires
        lex_lt(a, b),
        lex_lt(b, c),
    ensures
        lex_lt(a, c),
{
    lemma_transitive_from(a, b, c, 0);
}

/// Two different sequences are ordered one way or the other.
pub proof fn lemma_lex_total(a: Seq<char>, b: Seq<char>)
    ensures
        a == b || lex_lt(a, b) || lex_lt(b, a),
{
    if !lex_lt(a, b) && !lex_lt(b, a) {
        lemma_total_from(a, b, 0);
    }
    assert(a.subrange(0, a.len() as int) =~= a);
    assert(b.subrange(0, b.len() as int) =~= b);
}

proof fn lemma_le_transitive(a: Seq<char>, b: Seq<char>, c: Seq<char>)
    requires
        lex_le(a, b),
        lex_le(b, c),
    ensures
        lex_le(a, c),
{
    lemma_lex_total(a, b);
    lemma_lex_total(b, c);
    if lex_lt(c, a) {
        if a == b {
            if b != c {
                lemma_lex_irreflexive(a);
            }
        } else if b == c {
        } else {
            lemma_lex_transitive(a, b, c);
            lemma_lex_transitive(a, c, a);
            lemma_lex_irreflexive(a);
        }
    }
}

/// Whether `a` sorts strictly before `b`.
pub fn lex_less(a: &str, b: &str) -> (r: bool)
    ensures
        r == lex_lt(a@, b@),
{
    let x = chars_of(a);
    let y = chars_of(b);
    let mut i: usize = 0;
    while i < x.len() && i < y.len() && x[i] == y[i]
        invariant
            x@ == a@,
            y@ == b@,
            i <= x@.len(),
            i <= y@.len(),
            lex_lt_from(a@, b@, 0) == lex_lt_from(a@, b@, i as int),
        decreases x@.len() - i,
    {
        i = i + 1;
    }
    if i >= x.len() {
        i < y.len()
    } else if i >= y.len() {
        false
    } else {
        x[i] < y[i]
    }
}

/// The strings of `v` rearranged into lexicographic order.
pub fn sort_strings(v: Vec<String>) -> (r: Vec<String>)
    ensures
        r@.len() == v@.len(),
        sorted(views(r@)),
        views(r@).to_multiset() == views(v@).to_multiset(),
        forall|s: Seq<char>| #[trigger] views(r@).contains(s) <==> views(v@).contains(s),
{
    let mut out: Vec<String> = Vec::new();
    let mut k: usize = 0;
    proof {
        assert(views(out@) =~= views(v@).take(0));
    }
    while k < v.len()
        invariant
            k <= v@.len(),
            out@.len() == k,
            sorted(views(out@)),
            views(out@).to_multiset() == views(v@).take(k as int).to_multiset(),
            forall|s: Seq<char>| #[trigger]
                views(out@).contains(s) <==> views(v@).take(k as int).contains(s),
        decreases v@.len() - k,
    {
        let x = v[k].clone();
        let mut p: usize = 0;
        while p < out.len() && lex_less(out[p].as_str(), x.as_str())
            invariant
                p <= out@.len(),
                forall|i: int| 0 <= i < p ==> lex_lt(#[trigger] out@[i]@, x@),
            decreases out@.len() - p,
        {
            p = p + 1;
        }
        let ghost old_out = views(out@);
        out.insert(p, x);
        proof {
            let nv = views(out@);
            assert(nv =~= old_out.insert(p as int, x@));
            assert forall|i: int, j: int| 0 <= i < j < nv.len() implies lex_le(nv[i], nv[j]) by {
                if i < p && j == p {
                    lemma_lex_total(nv[i], x@);
                    if lex_lt(x@, nv[i]) {
                        lemma_lex_transitive(x@, nv[i], x@);
                        lemma_lex_irreflexive(x@);
                    }
                } else if i == p && j > p {
                    assert(nv[j] == old_out[j - 1]);
                    assert(lex_le(x@, old_out[p as int]));
                    if j - 1 > p {
                        lemma_le_transitive(x@, old_out[p as int], old_out[j - 1]);
                    }
                } else if i < p && j > p {
                    assert(nv[j] == old_out[j - 1]);
                } else if i > p {
                    assert(nv[i] == old_out[i - 1]);
                    assert(nv[j] == old_out[j - 1]);
                }
            }
            let tk = views(v@).take((k + 1) as int);
            assert(tk =~= views(v@).take(k as int).push(x@));
            vstd::seq_lib::to_multiset_insert(old_out, p as int, x@);
            vstd::seq_lib::to_multiset_build(views(v@).take(k as int), x@);
            assert forall|s: Seq<char>| #[trigger] nv.contains(s) implies tk.contains(s) by {
                let i = choose|i: int| 0 <= i < nv.len() && nv[i] == s;
                if i == p {
                    assert(tk[k as int] == s);
                } else {
                    let i2 = if i < p {
                        i
                    } else {
                        i - 1
                    };
                    assert(old_out[i2] == s);
                    assert(old_out.contains(s));
                    assert(views(v@).take(k as int).contains(s));
                    let j = choose|j: int|
                        0 <= j < k && views(v@).take(k as int)[j] == s;
                    assert(tk[j] == s);
                }
            }
            assert forall|s: Seq<char>| #[trigger] tk.contains(s) implies nv.contains(s) by {
                let j = choose|j: int| 0 <= j < tk.len() && tk[j] == s;
                if j == k {
                    assert(nv[p as int] == s);
                } else {
                    assert(views(v@).take(k as int)[j] == s);
                    assert(views(v@).take(k as int).contains(s));
                    assert(old_out.contains(s));
                    let i = choose|i: int| 0 <= i < old_out.len() && old_out[i] == s;
                    if i < p {
                        assert(nv[i] == s);
                    } else {
                        assert(nv[i + 1] == s);
                    }
                }
            }
        }
        k = k + 1;
    }
    proof {
        assert(views(v@).take(v@.len() as int) =~= views(v@));
    }
    out
}

} // verus!
