//! Facts about `replace_all`: where it changes nothing, and how it works
//! on a text made of pieces.

use vstd::prelude::*;

use crate::text::{occurs_at, replace_all};

verus! {

/// `pat` occurs nowhere in `s`.
pub open spec fn avoids(s: Seq<char>, pat: Seq<char>) -> bool {
    forall|i: int| !occurs_at(s, i, pat)
}

/// No `a` is directly followed by `b` in `s`.
pub open spec fn no_pair(s: Seq<char>, a: char, b: char) -> bool {
    forall|i: int| 0 <= i < s.len() - 1 ==> !(#[trigger] s[i] == a && s[i + 1] == b)
}

/// No `a`, `b`, `c` stand in a row in `s`.
pub open spec fn no_triple(s: Seq<char>, a: char, b: char, c: char) -> bool {
    forall|i: int|
        0 <= i < s.len() - 2 ==> !(#[trigger] s[i] == a && s[i + 1] == b && s[i + 2] == c)
}

/// No occurrence of `pat` in `u + v` starts in `u` and ends in `v`.
pub open spec fn no_straddle(u: Seq<char>, v: Seq<char>, pat: Seq<char>) -> bool {
    forall|i: int| u.len() - pat.len() < i < u.len() ==> !occurs_at(u + v, i, pat)
}

pub proof fn lemma_occurs_char(s: Seq<char>, i: int, pat: Seq<char>, j: int)
    requires
        occurs_at(s, i, pat),
        0 <= j < pat.len(),
    ensures
        s[i + j] == pat[j],
{
    assert(s.subrange(i, i + pat.len())[j] == s[i + j]);
}

pub proof fn lemma_occurs_skip(s: Seq<char>, k: int, i: int, pat: Seq<char>)
    requires
        0 <= k <= s.len(),
        0 <= i,
    ensures
        occurs_at(s.skip(k), i, pat) == occurs_at(s, i + k, pat),
{
    if i + pat.len() <= s.len() - k {
        assert(s.skip(k).subrange(i, i + pat.len()) =~= s.subrange(i + k, i + k + pat.len()));
    }
}

/// A text where some character of `pat` never appears avoids `pat`.
pub proof fn lemma_absent_avoids(s: Seq<char>, pat: Seq<char>, j: int)
    requires
        0 <= j < pat.len(),
        forall|i: int| 0 <= i < s.len() ==> s[i] != pat[j],
    ensures
        avoids(s, pat),
{
    assert forall|i: int| !occurs_at(s, i, pat) by {
        if occurs_at(s, i, pat) {
            lemma_occurs_char(s, i, pat, j);
        }
    }
}

pub proof fn lemma_pair_avoids(s: Seq<char>, pat: Seq<char>, j: int)
    requires
        0 <= j < pat.len() - 1,
        no_pair(s, pat[j], pat[j + 1]),
    ensures
        avoids(s, pat),
{
    assert forall|i: int| !occurs_at(s, i, pat) by {
        if occurs_at(s, i, pat) {
            lemma_occurs_char(s, i, pat, j);
            lemma_occurs_char(s, i, pat, j + 1);
            assert(!(s[i + j] == pat[j] && s[i + j + 1] == pat[j + 1]));
        }
    }
}

pub proof fn lemma_triple_avoids(s: Seq<char>, pat: Seq<char>, j: int)
    requires
        0 <= j < pat.len() - 2,
        no_triple(s, pat[j], pat[j + 1], pat[j + 2]),
    ensures
        avoids(s, pat),
{
    assert forall|i: int| !occurs_at(s, i, pat) by {
        if occurs_at(s, i, pat) {
            lemma_occurs_char(s, i, pat, j);
            lemma_occurs_char(s, i, pat, j + 1);
            lemma_occurs_char(s, i, pat, j + 2);
            assert(!(s[i + j] == pat[j] && s[i + j + 1] == pat[j + 1] && s[i + j + 2] == pat[j
                + 2]));
        }
    }
}

pub proof fn lemma_no_pair_concat(u: Seq<char>, v: Seq<char>, a: char, b: char)
    requires
        no_pair(u, a, b),
        no_pair(v, a, b),
        u.len() > 0 && v.len() > 0 ==> !(u.last() == a && v[0] == b),
    ensures
        no_pair(u + v, a, b),
{
    let s = u + v;
    assert forall|i: int| 0 <= i < s.len() - 1 implies !(#[trigger] s[i] == a && s[i + 1] == b) by {
        if i + 1 < u.len() {
            assert(s[i] == u[i] && s[i + 1] == u[i + 1]);
        } else if i >= u.len() {
            assert(s[i] == v[i - u.len()] && s[i + 1] == v[i - u.len() + 1]);
        } else {
            assert(s[i] == u.last() && s[i + 1] == v[0]);
        }
    }
}

pub proof fn lemma_no_triple_concat(u: Seq<char>, v: Seq<char>, a: char, b: char, c: char)
    requires
        no_triple(u, a, b, c),
        no_triple(v, a, b, c),
        u.len() >= 2 && v.len() >= 1 ==> !(u[u.len() - 2] == a && u.last() == b && v[0] == c),
        u.len() >= 1 && v.len() >= 2 ==> !(u.last() == a && v[0] == b && v[1] == c),
    ensures
        no_triple(u + v, a, b, c),
{
    let s = u + v;
    assert forall|i: int| 0 <= i < s.len() - 2 implies !(#[trigger] s[i] == a && s[i + 1] == b
        && s[i + 2] == c) by {
        if i + 2 < u.len() {
            assert(s[i] == u[i] && s[i + 1] == u[i + 1] && s[i + 2] == u[i + 2]);
        } else if i >= u.len() {
            let k = i - u.len();
            assert(s[i] == v[k] && s[i + 1] == v[k + 1] && s[i + 2] == v[k + 2]);
        } else if i + 2 == u.len() {
            assert(s[i] == u[u.len() - 2] && s[i + 1] == u.last() && s[i + 2] == v[0]);
        } else {
            assert(s[i] == u.last() && s[i + 1] == v[0] && s[i + 2] == v[1]);
        }
    }
}

/// When a piece ends with a character that can only close `pat`, no
/// occurrence of `pat` crosses into what follows.
pub proof fn lemma_straddle_last(u: Seq<char>, v: Seq<char>, pat: Seq<char>)
    requires
        u.len() > 0,
        forall|j: int| 0 <= j < pat.len() - 1 ==> u.last() != pat[j],
    ensures
        no_straddle(u, v, pat),
{
    assert forall|i: int| u.len() - pat.len() < i < u.len() implies !occurs_at(u + v, i, pat) by {
        if occurs_at(u + v, i, pat) {
            let j = u.len() - 1 - i;
            lemma_occurs_char(u + v, i, pat, j);
            assert((u + v)[i + j] == u.last());
        }
    }
}

/// When a piece starts with a character that can only open `pat`, no
/// occurrence of `pat` crosses into it.
pub proof fn lemma_straddle_first(u: Seq<char>, v: Seq<char>, pat: Seq<char>)
    requires
        v.len() > 0,
        forall|j: int| 1 <= j < pat.len() ==> v[0] != pat[j],
    ensures
        no_straddle(u, v, pat),
{
    assert forall|i: int| u.len() - pat.len() < i < u.len() implies !occurs_at(u + v, i, pat) by {
        if occurs_at(u + v, i, pat) {
            let j = u.len() - i;
            lemma_occurs_char(u + v, i, pat, j);
            assert((u + v)[i + j] == v[0]);
        }
    }
}

pub proof fn lemma_avoids_concat(u: Seq<char>, v: Seq<char>, pat: Seq<char>)
    requires
        avoids(u, pat),
        avoids(v, pat),
        no_straddle(u, v, pat),
    ensures
        avoids(u + v, pat),
{
    assert forall|i: int| !occurs_at(u + v, i, pat) by {
        if occurs_at(u + v, i, pat) {
            if i + pat.len() <= u.len() {
                assert((u + v).subrange(i, i + pat.len()) =~= u.subrange(i, i + pat.len()));
                assert(occurs_at(u, i, pat));
            } else if i >= u.len() {
                assert((u + v).subrange(i, i + pat.len()) =~= v.subrange(
                    i - u.len(),
                    i - u.len() + pat.len(),
                ));
                assert(occurs_at(v, i - u.len(), pat));
            }
        }
    }
}

/// Where `pat` does not occur, nothing is replaced.
pub proof fn lemma_replace_id(s: Seq<char>, pat: Seq<char>, rep: Seq<char>)
    requires
        pat.len() > 0,
        avoids(s, pat),
    ensures
        replace_all(s, pat, rep) == s,
    decreases s.len(),
{
    if s.len() > 0 {
        assert(!occurs_at(s, 0, pat));
        assert forall|i: int| !occurs_at(s.skip(1), i, pat) by {
            if i >= 0 {
                lemma_occurs_skip(s, 1, i, pat);
            }
        }
        lemma_replace_id(s.skip(1), pat, rep);
        assert(seq![s[0]] + s.skip(1) =~= s);
    }
}

/// An occurrence at the start is replaced.
pub proof fn lemma_replace_hit(v: Seq<char>, pat: Seq<char>, rep: Seq<char>)
    requires
        pat.len() > 0,
    ensures
        replace_all(pat + v, pat, rep) == rep + replace_all(v, pat, rep),
{
    let s = pat + v;
    assert(s.subrange(0, pat.len() as int) =~= pat);
    assert(s.skip(pat.len() as int) =~= v);
}

/// Replacing in two pieces that no occurrence crosses.
pub proof fn lemma_replace_split(u: Seq<char>, v: Seq<char>, pat: Seq<char>, rep: Seq<char>)
    requires
        pat.len() > 0,
        no_straddle(u, v, pat),
    ensures
        replace_all(u + v, pat, rep) == replace_all(u, pat, rep) + replace_all(v, pat, rep),
    decreases u.len(),
{
    let s = u + v;
    if u.len() == 0 {
        assert(s =~= v);
        assert(replace_all(u, pat, rep) =~= Seq::<char>::empty());
    } else if occurs_at(s, 0, pat) {
        assert(pat.len() <= u.len());
        assert(s.subrange(0, pat.len() as int) =~= u.subrange(0, pat.len() as int));
        let u1 = u.skip(pat.len() as int);
        assert(s.skip(pat.len() as int) =~= u1 + v);
        assert forall|i: int| u1.len() - pat.len() < i < u1.len() implies !occurs_at(
            u1 + v,
            i,
            pat,
        ) by {
            if i >= 0 {
                lemma_occurs_skip(s, pat.len() as int, i, pat);
            }
        }
        lemma_replace_split(u1, v, pat, rep);
    } else {
        if pat.len() <= u.len() {
            assert(s.subrange(0, pat.len() as int) =~= u.subrange(0, pat.len() as int));
        }
        assert(!occurs_at(u, 0, pat));
        let u1 = u.skip(1);
        assert(s.skip(1) =~= u1 + v);
        assert forall|i: int| u1.len() - pat.len() < i < u1.len() implies !occurs_at(
            u1 + v,
            i,
            pat,
        ) by {
            if i >= 0 {
                lemma_occurs_skip(s, 1, i, pat);
            }
        }
        lemma_replace_split(u1, v, pat, rep);
        assert(s[0] == u[0]);
    }
}

} // verus!
