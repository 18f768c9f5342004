//! Facts about `Seq::filter` used by the editing operations.

use vstd::prelude::*;

verus! {

broadcast use vstd::seq_lib::group_seq_properties;

/// Filtering a sequence extended by one element.
pub proof fn lemma_filter_push<A>(s: Seq<A>, p: spec_fn(A) -> bool, e: A)
    ensures
        p(e) ==> s.push(e).filter(p) == s.filter(p).push(e),
        !p(e) ==> s.push(e).filter(p) == s.filter(p),
{
    reveal(Seq::filter);
    assert(s.push(e).drop_last() =~= s);
}

/// An element of a filtered sequence is an element of the unfiltered one.
pub proof fn lemma_filter_member<A>(s: Seq<A>, p: spec_fn(A) -> bool, i: int)
    requires
        0 <= i < s.filter(p).len(),
    ensures
        s.contains(s.filter(p)[i]),
        p(s.filter(p)[i]),
{
    assert(s.filter(p).contains(s.filter(p)[i]));
    s.lemma_filter_contains_rev(p, s.filter(p)[i]);
    s.lemma_filter_pred(p, i);
}

/// An element that satisfies the predicate survives filtering.
pub proof fn lemma_filter_keeps<A>(s: Seq<A>, p: spec_fn(A) -> bool, i: int)
    requires
        0 <= i < s.len(),
        p(s[i]),
    ensures
        s.filter(p).contains(s[i]),
{
    s.lemma_filter_contains(p, i);
}

/// Filtering keeps a "no two positions are related" property.
pub proof fn lemma_filter_pairwise<A>(s: Seq<A>, p: spec_fn(A) -> bool, rel: spec_fn(A, A) -> bool)
    requires
        forall|i: int, j: int| 0 <= i < s.len() && 0 <= j < s.len() && i != j ==> !rel(s[i], s[j]),
    ensures
        forall|i: int, j: int|
            0 <= i < s.filter(p).len() && 0 <= j < s.filter(p).len() && i != j ==> !rel(
                s.filter(p)[i],
                s.filter(p)[j],
            ),
    decreases s.len(),
{
    reveal(Seq::filter);
    if s.len() > 0 {
        let t = s.drop_last();
        assert forall|i: int, j: int|
            0 <= i < t.len() && 0 <= j < t.len() && i != j implies !rel(t[i], t[j]) by {
            assert(t[i] == s[i] && t[j] == s[j]);
        }
        lemma_filter_pairwise(t, p, rel);
        let ft = t.filter(p);
        if p(s.last()) {
            let f = s.filter(p);
            assert(f == ft.push(s.last()));
            assert forall|i: int, j: int|
                0 <= i < f.len() && 0 <= j < f.len() && i != j implies !rel(f[i], f[j]) by {
                if i == f.len() - 1 && j < f.len() - 1 {
                    lemma_filter_member(t, p, j);
                    let k = choose|k: int| 0 <= k < t.len() && t[k] == ft[j];
                    assert(s[k] == f[j]);
                    assert(s[s.len() - 1] == f[i]);
                } else if j == f.len() - 1 && i < f.len() - 1 {
                    lemma_filter_member(t, p, i);
                    let k = choose|k: int| 0 <= k < t.len() && t[k] == ft[i];
                    assert(s[k] == f[i]);
                    assert(s[s.len() - 1] == f[j]);
                } else {
                    assert(f[i] == ft[i]);
                    assert(f[j] == ft[j]);
                }
            }
        }
    }
}


/// The first `f(x)` that is `Some`, scanning `s` from the front.
pub open spec fn find_map<A, B>(s: Seq<A>, f: spec_fn(A) -> Option<B>) -> Option<B>
    decreases s.len(),
{
    if s.len() == 0 {
        None
    } else {
        match f(s[0]) {
            Some(b) => Some(b),
            None => find_map(s.drop_first(), f),
        }
    }
}

/// Past a prefix where `f` finds nothing, the search continues on the rest.
pub proof fn lemma_find_map_skip<A, B>(s: Seq<A>, f: spec_fn(A) -> Option<B>, i: int)
    requires
        0 <= i <= s.len(),
        forall|j: int| 0 <= j < i ==> f(#[trigger] s[j]) is None,
    ensures
        find_map(s, f) == find_map(s.skip(i), f),
    decreases i,
{
    if i > 0 {
        assert(f(s[0]) is None);
        assert(s.drop_first().skip(i - 1) =~= s.skip(i));
        assert forall|j: int| 0 <= j < i - 1 implies f(#[trigger] s.drop_first()[j]) is None by {
            assert(s.drop_first()[j] == s[j + 1]);
        }
        lemma_find_map_skip(s.drop_first(), f, i - 1);
    } else {
        assert(s.skip(0) =~= s);
    }
}

} // verus!
