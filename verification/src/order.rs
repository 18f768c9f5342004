//! A stable sort by a total preorder, stated as: the output is a permutation
//! of the input, ordered by the key, with equal keys in input order.

use vstd::prelude::*;
use vstd::set_lib::{lemma_int_range, lemma_subset_equality, set_int_range};

verus! {

/// `le` is a total preorder: total and transitive.
pub open spec fn total_preorder<T>(le: spec_fn(T, T) -> bool) -> bool {
    &&& forall|a: T, b: T| #[trigger] le(a, b) || le(b, a)
    &&& forall|a: T, b: T, c: T| #[trigger] le(a, b) && #[trigger] le(b, c) ==> le(a, c)
}

/// `perm` lists each of `0..n` exactly once.
pub open spec fn is_perm(perm: Seq<int>, n: nat) -> bool {
    &&& perm.len() == n
    &&& forall|k: int| 0 <= k < n ==> 0 <= #[trigger] perm[k] < n
    &&& forall|k: int, l: int| 0 <= k < n && 0 <= l < n && k != l ==> perm[k] != perm[l]
}

/// `out` is `input` rearranged by `perm`, ordered by `le`, with elements of
/// equal key kept in their input order.
pub open spec fn stably_sorted_by<T>(
    input: Seq<T>,
    out: Seq<T>,
    perm: Seq<int>,
    le: spec_fn(T, T) -> bool,
) -> bool {
    &&& is_perm(perm, input.len())
    &&& out.len() == input.len()
    &&& forall|k: int| 0 <= k < out.len() ==> #[trigger] out[k] == input[perm[k]]
    &&& forall|k: int, l: int|
        0 <= k < l < out.len() ==> le(#[trigger] out[k], #[trigger] out[l]) && (le(out[l], out[k])
            ==> perm[k] < perm[l])
}

/// The stable sort of `input` by `le`.
pub open spec fn is_stable_sort<T>(input: Seq<T>, out: Seq<T>, le: spec_fn(T, T) -> bool) -> bool {
    exists|perm: Seq<int>| stably_sorted_by(input, out, perm, le)
}

/// Sort `v` stably by `le`, whose meaning is `spec_le`.
pub fn stable_sort<T, F: Fn(&T, &T) -> bool>(v: Vec<T>, le: F, Ghost(spec_le): Ghost<
    spec_fn(T, T) -> bool,
>) -> (out: Vec<T>)
    requires
        forall|a: &T, b: &T| #[trigger] le.requires((a, b)),
        forall|a: &T, b: &T, r: bool| le.ensures((a, b), r) ==> r == spec_le(*a, *b),
        total_preorder(spec_le),
    ensures
        is_stable_sort(v@, out@, spec_le),
{
    let ghost input = v@;
    let mut v = v;
    let mut out: Vec<T> = Vec::new();
    let ghost mut perm: Seq<int> = Seq::empty();
    while v.len() > 0
        invariant
            forall|a: &T, b: &T| #[trigger] le.requires((a, b)),
            forall|a: &T, b: &T, r: bool| le.ensures((a, b), r) ==> r == spec_le(*a, *b),
            total_preorder(spec_le),
            v@ == input.take(v@.len() as int),
            v@.len() <= input.len(),
            out@.len() + v@.len() == input.len(),
            perm.len() == out@.len(),
            forall|k: int| 0 <= k < out@.len() ==> v@.len() <= #[trigger] perm[k] < input.len(),
            forall|k: int, l: int|
                0 <= k < out@.len() && 0 <= l < out@.len() && k != l ==> perm[k] != perm[l],
            forall|k: int| 0 <= k < out@.len() ==> #[trigger] out@[k] == input[perm[k]],
            forall|k: int, l: int|
                0 <= k < l < out@.len() ==> spec_le(#[trigger] out@[k], #[trigger] out@[l]) && (
                spec_le(out@[l], out@[k]) ==> perm[k] < perm[l]),
        decreases v@.len(),
    {
        let x = v.pop().unwrap();
        let ghost i = v@.len() as int;
        assert(x == input[i]);
        let mut p: usize = 0;
        while p < out.len() && !le(&x, &out[p])
            invariant
                forall|a: &T, b: &T| #[trigger] le.requires((a, b)),
                forall|a: &T, b: &T, r: bool| le.ensures((a, b), r) ==> r == spec_le(*a, *b),
                0 <= p <= out@.len(),
                forall|q: int| 0 <= q < p ==> !spec_le(x, #[trigger] out@[q]),
            decreases out@.len() - p,
        {
            p = p + 1;
        }
        let ghost old_out = out@;
        let ghost old_perm = perm;
        out.insert(p, x);
        proof {
            perm = old_perm.insert(p as int, i);
            assert forall|k: int| 0 <= k < out@.len() implies #[trigger] out@[k] == input[perm[k]] by {
                if k < p {
                    assert(out@[k] == old_out[k] && perm[k] == old_perm[k]);
                } else if k > p {
                    assert(out@[k] == old_out[k - 1] && perm[k] == old_perm[k - 1]);
                }
            }
            assert forall|k: int| 0 <= k < out@.len() implies v@.len() <= #[trigger] perm[k]
                < input.len() by {
                if k < p {
                    assert(perm[k] == old_perm[k]);
                } else if k > p {
                    assert(perm[k] == old_perm[k - 1]);
                }
            }
            assert forall|k: int, l: int|
                0 <= k < out@.len() && 0 <= l < out@.len() && k != l implies perm[k] != perm[l] by {
                if k < p {
                    assert(perm[k] == old_perm[k]);
                } else if k > p {
                    assert(perm[k] == old_perm[k - 1]);
                }
                if l < p {
                    assert(perm[l] == old_perm[l]);
                } else if l > p {
                    assert(perm[l] == old_perm[l - 1]);
                }
            }
            assert forall|k: int, l: int| 0 <= k < l < out@.len() implies spec_le(
                #[trigger] out@[k],
                #[trigger] out@[l],
            ) && (spec_le(out@[l], out@[k]) ==> perm[k] < perm[l]) by {
                if l < p {
                    assert(out@[k] == old_out[k] && out@[l] == old_out[l]);
                    assert(perm[k] == old_perm[k] && perm[l] == old_perm[l]);
                } else if l == p {
                    assert(out@[k] == old_out[k]);
                    assert(!spec_le(x, old_out[k]));
                    assert(spec_le(old_out[k], x));
                } else if k < p {
                    assert(out@[k] == old_out[k] && out@[l] == old_out[l - 1]);
                    assert(perm[k] == old_perm[k] && perm[l] == old_perm[l - 1]);
                } else if k == p {
                    assert(out@[l] == old_out[l - 1]);
                    assert(perm[l] == old_perm[l - 1]);
                    assert(p < old_out.len());
                    assert(spec_le(x, old_out[p as int]));
                    if l - 1 > p {
                        assert(spec_le(old_out[p as int], old_out[l - 1]));
                    }
                } else {
                    assert(out@[k] == old_out[k - 1] && out@[l] == old_out[l - 1]);
                    assert(perm[k] == old_perm[k - 1] && perm[l] == old_perm[l - 1]);
                }
            }
            assert(v@ =~= input.take(v@.len() as int));
        }
    }
    proof {
        assert(stably_sorted_by(input, out@, perm, spec_le));
    }
    out
}


/// The stable sort of `input` by `le` (unique when `le` is a total preorder,
/// see `lemma_stable_sort_unique`).
pub open spec fn sorted_by<T>(input: Seq<T>, le: spec_fn(T, T) -> bool) -> Seq<T> {
    choose|out: Seq<T>| is_stable_sort(input, out, le)
}

/// A permutation of `0..n` takes every value of `0..n`.
proof fn lemma_perm_onto(perm: Seq<int>, n: nat, y: int)
    requires
        is_perm(perm, n),
        0 <= y < n,
    ensures
        exists|k: int| 0 <= k < n && perm[k] == y,
{
    let range = set_int_range(0, n as int);
    lemma_int_range(0, n as int);
    assert(perm.no_duplicates()) by {
        assert forall|i: int, j: int| 0 <= i < perm.len() && 0 <= j < perm.len() && i != j implies perm[i] != perm[j] by {}
    }
    perm.unique_seq_to_set();
    assert(perm.to_set().subset_of(range)) by {
        assert forall|x: int| perm.to_set().contains(x) implies range.contains(x) by {
            let k = choose|k: int| 0 <= k < perm.len() && perm[k] == x;
        }
    }
    lemma_subset_equality(perm.to_set(), range);
    assert(range.contains(y));
    assert(perm.to_set().contains(y));
}

/// Two stable sorts of one input by one total preorder use the same
/// permutation up to position `k`.
proof fn lemma_stable_perms_agree<T>(
    input: Seq<T>,
    out1: Seq<T>,
    p1: Seq<int>,
    out2: Seq<T>,
    p2: Seq<int>,
    le: spec_fn(T, T) -> bool,
    k: int,
)
    requires
        total_preorder(le),
        stably_sorted_by(input, out1, p1, le),
        stably_sorted_by(input, out2, p2, le),
        0 <= k < input.len(),
    ensures
        forall|j: int| 0 <= j <= k ==> p1[j] == p2[j],
    decreases k,
{
    let n = input.len();
    if k > 0 {
        lemma_stable_perms_agree(input, out1, p1, out2, p2, le, k - 1);
    }
    let x = p1[k];
    let y = p2[k];
    if x != y {
        lemma_perm_onto(p1, n, y);
        let m = choose|m: int| 0 <= m < n && p1[m] == y;
        lemma_perm_onto(p2, n, x);
        let m2 = choose|m: int| 0 <= m < n && p2[m] == x;
        if m < k {
            assert(p2[m] == y);
        }
        if m2 < k {
            assert(p1[m2] == x);
        }
        assert(k < m && k < m2);
        assert(le(out1[k], out1[m]) && (le(out1[m], out1[k]) ==> p1[k] < p1[m]));
        assert(le(out2[k], out2[m2]) && (le(out2[m2], out2[k]) ==> p2[k] < p2[m2]));
        assert(out1[k] == input[x] && out1[m] == input[y]);
        assert(out2[k] == input[y] && out2[m2] == input[x]);
    }
}

/// A stable sort by a total preorder is unique: any two agree.
pub proof fn lemma_stable_sort_unique<T>(
    input: Seq<T>,
    out1: Seq<T>,
    out2: Seq<T>,
    le: spec_fn(T, T) -> bool,
)
    requires
        total_preorder(le),
        is_stable_sort(input, out1, le),
        is_stable_sort(input, out2, le),
    ensures
        out1 == out2,
{
    let p1 = choose|p: Seq<int>| stably_sorted_by(input, out1, p, le);
    let p2 = choose|p: Seq<int>| stably_sorted_by(input, out2, p, le);
    if input.len() > 0 {
        lemma_stable_perms_agree(input, out1, p1, out2, p2, le, input.len() - 1);
        assert forall|k: int| 0 <= k < out1.len() implies out1[k] == out2[k] by {
            assert(out1[k] == input[p1[k]]);
            assert(out2[k] == input[p2[k]]);
        }
    }
    assert(out1 =~= out2);
}

/// How many leading elements of `s` are at most `x`.
spec fn lead_le<T>(s: Seq<T>, x: T, le: spec_fn(T, T) -> bool) -> nat
    decreases s.len(),
{
    if s.len() > 0 && le(s[0], x) {
        1 + lead_le(s.drop_first(), x, le)
    } else {
        0
    }
}

proof fn lemma_lead_le<T>(s: Seq<T>, x: T, le: spec_fn(T, T) -> bool)
    ensures
        lead_le(s, x, le) <= s.len(),
        forall|k: int| 0 <= k < lead_le(s, x, le) ==> le(#[trigger] s[k], x),
        lead_le(s, x, le) < s.len() ==> !le(s[lead_le(s, x, le) as int], x),
    decreases s.len(),
{
    if s.len() > 0 && le(s[0], x) {
        lemma_lead_le(s.drop_first(), x, le);
        assert forall|k: int| 0 <= k < lead_le(s, x, le) implies le(#[trigger] s[k], x) by {
            if k > 0 {
                assert(s[k] == s.drop_first()[k - 1]);
            }
        }
    }
}

/// Every sequence has a stable sort by a total preorder.
pub proof fn lemma_stable_sort_exists<T>(s: Seq<T>, le: spec_fn(T, T) -> bool)
    requires
        total_preorder(le),
    ensures
        exists|out: Seq<T>| is_stable_sort(s, out, le),
    decreases s.len(),
{
    if s.len() == 0 {
        let perm = Seq::<int>::empty();
        assert(stably_sorted_by(s, s, perm, le));
        assert(is_stable_sort(s, s, le));
    } else {
        let s0 = s.drop_last();
        let x = s.last();
        let n0 = s0.len() as int;
        lemma_stable_sort_exists(s0, le);
        let o0 = choose|out: Seq<T>| is_stable_sort(s0, out, le);
        let p0 = choose|perm: Seq<int>| stably_sorted_by(s0, o0, perm, le);
        lemma_lead_le(o0, x, le);
        let q = lead_le(o0, x, le) as int;
        assert forall|k: int| q <= k < n0 implies !le(#[trigger] o0[k], x) by {
            if le(o0[k], x) {
                assert(le(o0[q], o0[k]));
            }
        }
        let out = o0.insert(q, x);
        let perm = p0.insert(q, n0);
        assert forall|k: int| 0 <= k < out.len() implies #[trigger] out[k] == s[perm[k]] by {
            if k < q {
                assert(out[k] == o0[k] && perm[k] == p0[k]);
            } else if k > q {
                assert(out[k] == o0[k - 1] && perm[k] == p0[k - 1]);
            }
        }
        assert forall|k: int| 0 <= k < s.len() implies 0 <= #[trigger] perm[k] < s.len() by {
            if k < q {
                assert(perm[k] == p0[k]);
            } else if k > q {
                assert(perm[k] == p0[k - 1]);
            }
        }
        assert forall|k: int, l: int|
            0 <= k < s.len() && 0 <= l < s.len() && k != l implies perm[k] != perm[l] by {
            if k != q && l != q {
                let k0 = if k < q { k } else { k - 1 };
                let l0 = if l < q { l } else { l - 1 };
                assert(perm[k] == p0[k0] && perm[l] == p0[l0]);
            } else if k == q {
                let l0 = if l < q { l } else { l - 1 };
                assert(perm[l] == p0[l0]);
            } else {
                let k0 = if k < q { k } else { k - 1 };
                assert(perm[k] == p0[k0]);
            }
        }
        assert forall|k: int, l: int|
            0 <= k < l < out.len() implies le(#[trigger] out[k], #[trigger] out[l]) && (le(out[l], out[k])
            ==> perm[k] < perm[l]) by {
            if k != q && l != q {
                let k0 = if k < q { k } else { k - 1 };
                let l0 = if l < q { l } else { l - 1 };
                assert(out[k] == o0[k0] && perm[k] == p0[k0]);
                assert(out[l] == o0[l0] && perm[l] == p0[l0]);
            } else if k == q {
                assert(out[l] == o0[l - 1] && perm[l] == p0[l - 1]);
                assert(!le(o0[l - 1], x));
            } else {
                assert(out[k] == o0[k] && perm[k] == p0[k]);
                assert(le(o0[k], x));
            }
        }
        assert(stably_sorted_by(s, out, perm, le));
        assert(is_stable_sort(s, out, le));
    }
}

/// A stable sort keeps every element of its input.
pub proof fn lemma_stable_sort_keeps<T>(input: Seq<T>, out: Seq<T>, le: spec_fn(T, T) -> bool, j: int)
    requires
        is_stable_sort(input, out, le),
        0 <= j < input.len(),
    ensures
        out.contains(input[j]),
{
    let perm = choose|perm: Seq<int>| stably_sorted_by(input, out, perm, le);
    lemma_perm_onto(perm, input.len(), j);
    let k = choose|k: int| 0 <= k < input.len() && perm[k] == j;
    assert(out[k] == input[j]);
}

/// Any stable sort by a total preorder is `sorted_by`.
pub proof fn lemma_sorted_by<T>(input: Seq<T>, out: Seq<T>, le: spec_fn(T, T) -> bool)
    requires
        total_preorder(le),
        is_stable_sort(input, out, le),
    ensures
        sorted_by(input, le) == out,
{
    lemma_stable_sort_unique(input, sorted_by(input, le), out, le);
}

} // verus!
