//! Finding the first element of a sequence that satisfies a predicate.
use vstd::prelude::*;

verus! {

/// The index of the first element of `s` that satisfies `p`.
pub open spec fn find_first<A>(s: Seq<A>, p: spec_fn(A) -> bool) -> Option<int>
    decreases s.len(),
{
    if s.len() == 0 {
        None
    } else if p(s[0]) {
        Some(0)
    } else {
        match find_first(s.drop_first(), p) {
            Some(i) => Some(i + 1),
            None => None,
        }
    }
}

/// `find_first` finds `k` when `s[k]` is the first element satisfying `p`, and nothing
/// when no element does.
pub proof fn lemma_find_first<A>(s: Seq<A>, p: spec_fn(A) -> bool, k: int)
    requires
        0 <= k <= s.len(),
        forall|j: int| 0 <= j < k ==> !p(#[trigger] s[j]),
    ensures
        k < s.len() && p(s[k]) ==> find_first(s, p) == Some(k),
        k == s.len() ==> find_first(s, p) is None,
    decreases k,
{
    if k > 0 {
        let t = s.drop_first();
        assert forall|j: int| 0 <= j < k - 1 implies !p(#[trigger] t[j]) by {
            assert(!p(s[j + 1]));
        }
        lemma_find_first(t, p, k - 1);
    }
}

/// What `find_first` finds satisfies the predicate, and nothing before it does.
pub proof fn lemma_find_first_found<A>(s: Seq<A>, p: spec_fn(A) -> bool)
    ensures
        find_first(s, p) matches Some(k) ==> 0 <= k < s.len() && p(s[k]) && forall|j: int|
            0 <= j < k ==> !p(#[trigger] s[j]),
        find_first(s, p) is None ==> forall|j: int| 0 <= j < s.len() ==> !p(#[trigger] s[j]),
    decreases s.len(),
{
    if s.len() > 0 {
        let t = s.drop_first();
        lemma_find_first_found(t, p);
        if !p(s[0]) {
            assert forall|j: int| 1 <= j < s.len() && find_first(t, p) is None implies !p(
                #[trigger] s[j],
            ) by {
                assert(s[j] == t[j - 1]);
            }
            if let Some(k) = find_first(t, p) {
                assert forall|j: int| 0 <= j < k + 1 implies !p(#[trigger] s[j]) by {
                    if j > 0 {
                        assert(s[j] == t[j - 1]);
                    }
                }
            }
        }
    }
}

/// The index of the last element of `s` that satisfies `p`.
pub open spec fn find_last<A>(s: Seq<A>, p: spec_fn(A) -> bool) -> Option<int>
    decreases s.len(),
{
    if s.len() == 0 {
        None
    } else if p(s.last()) {
        Some(s.len() - 1)
    } else {
        find_last(s.drop_last(), p)
    }
}

/// `find_last` finds `k` when `s[k]` is the last element satisfying `p`, and nothing
/// when no element does.
pub proof fn lemma_find_last<A>(s: Seq<A>, p: spec_fn(A) -> bool, k: int)
    requires
        -1 <= k < s.len(),
        forall|j: int| k < j < s.len() ==> !p(#[trigger] s[j]),
    ensures
        k >= 0 && p(s[k]) ==> find_last(s, p) == Some(k),
        k == -1 ==> find_last(s, p) is None,
    decreases s.len(),
{
    if s.len() > 0 && k < s.len() - 1 {
        let t = s.drop_last();
        assert forall|j: int| k < j < t.len() implies !p(#[trigger] t[j]) by {
            assert(!p(s[j]));
        }
        assert(!p(s[s.len() - 1]));
        lemma_find_last(t, p, k);
    }
}

/// What `find_last` finds satisfies the predicate, and nothing after it does.
pub proof fn lemma_find_last_found<A>(s: Seq<A>, p: spec_fn(A) -> bool)
    ensures
        find_last(s, p) matches Some(k) ==> 0 <= k < s.len() && p(s[k]) && forall|j: int|
            k < j < s.len() ==> !p(#[trigger] s[j]),
        find_last(s, p) is None ==> forall|j: int| 0 <= j < s.len() ==> !p(#[trigger] s[j]),
    decreases s.len(),
{
    if s.len() > 0 {
        let t = s.drop_last();
        lemma_find_last_found(t, p);
        if !p(s.last()) {
            assert forall|j: int| 0 <= j < s.len() - 1 implies s[j] == t[j] by {}
        }
    }
}

} // verus!
