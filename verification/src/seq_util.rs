//! Generic facts about sequences used by the contracts of this crate.

use vstd::prelude::*;

verus! {

/// Index of the first element of `s` that satisfies `p`, or `s.len()` when none does.
pub open spec fn first_where<A>(s: Seq<A>, p: spec_fn(A) -> bool) -> nat
    decreases s.len(),
{
    if s.len() == 0 {
        0
    } else if p(s[0]) {
        0
    } else {
        1 + first_where(s.drop_first(), p)
    }
}

/// `first_where` is the first index that satisfies `p`, or the length.
pub proof fn lemma_first_where<A>(s: Seq<A>, p: spec_fn(A) -> bool)
    ensures
        first_where(s, p) <= s.len(),
        first_where(s, p) < s.len() ==> p(s[first_where(s, p) as int]),
        forall|j: int| 0 <= j < first_where(s, p) ==> !p(#[trigger] s[j]),
    decreases s.len(),
{
    if s.len() > 0 && !p(s[0]) {
        lemma_first_where(s.drop_first(), p);
        assert forall|j: int| 0 <= j < first_where(s, p) implies !p(#[trigger] s[j]) by {
            if j > 0 {
                assert(s[j] == s.drop_first()[j - 1]);
            }
        }
    }
}

/// An index `k` that satisfies `p`, with no earlier one, is `first_where`.
pub proof fn lemma_first_where_at<A>(s: Seq<A>, p: spec_fn(A) -> bool, k: int)
    requires
        0 <= k <= s.len(),
        k < s.len() ==> p(s[k]),
        forall|j: int| 0 <= j < k ==> !p(#[trigger] s[j]),
    ensures
        first_where(s, p) == k,
    decreases s.len(),
{
    if s.len() > 0 && k > 0 {
        assert(!p(s[0]));
        assert forall|j: int| 0 <= j < k - 1 implies !p(#[trigger] s.drop_first()[j]) by {
            assert(s.drop_first()[j] == s[j + 1]);
        }
        lemma_first_where_at(s.drop_first(), p, k - 1);
    }
}


/// The first element of `s` that satisfies `p`, if any.
pub open spec fn first_in<A>(s: Seq<A>, p: spec_fn(A) -> bool) -> Option<A> {
    let k = first_where(s, p);
    if k < s.len() {
        Some(s[k as int])
    } else {
        None
    }
}

/// `first_where` over a concatenation.
pub proof fn lemma_first_where_concat<A>(a: Seq<A>, b: Seq<A>, p: spec_fn(A) -> bool)
    ensures
        first_where(a + b, p) == (if first_where(a, p) < a.len() {
            first_where(a, p)
        } else {
            a.len() + first_where(b, p)
        }),
{
    lemma_first_where(a, p);
    lemma_first_where(b, p);
    let ab = a + b;
    if first_where(a, p) < a.len() {
        let k = first_where(a, p) as int;
        assert forall|j: int| 0 <= j < k implies !p(#[trigger] ab[j]) by {
            assert(ab[j] == a[j]);
        }
        assert(ab[k] == a[k]);
        lemma_first_where_at(ab, p, k);
    } else {
        let k = (a.len() + first_where(b, p)) as int;
        assert forall|j: int| 0 <= j < k implies !p(#[trigger] ab[j]) by {
            if j < a.len() {
                assert(ab[j] == a[j]);
            } else {
                assert(ab[j] == b[j - a.len()]);
            }
        }
        if k < ab.len() {
            assert(ab[k] == b[k - a.len()]);
        }
        lemma_first_where_at(ab, p, k);
    }
}

/// When a prefix of `s` already has a match, it is the first match of `s`.
pub proof fn lemma_first_where_prefix<A>(s: Seq<A>, n: int, p: spec_fn(A) -> bool)
    requires
        0 <= n <= s.len(),
        first_where(s.take(n), p) < n,
    ensures
        first_where(s, p) == first_where(s.take(n), p),
{
    assert(s =~= s.take(n) + s.skip(n));
    lemma_first_where_concat(s.take(n), s.skip(n), p);
}

} // verus!
