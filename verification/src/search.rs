//! Finding the first item of a sequence that answers a question.

use vstd::prelude::*;

verus! {

/// Whether `i` is the index of the first item of `items` that satisfies `wanted`.
pub open spec fn is_first<T>(items: Seq<T>, wanted: spec_fn(T) -> bool, i: int) -> bool {
    &&& 0 <= i < items.len()
    &&& wanted(items[i])
    &&& forall|j: int| 0 <= j < i ==> !wanted(#[trigger] items[j])
}

/// The index of the first item that satisfies `wanted`, if there is one.
pub open spec fn first_index<T>(items: Seq<T>, wanted: spec_fn(T) -> bool) -> Option<int> {
    if exists|i: int| is_first(items, wanted, i) {
        Some(choose|i: int| is_first(items, wanted, i))
    } else {
        None
    }
}

/// An index that is first is the first index.
pub proof fn lemma_first_index_found<T>(items: Seq<T>, wanted: spec_fn(T) -> bool, i: int)
    requires
        is_first(items, wanted, i),
    ensures
        first_index(items, wanted) == Some(i),
{
    let c = choose|c: int| is_first(items, wanted, c);
    if c < i {
        assert(!wanted(items[c]));
    }
    if i < c {
        assert(!wanted(items[i]));
    }
}

/// Where no item satisfies the question there is no first index.
pub proof fn lemma_first_index_absent<T>(items: Seq<T>, wanted: spec_fn(T) -> bool)
    requires
        forall|j: int| 0 <= j < items.len() ==> !wanted(#[trigger] items[j]),
    ensures
        first_index(items, wanted) is None,
{
    if exists|i: int| is_first(items, wanted, i) {
        let c = choose|c: int| is_first(items, wanted, c);
        assert(!wanted(items[c]));
    }
}

/// What the first index is: an index of a satisfying item before which no
/// item satisfies; and where there is none, no item satisfies.
pub proof fn lemma_first_index_is_first<T>(items: Seq<T>, wanted: spec_fn(T) -> bool)
    ensures
        match first_index(items, wanted) {
            Some(i) => is_first(items, wanted, i),
            None => forall|j: int| 0 <= j < items.len() ==> !wanted(#[trigger] items[j]),
        },
{
    if !(exists|i: int| is_first(items, wanted, i)) {
        assert forall|j: int| 0 <= j < items.len() implies !wanted(#[trigger] items[j]) by {
            if wanted(items[j]) {
                lemma_least_satisfying(items, wanted, j);
            }
        }
    }
}

proof fn lemma_least_satisfying<T>(items: Seq<T>, wanted: spec_fn(T) -> bool, j: int)
    requires
        0 <= j < items.len(),
        wanted(items[j]),
    ensures
        exists|i: int| is_first(items, wanted, i),
    decreases j,
{
    if exists|k: int| 0 <= k < j && wanted(items[k]) {
        let k = choose|k: int| 0 <= k < j && wanted(items[k]);
        lemma_least_satisfying(items, wanted, k);
    } else {
        assert(is_first(items, wanted, j));
    }
}

/// A sequence of distinct numbers below `n` has at most `n` items.
pub proof fn lemma_distinct_bounded(s: Seq<usize>, n: nat)
    requires
        s.no_duplicates(),
        forall|i: int| 0 <= i < s.len() ==> s[i] < n,
    ensures
        s.len() <= n,
    decreases n,
{
    if s.len() == 0 {
    } else if n == 0 {
        assert(s[0] < 0);
    } else if exists|i: int| 0 <= i < s.len() && s[i] == n - 1 {
        let i = choose|i: int| 0 <= i < s.len() && s[i] == n - 1;
        let r = s.remove(i);
        assert forall|j: int| 0 <= j < r.len() implies r[j] < n - 1 by {
            if j < i {
                assert(r[j] == s[j]);
            } else {
                assert(r[j] == s[j + 1]);
            }
        }
        assert(r.no_duplicates()) by {
            assert forall|a: int, b: int| 0 <= a < r.len() && 0 <= b < r.len() && a != b implies r[a]
                != r[b] by {
                let a2 = if a < i {
                    a
                } else {
                    a + 1
                };
                let b2 = if b < i {
                    b
                } else {
                    b + 1
                };
                assert(r[a] == s[a2] && r[b] == s[b2]);
            }
        }
        lemma_distinct_bounded(r, (n - 1) as nat);
    } else {
        lemma_distinct_bounded(s, (n - 1) as nat);
    }
}

} // verus!
