//! The pairs of indices below a bound, in the order in which the conflict
//! passes look at them.

use vstd::prelude::*;

verus! {

/// The pairs `(a, b)` with `a < b < n`, in lexicographic order, from the pair
/// `(i, j)` on.
pub open spec fn pairs_from(i: int, j: int, n: int) -> Seq<(int, int)>
    decreases n - i, n - j,
{
    if i + 1 >= n || i < 0 {
        Seq::empty()
    } else if j >= n {
        pairs_from(i + 1, i + 2, n)
    } else if j <= i {
        Seq::empty()
    } else {
        seq![(i, j)] + pairs_from(i, j + 1, n)
    }
}

/// All pairs `(a, b)` with `a < b < n`, in lexicographic order.
pub open spec fn index_pairs_of(n: int) -> Seq<(int, int)> {
    pairs_from(0, 1, n)
}

/// Every pair has its first index below its second, and that below the bound.
pub proof fn lemma_pairs_in_bounds(i: int, j: int, n: int)
    requires
        0 <= i < j,
    ensures
        forall|k: int|
            0 <= k < pairs_from(i, j, n).len() ==> 0 <= (#[trigger] pairs_from(i, j, n)[k]).0
                < pairs_from(i, j, n)[k].1 < n,
    decreases n - i, n - j,
{
    if i + 1 >= n {
        assert(pairs_from(i, j, n) =~= Seq::empty());
    } else if j >= n {
        lemma_pairs_in_bounds(i + 1, i + 2, n);
        assert(pairs_from(i, j, n) == pairs_from(i + 1, i + 2, n));
    } else {
        lemma_pairs_in_bounds(i, j + 1, n);
        let rest = pairs_from(i, j + 1, n);
        let all = pairs_from(i, j, n);
        assert(all == seq![(i, j)] + rest);
        assert forall|k: int| 0 <= k < all.len() implies 0 <= (#[trigger] all[k]).0 < all[k].1
            < n by {
            if k > 0 {
                assert(all[k] == rest[k - 1]);
            }
        }
    }
}

/// `Itertools::combinations` of size two over the indices below `n`: every
/// choice of two indices, the lower first, in lexicographic order.
#[verifier::external_body]
pub(crate) fn index_pairs(n: usize) -> (r: Vec<(usize, usize)>)
    ensures
        r@.len() == index_pairs_of(n as int).len(),
        forall|k: int|
            0 <= k < r@.len() ==> (#[trigger] r@[k]).0 == index_pairs_of(n as int)[k].0 && r@[k].1
                == index_pairs_of(n as int)[k].1,
{
    itertools::Itertools::combinations(0..n, 2).map(|pair| (pair[0], pair[1])).collect()
}

} // verus!
