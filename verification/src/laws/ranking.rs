//! Choosing by a test and ordering by a key.

use vstd::prelude::*;

verus! {

/// Whether one place comes before another: the greater key first, and of equal keys the
/// earlier place.
pub open spec fn comes_first(key: spec_fn(int) -> int, i: int, j: int) -> bool {
    key(i) > key(j) || (key(i) == key(j) && i < j)
}

/// Whether some places are a ranking of those below `n` that pass a test: only such,
/// each before all that it comes first of, and no more than `limit`. One that passes is
/// left out only where the limit is reached by places that come first of it.
pub open spec fn is_ranking(
    r: Seq<int>,
    n: nat,
    test: spec_fn(int) -> bool,
    key: spec_fn(int) -> int,
    limit: int,
) -> bool {
    &&& r.len() <= limit
    &&& forall|k: int| 0 <= k < r.len() ==> 0 <= #[trigger] r[k] < n && test(r[k])
    &&& forall|k: int, l: int|
        0 <= k < l < r.len() ==> comes_first(key, #[trigger] r[k], #[trigger] r[l])
    &&& forall|i: int|
        0 <= i < n && #[trigger] test(i) && !r.contains(i) ==> r.len() == limit && forall|k: int|
            0 <= k < r.len() ==> comes_first(key, #[trigger] r[k], i)
}

/// A test that picks the same picks the same places.
pub proof fn lemma_same_picks(n: nat, a: spec_fn(int) -> bool, b: spec_fn(int) -> bool)
    requires
        forall|i: int| 0 <= i < n ==> #[trigger] a(i) == b(i),
    ensures
        crate::rank::picked(n, a) == crate::rank::picked(n, b),
    decreases n,
{
    if n > 0 {
        lemma_same_picks((n - 1) as nat, a, b);
        assert(a(n - 1) == b(n - 1));
    }
}

/// A ranking of keys holds every place once.
pub proof fn lemma_all_places(keys: Seq<int>)
    ensures
        forall|k: int|
            0 <= k < keys.len() ==> #[trigger] crate::rank::best_first(keys).contains(k),
        crate::rank::best_first(keys).no_duplicates(),
{
    let best = crate::rank::best_first(keys);
    let all = crate::rank::places(keys.len());
    crate::rank::law_best_first(keys);
    best.to_multiset_ensures();
    all.to_multiset_ensures();
    assert forall|k: int| 0 <= k < keys.len() implies #[trigger] best.contains(k) by {
        assert(all[k] == k);
        assert(all.contains(k));
        assert(all.to_multiset().count(k) > 0);
        assert(best.to_multiset().count(k) > 0);
    }
    assert(all.no_duplicates());
    all.lemma_multiset_has_no_duplicates();
    best.lemma_multiset_has_no_duplicates_conv();
}

/// Picking by a test, ordering by a key and taking the first few is a ranking.
pub proof fn lemma_ranking(
    n: nat,
    test: spec_fn(int) -> bool,
    key: spec_fn(int) -> int,
    limit: int,
)
    requires
        limit >= 0,
    ensures
        ({
            let picks = crate::rank::picked(n, test);
            let best = crate::rank::best_first(picks.map_values(key));
            let r = Seq::new(best.len(), |k: int| picks[best[k]]);
            is_ranking(crate::rank::at_most(r, limit), n, test, key, limit)
        }),
{
    let picks = crate::rank::picked(n, test);
    let keys = picks.map_values(key);
    let best = crate::rank::best_first(keys);
    let all = Seq::new(best.len(), |k: int| picks[best[k]]);
    let r = crate::rank::at_most(all, limit);
    crate::rank::lemma_picked(n, test);
    crate::rank::law_best_first(keys);
    lemma_all_places(keys);
    assert forall|k: int, l: int| 0 <= k < l < all.len() implies comes_first(
        key,
        #[trigger] all[k],
        #[trigger] all[l],
    ) by {
        let i = best[k];
        let j = best[l];
        assert(i != j);
        assert(crate::rank::ranks_first(keys)(i, j));
        assert(keys[i] == key(picks[i]) && keys[j] == key(picks[j]));
        if i < j {
            assert(picks[i] < picks[j]);
        }
    }
    assert forall|k: int| 0 <= k < r.len() implies #[trigger] r[k] == all[k] by {}
    assert forall|k: int, l: int| 0 <= k < l < r.len() implies comes_first(
        key,
        #[trigger] r[k],
        #[trigger] r[l],
    ) by {
        assert(r[k] == all[k] && r[l] == all[l]);
        assert(comes_first(key, all[k], all[l]));
    }
    assert forall|k: int| 0 <= k < r.len() implies 0 <= #[trigger] r[k] < n && test(r[k]) by {
        assert(r[k] == picks[best[k]]);
    }
    assert forall|i: int| 0 <= i < n && #[trigger] test(i) && !r.contains(i) implies r.len()
        == limit && forall|k: int| 0 <= k < r.len() ==> comes_first(key, #[trigger] r[k], i) by {
        assert(picks.contains(i));
        let p = choose|p: int| 0 <= p < picks.len() && picks[p] == i;
        assert(best.contains(p));
        let m = choose|m: int| 0 <= m < best.len() && best[m] == p;
        assert(all[m] == i);
        if m < r.len() {
            assert(r[m] == i);
        }
        assert forall|k: int| 0 <= k < r.len() implies comes_first(key, #[trigger] r[k], i) by {
            assert(comes_first(key, all[k], all[m]));
        }
    }
}

} // verus!
