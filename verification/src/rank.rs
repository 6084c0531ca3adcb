//! Ranking: the greatest first, equals in the order they came in.

use vstd::prelude::*;

verus! {

/// Whether the item at `i` ranks before that at `j`, or is the same: a greater
/// key first, and the earlier item first where keys are equal.
pub open spec fn ranks_first(keys: Seq<int>) -> spec_fn(int, int) -> bool {
    |i: int, j: int| keys[i] > keys[j] || (keys[i] == keys[j] && i <= j)
}

/// The places of all items, in order.
pub open spec fn places(n: nat) -> Seq<int> {
    Seq::new(n, |i: int| i)
}

/// The places of all items, best first.
pub open spec fn best_first(keys: Seq<int>) -> Seq<int> {
    places(keys.len()).sort_by(ranks_first(keys))
}

/// Some keys as integers.
pub open spec fn ints(v: Seq<i128>) -> Seq<int> {
    v.map_values(|k: i128| k as int)
}

/// Some places as integers.
pub open spec fn indices(v: Seq<usize>) -> Seq<int> {
    v.map_values(|k: usize| k as int)
}

proof fn lemma_ranking_is_total(keys: Seq<int>)
    ensures
        vstd::relations::total_ordering(ranks_first(keys)),
{
    let r = ranks_first(keys);
    assert(vstd::relations::reflexive(r));
    assert(vstd::relations::antisymmetric(r));
    assert(vstd::relations::transitive(r)) by {
        assert forall|a: int, b: int, c: int|
            #![trigger r(a, b), r(b, c)]
            r(a, b) && r(b, c) implies r(a, c) by {}
    }
    assert(vstd::relations::strongly_connected(r));
}

/// A ranking holds every place once, and no better item comes behind a worse
/// one.
pub proof fn law_best_first(keys: Seq<int>)
    ensures
        best_first(keys).len() == keys.len(),
        best_first(keys).to_multiset() == places(keys.len()).to_multiset(),
        forall|a: int, b: int|
            #![trigger best_first(keys)[a], best_first(keys)[b]]
            0 <= a < b < best_first(keys).len() ==> ranks_first(keys)(
                best_first(keys)[a],
                best_first(keys)[b],
            ),
        forall|a: int|
            0 <= a < best_first(keys).len() ==> 0 <= #[trigger] best_first(keys)[a] < keys.len(),
{
    lemma_ranking_is_total(keys);
    let all = places(keys.len());
    let r = ranks_first(keys);
    all.lemma_sort_by_ensures(r);
    let best = best_first(keys);
    all.to_multiset_ensures();
    best.to_multiset_ensures();
    assert forall|a: int, b: int|
        #![trigger best[a], best[b]]
        0 <= a < b < best.len() implies r(best[a], best[b]) by {}
    assert forall|a: int| 0 <= a < best.len() implies 0 <= #[trigger] best[a] < keys.len() by {
        let x = best[a];
        assert(best.contains(x));
        if !all.contains(x) {
            assert(!best.contains(x));
        }
        let i = choose|i: int| 0 <= i < all.len() && all[i] == x;
        assert(all[i] == i);
    }
}

/// Ranks items by their keys.
pub fn ranked(keys: &Vec<i128>) -> (r: Vec<usize>)
    ensures
        indices(r@) == best_first(ints(keys@)),
        r@.len() == keys@.len(),
        forall|i: int| 0 <= i < r@.len() ==> #[trigger] r@[i] < keys@.len(),
{
    let ghost ks = ints(keys@);
    let ghost rel = ranks_first(ks);
    let ghost all = places(ks.len());
    let mut out: Vec<usize> = Vec::new();
    let mut i: usize = 0;
    proof {
        lemma_ranking_is_total(ks);
        assert(indices(out@) =~= all.take(0));
    }
    while i < keys.len()
        invariant
            i <= keys.len(),
            ks == ints(keys@),
            rel == ranks_first(ks),
            all == places(ks.len()),
            out@.len() == i,
            vstd::relations::total_ordering(rel),
            vstd::relations::sorted_by(indices(out@), rel),
            indices(out@).to_multiset() == all.take(i as int).to_multiset(),
            forall|k: int| 0 <= k < out@.len() ==> #[trigger] out@[k] < i,
        decreases keys.len() - i,
    {
        let ghost before = indices(out@);
        let mut at: usize = 0;
        while at < out.len() && keys[out[at]] >= keys[i]
            invariant
                at <= out.len(),
                i < keys.len(),
                out@.len() == i,
                before == indices(out@),
                ks == ints(keys@),
                rel == ranks_first(ks),
                forall|k: int| 0 <= k < out@.len() ==> #[trigger] out@[k] < i,
                forall|k: int| 0 <= k < at ==> rel(#[trigger] before[k], i as int),
            decreases out.len() - at,
        {
            assert(before[at as int] == out@[at as int]);
            assert(ks[out@[at as int] as int] == keys@[out@[at as int] as int]);
            assert(ks[i as int] == keys@[i as int]);
            at = at + 1;
        }
        proof {
            if at < out.len() {
                assert(before[at as int] == out@[at as int]);
                assert(ks[out@[at as int] as int] == keys@[out@[at as int] as int]);
                assert(ks[i as int] == keys@[i as int]);
                assert(rel(i as int, before[at as int]));
            }
            lemma_insert_ranked(before, rel, at as int, i as int);
        }
        out.insert(at, i);
        proof {
            assert(indices(out@) =~= before.insert(at as int, i as int));
            vstd::seq_lib::to_multiset_insert(before, at as int, i as int);
            assert(all.take(i + 1) =~= all.take(i as int).push(all[i as int]));
            all.take(i as int).to_multiset_ensures();
        }
        i = i + 1;
    }
    proof {
        assert(all.take(i as int) =~= all);
        all.lemma_sort_by_ensures(rel);
        vstd::seq_lib::lemma_sorted_unique(indices(out@), best_first(ks), rel);
    }
    out
}

proof fn lemma_insert_ranked(s: Seq<int>, r: spec_fn(int, int) -> bool, at: int, x: int)
    requires
        0 <= at <= s.len(),
        vstd::relations::total_ordering(r),
        vstd::relations::sorted_by(s, r),
        forall|k: int| 0 <= k < at ==> r(#[trigger] s[k], x),
        at < s.len() ==> r(x, s[at]),
    ensures
        vstd::relations::sorted_by(s.insert(at, x), r),
{
    let t = s.insert(at, x);
    assert forall|i: int, j: int| 0 <= i < j < t.len() implies #[trigger] r(t[i], t[j]) by {
        if i < at && j < at {
            assert(r(s[i], s[j]));
        } else if i < at && j == at {
            assert(r(s[i], x));
        } else if i < at {
            assert(r(s[i], s[j - 1]));
        } else if i == at {
            if j - 1 > at {
                assert(r(s[at], s[j - 1]));
                assert(r(x, s[at]));
            }
        } else {
            assert(r(s[i - 1], s[j - 1]));
        }
    }
}

/// The places below `n` that a test picks, in order.
pub open spec fn picked(n: nat, test: spec_fn(int) -> bool) -> Seq<int>
    decreases n,
{
    if n == 0 {
        Seq::empty()
    } else if test(n - 1) {
        picked((n - 1) as nat, test).push(n - 1)
    } else {
        picked((n - 1) as nat, test)
    }
}

/// What a test picks is below the bound, passes the test, and is in order;
/// and whatever passes is picked.
pub proof fn lemma_picked(n: nat, test: spec_fn(int) -> bool)
    ensures
        forall|i: int|
            0 <= i < picked(n, test).len() ==> 0 <= #[trigger] picked(n, test)[i] < n && test(
                picked(n, test)[i],
            ),
        forall|i: int, j: int|
            0 <= i < j < picked(n, test).len() ==> #[trigger] picked(n, test)[i]
                < #[trigger] picked(n, test)[j],
        forall|k: int| 0 <= k < n && #[trigger] test(k) ==> picked(n, test).contains(k),
        picked(n, test).len() <= n,
    decreases n,
{
    if n > 0 {
        let m = (n - 1) as nat;
        lemma_picked(m, test);
        let s = picked(m, test);
        let t = picked(n, test);
        if test(m as int) {
            assert(t == s.push(m as int));
            assert forall|k: int| 0 <= k < n && #[trigger] test(k) implies t.contains(k) by {
                if k == m {
                    assert(t[s.len() as int] == k);
                } else {
                    let i = choose|i: int| 0 <= i < s.len() && s[i] == k;
                    assert(t[i] == k);
                }
            }
        }
    }
}

/// The first few of a sequence.
pub open spec fn at_most<A>(s: Seq<A>, n: int) -> Seq<A> {
    if n < s.len() {
        s.take(n)
    } else {
        s
    }
}

} // verus!
