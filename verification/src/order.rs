//! Texts in order.

use crate::text::chars_of;
use vstd::prelude::*;

verus! {

/// Whether a text comes before another, or is the same: by code points, from
/// the first character on.
pub open spec fn text_le(a: Seq<char>, b: Seq<char>) -> bool
    decreases a.len(),
{
    a.len() == 0 || (b.len() > 0 && (a[0] < b[0] || (a[0] == b[0] && text_le(
        a.skip(1),
        b.skip(1),
    ))))
}

/// The order of texts as a relation.
pub open spec fn by_text() -> spec_fn(Seq<char>, Seq<char>) -> bool {
    |a: Seq<char>, b: Seq<char>| text_le(a, b)
}

/// Texts, sorted.
pub open spec fn in_order(s: Seq<Seq<char>>) -> Seq<Seq<char>> {
    s.sort_by(by_text())
}

proof fn lemma_le_reflexive(a: Seq<char>)
    ensures
        text_le(a, a),
    decreases a.len(),
{
    if a.len() > 0 {
        lemma_le_reflexive(a.skip(1));
    }
}

proof fn lemma_le_antisymmetric(a: Seq<char>, b: Seq<char>)
    requires
        text_le(a, b),
        text_le(b, a),
    ensures
        a == b,
    decreases a.len(),
{
    if a.len() > 0 && b.len() > 0 {
        lemma_le_antisymmetric(a.skip(1), b.skip(1));
        assert(a =~= seq![a[0]] + a.skip(1));
        assert(b =~= seq![b[0]] + b.skip(1));
    } else {
        assert(a =~= b);
    }
}

proof fn lemma_le_transitive(a: Seq<char>, b: Seq<char>, c: Seq<char>)
    requires
        text_le(a, b),
        text_le(b, c),
    ensures
        text_le(a, c),
    decreases a.len(),
{
    if a.len() > 0 && a[0] == b[0] && b[0] == c[0] {
        lemma_le_transitive(a.skip(1), b.skip(1), c.skip(1));
    }
}

proof fn lemma_le_total(a: Seq<char>, b: Seq<char>)
    ensures
        text_le(a, b) || text_le(b, a),
    decreases a.len(),
{
    if a.len() > 0 && b.len() > 0 {
        lemma_le_total(a.skip(1), b.skip(1));
    }
}

/// The order of texts is total.
pub proof fn lemma_text_order()
    ensures
        vstd::relations::total_ordering(by_text()),
{
    let r = by_text();
    assert(vstd::relations::reflexive(r)) by {
        assert forall|a: Seq<char>| #[trigger] r(a, a) by {
            lemma_le_reflexive(a);
        }
    }
    assert(vstd::relations::antisymmetric(r)) by {
        assert forall|a: Seq<char>, b: Seq<char>|
            #[trigger] r(a, b) && #[trigger] r(b, a) implies a == b by {
            lemma_le_antisymmetric(a, b);
        }
    }
    assert(vstd::relations::transitive(r)) by {
        assert forall|a: Seq<char>, b: Seq<char>, c: Seq<char>|
            #![trigger r(a, b), r(b, c)]
            r(a, b) && r(b, c) implies r(a, c) by {
            lemma_le_transitive(a, b, c);
        }
    }
    assert(vstd::relations::strongly_connected(r)) by {
        assert forall|a: Seq<char>, b: Seq<char>| #[trigger] r(a, b) || r(b, a) by {
            lemma_le_total(a, b);
        }
    }
}

/// Sorting puts texts in order, and neither adds nor drops any.
pub proof fn lemma_in_order(s: Seq<Seq<char>>)
    ensures
        vstd::relations::sorted_by(in_order(s), by_text()),
        in_order(s).to_multiset() == s.to_multiset(),
{
    lemma_text_order();
    s.lemma_sort_by_ensures(by_text());
}

/// Two lists of the same texts, in whatever order, are the same list once
/// sorted.
pub proof fn lemma_order_is_canonical(a: Seq<Seq<char>>, b: Seq<Seq<char>>)
    requires
        a.to_multiset() == b.to_multiset(),
    ensures
        in_order(a) == in_order(b),
{
    lemma_text_order();
    lemma_in_order(a);
    lemma_in_order(b);
    vstd::seq_lib::lemma_sorted_unique(in_order(a), in_order(b), by_text());
}

/// Whether a text comes before another, or is the same.
pub fn not_after(a: &str, b: &str) -> (r: bool)
    ensures
        r == text_le(a@, b@),
{
    let v = chars_of(a);
    let w = chars_of(b);
    let mut i: usize = 0;
    assert(v@.skip(0) =~= v@);
    assert(w@.skip(0) =~= w@);
    loop
        invariant
            i <= v.len(),
            i <= w.len(),
            v@ == a@,
            w@ == b@,
            text_le(a@, b@) == text_le(v@.skip(i as int), w@.skip(i as int)),
        decreases v.len() - i,
    {
        if i == v.len() {
            return true;
        }
        if i == w.len() {
            return false;
        }
        if v[i] < w[i] {
            return true;
        }
        if w[i] < v[i] {
            return false;
        }
        assert(v@.skip(i as int).skip(1) =~= v@.skip(i + 1));
        assert(w@.skip(i as int).skip(1) =~= w@.skip(i + 1));
        i = i + 1;
    }
}

/// Sorts strings.
pub fn sorted(v: &Vec<String>) -> (r: Vec<String>)
    ensures
        crate::text::texts(r@) == in_order(crate::text::texts(v@)),
{
    let mut out: Vec<String> = Vec::new();
    let ghost all = crate::text::texts(v@);
    let mut i: usize = 0;
    proof {
        lemma_text_order();
        assert(crate::text::texts(out@) =~= all.take(0));
    }
    while i < v.len()
        invariant
            i <= v.len(),
            all == crate::text::texts(v@),
            vstd::relations::total_ordering(by_text()),
            vstd::relations::sorted_by(crate::text::texts(out@), by_text()),
            crate::text::texts(out@).to_multiset() == all.take(i as int).to_multiset(),
        decreases v.len() - i,
    {
        let ghost before = crate::text::texts(out@);
        let mut at: usize = 0;
        while at < out.len() && not_after(out[at].as_str(), v[i].as_str())
            invariant
                at <= out.len(),
                i < v.len(),
                before == crate::text::texts(out@),
                forall|k: int| 0 <= k < at ==> text_le(#[trigger] before[k], v@[i as int]@),
            decreases out.len() - at,
        {
            assert(before[at as int] == out@[at as int]@);
            at = at + 1;
        }
        let x = v[i].clone();
        proof {
            lemma_insert_sorted(before, at as int, x@);
            if at < out.len() {
                assert(before[at as int] == out@[at as int]@);
            }
        }
        out.insert(at, x);
        proof {
            assert(crate::text::texts(out@) =~= before.insert(at as int, x@));
            vstd::seq_lib::to_multiset_insert(before, at as int, x@);
            assert(all.take(i + 1) =~= all.take(i as int).push(all[i as int]));
            all.take(i as int).to_multiset_ensures();
        }
        i = i + 1;
    }
    proof {
        assert(all.take(i as int) =~= all);
        lemma_in_order(all);
        vstd::seq_lib::lemma_sorted_unique(crate::text::texts(out@), in_order(all), by_text());
    }
    out
}

/// Putting a text behind those that do not come after it keeps the order.
proof fn lemma_insert_sorted(s: Seq<Seq<char>>, at: int, x: Seq<char>)
    requires
        0 <= at <= s.len(),
        vstd::relations::sorted_by(s, by_text()),
        forall|k: int| 0 <= k < at ==> text_le(#[trigger] s[k], x),
    ensures
        at < s.len() && !text_le(s[at], x) ==> vstd::relations::sorted_by(
            s.insert(at, x),
            by_text(),
        ),
        at == s.len() ==> vstd::relations::sorted_by(s.insert(at, x), by_text()),
{
    let t = s.insert(at, x);
    let r = by_text();
    if at == s.len() || !text_le(s[at], x) {
        assert forall|i: int, j: int| 0 <= i < j < t.len() implies #[trigger] r(t[i], t[j]) by {
            if i < at && j < at {
                assert(r(s[i], s[j]));
            } else if i < at && j == at {
                assert(text_le(s[i], x));
            } else if i < at {
                assert(r(s[i], s[j - 1]));
            } else if i == at {
                lemma_le_total(s[at], x);
                if j - 1 > at {
                    assert(r(s[at], s[j - 1]));
                    lemma_le_transitive(x, s[at], s[j - 1]);
                }
            } else {
                assert(r(s[i - 1], s[j - 1]));
            }
        }
    }
}

} // verus!
