//! Who is checked in a tick, and what a check costs.

use crate::number::Real;
use crate::schema::{Fact, GeneratorHash, GroundBinding, GroundSource};
use vstd::prelude::*;

verus! {

/// The places of facts that can be checked: those that have a ground.
pub open spec fn has_ground(facts: Seq<Fact>) -> spec_fn(int) -> bool {
    |i: int| facts[i].grounds@.len() > 0
}

proof fn lemma_filter_keeps_order(
    s: Seq<int>,
    test: spec_fn(int) -> bool,
    key: spec_fn(int) -> int,
)
    requires
        forall|k: int, l: int|
            0 <= k < l < s.len() ==> super::ranking::comes_first(
                key,
                #[trigger] s[k],
                #[trigger] s[l],
            ),
    ensures
        forall|k: int|
            0 <= k < s.filter(test).len() ==> test(#[trigger] s.filter(test)[k]) && s.contains(
                s.filter(test)[k],
            ),
        forall|k: int, l: int|
            0 <= k < l < s.filter(test).len() ==> super::ranking::comes_first(
                key,
                #[trigger] s.filter(test)[k],
                #[trigger] s.filter(test)[l],
            ),
        forall|i: int| s.contains(i) && #[trigger] test(i) ==> s.filter(test).contains(i),
    decreases s.len(),
{
    reveal(Seq::filter);
    if s.len() > 0 {
        let front = s.drop_last();
        let kept = front.filter(test);
        assert forall|k: int, l: int| 0 <= k < l < front.len() implies super::ranking::comes_first(
            key,
            #[trigger] front[k],
            #[trigger] front[l],
        ) by {
            assert(front[k] == s[k] && front[l] == s[l]);
        }
        lemma_filter_keeps_order(front, test, key);
        let all = s.filter(test);
        assert forall|k: int| 0 <= k < all.len() implies test(#[trigger] all[k]) && s.contains(
            all[k],
        ) by {
            if k < kept.len() {
                assert(all[k] == kept[k]);
                let m = choose|m: int| 0 <= m < front.len() && front[m] == kept[k];
                assert(s[m] == all[k]);
            } else {
                assert(s[s.len() - 1] == all[k]);
            }
        }
        assert forall|k: int, l: int| 0 <= k < l < all.len() implies super::ranking::comes_first(
            key,
            #[trigger] all[k],
            #[trigger] all[l],
        ) by {
            assert(all[k] == kept[k]);
            if l < kept.len() {
                assert(all[l] == kept[l]);
            } else {
                assert(front.contains(kept[k]));
                let m = choose|m: int| 0 <= m < front.len() && front[m] == kept[k];
                assert(s[m] == all[k] && s[s.len() - 1] == all[l]);
            }
        }
        assert forall|i: int| s.contains(i) && #[trigger] test(i) implies all.contains(i) by {
            let m = choose|m: int| 0 <= m < s.len() && s[m] == i;
            if m < front.len() {
                assert(front[m] == i);
                assert(front.contains(i));
                assert(kept.contains(i));
                let n = choose|n: int| 0 <= n < kept.len() && kept[n] == i;
                assert(all[n] == i);
            } else {
                assert(all[all.len() - 1] == i);
            }
        }
    }
}

/// A tick checks facts that have a ground, the best score first, up to the budget; none
/// that is left out has a better score than one that is checked.
pub proof fn law_tick_checks_the_best(facts: Seq<Fact>, scores: Seq<Real>, per_tick: int)
    requires
        scores.len() == facts.len(),
        per_tick >= 0,
    ensures
        super::ranking::is_ranking(
            crate::scheduler::tick_of(facts, scores, per_tick),
            facts.len(),
            has_ground(facts),
            super::searching::score_order(scores),
            per_tick,
        ),
{
    let n = facts.len();
    let key = super::searching::score_order(scores);
    let test = crate::scheduler::checkable(facts);
    let keys = crate::scheduler::orders(scores);
    let best = crate::rank::best_first(keys);
    let yes = |i: int| true;
    crate::rank::lemma_picked(n, yes);
    let all = crate::rank::picked(n, yes);
    lemma_picked_all(n, yes);
    assert(all.map_values(key) =~= keys);
    super::ranking::lemma_ranking(n, yes, key, n as int);
    crate::rank::law_best_first(keys);
    let r = Seq::new(best.len(), |k: int| all[best[k]]);
    assert(r =~= best);
    assert(crate::rank::at_most(r, n as int) == r);
    lemma_filter_keeps_order(best, test, key);
    let kept = best.filter(test);
    let tick = crate::scheduler::tick_of(facts, scores, per_tick);
    assert forall|k: int| 0 <= k < tick.len() implies #[trigger] tick[k] == kept[k] by {}
    assert forall|k: int| 0 <= k < tick.len() implies 0 <= #[trigger] tick[k] < n && has_ground(
        facts,
    )(tick[k]) by {
        assert(test(kept[k]));
        assert(best.contains(kept[k]));
        let m = choose|m: int| 0 <= m < best.len() && best[m] == kept[k];
        assert(0 <= best[m] < n);
    }
    assert forall|k: int, l: int| 0 <= k < l < tick.len() implies super::ranking::comes_first(
        key,
        #[trigger] tick[k],
        #[trigger] tick[l],
    ) by {
        assert(tick[k] == kept[k] && tick[l] == kept[l]);
    }
    assert forall|i: int|
        0 <= i < n && #[trigger] has_ground(facts)(i) && !tick.contains(i) implies tick.len()
        == per_tick && forall|k: int|
        0 <= k < tick.len() ==> super::ranking::comes_first(key, #[trigger] tick[k], i) by {
        assert(test(i) && yes(i));
        super::ranking::lemma_all_places(keys);
        assert(best.contains(i));
        assert(kept.contains(i));
        let m = choose|m: int| 0 <= m < kept.len() && kept[m] == i;
        if m < tick.len() {
            assert(tick[m] == i);
        }
        assert forall|k: int| 0 <= k < tick.len() implies super::ranking::comes_first(
            key,
            #[trigger] tick[k],
            i,
        ) by {
            assert(tick[k] == kept[k]);
            assert(super::ranking::comes_first(key, kept[k], kept[m]));
        }
    }
}

proof fn lemma_picked_all(n: nat, yes: spec_fn(int) -> bool)
    requires
        forall|i: int| 0 <= i < n ==> #[trigger] yes(i),
    ensures
        crate::rank::picked(n, yes).len() == n,
        forall|k: int| 0 <= k < n ==> #[trigger] crate::rank::picked(n, yes)[k] == k,
    decreases n,
{
    if n > 0 {
        lemma_picked_all((n - 1) as nat, yes);
        assert(yes(n - 1));
    }
}

/// Facts ranked by their scores: every one, the best first.
pub proof fn law_ranking_goes_by_score(scores: Seq<Real>, a: int, b: int)
    requires
        0 <= a < b < scores.len(),
    ensures
        ({
            let best = crate::rank::best_first(crate::scheduler::orders(scores));
            &&& best.len() == scores.len()
            &&& super::ranking::comes_first(super::searching::score_order(scores), best[a], best[b])
        }),
{
    let keys = crate::scheduler::orders(scores);
    crate::rank::law_best_first(keys);
    super::ranking::lemma_all_places(keys);
    let best = crate::rank::best_first(keys);
    assert(best[a] != best[b]);
    assert(crate::rank::ranks_first(keys)(best[a], best[b]));
}

// ---------------------------------------------------------------------------
// Audits
// ---------------------------------------------------------------------------

/// Whether two grounds are checked by different verifiers. The ones that read a file or
/// run a command share one, and it differs from that of every generator and handler
/// whose hash is not its name.
pub open spec fn differ_in_verifier(a: GroundBinding, b: GroundBinding) -> bool {
    match (a.source, b.source) {
        (GroundSource::Generator(x), GroundSource::Generator(y)) => x.hash.0@ != y.hash.0@,
        (GroundSource::Generator(x), GroundSource::Handler(y)) => x.hash.0@ != y.handler.hash.0@,
        (GroundSource::Handler(x), GroundSource::Generator(y)) => x.handler.hash.0@ != y.hash.0@,
        (GroundSource::Handler(x), GroundSource::Handler(y)) => x.handler.hash.0@
            != y.handler.hash.0@,
        (GroundSource::Generator(x), _) => x.hash.0@ != "existence"@,
        (_, GroundSource::Generator(y)) => y.hash.0@ != "existence"@,
        (GroundSource::Handler(x), _) => x.handler.hash.0@ != "existence"@,
        (_, GroundSource::Handler(y)) => y.handler.hash.0@ != "existence"@,
        _ => false,
    }
}

/// The places of facts that an audit may fall on: two of the grounds differ in their
/// verifier, the fact is not checked in the tick anyway, and the draw fell on it.
pub open spec fn may_be_audited(
    facts: Seq<Fact>,
    selected: Seq<usize>,
    drawn: Seq<bool>,
) -> spec_fn(int) -> bool {
    |i: int|
        {
            &&& drawn[i]
            &&& exists|a: int, b: int|
                0 <= a < b < facts[i].grounds@.len() && differ_in_verifier(
                    #[trigger] facts[i].grounds@[a],
                    #[trigger] facts[i].grounds@[b],
                )
            &&& !exists|k: int|
                0 <= k < selected.len() && facts[(#[trigger] selected[k]) as int].id.0@
                    == facts[i].id.0@
        }
}

/// Audits fall on the facts that they may fall on, the most probable first, up to the
/// cap.
pub proof fn law_audits_take_the_most_probable(
    facts: Seq<Fact>,
    selected: Seq<usize>,
    drawn: Seq<bool>,
    probabilities: Seq<Real>,
    cap: int,
)
    requires
        cap >= 0,
        probabilities.len() == facts.len(),
    ensures
        super::ranking::is_ranking(
            crate::scheduler::audits_of(facts, selected, drawn, probabilities, cap),
            facts.len(),
            may_be_audited(facts, selected, drawn),
            super::searching::score_order(probabilities),
            cap,
        ),
{
    let n = facts.len();
    let given = crate::scheduler::is_audited(facts, selected, drawn);
    let test = may_be_audited(facts, selected, drawn);
    let key = super::searching::score_order(probabilities);
    assert forall|i: int| 0 <= i < n implies #[trigger] given(i) == test(i) by {
        let grounds = facts[i].grounds@;
        assert forall|a: int, b: int|
            0 <= a < grounds.len() && 0 <= b < grounds.len() implies differ_in_verifier(
            #[trigger] grounds[a],
            #[trigger] grounds[b],
        ) == (crate::scheduler::identity(grounds[a]) != crate::scheduler::identity(grounds[b])) by {
        }
        if given(i) {
            let (a, b) = choose|a: int, b: int|
                0 <= a < grounds.len() && 0 <= b < grounds.len() && crate::scheduler::identity(
                    #[trigger] grounds[a],
                ) != crate::scheduler::identity(#[trigger] grounds[b]);
            if a < b {
                assert(differ_in_verifier(facts[i].grounds@[a], facts[i].grounds@[b]));
            } else {
                assert(differ_in_verifier(facts[i].grounds@[b], facts[i].grounds@[a]));
            }
            assert(test(i));
        }
        if test(i) {
            let (a, b) = choose|a: int, b: int|
                0 <= a < b < grounds.len() && differ_in_verifier(
                    #[trigger] grounds[a],
                    #[trigger] grounds[b],
                );
            assert(crate::scheduler::identity(grounds[a]) != crate::scheduler::identity(
                grounds[b],
            ));
            assert(crate::scheduler::is_independent(grounds));
            assert(given(i));
        }
    }
    super::ranking::lemma_same_picks(n, given, test);
    let eligible = crate::rank::picked(n, test);
    crate::rank::lemma_picked(n, test);
    let keys = eligible.map_values(|i: int| probabilities[i].rank());
    assert(keys =~= eligible.map_values(key));
    super::ranking::lemma_ranking(n, test, key, cap);
    let best = crate::rank::best_first(keys);
    let all = Seq::new(best.len(), |k: int| eligible[best[k]]);
    assert(crate::scheduler::at_places(eligible, best) =~= all);
}

/// The number that bytes stand for, the lowest first.
pub open spec fn value_of(bytes: Seq<u8>) -> nat
    decreases bytes.len(),
{
    if bytes.len() == 0 {
        0
    } else {
        (bytes[0] + 256 * value_of(bytes.skip(1))) as nat
    }
}

/// The bytes of a number stand for that number, so that no two ticks share a clock.
pub proof fn law_clock_bytes_tell_ticks_apart(n: nat, count: nat)
    requires
        n < vstd::arithmetic::power::pow(256, count),
    ensures
        crate::scheduler::little_endian(n, count).len() == count,
        value_of(crate::scheduler::little_endian(n, count)) == n,
    decreases count,
{
    if count == 0 {
        vstd::arithmetic::power::lemma_pow0(256);
    } else {
        let less = (count - 1) as nat;
        let p = vstd::arithmetic::power::pow(256, less);
        vstd::arithmetic::power::lemma_pow_adds(256, 1, less);
        vstd::arithmetic::power::lemma_pow1(256);
        assert(n / 256 < p) by (nonlinear_arith)
            requires
                n < 256 * p,
        ;
        law_clock_bytes_tell_ticks_apart(n / 256, less);
        let bytes = crate::scheduler::little_endian(n, count);
        assert(bytes.skip(1) =~= crate::scheduler::little_endian(n / 256, less));
        assert(bytes[0] == n % 256);
    }
}

// ---------------------------------------------------------------------------
// Costs
// ---------------------------------------------------------------------------

/// Reading a file costs one and running a command five, whatever was measured. A
/// generator or handler that was measured costs what was measured, a millionth at
/// least; one that was not costs its estimate.
pub proof fn law_checks_cost(
    binding: GroundBinding,
    costs: Seq<(GeneratorHash, Real)>,
    hash: Seq<char>,
    i: int,
)
    requires
        crate::scheduler::is_cost_table(costs),
    ensures
        binding.source is File ==> crate::scheduler::check_cost(binding, costs).bits
            == 0x3ff0_0000_0000_0000,
        binding.source is Command ==> crate::scheduler::check_cost(binding, costs).bits
            == 0x4014_0000_0000_0000,
        is_run_by(binding, hash) && 0 <= i < costs.len() && costs[i].0.0@ == hash && (Real {
            bits: 0x3eb0_c6f7_a0b5_ed8d,
        }).less(&costs[i].1) ==> crate::scheduler::check_cost(binding, costs) == costs[i].1,
        is_run_by(binding, hash) && 0 <= i < costs.len() && costs[i].0.0@ == hash && !(Real {
            bits: 0x3eb0_c6f7_a0b5_ed8d,
        }).less(&costs[i].1) ==> crate::scheduler::check_cost(binding, costs).bits
            == 0x3eb0_c6f7_a0b5_ed8d,
        is_run_by(binding, hash) && (forall|k: int|
            0 <= k < costs.len() ==> (#[trigger] costs[k]).0.0@ != hash) ==> match binding.source {
            GroundSource::Generator(g) => crate::scheduler::check_cost(binding, costs)
                == g.cost_estimate,
            GroundSource::Handler(h) => crate::scheduler::check_cost(binding, costs)
                == h.handler.cost_estimate,
            _ => false,
        },
{
    if is_run_by(binding, hash) {
        if 0 <= i < costs.len() && costs[i].0.0@ == hash {
            crate::scheduler::law_each_cost_counts(costs, i);
        }
        if forall|k: int| 0 <= k < costs.len() ==> (#[trigger] costs[k]).0.0@ != hash {
            lemma_not_measured(costs, hash);
        }
    }
}

/// Whether a ground is read by the generator or handler with a hash.
pub open spec fn is_run_by(binding: GroundBinding, hash: Seq<char>) -> bool {
    match binding.source {
        GroundSource::Generator(g) => g.hash.0@ == hash,
        GroundSource::Handler(h) => h.handler.hash.0@ == hash,
        _ => false,
    }
}

proof fn lemma_not_measured(costs: Seq<(GeneratorHash, Real)>, hash: Seq<char>)
    requires
        forall|k: int| 0 <= k < costs.len() ==> (#[trigger] costs[k]).0.0@ != hash,
    ensures
        crate::scheduler::measured(costs, hash) is None,
    decreases costs.len(),
{
    if costs.len() > 0 {
        let rest = costs.skip(1);
        assert forall|k: int| 0 <= k < rest.len() implies (#[trigger] rest[k]).0.0@ != hash by {
            assert(rest[k] == costs[k + 1]);
        }
        lemma_not_measured(rest, hash);
    }
}

/// The draw of a fact is the number that the first four bytes of a hash stand for: that of
/// its identity and of the eight bytes of the clock.
pub proof fn law_draws_come_from_identity_and_clock(id: Seq<char>, now: crate::time::Timestamp)
    ensures
        ({
            let bytes = crate::digest::blake3_of(
                vstd::utf8::encode_utf8(id) + crate::scheduler::little_endian(
                    crate::scheduler::clock(now),
                    8,
                ),
            );
            bytes.len() >= 4 ==> crate::scheduler::draw(id, now) == value_of(bytes.take(4))
        }),
        0 <= now.total() <= i64::MAX ==> crate::scheduler::clock(now) == now.total(),
        i64::MIN <= now.total() < 0 ==> crate::scheduler::clock(now) == now.total()
            + 0x1_0000_0000_0000_0000,
        now.total() < i64::MIN || now.total() > i64::MAX ==> crate::scheduler::clock(now) == 0,
{
    let bytes = crate::digest::blake3_of(
        vstd::utf8::encode_utf8(id) + crate::scheduler::little_endian(
            crate::scheduler::clock(now),
            8,
        ),
    );
    if bytes.len() >= 4 {
        let b = bytes.take(4);
        reveal_with_fuel(value_of, 5);
        assert(b.skip(1).skip(1).skip(1).skip(1).len() == 0);
        assert(b.skip(1)[0] == b[1]);
        assert(b.skip(1).skip(1)[0] == b[2]);
        assert(b.skip(1).skip(1).skip(1)[0] == b[3]);
    }
}

} // verus!
