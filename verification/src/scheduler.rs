//! The proactive, value-of-information scheduler.
//! Rank facts by the expected value of checking them, spend a fixed budget per
//! tick on the top-k, and keep a small exploration floor so a confidently-wrong
//! belief cannot sit undisturbed forever.
//!
//! The scores are handed in; who is checked is decided here.

use crate::digest::blake3_bytes;
use crate::number::Real;
use crate::rank::ranked;
use crate::schema::{Fact, GeneratorHash, GroundBinding, GroundSource};
use crate::text::same;
use crate::time::{Timestamp, NANOS};
use vstd::prelude::*;

verus! {

/// The bits of the least cost of a check, a millionth of a second.
pub const LEAST_COST: u64 = 0x3eb0_c6f7_a0b5_ed8d;

// ---------------------------------------------------------------------------
// Costs
// ---------------------------------------------------------------------------

/// The content hash of a source, if it is a generator or handler.
pub open spec fn source_hash(source: GroundSource) -> Option<Seq<char>> {
    match source {
        GroundSource::Generator(g) => Some(g.hash.0@),
        GroundSource::Handler(h) => Some(h.handler.hash.0@),
        _ => None,
    }
}

/// The content hash of a binding's source, if it is a generator or handler.
pub fn ground_hash(binding: &GroundBinding) -> (r: Option<GeneratorHash>)
    ensures
        match source_hash(binding.source) {
            Some(hash) => r matches Some(h) && h.0@ == hash,
            None => r is None,
        },
{
    match &binding.source {
        GroundSource::Generator(g) => Some(g.hash.clone()),
        GroundSource::Handler(h) => Some(h.handler.hash.clone()),
        _ => None,
    }
}

/// The measured run time of a generator; `None` where there is none.
pub open spec fn measured(costs: Seq<(GeneratorHash, Real)>, hash: Seq<char>) -> Option<Real>
    decreases costs.len(),
{
    if costs.len() == 0 {
        None
    } else if costs[0].0.0@ == hash {
        Some(costs[0].1)
    } else {
        measured(costs.skip(1), hash)
    }
}

/// Whether a list of run times is a cost table: each generator stands once.
pub open spec fn is_cost_table(costs: Seq<(GeneratorHash, Real)>) -> bool {
    forall|i: int, j: int|
        0 <= i < j < costs.len() ==> (#[trigger] costs[i]).0.0@ != (#[trigger] costs[j]).0.0@
}

/// Each run time of a cost table is the one that counts for its generator.
pub proof fn law_each_cost_counts(costs: Seq<(GeneratorHash, Real)>, i: int)
    requires
        is_cost_table(costs),
        0 <= i < costs.len(),
    ensures
        measured(costs, costs[i].0.0@) == Some(costs[i].1),
    decreases i,
{
    if i > 0 {
        let rest = costs.skip(1);
        assert(costs[0].0.0@ != costs[i].0.0@);
        assert(rest[i - 1] == costs[i]);
        assert forall|k: int, l: int| 0 <= k < l < rest.len() implies (#[trigger] rest[k]).0.0@ != (
        #[trigger] rest[l]).0.0@ by {
            assert(rest[k] == costs[k + 1] && rest[l] == costs[l + 1]);
        }
        law_each_cost_counts(rest, i - 1);
    }
}

/// A run time, or the least cost where it is less or no number.
pub open spec fn at_least_least(cost: Real) -> Real {
    if (Real { bits: LEAST_COST }).less(&cost) {
        cost
    } else {
        Real { bits: LEAST_COST }
    }
}

/// What it costs to check a binding.
pub open spec fn check_cost(binding: GroundBinding, costs: Seq<(GeneratorHash, Real)>) -> Real {
    let estimate = Real { bits: binding.source.cost_bits() };
    match source_hash(binding.source) {
        Some(hash) => match measured(costs, hash) {
            Some(cost) => at_least_least(cost),
            None => estimate,
        },
        None => estimate,
    }
}

/// A binding's check cost: the measured median when the cost table has it, else the
/// static estimate from the source.
pub fn binding_cost(binding: &GroundBinding, costs: &Vec<(GeneratorHash, Real)>) -> (r: Real)
    ensures
        r == check_cost(*binding, costs@),
{
    let hash = match ground_hash(binding) {
        Some(hash) => hash,
        None => {
            return binding.cost();
        },
    };
    let mut i: usize = 0;
    assert(costs@.skip(0) =~= costs@);
    while i < costs.len()
        invariant
            i <= costs.len(),
            source_hash(binding.source) == Some(hash.0@),
            measured(costs@, hash.0@) == measured(costs@.skip(i as int), hash.0@),
        decreases costs.len() - i,
    {
        let ghost rest = costs@.skip(i as int);
        assert(rest[0] == costs@[i as int]);
        assert(rest.skip(1) =~= costs@.skip(i + 1));
        if same(costs[i].0.0.as_str(), hash.0.as_str()) {
            let least = Real { bits: LEAST_COST };
            return if least.is_less(&costs[i].1) {
                costs[i].1
            } else {
                least
            };
        }
        i = i + 1;
    }
    binding.cost()
}

/// The cheapest ground check for a fact under the current cost table; `None` for a
/// fact with no grounds.
pub fn min_check_cost(fact: &Fact, costs: &Vec<(GeneratorHash, Real)>) -> (r: Option<Real>)
    ensures
        match r {
            None => fact.grounds@.len() == 0,
            Some(cost) => {
                &&& exists|i: int|
                    0 <= i < fact.grounds@.len() && cost == check_cost(
                        #[trigger] fact.grounds@[i],
                        costs@,
                    )
                &&& forall|i: int|
                    0 <= i < fact.grounds@.len() ==> cost.rank() <= check_cost(
                        #[trigger] fact.grounds@[i],
                        costs@,
                    ).rank()
            },
        },
{
    if fact.grounds.len() == 0 {
        return None;
    }
    let mut least = binding_cost(&fact.grounds[0], costs);
    let mut i: usize = 1;
    while i < fact.grounds.len()
        invariant
            1 <= i <= fact.grounds.len(),
            exists|k: int| 0 <= k < i && least == check_cost(#[trigger] fact.grounds@[k], costs@),
            forall|k: int|
                0 <= k < i ==> least.rank() <= check_cost(
                    #[trigger] fact.grounds@[k],
                    costs@,
                ).rank(),
        decreases fact.grounds.len() - i,
    {
        let cost = binding_cost(&fact.grounds[i], costs);
        if cost.before(&least) {
            least = cost;
        }
        i = i + 1;
    }
    Some(least)
}

// ---------------------------------------------------------------------------
// Ranking
// ---------------------------------------------------------------------------

/// Places of numbers in the total order.
pub open spec fn orders(scores: Seq<Real>) -> Seq<int> {
    scores.map_values(|s: Real| s.rank())
}

/// Facts ranked by descending score; `scores` holds the score of each. Of equal
/// scores the earlier fact comes first.
pub fn rank(scores: &Vec<Real>) -> (r: Vec<usize>)
    ensures
        crate::rank::indices(r@) == crate::rank::best_first(orders(scores@)),
        r@.len() == scores@.len(),
        forall|i: int| 0 <= i < r@.len() ==> #[trigger] r@[i] < scores@.len(),
{
    let mut keys: Vec<i128> = Vec::new();
    let mut i: usize = 0;
    while i < scores.len()
        invariant
            i <= scores.len(),
            keys@.len() == i,
            forall|k: int| 0 <= k < i ==> #[trigger] keys@[k] == scores@[k].rank(),
        decreases scores.len() - i,
    {
        keys.push(scores[i].order());
        i = i + 1;
    }
    assert(crate::rank::ints(keys@) =~= orders(scores@));
    ranked(&keys)
}

/// Whether the fact at a place can be checked.
pub open spec fn checkable(facts: Seq<Fact>) -> spec_fn(int) -> bool {
    |i: int| facts[i].grounds@.len() > 0
}

/// The facts to check in a tick: the best ones that can be checked.
pub open spec fn tick_of(facts: Seq<Fact>, scores: Seq<Real>, per_tick: int) -> Seq<int> {
    crate::rank::at_most(
        crate::rank::best_first(orders(scores)).filter(checkable(facts)),
        per_tick,
    )
}

/// The top-`per_tick` facts to check this tick. Facts with no grounds are skipped:
/// there is nothing to spend the budget on.
pub fn select_tick(facts: &Vec<Fact>, scores: &Vec<Real>, per_tick: usize) -> (r: Vec<usize>)
    requires
        scores@.len() == facts@.len(),
    ensures
        crate::rank::indices(r@) == tick_of(facts@, scores@, per_tick as int),
        r@.len() <= per_tick,
        forall|k: int|
            0 <= k < r@.len() ==> #[trigger] r@[k] < facts@.len() && facts@[r@[k] as int].grounds@.len()
                > 0,
{
    let order = rank(scores);
    let ghost all = crate::rank::best_first(orders(scores@));
    let ghost test = checkable(facts@);
    let mut out: Vec<usize> = Vec::new();
    let mut i: usize = 0;
    proof {
        reveal(Seq::filter);
        assert(all.take(0) =~= Seq::<int>::empty());
        assert(crate::rank::indices(out@) =~= all.take(0).filter(test));
    }
    while i < order.len() && out.len() < per_tick
        invariant
            i <= order.len() == facts.len(),
            all == crate::rank::indices(order@),
            test == checkable(facts@),
            forall|k: int| 0 <= k < order@.len() ==> #[trigger] order@[k] < facts@.len(),
            crate::rank::indices(out@) == all.take(i as int).filter(test),
            out@.len() <= per_tick,
            forall|k: int|
                0 <= k < out@.len() ==> #[trigger] out@[k] < facts@.len()
                    && facts@[out@[k] as int].grounds@.len() > 0,
        decreases order.len() - i,
    {
        let at: usize = order[i];
        proof {
            reveal(Seq::filter);
            assert(all.take(i + 1).drop_last() =~= all.take(i as int));
            assert(all.take(i + 1).last() == at);
        }
        if facts[at].is_checkable() {
            let ghost before = crate::rank::indices(out@);
            out.push(at);
            assert(crate::rank::indices(out@) =~= before.push(at as int));
        }
        i = i + 1;
    }
    proof {
        assert(all == crate::rank::best_first(orders(scores@)));
        lemma_filter_front(all, test, i as int);
        let kept = all.filter(test);
        let front = all.take(i as int).filter(test);
        assert(crate::rank::indices(out@).len() == out@.len());
        if i == order.len() {
            assert(all.take(i as int) =~= all);
        }
        assert(crate::rank::at_most(kept, per_tick as int) =~= front);
    }
    out
}

/// What passes a test among the first elements comes first among all that pass.
proof fn lemma_filter_front(s: Seq<int>, test: spec_fn(int) -> bool, n: int)
    requires
        0 <= n <= s.len(),
    ensures
        s.take(n).filter(test).len() <= s.filter(test).len(),
        s.filter(test).take(s.take(n).filter(test).len() as int) == s.take(n).filter(test),
    decreases s.len(),
{
    reveal(Seq::filter);
    let front = s.take(n).filter(test);
    if n == s.len() {
        assert(s.take(n) =~= s);
        assert(front.take(front.len() as int) =~= front);
    } else {
        lemma_filter_front(s.drop_last(), test, n);
        assert(s.drop_last().take(n) =~= s.take(n));
        let m = front.len() as int;
        assert(s.filter(test).take(m) =~= s.drop_last().filter(test).take(m));
    }
}

// ---------------------------------------------------------------------------
// Audits
// ---------------------------------------------------------------------------

/// A ground's verifier identity: the generator or handler content hash, or a shared
/// `existence` for verifier-free grounds.
pub open spec fn identity(binding: GroundBinding) -> Seq<char> {
    match source_hash(binding.source) {
        Some(hash) => hash,
        None => "existence"@,
    }
}

fn ground_identity(binding: &GroundBinding) -> (r: String)
    ensures
        r@ == identity(*binding),
{
    match ground_hash(binding) {
        Some(hash) => hash.0,
        None => "existence".to_owned(),
    }
}

/// Whether two grounds of a fact have distinct verifier identities.
pub open spec fn is_independent(grounds: Seq<GroundBinding>) -> bool {
    exists|i: int, j: int|
        0 <= i < grounds.len() && 0 <= j < grounds.len() && identity(#[trigger] grounds[i])
            != identity(#[trigger] grounds[j])
}

/// Whether a fact carries at least two grounds with *distinct* verifier identities.
/// The exploration floor only audits these: re-running a fact's lone verifier is a
/// self-confirming fixed point, so an audit needs an independent verifier to be
/// worth anything.
pub fn has_independent_ground(fact: &Fact) -> (r: bool)
    ensures
        r == is_independent(fact.grounds@),
{
    if fact.grounds.len() == 0 {
        return false;
    }
    let first = ground_identity(&fact.grounds[0]);
    let mut i: usize = 1;
    while i < fact.grounds.len()
        invariant
            1 <= i <= fact.grounds.len(),
            first@ == identity(fact.grounds@[0]),
            forall|k: int| 0 <= k < i ==> identity(#[trigger] fact.grounds@[k]) == first@,
        decreases fact.grounds.len() - i,
    {
        let other = ground_identity(&fact.grounds[i]);
        if !same(other.as_str(), first.as_str()) {
            assert(identity(fact.grounds@[0]) != identity(fact.grounds@[i as int]));
            return true;
        }
        i = i + 1;
    }
    false
}

/// File and command grounds share one identity, so a fact that has no other grounds
/// does not qualify for audits.
pub proof fn law_verifier_free_grounds_do_not_qualify(grounds: Seq<GroundBinding>)
    requires
        forall|i: int|
            0 <= i < grounds.len() ==> (#[trigger] grounds[i]).source is File
                || grounds[i].source is Command,
    ensures
        !is_independent(grounds),
{
}

/// The low bytes of a number, the lowest first.
pub open spec fn little_endian(n: nat, count: nat) -> Seq<u8>
    decreases count,
{
    if count == 0 {
        Seq::empty()
    } else {
        seq![(n % 256) as u8] + little_endian(n / 256, (count - 1) as nat)
    }
}

/// The nanoseconds of an instant in two's complement, or nothing where they do not
/// fit.
pub open spec fn clock(now: Timestamp) -> nat {
    let n = now.total();
    if i64::MIN <= n <= i64::MAX {
        if n < 0 {
            (n + 0x1_0000_0000_0000_0000) as nat
        } else {
            n as nat
        }
    } else {
        0
    }
}

/// The number that four bytes stand for, the lowest first.
pub open spec fn number_of(bytes: Seq<u8>) -> int {
    bytes[0] + 256 * bytes[1] + 65536 * bytes[2] + 16777216 * bytes[3]
}

/// The draw of a fact in a tick.
pub open spec fn draw(id: Seq<char>, now: Timestamp) -> int {
    number_of(
        crate::digest::blake3_of(
            vstd::utf8::encode_utf8(id) + little_endian(clock(now), 8),
        ),
    )
}

/// Adds the low bytes of a number, the lowest first.
fn push_little_endian(out: &mut Vec<u8>, n: u64, count: usize)
    ensures
        final(out)@ == old(out)@ + little_endian(n as nat, count as nat),
{
    let ghost before = out@;
    let ghost all = little_endian(n as nat, count as nat);
    let mut rest: u64 = n;
    let mut left: usize = count;
    assert(out@ + all =~= before + all);
    while left > 0
        invariant
            out@ + little_endian(rest as nat, left as nat) == before + all,
        decreases left,
    {
        let ghost now = out@;
        let ghost tail = little_endian((rest as nat) / 256, (left - 1) as nat);
        let byte: u8 = (rest % 256) as u8;
        out.push(byte);
        assert(now.push(byte) + tail =~= now + (seq![byte] + tail));
        rest = rest / 256;
        left = left - 1;
    }
    assert(out@ + Seq::<u8>::empty() =~= out@);
}

/// A deterministic per-tick draw from the fact id and the tick clock, so the audit
/// decision is reproducible and auditable rather than needing an RNG. Folding `now`
/// in means each tick is an independent Bernoulli trial. The draw is out of
/// `u32::MAX`.
pub fn audit_draw(id: &str, now: Timestamp) -> (r: u32)
    requires
        now.wf(),
    ensures
        r == draw(id@, now),
{
    let name = id.as_bytes();
    let mut bytes: Vec<u8> = Vec::new();
    let mut i: usize = 0;
    while i < name.len()
        invariant
            i <= name@.len(),
            bytes@ == name@.take(i as int),
        decreases name@.len() - i,
    {
        bytes.push(name[i]);
        i = i + 1;
    }
    assert(name@.take(i as int) =~= name@);
    let total: i128 = now.secs as i128 * NANOS as i128 + now.nanos as i128;
    assert(total == now.total());
    let clocked: u64 = if total < i64::MIN as i128 || total > i64::MAX as i128 {
        0
    } else if total < 0 {
        (total + 0x1_0000_0000_0000_0000) as u64
    } else {
        total as u64
    };
    assert(bytes@ == vstd::utf8::encode_utf8(id@));
    push_little_endian(&mut bytes, clocked, 8);
    let hash = blake3_bytes(bytes.as_slice());
    hash[0] as u32 + 256 * (hash[1] as u32) + 65536 * (hash[2] as u32) + 16777216 * (
    hash[3] as u32)
}

/// Whether the fact at a place is drawn for an audit: it can be checked, has an
/// independent ground, is not checked in this tick anyway, and the draw fell on it.
pub open spec fn is_audited(
    facts: Seq<Fact>,
    selected: Seq<usize>,
    drawn: Seq<bool>,
) -> spec_fn(int) -> bool {
    |i: int|
        {
            &&& facts[i].grounds@.len() > 0
            &&& is_independent(facts[i].grounds@)
            &&& forall|k: int|
                0 <= k < selected.len() ==> facts[(#[trigger] selected[k]) as int].id.0@
                    != facts[i].id.0@
            &&& drawn[i]
        }
}

/// The elements at some places.
pub open spec fn at_places(s: Seq<int>, at: Seq<int>) -> Seq<int> {
    at.map_values(|i: int| s[i])
}

/// The facts to audit in a tick: those drawn, the most probable first, within the
/// cap.
pub open spec fn audits_of(
    facts: Seq<Fact>,
    selected: Seq<usize>,
    drawn: Seq<bool>,
    probabilities: Seq<Real>,
    cap: int,
) -> Seq<int> {
    let eligible = crate::rank::picked(facts.len(), is_audited(facts, selected, drawn));
    let keys = eligible.map_values(|i: int| probabilities[i].rank());
    crate::rank::at_most(at_places(eligible, crate::rank::best_first(keys)), cap)
}

/// Whether a fact is among those selected.
fn is_selected(facts: &Vec<Fact>, selected: &Vec<usize>, at: usize) -> (r: bool)
    requires
        at < facts@.len(),
        forall|k: int| 0 <= k < selected@.len() ==> #[trigger] selected@[k] < facts@.len(),
    ensures
        r == exists|k: int|
            0 <= k < selected@.len() && facts@[(#[trigger] selected@[k]) as int].id.0@
                == facts@[at as int].id.0@,
{
    let mut k: usize = 0;
    while k < selected.len()
        invariant
            k <= selected.len(),
            at < facts@.len(),
            forall|k: int| 0 <= k < selected@.len() ==> #[trigger] selected@[k] < facts@.len(),
            forall|j: int|
                0 <= j < k ==> facts@[(#[trigger] selected@[j]) as int].id.0@
                    != facts@[at as int].id.0@,
        decreases selected.len() - k,
    {
        if same(facts[selected[k]].id.0.as_str(), facts[at].id.0.as_str()) {
            return true;
        }
        k = k + 1;
    }
    false
}

/// The exploration floor: high-consequence facts the ranking would never
/// re-examine, drawn with their audit probability and capped. Excludes facts already
/// in `selected` and any without an independent ground to audit through. `drawn`
/// says of each fact whether its draw fell below its probability.
pub fn select_audits(
    facts: &Vec<Fact>,
    selected: &Vec<usize>,
    drawn: &Vec<bool>,
    probabilities: &Vec<Real>,
    cap: usize,
) -> (r: Vec<usize>)
    requires
        drawn@.len() == facts@.len(),
        probabilities@.len() == facts@.len(),
        forall|k: int| 0 <= k < selected@.len() ==> #[trigger] selected@[k] < facts@.len(),
    ensures
        crate::rank::indices(r@) == audits_of(
            facts@,
            selected@,
            drawn@,
            probabilities@,
            cap as int,
        ),
{
    let ghost test = is_audited(facts@, selected@, drawn@);
    let mut eligible: Vec<usize> = Vec::new();
    let mut chances: Vec<Real> = Vec::new();
    let mut i: usize = 0;
    assert(crate::rank::indices(eligible@) =~= crate::rank::picked(0, test));
    while i < facts.len()
        invariant
            i <= facts.len(),
            drawn@.len() == facts@.len(),
            probabilities@.len() == facts@.len(),
            forall|k: int| 0 <= k < selected@.len() ==> #[trigger] selected@[k] < facts@.len(),
            test == is_audited(facts@, selected@, drawn@),
            crate::rank::indices(eligible@) == crate::rank::picked(i as nat, test),
            chances@.len() == eligible@.len(),
            forall|k: int|
                0 <= k < eligible@.len() ==> #[trigger] eligible@[k] < facts@.len() && chances@[k]
                    == probabilities@[eligible@[k] as int],
        decreases facts.len() - i,
    {
        if facts[i].is_checkable() && has_independent_ground(&facts[i]) && !is_selected(
            facts,
            selected,
            i,
        ) && drawn[i] {
            assert(test(i as int));
            let ghost before = crate::rank::indices(eligible@);
            eligible.push(i);
            chances.push(probabilities[i]);
            assert(crate::rank::indices(eligible@) =~= before.push(i as int));
        } else {
            assert(!test(i as int));
        }
        i = i + 1;
    }
    let ghost chosen = crate::rank::indices(eligible@);
    let order = rank(&chances);
    let ghost keys = chosen.map_values(|i: int| probabilities@[i].rank());
    assert(orders(chances@) =~= keys) by {
        assert forall|k: int| 0 <= k < chosen.len() implies orders(chances@)[k] == keys[k] by {
            assert(eligible@[k] < facts@.len());
        }
    }
    let ghost sorted = at_places(chosen, crate::rank::best_first(keys));
    let mut out: Vec<usize> = Vec::new();
    let mut k: usize = 0;
    while k < order.len() && k < cap
        invariant
            k <= order.len() == eligible.len(),
            k <= cap,
            out@.len() == k,
            chosen == crate::rank::indices(eligible@),
            crate::rank::indices(order@) == crate::rank::best_first(keys),
            sorted == at_places(chosen, crate::rank::best_first(keys)),
            forall|j: int| 0 <= j < order@.len() ==> #[trigger] order@[j] < eligible@.len(),
            forall|j: int| 0 <= j < k ==> #[trigger] out@[j] == sorted[j],
        decreases order.len() - k,
    {
        assert(crate::rank::indices(order@)[k as int] == order@[k as int]);
        assert(sorted[k as int] == chosen[order@[k as int] as int]);
        out.push(eligible[order[k]]);
        k = k + 1;
    }
    assert(sorted.len() == order@.len()) by {
        assert(crate::rank::indices(order@).len() == order@.len());
    }
    assert(crate::rank::indices(out@) =~= crate::rank::at_most(sorted, cap as int));
    out
}

/// Audits stay within the cap, and fall only on facts with an independent ground
/// that are not checked in the tick anyway and whose draw fell.
pub proof fn law_audits_are_bounded(
    facts: Seq<Fact>,
    selected: Seq<usize>,
    drawn: Seq<bool>,
    probabilities: Seq<Real>,
    cap: int,
)
    requires
        cap >= 0,
    ensures
        audits_of(facts, selected, drawn, probabilities, cap).len() <= cap,
        forall|k: int|
            0 <= k < audits_of(facts, selected, drawn, probabilities, cap).len() ==> {
                let i = #[trigger] audits_of(facts, selected, drawn, probabilities, cap)[k];
                0 <= i < facts.len() && is_audited(facts, selected, drawn)(i)
            },
{
    let test = is_audited(facts, selected, drawn);
    let eligible = crate::rank::picked(facts.len(), test);
    let keys = eligible.map_values(|i: int| probabilities[i].rank());
    crate::rank::lemma_picked(facts.len(), test);
    crate::rank::law_best_first(keys);
    let audits = audits_of(facts, selected, drawn, probabilities, cap);
    assert forall|k: int| 0 <= k < audits.len() implies {
        let i = #[trigger] audits[k];
        0 <= i < facts.len() && test(i)
    } by {
        let at = crate::rank::best_first(keys)[k];
        assert(0 <= at < eligible.len());
        assert(audits[k] == eligible[at]);
    }
}

} // verus!
