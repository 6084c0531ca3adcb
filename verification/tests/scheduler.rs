//! The scheduler: ranking, ticks and audits.

use jishuken::duration::HalfLife;
use jishuken::json::Json;
use jishuken::number::Real;
use jishuken::predicate::Predicate;
use jishuken::scheduler::{
    audit_draw, binding_cost, ground_hash, has_independent_ground, min_check_cost, rank,
    select_audits, select_tick,
};
use jishuken::schema::{
    Capabilities, Claim, Epistemics, Fact, FactId, FactValue, GeneratorHash, GeneratorRef,
    GroundBinding, GroundSource, Groundedness, Locator, Provenance, ScheduleMeta,
};
use jishuken::time::Timestamp;

const NOW: Timestamp = Timestamp { secs: 1_700_000_000, nanos: 5 };

fn bits_of(x: f64) -> Real {
    Real { bits: x.to_bits() }
}

fn gen_ground(hash: &str, cost: f64) -> GroundBinding {
    GroundBinding {
        source: GroundSource::Generator(GeneratorRef {
            hash: GeneratorHash(hash.into()),
            caps: Capabilities { net: vec![], read: vec![], env: vec![] },
            cost_estimate: bits_of(cost),
            src_path: format!("verifiers/{hash}.ts"),
            name: format!("{hash}.ts"),
        }),
        locator: Locator::Whole,
        predicate: Predicate::Exists,
        last: None,
    }
}

fn fact(key: &str, conf: f64, centrality: f64, cost: f64) -> Fact {
    let claim = Claim::parse_key(key).unwrap();
    Fact {
        id: FactId::for_claim(&claim),
        claim,
        value: FactValue::Scalar { value: Json::of_string("v") },
        epistemics: Epistemics {
            confidence: bits_of(conf),
            groundedness: Groundedness::Verified { at: NOW, by: GeneratorHash("h".into()) },
        },
        schedule: ScheduleMeta {
            half_life: HalfLife::Never,
            centrality: bits_of(centrality),
            last_verified: NOW,
            variance_at_verify: bits_of(0.05),
            priority: bits_of(0.0),
        },
        source_hint: None,
        grounds: vec![gen_ground("h", cost)],
        provenance: Provenance { ingested_by: "test".into(), ingested_at: NOW },
    }
}

/// A fact with two distinct-identity grounds, so it is audit-eligible.
fn multi_ground_fact(key: &str, centrality: f64) -> Fact {
    let mut f = fact(key, 0.99, centrality, 1.0);
    f.grounds = vec![gen_ground("h1", 1.0), gen_ground("h2", 1.0)];
    f
}

/// The value of checking a fact that does not decay.
fn voi(f: &Fact, costs: &Vec<(GeneratorHash, Real)>) -> f64 {
    let confidence = f64::from_bits(f.epistemics.confidence.bits);
    let cost = min_check_cost(f, costs).map_or(1e6, |c| f64::from_bits(c.bits).max(1e-6));
    (1.0 - confidence) * f64::from_bits(f.schedule.centrality.bits) / cost
}

fn scores(facts: &[Fact]) -> Vec<Real> {
    facts.iter().map(|f| bits_of(voi(f, &vec![]))).collect()
}

/// Draws audits with a base rate.
fn audits(facts: &Vec<Fact>, epsilon: f64, selected: &Vec<usize>, cap: usize) -> Vec<usize> {
    let chances: Vec<f64> = facts
        .iter()
        .map(|f| (epsilon * f64::from_bits(f.schedule.centrality.bits)).clamp(0.0, 1.0))
        .collect();
    let drawn: Vec<bool> = facts
        .iter()
        .zip(&chances)
        .map(|(f, p)| f64::from(audit_draw(&f.id.0, NOW)) / f64::from(u32::MAX) < *p)
        .collect();
    let probabilities: Vec<Real> = chances.into_iter().map(bits_of).collect();
    select_audits(facts, selected, &drawn, &probabilities, cap)
}

#[test]
fn scheduler_wrong_and_consequential_ranks_first() {
    let likely_wrong_central = fact("a.x", 0.1, 10.0, 1.0);
    let confident_central = fact("b.x", 0.99, 10.0, 1.0);
    let wrong_trivial = fact("c.x", 0.1, 0.1, 1.0);
    let facts = vec![confident_central, wrong_trivial, likely_wrong_central];
    let ranked = rank(&scores(&facts));
    assert_eq!(facts[ranked[0]].claim.key(), "a.x");
}

#[test]
fn scheduler_cost_lowers_priority() {
    let cheap = fact("cheap.x", 0.2, 5.0, 1.0);
    let pricey = fact("pricey.x", 0.2, 5.0, 50.0);
    assert!(voi(&cheap, &vec![]) > voi(&pricey, &vec![]));
}

#[test]
fn measured_cost_overrides_static_estimate() {
    // Both costs are of generator hash "h" with a cheap static estimate; the
    // measured median makes checking it expensive, dropping its value.
    let f = fact("a.x", 0.2, 5.0, 1.0);
    let cheap = voi(&f, &vec![]);
    let measured = voi(&f, &vec![(GeneratorHash("h".into()), bits_of(100.0))]);
    assert!(measured < cheap, "measured {measured} should be < {cheap}");
}

#[test]
fn scheduler_budget_caps_the_tick() {
    let facts: Vec<Fact> = (0..5).map(|i| fact(&format!("e{i}.x"), 0.1, 1.0, 1.0)).collect();
    assert_eq!(select_tick(&facts, &scores(&facts), 2).len(), 2);
}

#[test]
fn audit_picks_multi_ground_facts_when_forced() {
    let facts = vec![multi_ground_fact("a.x", 1.0)];
    assert_eq!(audits(&facts, 1.0, &vec![], 5).len(), 1);
}

#[test]
fn audit_skips_single_ground_facts() {
    // One ground => no independent verifier => never audited.
    let facts = vec![fact("a.x", 0.99, 1.0, 1.0)];
    assert!(audits(&facts, 1.0, &vec![], 5).is_empty());
}

#[test]
fn audit_excludes_already_selected() {
    let facts = vec![multi_ground_fact("a.x", 1.0)];
    assert!(audits(&facts, 1.0, &vec![0], 5).is_empty());
}

#[test]
fn audit_zero_epsilon_selects_none() {
    let facts = vec![multi_ground_fact("a.x", 1.0)];
    assert!(audits(&facts, 0.0, &vec![], 5).is_empty());
}

#[test]
fn audit_respects_the_cap() {
    let facts: Vec<Fact> = (0..5).map(|i| multi_ground_fact(&format!("e{i}.x"), 1.0)).collect();
    assert_eq!(audits(&facts, 1.0, &vec![], 2).len(), 2);
}

#[test]
fn audits_spend_the_cap_where_wrong_is_most_expensive() {
    let facts = vec![
        multi_ground_fact("a.x", 0.2),
        multi_ground_fact("b.x", 0.9),
        multi_ground_fact("c.x", 0.5),
    ];
    let chances = vec![bits_of(0.2), bits_of(0.9), bits_of(0.5)];
    let drawn = vec![true, true, true];
    assert_eq!(select_audits(&facts, &vec![], &drawn, &chances, 2), [1, 2]);
}

#[test]
fn a_tick_skips_what_cannot_be_checked() {
    let mut bare = fact("bare.x", 0.0, 9.0, 1.0);
    bare.grounds.clear();
    let facts = vec![bare, fact("a.x", 0.5, 1.0, 1.0)];
    assert_eq!(select_tick(&facts, &vec![bits_of(9.0), bits_of(0.5)], 5), [1]);
}

#[test]
fn equal_scores_keep_their_order_and_nan_ranks_by_the_total_order() {
    assert_eq!(rank(&vec![bits_of(1.0), bits_of(2.0), bits_of(1.0)]), [1, 0, 2]);
    assert_eq!(rank(&vec![bits_of(-0.0), bits_of(0.0)]), [1, 0]);
    assert_eq!(rank(&vec![bits_of(f64::INFINITY), bits_of(f64::NAN)]), [1, 0]);
}

#[test]
fn the_draw_is_that_of_the_hash() {
    let mut h = blake3::Hasher::new();
    h.update(b"a.x");
    h.update(&1_700_000_000_000_000_005i64.to_le_bytes());
    let digest = h.finalize();
    let bytes = digest.as_bytes();
    let expected = u32::from_le_bytes([bytes[0], bytes[1], bytes[2], bytes[3]]);
    assert_eq!(audit_draw("a.x", NOW), expected);
    // Before the epoch the clock is negative; far out it does not fit, and counts
    // as none.
    let early = Timestamp { secs: -1, nanos: 0 };
    let hash = blake3::hash(&[&b"a.x"[..], &(-1_000_000_000i64).to_le_bytes()[..]].concat());
    let bytes = hash.as_bytes();
    assert_eq!(
        audit_draw("a.x", early),
        u32::from_le_bytes([bytes[0], bytes[1], bytes[2], bytes[3]])
    );
    let far = Timestamp { secs: 8_000_000_000_000, nanos: 0 };
    let hash = blake3::hash(&[&b"a.x"[..], &0i64.to_le_bytes()[..]].concat());
    let bytes = hash.as_bytes();
    assert_eq!(
        audit_draw("a.x", far),
        u32::from_le_bytes([bytes[0], bytes[1], bytes[2], bytes[3]])
    );
}

#[test]
fn independence_needs_two_identities() {
    assert!(has_independent_ground(&multi_ground_fact("a.x", 1.0)));
    let mut twice = multi_ground_fact("a.x", 1.0);
    twice.grounds = vec![gen_ground("h", 1.0), gen_ground("h", 2.0)];
    assert!(!has_independent_ground(&twice));
    assert_eq!(ground_hash(&twice.grounds[0]), Some(GeneratorHash("h".into())));
}

#[test]
fn a_measured_cost_has_a_floor() {
    let b = gen_ground("h", 3.0);
    let costs = |x: f64| vec![(GeneratorHash("h".into()), bits_of(x))];
    assert_eq!(binding_cost(&b, &vec![]), bits_of(3.0));
    assert_eq!(binding_cost(&b, &costs(7.0)), bits_of(7.0));
    assert_eq!(binding_cost(&b, &costs(0.0)), bits_of(1e-6));
    assert_eq!(binding_cost(&b, &costs(f64::NAN)), bits_of(1e-6));
}

#[test]
fn each_generator_has_its_own_measured_cost() {
    let costs = vec![
        (GeneratorHash("h".into()), bits_of(7.0)),
        (GeneratorHash("g".into()), bits_of(2.0)),
    ];
    assert_eq!(binding_cost(&gen_ground("h", 3.0), &costs), bits_of(7.0));
    assert_eq!(binding_cost(&gen_ground("g", 3.0), &costs), bits_of(2.0));
    assert_eq!(binding_cost(&gen_ground("x", 3.0), &costs), bits_of(3.0));
}
