//! The data plane that agents see.

use jishuken::config::Config;
use jishuken::duration::HalfLife;
use jishuken::json::Json;
use jishuken::locator::parse_source;
use jishuken::mcp::ingest::{IngestParams, JishukenServer};
use jishuken::mcp::report::{
    checks, conflicts, groundedness_out, grounds_out, link_text, prompt_text, recall_output,
    resource, stale, truncate, value_of, Resource,
};
use jishuken::mcp::{
    completion_values, hit_score, key_overlap, nearest_keys, query_tokens, recall_hint, search,
    SearchParams,
};
use jishuken::number::Real;
use jishuken::predicate::Predicate;
use jishuken::schema::{
    Claim, Element, Epistemics, Fact, FactId, FactValue, GeneratorHash, GroundBinding,
    GroundSource, Groundedness, Locator, Outcome, Provenance, Resolved, ScheduleMeta, SourceRef,
    SourceRoot, TriageSource,
};
use jishuken::store::history::Operation;
use jishuken::time::Timestamp;
use jishuken::write::WriteOp;

const NOW: Timestamp = Timestamp { secs: 1_700_000_000, nanos: 0 };

fn bits_of(x: f64) -> Real {
    Real { bits: x.to_bits() }
}

fn fact(key: &str, value: &str) -> Fact {
    let claim = Claim::parse_key(key).unwrap();
    Fact {
        id: FactId::for_claim(&claim),
        claim,
        value: FactValue::Scalar { value: Json::of_string(value) },
        epistemics: Epistemics {
            confidence: bits_of(0.4),
            groundedness: Groundedness::Ungrounded { source: TriageSource::Ingest },
        },
        schedule: ScheduleMeta {
            half_life: HalfLife::default(),
            centrality: bits_of(1.0),
            last_verified: NOW,
            variance_at_verify: bits_of(0.25),
            priority: bits_of(0.0),
        },
        source_hint: None,
        grounds: vec![],
        provenance: Provenance { ingested_by: "test".into(), ingested_at: NOW },
    }
}

fn ground(path: &str, outcome: Option<Outcome>) -> GroundBinding {
    GroundBinding {
        source: GroundSource::File(SourceRef {
            root: SourceRoot::Project,
            path: path.into(),
            rev: None,
        }),
        locator: Locator::Whole,
        predicate: Predicate::Exists,
        last: outcome.map(|outcome| Resolved {
            rev: String::new(),
            span_hash: String::new(),
            at: NOW,
            outcome,
            by: None,
        }),
    }
}

fn params(query: &str) -> SearchParams {
    SearchParams { query: query.into(), entity: None, relation: None, grounded: None }
}

#[test]
fn query_tokens_lowercases_and_splits() {
    assert_eq!(
        query_tokens("Free Orders Limit"),
        ["free", "orders", "limit"]
    );
    assert!(query_tokens("   ").is_empty());
}

#[test]
fn hit_score_counts_matching_tokens_across_key_and_value() {
    let tokens = query_tokens("free orders webhook");
    // key matches "free" and "orders"; "webhook" matches neither key nor value.
    assert_eq!(hit_score("plan.free_orders_limit", "50", &tokens), 2);
    assert_eq!(
        hit_score("plan.free_orders_limit", "50", &query_tokens("nope")),
        0
    );
}

#[test]
fn hit_score_matches_tokens_in_value() {
    let tokens = query_tokens("postgres");
    assert_eq!(hit_score("db.engine", "Postgres 16", &tokens), 1);
}

#[test]
fn key_overlap_ranks_a_broad_query_above_an_unrelated_key() {
    let q = "free orders limit checkout webhook";
    assert_eq!(key_overlap("plan.free_orders_limit", q), 3);
    assert_eq!(key_overlap("staging.url", q), 0);
}

#[test]
fn key_overlap_ignores_punctuation_in_the_query() {
    // Splits on the dot and underscores: plan, free, orders, limit.
    assert_eq!(
        key_overlap("plan.free_orders_limit", "plan.free_orders_limit"),
        4
    );
}

#[test]
fn a_search_ranks_by_matching_tokens_and_takes_filters() {
    let mut refuted = fact("checkout.v2_enabled", "false");
    refuted.epistemics.groundedness =
        Groundedness::Refuted { at: NOW, by: GeneratorHash("existence".into()) };
    let facts = vec![fact("staging.orders", "x"), fact("plan.free_orders_limit", "100"), refuted];
    assert_eq!(search(&facts, &params("free ORDERS limit")), [1, 0]);
    assert_eq!(search(&facts, &params("")), [0, 1, 2]);
    let mut only = params("");
    only.grounded = Some("Refuted".into());
    assert_eq!(search(&facts, &only), [2]);
    only.grounded = None;
    only.entity = Some("plan".into());
    assert_eq!(search(&facts, &only), [1]);
    only.relation = Some("nope".into());
    assert!(search(&facts, &only).is_empty());
}

#[test]
fn a_missed_recall_names_the_mistake_and_the_nearest_key() {
    let keys: Vec<String> = vec!["plan.free_orders_limit".into(), "staging.url".into()];
    assert_eq!(nearest_keys(&keys, "free orders limit", 5), ["plan.free_orders_limit"]);
    let hint = recall_hint(&keys, "free orders limit", "invalid key");
    assert!(hint.contains("ken_search"));
    assert!(hint.ends_with("Did you mean: plan.free_orders_limit?"));
    assert_eq!(
        recall_hint(&vec![], "a.b", "fact not found: a.b"),
        "fact not found: a.b. No similar keys are in the store."
    );
}

#[test]
fn completion_offers_what_is_in_the_store() {
    let facts = vec![fact("b.x", "1"), fact("a.x", "2"), fact("a.Y", "3")];
    assert_eq!(completion_values(&facts, "entity", ""), ["a", "b"]);
    assert_eq!(completion_values(&facts, "relation", "y"), ["Y"]);
    assert_eq!(completion_values(&facts, "key", "A."), ["a.Y", "a.x"]);
}

#[test]
fn a_recall_shows_the_epistemics() {
    let mut f = fact("a.b", "x");
    f.epistemics.groundedness = Groundedness::Verified { at: NOW, by: GeneratorHash("h".into()) };
    f.grounds = vec![ground("src/a.rs", Some(Outcome::Confirmed)), ground("src/b.rs", None)];
    let out = recall_output(&f, "a.b", bits_of(0.7), &vec![String::new(), String::new()]);
    assert_eq!((out.key.as_str(), out.value.text.as_str()), ("a.b", "\"x\""));
    assert_eq!(out.confidence, bits_of(0.7));
    assert_eq!(out.groundedness.state, "verified");
    assert_eq!(out.groundedness.verifier.as_deref(), Some("h"));
    assert_eq!(out.last_verified, "2023-11-14T22:13:20+00:00");
    assert_eq!(out.due.as_deref(), Some("2023-11-17T22:13:20+00:00"));
    assert_eq!(out.grounds[0].source, "src/a.rs");
    assert_eq!(out.grounds[0].kind, "FILE");
    assert_eq!(out.grounds[0].predicate, "exists");
    assert_eq!(out.grounds[0].last_outcome.as_deref(), Some("confirmed"));
    assert!(out.grounds[1].last_outcome.is_none() && out.grounds[1].last_at.is_none());
    f.schedule.half_life = HalfLife::Never;
    let out = recall_output(&f, "a.b", bits_of(0.7), &vec![String::new(), String::new()]);
    assert_eq!(out.due, None);
    assert_eq!(grounds_out(&f, &vec![String::new(), String::new()]).len(), 2);
}

#[test]
fn a_conflict_lists_its_verifiers() {
    let torn = Groundedness::Conflicted {
        verifiers: vec![GeneratorHash("a".into()), GeneratorHash("b".into())],
    };
    let out = groundedness_out(&torn);
    assert_eq!(out.state, "conflicted");
    assert_eq!(out.verifiers.unwrap(), ["a", "b"]);
    assert!(out.verifier.is_none() && out.at.is_none());
}

#[test]
fn values_are_shown_as_json() {
    let set = FactValue::Elements {
        elements: ["a", "b"]
            .iter()
            .map(|v| Element {
                value: Json::of_string(v),
                seen: NOW,
                confidence: None,
                conflict: None,
            })
            .collect(),
    };
    assert_eq!(value_of(&set).text, "[\"a\",\"b\"]");
    assert_eq!(value_of(&fact("a.b", "x\"y").value).text, "\"x\\\"y\"");
}

#[test]
fn disagreements_are_full_or_half() {
    let mut torn = fact("auth.handler", "auth lives here");
    torn.grounds = vec![
        ground("a", Some(Outcome::Confirmed)),
        ground("b", Some(Outcome::Refuted)),
    ];
    torn.epistemics.groundedness = Groundedness::Conflicted { verifiers: vec![] };
    let mut half = fact("checkout.v2_enabled", "false");
    half.grounds = vec![ground("c", Some(Outcome::Refuted)), ground("d", None)];
    let (both, some) = conflicts(&vec![fact("x.y", "z"), half, torn]);
    assert_eq!(both.len(), 1);
    assert_eq!(both[0].key, "auth.handler");
    assert_eq!(both[0].value, "auth lives here");
    assert_eq!(some.len(), 1);
    assert_eq!(some[0].key, "checkout.v2_enabled");
    assert_eq!(some[0].refuted_grounds, ["c"]);
}

#[test]
fn stale_facts_are_the_best_twenty() {
    let scores: Vec<Real> = (0..30).map(|i| bits_of(f64::from(i))).collect();
    let order = stale(&scores);
    assert_eq!(order.len(), 20);
    assert_eq!(order[0], 29);
    assert_eq!(order[19], 10);
}

#[test]
fn checks_are_read_off_the_log_oldest_first() {
    let entry = |id: &str, description: &str| Operation {
        id: id.into(),
        time: format!("time-{id}"),
        description: description.into(),
    };
    let log = vec![
        entry("3", "[GroundCheck:refuted] a.b #0 existence"),
        entry("2", "[Ground] a.b <- x"),
        entry("1", "[GroundCheck:confirmed] a.b #0 existence"),
        entry("0", "[GroundCheck:confirmed] c.d #0 existence"),
    ];
    let found = checks(&log, "a.b");
    let shown: Vec<(&str, &str, &str)> = found
        .iter()
        .map(|c| (c.op.as_str(), c.outcome.as_str(), c.at.as_str()))
        .collect();
    assert_eq!(shown, [("1", "confirmed", "time-1"), ("3", "refuted", "time-3")]);
    let odd = checks(&vec![entry("9", "[GroundCheck] a.b")], "a.b");
    assert_eq!(odd[0].outcome, "?");
}

#[test]
fn long_values_are_cut_with_an_ellipsis() {
    assert_eq!(truncate("short", 5), "short");
    assert_eq!(truncate("longer", 5), "long…");
    assert_eq!(truncate("x", 0), "…");
    assert_eq!(link_text(&fact("a.b", "x")), "x (ungrounded)");
}

#[test]
fn resources_are_addressed() {
    assert_eq!(resource("ken://conflicts"), Resource::Conflicts);
    assert_eq!(resource("ken://stale"), Resource::Stale);
    assert_eq!(resource("ken://fact/a.b"), Resource::Fact("a.b".into()));
    assert_eq!(resource("ken://why/a.b"), Resource::Why("a.b".into()));
    assert_eq!(resource("ken://nope"), Resource::Unknown);
}

#[test]
fn prompts_fall_back_on_the_context() {
    let text = prompt_text("remember", None, None).unwrap();
    assert!(text.starts_with(
        "Identify the durable, checkable facts in the current conversation and working context \
         that an agent would regret forgetting"
    ));
    let text = prompt_text("check-memory", None, Some("auth".into())).unwrap();
    assert!(text.starts_with("Before acting on auth, recall what ken already knows"));
    assert!(prompt_text("nope", None, None).is_none());
}

fn to_remember(key: &str) -> IngestParams {
    IngestParams {
        key: key.into(),
        value: "x".into(),
        volatility: None,
        meta_confidence: None,
        ground: None,
    }
}

#[test]
fn an_ingest_is_the_only_operation_agents_can_make() {
    let config = Config::default();
    match JishukenServer::ken_ingest(to_remember("a.b"), &config, None).unwrap() {
        WriteOp::Ingest { claim, value, triage, half_life, draft_ground } => {
            assert_eq!(claim.key(), "a.b");
            assert_eq!(value.render(), "x");
            assert_eq!(triage, TriageSource::Ingest);
            assert_eq!(half_life, HalfLife::parse("3d").unwrap());
            assert!(draft_ground.is_none());
        }
        other => panic!("{other:?}"),
    }
    let mut full = to_remember("a.b");
    full.volatility = Some("HOURS".into());
    full.meta_confidence = Some(bits_of(0.9));
    full.ground = Some("src/a.rs#L1-2".into());
    assert_eq!(JishukenServer::needed(&config, &full), None);
    match JishukenServer::ken_ingest(full, &config, None).unwrap() {
        WriteOp::Ingest { triage, half_life, draft_ground, .. } => {
            assert_eq!(triage, TriageSource::Llm { meta_confidence: bits_of(0.9) });
            assert_eq!(half_life, HalfLife::parse("6h").unwrap());
            let (src, locator) = parse_source("src/a.rs#L1-2", None).unwrap();
            let draft = draft_ground.unwrap();
            assert_eq!(draft.source, GroundSource::File(src));
            assert_eq!(draft.locator, locator);
            assert_eq!(draft.predicate, Predicate::Exists);
        }
        other => panic!("{other:?}"),
    }
}

#[test]
fn a_bad_ingest_is_refused_in_words() {
    let config = Config::default();
    assert_eq!(
        JishukenServer::ken_ingest(to_remember("nodot"), &config, None).unwrap_err(),
        "key must be of the form `entity.relation`"
    );
    let mut bad = to_remember("a.b");
    bad.ground = Some(" ".into());
    assert_eq!(
        JishukenServer::ken_ingest(bad, &config, None).unwrap_err(),
        "config error: empty source locator"
    );
}

#[test]
fn without_a_class_the_configured_half_life_is_kept() {
    let kept = |config: &Config, volatility: Option<&str>| {
        let mut params = to_remember("a.b");
        params.volatility = volatility.map(|s| s.to_string());
        match JishukenServer::ken_ingest(params, config, None).unwrap() {
            WriteOp::Ingest { half_life, .. } => half_life,
            other => panic!("{other:?}"),
        }
    };
    let mut config = Config::default();
    config.decay.default_half_life = HalfLife::Never;
    assert_eq!(kept(&config, None), HalfLife::Never);
    assert_eq!(kept(&config, Some("slow")), HalfLife::parse("90d").unwrap());
    assert_eq!(kept(&config, Some("unheard of")), HalfLife::parse("3d").unwrap());
}
