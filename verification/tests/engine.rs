//! Judging grounds, merging sets, and grants.

use jishuken::config::Budget;
use jishuken::duration::HalfLife;
use jishuken::engine::{
    check_ground, check_op, diff_set, element_prior, grant, judge, tick, verify_fact,
};
use jishuken::error::Error;
use jishuken::generator::GeneratorSrc;
use jishuken::json::Json;
use jishuken::number::Real;
use jishuken::predicate::{Judgment, NumOp, Predicate};
use jishuken::resolve::{ReadResult, ResolvedSpan};
use jishuken::schema::{
    Capabilities, Claim, Element, Epistemics, Fact, FactId, FactValue, GeneratorHash,
    GeneratorRef, GroundBinding, GroundSource, Groundedness, Locator, Outcome, Provenance,
    ScheduleMeta, SourceRef, SourceRoot, TriageSource,
};
use jishuken::time::Timestamp;
use jishuken::write::WriteOp;

const NOW: Timestamp = Timestamp { secs: 1_700_000_000, nanos: 0 };

fn bits_of(x: f64) -> Real {
    Real { bits: x.to_bits() }
}

/// Moves a confidence a fixed fraction toward certainty.
fn bump(prior: f64) -> f64 {
    (prior + 0.3 * (1.0 - prior)).clamp(0.0, 1.0)
}

fn bumped(value: &FactValue) -> Vec<Real> {
    match value {
        FactValue::Elements { elements } => elements
            .iter()
            .map(|e| bits_of(bump(f64::from_bits(element_prior(e).bits))))
            .collect(),
        FactValue::Scalar { .. } => vec![],
    }
}

fn set(values: &[&str]) -> FactValue {
    FactValue::Elements {
        elements: values
            .iter()
            .map(|v| Element {
                value: Json::of_string(v),
                seen: NOW,
                confidence: Some(bits_of(0.5)),
                conflict: None,
            })
            .collect(),
    }
}

fn file_ground() -> GroundBinding {
    GroundBinding {
        source: GroundSource::File(SourceRef {
            root: SourceRoot::Project,
            path: "a.txt".into(),
            rev: None,
        }),
        locator: Locator::Whole,
        predicate: Predicate::Equals { literal: None },
        last: None,
    }
}

fn generator_ground(name: &str, hash: &str) -> GroundBinding {
    GroundBinding {
        source: GroundSource::Generator(GeneratorRef {
            hash: GeneratorHash(hash.into()),
            caps: Capabilities { net: vec![], read: vec![], env: vec![] },
            cost_estimate: bits_of(3.0),
            src_path: "verifiers/x.ts".into(),
            name: name.into(),
        }),
        locator: Locator::Whole,
        predicate: Predicate::Exists,
        last: None,
    }
}

fn fact(value: FactValue, grounds: Vec<GroundBinding>) -> Fact {
    let claim = Claim::parse_key("svc.url").unwrap();
    Fact {
        id: FactId::for_claim(&claim),
        claim,
        value,
        epistemics: Epistemics {
            confidence: bits_of(0.4),
            groundedness: Groundedness::Ungrounded { source: TriageSource::Ingest },
        },
        schedule: ScheduleMeta {
            half_life: HalfLife::default(),
            centrality: bits_of(1.0),
            last_verified: NOW,
            variance_at_verify: bits_of(0.25),
            priority: bits_of(0.0),
        },
        source_hint: None,
        grounds,
        provenance: Provenance { ingested_by: "test".into(), ingested_at: NOW },
    }
}

fn scalar(text: &str) -> FactValue {
    FactValue::Scalar { value: Json::of_string(text) }
}

#[test]
fn set_diff_adds_persists_and_removes() {
    let stored = set(&["a", "b"]);
    let merged = diff_set(&stored, "[\"b\", \"c\"]", NOW, &bumped(&stored))
        .expect("a json array updates the set");
    let values: Vec<String> = merged.iter().map(|e| e.value.plain()).collect();
    assert_eq!(values, vec!["b", "c"]);
    let b = merged.iter().find(|e| e.value.plain() == "b").unwrap();
    assert!(f64::from_bits(b.confidence.unwrap().bits) > 0.5);
    let c = merged.iter().find(|e| e.value.plain() == "c").unwrap();
    assert_eq!(c.confidence, Some(bits_of(0.6)));
}

#[test]
fn set_diff_ignores_non_array_span() {
    let stored = set(&["a"]);
    assert!(diff_set(&stored, "not json", NOW, &bumped(&stored)).is_none());
    assert!(diff_set(&scalar("x"), "[\"a\"]", NOW, &vec![]).is_none());
}

#[test]
fn set_elements_are_matched_by_value() {
    let stored = FactValue::Elements {
        elements: vec![Element {
            value: Json { text: "{\"a\":1,\"b\":2}".into() },
            seen: NOW,
            confidence: None,
            conflict: None,
        }],
    };
    let merged = diff_set(&stored, " [{\"b\": 2, \"a\": 1}] ", NOW, &bumped(&stored)).unwrap();
    assert_eq!(merged.len(), 1);
    assert_eq!(merged[0].value.text, "{\"a\":1,\"b\":2}");
    assert_eq!(merged[0].confidence, Some(bits_of(bump(0.5))));
}

#[test]
fn a_fact_without_grounds_cannot_be_verified() {
    match verify_fact(&fact(scalar("x"), vec![]), "svc.url") {
        Err(Error::Verifier(text)) => assert_eq!(
            text,
            "fact svc.url has no grounds; bind one with `ken ground`"
        ),
        other => panic!("{other:?}"),
    }
    let (id, n) = verify_fact(&fact(scalar("x"), vec![file_ground()]), "svc.url").unwrap();
    assert_eq!((id.0.as_str(), n), ("svc.url", 1));
}

fn span(text: &str) -> ReadResult {
    ReadResult::Resolved(ResolvedSpan {
        rev: "r1".into(),
        span_hash: "abc".into(),
        text: text.into(),
    })
}

#[test]
fn a_check_is_judged_by_its_predicate() {
    let f = fact(scalar("hello"), vec![file_ground()]);
    assert_eq!(judge(&f, 0, "hello"), Judgment::Decided(true));
    assert_eq!(judge(&f, 0, "bye"), Judgment::Decided(false));
    let yes = check_ground(&f, 0, span("hello"), None, false, NOW, bits_of(1.5), &vec![]);
    assert_eq!(yes.outcome, Outcome::Confirmed);
    let last = yes.resolved.unwrap();
    assert_eq!((last.rev.as_str(), last.span_hash.as_str()), ("r1", "abc"));
    assert_eq!((last.at, last.outcome, last.by), (NOW, Outcome::Confirmed, None));
    // A file read has no verifier, and so no cost to record.
    assert_eq!(yes.observed_cost, None);
    let no = check_ground(&f, 0, span("bye"), None, false, NOW, bits_of(1.5), &vec![]);
    assert_eq!(no.outcome, Outcome::Refuted);
    assert!(no.set_update.is_none());
}

#[test]
fn what_cannot_be_read_is_no_verdict_and_what_is_gone_refutes() {
    let f = fact(scalar("x"), vec![generator_ground("v.ts", "h1")]);
    let broken = check_ground(&f, 0, ReadResult::Errored("x".into()), None, false, NOW, bits_of(1.0), &vec![]);
    assert_eq!(broken.outcome, Outcome::Errored);
    assert!(broken.resolved.is_none() && broken.observed_cost.is_none());
    let later = check_ground(&f, 0, ReadResult::Transient, None, false, NOW, bits_of(1.0), &vec![]);
    assert_eq!(later.outcome, Outcome::Inconclusive);
    assert!(later.resolved.is_none() && later.observed_cost.is_none());
    let gone = check_ground(&f, 0, ReadResult::Unresolved, None, false, NOW, bits_of(1.0), &vec![]);
    assert_eq!(gone.outcome, Outcome::Refuted);
    assert_eq!(gone.observed_cost, Some(bits_of(1.0)));
    let last = gone.resolved.unwrap();
    assert!(last.rev.is_empty() && last.span_hash.is_empty());
    assert_eq!(last.by, Some(GeneratorHash("h1".into())));
}

#[test]
fn a_grant_repoints_the_grounds_of_its_name() {
    let caps = Capabilities { net: vec!["a.com".into()], read: vec![], env: vec![] };
    let to = GeneratorSrc::new("v.ts".into(), "x".into(), caps).to_ref();
    let facts = vec![
        fact(scalar("x"), vec![generator_ground("other.ts", "h0")]),
        fact(scalar("y"), vec![file_ground(), generator_ground("v.ts", "h1")]),
    ];
    let (touched, detail) = grant(facts, &to, &vec!["a.com".into(), "b.com".into()], &vec![]);
    assert_eq!(detail, "v.ts net=[a.com,b.com] read=[]");
    assert_eq!(touched.len(), 1);
    assert_eq!(touched[0].value.render(), "y");
    match &touched[0].grounds[1].source {
        GroundSource::Generator(g) => assert_eq!(g.hash, to.hash),
        other => panic!("{other:?}"),
    }
    assert!(matches!(touched[0].grounds[0].source, GroundSource::File(_)));
}

#[test]
fn a_check_is_recorded_under_the_identity_of_its_claim() {
    let f = fact(scalar("x"), vec![file_ground(), generator_ground("v.ts", "h1")]);
    let check = check_ground(&f, 1, span("x"), None, false, NOW, bits_of(1.5), &vec![]);
    match check_op(&f, 1, check) {
        WriteOp::GroundCheck { fact, ground, outcome, by, resolved, observed_cost, .. } => {
            assert_eq!(fact.0, "svc.url");
            assert_eq!((ground, outcome), (1, Outcome::Confirmed));
            assert_eq!(by, Some(GeneratorHash("h1".into())));
            assert_eq!(resolved.unwrap().by, by);
            assert_eq!(observed_cost, Some(bits_of(1.5)));
        }
        other => panic!("{other:?}"),
    }
}

#[test]
fn a_tick_checks_the_best_and_audits_what_is_drawn() {
    let two = || vec![file_ground(), generator_ground("v.ts", "h1")];
    let facts = vec![
        fact(scalar("a"), two()),
        fact(scalar("b"), vec![]),
        fact(scalar("c"), vec![file_ground()]),
        fact(scalar("d"), two()),
    ];
    let scores = [0.1, 9.0, 0.5, 0.2].map(bits_of).to_vec();
    let odds = vec![bits_of(0.5); 4];
    let budget = |per_tick, audit_per_tick| Budget {
        per_tick,
        audit_per_tick,
        ..Budget::default()
    };
    let mut facts = facts;
    for (i, fact) in facts.iter_mut().enumerate() {
        fact.id.0 = format!("fact.{i}");
    }
    let all = vec![true; 4];
    // The best that can be checked, then what is drawn and has independent grounds.
    assert_eq!(tick(&facts, &scores, &all, &odds, &budget(1, 5)), [2, 0, 3]);
    assert_eq!(tick(&facts, &scores, &all, &odds, &budget(1, 1)), [2, 0]);
    assert_eq!(tick(&facts, &scores, &vec![false; 4], &odds, &budget(2, 5)), [2, 3]);
    assert_eq!(tick(&facts, &scores, &all, &odds, &budget(0, 0)), [] as [usize; 0]);
}

#[test]
fn a_number_is_compared_as_the_caller_reads_it() {
    let mut ground = file_ground();
    ground.predicate = Predicate::Numeric { op: NumOp::Ge, value: bits_of(3.0) };
    let f = fact(scalar("x"), vec![ground]);
    let outcome = |text: &str, number: Option<f64>| {
        check_ground(&f, 0, span(text), number.map(bits_of), false, NOW, bits_of(1.0), &vec![])
            .outcome
    };
    assert_eq!(outcome("4", Some(4.0)), Outcome::Confirmed);
    assert_eq!(outcome("2", Some(2.0)), Outcome::Refuted);
    assert_eq!(outcome("many", None), Outcome::Refuted);
}
