//! Write authority and the confidence an ingest lands at.

use jishuken::duration::HalfLife;
use jishuken::json::Json;
use jishuken::number::Real;
use jishuken::schema::{Claim, EntityId, FactId, FactValue, Outcome, TriageSource};
use jishuken::verify::authority;
use jishuken::write::{
    landed_confidence_with, WriteOp, INGEST_CONFIDENCE_CEILING, INGEST_DEFAULT_CONFIDENCE,
};

fn bits_of(x: f64) -> Real {
    Real { bits: x.to_bits() }
}

fn float(x: Real) -> f64 {
    f64::from_bits(x.bits)
}

fn claim() -> Claim {
    Claim {
        entity: EntityId("staging".into()),
        relation: "url".into(),
        nl: None,
    }
}

/// The confidence an ingest lands at without recalibration.
fn landed_confidence(triage: &TriageSource) -> f64 {
    let raw = match triage {
        TriageSource::Llm { meta_confidence } => *meta_confidence,
        _ => bits_of(0.0),
    };
    float(landed_confidence_with(triage, raw))
}

#[test]
fn ingest_is_constructible_by_data_plane() {
    let op = WriteOp::ingest(
        claim(),
        FactValue::Scalar {
            value: Json::of_string("x"),
        },
        TriageSource::Ingest,
        HalfLife::parse("6h").unwrap(),
        None,
    );
    assert_eq!(op.tag(), "Ingest");
    assert_eq!(op.fact_key(), "staging.url");
}

#[test]
fn ingest_cannot_exceed_ceiling() {
    let hot = landed_confidence(&TriageSource::Llm {
        meta_confidence: bits_of(0.99),
    });
    assert!(hot <= f64::from_bits(INGEST_CONFIDENCE_CEILING));
    let cool = landed_confidence(&TriageSource::Llm {
        meta_confidence: bits_of(0.1),
    });
    assert!((cool - 0.1).abs() < 1e-9);
}

#[test]
fn recalibration_leaves_non_llm_triage_alone() {
    for fitted in [0.2, 0.9, -2.0] {
        assert!(
            (float(landed_confidence_with(&TriageSource::Ingest, bits_of(fitted)))
                - landed_confidence(&TriageSource::Ingest))
            .abs()
                < 1e-9
        );
        assert!(
            (float(landed_confidence_with(&TriageSource::Manual, bits_of(fitted)))
                - landed_confidence(&TriageSource::Manual))
            .abs()
                < 1e-9
        );
    }
}

#[test]
fn a_recalibrated_prior_is_discounted_within_bounds() {
    let triage = TriageSource::Llm { meta_confidence: bits_of(0.45) };
    assert_eq!(landed_confidence_with(&triage, bits_of(0.2)), bits_of(0.2));
    assert_eq!(landed_confidence_with(&triage, bits_of(-1.0)), bits_of(0.0));
    assert_eq!(landed_confidence_with(&triage, bits_of(7.0)), bits_of(0.5));
}

#[test]
fn the_ceiling_and_the_default_are_what_they_say() {
    assert_eq!(f64::from_bits(INGEST_CONFIDENCE_CEILING), 0.5);
    assert_eq!(f64::from_bits(INGEST_DEFAULT_CONFIDENCE), 0.4);
    assert_eq!(landed_confidence(&TriageSource::Ingest), 0.4);
    assert_eq!(landed_confidence(&TriageSource::Manual), 0.5);
}

#[test]
fn every_operation_has_its_tag() {
    let id = || FactId("staging.url".into());
    let check = |outcome| authority::ground_check(id(), 0, outcome, None, None, None, None);
    assert_eq!(check(Outcome::Confirmed).tag(), "GroundCheck:confirmed");
    assert_eq!(check(Outcome::Refuted).tag(), "GroundCheck:refuted");
    assert_eq!(check(Outcome::Errored).tag(), "GroundCheck:errored");
    assert_eq!(check(Outcome::Inconclusive).tag(), "GroundCheck:inconclusive");
    assert_eq!(authority::reschedule(id(), bits_of(1.0)).tag(), "Reschedule");
    assert_eq!(authority::reschedule(id(), bits_of(1.0)).fact_key(), "staging.url");
}
