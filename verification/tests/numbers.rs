//! Numbers by their bits, weights and instants.

use chrono::{DateTime, Utc};
use jishuken::config::DEFAULT_EPSILON;
use jishuken::engine::NEW_ELEMENT_CONFIDENCE;
use jishuken::generator::{NET_RUN_COST, RUN_COST};
use jishuken::number::{
    Real, FIVE, HALF, INFINITY, NINE_TENTHS, ONE, SEVEN_TENTHS, TWO_FIFTHS, ZERO,
};
use jishuken::scheduler::LEAST_COST;
use jishuken::schema::{GeneratorHash, Groundedness, TriageSource};
use jishuken::store::apply::INGEST_VARIANCE;
use jishuken::time::{later_instant, rfc3339, Elapsed, Timestamp};

#[test]
fn the_bits_are_those_of_the_numbers() {
    for (bits, number) in [
        (ZERO, 0.0),
        (TWO_FIFTHS, 0.4),
        (HALF, 0.5),
        (SEVEN_TENTHS, 0.7),
        (NINE_TENTHS, 0.9),
        (ONE, 1.0),
        (FIVE, 5.0),
        (INFINITY, f64::INFINITY),
        (DEFAULT_EPSILON, 0.02),
        (NEW_ELEMENT_CONFIDENCE, 0.6),
        (INGEST_VARIANCE, 0.25),
        (LEAST_COST, 1e-6),
        (RUN_COST, 3.0),
        (NET_RUN_COST, 10.0),
    ] {
        assert_eq!(f64::from_bits(bits), number);
    }
}

#[test]
fn comparisons_are_those_of_floats() {
    let samples = [
        0.0,
        -0.0,
        1.0,
        -1.0,
        0.1,
        f64::MIN_POSITIVE,
        f64::INFINITY,
        f64::NEG_INFINITY,
        f64::NAN,
    ];
    for a in samples {
        for b in samples {
            let (x, y) = (Real { bits: a.to_bits() }, Real { bits: b.to_bits() });
            assert_eq!(x.is_less(&y), a < b, "{a} < {b}");
            assert_eq!(x.is_equal(&y), a == b, "{a} == {b}");
            assert_eq!(x.before(&y), a.total_cmp(&b).is_lt(), "{a} before {b}");
            assert_eq!(x.order() < y.order(), a.total_cmp(&b).is_lt());
        }
        let clamped = Real { bits: a.to_bits() }.clamp(Real { bits: ZERO }, Real { bits: ONE });
        assert_eq!(clamped.bits, a.clamp(0.0, 1.0).to_bits(), "{a}");
    }
}

#[test]
fn trust_weight_ranks_groundedness() {
    let ts = Timestamp { secs: 0, nanos: 0 };
    let u = Groundedness::Ungrounded {
        source: TriageSource::Ingest,
    };
    let v = Groundedness::Verified {
        at: ts,
        by: GeneratorHash("x".into()),
    };
    let c = Groundedness::Conflicted { verifiers: vec![] };
    let r = Groundedness::Refuted {
        at: ts,
        by: GeneratorHash("x".into()),
    };
    assert_eq!(f64::from_bits(u.trust_weight().bits), 0.0);
    assert_eq!(f64::from_bits(r.trust_weight().bits), 0.0);
    assert_eq!(f64::from_bits(c.trust_weight().bits), 0.5);
    assert_eq!(f64::from_bits(v.trust_weight().bits), 1.0);
}

#[test]
fn instants_are_written_as_rfc_3339() {
    for text in ["2024-01-01T00:00:00Z", "1969-12-31T23:59:59.5Z", "2024-02-29T12:00:00.000000001Z"] {
        let t: DateTime<Utc> = text.parse().unwrap();
        let stamp = Timestamp { secs: t.timestamp(), nanos: t.timestamp_subsec_nanos() };
        assert_eq!(rfc3339(stamp), t.to_rfc3339());
    }
}

#[test]
fn instants_are_counted_in_whole_seconds() {
    let at = |secs, nanos| Timestamp { secs, nanos };
    assert_eq!(at(10, 0).seconds_since(&at(8, 500_000_000)), 1);
    assert_eq!(at(8, 500_000_000).seconds_since(&at(10, 0)), -1);
    assert!(at(10, 1).after(&at(10, 0)));
    assert!(!at(10, 0).after(&at(10, 0)));
    assert_eq!(
        later_instant(at(10, 999_999_999), Elapsed { secs: 1, nanos: 1 }),
        Some(at(12, 0))
    );
}
