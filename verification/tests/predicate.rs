//! Predicates.

use jishuken::error::Error;
use jishuken::number::Real;
use jishuken::predicate::{Judgment, NumOp, Predicate};

fn bits_of(x: f64) -> Real {
    Real { bits: x.to_bits() }
}

/// What a predicate says once numbers are read.
fn holds(p: &Predicate, claim: &str, span: &str) -> bool {
    let judgment = p.eval(claim, span);
    let (number, close) = match &judgment {
        Judgment::Decided(_) => (None, false),
        Judgment::Compare { text, value, .. } => match text.trim().parse::<f64>() {
            Ok(n) => (Some(bits_of(n)), (n - f64::from_bits(value.bits)).abs() < f64::EPSILON),
            Err(_) => (None, false),
        },
    };
    judgment.holds(number, close)
}

fn parse(text: &str) -> Result<Predicate, Error> {
    let number = Predicate::numeral(text)
        .and_then(|s| s.parse::<f64>().ok())
        .map(bits_of);
    Predicate::parse(text, number)
}

#[test]
fn exists_checks_nonempty() {
    assert!(holds(&Predicate::Exists, "c", "something"));
    assert!(!holds(&Predicate::Exists, "c", "   "));
}

#[test]
fn equals_vs_claim_or_literal() {
    assert!(holds(&Predicate::Equals { literal: None }, "hello", "hello"));
    assert!(!holds(&Predicate::Equals { literal: None }, "hello", "world"));
    assert!(holds(
        &Predicate::Equals {
            literal: Some("x".into())
        },
        "hello",
        "x"
    ));
}

#[test]
fn contains_and_matches() {
    assert!(holds(&Predicate::Contains { literal: None }, "auth", "auth lives here"));
    let three = Predicate::Matches {
        regex: r"^\d{3}$".into(),
    };
    assert!(holds(&three, "c", "200"));
    assert!(!holds(&three, "c", "two hundred"));
}

#[test]
fn numeric_compares() {
    let at_least = Predicate::Numeric {
        op: NumOp::Ge,
        value: bits_of(100.0),
    };
    assert!(holds(&at_least, "c", "200"));
    let below = Predicate::Numeric {
        op: NumOp::Lt,
        value: bits_of(100.0),
    };
    assert!(!holds(&below, "c", "200"));
    // Non-numeric span is false, not an error.
    let one = Predicate::Numeric {
        op: NumOp::Eq,
        value: bits_of(1.0),
    };
    assert!(!holds(&one, "c", "abc"));
}

#[test]
fn json_pointer_resolves_rfc6901() {
    let span = r#"{"owner": "alice", "nested": {"port": 8080}}"#;
    let p = parse("ptr:/owner:equals").unwrap();
    assert!(holds(&p, "alice", span));
    assert!(!holds(&p, "bob", span));

    let port = parse("ptr:/nested/port:num:==:8080").unwrap();
    assert!(holds(&port, "c", span));

    // Unresolved pointer fails (does not error).
    let missing = parse("ptr:/absent:exists").unwrap();
    assert!(!holds(&missing, "c", span));
}

#[test]
fn parse_and_validate() {
    assert_eq!(parse("exists").unwrap(), Predicate::Exists);
    assert!(
        parse("equals:http://x").unwrap()
            == Predicate::Equals {
                literal: Some("http://x".into())
            }
    );
    // A bad regex is rejected at parse/validate time, never at eval time.
    assert!(parse("matches:(").is_err());
    // A malformed pointer is rejected.
    assert!(parse("ptr:owner:exists").is_err());
    assert!(parse("nonsense").is_err());
}

#[test]
fn labels_are_short() {
    assert_eq!(parse("exists").unwrap().label(""), "exists");
    assert_eq!(parse("num:>=:3").unwrap().label("3"), "num Ge 3");
    assert_eq!(parse("ptr:/owner:equals").unwrap().label(""), "ptr /owner equals");
    assert_eq!(parse("num:<:2.5").unwrap().number(), Some(bits_of(2.5)));
    assert_eq!(parse("exists").unwrap().number(), None);
}

#[test]
fn a_bad_expression_never_matches() {
    let bad = Predicate::Matches { regex: "(".into() };
    assert!(!holds(&bad, "c", "("));
    assert!(bad.validate().is_err());
}

#[test]
fn parsed_predicates_are_valid() {
    for text in ["exists", "equals", "equals:x", "contains:y", "matches:^a", "num:==:1", "ptr:/a"] {
        assert!(parse(text).unwrap().validate().is_ok(), "{text}");
    }
    assert!(parse("num:==:abc").is_err());
    assert!(parse("num:=>:1").is_err());
}

#[test]
fn numbers_compare_as_those_of_the_standard_library() {
    let numbers = [
        0.0,
        -0.0,
        1.0,
        -1.0,
        2.5,
        f64::MIN_POSITIVE,
        f64::MAX,
        f64::INFINITY,
        f64::NEG_INFINITY,
        f64::NAN,
    ];
    for a in numbers {
        for b in numbers {
            let apply = |op: NumOp| op.apply(bits_of(a), bits_of(b), false);
            assert_eq!(apply(NumOp::Lt), a < b, "{a} {b}");
            assert_eq!(apply(NumOp::Le), a <= b, "{a} {b}");
            assert_eq!(apply(NumOp::Gt), a > b, "{a} {b}");
            assert_eq!(apply(NumOp::Ge), a >= b, "{a} {b}");
            assert!(!apply(NumOp::Eq));
            assert!(NumOp::Eq.apply(bits_of(a), bits_of(b), true));
        }
    }
}
