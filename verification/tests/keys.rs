//! Keys, identities and paths.

use jishuken::schema::{legacy_path_for, path_for, Claim, EntityId, FactId, KeyError};
use std::collections::HashSet;

#[test]
fn key_roundtrips() {
    let c = Claim::parse_key("staging.url").unwrap();
    assert_eq!(c.entity.0, "staging");
    assert_eq!(c.relation, "url");
    assert_eq!(c.key(), "staging.url");
}

#[test]
fn dotted_entity_takes_last_segment_as_relation() {
    let c = Claim::parse_key("product.eu.markets").unwrap();
    assert_eq!(c.entity.0, "product.eu");
    assert_eq!(c.relation, "markets");
}

#[test]
fn bad_keys_rejected() {
    assert!(Claim::parse_key("nodot").is_err());
    assert!(Claim::parse_key(".").is_err());
}

#[test]
fn fact_id_is_the_key_verbatim() {
    let c = Claim::parse_key("staging.url").unwrap();
    assert_eq!(FactId::for_claim(&c), FactId::for_claim(&c));
    // Identity is the key itself: no hash, no opaque id.
    assert_eq!(FactId::for_claim(&c).0, "staging.url");
}

#[test]
fn a_key_without_entity_or_relation_is_missing() {
    for key in ["", "nodot", ".", ".url", "staging."] {
        assert_eq!(Claim::parse_key(key).unwrap_err(), KeyError::Missing, "{key}");
    }
    assert_eq!(
        KeyError::Missing.to_string(),
        "key must be of the form `entity.relation`"
    );
}

#[test]
fn paths_are_escaped_byte_by_byte() {
    let path = |key: &str| path_for(&Claim::parse_key(key).unwrap());
    assert_eq!(path("staging.url"), "facts/staging/url.json");
    assert_eq!(path("product.eu.markets"), "facts/product%2eeu/markets.json");
    assert_eq!(path("release.Owner"), "facts/release/%4fwner.json");
    assert_eq!(path("../../escape.value"), "facts/%2e%2e%2f%2e%2e%2fescape/value.json");
    assert_eq!(path("日.owner"), "facts/%e6%97%a5/owner.json");
}

#[test]
fn legacy_paths_collide_where_escaped_ones_do_not() {
    let a = Claim::parse_key("service.api.owner").unwrap();
    let b = Claim::parse_key("service_api.owner").unwrap();
    assert_eq!(legacy_path_for(&a), "facts/service_api/owner.json");
    assert_eq!(legacy_path_for(&a), path_for(&b));
    assert_ne!(path_for(&a), path_for(&b));
}

#[test]
fn composed_and_decomposed_spellings_name_the_same_claim() {
    let composed = Claim::parse_key("café.rôle").unwrap();
    let decomposed = Claim::parse_key("cafe\u{0301}.ro\u{0302}le").unwrap();
    assert_eq!(composed, decomposed);
    let mut raw = Claim {
        entity: EntityId("cafe\u{0301}".into()),
        relation: "ro\u{0302}le".into(),
        nl: Some("what it does".into()),
    };
    raw.normalize();
    assert_eq!(raw.key(), composed.key());
    assert_eq!(raw.nl.as_deref(), Some("what it does"));
}

#[test]
fn the_key_of_a_claim_names_it_again() {
    let mut keys = HashSet::new();
    for key in ["a.b", "a.b.c", "a/b.c", "日本.語", "café.owner"] {
        let claim = Claim::parse_key(key).unwrap();
        assert_eq!(Claim::parse_key(&claim.key()).unwrap(), claim);
        assert!(keys.insert(path_for(&claim).to_lowercase()));
    }
}

#[test]
fn an_ascii_key_is_its_own_key() {
    for key in ["svc.owner", "a.b.c", "x y.z-1"] {
        assert_eq!(Claim::parse_key(key).unwrap().key(), key);
    }
}
