//! Settings.

use jishuken::config::{
    detect_vcs, parse_duration_secs, require_duration, Config, RootPath, SourceRootCfg, Vcs,
    VolatilityMap,
};
use jishuken::duration::HalfLife;
use jishuken::error::Error;
use jishuken::schema::{SourceRoot, Volatility};
use jishuken::time::Elapsed;

fn secs(secs: u64) -> Option<Elapsed> {
    Some(Elapsed { secs, nanos: 0 })
}

#[test]
fn config_durations() {
    assert_eq!(parse_duration_secs("never"), None);
    assert_eq!(parse_duration_secs("6h"), secs(21600));
    assert_eq!(parse_duration_secs("90d"), secs(7_776_000));
    assert_eq!(parse_duration_secs("30m"), secs(1800));
}

#[test]
fn defaults_are_the_documented_ones() {
    let cfg = Config::default();
    assert_eq!(cfg.budget.per_tick, 20);
    assert_eq!(f64::from_bits(cfg.budget.epsilon.bits), 0.02);
    assert_eq!(cfg.decay.default_half_life, HalfLife::default());
    assert_eq!(cfg.sandbox.runtime, "deno");
    assert_eq!(Some(cfg.sandbox.timeout_secs()), secs(10));
    assert_eq!(Some(cfg.daemon.interval_secs()), secs(60));
}

#[test]
fn a_required_duration_is_named_where_it_is_bad() {
    assert_eq!(Some(require_duration("PT0.5S").unwrap()), Some(Elapsed { secs: 0, nanos: 500_000_000 }));
    for input in ["never", "P1M", "PT0S", "NaN"] {
        assert!(matches!(require_duration(input), Err(Error::Config(_))), "{input}");
    }
}

#[test]
fn classes_keep_their_configured_decay() {
    let mut cfg = Config::default();
    assert_eq!(cfg.legacy_half_life("immutable").unwrap(), HalfLife::Never);
    assert_eq!(cfg.legacy_half_life("slow").unwrap(), HalfLife::parse("90d").unwrap());
    assert_eq!(cfg.legacy_half_life("days").unwrap(), HalfLife::parse("3d").unwrap());
    assert_eq!(cfg.legacy_half_life("hours").unwrap(), HalfLife::parse("6h").unwrap());
    cfg.volatility.push(("hours".into(), HalfLife::parse("2h").unwrap()));
    assert_eq!(cfg.legacy_half_life("hours").unwrap(), HalfLife::parse("2h").unwrap());
    match cfg.legacy_half_life("years") {
        Err(Error::Config(text)) => assert_eq!(text, "unknown legacy volatility class: years"),
        other => panic!("{other:?}"),
    }
}

#[test]
fn old_mappings_give_seconds() {
    let map = VolatilityMap::default();
    assert_eq!(map.half_life_secs(Volatility::Immutable), None);
    assert_eq!(map.half_life_secs(Volatility::Hours), secs(21600));
}

#[test]
fn roots_are_resolved_by_name() {
    let mut cfg = Config::default();
    cfg.sources.push((
        "wiki".into(),
        SourceRootCfg { repo: Some("../wiki".into()), ..SourceRootCfg::default() },
    ));
    let (root, vcs) = cfg.resolve_root(&SourceRoot::Named("wiki".into()), true, false).unwrap();
    assert_eq!(root, RootPath::Below("../wiki".into()));
    assert_eq!(vcs, Vcs::Git);
    assert!(cfg.resolve_root(&SourceRoot::Named("nope".into()), true, false).is_err());
    assert_eq!(detect_vcs(true), Vcs::Jj);
    assert_eq!(detect_vcs(false), Vcs::Git);
}

#[test]
fn each_entry_is_found_by_its_key() {
    let mut cfg = Config::default();
    for (class, text) in [("slow", "60d"), ("hours", "2h"), ("days", "5d")] {
        cfg.volatility.push((class.into(), HalfLife::parse(text).unwrap()));
    }
    for (class, half_life) in &cfg.volatility {
        assert_eq!(cfg.legacy_half_life(class).unwrap(), *half_life);
    }
    for name in ["wiki", "docs"] {
        let repo = Some(format!("../{name}"));
        cfg.sources.push((name.into(), SourceRootCfg { repo, ..SourceRootCfg::default() }));
    }
    for name in ["wiki", "docs"] {
        let (root, _) = cfg.resolve_root(&SourceRoot::Named(name.into()), true, false).unwrap();
        assert_eq!(root, RootPath::Below(format!("../{name}")));
    }
}
