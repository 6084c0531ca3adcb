//! Sources, outcomes and what they weigh.

use jishuken::generator::GeneratorSrc;
use jishuken::locator::parse_source;
use jishuken::predicate::Predicate;
use jishuken::schema::{
    path_for, sanitize, Capabilities, Claim, CommandSource, GroundBinding, GroundSource,
    HandlerSource, Locator, Outcome, SourceRoot, Volatility,
};

fn file() -> GroundSource {
    GroundSource::File(parse_source("src/a.rs", None).unwrap().0)
}

fn command() -> GroundSource {
    GroundSource::Command(CommandSource { argv: vec!["curl".into()], root: SourceRoot::Project })
}

fn generator(net: &[&str]) -> GroundSource {
    let caps = Capabilities {
        net: net.iter().map(|s| s.to_string()).collect(),
        ..Capabilities::default()
    };
    GroundSource::Generator(GeneratorSrc::new("v.ts".into(), "x".into(), caps).to_ref())
}

fn handler(net: &[&str]) -> GroundSource {
    let caps = Capabilities {
        net: net.iter().map(|s| s.to_string()).collect(),
        ..Capabilities::default()
    };
    let (_, handler) = jishuken::generator::load_handler("wiki", "w.ts", "x".into(), caps);
    GroundSource::Handler(HandlerSource { handler, reference: "Page".into(), rev: None })
}

#[test]
fn channels_are_trusted_by_how_they_can_be_influenced() {
    let weight = |s: &GroundSource| f64::from_bits(s.channel_weight().bits);
    assert_eq!(weight(&file()), 1.0);
    assert_eq!(weight(&command()), 0.7);
    assert_eq!(weight(&generator(&[])), 0.9);
    assert_eq!(weight(&generator(&["a.com"])), 0.5);
    assert_eq!(weight(&handler(&[])), 0.9);
    assert_eq!(weight(&handler(&["a.com"])), 0.5);
}

#[test]
fn reads_cost_what_their_channel_costs() {
    let cost = |s: &GroundSource| f64::from_bits(s.cost().bits);
    assert_eq!(cost(&file()), 1.0);
    assert_eq!(cost(&command()), 5.0);
    assert_eq!(cost(&generator(&[])), 3.0);
    assert_eq!(cost(&generator(&["a.com"])), 10.0);
    let nets = [file(), command(), generator(&[]), generator(&["a"]), handler(&[]), handler(&["a"])];
    assert_eq!(
        nets.iter().map(GroundSource::is_net).collect::<Vec<_>>(),
        [false, true, false, true, false, true]
    );
    let labels: Vec<String> = nets.iter().map(GroundSource::kind_label).collect();
    assert_eq!(labels, ["FILE", "CMD", "GEN", "GEN", "WIKI", "WIKI"]);
    let binding = GroundBinding {
        source: command(),
        locator: Locator::Whole,
        predicate: Predicate::Exists,
        last: None,
    };
    assert!(binding.is_net());
    assert_eq!(f64::from_bits(binding.cost().bits), 5.0);
}

#[test]
fn only_a_verdict_updates_belief() {
    let all = [Outcome::Confirmed, Outcome::Refuted, Outcome::Errored, Outcome::Inconclusive];
    assert_eq!(all.map(|o| o.updates_belief()), [true, true, false, false]);
    assert_eq!(
        all.map(|o| o.label()),
        ["confirmed", "refuted", "errored", "inconclusive"]
    );
}

#[test]
fn classes_are_named_in_any_case() {
    assert_eq!(Volatility::parse("Days"), Ok(Volatility::Days));
    assert_eq!(Volatility::parse("IMMUTABLE"), Ok(Volatility::Immutable));
    assert_eq!(
        Volatility::parse("Weeks"),
        Err("unknown volatility class: weeks".to_string())
    );
}

#[test]
fn paths_stay_inside_the_facts() {
    for key in ["../../escape.value", "a/b.c", "..", "...x", "\\\\host.share", "a.."] {
        let Ok(claim) = Claim::parse_key(key) else { continue };
        let path = path_for(&claim);
        let parts: Vec<&str> = path.split('/').collect();
        assert_eq!(parts.len(), 3, "{path}");
        assert_eq!(parts[0], "facts");
        assert!(parts.iter().all(|p| !p.is_empty() && *p != "." && *p != ".."), "{path}");
    }
    assert_eq!(sanitize("a-b_c.d/é"), "a-b_c_d__");
}
