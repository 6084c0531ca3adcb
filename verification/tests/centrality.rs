//! The graph of facts and entities.

use jishuken::centrality::{graph_of, FactGraph};
use jishuken::duration::HalfLife;
use jishuken::json::Json;
use jishuken::number::Real;
use jishuken::schema::{
    Claim, Epistemics, Fact, FactId, FactValue, GeneratorHash, Groundedness, Provenance,
    ScheduleMeta, TriageSource,
};
use jishuken::time::Timestamp;

const NOW: Timestamp = Timestamp { secs: 0, nanos: 0 };

fn bits_of(x: f64) -> Real {
    Real { bits: x.to_bits() }
}

/// Trust-weighted Katz centrality by power iteration, over the graph's own nodes,
/// edges and weights.
fn katz(g: &FactGraph, alpha: f64, iters: usize) -> Vec<f64> {
    let n = g.weights().len();
    let mut c = vec![1.0f64; n];
    for _ in 0..iters {
        let mut next = vec![1.0f64; n];
        for &(from, to) in g.edges() {
            next[to] += alpha * f64::from_bits(g.weights()[from].bits) * c[from];
        }
        c = next;
    }
    c
}

#[test]
fn ungrounded_sources_contribute_zero() {
    // Same topology, twice: a hub pointed at by two sources. When the sources are
    // ungrounded (weight 0) the hub gets only its baseline; when they are grounded
    // (weight 1) it gets a real boost.
    let graph = |weight: f64| {
        let mut g = FactGraph::new();
        g.add_node("hub", bits_of(1.0));
        g.add_node("s1", bits_of(weight));
        g.add_node("s2", bits_of(weight));
        g.add_edge("s1", "hub");
        g.add_edge("s2", "hub");
        g
    };
    let (grounded, ungrounded) = (graph(1.0), graph(0.0));
    let g = katz(&grounded, 0.5, 50)[grounded.index_of("hub").unwrap()];
    let u = katz(&ungrounded, 0.5, 50)[ungrounded.index_of("hub").unwrap()];
    assert!(g > u);
    // The injection bought nothing: hub stays at baseline.
    assert!((u - 1.0).abs() < 1e-9);
}

#[test]
fn more_grounded_support_means_more_central() {
    let mut g = FactGraph::new();
    g.add_node("popular", bits_of(1.0));
    g.add_node("lonely", bits_of(1.0));
    for i in 0..5 {
        let s = format!("s{i}");
        g.add_node(&s, bits_of(1.0));
        g.add_edge(&s, "popular");
    }
    g.add_node("only", bits_of(1.0));
    g.add_edge("only", "lonely");
    let c = katz(&g, 0.3, 50);
    assert!(c[g.index_of("popular").unwrap()] > c[g.index_of("lonely").unwrap()]);
}

#[test]
fn nodes_stand_once_and_edges_need_both_ends() {
    let mut g = FactGraph::new();
    assert!(g.is_empty());
    assert_eq!(g.add_node("a", bits_of(7.0)), 0);
    assert_eq!(g.add_node("b", bits_of(-1.0)), 1);
    assert_eq!(*g.weights(), [bits_of(1.0), bits_of(0.0)]);
    assert_eq!(g.add_node("a", bits_of(7.0)), 0);
    assert_eq!(*g.weights(), [bits_of(1.0), bits_of(0.0)]);
    assert_eq!(g.add_node("b", bits_of(0.5)), 1);
    assert_eq!(*g.weights(), [bits_of(1.0), bits_of(0.5)]);
    g.add_edge("a", "nope");
    assert!(g.edges().is_empty());
    g.add_edge("b", "a");
    assert_eq!(*g.edges(), [(1, 0)]);
    assert_eq!(g.index_of("nope"), None);
}

fn fact(key: &str, groundedness: Groundedness) -> Fact {
    let claim = Claim::parse_key(key).unwrap();
    Fact {
        id: FactId::for_claim(&claim),
        claim,
        value: FactValue::Scalar { value: Json::of_string("v") },
        epistemics: Epistemics { confidence: bits_of(0.4), groundedness },
        schedule: ScheduleMeta {
            half_life: HalfLife::Never,
            centrality: bits_of(1.0),
            last_verified: NOW,
            variance_at_verify: bits_of(0.25),
            priority: bits_of(0.0),
        },
        source_hint: None,
        grounds: vec![],
        provenance: Provenance { ingested_by: "test".into(), ingested_at: NOW },
    }
}

#[test]
fn an_entity_is_central_by_its_grounded_facts() {
    let facts = vec![
        fact("a.x", Groundedness::Verified { at: NOW, by: GeneratorHash("h".into()) }),
        fact("a.y", Groundedness::Ungrounded { source: TriageSource::Ingest }),
        fact("b.x", Groundedness::Conflicted { verifiers: vec![] }),
    ];
    let g = graph_of(&facts);
    let names = ["a.x", "entity:a", "a.y", "b.x", "entity:b"];
    let places: Vec<usize> = names.iter().map(|n| g.index_of(n).unwrap()).collect();
    assert_eq!(places, [0, 1, 2, 3, 4]);
    assert_eq!(
        *g.weights(),
        [bits_of(1.0), bits_of(1.0), bits_of(0.0), bits_of(0.5), bits_of(1.0)]
    );
    assert_eq!(*g.edges(), [(0, 1), (2, 1), (3, 4)]);
}

#[test]
fn a_node_added_again_keeps_a_weight_between_zero_and_one() {
    let mut g = FactGraph::new();
    assert_eq!(g.add_node("s", bits_of(0.0)), 0);
    assert_eq!(g.add_node("hub", bits_of(1.0)), 1);
    g.add_edge("s", "hub");
    assert_eq!(g.add_node("s", bits_of(5.0)), 0);
    assert_eq!(g.weights()[0], bits_of(1.0));
    assert_eq!(katz(&g, 0.5, 1)[1], 1.5);
}
