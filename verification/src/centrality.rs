//! Sybil-resistant, trust-weighted centrality: the graph of facts and entities.
//! Each node's voting contribution is scaled by its own groundedness, so an
//! ungrounded, freshly-ingested fact contributes nothing to importance until it
//! clears its own verification.

use crate::number::{Real, ONE, ZERO};
use crate::schema::Fact;
use crate::text::same;
use vstd::prelude::*;

verus! {

/// A graph: nodes, the edges between them by place, and the weight of each node.
#[verifier::ext_equal]
pub struct Graph {
    pub nodes: Seq<Seq<char>>,
    pub edges: Seq<(int, int)>,
    pub weight: Seq<Real>,
}

/// Where a node is; the number of nodes where it is none of them.
pub open spec fn node_at(nodes: Seq<Seq<char>>, id: Seq<char>) -> int
    decreases nodes.len(),
{
    if nodes.len() == 0 || nodes[0] == id {
        0
    } else {
        1 + node_at(nodes.skip(1), id)
    }
}

/// A graph with a node, new or there already. Its weight is kept between zero and
/// one.
pub open spec fn with_node(graph: Graph, id: Seq<char>, weight: Real) -> Graph {
    let at = node_at(graph.nodes, id);
    let kept = weight.clamped(Real { bits: ZERO }, Real { bits: ONE });
    if at < graph.nodes.len() {
        Graph { weight: graph.weight.update(at, kept), ..graph }
    } else {
        Graph { nodes: graph.nodes.push(id), weight: graph.weight.push(kept), ..graph }
    }
}

/// A graph with an edge; the same graph where one end is no node.
pub open spec fn with_edge(graph: Graph, from: Seq<char>, to: Seq<char>) -> Graph {
    let f = node_at(graph.nodes, from);
    let t = node_at(graph.nodes, to);
    if f < graph.nodes.len() && t < graph.nodes.len() {
        Graph { edges: graph.edges.push((f, t)), ..graph }
    } else {
        graph
    }
}

/// Whether a graph is sound: each node stands once and has a weight, none below zero
/// or above one, and each edge joins two nodes.
pub open spec fn is_sound(graph: Graph) -> bool {
    &&& graph.weight.len() == graph.nodes.len()
    &&& forall|i: int|
        0 <= i < graph.weight.len() ==> !(#[trigger] graph.weight[i]).less(&Real { bits: ZERO })
            && !(Real { bits: ONE }).less(&graph.weight[i])
    &&& forall|i: int, j: int|
        0 <= i < j < graph.nodes.len() ==> #[trigger] graph.nodes[i] != #[trigger] graph.nodes[j]
    &&& forall|k: int|
        0 <= k < graph.edges.len() ==> 0 <= (#[trigger] graph.edges[k]).0 < graph.nodes.len() && 0
            <= graph.edges[k].1 < graph.nodes.len()
}

/// A directed graph of facts. An edge `from -> to` means `from` supports or depends
/// on `to`, lending `to` importance.
#[derive(Debug)]
pub struct FactGraph {
    nodes: Vec<String>,
    edges: Vec<(usize, usize)>,
    /// Per-node groundedness weight in `[0,1]`.
    weight: Vec<Real>,
}

impl View for FactGraph {
    type V = Graph;

    closed spec fn view(&self) -> Graph {
        parts_view(self.nodes@, self.edges@, self.weight@)
    }
}

spec fn parts_view(nodes: Seq<String>, edges: Seq<(usize, usize)>, weight: Seq<Real>) -> Graph {
    Graph {
        nodes: crate::text::texts(nodes),
        edges: edges.map_values(|e: (usize, usize)| (e.0 as int, e.1 as int)),
        weight,
    }
}

proof fn lemma_with_node_is_sound(graph: Graph, id: Seq<char>, weight: Real)
    requires
        is_sound(graph),
    ensures
        is_sound(with_node(graph, id, weight)),
{
    lemma_node_found(graph.nodes, id);
    let next = with_node(graph, id, weight);
    assert forall|k: int| 0 <= k < next.edges.len() implies 0 <= (#[trigger] next.edges[k]).0
        < next.nodes.len() && 0 <= next.edges[k].1 < next.nodes.len() by {
        assert(next.edges[k] == graph.edges[k]);
    }
}

proof fn lemma_with_edge_is_sound(graph: Graph, from: Seq<char>, to: Seq<char>)
    requires
        is_sound(graph),
    ensures
        is_sound(with_edge(graph, from, to)),
{
    lemma_node_found(graph.nodes, from);
    lemma_node_found(graph.nodes, to);
}

pub proof fn lemma_node_at(nodes: Seq<Seq<char>>, id: Seq<char>, n: int)
    requires
        0 <= n <= nodes.len(),
        n < nodes.len() ==> nodes[n] == id,
        forall|i: int| 0 <= i < n ==> #[trigger] nodes[i] != id,
    ensures
        node_at(nodes, id) == n,
    decreases nodes.len(),
{
    if nodes.len() > 0 && nodes[0] != id {
        let rest = nodes.skip(1);
        assert forall|i: int| 0 <= i < n - 1 implies #[trigger] rest[i] != id by {
            assert(rest[i] == nodes[i + 1]);
        }
        lemma_node_at(rest, id, n - 1);
    }
}

pub proof fn lemma_node_found(nodes: Seq<Seq<char>>, id: Seq<char>)
    ensures
        0 <= node_at(nodes, id) <= nodes.len(),
        node_at(nodes, id) < nodes.len() ==> nodes[node_at(nodes, id)] == id,
        forall|i: int| 0 <= i < node_at(nodes, id) ==> #[trigger] nodes[i] != id,
    decreases nodes.len(),
{
    if nodes.len() > 0 && nodes[0] != id {
        let rest = nodes.skip(1);
        lemma_node_found(rest, id);
        assert forall|i: int| 0 <= i < node_at(nodes, id) implies #[trigger] nodes[i] != id by {
            if i > 0 {
                assert(nodes[i] == rest[i - 1]);
            }
        }
    }
}

impl FactGraph {
    #[verifier::type_invariant]
    spec fn inv(self) -> bool {
        is_sound(self@)
    }

    /// The empty graph.
    pub fn new() -> (r: Self)
        ensures
            r@ == no_graph(),
    {
        let r = FactGraph { nodes: Vec::new(), edges: Vec::new(), weight: Vec::new() };
        assert(r@.nodes =~= Seq::<Seq<char>>::empty());
        assert(r@.edges =~= Seq::<(int, int)>::empty());
        assert(r@.weight =~= Seq::<Real>::empty());
        r
    }

    /// Where a node is; `None` where it is none of them.
    pub fn index_of(&self, id: &str) -> (r: Option<usize>)
        ensures
            match r {
                Some(i) => i == node_at(self@.nodes, id@) && i < self@.nodes.len(),
                None => node_at(self@.nodes, id@) >= self@.nodes.len(),
            },
    {
        let mut i: usize = 0;
        while i < self.nodes.len()
            invariant
                i <= self.nodes.len(),
                self@.nodes == crate::text::texts(self.nodes@),
                forall|k: int| 0 <= k < i ==> #[trigger] self@.nodes[k] != id@,
            decreases self.nodes.len() - i,
        {
            assert(self@.nodes[i as int] == self.nodes@[i as int]@);
            if same(self.nodes[i].as_str(), id) {
                proof {
                    lemma_node_at(self@.nodes, id@, i as int);
                }
                return Some(i);
            }
            i = i + 1;
        }
        proof {
            lemma_node_at(self@.nodes, id@, i as int);
        }
        None
    }

    /// Adds a node, or sets the weight of one that is there; the weight is kept
    /// between zero and one.
    pub fn add_node(&mut self, id: &str, trust_weight: Real) -> (r: usize)
        ensures
            final(self)@ == with_node(old(self)@, id@, trust_weight),
            r == node_at(old(self)@.nodes, id@),
    {
        proof {
            use_type_invariant(&*self);
            lemma_with_node_is_sound(self@, id@, trust_weight);
            lemma_node_found(self@.nodes, id@);
        }
        let ghost before = self@;
        let found = self.index_of(id);
        let kept = trust_weight.clamp(Real { bits: ZERO }, Real { bits: ONE });
        let (old_nodes, edges, old_weight) = self.take();
        let mut nodes = old_nodes;
        let mut weight = old_weight;
        let at: usize = match found {
            Some(at) => {
                weight.set(at, kept);
                at
            },
            None => {
                let at: usize = nodes.len();
                nodes.push(id.to_owned());
                weight.push(kept);
                assert(crate::text::texts(nodes@) =~= before.nodes.push(id@));
                at
            },
        };
        assert(parts_view(nodes@, edges@, weight@) =~= with_node(before, id@, trust_weight));
        *self = FactGraph { nodes, edges, weight };
        at
    }

    /// Takes the graph apart; an empty one stays.
    fn take(&mut self) -> (r: (Vec<String>, Vec<(usize, usize)>, Vec<Real>))
        ensures
            parts_view(r.0@, r.1@, r.2@) == old(self)@,
    {
        let mut whole = FactGraph::new();
        std::mem::swap(self, &mut whole);
        (whole.nodes, whole.edges, whole.weight)
    }

    /// Adds an edge between two nodes that are there.
    pub fn add_edge(&mut self, from: &str, to: &str)
        ensures
            final(self)@ == with_edge(old(self)@, from@, to@),
    {
        proof {
            use_type_invariant(&*self);
        }
        proof {
            lemma_with_edge_is_sound(self@, from@, to@);
        }
        let ghost before = self@;
        if let (Some(f), Some(t)) = (self.index_of(from), self.index_of(to)) {
            let (nodes, old_edges, weight) = self.take();
            let mut edges = old_edges;
            edges.push((f, t));
            assert(parts_view(nodes@, edges@, weight@).edges =~= before.edges.push(
                (f as int, t as int),
            ));
            assert(parts_view(nodes@, edges@, weight@) =~= with_edge(before, from@, to@));
            *self = FactGraph { nodes, edges, weight };
        }
    }

    pub fn is_empty(&self) -> (r: bool)
        ensures
            r == (self@.nodes.len() == 0),
    {
        self.nodes.len() == 0
    }

    /// The weight of each node, by place.
    pub fn weights(&self) -> (r: &Vec<Real>)
        ensures
            r@ == self@.weight,
            r@.len() == self@.nodes.len(),
    {
        proof {
            use_type_invariant(self);
        }
        &self.weight
    }

    /// The edges, by the places of their ends.
    pub fn edges(&self) -> (r: &Vec<(usize, usize)>)
        ensures
            r@.map_values(|e: (usize, usize)| (e.0 as int, e.1 as int)) == self@.edges,
            forall|k: int|
                0 <= k < r@.len() ==> (#[trigger] r@[k]).0 < self@.nodes.len() && r@[k].1
                    < self@.nodes.len(),
    {
        proof {
            use_type_invariant(self);
            assert forall|k: int| 0 <= k < self.edges@.len() implies (#[trigger] self.edges@[k]).0
                < self@.nodes.len() && self.edges@[k].1 < self@.nodes.len() by {
                assert(self@.edges[k] == (self.edges@[k].0 as int, self.edges@[k].1 as int));
            }
        }
        &self.edges
    }
}

// ---------------------------------------------------------------------------
// Facts and entities
// ---------------------------------------------------------------------------

/// The node of an entity.
pub open spec fn entity_node(fact: Fact) -> Seq<char> {
    "entity:"@ + fact.claim.entity.0@
}

/// The name of the node of a fact's entity.
pub fn entity_name(fact: &Fact) -> (r: String)
    ensures
        r@ == entity_node(*fact),
{
    "entity:".to_owned().concat(fact.claim.entity.0.as_str())
}

/// A graph with nodes for facts and their entities. A fact weighs what it is
/// trusted; an entity weighs in full.
pub open spec fn with_nodes(graph: Graph, facts: Seq<Fact>) -> Graph
    decreases facts.len(),
{
    if facts.len() == 0 {
        graph
    } else {
        let fact = facts.last();
        with_node(
            with_node(
                with_nodes(graph, facts.drop_last()),
                fact.id.0@,
                Real { bits: fact.epistemics.groundedness.weight_bits() },
            ),
            entity_node(fact),
            Real { bits: ONE },
        )
    }
}

/// A graph with an edge from each fact to its entity.
pub open spec fn with_edges(graph: Graph, facts: Seq<Fact>) -> Graph
    decreases facts.len(),
{
    if facts.len() == 0 {
        graph
    } else {
        with_edge(
            with_edges(graph, facts.drop_last()),
            facts.last().id.0@,
            entity_node(facts.last()),
        )
    }
}

/// A graph without anything.
pub open spec fn no_graph() -> Graph {
    Graph { nodes: Seq::empty(), edges: Seq::empty(), weight: Seq::empty() }
}

/// The graph of facts and entities: a node for each fact and each entity, and an edge
/// from each fact to its entity.
pub open spec fn fact_graph(facts: Seq<Fact>) -> Graph {
    with_edges(with_nodes(no_graph(), facts), facts)
}

/// The graph of facts and entities: an entity is central in proportion to the
/// *grounded* facts that touch it.
pub fn graph_of(facts: &Vec<Fact>) -> (r: FactGraph)
    ensures
        r@ == fact_graph(facts@),
{
    let mut graph = FactGraph::new();
    let ghost empty = graph@;
    let mut i: usize = 0;
    assert(facts@.take(0) =~= Seq::<Fact>::empty());
    while i < facts.len()
        invariant
            i <= facts.len(),
            graph@ == with_nodes(empty, facts@.take(i as int)),
        decreases facts.len() - i,
    {
        proof {
            assert(facts@.take(i + 1).drop_last() =~= facts@.take(i as int));
            assert(facts@.take(i + 1).last() == facts@[i as int]);
        }
        let weight = facts[i].epistemics.groundedness.trust_weight();
        let _ = graph.add_node(facts[i].id.0.as_str(), weight);
        let _ = graph.add_node(entity_name(&facts[i]).as_str(), Real { bits: ONE });
        i = i + 1;
    }
    assert(facts@.take(i as int) =~= facts@);
    let ghost nodes = graph@;
    let mut k: usize = 0;
    while k < facts.len()
        invariant
            k <= facts.len(),
            graph@ == with_edges(nodes, facts@.take(k as int)),
        decreases facts.len() - k,
    {
        proof {
            assert(facts@.take(k + 1).drop_last() =~= facts@.take(k as int));
            assert(facts@.take(k + 1).last() == facts@[k as int]);
        }
        graph.add_edge(facts[k].id.0.as_str(), entity_name(&facts[k]).as_str());
        k = k + 1;
    }
    assert(facts@.take(k as int) =~= facts@);
    graph
}

} // verus!
