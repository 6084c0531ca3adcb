//! Who counts how much for whom, and how numbers compare.

use crate::centrality::Graph;
use crate::number::Real;
use crate::schema::{Fact, Groundedness};
use vstd::prelude::*;

verus! {

/// What the node of an entity is called.
pub open spec fn entity_name(fact: Fact) -> Seq<char> {
    seq!['e', 'n', 't', 'i', 't', 'y', ':'] + fact.claim.entity.0@
}

/// Whether a graph has a node.
pub open spec fn has_node(graph: Graph, x: Seq<char>) -> bool {
    graph.nodes.contains(x)
}

/// The weight of a node.
pub open spec fn weight_of(graph: Graph, x: Seq<char>) -> Real {
    graph.weight[crate::centrality::node_at(graph.nodes, x)]
}

/// What a fact counts: in full where it is verified, by half where it is in conflict, and
/// not at all otherwise.
pub open spec fn counts(fact: Fact) -> u64 {
    match fact.epistemics.groundedness {
        Groundedness::Verified { .. } => 0x3ff0_0000_0000_0000,
        Groundedness::Conflicted { .. } => 0x3fe0_0000_0000_0000,
        Groundedness::Ungrounded { .. } => 0,
        Groundedness::Refuted { .. } => 0,
    }
}

proof fn lemma_present(nodes: Seq<Seq<char>>, x: Seq<char>)
    ensures
        crate::centrality::node_at(nodes, x) < nodes.len() <==> nodes.contains(x),
        0 <= crate::centrality::node_at(nodes, x) <= nodes.len(),
{
    crate::centrality::lemma_node_found(nodes, x);
    let n = crate::centrality::node_at(nodes, x);
    if n < nodes.len() {
        assert(nodes[n] == x);
    }
    if nodes.contains(x) {
        let k = choose|k: int| 0 <= k < nodes.len() && nodes[k] == x;
        if n == nodes.len() {
            assert(nodes[k] != x);
        }
    }
}

proof fn lemma_with_node(graph: Graph, id: Seq<char>, weight: Real, x: Seq<char>)
    requires
        graph.weight.len() == graph.nodes.len(),
    ensures
        ({
            let next = crate::centrality::with_node(graph, id, weight);
            &&& next.weight.len() == next.nodes.len()
            &&& next.edges == graph.edges
            &&& has_node(next, x) <==> has_node(graph, x) || x == id
            &&& x == id ==> weight_of(next, x) == weight.clamped(
                Real { bits: 0 },
                Real { bits: 0x3ff0_0000_0000_0000 },
            )
            &&& x != id && has_node(graph, x) ==> weight_of(next, x) == weight_of(graph, x)
        }),
{
    let next = crate::centrality::with_node(graph, id, weight);
    let at = crate::centrality::node_at(graph.nodes, id);
    let n = crate::centrality::node_at(graph.nodes, x);
    lemma_present(graph.nodes, id);
    lemma_present(graph.nodes, x);
    crate::centrality::lemma_node_found(graph.nodes, x);
    crate::centrality::lemma_node_found(graph.nodes, id);
    if at < graph.nodes.len() {
        if x != id && has_node(graph, x) {
            assert(graph.nodes[n] == x && graph.nodes[at] == id);
        }
    } else {
        let more = graph.nodes.push(id);
        if has_node(graph, x) {
            assert forall|i: int| 0 <= i < n implies #[trigger] more[i] != x by {
                assert(more[i] == graph.nodes[i]);
            }
            assert(more[n] == x);
            crate::centrality::lemma_node_at(more, x, n);
        } else if x == id {
            assert forall|i: int| 0 <= i < at implies #[trigger] more[i] != x by {
                assert(more[i] == graph.nodes[i]);
            }
            assert(more[at] == id);
            crate::centrality::lemma_node_at(more, x, at);
        }
        if more.contains(x) {
            let k = choose|k: int| 0 <= k < more.len() && more[k] == x;
            if k < graph.nodes.len() {
                assert(graph.nodes[k] == x);
            }
        }
        if has_node(graph, x) {
            assert(more[n] == x);
        }
        if x == id {
            assert(more[graph.nodes.len() as int] == x);
        }
    }
}

/// Whether some fact is a node's, as itself or as its entity.
pub open spec fn is_of(facts: Seq<Fact>, x: Seq<char>) -> bool {
    exists|i: int|
        0 <= i < facts.len() && ((#[trigger] facts[i]).id.0@ == x || entity_name(facts[i]) == x)
}

proof fn lemma_nodes(facts: Seq<Fact>, x: Seq<char>, i: int)
    ensures
        ({
            let graph = crate::centrality::with_nodes(crate::centrality::no_graph(), facts);
            &&& graph.weight.len() == graph.nodes.len()
            &&& graph.edges.len() == 0
            &&& has_node(graph, x) <==> is_of(facts, x)
            &&& is_of(facts, x) && (forall|k: int|
                0 <= k < facts.len() ==> (#[trigger] facts[k]).id.0@ != x) ==> weight_of(
                graph,
                x,
            ).bits == 0x3ff0_0000_0000_0000
            &&& 0 <= i < facts.len() && facts[i].id.0@ == x && (forall|k: int|
                0 <= k < facts.len() ==> entity_name(#[trigger] facts[k]) != x) && (forall|k: int|
                i < k < facts.len() ==> (#[trigger] facts[k]).id.0@ != x) ==> weight_of(
                graph,
                x,
            ).bits == counts(facts[i])
        }),
    decreases facts.len(),
{
    let graph = crate::centrality::with_nodes(crate::centrality::no_graph(), facts);
    if facts.len() > 0 {
        let front = facts.drop_last();
        let fact = facts.last();
        let before = crate::centrality::with_nodes(crate::centrality::no_graph(), front);
        lemma_nodes(front, x, i);
        reveal_strlit("entity:");
        assert(crate::centrality::entity_node(fact) =~= entity_name(fact));
        let weight = Real { bits: fact.epistemics.groundedness.weight_bits() };
        let one = Real { bits: 0x3ff0_0000_0000_0000 };
        let middle = crate::centrality::with_node(before, fact.id.0@, weight);
        lemma_with_node(before, fact.id.0@, weight, x);
        lemma_with_node(middle, entity_name(fact), one, x);
        assert(weight.clamped(Real { bits: 0 }, one) == weight);
        assert(one.clamped(Real { bits: 0 }, one) == one);
        assert(facts[facts.len() - 1] == fact);
        assert forall|k: int| 0 <= k < front.len() implies front[k] == facts[k] by {}
        if is_of(front, x) {
            let k = choose|k: int|
                0 <= k < front.len() && ((#[trigger] front[k]).id.0@ == x || entity_name(front[k])
                    == x);
            assert(facts[k].id.0@ == x || entity_name(facts[k]) == x);
        }
        if is_of(facts, x) {
            let k = choose|k: int|
                0 <= k < facts.len() && ((#[trigger] facts[k]).id.0@ == x || entity_name(facts[k])
                    == x);
            if k < front.len() {
                assert(front[k].id.0@ == x || entity_name(front[k]) == x);
            }
        }
        if forall|k: int| 0 <= k < facts.len() ==> (#[trigger] facts[k]).id.0@ != x {
            assert forall|k: int| 0 <= k < front.len() implies (#[trigger] front[k]).id.0@ != x by {
                assert(facts[k].id.0@ != x);
            }
        }
        if forall|k: int| 0 <= k < facts.len() ==> entity_name(#[trigger] facts[k]) != x {
            assert forall|k: int| 0 <= k < front.len() implies entity_name(#[trigger] front[k])
                != x by {
                assert(entity_name(facts[k]) != x);
            }
            assert(entity_name(fact) != x);
        }
        if 0 <= i < front.len() && (forall|k: int|
            i < k < facts.len() ==> (#[trigger] facts[k]).id.0@ != x) {
            assert forall|k: int| i < k < front.len() implies (#[trigger] front[k]).id.0@
                != x by {
                assert(facts[k].id.0@ != x);
            }
            assert(facts[facts.len() - 1].id.0@ != x);
            if facts[i].id.0@ == x {
                assert(is_of(front, x)) by {
                    assert(front[i].id.0@ == x);
                }
            }
        }
    } else {
        assert(!graph.nodes.contains(x));
    }
}

proof fn lemma_edges(graph: Graph, facts: Seq<Fact>, k: int)
    requires
        forall|i: int|
            0 <= i < facts.len() ==> graph.nodes.contains((#[trigger] facts[i]).id.0@)
                && graph.nodes.contains(entity_name(facts[i])),
        graph.edges.len() == 0,
    ensures
        ({
            let all = crate::centrality::with_edges(graph, facts);
            &&& all.nodes == graph.nodes
            &&& all.weight == graph.weight
            &&& all.edges.len() == facts.len()
            &&& 0 <= k < facts.len() ==> all.edges[k] == (
                crate::centrality::node_at(graph.nodes, facts[k].id.0@),
                crate::centrality::node_at(graph.nodes, entity_name(facts[k])),
            )
        }),
    decreases facts.len(),
{
    if facts.len() > 0 {
        let front = facts.drop_last();
        let fact = facts.last();
        assert forall|i: int| 0 <= i < front.len() implies graph.nodes.contains(
            (#[trigger] front[i]).id.0@,
        ) && graph.nodes.contains(entity_name(front[i])) by {
            assert(front[i] == facts[i]);
        }
        lemma_edges(graph, front, k);
        reveal_strlit("entity:");
        assert(crate::centrality::entity_node(fact) =~= entity_name(fact));
        assert(facts[facts.len() - 1] == fact);
        lemma_present(graph.nodes, fact.id.0@);
        lemma_present(graph.nodes, entity_name(fact));
        if 0 <= k < front.len() {
            assert(front[k] == facts[k]);
        }
    }
}

/// The graph of some facts has a node for each fact and for each entity, and no other. Each
/// fact lends weight to its entity, and to nothing else. An entity weighs in full; a fact
/// weighs what it counts.
pub proof fn law_facts_lend_weight_to_their_entities(facts: Seq<Fact>, x: Seq<char>, k: int)
    ensures
        ({
            let graph = crate::centrality::fact_graph(facts);
            &&& has_node(graph, x) <==> is_of(facts, x)
            &&& graph.edges.len() == facts.len()
            &&& 0 <= k < facts.len() ==> {
                let (from, to) = graph.edges[k];
                &&& 0 <= from < graph.nodes.len() && 0 <= to < graph.nodes.len()
                &&& graph.nodes[from] == facts[k].id.0@
                &&& graph.nodes[to] == entity_name(facts[k])
            }
            &&& is_of(facts, x) && (forall|i: int|
                0 <= i < facts.len() ==> (#[trigger] facts[i]).id.0@ != x) ==> weight_of(
                graph,
                x,
            ).bits == 0x3ff0_0000_0000_0000
            &&& 0 <= k < facts.len() && facts[k].id.0@ == x && (forall|i: int|
                0 <= i < facts.len() ==> entity_name(#[trigger] facts[i]) != x) && (forall|i: int|
                k < i < facts.len() ==> (#[trigger] facts[i]).id.0@ != x) ==> weight_of(
                graph,
                x,
            ).bits == counts(facts[k])
        }),
{
    let nodes = crate::centrality::with_nodes(crate::centrality::no_graph(), facts);
    lemma_nodes(facts, x, k);
    assert forall|i: int| 0 <= i < facts.len() implies nodes.nodes.contains(
        (#[trigger] facts[i]).id.0@,
    ) && nodes.nodes.contains(entity_name(facts[i])) by {
        lemma_nodes(facts, facts[i].id.0@, i);
        lemma_nodes(facts, entity_name(facts[i]), i);
        assert(is_of(facts, facts[i].id.0@));
        assert(is_of(facts, entity_name(facts[i])));
    }
    lemma_edges(nodes, facts, k);
    if 0 <= k < facts.len() {
        assert(nodes.nodes.contains(facts[k].id.0@) && nodes.nodes.contains(
            entity_name(facts[k]),
        ));
        crate::centrality::lemma_node_found(nodes.nodes, facts[k].id.0@);
        crate::centrality::lemma_node_found(nodes.nodes, entity_name(facts[k]));
        lemma_present(nodes.nodes, facts[k].id.0@);
        lemma_present(nodes.nodes, entity_name(facts[k]));
    }
}

/// Setting the weight of a node that is there changes that weight alone; a new node comes
/// behind the others. A weight is kept between zero and one.
pub proof fn law_weights_are_set_one_by_one(
    graph: Graph,
    id: Seq<char>,
    weight: Real,
    x: Seq<char>,
)
    requires
        crate::centrality::is_sound(graph),
    ensures
        ({
            let next = crate::centrality::with_node(graph, id, weight);
            &&& has_node(next, x) <==> has_node(graph, x) || x == id
            &&& next.edges == graph.edges
            &&& x != id && has_node(graph, x) ==> weight_of(next, x) == weight_of(graph, x)
            &&& weight.bits <= 0x3ff0_0000_0000_0000 ==> weight_of(next, id) == weight
            &&& 0x3ff0_0000_0000_0000 < weight.bits <= 0x7ff0_0000_0000_0000 ==> weight_of(
                next,
                id,
            ).bits == 0x3ff0_0000_0000_0000
            &&& 0x8000_0000_0000_0000 < weight.bits <= 0xfff0_0000_0000_0000 ==> weight_of(
                next,
                id,
            ).bits == 0
        }),
{
    lemma_with_node(graph, id, weight, x);
    lemma_with_node(graph, id, weight, id);
}

/// An edge is added between two nodes that are there; where one is not, nothing is.
pub proof fn law_edges_join_nodes(graph: Graph, from: Seq<char>, to: Seq<char>)
    ensures
        ({
            let next = crate::centrality::with_edge(graph, from, to);
            &&& next.nodes == graph.nodes && next.weight == graph.weight
            &&& !has_node(graph, from) || !has_node(graph, to) ==> next.edges == graph.edges
            &&& has_node(graph, from) && has_node(graph, to) ==> {
                &&& next.edges.len() == graph.edges.len() + 1
                &&& next.edges.drop_last() == graph.edges
                &&& graph.nodes[next.edges.last().0] == from
                &&& graph.nodes[next.edges.last().1] == to
            }
        }),
{
    lemma_present(graph.nodes, from);
    lemma_present(graph.nodes, to);
    crate::centrality::lemma_node_found(graph.nodes, from);
    crate::centrality::lemma_node_found(graph.nodes, to);
    let next = crate::centrality::with_edge(graph, from, to);
    if has_node(graph, from) && has_node(graph, to) {
        assert(next.edges.drop_last() =~= graph.edges);
    }
}

// ---------------------------------------------------------------------------
// Numbers
// ---------------------------------------------------------------------------

/// Numbers compare as they lie on the line; what is no number compares with nothing. A
/// number that is kept within bounds is itself where it lies between them.
pub proof fn law_numbers_compare(a: Real, b: Real, low: Real, high: Real)
    requires
        super::judging::is_number(a),
        super::judging::is_number(b),
        super::judging::is_number(low),
        super::judging::is_number(high),
    ensures
        a.less(&b) <==> super::judging::on_the_line(a) < super::judging::on_the_line(b),
        a.equals(&b) <==> super::judging::on_the_line(a) == super::judging::on_the_line(b),
        super::judging::on_the_line(low) <= super::judging::on_the_line(a)
            <= super::judging::on_the_line(high) ==> a.clamped(low, high) == a,
        super::judging::on_the_line(a) < super::judging::on_the_line(low) ==> a.clamped(low, high)
            == low,
        super::judging::on_the_line(low) <= super::judging::on_the_line(high)
            < super::judging::on_the_line(a) ==> a.clamped(low, high) == high,
{
}

/// The numbers that the library starts from: a re-appearing element of a set is believed by
/// half, a new one by three fifths, a doubt leaves a tenth, and no check costs less than a
/// millionth. A fiftieth of the facts is audited where nothing else is configured, no more
/// than a hundred completions and twenty stale facts are shown.
pub proof fn law_starting_numbers()
    ensures
        crate::engine::ELEMENT_PRIOR == 0x3fe0_0000_0000_0000,
        crate::engine::NEW_ELEMENT_CONFIDENCE == 0x3fe3_3333_3333_3333,
        crate::cli::STRONG_DOUBT == 0x3fb9_9999_9999_999a,
        crate::scheduler::LEAST_COST == 0x3eb0_c6f7_a0b5_ed8d,
        crate::config::DEFAULT_EPSILON == 0x3f94_7ae1_47ae_147b,
        crate::write::INGEST_CONFIDENCE_CEILING == 0x3fe0_0000_0000_0000,
        crate::mcp::MOST_COMPLETIONS == 100,
        crate::mcp::report::MOST_STALE == 20,
{
}

} // verus!
