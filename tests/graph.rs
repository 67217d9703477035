use ygramul::graph::{MemoryGraph, Prop};
use ygramul::number::Decimal;
use ygramul::upload::{EntityKind, GraphMutation};

fn edge(weight: u64) -> GraphMutation {
    GraphMutation::EntityEdge {
        entity: EntityKind::Gene,
        entity_id: "G1".to_string(),
        factor_id: "k_3".to_string(),
        weight: Decimal { negative: false, mantissa: weight, exponent: -1 },
    }
}

fn node() -> GraphMutation {
    GraphMutation::FactorNode { id: "k_3".to_string(), name: "immune".to_string() }
}

#[test]
fn submitting_twice_matches_submitting_once() {
    let mut once = MemoryGraph::new();
    once.submit(&edge(5));
    once.submit(&node());
    let mut twice = MemoryGraph::new();
    for _ in 0..2 {
        twice.submit(&edge(5));
        twice.submit(&node());
    }
    assert_eq!(once.node_count(), 2);
    assert_eq!(twice.node_count(), 2);
    assert_eq!(once.edge_count(), 1);
    assert_eq!(twice.edge_count(), 1);
    let factor = ("Factor".to_string(), "k_3".to_string());
    let name = "name".to_string();
    let a = once.node_property(&factor.0, &factor.1, &name);
    let b = twice.node_property(&factor.0, &factor.1, &name);
    assert_eq!(a, b);
    assert_eq!(a, Some(Prop::Text("immune".to_string())));
    let gene = ("Gene".to_string(), "G1".to_string());
    let rel = "IMPACTS".to_string();
    let weight = "weight".to_string();
    assert_eq!(
        once.edge_property(&gene, &rel, &factor, &weight),
        twice.edge_property(&gene, &rel, &factor, &weight)
    );
}

#[test]
fn a_new_weight_replaces_the_old_one() {
    let mut g = MemoryGraph::new();
    g.submit(&edge(5));
    g.submit(&edge(7));
    assert_eq!(g.edge_count(), 1);
    assert_eq!(g.node_count(), 2);
    let gene = ("Gene".to_string(), "G1".to_string());
    let factor = ("Factor".to_string(), "k_3".to_string());
    let w = g.edge_property(&gene, &"IMPACTS".to_string(), &factor, &"weight".to_string());
    assert_eq!(w, Some(Prop::Num(Decimal { negative: false, mantissa: 7, exponent: -1 })));
    assert_eq!(g.node_property(&gene.0, &gene.1, &"name".to_string()), None);
}

#[test]
fn empty_store_has_nothing() {
    let g = MemoryGraph::new();
    assert_eq!(g.node_count(), 0);
    assert_eq!(g.edge_count(), 0);
}
