//! Tests for graph construction: node and edge insertion, the cached
//! topological order with its deterministic tie-break, cycle rejection,
//! and the registry.

use render_graph::graph::{RenderGraph, RenderGraphId, RenderGraphs};
use render_graph::slot::SlotRequirementError;
use render_graph::node::{NodeId, NodeKind};
use render_graph::slot::{SlotRequirements, SlotType};
use render_graph::labels::{NodeLabel, RenderGraphLabel};
use render_graph::{NodeAddError, RenderGraphError};

fn plain_graph(label: &str) -> RenderGraph {
    RenderGraph::new(label.to_owned(), SlotRequirements::new())
}

fn position(order: &[NodeId], id: NodeId) -> usize {
    let mut k = 0;
    while k < order.len() {
        if order[k] == id {
            return k;
        }
        k += 1;
    }
    panic!("node missing from topological order");
}

#[test]
fn add_node_then_acyclic_edges_succeed_and_order_is_topological() {
    let mut graph = plain_graph("g");
    let a = graph.add_empty_node("a".to_owned()).unwrap();
    let b = graph.add_recording_node("b".to_owned(), SlotRequirements::new()).unwrap();
    let c = graph.add_empty_node("c".to_owned()).unwrap();
    graph.add_edge("a", "b").unwrap();
    graph.add_edge("b", "c").unwrap();
    let order = graph.sorted_order().clone();
    // every node exactly once
    assert_eq!(order.len(), 3);
    let pa = position(&order, a);
    let pb = position(&order, b);
    let pc = position(&order, c);
    // consistent with all edges: before stands earlier than after
    assert!(pa < pb);
    assert!(pb < pc);
}

#[test]
fn tie_break_follows_creation_order() {
    let mut graph = plain_graph("g");
    let a = graph.add_empty_node("a".to_owned()).unwrap();
    let b = graph.add_empty_node("b".to_owned()).unwrap();
    let c = graph.add_empty_node("c".to_owned()).unwrap();
    assert_eq!(graph.sorted_order().clone(), vec![a, b, c]);
    // c must come before a; b stays first by creation order among the ready
    graph.add_edge("c", "a").unwrap();
    assert_eq!(graph.sorted_order().clone(), vec![b, c, a]);
}

#[test]
fn cycle_is_rejected_and_order_unchanged() {
    let mut graph = plain_graph("g");
    graph.add_empty_node("n1".to_owned()).unwrap();
    graph.add_empty_node("n2".to_owned()).unwrap();
    graph.add_edge("n1", "n2").unwrap();
    let order_before = graph.sorted_order().clone();
    let second = graph.add_edge("n2", "n1");
    assert_eq!(
        second,
        Err(RenderGraphError::CircularDependency {
            graph: "g".to_owned(),
            before: "n2".to_owned(),
            after: "n1".to_owned(),
        })
    );
    assert_eq!(graph.sorted_order().clone(), order_before);
}

#[test]
fn self_edge_is_a_cycle() {
    let mut graph = plain_graph("g");
    graph.add_empty_node("a".to_owned()).unwrap();
    let result = graph.add_edge("a", "a");
    assert!(matches!(result, Err(RenderGraphError::CircularDependency { .. })));
}

#[test]
fn duplicate_edge_is_rejected_and_order_unchanged() {
    let mut graph = plain_graph("g");
    graph.add_empty_node("a".to_owned()).unwrap();
    graph.add_empty_node("b".to_owned()).unwrap();
    graph.add_edge("a", "b").unwrap();
    let order_before = graph.sorted_order().clone();
    assert_eq!(
        graph.add_edge("a", "b"),
        Err(RenderGraphError::EdgeAlreadyExists {
            graph: "g".to_owned(),
            before: "a".to_owned(),
            after: "b".to_owned(),
        })
    );
    assert_eq!(graph.sorted_order().clone(), order_before);
}

#[test]
fn edge_with_unknown_label_is_rejected() {
    let mut graph = plain_graph("g");
    graph.add_empty_node("a".to_owned()).unwrap();
    assert_eq!(
        graph.add_edge("a", "ghost"),
        Err(RenderGraphError::NodeLabelError("ghost".to_owned()))
    );
    assert_eq!(
        graph.add_edge("ghost", "a"),
        Err(RenderGraphError::NodeLabelError("ghost".to_owned()))
    );
}

#[test]
fn remove_edge_drops_the_constraint() {
    let mut graph = plain_graph("g");
    graph.add_empty_node("a".to_owned()).unwrap();
    graph.add_empty_node("b".to_owned()).unwrap();
    graph.add_edge("a", "b").unwrap();
    graph.remove_edge("a", "b").unwrap();
    // the same edge can be recorded again after removal
    graph.add_edge("a", "b").unwrap();
    // removing an edge that is not recorded does nothing
    graph.remove_edge("b", "a").unwrap();
}

#[test]
fn duplicate_node_label_is_rejected() {
    let mut graph = plain_graph("g");
    graph.add_empty_node("a".to_owned()).unwrap();
    assert_eq!(
        graph.add_empty_node("a".to_owned()),
        Err(NodeAddError::DuplicateNodeLabel("a".to_owned()))
    );
}

#[test]
fn node_requirements_outside_graph_contract_are_rejected() {
    let mut graph = RenderGraph::new(
        "g".to_owned(),
        SlotRequirements::new().with("x".to_owned(), SlotType::Entity),
    );
    // compatible: same name, same kind
    graph
        .add_recording_node(
            "ok".to_owned(),
            SlotRequirements::new().with("x".to_owned(), SlotType::Entity),
        )
        .unwrap();
    // unknown requirement name
    let unknown = graph.add_recording_node(
        "r1".to_owned(),
        SlotRequirements::new().with("y".to_owned(), SlotType::Entity),
    );
    assert_eq!(
        unknown,
        Err(NodeAddError::SlotRequirementError(
            SlotRequirementError::SlotRequirementDoesntExist { name: "y".to_owned() }
        ))
    );
    // known name at the wrong kind
    let conflict = graph.add_recording_node(
        "r2".to_owned(),
        SlotRequirements::new().with("x".to_owned(), SlotType::Buffer),
    );
    assert_eq!(
        conflict,
        Err(NodeAddError::SlotRequirementError(
            SlotRequirementError::SlotRequirementTypeError {
                name: "x".to_owned(),
                actual: SlotType::Entity,
                provided: SlotType::Buffer,
            }
        ))
    );
}

#[test]
fn node_lookup_and_kinds() {
    let mut graph = plain_graph("g");
    let a = graph.add_recording_node("a".to_owned(), SlotRequirements::new()).unwrap();
    let b = graph.add_queueing_node("b".to_owned(), SlotRequirements::new()).unwrap();
    let c = graph.add_empty_node("c".to_owned()).unwrap();
    assert_eq!(graph.get_node_id("a"), Ok(a));
    assert_eq!(graph.get_node_id("b"), Ok(b));
    assert_eq!(graph.get_node_id("missing"), Err(RenderGraphError::NodeLabelError("missing".to_owned())));
    assert_eq!(graph.get_node(&a).get_function(), NodeKind::Record);
    assert_eq!(graph.get_node(&b).get_function(), NodeKind::Queue);
    assert_eq!(graph.get_node(&c).get_function(), NodeKind::Empty);
    assert_eq!(graph.get_node(&a).get_label(), "a");
    assert_eq!(*graph.get_node(&a).get_id(), a);
}

#[test]
fn registry_insert_and_lookup() {
    let mut graphs = RenderGraphs::new();
    let id_a = graphs.insert(plain_graph("a")).unwrap();
    let id_b = graphs.insert(plain_graph("b")).unwrap();
    assert_eq!(graphs.len(), 2);
    assert_eq!(graphs.get_id("a"), Ok(id_a));
    assert_eq!(graphs.get_id("b"), Ok(id_b));
    assert_eq!(graphs.get("a").unwrap().get_id(), id_a);
    assert_eq!(graphs.get_by_id(&id_b).unwrap().get_label(), "b");
    assert_eq!(
        graphs.get_id("missing"),
        Err(RenderGraphError::LabelError("missing".to_owned()))
    );
}

#[test]
fn registry_rejects_duplicate_labels() {
    let mut graphs = RenderGraphs::new();
    graphs.insert(plain_graph("a")).unwrap();
    assert_eq!(
        graphs.insert(plain_graph("a")),
        Err(RenderGraphError::LabelError("a".to_owned()))
    );
}

#[test]
fn registry_unknown_id_is_id_error() {
    let graphs = RenderGraphs::new();
    let missing = RenderGraphId(7);
    assert!(matches!(
        graphs.get_by_id(&missing),
        Err(RenderGraphError::IdError(i)) if i == missing
    ));
}

#[test]
fn labels_resolve_by_id_and_by_name_interchangeably() {
    let mut graphs = RenderGraphs::new();
    let mut g = plain_graph("g");
    let n = g.add_empty_node("n".to_owned()).unwrap();
    let id = graphs.insert(g).unwrap();
    // the two graph labels resolve to the same identifier
    assert_eq!(graphs.resolve(&RenderGraphLabel::Name("g".to_owned())), Ok(id));
    assert_eq!(graphs.resolve(&RenderGraphLabel::Id(id)), Ok(id));
    // and so do the two node labels
    let graph = graphs.get_by_id(&id).unwrap();
    assert_eq!(graph.resolve_node(&NodeLabel::Name("n".to_owned())), Ok(n));
    assert_eq!(graph.resolve_node(&NodeLabel::Id(n)), Ok(n));
    // unresolved labels report the kind of reference that failed
    assert_eq!(
        graphs.resolve(&RenderGraphLabel::Name("ghost".to_owned())),
        Err(RenderGraphError::LabelError("ghost".to_owned()))
    );
    assert!(matches!(
        graph.resolve_node(&NodeLabel::Name("ghost".to_owned())),
        Err(RenderGraphError::NodeLabelError(l)) if l == "ghost"
    ));
    // an out-of-range identifier reports exactly the identifier that failed
    assert_eq!(
        graph.resolve_node(&NodeLabel::Id(NodeId(99))),
        Err(RenderGraphError::NodeIdError(NodeId(99)))
    );
}

#[test]
fn registry_level_mutation_builds_a_graph_in_place() {
    let mut graphs = RenderGraphs::new();
    graphs.insert(plain_graph("g")).unwrap();
    let a = graphs.add_empty_node("g", "a".to_owned()).unwrap();
    let b = graphs.add_recording_node("g", "b".to_owned(), SlotRequirements::new()).unwrap();
    let c = graphs.add_queueing_node("g", "c".to_owned(), SlotRequirements::new()).unwrap();
    graphs.add_edge("g", "a", "b").unwrap();
    {
        let g = graphs.get("g").unwrap();
        assert_eq!(g.sorted_order().clone(), vec![a, b, c]);
        assert_eq!(g.get_node(&b).get_function(), NodeKind::Record);
        assert_eq!(g.get_node(&c).get_function(), NodeKind::Queue);
    }
    // node-add failures are wrapped with the graph's label
    assert_eq!(
        graphs.add_empty_node("g", "a".to_owned()),
        Err(RenderGraphError::NodeAddError {
            graph: "g".to_owned(),
            node_error: NodeAddError::DuplicateNodeLabel("a".to_owned()),
        })
    );
    // an unknown graph label fails before anything is touched
    assert_eq!(
        graphs.add_edge("missing", "a", "b"),
        Err(RenderGraphError::LabelError("missing".to_owned()))
    );
    // cycle rejection carries through the registry unchanged
    assert!(matches!(
        graphs.add_edge("g", "b", "a"),
        Err(RenderGraphError::CircularDependency { .. })
    ));
    // removing the constraint frees the reverse direction; with b before
    // a, the creation-order tie-break yields b, then a, then c
    graphs.remove_edge("g", "a", "b").unwrap();
    graphs.add_edge("g", "b", "a").unwrap();
    let g = graphs.get("g").unwrap();
    assert_eq!(g.sorted_order().clone(), vec![b, a, c]);
}

#[test]
fn predecessors_and_successors_are_listed() {
    let mut graph = plain_graph("g");
    let a = graph.add_empty_node("a".to_owned()).unwrap();
    let b = graph.add_empty_node("b".to_owned()).unwrap();
    let c = graph.add_empty_node("c".to_owned()).unwrap();
    graph.add_edge("a", "c").unwrap();
    graph.add_edge("b", "c").unwrap();
    assert_eq!(graph.before(&c), vec![a, b]);
    assert_eq!(graph.after(&a), vec![c]);
    assert!(graph.before(&a).is_empty());
    assert!(graph.after(&c).is_empty());
}

#[test]
fn remove_edge_recomputes_the_canonical_order() {
    let mut graph = plain_graph("g");
    let a = graph.add_empty_node("a".to_owned()).unwrap();
    let b = graph.add_empty_node("b".to_owned()).unwrap();
    // with b before a, the cached order must defer a
    graph.add_edge("b", "a").unwrap();
    assert_eq!(graph.sorted_order().clone(), vec![b, a]);
    // dropping the constraint restores the creation order
    graph.remove_edge("b", "a").unwrap();
    assert_eq!(graph.sorted_order().clone(), vec![a, b]);
}
