//! Tests for the queueing protocol, graph flattening, and the runner:
//! dynamic sub-graph invocation with per-invocation parameter sets, the
//! ordering of the flat list, and frame execution with fail-fast errors.

use render_graph::context::QueueContext;
use render_graph::flatten::{FlattenedGraph, NodeLocation};
use render_graph::graph::{RenderGraph, RenderGraphs};
use render_graph::node::{Node, QueueNode, RecordingNode};
use render_graph::runner::ParalellRenderGraphRunner;
use render_graph::drivers::{ClearPassDriverNode, MainPassDriverNode};
use render_graph::slot::{Entity, SlotRequirements, SlotType, SlotValue, SlotValues};
use render_graph::slot::SlotValueError;
use render_graph::{GraphRunError, NodeRunError, QueueingError, RecordingError};

fn entity(id: u64) -> SlotValue {
    SlotValue::Entity(Entity { id })
}

/// A queueing dispatcher driven by a fixed table: whenever any queueing
/// node is visited, it issues the listed requests in order.
struct TableQueue {
    requests: Vec<(String, SlotValues)>,
}

impl QueueNode for TableQueue {
    fn queue(
        &mut self,
        _node: &NodeLocation,
        _slot_values: &SlotValues,
        graphs: &RenderGraphs,
        queue_context: &mut QueueContext,
    ) -> Result<(), NodeRunError> {
        for (label, values) in self.requests.iter() {
            let mut copy = SlotValues::new();
            match values.get_entity("x") {
                Ok(e) => {
                    copy = copy.with("x".to_owned(), SlotValue::Entity(e));
                }
                Err(_) => {}
            }
            match queue_context.queue(graphs, label.as_str(), copy) {
                Ok(()) => {}
                Err(e) => return Err(NodeRunError::QueueingError(e)),
            }
        }
        Ok(())
    }
}

/// A recording dispatcher that logs every call with the entity found in
/// the invocation's `x` slot (or `u64::MAX` when absent), and fails on the
/// node label it was told to fail on.
struct LogRecorder {
    calls: Vec<(NodeLocation, u64)>,
    fail_on: Option<NodeLocation>,
}

impl LogRecorder {
    fn new() -> Self {
        LogRecorder { calls: Vec::new(), fail_on: None }
    }
}

impl RecordingNode for LogRecorder {
    fn record(
        &mut self,
        node: &NodeLocation,
        slot_values: &SlotValues,
    ) -> Result<(), NodeRunError> {
        if self.fail_on == Some(*node) {
            return Err(NodeRunError::RecordingError(RecordingError::SlotError(
                render_graph::slot::SlotError::SlotNameError("x".to_owned()),
            )));
        }
        let seen = match slot_values.get_entity("x") {
            Ok(e) => e.id,
            Err(_) => u64::MAX,
        };
        self.calls.push((*node, seen));
        Ok(())
    }
}

/// Graph A: one recording node `r1` requiring the slot `x: Entity`.
fn graph_a() -> RenderGraph {
    let mut a = RenderGraph::new(
        "A".to_owned(),
        SlotRequirements::new().with("x".to_owned(), SlotType::Entity),
    );
    a.add_recording_node(
        "r1".to_owned(),
        SlotRequirements::new().with("x".to_owned(), SlotType::Entity),
    )
    .unwrap();
    a
}

/// Graph B: one queueing node `q1` with no requirements.
fn graph_b() -> RenderGraph {
    let mut b = RenderGraph::new("B".to_owned(), SlotRequirements::new());
    b.add_queueing_node("q1".to_owned(), SlotRequirements::new()).unwrap();
    b
}

#[test]
fn queue_context_validates_each_request() {
    let mut graphs = RenderGraphs::new();
    graphs.insert(graph_a()).unwrap();
    let mut ctx = QueueContext::new();
    // unknown label
    assert_eq!(
        ctx.queue(&graphs, "missing", SlotValues::new()),
        Err(QueueingError::LabelError("missing".to_owned()))
    );
    // values failing the target's schema
    let wrong = ctx.queue(&graphs, "A", SlotValues::new());
    assert!(matches!(
        wrong,
        Err(QueueingError::SlotValueError { render_graph, .. }) if render_graph == "A"
    ));
    // a valid request is accepted, and earlier rejections left nothing behind
    ctx.queue(&graphs, "A", SlotValues::new().with("x".to_owned(), entity(7))).unwrap();
    assert_eq!(ctx.finish().len(), 1);
}

#[test]
fn queue_type_mismatch_names_expected_and_actual_kinds() {
    let mut graphs = RenderGraphs::new();
    let mut target = RenderGraph::new(
        "target".to_owned(),
        SlotRequirements::new().with("y".to_owned(), SlotType::Entity),
    );
    target
        .add_recording_node(
            "t".to_owned(),
            SlotRequirements::new().with("y".to_owned(), SlotType::Entity),
        )
        .unwrap();
    graphs.insert(target).unwrap();
    let mut ctx = QueueContext::new();
    let wrong_kind = ctx.queue(
        &graphs,
        "target",
        SlotValues::new().with(
            "y".to_owned(),
            SlotValue::TextureView(render_graph::slot::TextureViewId { id: 1 }),
        ),
    );
    assert_eq!(
        wrong_kind,
        Err(QueueingError::SlotValueError {
            render_graph: "target".to_owned(),
            value_error: SlotValueError::SlotProvidedTypeError {
                name: "y".to_owned(),
                actual: SlotType::Entity,
                provided: SlotType::TextureView,
            },
        })
    );
}

#[test]
fn flattening_inlines_the_queued_graph_at_the_queueing_node() {
    let mut graphs = RenderGraphs::new();
    let id_a = graphs.insert(graph_a()).unwrap();
    let id_b = graphs.insert(graph_b()).unwrap();
    let q1 = graphs.get("B").unwrap().get_node_id("q1").unwrap();
    let r1 = graphs.get("A").unwrap().get_node_id("r1").unwrap();
    let mut dispatcher = TableQueue {
        requests: vec![("A".to_owned(), SlotValues::new().with("x".to_owned(), entity(7)))],
    };
    let flat =
        FlattenedGraph::from(&graphs, &id_b, SlotValues::new(), &mut dispatcher).unwrap();
    assert_eq!(
        flat.nodes,
        vec![
            (NodeLocation { graph_id: id_b, node_id: q1 }, 0),
            (NodeLocation { graph_id: id_a, node_id: r1 }, 1),
        ]
    );
    assert_eq!(flat.slot_values_set.len(), 2);
    assert_eq!(flat.invoked_graphs, vec![id_b, id_a]);
    assert_eq!(flat.slot_values_set[1].get_entity("x"), Ok(Entity { id: 7 }));
}

#[test]
fn running_the_flat_list_records_exactly_once_with_the_queued_inputs() {
    let mut graphs = RenderGraphs::new();
    let id_a = graphs.insert(graph_a()).unwrap();
    graphs.insert(graph_b()).unwrap();
    let r1 = graphs.get("A").unwrap().get_node_id("r1").unwrap();
    let mut dispatcher = TableQueue {
        requests: vec![("A".to_owned(), SlotValues::new().with("x".to_owned(), entity(7)))],
    };
    let mut recorder = LogRecorder::new();
    let mut runner = ParalellRenderGraphRunner::new();
    runner.run(&graphs, "B", &mut dispatcher, &mut recorder).unwrap();
    assert_eq!(recorder.calls, vec![(NodeLocation { graph_id: id_a, node_id: r1 }, 7)]);
}

#[test]
fn queueing_the_same_graph_twice_produces_two_entries_each_with_own_inputs() {
    let mut graphs = RenderGraphs::new();
    let id_a = graphs.insert(graph_a()).unwrap();
    let id_b = graphs.insert(graph_b()).unwrap();
    let q1 = graphs.get("B").unwrap().get_node_id("q1").unwrap();
    let r1 = graphs.get("A").unwrap().get_node_id("r1").unwrap();
    let mut dispatcher = TableQueue {
        requests: vec![
            ("A".to_owned(), SlotValues::new().with("x".to_owned(), entity(1))),
            ("A".to_owned(), SlotValues::new().with("x".to_owned(), entity(2))),
        ],
    };
    let flat =
        FlattenedGraph::from(&graphs, &id_b, SlotValues::new(), &mut dispatcher).unwrap();
    assert_eq!(
        flat.nodes,
        vec![
            (NodeLocation { graph_id: id_b, node_id: q1 }, 0),
            (NodeLocation { graph_id: id_a, node_id: r1 }, 1),
            (NodeLocation { graph_id: id_a, node_id: r1 }, 2),
        ]
    );
    assert_eq!(flat.invoked_graphs, vec![id_b, id_a, id_a]);
    assert_eq!(flat.slot_values_set[1].get_entity("x"), Ok(Entity { id: 1 }));
    assert_eq!(flat.slot_values_set[2].get_entity("x"), Ok(Entity { id: 2 }));
    // and both invocations' recording nodes execute
    let mut dispatcher2 = TableQueue {
        requests: vec![
            ("A".to_owned(), SlotValues::new().with("x".to_owned(), entity(1))),
            ("A".to_owned(), SlotValues::new().with("x".to_owned(), entity(2))),
        ],
    };
    let mut recorder = LogRecorder::new();
    let mut runner = ParalellRenderGraphRunner::new();
    runner.run(&graphs, "B", &mut dispatcher2, &mut recorder).unwrap();
    assert_eq!(
        recorder.calls,
        vec![
            (NodeLocation { graph_id: id_a, node_id: r1 }, 1),
            (NodeLocation { graph_id: id_a, node_id: r1 }, 2),
        ]
    );
}

#[test]
fn flattening_twice_on_an_unchanged_graph_is_identical() {
    let mut graphs = RenderGraphs::new();
    graphs.insert(graph_a()).unwrap();
    let id_b = graphs.insert(graph_b()).unwrap();
    let request = || TableQueue {
        requests: vec![("A".to_owned(), SlotValues::new().with("x".to_owned(), entity(7)))],
    };
    let mut d1 = request();
    let first = FlattenedGraph::from(&graphs, &id_b, SlotValues::new(), &mut d1).unwrap();
    let mut d2 = request();
    let second = FlattenedGraph::from(&graphs, &id_b, SlotValues::new(), &mut d2).unwrap();
    assert_eq!(first.nodes, second.nodes);
}

#[test]
fn empty_nodes_appear_in_the_flat_list_but_are_not_recorded() {
    let mut graphs = RenderGraphs::new();
    let mut g = RenderGraph::new("main".to_owned(), SlotRequirements::new());
    g.add_empty_node("barrier".to_owned()).unwrap();
    g.add_recording_node("draw".to_owned(), SlotRequirements::new()).unwrap();
    g.add_edge("barrier", "draw").unwrap();
    let id = graphs.insert(g).unwrap();
    let draw = graphs.get("main").unwrap().get_node_id("draw").unwrap();
    let mut dispatcher = TableQueue { requests: Vec::new() };
    let flat =
        FlattenedGraph::from(&graphs, &id, SlotValues::new(), &mut dispatcher).unwrap();
    assert_eq!(flat.nodes.len(), 2);
    let mut recorder = LogRecorder::new();
    let mut runner = ParalellRenderGraphRunner::new();
    runner.run(&graphs, "main", &mut dispatcher, &mut recorder).unwrap();
    assert_eq!(recorder.calls, vec![(NodeLocation { graph_id: id, node_id: draw }, u64::MAX)]);
}

#[test]
fn a_failing_recording_node_aborts_the_frame_with_its_labels() {
    let mut graphs = RenderGraphs::new();
    let id_a = graphs.insert(graph_a()).unwrap();
    graphs.insert(graph_b()).unwrap();
    let r1 = graphs.get("A").unwrap().get_node_id("r1").unwrap();
    let mut dispatcher = TableQueue {
        requests: vec![("A".to_owned(), SlotValues::new().with("x".to_owned(), entity(7)))],
    };
    let mut recorder = LogRecorder::new();
    recorder.fail_on = Some(NodeLocation { graph_id: id_a, node_id: r1 });
    let mut runner = ParalellRenderGraphRunner::new();
    let outcome = runner.run(&graphs, "B", &mut dispatcher, &mut recorder);
    assert!(matches!(
        outcome,
        Err(GraphRunError::NodeRunError { graph, node, .. }) if graph == "A" && node == "r1"
    ));
    assert!(recorder.calls.is_empty());
}

#[test]
fn root_inputs_are_validated_against_the_entry_graph() {
    let mut graphs = RenderGraphs::new();
    let id_a = graphs.insert(graph_a()).unwrap();
    let mut dispatcher = TableQueue { requests: Vec::new() };
    // graph A requires x, the root invocation provides nothing
    let outcome = FlattenedGraph::from(&graphs, &id_a, SlotValues::new(), &mut dispatcher);
    assert!(matches!(
        outcome,
        Err(GraphRunError::InvalidRootInputs { render_graph, .. }) if render_graph == "A"
    ));
    // with the slot provided, the same graph flattens
    let provided = SlotValues::new().with("x".to_owned(), entity(3));
    let flat = FlattenedGraph::from(&graphs, &id_a, provided, &mut dispatcher).unwrap();
    assert_eq!(flat.nodes.len(), 1);
}

#[test]
fn a_graph_queueing_itself_hits_the_recursion_limit() {
    let mut graphs = RenderGraphs::new();
    let mut looping = RenderGraph::new("looping".to_owned(), SlotRequirements::new());
    looping.add_queueing_node("again".to_owned(), SlotRequirements::new()).unwrap();
    let id = graphs.insert(looping).unwrap();
    let mut dispatcher = TableQueue {
        requests: vec![("looping".to_owned(), SlotValues::new())],
    };
    let outcome = FlattenedGraph::from(&graphs, &id, SlotValues::new(), &mut dispatcher);
    assert!(matches!(
        outcome,
        Err(GraphRunError::RecursionLimit { graph }) if graph == "looping"
    ));
}

#[test]
fn per_frame_update_visits_every_node() {
    struct CountingUpdater {
        seen: Vec<NodeLocation>,
    }

    impl Node for CountingUpdater {
        fn update(&mut self, node: &NodeLocation) {
            self.seen.push(*node);
        }
    }

    let mut graphs = RenderGraphs::new();
    graphs.insert(graph_a()).unwrap();
    graphs.insert(graph_b()).unwrap();
    let mut updater = CountingUpdater { seen: Vec::new() };
    graphs.update(&mut updater);
    assert_eq!(updater.seen.len(), 2);
}

#[test]
fn main_pass_driver_queues_both_active_cameras() {
    let mut graphs = RenderGraphs::new();
    let draw_requirements =
        SlotRequirements::new().with("view_entity".to_owned(), SlotType::Entity);
    let mut draw_3d = RenderGraph::new("draw_3d_graph".to_owned(), draw_requirements);
    draw_3d
        .add_recording_node(
            "pass_3d".to_owned(),
            SlotRequirements::new().with("view_entity".to_owned(), SlotType::Entity),
        )
        .unwrap();
    let id_3d = graphs.insert(draw_3d).unwrap();
    let mut draw_2d = RenderGraph::new(
        "draw_2d_graph".to_owned(),
        SlotRequirements::new().with("view_entity".to_owned(), SlotType::Entity),
    );
    draw_2d
        .add_recording_node(
            "pass_2d".to_owned(),
            SlotRequirements::new().with("view_entity".to_owned(), SlotType::Entity),
        )
        .unwrap();
    let id_2d = graphs.insert(draw_2d).unwrap();
    let mut main = RenderGraph::new("main".to_owned(), SlotRequirements::new());
    main.add_queueing_node("main_pass_driver".to_owned(), SlotRequirements::new()).unwrap();
    let id_main = graphs.insert(main).unwrap();
    let mut driver = MainPassDriverNode {
        camera_3d: Some(Entity { id: 30 }),
        camera_2d: Some(Entity { id: 20 }),
    };
    let flat =
        FlattenedGraph::from(&graphs, &id_main, SlotValues::new(), &mut driver).unwrap();
    assert_eq!(flat.nodes.len(), 3);
    assert_eq!(flat.nodes[1].0.graph_id, id_3d);
    assert_eq!(flat.nodes[2].0.graph_id, id_2d);
    assert_eq!(
        flat.slot_values_set[1].get_entity("view_entity"),
        Ok(Entity { id: 30 })
    );
    assert_eq!(
        flat.slot_values_set[2].get_entity("view_entity"),
        Ok(Entity { id: 20 })
    );
}

#[test]
fn clear_pass_driver_queues_the_clear_graph() {
    let mut graphs = RenderGraphs::new();
    let mut clear = RenderGraph::new("clear_graph".to_owned(), SlotRequirements::new());
    clear.add_recording_node("clear".to_owned(), SlotRequirements::new()).unwrap();
    let id_clear = graphs.insert(clear).unwrap();
    let mut main = RenderGraph::new("main".to_owned(), SlotRequirements::new());
    main.add_queueing_node("clear_driver".to_owned(), SlotRequirements::new()).unwrap();
    let id_main = graphs.insert(main).unwrap();
    let mut driver = ClearPassDriverNode;
    let flat =
        FlattenedGraph::from(&graphs, &id_main, SlotValues::new(), &mut driver).unwrap();
    assert_eq!(flat.nodes.len(), 2);
    assert_eq!(flat.nodes[0].0.graph_id, id_main);
    assert_eq!(flat.nodes[1].0.graph_id, id_clear);
}
