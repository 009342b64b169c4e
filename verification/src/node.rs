//! Nodes: the unit of per-frame work. A node either records commands, queues
//! other graphs for execution, or does nothing and only serves as an
//! ordering point.

use crate::context::QueueContext;
use crate::flatten::NodeLocation;
use crate::graph::RenderGraphs;
use crate::slot::{SlotRequirements, SlotValues};
use crate::NodeRunError;
use vstd::prelude::*;

verus! {

/// Per-frame node upkeep, implemented by the application: `update` is
/// called once per frame for every node of every graph, before any node
/// runs, and may refresh only the implementor's own state for that node.
pub trait Node {
    fn update(&mut self, node: &NodeLocation);
}

/// The user-supplied queueing logic behind every queueing node: given the
/// node being visited and the slot values of its enclosing invocation, it
/// may request — through the context, which validates each request at once
/// — that other graphs run next.
pub trait QueueNode {
    fn queue(
        &mut self,
        node: &NodeLocation,
        slot_values: &SlotValues,
        graphs: &RenderGraphs,
        queue_context: &mut QueueContext,
    ) -> Result<(), NodeRunError>;
}

/// The user-supplied recording logic behind every recording node: given
/// the node being visited and the slot values of the specific invocation
/// that caused it to run, it emits commands into the recording target it
/// owns.
pub trait RecordingNode {
    fn record(&mut self, node: &NodeLocation, slot_values: &SlotValues) -> Result<
        (),
        NodeRunError,
    >;
}

/// A node identifier, unique within its graph and stable for the node's
/// lifetime. Nodes are numbered in creation order, and ordering ties in the
/// topological sort are broken by this number.
#[derive(Debug, Clone, Copy, PartialEq, Eq, Hash, PartialOrd, Ord, Structural)]
pub struct NodeId(pub usize);

/// What kind of work a node performs when the graph runs.
#[derive(Debug, Clone, Copy, PartialEq, Eq, Structural)]
pub enum NodeKind {
    /// Decides which other graphs should run next.
    Queue,
    /// Records commands into the shared recording target.
    Record,
    /// Performs no work; only occupies a position in the order.
    Empty,
}

/// One node of a graph: its identifier, its label, its kind, and the slot
/// requirements it declares.
#[derive(Debug)]
pub struct NodeState {
    pub id: NodeId,
    pub label: String,
    pub kind: NodeKind,
    pub requirements: SlotRequirements,
}

impl NodeState {
    /// The node's identifier within its graph.
    pub fn get_id(&self) -> (id: &NodeId)
        ensures
            id == self.id,
    {
        &self.id
    }

    /// The node's label.
    pub fn get_label(&self) -> (label: &String)
        ensures
            label == self.label,
    {
        &self.label
    }

    /// What kind of work this node performs.
    pub fn get_function(&self) -> (kind: NodeKind)
        ensures
            kind == self.kind,
    {
        self.kind
    }

    /// The slot requirements this node declares.
    pub fn requirements(&self) -> (r: &SlotRequirements)
        ensures
            r == self.requirements,
    {
        &self.requirements
    }

    /// A node that will record commands, declaring `requirements`.
    ///
    /// The identifier is assigned when the node is added to a graph.
    pub fn from_recording(label: String, requirements: SlotRequirements) -> (r: Self)
        ensures
            r.label == label,
            r.kind == NodeKind::Record,
            r.requirements == requirements,
    {
        NodeState { id: NodeId(0), label, kind: NodeKind::Record, requirements }
    }

    /// A node that will queue other graphs, declaring `requirements`.
    pub fn from_queue(label: String, requirements: SlotRequirements) -> (r: Self)
        ensures
            r.label == label,
            r.kind == NodeKind::Queue,
            r.requirements == requirements,
    {
        NodeState { id: NodeId(0), label, kind: NodeKind::Queue, requirements }
    }

    /// A node that does nothing and declares no requirements.
    pub fn from_empty(label: String) -> (r: Self)
        ensures
            r.label == label,
            r.kind == NodeKind::Empty,
            r.requirements.num_entries() == 0,
    {
        NodeState { id: NodeId(0), label, kind: NodeKind::Empty, requirements: SlotRequirements::new() }
    }
}

} // verus!
