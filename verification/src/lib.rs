//! A data-flow execution graph for per-frame command generation.
//!
//! Producers ("nodes") declare the typed inputs they need, are wired into a
//! dependency graph with explicit ordering edges, and — at frame time — are
//! visited in dependency order to either record commands into a shared
//! recording target or decide which other named graphs should run next,
//! passing them typed parameters ("slots").

pub mod change_detection;
pub mod context;
pub mod drivers;
pub mod flatten;
pub mod graph;
pub mod labels;
pub mod node;
pub mod runner;
pub mod slot;
pub mod system_param;

use crate::graph::RenderGraphId;
use crate::slot::SlotRequirementError;
use vstd::prelude::*;

verus! {

/// The label for the graph that begins execution.
#[derive(Debug, Clone, PartialEq, Eq, Structural)]
pub struct MainRenderGraph;

impl MainRenderGraph {
    /// The name under which the entry-point graph is registered.
    pub fn name() -> (r: String)
        ensures
            r@ == "main"@,
    {
        "main".to_owned()
    }
}

/// An error raised while building or querying a graph or the registry.
#[derive(Debug, Clone, PartialEq, Eq)]
pub enum RenderGraphError {
    /// No graph is registered under this label.
    LabelError(String),
    /// No graph is registered under this identifier.
    IdError(RenderGraphId),
    /// The graph has no node with this label.
    NodeLabelError(String),
    /// The graph has no node with this identifier.
    NodeIdError(crate::node::NodeId),
    /// Adding a node to the named graph failed.
    NodeAddError { graph: String, node_error: NodeAddError },
    /// The ordering constraint is already recorded.
    EdgeAlreadyExists { graph: String, before: String, after: String },
    /// Recording this ordering constraint would close a dependency cycle,
    /// so no valid visiting order would remain.
    CircularDependency { graph: String, before: String, after: String },
}

/// An error raised by a queueing node's request to run another graph.
#[derive(Debug, Clone, PartialEq, Eq)]
pub enum QueueingError {
    /// No graph is registered under the requested label.
    LabelError(String),
    /// The provided slot values do not satisfy the target graph's
    /// requirement schema.
    SlotValueError { render_graph: String, value_error: crate::slot::SlotValueError },
}

/// An error raised while a recording node emits commands.
#[derive(Debug, Clone, PartialEq, Eq)]
pub enum RecordingError {
    /// The slot values handed to the invocation do not satisfy the graph's
    /// requirement schema.
    SlotValueError { render_graph: String, value_error: crate::slot::SlotValueError },
    /// Reading one slot out of the invocation's values failed.
    SlotError(crate::slot::SlotError),
}

/// An error raised while one node runs.
#[derive(Debug, Clone, PartialEq, Eq)]
pub enum NodeRunError {
    /// The node's queueing work failed.
    QueueingError(QueueingError),
    /// The node's recording work failed.
    RecordingError(RecordingError),
    /// Reading a slot failed.
    SlotError(crate::slot::SlotError),
}

/// An error raised while one node runs, carrying no further detail than the
/// slot read that failed.
#[derive(Debug, Clone, PartialEq, Eq)]
pub enum NodeError {
    /// Reading a slot failed.
    SlotError(crate::slot::SlotError),
}

/// An error that aborts a whole frame: flattening or running the graphs
/// stopped at the named place, and nothing was submitted.
#[derive(Debug, Clone, PartialEq, Eq)]
pub enum GraphRunError {
    /// A node failed; the error carries the graph and node labels for
    /// diagnostics.
    NodeRunError { graph: String, node: String, node_error: NodeRunError },
    /// The root invocation's inputs do not satisfy the entry graph's
    /// requirement schema.
    InvalidRootInputs { render_graph: String, value_error: crate::slot::SlotValueError },
    /// A chain of queued graph invocations ran deeper than the supported
    /// nesting depth.
    RecursionLimit { graph: String },
}

/// An error raised when a node is added to a graph.
#[derive(Debug, Clone, PartialEq, Eq)]
pub enum NodeAddError {
    /// The node declares a slot its host graph's input contract does not
    /// cover, or declares it at a different kind.
    SlotRequirementError(SlotRequirementError),
    /// The graph already has a node under this label.
    DuplicateNodeLabel(String),
}

} // verus!
