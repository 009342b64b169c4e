//! Driver nodes: the queueing logic that hands the standard pass graphs
//! their work each frame.

use crate::context::QueueContext;
use crate::flatten::NodeLocation;
use crate::graph::RenderGraphs;
use crate::node::QueueNode;
use crate::slot::{Entity, SlotValue, SlotValues};
use crate::NodeRunError;
use vstd::prelude::*;

verus! {

/// Drives the clear pass: each time its node is visited it queues the
/// graph registered under the clear-graph label, with no inputs.
#[derive(Debug, Clone, Copy, PartialEq, Eq, Structural)]
pub struct ClearPassDriverNode;

impl ClearPassDriverNode {
    /// The label of the graph this driver queues.
    pub fn clear_graph_name() -> (r: String)
        ensures
            r@ == "clear_graph"@,
    {
        "clear_graph".to_owned()
    }
}

impl QueueNode for ClearPassDriverNode {
    fn queue(
        &mut self,
        node: &NodeLocation,
        slot_values: &SlotValues,
        graphs: &RenderGraphs,
        queue_context: &mut QueueContext,
    ) -> Result<(), NodeRunError> {
        match queue_context.queue(graphs, "clear_graph", SlotValues::new()) {
            Ok(u) => Ok(u),
            Err(e) => Err(NodeRunError::QueueingError(e)),
        }
    }
}

/// Drives the main passes: queues the 3d draw graph for the active 3d
/// camera and then the 2d draw graph for the active 2d camera, handing
/// each graph its camera's view entity. Which cameras are active is
/// application state, refreshed from outside before the frame runs; a
/// missing camera simply queues nothing.
#[derive(Debug, Clone, Copy, PartialEq, Eq, Structural)]
pub struct MainPassDriverNode {
    /// The active 3d camera's view entity, if any.
    pub camera_3d: Option<Entity>,
    /// The active 2d camera's view entity, if any.
    pub camera_2d: Option<Entity>,
}

impl MainPassDriverNode {
    /// The label of the 3d draw graph.
    pub fn draw_3d_graph_name() -> (r: String)
        ensures
            r@ == "draw_3d_graph"@,
    {
        "draw_3d_graph".to_owned()
    }

    /// The label of the 2d draw graph.
    pub fn draw_2d_graph_name() -> (r: String)
        ensures
            r@ == "draw_2d_graph"@,
    {
        "draw_2d_graph".to_owned()
    }

    /// The slot name under which a draw graph receives its camera.
    pub fn view_entity_slot_name() -> (r: String)
        ensures
            r@ == "view_entity"@,
    {
        "view_entity".to_owned()
    }
}

impl QueueNode for MainPassDriverNode {
    fn queue(
        &mut self,
        node: &NodeLocation,
        slot_values: &SlotValues,
        graphs: &RenderGraphs,
        queue_context: &mut QueueContext,
    ) -> Result<(), NodeRunError> {
        if let Some(camera_3d) = self.camera_3d {
            let inputs = SlotValues::new().with(
                MainPassDriverNode::view_entity_slot_name(),
                SlotValue::Entity(camera_3d),
            );
            match queue_context.queue(graphs, "draw_3d_graph", inputs) {
                Ok(u) => u,
                Err(e) => {
                    return Err(NodeRunError::QueueingError(e));
                }
            }
        }
        if let Some(camera_2d) = self.camera_2d {
            let inputs = SlotValues::new().with(
                MainPassDriverNode::view_entity_slot_name(),
                SlotValue::Entity(camera_2d),
            );
            match queue_context.queue(graphs, "draw_2d_graph", inputs) {
                Ok(u) => u,
                Err(e) => {
                    return Err(NodeRunError::QueueingError(e));
                }
            }
        }
        Ok(())
    }
}

} // verus!
