//! Labels: a graph or node can be referred to either by its identifier or
//! by its name; a label resolves against the registry (or graph) to the
//! identifier. Two labels that resolve to the same identifier are
//! interchangeable everywhere an identifier is taken.

use crate::graph::{RenderGraph, RenderGraphId, RenderGraphs};
use crate::node::NodeId;
use crate::RenderGraphError;
use vstd::prelude::*;

verus! {

/// Refers to a registered graph by identifier or by name.
#[derive(Debug, Clone, PartialEq, Eq)]
pub enum RenderGraphLabel {
    Id(RenderGraphId),
    Name(String),
}

/// Refers to a node of one graph by identifier or by label.
#[derive(Debug, Clone, PartialEq, Eq)]
pub enum NodeLabel {
    Id(NodeId),
    Name(String),
}

impl RenderGraphs {
    /// Resolves a graph label to the identifier of the graph it names.
    pub fn resolve(&self, label: &RenderGraphLabel) -> (r: Result<
        RenderGraphId,
        RenderGraphError,
    >)
        ensures
            match label {
                RenderGraphLabel::Id(id) => match r {
                    Ok(resolved) => self.spec_contains_id(*id) && resolved == id,
                    Err(e) => !self.spec_contains_id(*id) && (e
                        matches RenderGraphError::IdError(i) && i == id),
                },
                RenderGraphLabel::Name(n) => match r {
                    Ok(resolved) => self.contains_graph_label(n@) && resolved == RenderGraphId(
                        self.graph_label_index(n@) as usize,
                    ),
                    Err(e) => !self.contains_graph_label(n@) && (e
                        matches RenderGraphError::LabelError(l) && l@ == n@),
                },
            },
    {
        match label {
            RenderGraphLabel::Id(id) => {
                match self.get_by_id(id) {
                    Ok(_) => Ok(*id),
                    Err(e) => Err(e),
                }
            }
            RenderGraphLabel::Name(n) => self.get_id(n.as_str()),
        }
    }
}

impl RenderGraph {
    /// Resolves a node label to the identifier of the node it names.
    pub fn resolve_node(&self, label: &NodeLabel) -> (r: Result<NodeId, RenderGraphError>)
        ensures
            match label {
                NodeLabel::Id(id) => match r {
                    Ok(resolved) => (id.0 as int) < self.num_nodes() && resolved == id,
                    Err(e) => self.num_nodes() <= id.0 as int && (e
                        matches RenderGraphError::NodeIdError(i) && i == id),
                },
                NodeLabel::Name(n) => match r {
                    Ok(resolved) => self.contains_node_label(n@) && resolved == NodeId(
                        self.node_label_index(n@) as usize,
                    ),
                    Err(e) => !self.contains_node_label(n@) && (e
                        matches RenderGraphError::NodeLabelError(l) && l@ == n@),
                },
            },
    {
        match label {
            NodeLabel::Id(id) => {
                if id.0 < self.sorted_order().len() {
                    Ok(*id)
                } else {
                    Err(RenderGraphError::NodeIdError(*id))
                }
            }
            NodeLabel::Name(n) => self.get_node_id(n.as_str()),
        }
    }
}

} // verus!
