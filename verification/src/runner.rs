//! The graph runner: once per frame it flattens the main graph, walks the
//! flat list in order, and dispatches every recording node with the inputs
//! of its own invocation into the shared recording target. The first node
//! error aborts the frame; nothing partial is kept as the frame's result.

use crate::flatten::{
    entry_wf, error_names_graph, error_names_node_of_kind, graph_has_no_queueing,
    graph_has_no_recording, scope_entries, FlattenedGraph, NodeLocation,
};
use crate::graph::{RenderGraphId, RenderGraphs};
use crate::node::{NodeKind, QueueNode, RecordingNode};
use crate::slot::SlotValues;
use crate::GraphRunError;
use vstd::prelude::*;

verus! {

/// Drives one frame: flattening, then a single serial recording pass over
/// the flat list. After a successful frame it keeps the flat list and its
/// slot values for inspection until the next frame replaces them.
#[derive(Debug)]
pub struct ParalellRenderGraphRunner {
    /// The last frame's flat node list.
    pub flattened_nodes: Vec<(NodeLocation, usize)>,
    /// The last frame's slot-value sets, one per graph invocation.
    pub slot_values: Vec<SlotValues>,
}

impl ParalellRenderGraphRunner {
    /// A runner that has not run a frame yet.
    pub fn new() -> (r: Self)
        ensures
            r.flattened_nodes@.len() == 0,
            r.slot_values@.len() == 0,
    {
        ParalellRenderGraphRunner { flattened_nodes: Vec::new(), slot_values: Vec::new() }
    }

    /// Runs one frame.
    ///
    /// The graph registered under `main_graph_label` is flattened with
    /// empty root inputs; the flat list is then walked in order and every
    /// recording node is dispatched with the slot values of the specific
    /// invocation that caused its graph to be entered. Queueing and empty
    /// entries are skipped — their work was already folded into the flat
    /// list. The first failing node aborts the frame, and the error names
    /// the graph and node it came from.
    #[verifier::loop_isolation(false)]
    pub fn run<Q: QueueNode, R: RecordingNode>(
        &mut self,
        graphs: &RenderGraphs,
        main_graph_label: &str,
        queue_dispatch: &mut Q,
        record_dispatch: &mut R,
    ) -> (r: Result<(), GraphRunError>)
        requires
            graphs.contains_graph_label(main_graph_label@),
        ensures
            r is Ok ==> ({
                &&& final(self).slot_values@.len() >= 1
                &&& final(self).slot_values@[0].num_entries() == 0
                &&& forall|k: int|
                    0 <= k < final(self).flattened_nodes@.len() ==> entry_wf(
                        *graphs,
                        #[trigger] final(self).flattened_nodes@[k],
                        final(self).slot_values@,
                    )
            }),
            r is Err ==> *final(self) == *old(self),
            (match r {
                Err(e) => e is InvalidRootInputs,
                Ok(u) => false,
            }) <==> !graphs.spec_graph(
                graphs.graph_label_index(main_graph_label@),
            ).spec_requirements().spec_all_defaulted(),
            ({
                let main_idx = graphs.graph_label_index(main_graph_label@);
                &&& graphs.spec_graph(main_idx).spec_requirements().spec_all_defaulted()
                &&& graph_has_no_queueing(*graphs, RenderGraphId(main_idx as usize))
                &&& graph_has_no_recording(*graphs, RenderGraphId(main_idx as usize))
            }) ==> r is Ok,
            r matches Err(e) ==> match e {
                GraphRunError::NodeRunError { graph, node, node_error } => error_names_node_of_kind(
                    *graphs,
                    graph@,
                    node@,
                    NodeKind::Queue,
                ) || error_names_node_of_kind(*graphs, graph@, node@, NodeKind::Record),
                GraphRunError::RecursionLimit { graph } => error_names_graph(*graphs, graph@),
                GraphRunError::InvalidRootInputs { render_graph, value_error } => true,
            },
    {
        let main_graph_id = match graphs.get_id(main_graph_label) {
            Ok(id) => id,
            Err(_) => {
                proof {
                    assert(false);
                }
                return Err(GraphRunError::RecursionLimit { graph: String::new() });
            }
        };
        let root_inputs = SlotValues::new();
        let ghost root_inputs_spec = root_inputs;
        proof {
            crate::slot::lemma_empty_store_satisfaction(
                graphs.spec_graph(main_graph_id.0 as int).spec_requirements(),
                root_inputs_spec,
            );
        }
        let flat = match FlattenedGraph::from(
            graphs,
            &main_graph_id,
            root_inputs,
            queue_dispatch,
        ) {
            Ok(flat) => flat,
            Err(e) => {
                return Err(e);
            }
        };
        let FlattenedGraph { nodes, slot_values_set, invoked_graphs: _ } = flat;
        let count = nodes.len();
        let mut k: usize = 0;
        while k < count
            invariant
                count == nodes@.len(),
                k <= count,
                slot_values_set@.len() >= 1,
                slot_values_set@[0] == root_inputs_spec,
                root_inputs_spec.num_entries() == 0,
                forall|i: int|
                    0 <= i < nodes@.len() ==> entry_wf(
                        *graphs,
                        #[trigger] nodes@[i],
                        slot_values_set@,
                    ),
            decreases count - k,
        {
            let (loc, value_index) = nodes[k];
            proof {
                assert(entry_wf(*graphs, nodes@[k as int], slot_values_set@));
            }
            let node = match graphs.get_node(&loc.graph_id, &loc.node_id) {
                Ok(node) => node,
                Err(_) => {
                    proof {
                        assert(entry_wf(*graphs, nodes@[k as int], slot_values_set@));
                        assert(false);
                    }
                    return Err(GraphRunError::RecursionLimit { graph: String::new() });
                }
            };
            match node.kind {
                NodeKind::Queue | NodeKind::Empty => {
                    // Already folded into the flat list during flattening.
                }
                NodeKind::Record => {
                    proof {
                        let main_idx = graphs.graph_label_index(main_graph_label@);
                        if graphs.spec_graph(main_idx).spec_requirements().spec_all_defaulted()
                            && graph_has_no_queueing(*graphs, RenderGraphId(main_idx as usize))
                            && graph_has_no_recording(*graphs, RenderGraphId(main_idx as usize)) {
                            assert(nodes@[k as int] == scope_entries(
                                *graphs,
                                main_graph_id,
                                0,
                            )[k as int]);
                            assert(loc.graph_id == main_graph_id);
                            assert(graphs.spec_graph(main_idx).spec_node(
                                loc.node_id.0 as int,
                            ).kind != NodeKind::Record);
                            assert(false);
                        }
                    }
                    let outcome = record_dispatch.record(&loc, &slot_values_set[value_index]);
                    if let Err(node_error) = outcome {
                        let graph_label = match graphs.get_by_id(&loc.graph_id) {
                            Ok(g) => g.get_label().clone(),
                            Err(_) => {
                                proof {
                                    assert(false);
                                }
                                String::new()
                            }
                        };
                        proof {
                            assert(graphs.spec_graph(loc.graph_id.0 as int).spec_node(
                                loc.node_id.0 as int,
                            ).kind == NodeKind::Record);
                        }
                        return Err(
                            GraphRunError::NodeRunError {
                                graph: graph_label,
                                node: node.label.clone(),
                                node_error,
                            },
                        );
                    }
                }
            }
            k = k + 1;
        }
        self.flattened_nodes = nodes;
        self.slot_values = slot_values_set;
        Ok(())
    }
}

impl Default for ParalellRenderGraphRunner {
    /// A runner that has not run a frame yet.
    fn default() -> (r: Self)
        ensures
            r.flattened_nodes@.len() == 0,
            r.slot_values@.len() == 0,
    {
        ParalellRenderGraphRunner::new()
    }
}

} // verus!
