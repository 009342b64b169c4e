//! Graph flattening: starting from one root graph invocation, the graphs'
//! topological orders are walked and every graph that a queueing node
//! requests is inlined — immediately and recursively, at the position of
//! the queueing node — into one flat, order-preserving execution list.

use crate::context::{GraphQueue, QueueContext};
use crate::graph::{RenderGraphId, RenderGraphs};
use crate::node::{NodeId, NodeKind, QueueNode};
use crate::slot::SlotValues;
use crate::{GraphRunError, NodeRunError, QueueingError};
use vstd::prelude::*;

verus! {

/// The nesting depth up to which queued graph invocations are followed;
/// a deeper chain aborts the frame with `GraphRunError::RecursionLimit`.
pub const MAX_QUEUE_DEPTH: usize = 64;

/// One node of one graph, as an entry of the flat execution list.
#[derive(Debug, Clone, Copy, PartialEq, Eq, Hash, Structural)]
pub struct NodeLocation {
    pub graph_id: RenderGraphId,
    pub node_id: NodeId,
}

/// One frame's flat execution list: the visited nodes in execution order,
/// each paired with an index into the parallel list of slot-value sets —
/// the inputs of the specific invocation that caused the node's graph to
/// be entered.
#[derive(Debug)]
pub struct FlattenedGraph {
    /// Nodes in execution order, each with the index of its invocation's
    /// slot values.
    pub nodes: Vec<(NodeLocation, usize)>,
    /// One slot-value set per graph invocation, in the order the
    /// invocations were entered.
    pub slot_values_set: Vec<SlotValues>,
    /// Which graph each invocation entered, parallel to
    /// `slot_values_set`.
    pub invoked_graphs: Vec<RenderGraphId>,
}

/// Whether one flat entry is well formed: its location names a registered
/// graph and one of that graph's nodes, its value index is in bounds, and
/// the values it points at satisfy the graph's requirement schema.
pub open spec fn entry_wf(
    graphs: RenderGraphs,
    entry: (NodeLocation, usize),
    values: Seq<SlotValues>,
) -> bool {
    &&& graphs.spec_contains_id(entry.0.graph_id)
    &&& (entry.0.node_id.0 as int) < graphs.spec_graph(entry.0.graph_id.0 as int).num_nodes()
    &&& (entry.1 as int) < values.len()
    &&& graphs.spec_graph(entry.0.graph_id.0 as int).spec_requirements().spec_satisfied_by(
        values[entry.1 as int],
    )
}

/// Selects the flat entries belonging to the invocation with value index
/// `s`.
pub open spec fn scope_pred(s: int) -> spec_fn((NodeLocation, usize)) -> bool {
    |p: (NodeLocation, usize)| p.1 as int == s
}

/// The flat entries one invocation of `graph_id` contributes for its own
/// nodes: the graph's topological order, each node paired with the
/// invocation's value index.
pub open spec fn scope_entries(
    graphs: RenderGraphs,
    graph_id: RenderGraphId,
    scope: usize,
) -> Seq<(NodeLocation, usize)> {
    graphs.spec_graph(graph_id.0 as int).spec_sorted().map_values(
        |nid: NodeId| (NodeLocation { graph_id, node_id: nid }, scope),
    )
}

/// Whether, for every invocation listed in `scope_list` from position `lo`
/// on, the entries of `block` belonging to that invocation are exactly its
/// graph's topological order, in order.
pub open spec fn scopes_ordered(
    graphs: RenderGraphs,
    block: Seq<(NodeLocation, usize)>,
    scope_list: Seq<RenderGraphId>,
    lo: int,
) -> bool {
    forall|s: int|
        lo <= s < scope_list.len() ==> block.filter(scope_pred(s)) == #[trigger] scope_entries(
            graphs,
            scope_list[s],
            s as usize,
        )
}

/// Whether no node of the graph `graph_id` is a queueing node.
pub open spec fn graph_has_no_queueing(graphs: RenderGraphs, graph_id: RenderGraphId) -> bool {
    forall|i: int|
        0 <= i < graphs.spec_graph(graph_id.0 as int).num_nodes() ==> (
        #[trigger] graphs.spec_graph(graph_id.0 as int).spec_node(i)).kind != NodeKind::Queue
}

/// Whether no node of the graph `graph_id` is a recording node.
pub open spec fn graph_has_no_recording(graphs: RenderGraphs, graph_id: RenderGraphId) -> bool {
    forall|i: int|
        0 <= i < graphs.spec_graph(graph_id.0 as int).num_nodes() ==> (
        #[trigger] graphs.spec_graph(graph_id.0 as int).spec_node(i)).kind != NodeKind::Record
}

/// Whether `glabel` is the label of a registered graph: the provenance an
/// error's graph field must carry.
pub open spec fn error_names_graph(graphs: RenderGraphs, glabel: Seq<char>) -> bool {
    exists|g: int|
        0 <= g < graphs.num_graphs() && (#[trigger] graphs.spec_graph(g)).spec_label() == glabel
}

/// Whether `glabel` and `nlabel` name a registered graph and one of its
/// nodes of the kind `kind`: the provenance a node-run error carries.
pub open spec fn error_names_node_of_kind(
    graphs: RenderGraphs,
    glabel: Seq<char>,
    nlabel: Seq<char>,
    kind: NodeKind,
) -> bool {
    exists|g: int, i: int|
        #![trigger graphs.spec_graph(g).spec_node(i)]
        0 <= g < graphs.num_graphs() && 0 <= i < graphs.spec_graph(g).num_nodes()
            && graphs.spec_graph(g).spec_label() == glabel && graphs.spec_graph(g).spec_node(
            i,
        ).label@ == nlabel && graphs.spec_graph(g).spec_node(i).kind == kind
}

/// Whether, in the block one invocation contributes (its value index
/// `own`, its graph `gid`), every entry of a nested invocation stands
/// behind at least one of the invocation's own entries, and the latest own
/// entry before it belongs to a queueing node: nested blocks sit exactly
/// at the position of the queueing node that requested them.
pub open spec fn subentries_follow_queueing_nodes(
    graphs: RenderGraphs,
    block: Seq<(NodeLocation, usize)>,
    gid: RenderGraphId,
    own: int,
) -> bool {
    forall|q: int|
        0 <= q < block.len() && (#[trigger] block[q]).1 as int != own ==> ({
            let h = block.take(q).filter(scope_pred(own)).len() as int;
            &&& h >= 1
            &&& h <= graphs.spec_graph(gid.0 as int).spec_sorted().len()
            &&& graphs.spec_graph(gid.0 as int).spec_node(
                graphs.spec_graph(gid.0 as int).spec_sorted()[h - 1].0 as int,
            ).kind == NodeKind::Queue
        })
}

proof fn lemma_filter_push<A>(s: Seq<A>, pred: spec_fn(A) -> bool, x: A)
    ensures
        pred(x) ==> s.push(x).filter(pred) == s.filter(pred).push(x),
        !pred(x) ==> s.push(x).filter(pred) == s.filter(pred),
{
    reveal_with_fuel(Seq::filter, 2);
    assert(s.push(x).drop_last() =~= s);
    assert(s.push(x).last() == x);
    if pred(x) {
        assert(s.push(x).filter(pred) =~= s.filter(pred).push(x));
    } else {
        assert(s.push(x).filter(pred) =~= s.filter(pred));
    }
}

proof fn lemma_filter_all_false<A>(s: Seq<A>, pred: spec_fn(A) -> bool)
    requires
        forall|i: int| 0 <= i < s.len() ==> !pred(s[i]),
    ensures
        s.filter(pred) == Seq::<A>::empty(),
    decreases s.len(),
{
    reveal_with_fuel(Seq::filter, 2);
    if s.len() == 0 {
        assert(s.filter(pred) =~= Seq::<A>::empty());
    } else {
        assert(forall|i: int| 0 <= i < s.drop_last().len() ==> !pred(s.drop_last()[i]));
        lemma_filter_all_false(s.drop_last(), pred);
        assert(!pred(s.last()));
        assert(s.filter(pred) =~= Seq::<A>::empty());
    }
}

proof fn lemma_filter_all_true<A>(s: Seq<A>, pred: spec_fn(A) -> bool)
    requires
        forall|i: int| 0 <= i < s.len() ==> pred(s[i]),
    ensures
        s.filter(pred) == s,
    decreases s.len(),
{
    reveal_with_fuel(Seq::filter, 2);
    if s.len() == 0 {
        assert(s.filter(pred) =~= s);
    } else {
        assert(forall|i: int| 0 <= i < s.drop_last().len() ==> pred(s.drop_last()[i]));
        lemma_filter_all_true(s.drop_last(), pred);
        assert(pred(s.last()));
        assert(s.filter(pred) =~= s);
    }
}

/// Visits one invocation of `graph_id` with the inputs `slot_values`:
/// registers the inputs (and the graph) as a new scope, walks the graph's
/// topological order, appends recording and empty nodes to the flat list,
/// and inlines the graphs each queueing node requests right after the
/// queueing node's own entry.
#[verifier::loop_isolation(false)]
fn visit_graph<Q: QueueNode>(
    graphs: &RenderGraphs,
    dispatcher: &mut Q,
    graph_id: RenderGraphId,
    slot_values: SlotValues,
    depth: usize,
    out_nodes: &mut Vec<(NodeLocation, usize)>,
    out_values: &mut Vec<SlotValues>,
    scope_graphs: &mut Vec<RenderGraphId>,
) -> (r: Result<(), GraphRunError>)
    requires
        graphs.spec_contains_id(graph_id),
        graphs.spec_graph(graph_id.0 as int).spec_requirements().spec_satisfied_by(slot_values),
        old(scope_graphs)@.len() == old(out_values)@.len(),
    ensures
        r is Ok ==> ({
            let nodes0 = old(out_nodes)@.len() as int;
            let vals0 = old(out_values)@.len() as int;
            &&& final(out_values)@.len() > vals0
            &&& final(out_values)@.subrange(0, vals0) == old(out_values)@
            &&& final(out_values)@[vals0] == slot_values
            &&& final(out_nodes)@.len() >= nodes0
            &&& final(out_nodes)@.subrange(0, nodes0) == old(out_nodes)@
            &&& final(scope_graphs)@.len() == final(out_values)@.len()
            &&& final(scope_graphs)@.subrange(0, vals0) == old(scope_graphs)@
            &&& final(scope_graphs)@[vals0] == graph_id
            &&& forall|k: int|
                nodes0 <= k < final(out_nodes)@.len() ==> entry_wf(
                    *graphs,
                    #[trigger] final(out_nodes)@[k],
                    final(out_values)@,
                ) && vals0 <= final(out_nodes)@[k].1
            &&& scopes_ordered(
                *graphs,
                final(out_nodes)@.subrange(nodes0, final(out_nodes)@.len() as int),
                final(scope_graphs)@,
                vals0,
            )
            &&& subentries_follow_queueing_nodes(
                *graphs,
                final(out_nodes)@.subrange(nodes0, final(out_nodes)@.len() as int),
                graph_id,
                vals0,
            )
            &&& graph_has_no_queueing(*graphs, graph_id) ==> final(out_values)@.len() == vals0 + 1
                && final(out_nodes)@.subrange(nodes0, final(out_nodes)@.len() as int)
                == scope_entries(*graphs, graph_id, old(out_values)@.len() as usize)
        }),
        depth > 0 && graph_has_no_queueing(*graphs, graph_id) ==> r is Ok,
        r matches Err(e) ==> match e {
            GraphRunError::NodeRunError { graph, node, node_error } => error_names_node_of_kind(
                *graphs,
                graph@,
                node@,
                NodeKind::Queue,
            ),
            GraphRunError::RecursionLimit { graph } => error_names_graph(*graphs, graph@),
            GraphRunError::InvalidRootInputs { render_graph, value_error } => false,
        },
    decreases depth,
{
    let ghost nodes0 = out_nodes@.len() as int;
    let ghost vals0 = out_values@.len() as int;
    let graph = match graphs.get_by_id(&graph_id) {
        Ok(g) => g,
        Err(_) => {
            proof {
                assert(false);
            }
            return Err(GraphRunError::RecursionLimit { graph: String::new() });
        }
    };
    if depth == 0 {
        proof {
            assert(graphs.spec_graph(graph_id.0 as int).spec_label() == graph.spec_label());
        }
        return Err(GraphRunError::RecursionLimit { graph: graph.get_label().clone() });
    }
    let scope_index = out_values.len();
    out_values.push(slot_values);
    scope_graphs.push(graph_id);
    let order = graph.sorted_order();
    let n = order.len();
    let ghost pred = scope_pred(vals0);
    let ghost target_entries = scope_entries(*graphs, graph_id, scope_index);
    proof {
        assert(out_nodes@.subrange(nodes0, out_nodes@.len() as int) =~= Seq::<(
            NodeLocation,
            usize,
        )>::empty());
        lemma_filter_all_false(Seq::<(NodeLocation, usize)>::empty(), pred);
    }
    let mut j: usize = 0;
    while j < n
        invariant
            j <= n,
            out_values@.len() > vals0,
            out_values@.subrange(0, vals0) =~= old(out_values)@,
            out_values@[vals0] == slot_values,
            out_nodes@.len() >= nodes0,
            out_nodes@.subrange(0, nodes0) =~= old(out_nodes)@,
            scope_graphs@.len() == out_values@.len(),
            scope_graphs@.subrange(0, vals0) =~= old(scope_graphs)@,
            scope_graphs@[vals0] == graph_id,
            forall|k: int|
                nodes0 <= k < out_nodes@.len() ==> entry_wf(
                    *graphs,
                    #[trigger] out_nodes@[k],
                    out_values@,
                ) && vals0 <= out_nodes@[k].1,
            out_nodes@.subrange(nodes0, out_nodes@.len() as int).filter(pred)
                == target_entries.take(j as int),
            scopes_ordered(
                *graphs,
                out_nodes@.subrange(nodes0, out_nodes@.len() as int),
                scope_graphs@,
                vals0 + 1,
            ),
            subentries_follow_queueing_nodes(
                *graphs,
                out_nodes@.subrange(nodes0, out_nodes@.len() as int),
                graph_id,
                vals0,
            ),
            graph_has_no_queueing(*graphs, graph_id) ==> out_values@.len() == vals0 + 1 && forall|
                k: int,
            | nodes0 <= k < out_nodes@.len() ==> (#[trigger] out_nodes@[k]).1 as int == vals0,
        decreases n - j,
    {
        let node_id = order[j];
        let node = graph.get_node(&node_id);
        let loc = NodeLocation { graph_id, node_id };
        let ghost block_before = out_nodes@.subrange(nodes0, out_nodes@.len() as int);
        match node.kind {
            NodeKind::Record => {
                out_nodes.push((loc, scope_index));
                proof {
                    assert(target_entries[j as int] == (loc, scope_index));
                    assert(entry_wf(*graphs, (loc, scope_index), out_values@));
                    assert(out_nodes@.subrange(nodes0, out_nodes@.len() as int)
                        =~= block_before.push((loc, scope_index)));
                    lemma_own_scope_push(
                        *graphs,
                        block_before,
                        out_nodes@.subrange(nodes0, out_nodes@.len() as int),
                        scope_graphs@,
                        (loc, scope_index),
                        vals0,
                    );
                    lemma_follow_push_own(
                        *graphs,
                        block_before,
                        out_nodes@.subrange(nodes0, out_nodes@.len() as int),
                        graph_id,
                        vals0,
                        (loc, scope_index),
                    );
                    lemma_filter_push(block_before, pred, (loc, scope_index));
                    assert(target_entries.take(j + 1) =~= target_entries.take(j as int).push(
                        target_entries[j as int],
                    ));
                }
            }
            NodeKind::Empty => {
                out_nodes.push((loc, scope_index));
                proof {
                    assert(target_entries[j as int] == (loc, scope_index));
                    assert(entry_wf(*graphs, (loc, scope_index), out_values@));
                    assert(out_nodes@.subrange(nodes0, out_nodes@.len() as int)
                        =~= block_before.push((loc, scope_index)));
                    lemma_own_scope_push(
                        *graphs,
                        block_before,
                        out_nodes@.subrange(nodes0, out_nodes@.len() as int),
                        scope_graphs@,
                        (loc, scope_index),
                        vals0,
                    );
                    lemma_follow_push_own(
                        *graphs,
                        block_before,
                        out_nodes@.subrange(nodes0, out_nodes@.len() as int),
                        graph_id,
                        vals0,
                        (loc, scope_index),
                    );
                    lemma_filter_push(block_before, pred, (loc, scope_index));
                    assert(target_entries.take(j + 1) =~= target_entries.take(j as int).push(
                        target_entries[j as int],
                    ));
                }
            }
            NodeKind::Queue => {
                proof {
                    assert(graphs.spec_graph(graph_id.0 as int).spec_node(node_id.0 as int).kind
                        == NodeKind::Queue);
                    assert(!graph_has_no_queueing(*graphs, graph_id));
                }
                out_nodes.push((loc, scope_index));
                proof {
                    assert(target_entries[j as int] == (loc, scope_index));
                    assert(entry_wf(*graphs, (loc, scope_index), out_values@));
                    assert(out_nodes@.subrange(nodes0, out_nodes@.len() as int)
                        =~= block_before.push((loc, scope_index)));
                    lemma_own_scope_push(
                        *graphs,
                        block_before,
                        out_nodes@.subrange(nodes0, out_nodes@.len() as int),
                        scope_graphs@,
                        (loc, scope_index),
                        vals0,
                    );
                    lemma_follow_push_own(
                        *graphs,
                        block_before,
                        out_nodes@.subrange(nodes0, out_nodes@.len() as int),
                        graph_id,
                        vals0,
                        (loc, scope_index),
                    );
                    lemma_filter_push(block_before, pred, (loc, scope_index));
                    assert(target_entries.take(j + 1) =~= target_entries.take(j as int).push(
                        target_entries[j as int],
                    ));
                }
                let mut ctx = QueueContext::new();
                let dispatch_result = dispatcher.queue(
                    &loc,
                    &out_values[scope_index],
                    graphs,
                    &mut ctx,
                );
                if let Err(node_error) = dispatch_result {
                    return Err(
                        GraphRunError::NodeRunError {
                            graph: graph.get_label().clone(),
                            node: node.label.clone(),
                            node_error,
                        },
                    );
                }
                let finished = ctx.finish();
                let GraphQueue(mut requests) = finished;
                while requests.len() > 0
                    invariant
                        out_values@.len() > vals0,
                        out_values@.subrange(0, vals0) =~= old(out_values)@,
                        out_values@[vals0] == slot_values,
                        out_nodes@.len() >= nodes0,
                        out_nodes@.subrange(0, nodes0) =~= old(out_nodes)@,
                        scope_graphs@.len() == out_values@.len(),
                        scope_graphs@.subrange(0, vals0) =~= old(scope_graphs)@,
                        scope_graphs@[vals0] == graph_id,
                        forall|k: int|
                            nodes0 <= k < out_nodes@.len() ==> entry_wf(
                                *graphs,
                                #[trigger] out_nodes@[k],
                                out_values@,
                            ) && vals0 <= out_nodes@[k].1,
                        out_nodes@.subrange(nodes0, out_nodes@.len() as int).filter(pred)
                            == target_entries.take(j + 1),
                        scopes_ordered(
                            *graphs,
                            out_nodes@.subrange(nodes0, out_nodes@.len() as int),
                            scope_graphs@,
                            vals0 + 1,
                        ),
                        subentries_follow_queueing_nodes(
                            *graphs,
                            out_nodes@.subrange(nodes0, out_nodes@.len() as int),
                            graph_id,
                            vals0,
                        ),
                    decreases requests.len(),
                {
                    let ghost block_pre = out_nodes@.subrange(nodes0, out_nodes@.len() as int);
                    let ghost values_pre = out_values@;
                    let ghost scopes_pre = scope_graphs@;
                    let req = requests.remove(0);
                    let target_graph = match graphs.get_by_id(&req.id) {
                        Ok(g) => g,
                        Err(_) => {
                            return Err(
                                GraphRunError::NodeRunError {
                                    graph: graph.get_label().clone(),
                                    node: node.label.clone(),
                                    node_error: NodeRunError::QueueingError(
                                        QueueingError::LabelError(String::new()),
                                    ),
                                },
                            );
                        }
                    };
                    if let Some(value_error) = target_graph.requirements().get_slot_value_error(
                        &req.inputs,
                    ) {
                        return Err(
                            GraphRunError::NodeRunError {
                                graph: graph.get_label().clone(),
                                node: node.label.clone(),
                                node_error: NodeRunError::QueueingError(
                                    QueueingError::SlotValueError {
                                        render_graph: target_graph.get_label().clone(),
                                        value_error,
                                    },
                                ),
                            },
                        );
                    }
                    let ghost sub_start = out_nodes@.len() as int;
                    let sub = visit_graph(
                        graphs,
                        dispatcher,
                        req.id,
                        req.inputs,
                        depth - 1,
                        out_nodes,
                        out_values,
                        scope_graphs,
                    );
                    if let Err(e) = sub {
                        return Err(e);
                    }
                    proof {
                        let sub_block = out_nodes@.subrange(sub_start, out_nodes@.len() as int);
                        let block_new = out_nodes@.subrange(nodes0, out_nodes@.len() as int);
                        assert(block_new =~= block_pre + sub_block);
                        assert(scope_graphs@.subrange(0, vals0) =~= scopes_pre.subrange(
                            0,
                            vals0,
                        ));
                        assert forall|i: int| 0 <= i < sub_block.len() implies !pred(
                            sub_block[i],
                        ) by {
                            assert(sub_block[i] == out_nodes@[sub_start + i]);
                            assert(sub_block[i].1 >= values_pre.len());
                        }
                        lemma_filter_all_false(sub_block, pred);
                        Seq::filter_distributes_over_add(block_pre, sub_block, pred);
                        assert(graphs.spec_graph(graph_id.0 as int).spec_node(
                            graphs.spec_graph(graph_id.0 as int).spec_sorted()[j as int].0 as int,
                        ).kind == NodeKind::Queue) by {
                            assert(order@[j as int] == graphs.spec_graph(
                                graph_id.0 as int,
                            ).spec_sorted()[j as int]);
                        }
                        assert forall|i: int|
                            0 <= i < sub_block.len() implies (#[trigger] sub_block[i]).1 as int
                            != vals0 by {
                            assert(sub_block[i] == out_nodes@[sub_start + i]);
                            assert(sub_block[i].1 >= values_pre.len());
                        }
                        assert(block_pre.filter(scope_pred(vals0)).len() == j + 1) by {
                            assert(block_pre.filter(pred) == target_entries.take(j + 1));
                        }
                        lemma_follow_append_foreign(
                            *graphs,
                            block_pre,
                            sub_block,
                            graph_id,
                            vals0,
                            j as int,
                        );
                        assert(subentries_follow_queueing_nodes(
                            *graphs,
                            block_new,
                            graph_id,
                            vals0,
                        ));
                        assert(out_values@.subrange(0, vals0) =~= values_pre.subrange(
                            0,
                            vals0,
                        ));
                        assert forall|k: int|
                            nodes0 <= k < out_nodes@.len() implies entry_wf(
                            *graphs,
                            #[trigger] out_nodes@[k],
                            out_values@,
                        ) && vals0 <= out_nodes@[k].1 by {
                            if k < sub_start {
                                assert(out_nodes@[k] == block_pre[k - nodes0]);
                                assert(entry_wf(*graphs, out_nodes@[k], values_pre));
                                assert(out_values@.subrange(0, values_pre.len() as int)
                                    =~= values_pre);
                                assert(out_values@[out_nodes@[k].1 as int] == values_pre[
                                out_nodes@[k].1 as int]);
                            }
                        }
                        assert forall|s: int|
                            vals0 + 1 <= s < scope_graphs@.len() implies block_new.filter(
                            scope_pred(s),
                        ) == #[trigger] scope_entries(
                            *graphs,
                            scope_graphs@[s],
                            s as usize,
                        ) by {
                            Seq::filter_distributes_over_add(block_pre, sub_block, scope_pred(s));
                            if s < values_pre.len() {
                                assert(scope_graphs@[s] == scopes_pre[s]);
                                assert forall|i: int| 0 <= i < sub_block.len() implies !(
                                scope_pred(s))(sub_block[i]) by {
                                    assert(sub_block[i] == out_nodes@[sub_start + i]);
                                    assert(sub_block[i].1 >= values_pre.len());
                                }
                                lemma_filter_all_false(sub_block, scope_pred(s));
                                assert(block_pre.filter(scope_pred(s)) == scope_entries(
                                    *graphs,
                                    scopes_pre[s],
                                    s as usize,
                                ));
                                assert(block_new.filter(scope_pred(s)) =~= block_pre.filter(
                                    scope_pred(s),
                                ));
                            } else {
                                assert forall|i: int| 0 <= i < block_pre.len() implies !(
                                scope_pred(s))(block_pre[i]) by {
                                    assert(block_pre[i].1 < values_pre.len());
                                }
                                lemma_filter_all_false(block_pre, scope_pred(s));
                                assert(sub_block.filter(scope_pred(s)) == scope_entries(
                                    *graphs,
                                    scope_graphs@[s],
                                    s as usize,
                                ));
                                assert(block_new.filter(scope_pred(s)) =~= sub_block.filter(
                                    scope_pred(s),
                                ));
                            }
                        }
                    }
                }
            }
        }
        j = j + 1;
    }
    proof {
        assert(target_entries.take(n as int) =~= target_entries);
        assert(out_nodes@.subrange(0, nodes0) == old(out_nodes)@);
        assert(out_values@.subrange(0, vals0) == old(out_values)@);
        assert(scope_graphs@.subrange(0, vals0) == old(scope_graphs)@);
        let block = out_nodes@.subrange(nodes0, out_nodes@.len() as int);
        assert forall|s: int|
            vals0 <= s < scope_graphs@.len() implies block.filter(scope_pred(s))
            == #[trigger] scope_entries(*graphs, scope_graphs@[s], s as usize) by {
            if s == vals0 {
                assert(block.filter(pred) == target_entries);
                assert(scope_graphs@[vals0] == graph_id);
            }
        }
        if graph_has_no_queueing(*graphs, graph_id) {
            assert forall|i: int| 0 <= i < block.len() implies pred(block[i]) by {
                assert(block[i] == out_nodes@[nodes0 + i]);
            }
            lemma_filter_all_true(block, pred);
        }
    }
    Ok(())
}

proof fn lemma_own_scope_push(
    graphs: RenderGraphs,
    block: Seq<(NodeLocation, usize)>,
    block_new: Seq<(NodeLocation, usize)>,
    scope_list: Seq<RenderGraphId>,
    entry: (NodeLocation, usize),
    own: int,
)
    requires
        scopes_ordered(graphs, block, scope_list, own + 1),
        block_new == block.push(entry),
        entry.1 as int == own,
    ensures
        scopes_ordered(graphs, block_new, scope_list, own + 1),
{
    assert forall|s: int|
        own + 1 <= s < scope_list.len() implies block_new.filter(scope_pred(s))
        == #[trigger] scope_entries(graphs, scope_list[s], s as usize) by {
        lemma_filter_push(block, scope_pred(s), entry);
        assert(!(scope_pred(s))(entry));
        assert(block.filter(scope_pred(s)) == scope_entries(graphs, scope_list[s], s as usize));
    }
}

proof fn lemma_follow_push_own(
    graphs: RenderGraphs,
    block: Seq<(NodeLocation, usize)>,
    block_new: Seq<(NodeLocation, usize)>,
    gid: RenderGraphId,
    own: int,
    entry: (NodeLocation, usize),
)
    requires
        subentries_follow_queueing_nodes(graphs, block, gid, own),
        block_new == block.push(entry),
        entry.1 as int == own,
    ensures
        subentries_follow_queueing_nodes(graphs, block_new, gid, own),
{
    assert forall|q: int|
        0 <= q < block_new.len() && (#[trigger] block_new[q]).1 as int != own implies ({
        let h = block_new.take(q).filter(scope_pred(own)).len() as int;
        &&& h >= 1
        &&& h <= graphs.spec_graph(gid.0 as int).spec_sorted().len()
        &&& graphs.spec_graph(gid.0 as int).spec_node(
            graphs.spec_graph(gid.0 as int).spec_sorted()[h - 1].0 as int,
        ).kind == NodeKind::Queue
    }) by {
        assert(q < block.len());
        assert(block_new.take(q) =~= block.take(q));
        assert(block[q] == block_new[q]);
    }
}

proof fn lemma_follow_append_foreign(
    graphs: RenderGraphs,
    block_pre: Seq<(NodeLocation, usize)>,
    sub_block: Seq<(NodeLocation, usize)>,
    gid: RenderGraphId,
    own: int,
    j: int,
)
    requires
        subentries_follow_queueing_nodes(graphs, block_pre, gid, own),
        forall|i: int| 0 <= i < sub_block.len() ==> (#[trigger] sub_block[i]).1 as int != own,
        block_pre.filter(scope_pred(own)).len() == j + 1,
        0 <= j < graphs.spec_graph(gid.0 as int).spec_sorted().len(),
        graphs.spec_graph(gid.0 as int).spec_node(
            graphs.spec_graph(gid.0 as int).spec_sorted()[j].0 as int,
        ).kind == NodeKind::Queue,
    ensures
        subentries_follow_queueing_nodes(graphs, block_pre + sub_block, gid, own),
{
    let combined = block_pre + sub_block;
    assert forall|q: int|
        0 <= q < combined.len() && (#[trigger] combined[q]).1 as int != own implies ({
        let h = combined.take(q).filter(scope_pred(own)).len() as int;
        &&& h >= 1
        &&& h <= graphs.spec_graph(gid.0 as int).spec_sorted().len()
        &&& graphs.spec_graph(gid.0 as int).spec_node(
            graphs.spec_graph(gid.0 as int).spec_sorted()[h - 1].0 as int,
        ).kind == NodeKind::Queue
    }) by {
        if q < block_pre.len() {
            assert(combined.take(q) =~= block_pre.take(q));
            assert(combined[q] == block_pre[q]);
        } else {
            let subpart = sub_block.take(q - block_pre.len());
            assert(combined.take(q) =~= block_pre + subpart);
            assert forall|i: int| 0 <= i < subpart.len() implies !(scope_pred(own))(
                #[trigger] subpart[i],
            ) by {
                assert(subpart[i] == sub_block[i]);
            }
            lemma_filter_all_false(subpart, scope_pred(own));
            Seq::filter_distributes_over_add(block_pre, subpart, scope_pred(own));
            assert(combined.take(q).filter(scope_pred(own)) == block_pre.filter(
                scope_pred(own),
            ));
        }
    }
}

impl FlattenedGraph {
    /// Flattens one frame, starting from the registered graph `main_graph`
    /// invoked with `inputs`: the root inputs are validated against the
    /// entry graph's schema, then the graphs are walked depth-first, every
    /// queueing node's requests inlined right after its own entry.
    ///
    /// On success, the flat list pairs every visited node with the inputs
    /// of exactly the invocation that caused its graph to be entered; each
    /// invocation's inputs satisfy its graph's requirement schema; and,
    /// for every invocation, its entries in the flat list are its graph's
    /// topological order, in order.
    pub fn from<Q: QueueNode>(
        graphs: &RenderGraphs,
        main_graph: &RenderGraphId,
        inputs: SlotValues,
        dispatcher: &mut Q,
    ) -> (r: Result<FlattenedGraph, GraphRunError>)
        requires
            graphs.spec_contains_id(*main_graph),
        ensures
            match r {
                Ok(flat) => {
                    &&& flat.slot_values_set@.len() >= 1
                    &&& flat.slot_values_set@[0] == inputs
                    &&& flat.invoked_graphs@.len() == flat.slot_values_set@.len()
                    &&& flat.invoked_graphs@[0] == *main_graph
                    &&& graphs.spec_graph(main_graph.0 as int).spec_requirements(
                    ).spec_satisfied_by(inputs)
                    &&& forall|k: int|
                        0 <= k < flat.nodes@.len() ==> entry_wf(
                            *graphs,
                            #[trigger] flat.nodes@[k],
                            flat.slot_values_set@,
                        )
                    &&& scopes_ordered(*graphs, flat.nodes@, flat.invoked_graphs@, 0)
                    &&& subentries_follow_queueing_nodes(*graphs, flat.nodes@, *main_graph, 0)
                    &&& graph_has_no_queueing(*graphs, *main_graph) ==> flat.nodes@
                        == scope_entries(*graphs, *main_graph, 0)
                },
                Err(e) => match e {
                    GraphRunError::InvalidRootInputs { render_graph, value_error } => render_graph@
                        == graphs.spec_graph(main_graph.0 as int).spec_label() && graphs.spec_graph(
                        main_graph.0 as int,
                    ).spec_requirements().spec_value_error_matches(inputs, value_error),
                    GraphRunError::NodeRunError { graph, node, node_error } => error_names_node_of_kind(
                        *graphs,
                        graph@,
                        node@,
                        NodeKind::Queue,
                    ),
                    GraphRunError::RecursionLimit { graph } => error_names_graph(*graphs, graph@),
                },
            },
            graphs.spec_graph(main_graph.0 as int).spec_requirements().spec_satisfied_by(inputs)
                && graph_has_no_queueing(*graphs, *main_graph) ==> r is Ok,
            (match r {
                Err(e) => e is InvalidRootInputs,
                Ok(flat) => false,
            }) <==> !graphs.spec_graph(main_graph.0 as int).spec_requirements().spec_satisfied_by(
                inputs,
            ),
    {
        let entry_graph = match graphs.get_by_id(main_graph) {
            Ok(g) => g,
            Err(_) => {
                proof {
                    assert(false);
                }
                return Err(GraphRunError::RecursionLimit { graph: String::new() });
            }
        };
        if let Some(value_error) = entry_graph.requirements().get_slot_value_error(&inputs) {
            return Err(
                GraphRunError::InvalidRootInputs {
                    render_graph: entry_graph.get_label().clone(),
                    value_error,
                },
            );
        }
        let mut nodes: Vec<(NodeLocation, usize)> = Vec::new();
        let mut slot_values_set: Vec<SlotValues> = Vec::new();
        let mut invoked_graphs: Vec<RenderGraphId> = Vec::new();
        let visited = visit_graph(
            graphs,
            dispatcher,
            *main_graph,
            inputs,
            MAX_QUEUE_DEPTH,
            &mut nodes,
            &mut slot_values_set,
            &mut invoked_graphs,
        );
        if let Err(e) = visited {
            return Err(e);
        }
        proof {
            assert(nodes@.subrange(0, nodes@.len() as int) =~= nodes@);
        }
        Ok(FlattenedGraph { nodes, slot_values_set, invoked_graphs })
    }
}

/// Queueing one graph twice in one frame yields two distinct runs of its
/// node order in the flat list: each invocation's entries carry that
/// invocation's own value index, so the two runs reference two different
/// input sets and are disjoint as entry sequences.
pub proof fn lemma_two_invocations_have_distinct_entries(
    graphs: RenderGraphs,
    block: Seq<(NodeLocation, usize)>,
    scope_list: Seq<RenderGraphId>,
    s1: int,
    s2: int,
)
    requires
        scopes_ordered(graphs, block, scope_list, 0),
        0 <= s1 < s2 < scope_list.len(),
        s2 <= usize::MAX,
        scope_list[s1] == scope_list[s2],
        graphs.spec_graph(scope_list[s1].0 as int).spec_sorted().len() > 0,
    ensures
        block.filter(scope_pred(s1)) == scope_entries(graphs, scope_list[s1], s1 as usize),
        block.filter(scope_pred(s2)) == scope_entries(graphs, scope_list[s2], s2 as usize),
        block.filter(scope_pred(s1)) != block.filter(scope_pred(s2)),
{
    let first = scope_entries(graphs, scope_list[s1], s1 as usize);
    let second = scope_entries(graphs, scope_list[s2], s2 as usize);
    assert(first[0].1 == s1 as usize);
    assert(second[0].1 == s2 as usize);
    assert(first[0] != second[0]);
}

/// Flattening a graph without queueing nodes is a function of the registry
/// and the root invocation alone: the flat node list is exactly the entry
/// graph's topological order under the root scope. Two flattenings of an
/// unchanged registry with equal root inputs therefore produce the same
/// node sequence, entry for entry.
pub proof fn lemma_flatten_deterministic_without_queueing(
    graphs: RenderGraphs,
    main_graph: RenderGraphId,
    first: Seq<(NodeLocation, usize)>,
    second: Seq<(NodeLocation, usize)>,
)
    requires
        graph_has_no_queueing(graphs, main_graph),
        first == scope_entries(graphs, main_graph, 0),
        second == scope_entries(graphs, main_graph, 0),
    ensures
        first == second,
{
}

} // verus!
