//! The queueing protocol: the context handed to a queueing node, through
//! which it requests — with immediate, per-request validation — that other
//! graphs run next.

use crate::graph::{RenderGraphId, RenderGraphs};
use crate::slot::SlotValues;
use crate::QueueingError;
use vstd::prelude::*;

verus! {

/// One validated request to run the graph `id` with the inputs `inputs`.
#[derive(Debug)]
pub struct QueueGraph {
    pub id: RenderGraphId,
    pub inputs: SlotValues,
}

/// The batch of requests one queueing-node invocation produced, in request
/// order.
#[derive(Debug)]
pub struct GraphQueue(pub(crate) Vec<QueueGraph>);

impl GraphQueue {
    /// How many requests the batch holds.
    pub closed spec fn num_requests(self) -> int {
        self.0@.len() as int
    }

    /// The request at position `i`, in request order.
    pub closed spec fn spec_request(self, i: int) -> QueueGraph {
        self.0@[i]
    }

    /// How many requests the batch holds.
    pub fn len(&self) -> (n: usize)
        ensures
            n == self.num_requests(),
    {
        self.0.len()
    }
}

/// The context given to a queueing node for the span of one `queue` call.
///
/// Every request is validated the moment it is made: the target label must
/// resolve, and the provided values must satisfy the target graph's
/// requirement schema. A failing request is rejected and leaves the batch
/// as it was — requests already accepted stay accepted.
#[derive(Debug)]
pub struct QueueContext {
    queue: Vec<QueueGraph>,
}

impl QueueContext {
    /// How many requests have been accepted so far.
    pub closed spec fn num_requests(self) -> int {
        self.queue@.len() as int
    }

    /// The accepted request at position `i`.
    pub closed spec fn spec_request(self, i: int) -> QueueGraph {
        self.queue@[i]
    }

    /// An empty context, accepted requests still to come.
    pub fn new() -> (r: Self)
        ensures
            r.num_requests() == 0,
    {
        QueueContext { queue: Vec::new() }
    }

    /// Requests that the graph registered under `label` run next with the
    /// inputs `values`.
    ///
    /// The request is validated here, not when the flattener consumes it: an
    /// unknown label or values that fail the target's schema reject exactly
    /// this request, and the context keeps every request accepted before.
    pub fn queue(&mut self, graphs: &RenderGraphs, label: &str, values: SlotValues) -> (r: Result<
        (),
        QueueingError,
    >)
        ensures
            r is Ok <==> graphs.contains_graph_label(label@) && graphs.spec_graph(
                graphs.graph_label_index(label@),
            ).spec_requirements().spec_satisfied_by(values),
            match r {
                Ok(u) => {
                    &&& final(self).num_requests() == old(self).num_requests() + 1
                    &&& forall|i: int|
                        0 <= i < old(self).num_requests() ==> final(self).spec_request(i) == old(
                            self,
                        ).spec_request(i)
                    &&& final(self).spec_request(old(self).num_requests()).id == RenderGraphId(
                        graphs.graph_label_index(label@) as usize,
                    )
                    &&& final(self).spec_request(old(self).num_requests()).inputs == values
                },
                Err(e) => *final(self) == *old(self) && match e {
                    QueueingError::LabelError(l) => !graphs.contains_graph_label(label@) && l@
                        == label@,
                    QueueingError::SlotValueError { render_graph, value_error } => graphs
                        .contains_graph_label(label@) && render_graph@ == label@ && graphs
                        .spec_graph(
                        graphs.graph_label_index(label@),
                    ).spec_requirements().spec_value_error_matches(values, value_error),
                },
            },
    {
        let graph = match graphs.get(label) {
            Ok(g) => g,
            Err(_) => {
                return Err(QueueingError::LabelError(label.to_owned()));
            }
        };
        if let Some(value_error) = graph.requirements().get_slot_value_error(&values) {
            return Err(
                QueueingError::SlotValueError { render_graph: label.to_owned(), value_error },
            );
        }
        self.queue.push(QueueGraph { id: graph.get_id(), inputs: values });
        Ok(())
    }

    /// Hands the accepted batch over; it is consumed exactly once per
    /// queueing-node invocation.
    pub fn finish(self) -> (r: GraphQueue)
        ensures
            r.num_requests() == self.num_requests(),
            forall|i: int|
                0 <= i < self.num_requests() ==> r.spec_request(i) == self.spec_request(i),
    {
        GraphQueue(self.queue)
    }
}

} // verus!
