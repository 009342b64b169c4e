//! Graph structure: a set of nodes, an ordering relation between them, a
//! cached topological order, and the registry of all graphs.

use crate::node::{NodeId, NodeKind, NodeState};
use crate::slot::{SlotRequirementError, SlotRequirements};
use crate::NodeAddError;
use crate::RenderGraphError;
use vstd::prelude::*;

verus! {

/// A graph identifier, assigned by the registry when the graph is inserted
/// and stable for the graph's lifetime.
#[derive(Debug, Clone, Copy, PartialEq, Eq, Hash, Structural)]
pub struct RenderGraphId(pub usize);

/// An ordering constraint between two nodes of one graph: the input node
/// must be visited, and its effects considered complete, prior to the
/// output node.
#[derive(Debug, Clone, Copy, PartialEq, Eq, Structural)]
pub struct Edge {
    pub before: NodeId,
    pub after: NodeId,
}

impl Edge {
    /// An edge requiring `input_node` to be visited before `output_node`.
    pub fn new(input_node: NodeId, output_node: NodeId) -> (e: Edge)
        ensures
            e.before == input_node,
            e.after == output_node,
    {
        Edge { before: input_node, after: output_node }
    }

    /// The node that must be visited first.
    pub fn get_input_node(&self) -> (id: NodeId)
        ensures
            id == self.before,
    {
        self.before
    }

    /// The node that must be visited later.
    pub fn get_output_node(&self) -> (id: NodeId)
        ensures
            id == self.after,
    {
        self.after
    }
}

/// Whether every edge endpoint refers to one of `n` nodes.
pub open spec fn edges_in_bounds(edges: Seq<Edge>, n: int) -> bool {
    forall|e: int|
        0 <= e < edges.len() ==> (#[trigger] edges[e]).before.0 < n && edges[e].after.0 < n
}

/// Whether `order` is a valid topological order of `n` nodes under `edges`:
/// it lists every node exactly once, and for every edge the input node
/// stands strictly earlier than the output node.
pub open spec fn valid_topological_order(order: Seq<NodeId>, n: int, edges: Seq<Edge>) -> bool {
    &&& order.len() == n
    &&& forall|k: int| 0 <= k < n ==> (#[trigger] order[k]).0 < n
    &&& forall|k1: int, k2: int| 0 <= k1 < k2 < n ==> order[k1] != order[k2]
    &&& forall|id: int| 0 <= id < n ==> #[trigger] order.contains(NodeId(id as usize))
    &&& forall|e: int, k1: int, k2: int|
        #![trigger edges[e], order[k1], order[k2]]
        0 <= e < edges.len() && 0 <= k1 < order.len() && 0 <= k2 < order.len() && order[k1]
            == edges[e].before && order[k2] == edges[e].after ==> k1 < k2
}

/// Whether `order` takes, at every position, the earliest-created ready
/// node: whenever a node is not yet listed and every ordering constraint
/// into it comes from a node already listed, the node actually taken at
/// that position has an identifier no larger than that node's.
pub open spec fn creation_order_tie_break(order: Seq<NodeId>, n: int, edges: Seq<Edge>) -> bool {
    forall|k: int, id: int|
        #![trigger order.take(k).contains(NodeId(id as usize))]
        0 <= k < order.len() && 0 <= id < n && !order.take(k).contains(NodeId(id as usize)) && (
        forall|e: int|
            0 <= e < edges.len() && (#[trigger] edges[e]).after.0 == id ==> order.take(
                k,
            ).contains(edges[e].before)) ==> order[k].0 <= id
}

/// Whether `order` is the one canonical order of `n` nodes under `edges`:
/// a valid topological order that breaks every tie by node-creation order.
/// `lemma_canonical_order_unique` shows that at most one sequence has this
/// shape, so the cached order is deterministic across rebuilds.
pub open spec fn canonical_topological_order(order: Seq<NodeId>, n: int, edges: Seq<Edge>) -> bool {
    &&& valid_topological_order(order, n, edges)
    &&& creation_order_tie_break(order, n, edges)
}

/// A nonempty set of nodes each of which waits on another member of the
/// set. No member of such a set can ever stand first among them in a
/// topological order, so the set witnesses a dependency cycle.
pub open spec fn blocked_set(n: int, edges: Seq<Edge>, s: Set<int>) -> bool {
    &&& !s.is_empty()
    &&& forall|id: int| #[trigger] s.contains(id) ==> 0 <= id < n
    &&& forall|id: int|
        #[trigger] s.contains(id) ==> exists|e: int|
            0 <= e < edges.len() && (#[trigger] edges[e]).after.0 == id && s.contains(
                edges[e].before.0 as int,
            )
}

/// Whether the edge relation over `n` nodes contains a dependency cycle.
pub open spec fn has_cycle(n: int, edges: Seq<Edge>) -> bool {
    exists|s: Set<int>| #[trigger] blocked_set(n, edges, s)
}

/// How many positions of `s` hold `true`.
spec fn count_trues(s: Seq<bool>) -> int
    decreases s.len(),
{
    if s.len() == 0 {
        0
    } else {
        count_trues(s.drop_last()) + if s.last() {
            1int
        } else {
            0int
        }
    }
}

proof fn lemma_count_trues_bound(s: Seq<bool>)
    ensures
        0 <= count_trues(s) <= s.len(),
    decreases s.len(),
{
    if s.len() > 0 {
        lemma_count_trues_bound(s.drop_last());
    }
}

proof fn lemma_count_trues_update(s: Seq<bool>, i: int)
    requires
        0 <= i < s.len(),
        !s[i],
    ensures
        count_trues(s.update(i, true)) == count_trues(s) + 1,
    decreases s.len(),
{
    let t = s.update(i, true);
    if i == s.len() - 1 {
        assert(t.drop_last() =~= s.drop_last());
    } else {
        assert(t.drop_last() =~= s.drop_last().update(i, true));
        lemma_count_trues_update(s.drop_last(), i);
    }
}

proof fn lemma_count_lt_exists_false(s: Seq<bool>)
    requires
        count_trues(s) < s.len(),
    ensures
        exists|i: int| 0 <= i < s.len() && !s[i],
    decreases s.len(),
{
    if s.last() {
        lemma_count_trues_bound(s.drop_last());
        lemma_count_lt_exists_false(s.drop_last());
        let i = choose|i: int| 0 <= i < s.drop_last().len() && !s.drop_last()[i];
        assert(!s[i]);
    } else {
        assert(!s[s.len() - 1]);
    }
}

proof fn lemma_count_full_all_true(s: Seq<bool>)
    requires
        count_trues(s) == s.len(),
    ensures
        forall|i: int| 0 <= i < s.len() ==> s[i],
    decreases s.len(),
{
    if s.len() > 0 {
        lemma_count_trues_bound(s.drop_last());
        lemma_count_full_all_true(s.drop_last());
        assert forall|i: int| 0 <= i < s.len() implies s[i] by {
            if i < s.len() - 1 {
                assert(s.drop_last()[i]);
            }
        }
    }
}

/// Whether some ordering constraint into `id` comes from a node that is not
/// yet picked into the order.
fn has_unfinished_dependency(edges: &Vec<Edge>, picked: &Vec<bool>, id: usize) -> (r: bool)
    requires
        edges_in_bounds(edges@, picked@.len() as int),
        id < picked@.len(),
    ensures
        r == exists|e: int|
            0 <= e < edges@.len() && (#[trigger] edges@[e]).after.0 == id
                && !picked@[edges@[e].before.0 as int],
{
    let m = edges.len();
    let mut e: usize = 0;
    while e < m
        invariant
            m == edges@.len(),
            e <= m,
            edges_in_bounds(edges@, picked@.len() as int),
            id < picked@.len(),
            forall|k: int|
                0 <= k < e ==> !((#[trigger] edges@[k]).after.0 == id && !picked@[edges@[k].before.0
                    as int]),
        decreases m - e,
    {
        let edge = &edges[e];
        if edge.after.0 == id && !picked[edge.before.0] {
            return true;
        }
        e = e + 1;
    }
    false
}

/// Computes a topological order of `n` nodes under `edges`, or reports a
/// dependency cycle.
///
/// The order is deterministic: whenever several nodes are ready (all their
/// ordering constraints satisfied), the one created first — the smallest
/// identifier — is taken next.
fn compute_topological_order(n: usize, edges: &Vec<Edge>) -> (r: Option<Vec<NodeId>>)
    requires
        edges_in_bounds(edges@, n as int),
    ensures
        match r {
            Some(order) => canonical_topological_order(order@, n as int, edges@),
            None => has_cycle(n as int, edges@),
        },
{
    let mut picked: Vec<bool> = Vec::new();
    let mut f: usize = 0;
    while f < n
        invariant
            f <= n,
            picked@.len() == f,
            count_trues(picked@) == 0,
            forall|x: int| 0 <= x < f ==> !picked@[x],
        decreases n - f,
    {
        let ghost before_push = picked@;
        picked.push(false);
        proof {
            assert(picked@.drop_last() =~= before_push);
        }
        f = f + 1;
    }
    let mut order: Vec<NodeId> = Vec::new();
    while order.len() < n
        invariant
            picked@.len() == n,
            edges_in_bounds(edges@, n as int),
            order@.len() == count_trues(picked@),
            order@.len() <= n,
            forall|k: int|
                0 <= k < order@.len() ==> (#[trigger] order@[k]).0 < n && picked@[order@[k].0
                    as int],
            forall|k1: int, k2: int| 0 <= k1 < k2 < order@.len() ==> order@[k1] != order@[k2],
            forall|id: int|
                0 <= id < n && #[trigger] picked@[id] ==> order@.contains(NodeId(id as usize)),
            forall|e: int, k2: int|
                #![trigger edges@[e], order@[k2]]
                0 <= e < edges@.len() && 0 <= k2 < order@.len() && order@[k2] == edges@[e].after
                    ==> exists|k1: int| 0 <= k1 < k2 && order@[k1] == edges@[e].before,
            creation_order_tie_break(order@, n as int, edges@),
        decreases n - order.len(),
    {
        let mut chosen: Option<usize> = None;
        let mut id: usize = 0;
        while id < n
            invariant
                n == picked@.len(),
                edges_in_bounds(edges@, n as int),
                id <= n,
                match chosen {
                    Some(c) => c < n && !picked@[c as int] && !(exists|e: int|
                        0 <= e < edges@.len() && (#[trigger] edges@[e]).after.0 == c
                            && !picked@[edges@[e].before.0 as int]) && (forall|x: int|
                        0 <= x < c && !picked@[x] ==> exists|e: int|
                            0 <= e < edges@.len() && (#[trigger] edges@[e]).after.0 == x
                                && !picked@[edges@[e].before.0 as int]),
                    None => forall|x: int|
                        0 <= x < id && !picked@[x] ==> exists|e: int|
                            0 <= e < edges@.len() && (#[trigger] edges@[e]).after.0 == x
                                && !picked@[edges@[e].before.0 as int],
                },
            decreases n - id,
        {
            if chosen.is_none() && !picked[id] {
                if !has_unfinished_dependency(edges, &picked, id) {
                    chosen = Some(id);
                }
            }
            id = id + 1;
        }
        match chosen {
            None => {
                proof {
                    let ghost s = Set::new(
                        |x: int| 0 <= x < n && !picked@[x],
                    );
                    lemma_count_lt_exists_false(picked@);
                    let w = choose|i: int| 0 <= i < picked@.len() && !picked@[i];
                    assert(s.contains(w));
                    assert(!s.is_empty());
                    assert forall|x: int| #[trigger] s.contains(x) implies exists|e: int|
                        0 <= e < edges@.len() && (#[trigger] edges@[e]).after.0 == x && s.contains(
                            edges@[e].before.0 as int,
                        ) by {
                        let e = choose|e: int|
                            0 <= e < edges@.len() && (#[trigger] edges@[e]).after.0 == x
                                && !picked@[edges@[e].before.0 as int];
                        assert(edges@[e].before.0 < n);
                        assert(s.contains(edges@[e].before.0 as int));
                    }
                    assert(blocked_set(n as int, edges@, s));
                }
                return None;
            }
            Some(c) => {
                let ghost picked_before = picked@;
                let ghost order_before = order@;
                picked[c] = true;
                order.push(NodeId(c));
                proof {
                    lemma_count_trues_update(picked_before, c as int);
                    let last = order@.len() - 1;
                    assert forall|id2: int|
                        0 <= id2 < n && #[trigger] picked@[id2] implies order@.contains(
                        NodeId(id2 as usize),
                    ) by {
                        if id2 == c as int {
                            assert(order@[last] == NodeId(c));
                        } else {
                            assert(picked_before[id2]);
                            assert(order_before.contains(NodeId(id2 as usize)));
                            let k = choose|k: int|
                                0 <= k < order_before.len() && order_before[k] == NodeId(
                                    id2 as usize,
                                );
                            assert(order@[k] == NodeId(id2 as usize));
                        }
                    }
                    assert forall|e: int, k2: int|
                        #![trigger edges@[e], order@[k2]]
                        0 <= e < edges@.len() && 0 <= k2 < order@.len() && order@[k2]
                            == edges@[e].after implies exists|k1: int|
                        0 <= k1 < k2 && order@[k1] == edges@[e].before by {
                        if k2 < last {
                            assert(order_before[k2] == edges@[e].after);
                            let k1 = choose|k1: int|
                                0 <= k1 < k2 && order_before[k1] == edges@[e].before;
                            assert(order@[k1] == edges@[e].before);
                        } else {
                            assert(order@[k2] == NodeId(c));
                            assert(edges@[e].after.0 == c);
                            assert(picked_before[edges@[e].before.0 as int]);
                            assert(order_before.contains(NodeId(edges@[e].before.0 as usize)));
                            let k1 = choose|k1: int|
                                0 <= k1 < order_before.len() && order_before[k1] == NodeId(
                                    edges@[e].before.0 as usize,
                                );
                            assert(order@[k1] == edges@[e].before);
                        }
                    }
                    assert(order@.take(last) =~= order_before);
                    assert forall|k: int, id: int|
                        #![trigger order@.take(k).contains(NodeId(id as usize))]
                        0 <= k < order@.len() && 0 <= id < n && !order@.take(k).contains(
                            NodeId(id as usize),
                        ) && (forall|e: int|
                            0 <= e < edges@.len() && (#[trigger] edges@[e]).after.0 == id
                                ==> order@.take(k).contains(edges@[e].before))
                        implies order@[k].0 <= id by {
                        if k < last {
                            assert(order@.take(k) =~= order_before.take(k));
                            assert(order@[k] == order_before[k]);
                            assert(!order_before.take(k).contains(NodeId(id as usize)));
                            assert(forall|e: int|
                                0 <= e < edges@.len() && (#[trigger] edges@[e]).after.0 == id
                                    ==> order_before.take(k).contains(edges@[e].before));
                        } else {
                            assert(!order_before.contains(NodeId(id as usize)));
                            assert(!picked_before[id]) by {
                                if picked_before[id] {
                                    assert(order_before.contains(NodeId(id as usize)));
                                }
                            }
                            assert forall|e: int|
                                0 <= e < edges@.len() && (#[trigger] edges@[e]).after.0
                                    == id implies picked_before[edges@[e].before.0 as int] by {
                                assert(order_before.contains(edges@[e].before));
                                let kb = choose|kb: int|
                                    0 <= kb < order_before.len() && order_before[kb] == edges@[
                                    e].before;
                                assert(picked_before[order_before[kb].0 as int]);
                            }
                            if id < c as int {
                                assert(exists|e: int|
                                    0 <= e < edges@.len() && (#[trigger] edges@[e]).after.0 == id
                                        && !picked_before[edges@[e].before.0 as int]);
                            }
                        }
                    }
                }
            }
        }
    }
    proof {
        lemma_count_full_all_true(picked@);
        assert forall|id: int| 0 <= id < n implies #[trigger] order@.contains(
            NodeId(id as usize),
        ) by {
            assert(picked@[id]);
        }
        assert forall|e: int, k1: int, k2: int|
            #![trigger edges@[e], order@[k1], order@[k2]]
            0 <= e < edges@.len() && 0 <= k1 < order@.len() && 0 <= k2 < order@.len() && order@[k1]
                == edges@[e].before && order@[k2] == edges@[e].after implies k1 < k2 by {
            let k1b = choose|k: int| 0 <= k < k2 && order@[k] == edges@[e].before;
            if k1 != k1b {
                if k1 < k1b {
                    assert(order@[k1] != order@[k1b]);
                } else {
                    assert(order@[k1b] != order@[k1]);
                }
            }
        }
    }
    Some(order)
}

proof fn lemma_blocked_descent(n: int, edges: Seq<Edge>, s: Set<int>, order: Seq<NodeId>, k: int)
    requires
        blocked_set(n, edges, s),
        valid_topological_order(order, n, edges),
        0 <= k < order.len(),
    ensures
        !s.contains(order[k].0 as int),
    decreases k,
{
    if s.contains(order[k].0 as int) {
        let id = order[k].0 as int;
        let e = choose|e: int|
            0 <= e < edges.len() && (#[trigger] edges[e]).after.0 == id && s.contains(
                edges[e].before.0 as int,
            );
        let b = edges[e].before;
        assert((b.0 as int) < n);
        assert(order.contains(NodeId(b.0 as usize)));
        let kb = choose|k1: int| 0 <= k1 < order.len() && order[k1] == NodeId(b.0 as usize);
        assert(order[kb] == edges[e].before);
        assert(order[k] == edges[e].after);
        assert(kb < k);
        lemma_blocked_descent(n, edges, s, order, kb);
        assert(!s.contains(order[kb].0 as int));
        assert(s.contains(b.0 as int));
    }
}

/// A graph: a set of labelled nodes, the ordering constraints between them,
/// a cached topological order kept valid across every mutation, and the
/// graph's declared input contract.
#[derive(Debug)]
pub struct RenderGraph {
    id: RenderGraphId,
    label: String,
    nodes: Vec<NodeState>,
    edges: Vec<Edge>,
    sorted_nodes: Vec<NodeId>,
    requirements: SlotRequirements,
}

impl RenderGraph {
    /// How many nodes the graph holds.
    pub closed spec fn num_nodes(self) -> int {
        self.nodes@.len() as int
    }

    /// The node at position `i`; node identifiers equal their positions.
    pub closed spec fn spec_node(self, i: int) -> NodeState {
        self.nodes@[i]
    }

    /// The label of the node at position `i`.
    pub open spec fn node_label(self, i: int) -> Seq<char> {
        self.spec_node(i).label@
    }

    /// The graph's ordering constraints, in insertion order.
    pub closed spec fn spec_edges(self) -> Seq<Edge> {
        self.edges@
    }

    /// The cached topological order.
    pub closed spec fn spec_sorted(self) -> Seq<NodeId> {
        self.sorted_nodes@
    }

    /// The graph's own label.
    pub closed spec fn spec_label(self) -> Seq<char> {
        self.label@
    }

    /// The graph's identifier in the registry.
    pub closed spec fn spec_id(self) -> RenderGraphId {
        self.id
    }

    /// The graph's declared input contract.
    pub closed spec fn spec_requirements(self) -> SlotRequirements {
        self.requirements
    }

    /// Whether some node carries the label `n`.
    pub open spec fn contains_node_label(self, n: Seq<char>) -> bool {
        exists|i: int| 0 <= i < self.num_nodes() && self.node_label(i) == n
    }

    /// The position (and identifier) of the node labelled `n`.
    pub open spec fn node_label_index(self, n: Seq<char>) -> int {
        choose|i: int| 0 <= i < self.num_nodes() && self.node_label(i) == n
    }

    /// Whether an ordering constraint from `b` to `a` is recorded.
    pub open spec fn spec_has_edge(self, b: NodeId, a: NodeId) -> bool {
        exists|e: int|
            0 <= e < self.spec_edges().len() && #[trigger] self.spec_edges()[e] == Edge {
                before: b,
                after: a,
            }
    }

    #[verifier::type_invariant]
    spec fn wf(self) -> bool {
        &&& forall|i: int|
            0 <= i < self.num_nodes() ==> (#[trigger] self.spec_node(i)).id == NodeId(i as usize)
        &&& forall|i: int, j: int|
            0 <= i < j < self.num_nodes() ==> self.node_label(i) != self.node_label(j)
        &&& edges_in_bounds(self.spec_edges(), self.num_nodes())
        &&& forall|e1: int, e2: int|
            0 <= e1 < e2 < self.spec_edges().len() ==> self.spec_edges()[e1]
                != self.spec_edges()[e2]
        &&& canonical_topological_order(self.spec_sorted(), self.num_nodes(), self.spec_edges())
        &&& forall|i: int|
            0 <= i < self.num_nodes() ==> (#[trigger] self.spec_node(
                i,
            )).requirements.spec_compatible_with(self.spec_requirements())
    }

    proof fn lemma_node_label_index(self, i: int)
        requires
            self.wf(),
            0 <= i < self.num_nodes(),
        ensures
            self.node_label_index(self.node_label(i)) == i,
            self.contains_node_label(self.node_label(i)),
    {
        let n = self.node_label(i);
        assert(0 <= i < self.num_nodes() && self.node_label(i) == n);
        let j = self.node_label_index(n);
        if i != j {
            if i < j {
                assert(self.node_label(i) != self.node_label(j));
            } else {
                assert(self.node_label(j) != self.node_label(i));
            }
        }
    }

    /// An empty graph under `label`, declaring `requirements` as its input
    /// contract. The identifier is assigned when the graph is registered.
    pub fn new(label: String, requirements: SlotRequirements) -> (r: Self)
        ensures
            r.num_nodes() == 0,
            r.spec_edges().len() == 0,
            r.spec_sorted().len() == 0,
            r.spec_label() == label@,
            r.spec_requirements() == requirements,
    {
        RenderGraph {
            id: RenderGraphId(0),
            label,
            nodes: Vec::new(),
            edges: Vec::new(),
            sorted_nodes: Vec::new(),
            requirements,
        }
    }

    /// The graph's identifier in the registry.
    pub fn get_id(&self) -> (id: RenderGraphId)
        ensures
            id == self.spec_id(),
    {
        self.id
    }

    /// The graph's own label.
    pub fn get_label(&self) -> (label: &String)
        ensures
            label@ == self.spec_label(),
    {
        &self.label
    }

    /// The graph's declared input contract.
    pub fn requirements(&self) -> (r: &SlotRequirements)
        ensures
            r == self.spec_requirements(),
    {
        &self.requirements
    }

    /// The cached topological order: every node exactly once, each input
    /// node of an edge before its output node, and ties among ready nodes
    /// broken by node-creation order — the one canonical order of the
    /// current constraint set.
    pub fn sorted_order(&self) -> (r: &Vec<NodeId>)
        ensures
            r@ == self.spec_sorted(),
            valid_topological_order(r@, self.num_nodes(), self.spec_edges()),
            canonical_topological_order(r@, self.num_nodes(), self.spec_edges()),
    {
        proof {
            use_type_invariant(&*self);
        }
        &self.sorted_nodes
    }

    /// The position of the node labelled `label`, if one is present.
    fn node_index_of_label(&self, label: &str) -> (r: Option<usize>)
        ensures
            match r {
                Some(i) => i < self.num_nodes() && self.node_label(i as int) == label@
                    && self.node_label_index(label@) == i && self.contains_node_label(label@),
                None => !self.contains_node_label(label@),
            },
    {
        proof {
            use_type_invariant(&*self);
        }
        let n = self.nodes.len();
        let mut i: usize = 0;
        while i < n
            invariant
                self.wf(),
                n == self.num_nodes(),
                i <= n,
                forall|k: int| 0 <= k < i ==> self.node_label(k) != label@,
            decreases n - i,
        {
            if self.nodes[i].label.as_str().eq(label) {
                proof {
                    self.lemma_node_label_index(i as int);
                }
                return Some(i);
            }
            i = i + 1;
        }
        None
    }

    /// The identifier of the node labelled `label`.
    pub fn get_node_id(&self, label: &str) -> (r: Result<NodeId, RenderGraphError>)
        ensures
            match r {
                Ok(id) => self.contains_node_label(label@) && id == NodeId(
                    self.node_label_index(label@) as usize,
                ),
                Err(e) => !self.contains_node_label(label@) && (e
                    matches RenderGraphError::NodeLabelError(l) && l@ == label@),
            },
    {
        match self.node_index_of_label(label) {
            Some(i) => Ok(NodeId(i)),
            None => Err(RenderGraphError::NodeLabelError(label.to_owned())),
        }
    }

    /// The node with the identifier `id`.
    pub fn get_node(&self, id: &NodeId) -> (r: &NodeState)
        requires
            id.0 < self.num_nodes(),
        ensures
            r == self.spec_node(id.0 as int),
            r.id == id,
    {
        proof {
            use_type_invariant(&*self);
        }
        &self.nodes[id.0]
    }

    /// What adding one node does to a graph: the node stands at the end of
    /// the node list and of the topological order, under a fresh identifier,
    /// and everything else is kept.
    pub open spec fn node_added(
        self,
        prev: Self,
        label: Seq<char>,
        kind: NodeKind,
        requirements: SlotRequirements,
        id: NodeId,
    ) -> bool {
        &&& id == NodeId(prev.num_nodes() as usize)
        &&& self.num_nodes() == prev.num_nodes() + 1
        &&& self.spec_node(prev.num_nodes()).label@ == label
        &&& self.spec_node(prev.num_nodes()).kind == kind
        &&& self.spec_node(prev.num_nodes()).requirements == requirements
        &&& forall|i: int| 0 <= i < prev.num_nodes() ==> self.spec_node(i) == prev.spec_node(i)
        &&& self.spec_edges() == prev.spec_edges()
        &&& self.spec_sorted() == prev.spec_sorted().push(id)
        &&& self.spec_label() == prev.spec_label()
        &&& self.spec_id() == prev.spec_id()
        &&& self.spec_requirements() == prev.spec_requirements()
    }

    /// What adding one empty node does: as `node_added`, with the node
    /// declaring no requirement at all.
    pub open spec fn node_added_empty(self, prev: Self, label: Seq<char>, id: NodeId) -> bool {
        &&& id == NodeId(prev.num_nodes() as usize)
        &&& self.num_nodes() == prev.num_nodes() + 1
        &&& self.spec_node(prev.num_nodes()).label@ == label
        &&& self.spec_node(prev.num_nodes()).kind == NodeKind::Empty
        &&& self.spec_node(prev.num_nodes()).requirements.num_entries() == 0
        &&& forall|i: int| 0 <= i < prev.num_nodes() ==> self.spec_node(i) == prev.spec_node(i)
        &&& self.spec_edges() == prev.spec_edges()
        &&& self.spec_sorted() == prev.spec_sorted().push(id)
        &&& self.spec_label() == prev.spec_label()
        &&& self.spec_id() == prev.spec_id()
        &&& self.spec_requirements() == prev.spec_requirements()
    }

    fn add_node(&mut self, state: NodeState) -> (r: Result<NodeId, NodeAddError>)
        ensures
            r is Ok <==> !old(self).contains_node_label(state.label@)
                && state.requirements.spec_compatible_with(old(self).spec_requirements()),
            match r {
                Ok(id) => final(self).node_added(
                    *old(self),
                    state.label@,
                    state.kind,
                    state.requirements,
                    id,
                ),
                Err(e) => *final(self) == *old(self) && match e {
                    NodeAddError::DuplicateNodeLabel(l) => old(self).contains_node_label(
                        state.label@,
                    ) && l@ == state.label@,
                    NodeAddError::SlotRequirementError(err) => !old(self).contains_node_label(
                        state.label@,
                    ) && state.requirements.spec_requirement_error_matches(
                        old(self).spec_requirements(),
                        err,
                    ),
                },
            },
    {
        proof {
            use_type_invariant(&*self);
        }
        if self.node_index_of_label(state.label.as_str()).is_some() {
            return Err(NodeAddError::DuplicateNodeLabel(state.label.clone()));
        }
        if let Some(err) = state.requirements.get_slot_requirement_error(&self.requirements) {
            return Err(NodeAddError::SlotRequirementError(err));
        }
        let ghost prev = *self;
        let id = NodeId(self.nodes.len());
        let mut tmp = RenderGraph {
            id: RenderGraphId(0),
            label: String::new(),
            nodes: Vec::new(),
            edges: Vec::new(),
            sorted_nodes: Vec::new(),
            requirements: SlotRequirements::new(),
        };
        core::mem::swap(self, &mut tmp);
        let RenderGraph {
            id: gid,
            label: glabel,
            nodes: mut node_list,
            edges: edge_list,
            sorted_nodes: mut order,
            requirements: reqs,
        } = tmp;
        let NodeState { id: _, label: nlabel, kind: nkind, requirements: nreqs } = state;
        node_list.push(NodeState { id, label: nlabel, kind: nkind, requirements: nreqs });
        order.push(id);
        proof {
            let n = prev.num_nodes();
            assert forall|i: int, j: int|
                0 <= i < j < node_list@.len() implies node_list@[i].label@
                != node_list@[j].label@ by {
                if j == n {
                    assert(node_list@[i].label@ == prev.node_label(i));
                    if prev.node_label(i) == state.label@ {
                        assert(prev.contains_node_label(state.label@));
                    }
                } else {
                    assert(node_list@[i].label@ == prev.node_label(i));
                    assert(node_list@[j].label@ == prev.node_label(j));
                }
            }
            assert(valid_topological_order(order@, n + 1, edge_list@)) by {
                let prev_order = prev.spec_sorted();
                assert(valid_topological_order(prev_order, n, prev.spec_edges()));
                assert forall|k: int| 0 <= k < n + 1 implies (#[trigger] order@[k]).0 < n + 1 by {
                    if k < n {
                        assert(order@[k] == prev_order[k]);
                    }
                }
                assert forall|k1: int, k2: int| 0 <= k1 < k2 < n + 1 implies order@[k1]
                    != order@[k2] by {
                    if k2 < n {
                        assert(order@[k1] == prev_order[k1] && order@[k2] == prev_order[k2]);
                    } else {
                        assert(order@[k1] == prev_order[k1]);
                        assert(prev_order[k1].0 < n);
                        assert(order@[k2] == id);
                    }
                }
                assert forall|x: int| 0 <= x < n + 1 implies #[trigger] order@.contains(
                    NodeId(x as usize),
                ) by {
                    if x < n {
                        assert(prev_order.contains(NodeId(x as usize)));
                        let k = choose|k: int|
                            0 <= k < prev_order.len() && prev_order[k] == NodeId(x as usize);
                        assert(order@[k] == NodeId(x as usize));
                    } else {
                        assert(order@[n] == NodeId(x as usize));
                    }
                }
                assert forall|e: int, k1: int, k2: int|
                    #![trigger edge_list@[e], order@[k1], order@[k2]]
                    0 <= e < edge_list@.len() && 0 <= k1 < order@.len() && 0 <= k2 < order@.len()
                        && order@[k1] == edge_list@[e].before && order@[k2]
                        == edge_list@[e].after implies k1 < k2 by {
                    assert(edge_list@[e].before.0 < n && edge_list@[e].after.0 < n);
                    assert(order@[n].0 == n);
                    assert(k1 < n && k2 < n);
                    assert(order@[k1] == prev_order[k1] && order@[k2] == prev_order[k2]);
                }
            }
            assert(creation_order_tie_break(order@, n + 1, edge_list@)) by {
                let prev_order = prev.spec_sorted();
                assert forall|k: int, id: int|
                    #![trigger order@.take(k).contains(NodeId(id as usize))]
                    0 <= k < order@.len() && 0 <= id < n + 1 && !order@.take(k).contains(
                        NodeId(id as usize),
                    ) && (forall|e: int|
                        0 <= e < edge_list@.len() && (#[trigger] edge_list@[e]).after.0 == id
                            ==> order@.take(k).contains(edge_list@[e].before))
                    implies order@[k].0 <= id by {
                    if k < n {
                        assert(order@.take(k) =~= prev_order.take(k));
                        assert(order@[k] == prev_order[k]);
                        if id < n {
                            assert(!prev_order.take(k).contains(NodeId(id as usize)));
                            assert(forall|e: int|
                                0 <= e < edge_list@.len() && (#[trigger] edge_list@[e]).after.0
                                    == id ==> prev_order.take(k).contains(edge_list@[e].before));
                        } else {
                            assert(prev_order[k].0 < n);
                        }
                    } else {
                        assert(order@.take(k) =~= prev_order);
                        if id < n {
                            assert(prev_order.contains(NodeId(id as usize)));
                        } else {
                            assert(order@[k].0 == n);
                        }
                    }
                }
            }
            assert forall|i: int| 0 <= i < node_list@.len() implies (#[trigger] node_list@[i]).id
                == NodeId(i as usize) by {
                if i < n {
                    assert(node_list@[i] == prev.spec_node(i));
                }
            }
            assert(edges_in_bounds(edge_list@, n + 1)) by {
                assert forall|e: int|
                    0 <= e < edge_list@.len() implies (#[trigger] edge_list@[e]).before.0 < n + 1
                    && edge_list@[e].after.0 < n + 1 by {
                    assert(edge_list@[e].before.0 < n && edge_list@[e].after.0 < n);
                }
            }
            assert forall|i: int|
                0 <= i < node_list@.len() implies (#[trigger] node_list@[i])
                .requirements.spec_compatible_with(reqs) by {
                if i < n {
                    assert(node_list@[i] == prev.spec_node(i));
                }
            }
        }
        *self = RenderGraph {
            id: gid,
            label: glabel,
            nodes: node_list,
            edges: edge_list,
            sorted_nodes: order,
            requirements: reqs,
        };
        Ok(id)
    }

    /// Whether the constraint `x` is recorded, as a value.
    pub open spec fn spec_contains_edge(self, x: Edge) -> bool {
        exists|e: int| 0 <= e < self.spec_edges().len() && #[trigger] self.spec_edges()[e] == x
    }

    /// Whether an ordering constraint from `b` to `a` is recorded.
    fn find_edge(&self, b: &NodeId, a: &NodeId) -> (r: bool)
        ensures
            r == self.spec_has_edge(*b, *a),
    {
        let m = self.edges.len();
        let mut k: usize = 0;
        while k < m
            invariant
                m == self.spec_edges().len(),
                k <= m,
                forall|e: int|
                    0 <= e < k ==> #[trigger] self.spec_edges()[e] != (Edge {
                        before: *b,
                        after: *a,
                    }),
            decreases m - k,
        {
            let edge = &self.edges[k];
            if edge.before.0 == b.0 && edge.after.0 == a.0 {
                return true;
            }
            k = k + 1;
        }
        false
    }

    /// What recording one ordering constraint does to a graph: the edge
    /// stands at the end of the edge list, the topological order is
    /// recomputed and valid for the new constraint set, and everything else
    /// is kept.
    pub open spec fn edge_added(self, prev: Self, b: NodeId, a: NodeId) -> bool {
        &&& self.spec_edges() == prev.spec_edges().push(Edge { before: b, after: a })
        &&& self.num_nodes() == prev.num_nodes()
        &&& forall|i: int| 0 <= i < prev.num_nodes() ==> self.spec_node(i) == prev.spec_node(i)
        &&& self.spec_label() == prev.spec_label()
        &&& self.spec_id() == prev.spec_id()
        &&& self.spec_requirements() == prev.spec_requirements()
        &&& canonical_topological_order(self.spec_sorted(), self.num_nodes(), self.spec_edges())
    }

    /// Records the constraint that the node labelled `before` must be
    /// visited prior to the node labelled `after`.
    ///
    /// The call is rejected — and the graph, its cached topological order
    /// included, left exactly as it was — when a label is unknown, when the
    /// constraint is already recorded, or when recording it would close a
    /// dependency cycle. The last case is decided here, at insertion time:
    /// an edge set that admits no topological order is never stored.
    pub fn add_edge(&mut self, before: &str, after: &str) -> (r: Result<(), RenderGraphError>)
        ensures
            r is Ok <==> old(self).contains_node_label(before@) && old(self).contains_node_label(
                after@,
            ) && !old(self).spec_has_edge(
                NodeId(old(self).node_label_index(before@) as usize),
                NodeId(old(self).node_label_index(after@) as usize),
            ) && !has_cycle(
                old(self).num_nodes(),
                old(self).spec_edges().push(
                    Edge {
                        before: NodeId(old(self).node_label_index(before@) as usize),
                        after: NodeId(old(self).node_label_index(after@) as usize),
                    },
                ),
            ),
            match r {
                Ok(u) => final(self).edge_added(
                    *old(self),
                    NodeId(old(self).node_label_index(before@) as usize),
                    NodeId(old(self).node_label_index(after@) as usize),
                ),
                Err(e) => *final(self) == *old(self) && match e {
                    RenderGraphError::NodeLabelError(l) => (!old(self).contains_node_label(before@)
                        && l@ == before@) || (old(self).contains_node_label(before@) && !old(
                        self,
                    ).contains_node_label(after@) && l@ == after@),
                    RenderGraphError::EdgeAlreadyExists { graph, before: bl, after: al } => old(
                        self,
                    ).contains_node_label(before@) && old(self).contains_node_label(after@) && old(
                        self,
                    ).spec_has_edge(
                        NodeId(old(self).node_label_index(before@) as usize),
                        NodeId(old(self).node_label_index(after@) as usize),
                    ) && graph@ == old(self).spec_label() && bl@ == before@ && al@ == after@,
                    RenderGraphError::CircularDependency { graph, before: bl, after: al } => old(
                        self,
                    ).contains_node_label(before@) && old(self).contains_node_label(after@) && !old(
                        self,
                    ).spec_has_edge(
                        NodeId(old(self).node_label_index(before@) as usize),
                        NodeId(old(self).node_label_index(after@) as usize),
                    ) && has_cycle(
                        old(self).num_nodes(),
                        old(self).spec_edges().push(
                            Edge {
                                before: NodeId(old(self).node_label_index(before@) as usize),
                                after: NodeId(old(self).node_label_index(after@) as usize),
                            },
                        ),
                    ) && graph@ == old(self).spec_label() && bl@ == before@ && al@ == after@,
                    RenderGraphError::LabelError(_) => false,
                    RenderGraphError::IdError(_) => false,
                    RenderGraphError::NodeIdError(_) => false,
                    RenderGraphError::NodeAddError { .. } => false,
                },
            },
    {
        proof {
            use_type_invariant(&*self);
        }
        let before_id = match self.get_node_id(before) {
            Ok(id) => id,
            Err(e) => {
                return Err(e);
            }
        };
        let after_id = match self.get_node_id(after) {
            Ok(id) => id,
            Err(e) => {
                return Err(e);
            }
        };
        if self.find_edge(&before_id, &after_id) {
            return Err(
                RenderGraphError::EdgeAlreadyExists {
                    graph: self.label.clone(),
                    before: before.to_owned(),
                    after: after.to_owned(),
                },
            );
        }
        let new_edge = Edge { before: before_id, after: after_id };
        let m = self.edges.len();
        let mut candidate: Vec<Edge> = Vec::new();
        let mut k: usize = 0;
        while k < m
            invariant
                m == self.spec_edges().len(),
                k <= m,
                candidate@.len() == k,
                forall|e: int| 0 <= e < k ==> candidate@[e] == self.spec_edges()[e],
            decreases m - k,
        {
            candidate.push(self.edges[k]);
            k = k + 1;
        }
        candidate.push(new_edge);
        proof {
            assert(candidate@ =~= self.spec_edges().push(new_edge));
            assert(edges_in_bounds(candidate@, self.num_nodes())) by {
                assert forall|e: int|
                    0 <= e < candidate@.len() implies (#[trigger] candidate@[e]).before.0
                    < self.num_nodes() && candidate@[e].after.0 < self.num_nodes() by {
                    if e < m {
                        assert(candidate@[e] == self.spec_edges()[e]);
                    } else {
                        assert(candidate@[e] == new_edge);
                        assert(before_id.0 < self.num_nodes() && after_id.0 < self.num_nodes());
                    }
                }
            }
        }
        let n = self.nodes.len();
        match compute_topological_order(n, &candidate) {
            None => {
                return Err(
                    RenderGraphError::CircularDependency {
                        graph: self.label.clone(),
                        before: before.to_owned(),
                        after: after.to_owned(),
                    },
                );
            }
            Some(new_order) => {
                let ghost prev = *self;
                let mut tmp = RenderGraph {
                    id: RenderGraphId(0),
                    label: String::new(),
                    nodes: Vec::new(),
                    edges: Vec::new(),
                    sorted_nodes: Vec::new(),
                    requirements: SlotRequirements::new(),
                };
                core::mem::swap(self, &mut tmp);
                let RenderGraph {
                    id: gid,
                    label: glabel,
                    nodes: node_list,
                    edges: _,
                    sorted_nodes: _,
                    requirements: reqs,
                } = tmp;
                proof {
                    assert forall|e1: int, e2: int|
                        0 <= e1 < e2 < candidate@.len() implies candidate@[e1]
                        != candidate@[e2] by {
                        if e2 < m {
                            assert(candidate@[e1] == prev.spec_edges()[e1]);
                            assert(candidate@[e2] == prev.spec_edges()[e2]);
                        } else {
                            assert(candidate@[e1] == prev.spec_edges()[e1]);
                            assert(candidate@[e2] == new_edge);
                            assert(!prev.spec_has_edge(before_id, after_id));
                            if prev.spec_edges()[e1] == new_edge {
                                assert(prev.spec_has_edge(before_id, after_id));
                            }
                        }
                    }
                }
                proof {
                    lemma_order_excludes_cycle(n as int, candidate@, new_order@);
                    assert(node_list@ == prev.nodes@);
                    assert forall|i: int|
                        0 <= i < node_list@.len() implies (#[trigger] node_list@[i]).id == NodeId(
                        i as usize,
                    ) && node_list@[i].requirements.spec_compatible_with(reqs) by {
                        assert(node_list@[i] == prev.spec_node(i));
                    }
                    assert forall|i: int, j: int|
                        0 <= i < j < node_list@.len() implies node_list@[i].label@
                        != node_list@[j].label@ by {
                        assert(node_list@[i] == prev.spec_node(i));
                        assert(node_list@[j] == prev.spec_node(j));
                        assert(prev.node_label(i) != prev.node_label(j));
                    }
                }
                *self = RenderGraph {
                    id: gid,
                    label: glabel,
                    nodes: node_list,
                    edges: candidate,
                    sorted_nodes: new_order,
                    requirements: reqs,
                };
                proof {
                    assert(self.spec_edges() == prev.spec_edges().push(new_edge));
                    assert(self.edge_added(prev, before_id, after_id));
                }
                Ok(())
            }
        }
    }

    /// Removes the ordering constraint from the node labelled `before` to
    /// the node labelled `after`. Removing a constraint that is not
    /// recorded leaves the constraint set as it was; either way the cached
    /// order is recomputed for the remaining constraints, which is always
    /// possible since only constraints were dropped.
    pub fn remove_edge(&mut self, before: &str, after: &str) -> (r: Result<(), RenderGraphError>)
        ensures
            r is Ok <==> old(self).contains_node_label(before@) && old(self).contains_node_label(
                after@,
            ),
            match r {
                Ok(u) => {
                    let b = NodeId(old(self).node_label_index(before@) as usize);
                    let a = NodeId(old(self).node_label_index(after@) as usize);
                    &&& !final(self).spec_has_edge(b, a)
                    &&& forall|x: Edge|
                        x != (Edge { before: b, after: a }) ==> (final(self).spec_contains_edge(x)
                            <==> old(self).spec_contains_edge(x))
                    &&& final(self).num_nodes() == old(self).num_nodes()
                    &&& forall|i: int|
                        0 <= i < old(self).num_nodes() ==> final(self).spec_node(i) == old(
                            self,
                        ).spec_node(i)
                    &&& canonical_topological_order(
                        final(self).spec_sorted(),
                        old(self).num_nodes(),
                        final(self).spec_edges(),
                    )
                    &&& final(self).spec_label() == old(self).spec_label()
                    &&& final(self).spec_id() == old(self).spec_id()
                    &&& final(self).spec_requirements() == old(self).spec_requirements()
                },
                Err(e) => *final(self) == *old(self) && (e
                    matches RenderGraphError::NodeLabelError(l) && ((!old(
                    self,
                ).contains_node_label(before@) && l@ == before@) || (old(self).contains_node_label(
                    before@,
                ) && !old(self).contains_node_label(after@) && l@ == after@))),
            },
    {
        proof {
            use_type_invariant(&*self);
        }
        let before_id = match self.get_node_id(before) {
            Ok(id) => id,
            Err(e) => {
                return Err(e);
            }
        };
        let after_id = match self.get_node_id(after) {
            Ok(id) => id,
            Err(e) => {
                return Err(e);
            }
        };
        let target = Edge { before: before_id, after: after_id };
        let m = self.edges.len();
        let mut candidate: Vec<Edge> = Vec::new();
        let mut k: usize = 0;
        while k < m
            invariant
                self.wf(),
                m == self.spec_edges().len(),
                k <= m,
                target == (Edge { before: before_id, after: after_id }),
                forall|e: int|
                    0 <= e < candidate@.len() ==> #[trigger] candidate@[e] != target && exists|
                        e2: int,
                    | 0 <= e2 < k && self.spec_edges()[e2] == candidate@[e],
                forall|e2: int|
                    0 <= e2 < k && #[trigger] self.spec_edges()[e2] != target
                        ==> candidate@.contains(self.spec_edges()[e2]),
                forall|e1: int, e2: int|
                    0 <= e1 < e2 < candidate@.len() ==> candidate@[e1] != candidate@[e2],
            decreases m - k,
        {
            let edge = self.edges[k];
            let ghost candidate_before = candidate@;
            let keep = !(edge.before.0 == before_id.0 && edge.after.0 == after_id.0);
            if keep {
                candidate.push(edge);
            }
            proof {
                if keep {
                    assert(edge != target);
                    assert(candidate@ == candidate_before.push(edge));
                    assert(candidate@.last() == self.spec_edges()[k as int]);
                    assert forall|e: int|
                        0 <= e < candidate@.len() implies (#[trigger] candidate@[e]) != target
                        && exists|e2: int|
                        0 <= e2 < k + 1 && self.spec_edges()[e2] == candidate@[e] by {
                        if e < candidate_before.len() {
                            assert(candidate@[e] == candidate_before[e]);
                            let w = choose|w: int|
                                0 <= w < k && self.spec_edges()[w] == candidate_before[e];
                            assert(self.spec_edges()[w] == candidate@[e]);
                        } else {
                            assert(candidate@[e] == self.spec_edges()[k as int]);
                        }
                    }
                    assert forall|e1: int, e2: int|
                        0 <= e1 < e2 < candidate@.len() implies candidate@[e1]
                        != candidate@[e2] by {
                        if e2 == candidate@.len() - 1 {
                            assert(candidate@[e1] == candidate_before[e1]);
                            let w1 = choose|w1: int|
                                0 <= w1 < k && self.spec_edges()[w1] == candidate_before[e1];
                            assert(self.spec_edges()[w1] != self.spec_edges()[k as int]);
                            assert(candidate@[e2] == self.spec_edges()[k as int]);
                        } else {
                            assert(candidate@[e1] == candidate_before[e1]);
                            assert(candidate@[e2] == candidate_before[e2]);
                        }
                    }
                } else {
                    assert(edge.before == before_id && edge.after == after_id);
                    assert(self.spec_edges()[k as int] == target);
                }
                assert forall|e2: int|
                    0 <= e2 < k + 1 && #[trigger] self.spec_edges()[e2] != target
                        implies candidate@.contains(self.spec_edges()[e2]) by {
                    if e2 < k {
                        assert(candidate_before.contains(self.spec_edges()[e2]));
                        let w = choose|w: int|
                            0 <= w < candidate_before.len() && candidate_before[w]
                                == self.spec_edges()[e2];
                        assert(candidate@[w] == self.spec_edges()[e2]);
                    } else {
                        assert(self.spec_edges()[e2] == edge);
                        assert(candidate@.last() == self.spec_edges()[e2]);
                    }
                }
            }
            k = k + 1;
        }
        let ghost prev = *self;
        proof {
            let prev_order = prev.spec_sorted();
            assert(edges_in_bounds(candidate@, prev.num_nodes())) by {
                assert forall|e: int|
                    0 <= e < candidate@.len() implies (#[trigger] candidate@[e]).before.0
                    < prev.num_nodes() && candidate@[e].after.0 < prev.num_nodes() by {
                    let e2 = choose|e2: int|
                        0 <= e2 < prev.spec_edges().len() && prev.spec_edges()[e2]
                            == candidate@[e];
                    assert(prev.spec_edges()[e2].before.0 < prev.num_nodes());
                }
            }
            assert(valid_topological_order(prev_order, prev.num_nodes(), candidate@)) by {
                assert forall|e: int, k1: int, k2: int|
                    #![trigger candidate@[e], prev_order[k1], prev_order[k2]]
                    0 <= e < candidate@.len() && 0 <= k1 < prev_order.len() && 0 <= k2
                        < prev_order.len() && prev_order[k1] == candidate@[e].before
                        && prev_order[k2] == candidate@[e].after implies k1 < k2 by {
                    let e2 = choose|e2: int|
                        0 <= e2 < prev.spec_edges().len() && prev.spec_edges()[e2]
                            == candidate@[e];
                    assert(prev_order[k1] == prev.spec_edges()[e2].before);
                    assert(prev_order[k2] == prev.spec_edges()[e2].after);
                }
            }
            lemma_order_excludes_cycle(prev.num_nodes(), candidate@, prev.spec_sorted());
        }
        let new_order = match compute_topological_order(self.nodes.len(), &candidate) {
            Some(o) => o,
            None => {
                proof {
                    assert(false);
                }
                return Err(RenderGraphError::NodeLabelError(String::new()));
            }
        };
        let mut tmp = RenderGraph {
            id: RenderGraphId(0),
            label: String::new(),
            nodes: Vec::new(),
            edges: Vec::new(),
            sorted_nodes: Vec::new(),
            requirements: SlotRequirements::new(),
        };
        core::mem::swap(self, &mut tmp);
        let RenderGraph {
            id: gid,
            label: glabel,
            nodes: node_list,
            edges: _,
            sorted_nodes: _,
            requirements: reqs,
        } = tmp;
        proof {
            assert(node_list@ == prev.nodes@);
            assert forall|i: int|
                0 <= i < node_list@.len() implies (#[trigger] node_list@[i]).id == NodeId(
                i as usize,
            ) && node_list@[i].requirements.spec_compatible_with(reqs) by {
                assert(node_list@[i] == prev.spec_node(i));
            }
            assert forall|i: int, j: int|
                0 <= i < j < node_list@.len() implies node_list@[i].label@
                != node_list@[j].label@ by {
                assert(node_list@[i] == prev.spec_node(i));
                assert(node_list@[j] == prev.spec_node(j));
                assert(prev.node_label(i) != prev.node_label(j));
            }
        }
        *self = RenderGraph {
            id: gid,
            label: glabel,
            nodes: node_list,
            edges: candidate,
            sorted_nodes: new_order,
            requirements: reqs,
        };
        proof {
            assert forall|x: Edge|
                x != target implies (self.spec_contains_edge(x) <==> prev.spec_contains_edge(
                x,
            )) by {
                if self.spec_contains_edge(x) {
                    let e = choose|e: int|
                        0 <= e < self.spec_edges().len() && self.spec_edges()[e] == x;
                    let e2 = choose|e2: int|
                        0 <= e2 < prev.spec_edges().len() && prev.spec_edges()[e2] == x;
                    assert(prev.spec_contains_edge(x));
                }
                if prev.spec_contains_edge(x) {
                    let e2 = choose|e2: int|
                        0 <= e2 < prev.spec_edges().len() && prev.spec_edges()[e2] == x;
                    assert(self.spec_edges().contains(prev.spec_edges()[e2]));
                    let w = choose|w: int|
                        0 <= w < self.spec_edges().len() && self.spec_edges()[w] == x;
                    assert(self.spec_contains_edge(x));
                }
            }
            assert(!self.spec_has_edge(target.before, target.after)) by {
                if self.spec_has_edge(target.before, target.after) {
                    let e = choose|e: int|
                        0 <= e < self.spec_edges().len() && #[trigger] self.spec_edges()[e]
                            == target;
                }
            }
        }
        Ok(())
    }

    /// The direct predecessors of the node `id`: every node with an
    /// ordering constraint into it, each listed once, in edge-insertion
    /// order.
    pub fn before(&self, id: &NodeId) -> (r: Vec<NodeId>)
        ensures
            forall|x: NodeId| r@.contains(x) <==> self.spec_has_edge(x, *id),
            forall|k1: int, k2: int| 0 <= k1 < k2 < r@.len() ==> r@[k1] != r@[k2],
    {
        proof {
            use_type_invariant(&*self);
        }
        let m = self.edges.len();
        let mut out: Vec<NodeId> = Vec::new();
        let mut e: usize = 0;
        while e < m
            invariant
                self.wf(),
                m == self.spec_edges().len(),
                e <= m,
                forall|x: NodeId|
                    out@.contains(x) <==> exists|e2: int|
                        0 <= e2 < e && #[trigger] self.spec_edges()[e2] == (Edge {
                            before: x,
                            after: *id,
                        }),
                forall|k1: int, k2: int| 0 <= k1 < k2 < out@.len() ==> out@[k1] != out@[k2],
            decreases m - e,
        {
            let edge = self.edges[e];
            let ghost out_before = out@;
            if edge.after.0 == id.0 {
                proof {
                    assert(edge.after == *id);
                    if out@.contains(edge.before) {
                        let e2 = choose|e2: int|
                            0 <= e2 < e && #[trigger] self.spec_edges()[e2] == (Edge {
                                before: edge.before,
                                after: *id,
                            });
                        assert(self.spec_edges()[e2] == self.spec_edges()[e as int]);
                        assert(self.spec_edges()[e2] != self.spec_edges()[e as int]);
                    }
                }
                out.push(edge.before);
            }
            proof {
                assert forall|x: NodeId| out@.contains(x) implies exists|e2: int|
                    0 <= e2 < e + 1 && #[trigger] self.spec_edges()[e2] == (Edge {
                        before: x,
                        after: *id,
                    }) by {
                    let w = choose|w: int| 0 <= w < out@.len() && out@[w] == x;
                    if w < out_before.len() {
                        assert(out_before.contains(x));
                        let e2 = choose|e2: int|
                            0 <= e2 < e && #[trigger] self.spec_edges()[e2] == (Edge {
                                before: x,
                                after: *id,
                            });
                    } else {
                        assert(out@[w] == edge.before);
                        assert(self.spec_edges()[e as int] == (Edge { before: x, after: *id }));
                    }
                }
                assert forall|x: NodeId|
                    (exists|e2: int|
                        0 <= e2 < e + 1 && #[trigger] self.spec_edges()[e2] == (Edge {
                            before: x,
                            after: *id,
                        })) implies out@.contains(x) by {
                    let e2 = choose|e2: int|
                        0 <= e2 < e + 1 && #[trigger] self.spec_edges()[e2] == (Edge {
                            before: x,
                            after: *id,
                        });
                    if e2 < e {
                        assert(out_before.contains(x));
                        let w = choose|w: int|
                            0 <= w < out_before.len() && out_before[w] == x;
                        assert(out@[w] == x);
                    } else {
                        assert(edge == (Edge { before: x, after: *id }));
                        assert(out@.last() == x);
                    }
                }
            }
            e = e + 1;
        }
        out
    }

    /// The direct successors of the node `id`: every node the graph
    /// constrains to come after it, each listed once, in edge-insertion
    /// order.
    pub fn after(&self, id: &NodeId) -> (r: Vec<NodeId>)
        ensures
            forall|x: NodeId| r@.contains(x) <==> self.spec_has_edge(*id, x),
            forall|k1: int, k2: int| 0 <= k1 < k2 < r@.len() ==> r@[k1] != r@[k2],
    {
        proof {
            use_type_invariant(&*self);
        }
        let m = self.edges.len();
        let mut out: Vec<NodeId> = Vec::new();
        let mut e: usize = 0;
        while e < m
            invariant
                self.wf(),
                m == self.spec_edges().len(),
                e <= m,
                forall|x: NodeId|
                    out@.contains(x) <==> exists|e2: int|
                        0 <= e2 < e && #[trigger] self.spec_edges()[e2] == (Edge {
                            before: *id,
                            after: x,
                        }),
                forall|k1: int, k2: int| 0 <= k1 < k2 < out@.len() ==> out@[k1] != out@[k2],
            decreases m - e,
        {
            let edge = self.edges[e];
            let ghost out_before = out@;
            if edge.before.0 == id.0 {
                proof {
                    assert(edge.before == *id);
                    if out@.contains(edge.after) {
                        let e2 = choose|e2: int|
                            0 <= e2 < e && #[trigger] self.spec_edges()[e2] == (Edge {
                                before: *id,
                                after: edge.after,
                            });
                        assert(self.spec_edges()[e2] == self.spec_edges()[e as int]);
                        assert(self.spec_edges()[e2] != self.spec_edges()[e as int]);
                    }
                }
                out.push(edge.after);
            }
            proof {
                assert forall|x: NodeId| out@.contains(x) implies exists|e2: int|
                    0 <= e2 < e + 1 && #[trigger] self.spec_edges()[e2] == (Edge {
                        before: *id,
                        after: x,
                    }) by {
                    let w = choose|w: int| 0 <= w < out@.len() && out@[w] == x;
                    if w < out_before.len() {
                        assert(out_before.contains(x));
                        let e2 = choose|e2: int|
                            0 <= e2 < e && #[trigger] self.spec_edges()[e2] == (Edge {
                                before: *id,
                                after: x,
                            });
                    } else {
                        assert(out@[w] == edge.after);
                        assert(self.spec_edges()[e as int] == (Edge { before: *id, after: x }));
                    }
                }
                assert forall|x: NodeId|
                    (exists|e2: int|
                        0 <= e2 < e + 1 && #[trigger] self.spec_edges()[e2] == (Edge {
                            before: *id,
                            after: x,
                        })) implies out@.contains(x) by {
                    let e2 = choose|e2: int|
                        0 <= e2 < e + 1 && #[trigger] self.spec_edges()[e2] == (Edge {
                            before: *id,
                            after: x,
                        });
                    if e2 < e {
                        assert(out_before.contains(x));
                        let w = choose|w: int|
                            0 <= w < out_before.len() && out_before[w] == x;
                        assert(out@[w] == x);
                    } else {
                        assert(edge == (Edge { before: *id, after: x }));
                        assert(out@.last() == x);
                    }
                }
            }
            e = e + 1;
        }
        out
    }

    /// Adds a node that records commands, declaring `requirements`. The add
    /// is rejected if the graph already has a node under this label, or if
    /// the declared requirements are not covered by the graph's input
    /// contract.
    pub fn add_recording_node(&mut self, label: String, requirements: SlotRequirements) -> (r:
        Result<NodeId, NodeAddError>)
        ensures
            r is Ok <==> !old(self).contains_node_label(label@)
                && requirements.spec_compatible_with(old(self).spec_requirements()),
            match r {
                Ok(id) => final(self).node_added(
                    *old(self),
                    label@,
                    NodeKind::Record,
                    requirements,
                    id,
                ),
                Err(e) => *final(self) == *old(self) && match e {
                    NodeAddError::DuplicateNodeLabel(l) => old(self).contains_node_label(label@)
                        && l@ == label@,
                    NodeAddError::SlotRequirementError(err) => !old(self).contains_node_label(
                        label@,
                    ) && requirements.spec_requirement_error_matches(
                        old(self).spec_requirements(),
                        err,
                    ),
                },
            },
    {
        self.add_node(NodeState::from_recording(label, requirements))
    }

    /// Adds a node that queues other graphs, declaring `requirements`.
    pub fn add_queueing_node(&mut self, label: String, requirements: SlotRequirements) -> (r:
        Result<NodeId, NodeAddError>)
        ensures
            r is Ok <==> !old(self).contains_node_label(label@)
                && requirements.spec_compatible_with(old(self).spec_requirements()),
            match r {
                Ok(id) => final(self).node_added(
                    *old(self),
                    label@,
                    NodeKind::Queue,
                    requirements,
                    id,
                ),
                Err(e) => *final(self) == *old(self) && match e {
                    NodeAddError::DuplicateNodeLabel(l) => old(self).contains_node_label(label@)
                        && l@ == label@,
                    NodeAddError::SlotRequirementError(err) => !old(self).contains_node_label(
                        label@,
                    ) && requirements.spec_requirement_error_matches(
                        old(self).spec_requirements(),
                        err,
                    ),
                },
            },
    {
        self.add_node(NodeState::from_queue(label, requirements))
    }

    /// Adds a node that performs no work and only serves as an ordering
    /// point. Such a node declares no requirements, so only a duplicate
    /// label can reject the add.
    pub fn add_empty_node(&mut self, label: String) -> (r: Result<NodeId, NodeAddError>)
        ensures
            r is Ok <==> !old(self).contains_node_label(label@),
            match r {
                Ok(id) => final(self).node_added_empty(*old(self), label@, id),
                Err(e) => *final(self) == *old(self) && (e
                    matches NodeAddError::DuplicateNodeLabel(l) && old(self).contains_node_label(
                    label@,
                ) && l@ == label@),
            },
    {
        let state = NodeState::from_empty(label);
        let ghost reqs = state.requirements;
        let r = self.add_node(state);
        match r {
            Ok(id) => {
                proof {
                    assert(reqs.spec_compatible_with(old(self).spec_requirements()));
                }
                Ok(id)
            }
            Err(e) => {
                match e {
                    NodeAddError::DuplicateNodeLabel(l) => Err(
                        NodeAddError::DuplicateNodeLabel(l),
                    ),
                    NodeAddError::SlotRequirementError(_) => {
                        proof {
                            assert(false);
                        }
                        Err(NodeAddError::DuplicateNodeLabel(String::new()))
                    }
                }
            }
        }
    }
}

/// The registry of all graphs, keyed by identifier and by label. Exactly
/// one graph — the one registered under the main label — is the entry point
/// executed once per frame.
#[derive(Debug)]
pub struct RenderGraphs {
    graphs: Vec<RenderGraph>,
}

impl RenderGraphs {
    /// How many graphs are registered.
    pub closed spec fn num_graphs(self) -> int {
        self.graphs@.len() as int
    }

    /// The graph registered under the identifier with index `i`.
    pub closed spec fn spec_graph(self, i: int) -> RenderGraph {
        self.graphs@[i]
    }

    /// Whether a graph is registered under the label `n`.
    pub open spec fn contains_graph_label(self, n: Seq<char>) -> bool {
        exists|i: int| 0 <= i < self.num_graphs() && self.spec_graph(i).spec_label() == n
    }

    /// The index (and identifier) of the graph labelled `n`.
    pub open spec fn graph_label_index(self, n: Seq<char>) -> int {
        choose|i: int| 0 <= i < self.num_graphs() && self.spec_graph(i).spec_label() == n
    }

    /// Whether `id` identifies a registered graph.
    pub open spec fn spec_contains_id(self, id: RenderGraphId) -> bool {
        id.0 < self.num_graphs()
    }

    #[verifier::type_invariant]
    spec fn wf(self) -> bool {
        &&& forall|i: int|
            0 <= i < self.num_graphs() ==> (#[trigger] self.spec_graph(i)).spec_id()
                == RenderGraphId(i as usize)
        &&& forall|i: int, j: int|
            0 <= i < j < self.num_graphs() ==> self.spec_graph(i).spec_label() != self.spec_graph(
                j,
            ).spec_label()
    }

    proof fn lemma_graph_label_index(self, i: int)
        requires
            self.wf(),
            0 <= i < self.num_graphs(),
        ensures
            self.graph_label_index(self.spec_graph(i).spec_label()) == i,
            self.contains_graph_label(self.spec_graph(i).spec_label()),
    {
        let n = self.spec_graph(i).spec_label();
        assert(0 <= i < self.num_graphs() && self.spec_graph(i).spec_label() == n);
        let j = self.graph_label_index(n);
        if i != j {
            if i < j {
                assert(self.spec_graph(i).spec_label() != self.spec_graph(j).spec_label());
            } else {
                assert(self.spec_graph(j).spec_label() != self.spec_graph(i).spec_label());
            }
        }
    }

    /// An empty registry.
    pub fn new() -> (r: Self)
        ensures
            r.num_graphs() == 0,
    {
        RenderGraphs { graphs: Vec::new() }
    }

    /// The index of the graph labelled `label`, if one is registered.
    fn graph_index_of_label(&self, label: &str) -> (r: Option<usize>)
        ensures
            match r {
                Some(i) => i < self.num_graphs() && self.spec_graph(i as int).spec_label()
                    == label@ && self.graph_label_index(label@) == i && self.contains_graph_label(
                    label@,
                ),
                None => !self.contains_graph_label(label@),
            },
    {
        proof {
            use_type_invariant(&*self);
        }
        let n = self.graphs.len();
        let mut i: usize = 0;
        while i < n
            invariant
                self.wf(),
                n == self.num_graphs(),
                i <= n,
                forall|k: int| 0 <= k < i ==> self.spec_graph(k).spec_label() != label@,
            decreases n - i,
        {
            if self.graphs[i].label.as_str().eq(label) {
                proof {
                    self.lemma_graph_label_index(i as int);
                }
                return Some(i);
            }
            i = i + 1;
        }
        None
    }

    /// Registers `graph`, assigning it a fresh identifier. The insert is
    /// rejected when a graph is already registered under the same label.
    pub fn insert(&mut self, graph: RenderGraph) -> (r: Result<RenderGraphId, RenderGraphError>)
        ensures
            r is Ok <==> !old(self).contains_graph_label(graph.spec_label()),
            match r {
                Ok(id) => {
                    &&& id == RenderGraphId(old(self).num_graphs() as usize)
                    &&& final(self).num_graphs() == old(self).num_graphs() + 1
                    &&& forall|i: int|
                        0 <= i < old(self).num_graphs() ==> final(self).spec_graph(i) == old(
                            self,
                        ).spec_graph(i)
                    &&& {
                        let g = final(self).spec_graph(old(self).num_graphs());
                        &&& g.spec_id() == id
                        &&& g.spec_label() == graph.spec_label()
                        &&& g.num_nodes() == graph.num_nodes()
                        &&& forall|i: int|
                            0 <= i < graph.num_nodes() ==> g.spec_node(i) == graph.spec_node(i)
                        &&& g.spec_edges() == graph.spec_edges()
                        &&& g.spec_sorted() == graph.spec_sorted()
                        &&& g.spec_requirements() == graph.spec_requirements()
                    }
                },
                Err(e) => *final(self) == *old(self) && (e
                    matches RenderGraphError::LabelError(l) && old(self).contains_graph_label(
                    graph.spec_label(),
                ) && l@ == graph.spec_label()),
            },
    {
        proof {
            use_type_invariant(&*self);
            use_type_invariant(&graph);
        }
        if self.graph_index_of_label(graph.label.as_str()).is_some() {
            return Err(RenderGraphError::LabelError(graph.label.clone()));
        }
        let ghost prev = *self;
        let ghost orig = graph;
        let id = RenderGraphId(self.graphs.len());
        let RenderGraph {
            id: _,
            label: glabel,
            nodes: gnodes,
            edges: gedges,
            sorted_nodes: gsorted,
            requirements: greqs,
        } = graph;
        proof {
            assert(gnodes@ == orig.nodes@);
            assert forall|i: int|
                0 <= i < gnodes@.len() implies (#[trigger] gnodes@[i]).id == NodeId(i as usize)
                && gnodes@[i].requirements.spec_compatible_with(greqs) by {
                assert(gnodes@[i] == orig.spec_node(i));
            }
            assert forall|i: int, j: int|
                0 <= i < j < gnodes@.len() implies gnodes@[i].label@ != gnodes@[j].label@ by {
                assert(gnodes@[i] == orig.spec_node(i));
                assert(gnodes@[j] == orig.spec_node(j));
                assert(orig.node_label(i) != orig.node_label(j));
            }
            assert(edges_in_bounds(gedges@, gnodes@.len() as int));
            assert(valid_topological_order(gsorted@, gnodes@.len() as int, gedges@));
        }
        let graph = RenderGraph {
            id,
            label: glabel,
            nodes: gnodes,
            edges: gedges,
            sorted_nodes: gsorted,
            requirements: greqs,
        };
        let ghost updated = graph;
        let mut tmp = RenderGraphs { graphs: Vec::new() };
        core::mem::swap(self, &mut tmp);
        let RenderGraphs { graphs: mut graph_list } = tmp;
        graph_list.push(graph);
        proof {
            assert forall|i: int|
                0 <= i < graph_list@.len() implies (#[trigger] graph_list@[i]).spec_id()
                == RenderGraphId(i as usize) by {
                if i < prev.num_graphs() {
                    assert(graph_list@[i] == prev.spec_graph(i));
                } else {
                    assert(graph_list@[i] == updated);
                }
            }
            assert forall|i: int, j: int|
                0 <= i < j < graph_list@.len() implies graph_list@[i].spec_label()
                != graph_list@[j].spec_label() by {
                if j < prev.num_graphs() {
                    assert(graph_list@[i] == prev.spec_graph(i));
                    assert(graph_list@[j] == prev.spec_graph(j));
                } else {
                    assert(graph_list@[i] == prev.spec_graph(i));
                    assert(graph_list@[j] == updated);
                    if prev.spec_graph(i).spec_label() == updated.spec_label() {
                        assert(prev.contains_graph_label(updated.spec_label()));
                    }
                }
            }
        }
        *self = RenderGraphs { graphs: graph_list };
        Ok(id)
    }

    /// The identifier of the graph registered under `label`.
    pub fn get_id(&self, label: &str) -> (r: Result<RenderGraphId, RenderGraphError>)
        ensures
            match r {
                Ok(id) => self.contains_graph_label(label@) && id == RenderGraphId(
                    self.graph_label_index(label@) as usize,
                ) && id.0 as int == self.graph_label_index(label@),
                Err(e) => !self.contains_graph_label(label@) && (e
                    matches RenderGraphError::LabelError(l) && l@ == label@),
            },
    {
        match self.graph_index_of_label(label) {
            Some(i) => Ok(RenderGraphId(i)),
            None => Err(RenderGraphError::LabelError(label.to_owned())),
        }
    }

    /// The graph registered under the identifier `id`.
    pub fn get_by_id(&self, id: &RenderGraphId) -> (r: Result<&RenderGraph, RenderGraphError>)
        ensures
            match r {
                Ok(g) => self.spec_contains_id(*id) && g == self.spec_graph(id.0 as int)
                    && g.spec_id() == id,
                Err(e) => !self.spec_contains_id(*id) && (e matches RenderGraphError::IdError(i)
                    && i == id),
            },
    {
        proof {
            use_type_invariant(&*self);
        }
        if id.0 < self.graphs.len() {
            proof {
                assert(self.spec_graph(id.0 as int).spec_id() == RenderGraphId(id.0));
            }
            Ok(&self.graphs[id.0])
        } else {
            Err(RenderGraphError::IdError(*id))
        }
    }

    /// The graph registered under `label`.
    pub fn get(&self, label: &str) -> (r: Result<&RenderGraph, RenderGraphError>)
        ensures
            match r {
                Ok(g) => self.contains_graph_label(label@) && g == self.spec_graph(
                    self.graph_label_index(label@),
                ) && g.spec_label() == label@ && g.spec_id() == RenderGraphId(
                    self.graph_label_index(label@) as usize,
                ),
                Err(e) => !self.contains_graph_label(label@) && (e
                    matches RenderGraphError::LabelError(l) && l@ == label@),
            },
    {
        proof {
            use_type_invariant(&*self);
        }
        match self.graph_index_of_label(label) {
            Some(i) => Ok(&self.graphs[i]),
            None => Err(RenderGraphError::LabelError(label.to_owned())),
        }
    }

    /// The node `node_id` of the graph `graph_id`.
    pub fn get_node(&self, graph_id: &RenderGraphId, node_id: &NodeId) -> (r: Result<
        &NodeState,
        RenderGraphError,
    >)
        requires
            self.spec_contains_id(*graph_id) ==> node_id.0 < self.spec_graph(
                graph_id.0 as int,
            ).num_nodes(),
        ensures
            match r {
                Ok(node) => self.spec_contains_id(*graph_id) && node == self.spec_graph(
                    graph_id.0 as int,
                ).spec_node(node_id.0 as int),
                Err(e) => !self.spec_contains_id(*graph_id) && (e
                    matches RenderGraphError::IdError(i) && i == graph_id),
            },
    {
        let graph = match self.get_by_id(graph_id) {
            Ok(g) => g,
            Err(e) => {
                return Err(e);
            }
        };
        Ok(graph.get_node(node_id))
    }

    /// How many graphs are registered.
    pub fn len(&self) -> (n: usize)
        ensures
            n == self.num_graphs(),
    {
        self.graphs.len()
    }
}

impl RenderGraphs {
    /// Records an ordering constraint inside the registered graph labelled
    /// `graph`, leaving every other registered graph untouched. The
    /// constraint is subject to exactly the per-graph rules of
    /// [`RenderGraph::add_edge`]: both node labels must resolve, the edge
    /// must be new, and it must not close a dependency cycle.
    pub fn add_edge(&mut self, graph: &str, before: &str, after: &str) -> (r: Result<
        (),
        RenderGraphError,
    >)
        ensures
            final(self).num_graphs() == old(self).num_graphs(),
            forall|i: int|
                0 <= i < old(self).num_graphs() && i != old(self).graph_label_index(graph@)
                    ==> final(self).spec_graph(i) == old(self).spec_graph(i),
            r is Ok <==> old(self).contains_graph_label(graph@) && ({
                let g0 = old(self).spec_graph(old(self).graph_label_index(graph@));
                &&& g0.contains_node_label(before@)
                &&& g0.contains_node_label(after@)
                &&& !g0.spec_has_edge(
                    NodeId(g0.node_label_index(before@) as usize),
                    NodeId(g0.node_label_index(after@) as usize),
                )
                &&& !has_cycle(
                    g0.num_nodes(),
                    g0.spec_edges().push(
                        Edge {
                            before: NodeId(g0.node_label_index(before@) as usize),
                            after: NodeId(g0.node_label_index(after@) as usize),
                        },
                    ),
                )
            }),
            match r {
                Ok(u) => ({
                    let g0 = old(self).spec_graph(old(self).graph_label_index(graph@));
                    final(self).spec_graph(old(self).graph_label_index(graph@)).edge_added(
                        g0,
                        NodeId(g0.node_label_index(before@) as usize),
                        NodeId(g0.node_label_index(after@) as usize),
                    )
                }),
                Err(e) => (forall|i: int|
                    0 <= i < old(self).num_graphs() ==> final(self).spec_graph(i) == old(
                        self,
                    ).spec_graph(i)) && ({
                    let g0 = old(self).spec_graph(old(self).graph_label_index(graph@));
                    match e {
                        RenderGraphError::LabelError(l) => !old(self).contains_graph_label(graph@)
                            && l@ == graph@,
                        RenderGraphError::NodeLabelError(l) => old(self).contains_graph_label(
                            graph@,
                        ) && ((!g0.contains_node_label(before@) && l@ == before@) || (
                        g0.contains_node_label(before@) && !g0.contains_node_label(after@) && l@
                            == after@)),
                        RenderGraphError::EdgeAlreadyExists { graph: gl, before: bl, after: al } => old(
                            self,
                        ).contains_graph_label(graph@) && g0.spec_has_edge(
                            NodeId(g0.node_label_index(before@) as usize),
                            NodeId(g0.node_label_index(after@) as usize),
                        ) && gl@ == g0.spec_label() && bl@ == before@ && al@ == after@,
                        RenderGraphError::CircularDependency { graph: gl, before: bl, after: al } => old(
                            self,
                        ).contains_graph_label(graph@) && has_cycle(
                            g0.num_nodes(),
                            g0.spec_edges().push(
                                Edge {
                                    before: NodeId(g0.node_label_index(before@) as usize),
                                    after: NodeId(g0.node_label_index(after@) as usize),
                                },
                            ),
                        ) && gl@ == g0.spec_label() && bl@ == before@ && al@ == after@,
                        RenderGraphError::IdError(_) => false,
                        RenderGraphError::NodeIdError(_) => false,
                        RenderGraphError::NodeAddError { .. } => false,
                    }
                }),
            },
    {
        proof {
            use_type_invariant(&*self);
        }
        let gi = match self.graph_index_of_label(graph) {
            Some(i) => i,
            None => {
                return Err(RenderGraphError::LabelError(graph.to_owned()));
            }
        };
        let ghost prev = *self;
        let mut tmp = RenderGraphs { graphs: Vec::new() };
        core::mem::swap(self, &mut tmp);
        let RenderGraphs { graphs: mut graph_list } = tmp;
        let ghost g0 = prev.spec_graph(gi as int);
        let target = &mut graph_list[gi];
        let result = target.add_edge(before, after);
        proof {
            assert forall|i: int|
                0 <= i < graph_list@.len() implies (#[trigger] graph_list@[i]).spec_id()
                == RenderGraphId(i as usize) && (forall|j: int|
                0 <= j < i ==> graph_list@[j].spec_label() != graph_list@[i].spec_label()) by {
                assert(graph_list@[gi as int].spec_id() == g0.spec_id());
                assert(graph_list@[gi as int].spec_label() == g0.spec_label());
                assert forall|j: int| 0 <= j < i implies graph_list@[j].spec_label()
                    != graph_list@[i].spec_label() by {
                    assert(graph_list@[j].spec_label() == prev.spec_graph(j).spec_label());
                    assert(graph_list@[i].spec_label() == prev.spec_graph(i).spec_label());
                }
                assert(graph_list@[i].spec_id() == prev.spec_graph(i).spec_id());
            }
        }
        *self = RenderGraphs { graphs: graph_list };
        match result {
            Ok(u) => Ok(u),
            Err(e) => Err(e),
        }
    }

    /// Adds a node to the registered graph labelled `graph`, under the
    /// per-graph rules of [`RenderGraph::add_recording_node`], leaving every
    /// other registered graph untouched.
    pub fn add_recording_node(
        &mut self,
        graph: &str,
        label: String,
        requirements: SlotRequirements,
    ) -> (r: Result<NodeId, RenderGraphError>)
        ensures
            final(self).num_graphs() == old(self).num_graphs(),
            forall|i: int|
                0 <= i < old(self).num_graphs() && i != old(self).graph_label_index(graph@)
                    ==> final(self).spec_graph(i) == old(self).spec_graph(i),
            r is Ok <==> old(self).contains_graph_label(graph@) && !old(self).spec_graph(
                old(self).graph_label_index(graph@),
            ).contains_node_label(label@) && requirements.spec_compatible_with(
                old(self).spec_graph(old(self).graph_label_index(graph@)).spec_requirements(),
            ),
            match r {
                Ok(id) => final(self).spec_graph(old(self).graph_label_index(graph@)).node_added(
                    old(self).spec_graph(old(self).graph_label_index(graph@)),
                    label@,
                    NodeKind::Record,
                    requirements,
                    id,
                ),
                Err(e) => (forall|i: int|
                    0 <= i < old(self).num_graphs() ==> final(self).spec_graph(i) == old(
                        self,
                    ).spec_graph(i)) && ({
                    let g0 = old(self).spec_graph(old(self).graph_label_index(graph@));
                    match e {
                        RenderGraphError::LabelError(l) => !old(self).contains_graph_label(graph@)
                            && l@ == graph@,
                        RenderGraphError::NodeAddError { graph: gl, node_error } => old(
                            self,
                        ).contains_graph_label(graph@) && gl@ == graph@ && match node_error {
                            NodeAddError::DuplicateNodeLabel(l) => g0.contains_node_label(label@)
                                && l@ == label@,
                            NodeAddError::SlotRequirementError(err) => !g0.contains_node_label(
                                label@,
                            ) && requirements.spec_requirement_error_matches(
                                g0.spec_requirements(),
                                err,
                            ),
                        },
                        RenderGraphError::IdError(_) => false,
                        RenderGraphError::NodeIdError(_) => false,
                        RenderGraphError::NodeLabelError(_) => false,
                        RenderGraphError::EdgeAlreadyExists { .. } => false,
                        RenderGraphError::CircularDependency { .. } => false,
                    }
                }),
            },
    {
        proof {
            use_type_invariant(&*self);
        }
        let gi = match self.graph_index_of_label(graph) {
            Some(i) => i,
            None => {
                return Err(RenderGraphError::LabelError(graph.to_owned()));
            }
        };
        let ghost prev = *self;
        let mut tmp = RenderGraphs { graphs: Vec::new() };
        core::mem::swap(self, &mut tmp);
        let RenderGraphs { graphs: mut graph_list } = tmp;
        let ghost g0 = prev.spec_graph(gi as int);
        let target = &mut graph_list[gi];
        let result = match target.add_recording_node(label, requirements) {
            Ok(id) => Ok(id),
            Err(node_error) => Err(
                RenderGraphError::NodeAddError { graph: graph.to_owned(), node_error },
            ),
        };
        proof {
            assert forall|i: int|
                0 <= i < graph_list@.len() implies (#[trigger] graph_list@[i]).spec_id()
                == RenderGraphId(i as usize) && (forall|j: int|
                0 <= j < i ==> graph_list@[j].spec_label() != graph_list@[i].spec_label()) by {
                assert(graph_list@[gi as int].spec_id() == g0.spec_id());
                assert(graph_list@[gi as int].spec_label() == g0.spec_label());
                assert forall|j: int| 0 <= j < i implies graph_list@[j].spec_label()
                    != graph_list@[i].spec_label() by {
                    assert(graph_list@[j].spec_label() == prev.spec_graph(j).spec_label());
                    assert(graph_list@[i].spec_label() == prev.spec_graph(i).spec_label());
                }
                assert(graph_list@[i].spec_id() == prev.spec_graph(i).spec_id());
            }
        }
        *self = RenderGraphs { graphs: graph_list };
        match result {
            Ok(u) => Ok(u),
            Err(e) => Err(e),
        }
    }

    /// Adds a node to the registered graph labelled `graph`, under the
    /// per-graph rules of [`RenderGraph::add_queueing_node`], leaving every
    /// other registered graph untouched.
    pub fn add_queueing_node(
        &mut self,
        graph: &str,
        label: String,
        requirements: SlotRequirements,
    ) -> (r: Result<NodeId, RenderGraphError>)
        ensures
            final(self).num_graphs() == old(self).num_graphs(),
            forall|i: int|
                0 <= i < old(self).num_graphs() && i != old(self).graph_label_index(graph@)
                    ==> final(self).spec_graph(i) == old(self).spec_graph(i),
            r is Ok <==> old(self).contains_graph_label(graph@) && !old(self).spec_graph(
                old(self).graph_label_index(graph@),
            ).contains_node_label(label@) && requirements.spec_compatible_with(
                old(self).spec_graph(old(self).graph_label_index(graph@)).spec_requirements(),
            ),
            match r {
                Ok(id) => final(self).spec_graph(old(self).graph_label_index(graph@)).node_added(
                    old(self).spec_graph(old(self).graph_label_index(graph@)),
                    label@,
                    NodeKind::Queue,
                    requirements,
                    id,
                ),
                Err(e) => (forall|i: int|
                    0 <= i < old(self).num_graphs() ==> final(self).spec_graph(i) == old(
                        self,
                    ).spec_graph(i)) && ({
                    let g0 = old(self).spec_graph(old(self).graph_label_index(graph@));
                    match e {
                        RenderGraphError::LabelError(l) => !old(self).contains_graph_label(graph@)
                            && l@ == graph@,
                        RenderGraphError::NodeAddError { graph: gl, node_error } => old(
                            self,
                        ).contains_graph_label(graph@) && gl@ == graph@ && match node_error {
                            NodeAddError::DuplicateNodeLabel(l) => g0.contains_node_label(label@)
                                && l@ == label@,
                            NodeAddError::SlotRequirementError(err) => !g0.contains_node_label(
                                label@,
                            ) && requirements.spec_requirement_error_matches(
                                g0.spec_requirements(),
                                err,
                            ),
                        },
                        RenderGraphError::IdError(_) => false,
                        RenderGraphError::NodeIdError(_) => false,
                        RenderGraphError::NodeLabelError(_) => false,
                        RenderGraphError::EdgeAlreadyExists { .. } => false,
                        RenderGraphError::CircularDependency { .. } => false,
                    }
                }),
            },
    {
        proof {
            use_type_invariant(&*self);
        }
        let gi = match self.graph_index_of_label(graph) {
            Some(i) => i,
            None => {
                return Err(RenderGraphError::LabelError(graph.to_owned()));
            }
        };
        let ghost prev = *self;
        let mut tmp = RenderGraphs { graphs: Vec::new() };
        core::mem::swap(self, &mut tmp);
        let RenderGraphs { graphs: mut graph_list } = tmp;
        let ghost g0 = prev.spec_graph(gi as int);
        let target = &mut graph_list[gi];
        let result = match target.add_queueing_node(label, requirements) {
            Ok(id) => Ok(id),
            Err(node_error) => Err(
                RenderGraphError::NodeAddError { graph: graph.to_owned(), node_error },
            ),
        };
        proof {
            assert forall|i: int|
                0 <= i < graph_list@.len() implies (#[trigger] graph_list@[i]).spec_id()
                == RenderGraphId(i as usize) && (forall|j: int|
                0 <= j < i ==> graph_list@[j].spec_label() != graph_list@[i].spec_label()) by {
                assert(graph_list@[gi as int].spec_id() == g0.spec_id());
                assert(graph_list@[gi as int].spec_label() == g0.spec_label());
                assert forall|j: int| 0 <= j < i implies graph_list@[j].spec_label()
                    != graph_list@[i].spec_label() by {
                    assert(graph_list@[j].spec_label() == prev.spec_graph(j).spec_label());
                    assert(graph_list@[i].spec_label() == prev.spec_graph(i).spec_label());
                }
                assert(graph_list@[i].spec_id() == prev.spec_graph(i).spec_id());
            }
        }
        *self = RenderGraphs { graphs: graph_list };
        match result {
            Ok(u) => Ok(u),
            Err(e) => Err(e),
        }
    }

    /// Adds a node that performs no work to the registered graph labelled
    /// `graph`, under the per-graph rules of
    /// [`RenderGraph::add_empty_node`], leaving every other registered
    /// graph untouched.
    pub fn add_empty_node(&mut self, graph: &str, label: String) -> (r: Result<
        NodeId,
        RenderGraphError,
    >)
        ensures
            final(self).num_graphs() == old(self).num_graphs(),
            forall|i: int|
                0 <= i < old(self).num_graphs() && i != old(self).graph_label_index(graph@)
                    ==> final(self).spec_graph(i) == old(self).spec_graph(i),
            r is Ok <==> old(self).contains_graph_label(graph@) && !old(self).spec_graph(
                old(self).graph_label_index(graph@),
            ).contains_node_label(label@),
            match r {
                Ok(id) => final(self).spec_graph(
                    old(self).graph_label_index(graph@),
                ).node_added_empty(
                    old(self).spec_graph(old(self).graph_label_index(graph@)),
                    label@,
                    id,
                ),
                Err(e) => (forall|i: int|
                    0 <= i < old(self).num_graphs() ==> final(self).spec_graph(i) == old(
                        self,
                    ).spec_graph(i)) && ({
                    let g0 = old(self).spec_graph(old(self).graph_label_index(graph@));
                    match e {
                        RenderGraphError::LabelError(l) => !old(self).contains_graph_label(graph@)
                            && l@ == graph@,
                        RenderGraphError::NodeAddError { graph: gl, node_error } => old(
                            self,
                        ).contains_graph_label(graph@) && gl@ == graph@ && (node_error
                            matches NodeAddError::DuplicateNodeLabel(l) && g0.contains_node_label(
                            label@,
                        ) && l@ == label@),
                        RenderGraphError::IdError(_) => false,
                        RenderGraphError::NodeIdError(_) => false,
                        RenderGraphError::NodeLabelError(_) => false,
                        RenderGraphError::EdgeAlreadyExists { .. } => false,
                        RenderGraphError::CircularDependency { .. } => false,
                    }
                }),
            },
    {
        proof {
            use_type_invariant(&*self);
        }
        let gi = match self.graph_index_of_label(graph) {
            Some(i) => i,
            None => {
                return Err(RenderGraphError::LabelError(graph.to_owned()));
            }
        };
        let ghost prev = *self;
        let mut tmp = RenderGraphs { graphs: Vec::new() };
        core::mem::swap(self, &mut tmp);
        let RenderGraphs { graphs: mut graph_list } = tmp;
        let ghost g0 = prev.spec_graph(gi as int);
        let target = &mut graph_list[gi];
        let result = match target.add_empty_node(label) {
            Ok(id) => Ok(id),
            Err(node_error) => Err(
                RenderGraphError::NodeAddError { graph: graph.to_owned(), node_error },
            ),
        };
        proof {
            assert forall|i: int|
                0 <= i < graph_list@.len() implies (#[trigger] graph_list@[i]).spec_id()
                == RenderGraphId(i as usize) && (forall|j: int|
                0 <= j < i ==> graph_list@[j].spec_label() != graph_list@[i].spec_label()) by {
                assert(graph_list@[gi as int].spec_id() == g0.spec_id());
                assert(graph_list@[gi as int].spec_label() == g0.spec_label());
                assert forall|j: int| 0 <= j < i implies graph_list@[j].spec_label()
                    != graph_list@[i].spec_label() by {
                    assert(graph_list@[j].spec_label() == prev.spec_graph(j).spec_label());
                    assert(graph_list@[i].spec_label() == prev.spec_graph(i).spec_label());
                }
                assert(graph_list@[i].spec_id() == prev.spec_graph(i).spec_id());
            }
        }
        *self = RenderGraphs { graphs: graph_list };
        match result {
            Ok(u) => Ok(u),
            Err(e) => Err(e),
        }
    }

    /// Removes an ordering constraint inside the registered graph labelled
    /// `graph`, under the per-graph rules of [`RenderGraph::remove_edge`],
    /// leaving every other registered graph untouched.
    pub fn remove_edge(&mut self, graph: &str, before: &str, after: &str) -> (r: Result<
        (),
        RenderGraphError,
    >)
        ensures
            final(self).num_graphs() == old(self).num_graphs(),
            forall|i: int|
                0 <= i < old(self).num_graphs() && i != old(self).graph_label_index(graph@)
                    ==> final(self).spec_graph(i) == old(self).spec_graph(i),
            r is Ok <==> old(self).contains_graph_label(graph@) && old(self).spec_graph(
                old(self).graph_label_index(graph@),
            ).contains_node_label(before@) && old(self).spec_graph(
                old(self).graph_label_index(graph@),
            ).contains_node_label(after@),
            match r {
                Ok(u) => ({
                    let g0 = old(self).spec_graph(old(self).graph_label_index(graph@));
                    let gnew = final(self).spec_graph(old(self).graph_label_index(graph@));
                    let b = NodeId(g0.node_label_index(before@) as usize);
                    let a = NodeId(g0.node_label_index(after@) as usize);
                    &&& !gnew.spec_has_edge(b, a)
                    &&& forall|x: Edge|
                        x != (Edge { before: b, after: a }) ==> (gnew.spec_contains_edge(x)
                            <==> g0.spec_contains_edge(x))
                    &&& gnew.num_nodes() == g0.num_nodes()
                    &&& forall|i: int|
                        0 <= i < g0.num_nodes() ==> gnew.spec_node(i) == g0.spec_node(i)
                    &&& canonical_topological_order(
                        gnew.spec_sorted(),
                        g0.num_nodes(),
                        gnew.spec_edges(),
                    )
                    &&& gnew.spec_label() == g0.spec_label()
                    &&& gnew.spec_id() == g0.spec_id()
                    &&& gnew.spec_requirements() == g0.spec_requirements()
                }),
                Err(e) => (forall|i: int|
                    0 <= i < old(self).num_graphs() ==> final(self).spec_graph(i) == old(
                        self,
                    ).spec_graph(i)) && ({
                    let g0 = old(self).spec_graph(old(self).graph_label_index(graph@));
                    match e {
                        RenderGraphError::LabelError(l) => !old(self).contains_graph_label(graph@)
                            && l@ == graph@,
                        RenderGraphError::NodeLabelError(l) => old(self).contains_graph_label(
                            graph@,
                        ) && ((!g0.contains_node_label(before@) && l@ == before@) || (
                        g0.contains_node_label(before@) && !g0.contains_node_label(after@) && l@
                            == after@)),
                        RenderGraphError::IdError(_) => false,
                        RenderGraphError::NodeIdError(_) => false,
                        RenderGraphError::NodeAddError { .. } => false,
                        RenderGraphError::EdgeAlreadyExists { .. } => false,
                        RenderGraphError::CircularDependency { .. } => false,
                    }
                }),
            },
    {
        proof {
            use_type_invariant(&*self);
        }
        let gi = match self.graph_index_of_label(graph) {
            Some(i) => i,
            None => {
                return Err(RenderGraphError::LabelError(graph.to_owned()));
            }
        };
        let ghost prev = *self;
        let mut tmp = RenderGraphs { graphs: Vec::new() };
        core::mem::swap(self, &mut tmp);
        let RenderGraphs { graphs: mut graph_list } = tmp;
        let ghost g0 = prev.spec_graph(gi as int);
        let target = &mut graph_list[gi];
        let result = target.remove_edge(before, after);
        proof {
            assert forall|i: int|
                0 <= i < graph_list@.len() implies (#[trigger] graph_list@[i]).spec_id()
                == RenderGraphId(i as usize) && (forall|j: int|
                0 <= j < i ==> graph_list@[j].spec_label() != graph_list@[i].spec_label()) by {
                assert(graph_list@[gi as int].spec_id() == g0.spec_id());
                assert(graph_list@[gi as int].spec_label() == g0.spec_label());
                assert forall|j: int| 0 <= j < i implies graph_list@[j].spec_label()
                    != graph_list@[i].spec_label() by {
                    assert(graph_list@[j].spec_label() == prev.spec_graph(j).spec_label());
                    assert(graph_list@[i].spec_label() == prev.spec_graph(i).spec_label());
                }
                assert(graph_list@[i].spec_id() == prev.spec_graph(i).spec_id());
            }
        }
        *self = RenderGraphs { graphs: graph_list };
        match result {
            Ok(u) => Ok(u),
            Err(e) => Err(e),
        }
    }

    /// Calls the application's per-frame upkeep once for every node of
    /// every registered graph, before any node runs. Only the updater's
    /// own state may change; the registry itself is untouched.
    pub fn update<N: crate::node::Node>(&self, updater: &mut N) {
        proof {
            use_type_invariant(&*self);
        }
        let gcount = self.graphs.len();
        let mut gi: usize = 0;
        while gi < gcount
            invariant
                self.wf(),
                gcount == self.num_graphs(),
                gi <= gcount,
            decreases gcount - gi,
        {
            let g = &self.graphs[gi];
            let ncount = g.nodes.len();
            let mut ni: usize = 0;
            while ni < ncount
                invariant
                    ncount == g.num_nodes(),
                    ni <= ncount,
                decreases ncount - ni,
            {
                let loc = crate::flatten::NodeLocation {
                    graph_id: g.get_id(),
                    node_id: NodeId(ni),
                };
                updater.update(&loc);
                ni = ni + 1;
            }
            gi = gi + 1;
        }
    }
}

impl Default for RenderGraphs {
    /// An empty registry.
    fn default() -> (r: Self)
        ensures
            r.num_graphs() == 0,
    {
        RenderGraphs::new()
    }
}

proof fn lemma_canonical_prefix(n: int, edges: Seq<Edge>, o1: Seq<NodeId>, o2: Seq<NodeId>, k: int)
    requires
        edges_in_bounds(edges, n),
        canonical_topological_order(o1, n, edges),
        canonical_topological_order(o2, n, edges),
        0 <= k <= n,
    ensures
        o1.take(k) == o2.take(k),
    decreases k,
{
    if k > 0 {
        lemma_canonical_prefix(n, edges, o1, o2, k - 1);
        let id1 = o1[k - 1].0 as int;
        let id2 = o2[k - 1].0 as int;
        assert(o1[k - 1] == NodeId(id1 as usize));
        assert(o2[k - 1] == NodeId(id2 as usize));
        assert(!o1.take(k - 1).contains(NodeId(id1 as usize))) by {
            if o1.take(k - 1).contains(NodeId(id1 as usize)) {
                let j = choose|j: int|
                    0 <= j < o1.take(k - 1).len() && #[trigger] o1.take(k - 1)[j] == NodeId(
                        id1 as usize,
                    );
                assert(o1[j] == o1[k - 1]);
                assert(o1[j] != o1[k - 1]);
            }
        }
        assert forall|e: int|
            0 <= e < edges.len() && (#[trigger] edges[e]).after.0 == id1 implies o1.take(
            k - 1,
        ).contains(edges[e].before) by {
            assert((edges[e].before.0 as int) < n);
            assert(o1.contains(NodeId(edges[e].before.0 as usize)));
            let kb = choose|kb: int|
                0 <= kb < o1.len() && o1[kb] == NodeId(edges[e].before.0 as usize);
            assert(o1[kb] == edges[e].before);
            assert(o1[k - 1] == edges[e].after);
            assert(kb < k - 1);
            assert(o1.take(k - 1)[kb] == edges[e].before);
        }
        assert(!o2.take(k - 1).contains(NodeId(id2 as usize))) by {
            if o2.take(k - 1).contains(NodeId(id2 as usize)) {
                let j = choose|j: int|
                    0 <= j < o2.take(k - 1).len() && #[trigger] o2.take(k - 1)[j] == NodeId(
                        id2 as usize,
                    );
                assert(o2[j] == o2[k - 1]);
                assert(o2[j] != o2[k - 1]);
            }
        }
        assert forall|e: int|
            0 <= e < edges.len() && (#[trigger] edges[e]).after.0 == id2 implies o2.take(
            k - 1,
        ).contains(edges[e].before) by {
            assert((edges[e].before.0 as int) < n);
            assert(o2.contains(NodeId(edges[e].before.0 as usize)));
            let kb = choose|kb: int|
                0 <= kb < o2.len() && o2[kb] == NodeId(edges[e].before.0 as usize);
            assert(o2[kb] == edges[e].before);
            assert(o2[k - 1] == edges[e].after);
            assert(kb < k - 1);
            assert(o2.take(k - 1)[kb] == edges[e].before);
        }
        // each order's node at this position is ready and unplaced for the
        // other order too, so each tie-break bounds the other
        assert(!o2.take(k - 1).contains(NodeId(id1 as usize)));
        assert(forall|e: int|
            0 <= e < edges.len() && (#[trigger] edges[e]).after.0 == id1 ==> o2.take(
                k - 1,
            ).contains(edges[e].before));
        assert(o2[k - 1].0 <= id1);
        assert(!o1.take(k - 1).contains(NodeId(id2 as usize)));
        assert(forall|e: int|
            0 <= e < edges.len() && (#[trigger] edges[e]).after.0 == id2 ==> o1.take(
                k - 1,
            ).contains(edges[e].before));
        assert(o1[k - 1].0 <= id2);
        assert(o1[k - 1] == o2[k - 1]);
        assert(o1.take(k) =~= o2.take(k));
    } else {
        assert(o1.take(0) =~= o2.take(0));
    }
}

/// The canonical order is deterministic: for one node count and one edge
/// set there is at most one sequence that is a valid topological order and
/// takes ready nodes in creation order. The cached order of a graph is
/// therefore the same however it was rebuilt.
pub proof fn lemma_canonical_order_unique(
    n: int,
    edges: Seq<Edge>,
    o1: Seq<NodeId>,
    o2: Seq<NodeId>,
)
    requires
        edges_in_bounds(edges, n),
        canonical_topological_order(o1, n, edges),
        canonical_topological_order(o2, n, edges),
    ensures
        o1 == o2,
{
    lemma_canonical_prefix(n, edges, o1, o2, n);
    assert(o1.take(n) =~= o1);
    assert(o2.take(n) =~= o2);
}

/// Adding nodes and then any acyclic set of edges succeeds: whenever some
/// valid topological order could still accommodate a new constraint
/// between two present, unconnected nodes, the success condition of
/// `add_edge` holds — the call returns `Ok` and the graph's cached order
/// lists every node exactly once, consistent with every edge.
pub proof fn lemma_acyclic_edge_is_accepted(
    g: RenderGraph,
    before: Seq<char>,
    after: Seq<char>,
    order: Seq<NodeId>,
)
    requires
        g.contains_node_label(before),
        g.contains_node_label(after),
        !g.spec_has_edge(
            NodeId(g.node_label_index(before) as usize),
            NodeId(g.node_label_index(after) as usize),
        ),
        valid_topological_order(
            order,
            g.num_nodes(),
            g.spec_edges().push(
                Edge {
                    before: NodeId(g.node_label_index(before) as usize),
                    after: NodeId(g.node_label_index(after) as usize),
                },
            ),
        ),
    ensures
        !has_cycle(
            g.num_nodes(),
            g.spec_edges().push(
                Edge {
                    before: NodeId(g.node_label_index(before) as usize),
                    after: NodeId(g.node_label_index(after) as usize),
                },
            ),
        ),
{
    lemma_order_excludes_cycle(
        g.num_nodes(),
        g.spec_edges().push(
            Edge {
                before: NodeId(g.node_label_index(before) as usize),
                after: NodeId(g.node_label_index(after) as usize),
            },
        ),
        order,
    );
}

/// A topological order rules out every dependency cycle: in a set of nodes
/// that all wait on one another, the member that the order places first
/// among them would stand before the member it waits on. Together with the
/// contracts of the graph's mutation methods, this says that an edge
/// insertion is rejected exactly when no valid order would exist.
pub proof fn lemma_order_excludes_cycle(n: int, edges: Seq<Edge>, order: Seq<NodeId>)
    requires
        valid_topological_order(order, n, edges),
    ensures
        !has_cycle(n, edges),
{
    if has_cycle(n, edges) {
        let s = choose|s: Set<int>| #[trigger] blocked_set(n, edges, s);
        let id0 = s.choose();
        assert(s.contains(id0));
        assert(order.contains(NodeId(id0 as usize)));
        let k0 = choose|k: int| 0 <= k < order.len() && order[k] == NodeId(id0 as usize);
        lemma_blocked_descent(n, edges, s, order, k0);
        assert(!s.contains(order[k0].0 as int));
    }
}

} // verus!
