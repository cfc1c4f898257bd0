//! Recovery graphs: the recovery paths from a guarded point, as a directed
//! acyclic graph over strategy nodes.
//!
//! Acyclicity holds by construction: an edge is only accepted when it
//! points strictly forward in node order, so every walk terminates. Each
//! edge carries a payload (its kind, guard and weight), which the ranker
//! may replace to reorder the paths.
use vstd::prelude::*;

verus! {

/// A node in a recovery graph: one executable strategy. The guard `G` is
/// a predicate over the recovered result, called by the engine.
pub struct RecoveryNode<G> {
    /// A name for this node (e.g. "nominal", "retry", "fallback").
    pub name: String,
    /// The guard over the recovered result; `None` accepts every result.
    pub guard: Option<G>,
    /// The cost of this strategy (higher is more expensive).
    pub cost: u64,
    /// Whether this is the nominal, fault-free path.
    pub is_nominal: bool,
}

/// Stands for a node without a guard.
#[derive(Debug, Clone, Copy, PartialEq, Eq)]
pub struct NoGuard;

impl RecoveryNode<NoGuard> {
    /// A node named `name`, without guard, of zero cost, off the nominal
    /// path.
    pub fn new(name: &str) -> (n: Self)
        ensures
            n.name@ == name@,
            n.guard is None,
            n.cost == 0,
            !n.is_nominal,
    {
        RecoveryNode { name: String::from_str(name), guard: None, cost: 0, is_nominal: false }
    }
}

/// An edge from node `source` to node `target`, with its payload.
pub struct GraphEdge<E> {
    pub source: usize,
    pub target: usize,
    pub payload: E,
}

/// A recovery graph over nodes with guards `G` and edges with payloads `E`.
pub struct RecoveryGraph<G, E> {
    nodes: Vec<RecoveryNode<G>>,
    edges: Vec<GraphEdge<E>>,
    /// For each node, its outgoing edges by index, in insertion order.
    adjacency: Vec<Vec<usize>>,
}

/// The indices among the first `k` edges whose source is `node`, in order.
pub open spec fn out_edges(ends: Seq<(usize, usize)>, node: int, k: int) -> Seq<usize>
    decreases k,
{
    if k <= 0 || k > ends.len() {
        Seq::empty()
    } else if ends[k - 1].0 == node {
        out_edges(ends, node, k - 1).push((k - 1) as usize)
    } else {
        out_edges(ends, node, k - 1)
    }
}

/// The edges' end points grow by an edge without changing the indices of
/// the earlier edges.
pub proof fn lemma_out_edges_push(ends: Seq<(usize, usize)>, x: (usize, usize), node: int, k: int)
    requires
        0 <= k <= ends.len(),
    ensures
        out_edges(ends.push(x), node, k) == out_edges(ends, node, k),
    decreases k,
{
    if k > 0 {
        lemma_out_edges_push(ends, x, node, k - 1);
        assert(ends.push(x)[k - 1] == ends[k - 1]);
    }
}

/// A node that is no edge's source has no outgoing edges.
pub proof fn lemma_out_edges_none(ends: Seq<(usize, usize)>, node: int, k: int)
    requires
        0 <= k <= ends.len(),
        forall|e: int| 0 <= e < ends.len() ==> ends[e].0 != node,
    ensures
        out_edges(ends, node, k) == Seq::<usize>::empty(),
    decreases k,
{
    if k > 0 {
        lemma_out_edges_none(ends, node, k - 1);
    }
}

/// The edges of `out_edges` are edges from `node`, in increasing order.
pub proof fn lemma_out_edges_shape(ends: Seq<(usize, usize)>, node: int, k: int)
    requires
        0 <= k <= ends.len(),
        ends.len() <= usize::MAX,
    ensures
        forall|i: int|
            0 <= i < out_edges(ends, node, k).len() ==> {
                let e = #[trigger] out_edges(ends, node, k)[i];
                &&& e < k
                &&& ends[e as int].0 == node
            },
        forall|i: int, j: int|
            0 <= i < j < out_edges(ends, node, k).len() ==> out_edges(ends, node, k)[i]
                < out_edges(ends, node, k)[j],
    decreases k,
{
    if k > 0 {
        lemma_out_edges_shape(ends, node, k - 1);
        let prev = out_edges(ends, node, k - 1);
        let cur = out_edges(ends, node, k);
        if ends[k - 1].0 == node {
            assert(cur == prev.push((k - 1) as usize));
            assert forall|i: int| 0 <= i < prev.len() implies #[trigger] cur[i] == prev[i] by {}
            assert(cur[prev.len() as int] == k - 1);
        } else {
            assert(cur == prev);
        }
    }
}

impl<G, E> RecoveryGraph<G, E> {
    /// The end points of the edges, in insertion order.
    pub closed spec fn ends(&self) -> Seq<(usize, usize)> {
        self.edges@.map_values(|e: GraphEdge<E>| (e.source, e.target))
    }

    /// The number of nodes.
    pub closed spec fn node_total(&self) -> nat {
        self.nodes@.len()
    }

    /// The payloads of the edges, in insertion order.
    pub closed spec fn payloads(&self) -> Seq<E> {
        self.edges@.map_values(|e: GraphEdge<E>| e.payload)
    }

    /// Every edge points forward between existing nodes, and the adjacency
    /// lists hold exactly each node's outgoing edges in order.
    pub closed spec fn wf(&self) -> bool {
        &&& self.adjacency@.len() == self.nodes@.len()
        &&& forall|e: int|
            0 <= e < self.edges@.len() ==> (#[trigger] self.edges@[e]).source < self.edges@[e].target
                && self.edges@[e].target < self.nodes@.len()
        &&& forall|n: int|
            0 <= n < self.adjacency@.len() ==> (#[trigger] self.adjacency@[n])@ == out_edges(
                self.ends(),
                n,
                self.edges@.len() as int,
            )
    }

    /// An empty graph.
    pub fn new() -> (g: Self)
        ensures
            g.wf(),
            g.node_total() == 0,
            g.ends().len() == 0,
    {
        RecoveryGraph { nodes: Vec::new(), edges: Vec::new(), adjacency: Vec::new() }
    }

    /// Adds a node and returns its index.
    pub fn add_node(&mut self, node: RecoveryNode<G>) -> (index: usize)
        requires
            old(self).wf(),
            old(self).node_total() < usize::MAX,
        ensures
            final(self).wf(),
            index == old(self).node_total(),
            final(self).node_total() == old(self).node_total() + 1,
            final(self).ends() == old(self).ends(),
            final(self).payloads() == old(self).payloads(),
    {
        let index = self.nodes.len();
        self.nodes.push(node);
        self.adjacency.push(Vec::new());
        proof {
            let ends = self.ends();
            assert forall|e: int| 0 <= e < ends.len() implies ends[e].0 != index by {
                assert(self.edges@[e].source < self.edges@[e].target);
            }
            lemma_out_edges_none(ends, index as int, ends.len() as int);
            assert forall|n: int| 0 <= n < self.adjacency@.len() implies (
            #[trigger] self.adjacency@[n])@ == out_edges(
                self.ends(),
                n,
                self.edges@.len() as int,
            ) by {
                if n < index {
                    assert(self.adjacency@[n] == old(self).adjacency@[n]);
                }
            }
        }
        index
    }

    /// Adds an edge from `source` to `target`. Returns `false`, changing
    /// nothing, when a node is missing or the edge would not point strictly
    /// forward (a self or backward edge could close a cycle).
    pub fn add_edge(&mut self, source: usize, target: usize, payload: E) -> (added: bool)
        requires
            old(self).wf(),
        ensures
            final(self).wf(),
            added == (source < target && target < old(self).node_total()),
            final(self).node_total() == old(self).node_total(),
            added ==> final(self).ends() == old(self).ends().push((source, target)),
            added ==> final(self).payloads() == old(self).payloads().push(payload),
            !added ==> final(self).ends() == old(self).ends() && final(self).payloads() == old(
                self,
            ).payloads(),
    {
        if source >= self.nodes.len() || target >= self.nodes.len() {
            return false;
        }
        if target <= source {
            return false;
        }
        let ghost old_ends = self.ends();
        let e = self.edges.len();
        self.edges.push(GraphEdge { source, target, payload });
        self.adjacency[source].push(e);
        proof {
            assert(self.ends() =~= old_ends.push((source, target)));
            assert(self.payloads() =~= old(self).payloads().push(payload));
            assert forall|n: int| 0 <= n < self.adjacency@.len() implies (
            #[trigger] self.adjacency@[n])@ == out_edges(
                self.ends(),
                n,
                self.edges@.len() as int,
            ) by {
                lemma_out_edges_push(old_ends, (source, target), n, e as int);
                assert(old(self).adjacency@[n]@ == out_edges(old_ends, n, e as int));
                if n != source {
                    assert(self.adjacency@[n] == old(self).adjacency@[n]);
                }
            }
            assert forall|k: int| 0 <= k < self.edges@.len() implies (
            #[trigger] self.edges@[k]).source < self.edges@[k].target && self.edges@[k].target
                < self.nodes@.len() by {
                if k < e {
                    assert(self.edges@[k] == old(self).edges@[k]);
                }
            }
        }
        true
    }

    /// The outgoing edges of `node`, by index, in insertion order; none for
    /// a node that does not exist.
    pub fn outgoing_edges(&self, node: usize) -> (r: Vec<usize>)
        requires
            self.wf(),
        ensures
            node < self.node_total() ==> r@ == out_edges(self.ends(), node as int, self.ends().len() as int),
            node >= self.node_total() ==> r@.len() == 0,
    {
        if node < self.adjacency.len() {
            let list = self.adjacency[node].clone();
            assert(list@ =~= self.adjacency@[node as int]@);
            list
        } else {
            Vec::new()
        }
    }

    /// The nodes reachable from `node` in one hop, in edge insertion order.
    pub fn successors(&self, node: usize) -> (r: Vec<usize>)
        requires
            self.wf(),
        ensures
            node < self.node_total() ==> r@ == out_edges(
                self.ends(),
                node as int,
                self.ends().len() as int,
            ).map_values(|e: usize| self.ends()[e as int].1),
            node >= self.node_total() ==> r@.len() == 0,
            forall|i: int| 0 <= i < r@.len() ==> node < #[trigger] r@[i] && r@[i] < self.node_total(),
    {
        let out = self.outgoing_edges(node);
        let ghost oe = out@;
        proof {
            if node < self.node_total() {
                assert(self.ends().len() == self.edges.len());
                lemma_out_edges_shape(self.ends(), node as int, self.ends().len() as int);
            }
        }
        let mut r: Vec<usize> = Vec::new();
        let mut i: usize = 0;
        while i < out.len()
            invariant
                0 <= i <= out@.len(),
                self.wf(),
                out@ == oe,
                node < self.node_total() ==> oe == out_edges(
                    self.ends(),
                    node as int,
                    self.ends().len() as int,
                ),
                node >= self.node_total() ==> oe.len() == 0,
                forall|j: int|
                    0 <= j < oe.len() ==> {
                        let e = #[trigger] oe[j];
                        &&& e < self.ends().len()
                        &&& self.ends()[e as int].0 == node
                    },
                r@ == oe.take(i as int).map_values(|e: usize| self.ends()[e as int].1),
                forall|j: int| 0 <= j < r@.len() ==> node < #[trigger] r@[j] && r@[j] < self.node_total(),
            decreases out@.len() - i,
        {
            let e = out[i];
            let target = self.edges[e].target;
            proof {
                assert(self.ends()[e as int] == (self.edges@[e as int].source, self.edges@[e as int].target));
            }
            r.push(target);
            proof {
                assert(oe.take(i + 1).drop_last() =~= oe.take(i as int));
                assert(r@ =~= oe.take(i + 1).map_values(|e: usize| self.ends()[e as int].1));
            }
            i = i + 1;
        }
        proof {
            assert(oe.take(i as int) =~= oe);
        }
        r
    }

    /// Replaces the payload of edge `edge_index`, as the ranker does when
    /// it reweighs a recovery path; `false`, changing nothing, when there is
    /// no such edge.
    pub fn set_edge_payload(&mut self, edge_index: usize, payload: E) -> (updated: bool)
        requires
            old(self).wf(),
        ensures
            final(self).wf(),
            updated == (edge_index < old(self).ends().len()),
            final(self).ends() == old(self).ends(),
            final(self).node_total() == old(self).node_total(),
            updated ==> final(self).payloads() == old(self).payloads().update(edge_index as int, payload),
            !updated ==> final(self).payloads() == old(self).payloads(),
    {
        if edge_index < self.edges.len() {
            let source = self.edges[edge_index].source;
            let target = self.edges[edge_index].target;
            self.edges.set(edge_index, GraphEdge { source, target, payload });
            proof {
                assert(self.ends() =~= old(self).ends());
                assert(self.payloads() =~= old(self).payloads().update(edge_index as int, payload));
                assert forall|k: int| 0 <= k < self.edges@.len() implies (
                #[trigger] self.edges@[k]).source < self.edges@[k].target && self.edges@[k].target
                    < self.nodes@.len() by {
                    if k != edge_index {
                        assert(self.edges@[k] == old(self).edges@[k]);
                    }
                }
            }
            true
        } else {
            false
        }
    }

    /// The payload of edge `edge_index`, if there is such an edge.
    pub fn edge_payload(&self, edge_index: usize) -> (r: Option<&E>)
        ensures
            edge_index < self.ends().len() ==> r == Some(&self.payloads()[edge_index as int]),
            edge_index >= self.ends().len() ==> r is None,
    {
        if edge_index < self.edges.len() {
            Some(&self.edges[edge_index].payload)
        } else {
            None
        }
    }

    /// The number of nodes.
    pub fn node_count(&self) -> (n: usize)
        ensures
            n == self.node_total(),
    {
        self.nodes.len()
    }

    /// The number of edges.
    pub fn edge_count(&self) -> (n: usize)
        ensures
            n == self.ends().len(),
    {
        self.edges.len()
    }
}

/// A path of the graph: consecutive nodes joined by edges.
pub open spec fn is_path(ends: Seq<(usize, usize)>, path: Seq<int>) -> bool {
    forall|i: int|
        0 <= i < path.len() - 1 ==> exists|e: int|
            0 <= e < ends.len() && ends[e].0 == path[i] && ends[e].1 == #[trigger] path[i + 1]
}

/// A well-formed recovery graph is acyclic: along every path the node
/// indices strictly increase, so no path returns to a node and every walk
/// terminates.
pub proof fn law_recovery_graph_is_acyclic<G, E>(g: RecoveryGraph<G, E>, path: Seq<int>)
    requires
        g.wf(),
        is_path(g.ends(), path),
    ensures
        forall|i: int, j: int| 0 <= i < j < path.len() ==> path[i] < path[j],
{
    assert forall|i: int| 0 <= i < path.len() - 1 implies path[i] < #[trigger] path[i + 1] by {
        let e = choose|e: int|
            0 <= e < g.ends().len() && g.ends()[e].0 == path[i] && g.ends()[e].1 == path[i + 1];
        lemma_edge_forward(g, e);
    }
    assert forall|i: int, j: int| 0 <= i < j < path.len() implies path[i] < path[j] by {
        lemma_increasing(path, i, j);
    }
}

/// Every edge of a well-formed graph points forward.
pub proof fn lemma_edge_forward<G, E>(g: RecoveryGraph<G, E>, e: int)
    requires
        g.wf(),
        0 <= e < g.ends().len(),
    ensures
        g.ends()[e].0 < g.ends()[e].1,
        g.ends()[e].1 < g.node_total(),
{
    assert(g.edges@[e].source < g.edges@[e].target);
}

/// A sequence that increases step by step increases.
pub proof fn lemma_increasing(path: Seq<int>, i: int, j: int)
    requires
        0 <= i < j < path.len(),
        forall|k: int| 0 <= k < path.len() - 1 ==> path[k] < #[trigger] path[k + 1],
    ensures
        path[i] < path[j],
    decreases j - i,
{
    let k = j - 1;
    assert(path[k] < path[k + 1]);
    if k > i {
        lemma_increasing(path, i, j - 1);
    }
}

} // verus!
