//! The multigraph container: parallel arrays of node and edge weights plus
//! per-node adjacency lists in both directions.

use crate::error::GraphError;
use crate::index_type::{EdgeIndex, IndexType, NodeIndex};
use crate::weight::WeightType;
use vstd::prelude::*;

verus! {

/// The positions an adjacency entry denotes: neighbour node and edge id.
pub open spec fn pview<NodeIx: IndexType, EdgeIx: IndexType>(
    p: (NodeIndex<NodeIx>, EdgeIndex<EdgeIx>),
) -> (usize, usize) {
    (p.0.idx(), p.1.idx())
}

/// An adjacency list as the sequence of positions its entries denote.
pub open spec fn adj_view<NodeIx: IndexType, EdgeIx: IndexType>(
    s: Seq<(NodeIndex<NodeIx>, EdgeIndex<EdgeIx>)>,
) -> Seq<(usize, usize)> {
    s.map_values(|p: (NodeIndex<NodeIx>, EdgeIndex<EdgeIx>)| pview(p))
}

/// The entry at position `j` of outgoing list `u` names an edge below `m`
/// whose recorded endpoints are `u` and that entry's target.
spec fn out_entry_ok<NodeIx: IndexType, EdgeIx: IndexType>(
    oe: Seq<Vec<(NodeIndex<NodeIx>, EdgeIndex<EdgeIx>)>>,
    eps: Seq<(usize, usize)>,
    m: int,
    u: int,
    j: int,
) -> bool {
    let p = pview(oe[u]@[j]);
    &&& (p.1 as int) < m
    &&& eps[p.1 as int].0 as int == u
    &&& eps[p.1 as int].1 == p.0
}

/// The entry at position `j` of incoming list `v` names an edge below `m`
/// whose recorded endpoints are that entry's source and `v`.
spec fn in_entry_ok<NodeIx: IndexType, EdgeIx: IndexType>(
    ie: Seq<Vec<(NodeIndex<NodeIx>, EdgeIndex<EdgeIx>)>>,
    eps: Seq<(usize, usize)>,
    m: int,
    v: int,
    j: int,
) -> bool {
    let p = pview(ie[v]@[j]);
    &&& (p.1 as int) < m
    &&& eps[p.1 as int].0 == p.0
    &&& eps[p.1 as int].1 as int == v
}

/// Edge `k` is registered in its source's outgoing list and in its target's
/// incoming list.
spec fn covered_ok<NodeIx: IndexType, EdgeIx: IndexType>(
    oe: Seq<Vec<(NodeIndex<NodeIx>, EdgeIndex<EdgeIx>)>>,
    ie: Seq<Vec<(NodeIndex<NodeIx>, EdgeIndex<EdgeIx>)>>,
    eps: Seq<(usize, usize)>,
    k: int,
) -> bool {
    let e = eps[k];
    &&& adj_view(oe[e.0 as int]@).contains((e.1, k as usize))
    &&& adj_view(ie[e.1 as int]@).contains((e.0, k as usize))
}

/// Positions `j1` and `j2` of outgoing list `u` carry distinct edge ids.
spec fn out_distinct_ok<NodeIx: IndexType, EdgeIx: IndexType>(
    oe: Seq<Vec<(NodeIndex<NodeIx>, EdgeIndex<EdgeIx>)>>,
    u: int,
    j1: int,
    j2: int,
) -> bool {
    pview(oe[u]@[j1]).1 != pview(oe[u]@[j2]).1
}

/// Positions `j1` and `j2` of incoming list `v` carry distinct edge ids.
spec fn in_distinct_ok<NodeIx: IndexType, EdgeIx: IndexType>(
    ie: Seq<Vec<(NodeIndex<NodeIx>, EdgeIndex<EdgeIx>)>>,
    v: int,
    j1: int,
    j2: int,
) -> bool {
    pview(ie[v]@[j1]).1 != pview(ie[v]@[j2]).1
}

/// The adjacency structure is consistent: endpoints stay below `n`, entries
/// point back to their edge's record, every edge is covered in both
/// directions, and no list names an edge twice.
spec fn links_wf<NodeIx: IndexType, EdgeIx: IndexType>(
    oe: Seq<Vec<(NodeIndex<NodeIx>, EdgeIndex<EdgeIx>)>>,
    ie: Seq<Vec<(NodeIndex<NodeIx>, EdgeIndex<EdgeIx>)>>,
    eps: Seq<(usize, usize)>,
    n: int,
    m: int,
) -> bool {
    &&& forall|k: int| 0 <= k < m ==> (#[trigger] eps[k]).0 < n && eps[k].1 < n
    &&& forall|u: int, j: int|
        0 <= u < n && 0 <= j < oe[u]@.len() ==> #[trigger] out_entry_ok(oe, eps, m, u, j)
    &&& forall|v: int, j: int|
        0 <= v < n && 0 <= j < ie[v]@.len() ==> #[trigger] in_entry_ok(ie, eps, m, v, j)
    &&& forall|k: int| 0 <= k < m ==> #[trigger] covered_ok(oe, ie, eps, k)
    &&& forall|u: int, j1: int, j2: int|
        0 <= u < n && 0 <= j1 < j2 < oe[u]@.len() ==> #[trigger] out_distinct_ok(oe, u, j1, j2)
    &&& forall|v: int, j1: int, j2: int|
        0 <= v < n && 0 <= j1 < j2 < ie[v]@.len() ==> #[trigger] in_distinct_ok(ie, v, j1, j2)
}

/// A weighted, multi-edged, directed graph. Edges are represented by a unique
/// index `EdgeIx`, nodes by their `NodeIx`.
pub struct MDGraph<NodeWt, EdgeWt, NodeIx, EdgeIx> where
    NodeWt: WeightType,
    EdgeWt: WeightType,
    NodeIx: IndexType,
    EdgeIx: IndexType,
{
    node_weights: Vec<NodeWt>,
    edge_weights: Vec<EdgeWt>,
    // in_edges[v] contains all nodes u with (u, v) in E.
    in_edges: Vec<Vec<(NodeIndex<NodeIx>, EdgeIndex<EdgeIx>)>>,
    // out_edges[u] contains all nodes v with (u, v) in E.
    out_edges: Vec<Vec<(NodeIndex<NodeIx>, EdgeIndex<EdgeIx>)>>,
    // The endpoints (source, target) of every edge, in creation order.
    endpoints: Ghost<Seq<(usize, usize)>>,
}

impl<NodeWt, EdgeWt, NodeIx, EdgeIx> MDGraph<NodeWt, EdgeWt, NodeIx, EdgeIx> where
    NodeWt: WeightType,
    EdgeWt: WeightType,
    NodeIx: IndexType,
    EdgeIx: IndexType,
{
    /// How many nodes the graph holds.
    pub open spec fn node_cnt(self) -> int {
        self.nodes().len() as int
    }

    /// How many edges the graph holds.
    pub open spec fn edge_cnt(self) -> int {
        self.edges().len() as int
    }

    /// The node weights, indexed by node identifier.
    pub closed spec fn nodes(self) -> Seq<NodeWt> {
        self.node_weights@
    }

    /// The edge weights, indexed by edge identifier.
    pub closed spec fn edges(self) -> Seq<EdgeWt> {
        self.edge_weights@
    }

    /// The endpoints (source, target) of every edge, indexed by edge
    /// identifier.
    pub closed spec fn eps(self) -> Seq<(usize, usize)> {
        self.endpoints@
    }

    /// The outgoing adjacency of node `u`: (target, edge id) in insertion
    /// order.
    pub closed spec fn outs(self, u: int) -> Seq<(usize, usize)> {
        adj_view(self.out_edges@[u]@)
    }

    /// The incoming adjacency of node `v`: (source, edge id) in insertion
    /// order.
    pub closed spec fn ins(self, v: int) -> Seq<(usize, usize)> {
        adj_view(self.in_edges@[v]@)
    }

    /// The entry at position `j` of `u`'s outgoing list names an edge whose
    /// recorded endpoints are `u` and that entry's target.
    pub closed spec fn out_entry_wf(self, u: int, j: int) -> bool {
        out_entry_ok(self.out_edges@, self.endpoints@, self.edge_weights@.len() as int, u, j)
    }

    /// The entry at position `j` of `v`'s incoming list names an edge whose
    /// recorded endpoints are that entry's source and `v`.
    pub closed spec fn in_entry_wf(self, v: int, j: int) -> bool {
        in_entry_ok(self.in_edges@, self.endpoints@, self.edge_weights@.len() as int, v, j)
    }

    /// Edge `k` is registered once in its source's outgoing list and once in
    /// its target's incoming list.
    pub closed spec fn edge_covered(self, k: int) -> bool {
        covered_ok(self.out_edges@, self.in_edges@, self.endpoints@, k)
    }

    /// The container's invariant: parallel arrays agree in length, every
    /// recorded endpoint is a valid node, every adjacency entry points back
    /// to its edge's record, every edge appears in both lists of its
    /// endpoints, and no list names an edge twice.
    pub closed spec fn wf(self) -> bool {
        let n = self.node_weights@.len() as int;
        let m = self.edge_weights@.len() as int;
        &&& self.in_edges@.len() == n
        &&& self.out_edges@.len() == n
        &&& self.endpoints@.len() == m
        &&& links_wf(self.out_edges@, self.in_edges@, self.endpoints@, n, m)
    }

    /// Some entry of `u`'s outgoing list targets `t`.
    pub open spec fn has_out_spec(self, u: int, t: usize) -> bool {
        exists|j: int| 0 <= j < self.outs(u).len() && (#[trigger] self.outs(u)[j]).0 == t
    }

    /// Some entry of `v`'s incoming list comes from `s`.
    pub open spec fn has_in_spec(self, v: int, s: usize) -> bool {
        exists|j: int| 0 <= j < self.ins(v).len() && (#[trigger] self.ins(v)[j]).0 == s
    }

    /// How one node-insertion changes the graph: `idx` is the previous node
    /// count, the weight array grows by `w`, the new node's adjacency is
    /// empty, and nothing else moves.
    pub open spec fn node_added(pre: Self, post: Self, w: NodeWt, idx: NodeIndex<NodeIx>) -> bool {
        &&& idx.idx() as int == pre.node_cnt()
        &&& post.node_cnt() == pre.node_cnt() + 1
        &&& post.nodes() == pre.nodes().push(w)
        &&& post.edge_cnt() == pre.edge_cnt()
        &&& post.edges() == pre.edges()
        &&& post.eps() == pre.eps()
        &&& post.outs(pre.node_cnt()) == Seq::<(usize, usize)>::empty()
        &&& post.ins(pre.node_cnt()) == Seq::<(usize, usize)>::empty()
        &&& forall|u: int| 0 <= u < pre.node_cnt() ==> #[trigger] post.outs(u) == pre.outs(u)
        &&& forall|u: int| 0 <= u < pre.node_cnt() ==> #[trigger] post.ins(u) == pre.ins(u)
    }

    /// How one edge-insertion changes the graph: `k` is the previous edge
    /// count, `(v, k)` is appended to `u`'s outgoing list and `(u, k)` to
    /// `v`'s incoming list, and nothing else moves.
    pub open spec fn edge_added(
        pre: Self,
        post: Self,
        u: usize,
        v: usize,
        w: EdgeWt,
        k: EdgeIndex<EdgeIx>,
    ) -> bool {
        &&& k.idx() as int == pre.edge_cnt()
        &&& post.edge_cnt() == pre.edge_cnt() + 1
        &&& post.edges() == pre.edges().push(w)
        &&& post.eps() == pre.eps().push((u, v))
        &&& post.node_cnt() == pre.node_cnt()
        &&& post.nodes() == pre.nodes()
        &&& post.outs(u as int) == pre.outs(u as int).push((v, k.idx()))
        &&& post.ins(v as int) == pre.ins(v as int).push((u, k.idx()))
        &&& forall|x: int|
            0 <= x < pre.node_cnt() && x != u as int ==> #[trigger] post.outs(x) == pre.outs(x)
        &&& forall|x: int|
            0 <= x < pre.node_cnt() && x != v as int ==> #[trigger] post.ins(x) == pre.ins(x)
    }

    /// An empty container: 0 nodes, 0 edges.
    pub fn new() -> (r: Self)
        ensures
            r.wf(),
            r.node_cnt() == 0,
            r.edge_cnt() == 0,
            r.nodes() == Seq::<NodeWt>::empty(),
            r.edges() == Seq::<EdgeWt>::empty(),
            r.eps() == Seq::<(usize, usize)>::empty(),
    {
        MDGraph {
            node_weights: Vec::new(),
            edge_weights: Vec::new(),
            in_edges: Vec::new(),
            out_edges: Vec::new(),
            endpoints: Ghost(Seq::empty()),
        }
    }

    /// Capacity hint for coming node insertions; observable state is
    /// untouched.
    pub fn reserve_nodes(&mut self, additional: usize)
        ensures
            final(self).nodes() == old(self).nodes(),
            final(self).edges() == old(self).edges(),
            final(self).eps() == old(self).eps(),
            final(self).node_cnt() == old(self).node_cnt(),
            final(self).edge_cnt() == old(self).edge_cnt(),
            forall|u: int| #[trigger] final(self).outs(u) == old(self).outs(u),
            forall|v: int| #[trigger] final(self).ins(v) == old(self).ins(v),
            old(self).wf() ==> final(self).wf(),
    {
        self.node_weights.reserve(additional);
        self.in_edges.reserve(additional);
        self.out_edges.reserve(additional);
    }

    /// Capacity hint for coming edge insertions; observable state is
    /// untouched.
    pub fn reserve_edges(&mut self, additional: usize)
        ensures
            final(self).nodes() == old(self).nodes(),
            final(self).edges() == old(self).edges(),
            final(self).eps() == old(self).eps(),
            final(self).node_cnt() == old(self).node_cnt(),
            final(self).edge_cnt() == old(self).edge_cnt(),
            forall|u: int| #[trigger] final(self).outs(u) == old(self).outs(u),
            forall|v: int| #[trigger] final(self).ins(v) == old(self).ins(v),
            old(self).wf() ==> final(self).wf(),
    {
        self.edge_weights.reserve(additional);
    }

    /// Appends a node carrying `w`. The new identifier equals the previous
    /// node count; it must not exceed the index width's maximum.
    pub fn add_node_with_weight(&mut self, weight: NodeWt) -> (r: Result<
        NodeIndex<NodeIx>,
        GraphError,
    >)
        requires
            old(self).wf(),
        ensures
            final(self).wf(),
            old(self).node_cnt() <= NodeIx::max_spec() ==> (r matches Ok(idx)
                && Self::node_added(*old(self), *final(self), weight, idx)),
            old(self).node_cnt() > NodeIx::max_spec() ==> r == Err::<NodeIndex<NodeIx>,
            GraphError>(GraphError::CapacityExceeded) && *final(self) == *old(self),
    {
        let cnt = self.node_weights.len();
        if cnt > NodeIx::max().index() {
            return Err(GraphError::CapacityExceeded);
        }
        let idx = NodeIndex::<NodeIx>::new(cnt);
        self.node_weights.push(weight);
        self.in_edges.push(Vec::new());
        self.out_edges.push(Vec::new());
        proof {
            self.lemma_wf_after_add_node(*old(self));
        }
        Ok(idx)
    }

    proof fn lemma_wf_after_add_node(self, pre: Self)
        requires
            pre.wf(),
            self.node_weights@ == pre.node_weights@.push(self.node_weights@.last()),
            self.edge_weights@ == pre.edge_weights@,
            self.endpoints@ == pre.endpoints@,
            self.in_edges@.len() == pre.in_edges@.len() + 1,
            self.out_edges@.len() == pre.out_edges@.len() + 1,
            forall|u: int|
                0 <= u < pre.in_edges@.len() ==> #[trigger] self.in_edges@[u] == pre.in_edges@[u],
            forall|u: int|
                0 <= u < pre.out_edges@.len() ==> #[trigger] self.out_edges@[u]
                    == pre.out_edges@[u],
            self.in_edges@.last()@ == Seq::<(NodeIndex<NodeIx>, EdgeIndex<EdgeIx>)>::empty(),
            self.out_edges@.last()@ == Seq::<(NodeIndex<NodeIx>, EdgeIndex<EdgeIx>)>::empty(),
        ensures
            self.wf(),
            forall|u: int| 0 <= u < pre.node_cnt() ==> #[trigger] self.outs(u) == pre.outs(u),
            forall|u: int| 0 <= u < pre.node_cnt() ==> #[trigger] self.ins(u) == pre.ins(u),
            self.outs(pre.node_cnt()) == Seq::<(usize, usize)>::empty(),
            self.ins(pre.node_cnt()) == Seq::<(usize, usize)>::empty(),
    {
        let n = pre.node_weights@.len() as int;
        let m = pre.edge_weights@.len() as int;
        let oe = self.out_edges@;
        let ie = self.in_edges@;
        let eps = self.endpoints@;
        assert forall|u: int| 0 <= u < n implies #[trigger] self.outs(u) == pre.outs(u) by {
            assert(oe[u] == pre.out_edges@[u]);
        }
        assert forall|u: int| 0 <= u < n implies #[trigger] self.ins(u) == pre.ins(u) by {
            assert(ie[u] == pre.in_edges@[u]);
        }
        assert(self.outs(n) =~= Seq::<(usize, usize)>::empty());
        assert(self.ins(n) =~= Seq::<(usize, usize)>::empty());
        assert forall|u: int, j: int|
            0 <= u < n + 1 && 0 <= j < oe[u]@.len() implies #[trigger] out_entry_ok(
            oe,
            eps,
            m,
            u,
            j,
        ) by {
            assert(u < n);
            assert(oe[u] == pre.out_edges@[u]);
            assert(out_entry_ok(pre.out_edges@, eps, m, u, j));
        }
        assert forall|v: int, j: int|
            0 <= v < n + 1 && 0 <= j < ie[v]@.len() implies #[trigger] in_entry_ok(
            ie,
            eps,
            m,
            v,
            j,
        ) by {
            assert(v < n);
            assert(ie[v] == pre.in_edges@[v]);
            assert(in_entry_ok(pre.in_edges@, eps, m, v, j));
        }
        assert forall|k: int| 0 <= k < m implies #[trigger] covered_ok(oe, ie, eps, k) by {
            assert(covered_ok(pre.out_edges@, pre.in_edges@, eps, k));
            let e = eps[k];
            assert(oe[e.0 as int] == pre.out_edges@[e.0 as int]);
            assert(ie[e.1 as int] == pre.in_edges@[e.1 as int]);
        }
        assert forall|u: int, j1: int, j2: int|
            0 <= u < n + 1 && 0 <= j1 < j2 < oe[u]@.len() implies #[trigger] out_distinct_ok(
            oe,
            u,
            j1,
            j2,
        ) by {
            assert(u < n);
            assert(oe[u] == pre.out_edges@[u]);
            assert(out_distinct_ok(pre.out_edges@, u, j1, j2));
        }
        assert forall|v: int, j1: int, j2: int|
            0 <= v < n + 1 && 0 <= j1 < j2 < ie[v]@.len() implies #[trigger] in_distinct_ok(
            ie,
            v,
            j1,
            j2,
        ) by {
            assert(v < n);
            assert(ie[v] == pre.in_edges@[v]);
            assert(in_distinct_ok(pre.in_edges@, v, j1, j2));
        }
    }

    /// Appends a node carrying the default weight.
    pub fn add_node(&mut self) -> (r: Result<NodeIndex<NodeIx>, GraphError>)
        requires
            old(self).wf(),
        ensures
            final(self).wf(),
            old(self).node_cnt() <= NodeIx::max_spec() ==> (r matches Ok(idx)
                && Self::node_added(*old(self), *final(self), NodeWt::default_spec(), idx)),
            old(self).node_cnt() > NodeIx::max_spec() ==> r == Err::<NodeIndex<NodeIx>,
            GraphError>(GraphError::CapacityExceeded) && *final(self) == *old(self),
    {
        self.add_node_with_weight(NodeWt::default_weight())
    }

    /// Appends `n` nodes (n >= 1) with default weights; returns the inclusive
    /// (first, last) identifier pair. On a capacity violation nothing is
    /// appended.
    pub fn add_nodes(&mut self, n: usize) -> (r: Result<
        (NodeIndex<NodeIx>, NodeIndex<NodeIx>),
        GraphError,
    >)
        requires
            old(self).wf(),
            n >= 1,
            old(self).node_cnt() + n <= usize::MAX,
        ensures
            final(self).wf(),
            old(self).node_cnt() + n - 1 <= NodeIx::max_spec() ==> (r matches Ok(p)
                && p.0.idx() as int == old(self).node_cnt()
                && p.1.idx() as int == old(self).node_cnt() + n - 1
                && final(self).node_cnt() == old(self).node_cnt() + n
                && final(self).nodes() == old(self).nodes() + Seq::new(n as nat, |i: int| NodeWt::default_spec())
                && final(self).edge_cnt() == old(self).edge_cnt()
                && final(self).edges() == old(self).edges()
                && final(self).eps() == old(self).eps()
                && (forall|u: int| 0 <= u < old(self).node_cnt() ==> #[trigger] final(self).outs(u) == old(self).outs(u))
                && (forall|u: int| 0 <= u < old(self).node_cnt() ==> #[trigger] final(self).ins(u) == old(self).ins(u))
                && (forall|u: int| old(self).node_cnt() <= u < final(self).node_cnt() ==> #[trigger] final(self).outs(u) == Seq::<(usize, usize)>::empty())
                && (forall|u: int| old(self).node_cnt() <= u < final(self).node_cnt() ==> #[trigger] final(self).ins(u) == Seq::<(usize, usize)>::empty())),
            old(self).node_cnt() + n - 1 > NodeIx::max_spec() ==> r == Err::<
                (NodeIndex<NodeIx>, NodeIndex<NodeIx>),
                GraphError,
            >(GraphError::CapacityExceeded) && *final(self) == *old(self),
    {
        let cnt = self.node_weights.len();
        let mx = NodeIx::max().index();
        if n - 1 > mx || cnt > mx - (n - 1) {
            return Err(GraphError::CapacityExceeded);
        }
        let first = match self.add_node() {
            Ok(i) => i,
            Err(e) => {
                return Err(e);
            },
        };
        let mut last = first;
        let mut added: usize = 1;
        while added < n
            invariant
                old(self).wf(),
                self.wf(),
                1 <= added <= n,
                old(self).node_cnt() + n - 1 <= NodeIx::max_spec(),
                old(self).node_cnt() + n <= usize::MAX,
                self.node_cnt() == old(self).node_cnt() + added,
                first.idx() as int == old(self).node_cnt(),
                last.idx() as int == old(self).node_cnt() + added - 1,
                self.nodes() == old(self).nodes() + Seq::new(
                    added as nat,
                    |i: int| NodeWt::default_spec(),
                ),
                self.edge_cnt() == old(self).edge_cnt(),
                self.edges() == old(self).edges(),
                self.eps() == old(self).eps(),
                forall|u: int|
                    0 <= u < old(self).node_cnt() ==> #[trigger] self.outs(u) == old(self).outs(u),
                forall|u: int|
                    0 <= u < old(self).node_cnt() ==> #[trigger] self.ins(u) == old(self).ins(u),
                forall|u: int|
                    old(self).node_cnt() <= u < self.node_cnt() ==> #[trigger] self.outs(u)
                        == Seq::<(usize, usize)>::empty(),
                forall|u: int|
                    old(self).node_cnt() <= u < self.node_cnt() ==> #[trigger] self.ins(u)
                        == Seq::<(usize, usize)>::empty(),
            decreases n - added,
        {
            let ghost mid = *self;
            last = match self.add_node() {
                Ok(i) => i,
                Err(e) => {
                    proof {
                        assert(false);
                    }
                    return Err(e);
                },
            };
            added = added + 1;
            proof {
                assert(self.nodes() =~= old(self).nodes() + Seq::new(
                    added as nat,
                    |i: int| NodeWt::default_spec(),
                ));
                assert forall|u: int|
                    0 <= u < old(self).node_cnt() implies #[trigger] self.outs(u) == old(self).outs(u) by {
                    assert(self.outs(u) == mid.outs(u));
                }
                assert forall|u: int|
                    0 <= u < old(self).node_cnt() implies #[trigger] self.ins(u) == old(self).ins(u) by {
                    assert(self.ins(u) == mid.ins(u));
                }
                assert forall|u: int|
                    old(self).node_cnt() <= u < self.node_cnt() implies #[trigger] self.outs(u)
                        == Seq::<(usize, usize)>::empty() by {
                    if u < mid.node_cnt() {
                        assert(self.outs(u) == mid.outs(u));
                    }
                }
                assert forall|u: int|
                    old(self).node_cnt() <= u < self.node_cnt() implies #[trigger] self.ins(u)
                        == Seq::<(usize, usize)>::empty() by {
                    if u < mid.node_cnt() {
                        assert(self.ins(u) == mid.ins(u));
                    }
                }
            }
        }
        Ok((first, last))
    }

    /// Appends an edge from `source` to `target` carrying `w`. Both
    /// identifiers must name existing nodes; the new edge identifier equals
    /// the previous edge count and must not exceed the index width's
    /// maximum. Self-loops are allowed.
    pub fn add_edge_with_weight(
        &mut self,
        source: NodeIndex<NodeIx>,
        target: NodeIndex<NodeIx>,
        weight: EdgeWt,
    ) -> (r: Result<EdgeIndex<EdgeIx>, GraphError>)
        requires
            old(self).wf(),
        ensures
            final(self).wf(),
            !(source.idx() < old(self).node_cnt() && target.idx() < old(self).node_cnt()) ==> r
                == Err::<EdgeIndex<EdgeIx>, GraphError>(GraphError::IndexOutOfBounds) && *final(self) == *old(self),
            source.idx() < old(self).node_cnt() && target.idx() < old(self).node_cnt() && old(self).edge_cnt() > EdgeIx::max_spec() ==> r == Err::<EdgeIndex<EdgeIx>, GraphError>(
                GraphError::CapacityExceeded,
            ) && *final(self) == *old(self),
            source.idx() < old(self).node_cnt() && target.idx() < old(self).node_cnt() && old(self).edge_cnt() <= EdgeIx::max_spec() ==> (r matches Ok(k) && Self::edge_added(
                *old(self),
                *final(self),
                source.idx(),
                target.idx(),
                weight,
                k,
            )),
    {
        let u = source.index();
        let v = target.index();
        if !(u < self.node_weights.len() && v < self.node_weights.len()) {
            return Err(GraphError::IndexOutOfBounds);
        }
        let m = self.edge_weights.len();
        if m > EdgeIx::max().index() {
            return Err(GraphError::CapacityExceeded);
        }
        let idx = EdgeIndex::<EdgeIx>::new(m);
        self.edge_weights.push(weight);
        let ghost pre_eps = self.endpoints@;
        self.endpoints = Ghost(pre_eps.push((u, v)));
        self.out_edges[u].push((target, idx));
        self.in_edges[v].push((source, idx));
        proof {
            self.lemma_wf_after_add_edge(*old(self), source, target, idx);
        }
        Ok(idx)
    }

    proof fn lemma_wf_after_add_edge(
        self,
        pre: Self,
        source: NodeIndex<NodeIx>,
        target: NodeIndex<NodeIx>,
        idx: EdgeIndex<EdgeIx>,
    )
        requires
            pre.wf(),
            source.idx() < pre.node_cnt(),
            target.idx() < pre.node_cnt(),
            idx.idx() as int == pre.edge_cnt(),
            self.node_weights@ == pre.node_weights@,
            self.edge_weights@ == pre.edge_weights@.push(self.edge_weights@.last()),
            self.endpoints@ == pre.endpoints@.push((source.idx(), target.idx())),
            self.out_edges@ == pre.out_edges@.update(
                source.idx() as int,
                self.out_edges@[source.idx() as int],
            ),
            self.out_edges@[source.idx() as int]@ == pre.out_edges@[source.idx() as int]@.push(
                (target, idx),
            ),
            self.in_edges@ == pre.in_edges@.update(
                target.idx() as int,
                self.in_edges@[target.idx() as int],
            ),
            self.in_edges@[target.idx() as int]@ == pre.in_edges@[target.idx() as int]@.push(
                (source, idx),
            ),
        ensures
            self.wf(),
            Self::edge_added(pre, self, source.idx(), target.idx(), self.edge_weights@.last(), idx),
    {
        let n = pre.node_weights@.len() as int;
        let m = pre.edge_weights@.len() as int;
        let u = source.idx() as int;
        let v = target.idx() as int;
        let oe = self.out_edges@;
        let ie = self.in_edges@;
        let eps = self.endpoints@;
        let poe = pre.out_edges@;
        let pie = pre.in_edges@;
        assert(oe.len() == n);
        assert(ie.len() == n);
        assert forall|x: int| 0 <= x < n && x != u implies #[trigger] self.outs(x) == pre.outs(
            x,
        ) by {
            assert(oe[x] == poe[x]);
        }
        assert forall|x: int| 0 <= x < n && x != v implies #[trigger] self.ins(x) == pre.ins(
            x,
        ) by {
            assert(ie[x] == pie[x]);
        }
        assert(self.outs(u) =~= pre.outs(u).push((target.idx(), idx.idx())));
        assert(self.ins(v) =~= pre.ins(v).push((source.idx(), idx.idx())));
        // range of endpoints
        assert forall|k: int| 0 <= k < m + 1 implies (#[trigger] eps[k]).0 < n && eps[k].1
            < n by {
            if k < m {
                assert(pre.endpoints@[k].0 < n && pre.endpoints@[k].1 < n);
            }
        }
        // pointing back, outgoing
        assert forall|x: int, j: int|
            0 <= x < n && 0 <= j < oe[x]@.len() implies #[trigger] out_entry_ok(
            oe,
            eps,
            m + 1,
            x,
            j,
        ) by {
            if x != u || j < poe[x]@.len() {
                assert(oe[x]@[j] == poe[x]@[j]);
                assert(out_entry_ok(poe, pre.endpoints@, m, x, j));
                let p = pview(poe[x]@[j]);
                assert(eps[p.1 as int] == pre.endpoints@[p.1 as int]);
            } else {
                assert(oe[x]@[j] == (target, idx));
            }
        }
        // pointing back, incoming
        assert forall|x: int, j: int|
            0 <= x < n && 0 <= j < ie[x]@.len() implies #[trigger] in_entry_ok(
            ie,
            eps,
            m + 1,
            x,
            j,
        ) by {
            if x != v || j < pie[x]@.len() {
                assert(ie[x]@[j] == pie[x]@[j]);
                assert(in_entry_ok(pie, pre.endpoints@, m, x, j));
                let p = pview(pie[x]@[j]);
                assert(eps[p.1 as int] == pre.endpoints@[p.1 as int]);
            } else {
                assert(ie[x]@[j] == (source, idx));
            }
        }
        // coverage
        assert forall|k: int| 0 <= k < m + 1 implies #[trigger] covered_ok(oe, ie, eps, k) by {
            if k < m {
                assert(covered_ok(poe, pie, pre.endpoints@, k));
                let e = pre.endpoints@[k];
                assert(eps[k] == e);
                let j1 = choose|j: int|
                    0 <= j < pre.outs(e.0 as int).len() && pre.outs(e.0 as int)[j] == (
                    e.1,
                    k as usize,
                );
                assert(self.outs(e.0 as int)[j1] == (e.1, k as usize));
                assert(self.outs(e.0 as int).contains((e.1, k as usize)));
                let j2 = choose|j: int|
                    0 <= j < pre.ins(e.1 as int).len() && pre.ins(e.1 as int)[j] == (
                    e.0,
                    k as usize,
                );
                assert(self.ins(e.1 as int)[j2] == (e.0, k as usize));
                assert(self.ins(e.1 as int).contains((e.0, k as usize)));
            } else {
                let e = eps[k];
                assert(e == (source.idx(), target.idx()));
                let lo = pre.outs(u).len() as int;
                assert(self.outs(u)[lo] == (target.idx(), idx.idx()));
                assert(self.outs(e.0 as int).contains((e.1, k as usize)));
                let li = pre.ins(v).len() as int;
                assert(self.ins(v)[li] == (source.idx(), idx.idx()));
                assert(self.ins(e.1 as int).contains((e.0, k as usize)));
            }
        }
        // distinct ids, outgoing
        assert forall|x: int, j1: int, j2: int|
            0 <= x < n && 0 <= j1 < j2 < oe[x]@.len() implies #[trigger] out_distinct_ok(
            oe,
            x,
            j1,
            j2,
        ) by {
            if x != u || j2 < poe[x]@.len() {
                assert(oe[x]@[j1] == poe[x]@[j1]);
                assert(oe[x]@[j2] == poe[x]@[j2]);
                assert(out_distinct_ok(poe, x, j1, j2));
            } else {
                assert(oe[x]@[j1] == poe[x]@[j1]);
                assert(out_entry_ok(poe, pre.endpoints@, m, x, j1));
                assert(oe[x]@[j2] == (target, idx));
            }
        }
        // distinct ids, incoming
        assert forall|x: int, j1: int, j2: int|
            0 <= x < n && 0 <= j1 < j2 < ie[x]@.len() implies #[trigger] in_distinct_ok(
            ie,
            x,
            j1,
            j2,
        ) by {
            if x != v || j2 < pie[x]@.len() {
                assert(ie[x]@[j1] == pie[x]@[j1]);
                assert(ie[x]@[j2] == pie[x]@[j2]);
                assert(in_distinct_ok(pie, x, j1, j2));
            } else {
                assert(ie[x]@[j1] == pie[x]@[j1]);
                assert(in_entry_ok(pie, pre.endpoints@, m, x, j1));
                assert(ie[x]@[j2] == (source, idx));
            }
        }
    }

    /// Appends an edge carrying the default weight.
    pub fn add_edge(&mut self, source: NodeIndex<NodeIx>, target: NodeIndex<NodeIx>) -> (r: Result<
        EdgeIndex<EdgeIx>,
        GraphError,
    >)
        requires
            old(self).wf(),
        ensures
            final(self).wf(),
            !(source.idx() < old(self).node_cnt() && target.idx() < old(self).node_cnt()) ==> r
                == Err::<EdgeIndex<EdgeIx>, GraphError>(GraphError::IndexOutOfBounds) && *final(self) == *old(self),
            source.idx() < old(self).node_cnt() && target.idx() < old(self).node_cnt() && old(self).edge_cnt() > EdgeIx::max_spec() ==> r == Err::<EdgeIndex<EdgeIx>, GraphError>(
                GraphError::CapacityExceeded,
            ) && *final(self) == *old(self),
            source.idx() < old(self).node_cnt() && target.idx() < old(self).node_cnt() && old(self).edge_cnt() <= EdgeIx::max_spec() ==> (r matches Ok(k) && Self::edge_added(
                *old(self),
                *final(self),
                source.idx(),
                target.idx(),
                EdgeWt::default_spec(),
                k,
            )),
    {
        self.add_edge_with_weight(source, target, EdgeWt::default_weight())
    }

    /// Returns true if `source` has an outgoing edge to `target`.
    pub fn has_out_edge(&self, source: NodeIndex<NodeIx>, target: NodeIndex<NodeIx>) -> (r: bool)
        requires
            self.wf(),
            source.idx() < self.node_cnt(),
        ensures
            r == self.has_out_spec(source.idx() as int, target.idx()),
    {
        let u = source.index();
        let t = target.index();
        let list = &self.out_edges[u];
        let ghost ui = source.idx() as int;
        let mut j: usize = 0;
        while j < list.len()
            invariant
                0 <= j <= list@.len(),
                list@ == self.out_edges@[ui]@,
                0 <= ui < self.out_edges@.len(),
                ui == source.idx() as int,
                t == target.idx(),
                forall|i: int| 0 <= i < j ==> (#[trigger] self.outs(ui)[i]).0 != t,
            decreases list@.len() - j,
        {
            let p = list[j];
            if p.0.index() == t {
                assert(self.outs(ui)[j as int].0 == t);
                assert(self.has_out_spec(ui, t));
                return true;
            }
            j = j + 1;
        }
        false
    }

    /// Returns true if `target` has an incoming edge from `source`.
    pub fn has_in_edge(&self, target: NodeIndex<NodeIx>, source: NodeIndex<NodeIx>) -> (r: bool)
        requires
            self.wf(),
            target.idx() < self.node_cnt(),
        ensures
            r == self.has_in_spec(target.idx() as int, source.idx()),
    {
        let v = target.index();
        let s = source.index();
        let list = &self.in_edges[v];
        let ghost vi = target.idx() as int;
        let mut j: usize = 0;
        while j < list.len()
            invariant
                0 <= j <= list@.len(),
                list@ == self.in_edges@[vi]@,
                0 <= vi < self.in_edges@.len(),
                vi == target.idx() as int,
                s == source.idx(),
                forall|i: int| 0 <= i < j ==> (#[trigger] self.ins(vi)[i]).0 != s,
            decreases list@.len() - j,
        {
            let p = list[j];
            if p.0.index() == s {
                assert(self.ins(vi)[j as int].0 == s);
                assert(self.has_in_spec(vi, s));
                return true;
            }
            j = j + 1;
        }
        false
    }

    /// An outgoing edge from `u` to `v` exists exactly when an incoming edge
    /// of `v` from `u` does: the two adjacency directions record the same
    /// edge set.
    pub proof fn lemma_out_in_equiv(self, u: usize, v: usize)
        requires
            self.wf(),
            (u as int) < self.node_cnt(),
            (v as int) < self.node_cnt(),
        ensures
            self.has_out_spec(u as int, v) <==> self.has_in_spec(v as int, u),
    {
        if self.has_out_spec(u as int, v) {
            let j = choose|j: int|
                0 <= j < self.outs(u as int).len() && (#[trigger] self.outs(u as int)[j]).0 == v;
            assert(self.out_entry_wf(u as int, j));
            let k = self.outs(u as int)[j].1 as int;
            assert(self.endpoints@[k].0 == u && self.endpoints@[k].1 == v);
            assert(self.edge_covered(k));
            let j2 = choose|i: int|
                0 <= i < self.ins(v as int).len() && #[trigger] self.ins(v as int)[i] == (
                u,
                k as usize,
            );
            assert(self.ins(v as int)[j2].0 == u);
        }
        if self.has_in_spec(v as int, u) {
            let j = choose|j: int|
                0 <= j < self.ins(v as int).len() && (#[trigger] self.ins(v as int)[j]).0 == u;
            assert(self.in_entry_wf(v as int, j));
            let k = self.ins(v as int)[j].1 as int;
            assert(self.endpoints@[k].0 == u && self.endpoints@[k].1 == v);
            assert(self.edge_covered(k));
            let j2 = choose|i: int|
                0 <= i < self.outs(u as int).len() && #[trigger] self.outs(u as int)[i] == (
                v,
                k as usize,
            );
            assert(self.outs(u as int)[j2].0 == v);
        }
    }

    /// Like `has_out_edge`, but scans whichever adjacency list is shorter;
    /// the result is the same either way.
    pub fn has_directed_edge(&self, source: NodeIndex<NodeIx>, target: NodeIndex<NodeIx>) -> (r:
        bool)
        requires
            self.wf(),
            source.idx() < self.node_cnt(),
            target.idx() < self.node_cnt(),
        ensures
            r == self.has_out_spec(source.idx() as int, target.idx()),
    {
        proof {
            self.lemma_out_in_equiv(source.idx(), target.idx());
        }
        if self.out_edges[source.index()].len() < self.in_edges[target.index()].len() {
            self.has_out_edge(source, target)
        } else {
            self.has_in_edge(target, source)
        }
    }

    /// How many edges enter `node`.
    pub fn in_degree(&self, node: NodeIndex<NodeIx>) -> (r: usize)
        requires
            self.wf(),
            node.idx() < self.node_cnt(),
        ensures
            r == self.ins(node.idx() as int).len(),
    {
        self.in_edges[node.index()].len()
    }

    /// How many edges leave `node`.
    pub fn out_degree(&self, node: NodeIndex<NodeIx>) -> (r: usize)
        requires
            self.wf(),
            node.idx() < self.node_cnt(),
        ensures
            r == self.outs(node.idx() as int).len(),
    {
        self.out_edges[node.index()].len()
    }

    /// In-degree plus out-degree.
    pub fn degree(&self, node: NodeIndex<NodeIx>) -> (r: usize)
        requires
            self.wf(),
            node.idx() < self.node_cnt(),
            self.ins(node.idx() as int).len() + self.outs(node.idx() as int).len() <= usize::MAX,
        ensures
            r == self.ins(node.idx() as int).len() + self.outs(node.idx() as int).len(),
    {
        self.in_degree(node) + self.out_degree(node)
    }

    /// The weight of `node`, or `IndexOutOfBounds` for an unallocated
    /// identifier.
    pub fn get_node_weight(&self, node: NodeIndex<NodeIx>) -> (r: Result<NodeWt, GraphError>)
        ensures
            node.idx() < self.node_cnt() ==> r == Ok::<NodeWt, GraphError>(
                self.nodes()[node.idx() as int],
            ),
            node.idx() >= self.node_cnt() ==> r == Err::<NodeWt, GraphError>(
                GraphError::IndexOutOfBounds,
            ),
    {
        let i = node.index();
        if i < self.node_weights.len() {
            Ok(self.node_weights[i])
        } else {
            Err(GraphError::IndexOutOfBounds)
        }
    }

    /// In-place access to the weight of an existing `node`.
    pub fn get_node_weight_mut(&mut self, node: NodeIndex<NodeIx>) -> (r: &mut NodeWt)
        requires
            old(self).wf(),
            node.idx() < old(self).node_cnt(),
        ensures
            *r == old(self).nodes()[node.idx() as int],
            final(self).nodes() == old(self).nodes().update(node.idx() as int, *final(r)),
            final(self).wf(),
            final(self).node_cnt() == old(self).node_cnt(),
            final(self).edge_cnt() == old(self).edge_cnt(),
            final(self).edges() == old(self).edges(),
            final(self).eps() == old(self).eps(),
            forall|x: int| #[trigger] final(self).outs(x) == old(self).outs(x),
            forall|x: int| #[trigger] final(self).ins(x) == old(self).ins(x),
    {
        &mut self.node_weights[node.index()]
    }

    /// The weight of `edge`, or `IndexOutOfBounds` for an unallocated
    /// identifier.
    pub fn get_edge_weight(&self, edge: EdgeIndex<EdgeIx>) -> (r: Result<EdgeWt, GraphError>)
        ensures
            edge.idx() < self.edge_cnt() ==> r == Ok::<EdgeWt, GraphError>(
                self.edges()[edge.idx() as int],
            ),
            edge.idx() >= self.edge_cnt() ==> r == Err::<EdgeWt, GraphError>(
                GraphError::IndexOutOfBounds,
            ),
    {
        let i = edge.index();
        if i < self.edge_weights.len() {
            Ok(self.edge_weights[i])
        } else {
            Err(GraphError::IndexOutOfBounds)
        }
    }

    /// In-place access to the weight of an existing `edge`.
    pub fn get_edge_weight_mut(&mut self, edge: EdgeIndex<EdgeIx>) -> (r: &mut EdgeWt)
        requires
            old(self).wf(),
            edge.idx() < old(self).edge_cnt(),
        ensures
            *r == old(self).edges()[edge.idx() as int],
            final(self).edges() == old(self).edges().update(edge.idx() as int, *final(r)),
            final(self).wf(),
            final(self).node_cnt() == old(self).node_cnt(),
            final(self).edge_cnt() == old(self).edge_cnt(),
            final(self).nodes() == old(self).nodes(),
            final(self).eps() == old(self).eps(),
            forall|x: int| #[trigger] final(self).outs(x) == old(self).outs(x),
            forall|x: int| #[trigger] final(self).ins(x) == old(self).ins(x),
    {
        &mut self.edge_weights[edge.index()]
    }

    /// Read-only view of the incoming adjacency of `node`, in insertion
    /// order.
    pub fn in_edges_of(&self, node: NodeIndex<NodeIx>) -> (r: &Vec<
        (NodeIndex<NodeIx>, EdgeIndex<EdgeIx>),
    >)
        requires
            self.wf(),
            node.idx() < self.node_cnt(),
        ensures
            adj_view(r@) == self.ins(node.idx() as int),
    {
        &self.in_edges[node.index()]
    }

    /// Read-only view of the outgoing adjacency of `node`, in insertion
    /// order.
    pub fn out_edges_of(&self, node: NodeIndex<NodeIx>) -> (r: &Vec<
        (NodeIndex<NodeIx>, EdgeIndex<EdgeIx>),
    >)
        requires
            self.wf(),
            node.idx() < self.node_cnt(),
        ensures
            adj_view(r@) == self.outs(node.idx() as int),
    {
        &self.out_edges[node.index()]
    }

    /// Current edge total.
    pub fn edge_count(&self) -> (r: usize)
        ensures
            r == self.edge_cnt(),
    {
        self.edge_weights.len()
    }

    /// Current node total.
    pub fn node_count(&self) -> (r: usize)
        ensures
            r == self.node_cnt(),
    {
        self.node_weights.len()
    }

    /// A well-formed graph records endpoints for exactly its edges.
    pub proof fn lemma_eps_len(self)
        requires
            self.wf(),
        ensures
            self.eps().len() == self.edge_cnt(),
    {
    }

    /// Every edge appears exactly once in its source's outgoing list and
    /// exactly once in its target's incoming list, and in no other list.
    pub proof fn lemma_edge_in_adjacency(self, k: int)
        requires
            self.wf(),
            0 <= k < self.edge_cnt(),
        ensures
            self.eps()[k].0 < self.node_cnt() && self.eps()[k].1 < self.node_cnt(),
            self.outs(self.eps()[k].0 as int).contains((self.eps()[k].1, k as usize)),
            self.ins(self.eps()[k].1 as int).contains((self.eps()[k].0, k as usize)),
            forall|w: int, j: int|
                0 <= w < self.node_cnt() && 0 <= j < self.outs(w).len() && (#[trigger] self.outs(
                    w,
                )[j]).1 as int == k ==> w == self.eps()[k].0 as int && self.outs(w)[j].0
                    == self.eps()[k].1,
            forall|w: int, j: int|
                0 <= w < self.node_cnt() && 0 <= j < self.ins(w).len() && (#[trigger] self.ins(
                    w,
                )[j]).1 as int == k ==> w == self.eps()[k].1 as int && self.ins(w)[j].0
                    == self.eps()[k].0,
            forall|j1: int, j2: int|
                0 <= j1 < self.outs(self.eps()[k].0 as int).len() && 0 <= j2 < self.outs(
                    self.eps()[k].0 as int,
                ).len() && (#[trigger] self.outs(self.eps()[k].0 as int)[j1]).1 as int == k && (
                #[trigger] self.outs(self.eps()[k].0 as int)[j2]).1 as int == k ==> j1 == j2,
            forall|j1: int, j2: int|
                0 <= j1 < self.ins(self.eps()[k].1 as int).len() && 0 <= j2 < self.ins(
                    self.eps()[k].1 as int,
                ).len() && (#[trigger] self.ins(self.eps()[k].1 as int)[j1]).1 as int == k && (
                #[trigger] self.ins(self.eps()[k].1 as int)[j2]).1 as int == k ==> j1 == j2,
    {
        assert(self.edge_covered(k));
        let e = self.endpoints@[k];
        assert forall|w: int, j: int|
            0 <= w < self.node_cnt() && 0 <= j < self.outs(w).len() && (#[trigger] self.outs(
                w,
            )[j]).1 as int == k implies w == self.eps()[k].0 as int && self.outs(w)[j].0
            == self.eps()[k].1 by {
            assert(self.out_entry_wf(w, j));
        }
        assert forall|w: int, j: int|
            0 <= w < self.node_cnt() && 0 <= j < self.ins(w).len() && (#[trigger] self.ins(
                w,
            )[j]).1 as int == k implies w == self.eps()[k].1 as int && self.ins(w)[j].0
            == self.eps()[k].0 by {
            assert(self.in_entry_wf(w, j));
        }
        let u = e.0 as int;
        assert forall|j1: int, j2: int|
            0 <= j1 < self.outs(u).len() && 0 <= j2 < self.outs(u).len() && (#[trigger] self.outs(
                u,
            )[j1]).1 as int == k && (#[trigger] self.outs(u)[j2]).1 as int == k implies j1
            == j2 by {
            if j1 < j2 {
                assert(out_distinct_ok(self.out_edges@, u, j1, j2));
            } else if j2 < j1 {
                assert(out_distinct_ok(self.out_edges@, u, j2, j1));
            }
        }
        let v = e.1 as int;
        assert forall|j1: int, j2: int|
            0 <= j1 < self.ins(v).len() && 0 <= j2 < self.ins(v).len() && (#[trigger] self.ins(
                v,
            )[j1]).1 as int == k && (#[trigger] self.ins(v)[j2]).1 as int == k implies j1
            == j2 by {
            if j1 < j2 {
                assert(in_distinct_ok(self.in_edges@, v, j1, j2));
            } else if j2 < j1 {
                assert(in_distinct_ok(self.in_edges@, v, j2, j1));
            }
        }
    }

    /// A self-loop appended at `u` lengthens both of `u`'s adjacency lists by
    /// one, and the new edge appears in both.
    pub proof fn lemma_self_loop(pre: Self, post: Self, u: usize, w: EdgeWt, k: EdgeIndex<EdgeIx>)
        requires
            Self::edge_added(pre, post, u, u, w, k),
        ensures
            post.outs(u as int).len() == pre.outs(u as int).len() + 1,
            post.ins(u as int).len() == pre.ins(u as int).len() + 1,
            post.outs(u as int).contains((u, k.idx())),
            post.ins(u as int).contains((u, k.idx())),
    {
        let lo = pre.outs(u as int).len() as int;
        assert(post.outs(u as int)[lo] == (u, k.idx()));
        let li = pre.ins(u as int).len() as int;
        assert(post.ins(u as int)[li] == (u, k.idx()));
    }

    /// Two edges appended between the same ordered pair get distinct
    /// identifiers, each retaining its own weight.
    pub proof fn lemma_parallel_edges(
        g0: Self,
        g1: Self,
        g2: Self,
        u: usize,
        v: usize,
        w1: EdgeWt,
        w2: EdgeWt,
        k1: EdgeIndex<EdgeIx>,
        k2: EdgeIndex<EdgeIx>,
    )
        requires
            Self::edge_added(g0, g1, u, v, w1, k1),
            Self::edge_added(g1, g2, u, v, w2, k2),
        ensures
            k1.idx() != k2.idx(),
            g2.edges()[k1.idx() as int] == w1,
            g2.edges()[k2.idx() as int] == w2,
    {
    }
}

} // verus!
