//! The topology of the state graph, held in a `mapgraph` slot-map graph.
use mapgraph::aliases::SlotMapGraph;
use mapgraph::map::slotmap::NodeIndex;
use vstd::prelude::*;

verus! {

/// A slot map holds fewer elements than this: inserting into a full one panics.
pub const SLOT_LIMIT: usize = 4294967294;

/// Opaque handle of a node of the state graph.
#[verifier::external_type_specification]
#[verifier::external_body]
pub struct ExNodeIndex(NodeIndex);

/// A directed graph whose nodes carry the slot of a state and whose edges carry the slot of a
/// transition. Topology is only ever added to, never removed from.
#[verifier::external_body]
pub struct StateGraph {
    inner: SlotMapGraph<usize, usize>,
}

/// The live node handles of a graph, each with the state slot it carries.
pub uninterp spec fn graph_nodes(g: StateGraph) -> Map<NodeIndex, usize>;

/// The edges of a graph in the order they were added, as `(from, to, transition slot)`.
pub uninterp spec fn graph_edges(g: StateGraph) -> Seq<(NodeIndex, NodeIndex, usize)>;

/// The transition slots of the out-edges of `n`, most recently added first.
pub open spec fn out_slots(edges: Seq<(NodeIndex, NodeIndex, usize)>, n: NodeIndex) -> Seq<usize>
    decreases edges.len(),
{
    if edges.len() == 0 {
        Seq::empty()
    } else {
        let rest = out_slots(edges.drop_last(), n);
        if edges.last().0 == n {
            seq![edges.last().2] + rest
        } else {
            rest
        }
    }
}

/// Whether an edge `from -> to` is among `edges`.
pub open spec fn has_edge(edges: Seq<(NodeIndex, NodeIndex, usize)>, from: NodeIndex, to: NodeIndex) -> bool {
    exists|i: int| 0 <= i < edges.len() && (#[trigger] edges[i]).0 == from && edges[i].1 == to
}

impl StateGraph {
    /// Relies on `Graph::default`: the graph it builds is empty.
    #[verifier::external_body]
    pub(crate) fn new() -> (r: StateGraph)
        ensures
            graph_nodes(r) =~= Map::empty(),
            graph_edges(r) =~= Seq::empty(),
    {
        StateGraph { inner: SlotMapGraph::default() }
    }

    /// Relies on `Graph::add_node`: the slot map hands out a key that no live node holds. It
    /// panics once it is full, which the bound on its size rules out.
    #[verifier::external_body]
    pub(crate) fn add_node(&mut self, slot: usize) -> (r: NodeIndex)
        requires
            graph_nodes(*old(self)).dom().finite(),
            graph_nodes(*old(self)).dom().len() < SLOT_LIMIT,
        ensures
            !graph_nodes(*old(self)).contains_key(r),
            graph_nodes(*final(self)) == graph_nodes(*old(self)).insert(r, slot),
            graph_edges(*final(self)) == graph_edges(*old(self)),
    {
        self.inner.add_node(slot)
    }

    /// Relies on `Graph::add_edge`: with both endpoints live it links a new edge at the head
    /// of `from`'s output list, unless an edge `from -> to` already exists. Its slot map panics
    /// once it is full, which the bound on its size rules out.
    #[verifier::external_body]
    pub(crate) fn add_edge(&mut self, slot: usize, from: NodeIndex, to: NodeIndex) -> (r: bool)
        requires
            graph_edges(*old(self)).len() < SLOT_LIMIT,
            graph_nodes(*old(self)).contains_key(from),
            graph_nodes(*old(self)).contains_key(to),
        ensures
            r == !has_edge(graph_edges(*old(self)), from, to),
            graph_nodes(*final(self)) == graph_nodes(*old(self)),
            r ==> graph_edges(*final(self)) == graph_edges(*old(self)).push((from, to, slot)),
            !r ==> graph_edges(*final(self)) == graph_edges(*old(self)),
    {
        self.inner.add_edge(slot, from, to).is_ok()
    }

    /// Relies on `Graph::outputs`: it walks `n`'s output list, newest edge first.
    #[verifier::external_body]
    pub(crate) fn outputs(&self, n: NodeIndex) -> (r: Vec<usize>)
        requires
            graph_nodes(*self).contains_key(n),
        ensures
            r@ == out_slots(graph_edges(*self), n),
    {
        self.inner.outputs(n).map(|(_, e)| *e.weight()).collect()
    }

    /// Relies on `Graph::node_weight`: the weight of a live node, `None` for any other handle.
    #[verifier::external_body]
    pub(crate) fn node_weight(&self, n: NodeIndex) -> (r: Option<usize>)
        ensures
            r == (if graph_nodes(*self).contains_key(n) {
                Some(graph_nodes(*self)[n])
            } else {
                None
            }),
    {
        self.inner.node_weight(n).copied()
    }
}

} // verus!
