//! A generic engine for monotone dataflow analyses over directed graphs.
//!
//! A client supplies a lattice of facts, a transfer function, a join
//! function, and a graph; the engine iterates a worklist to a fixpoint and
//! returns, for every node it reached, the fact holding immediately before
//! the node and the fact holding immediately after it.

use vstd::prelude::*;

mod analyze;
mod laws;
mod problem;

pub use analyze::init_info;
pub use analyze::is_solution;
pub use analyze::node_equation;
pub use analyze::enqueue_missing;
pub use analyze::run_model;
pub use analyze::solve_model;
pub use analyze::solved;
pub use analyze::with_defaults;
pub use analyze::source_facts;
pub use analyze::Analyzer;
pub use laws::lemma_determinism;
pub use laws::lemma_direction_duality;
pub use laws::lemma_seed_pinning;
pub use laws::lemma_single_node_converges;
pub use laws::lemma_top_source_identity;
pub use laws::lemma_union_join_top_identity;
pub use laws::union_join;
pub use laws::reverse_of;
pub use laws::swap_info;
pub use problem::Backward;
pub use problem::Forward;

verus! {

/// A fact represents a piece of information known to be true at a particular
/// point in the graph. In a constant propagation problem, for instance, a fact
/// might be a set of tuples of variables known to be constant and their value.
pub trait Fact: Sized {
    /// Produce a copy of the fact equal to the original.
    fn dup(&self) -> (r: Self)
        ensures
            r == *self,
    ;

    /// Decide whether two facts are equal.
    fn same(&self, other: &Self) -> (r: bool)
        ensures
            r == (*self == *other),
    ;
}

/// A node in a directed graph can have predecessors, which are other nodes
/// that point to this one, as well as successors, which are nodes that this
/// points to.
///
/// Nodes are uniquely identified by a `NodeId`.
pub trait Node {
    /// A small value used to uniquely identify a node.
    type NodeId;
}

/// The information which holds true at the `in` and `out` points of a
/// particular node.
#[derive(Clone, Debug, PartialEq)]
pub struct NodeInfo<F: Fact> {
    pub before: F,
    pub after: F,
}

impl<F: Fact> NodeInfo<F> {
    /// Produce a copy of the pair equal to the original.
    pub fn dup(&self) -> (r: Self)
        ensures
            r == *self,
    {
        NodeInfo { before: self.before.dup(), after: self.after.dup() }
    }
}

/// A graph is a set of nodes, each of which is only connected to nodes in
/// this graph. The spec functions describe the graph as a mathematical
/// object; the exec methods must agree with them.
pub trait Graph<N: Node>: Sized {
    /// The ids that this graph resolves.
    spec fn spec_nodes(&self) -> Set<N::NodeId>;

    /// The node that a given id resolves to.
    spec fn spec_node(&self, id: N::NodeId) -> N;

    /// The id of the entry node.
    spec fn spec_entry(&self) -> N::NodeId;

    /// The id of the exit node.
    spec fn spec_exit(&self) -> N::NodeId;

    /// The ids of the predecessors of a given node.
    spec fn spec_preds(&self, id: N::NodeId) -> Seq<N::NodeId>;

    /// The ids of the successors of a given node.
    spec fn spec_succs(&self, id: N::NodeId) -> Seq<N::NodeId>;

    /// Get a node with a given `id`. This `id` only comes from `get_entry`,
    /// `get_exit`, or a node returned by `get`'s predecessors or successors.
    fn get(&self, id: N::NodeId) -> (node: &N)
        requires
            self.spec_nodes().contains(id),
        ensures
            *node == self.spec_node(id),
    ;

    /// Get the entry node.
    fn get_entry(&self) -> (id: N::NodeId)
        ensures
            id == self.spec_entry(),
    ;

    /// Get the exit node.
    fn get_exit(&self) -> (id: N::NodeId)
        ensures
            id == self.spec_exit(),
    ;

    /// Get the predecessor nodes for a given node.
    fn get_preds(&self, id: N::NodeId) -> (r: &[N::NodeId])
        requires
            self.spec_nodes().contains(id),
        ensures
            r@ == self.spec_preds(id),
    ;

    /// Get the successor nodes for a given node.
    fn get_succs(&self, id: N::NodeId) -> (r: &[N::NodeId])
        requires
            self.spec_nodes().contains(id),
        ensures
            r@ == self.spec_succs(id),
    ;
}

/// A graph is well formed when its entry and exit ids resolve, every edge
/// stays inside the graph, and the predecessor and successor lists describe
/// the same edges from both ends.
pub open spec fn graph_wf<N: Node, G: Graph<N>>(g: &G) -> bool {
    &&& g.spec_nodes().contains(g.spec_entry())
    &&& g.spec_nodes().contains(g.spec_exit())
    &&& forall|a: N::NodeId, i: int|
        g.spec_nodes().contains(a) && 0 <= i < g.spec_preds(a).len() ==> g.spec_nodes().contains(
            #[trigger] g.spec_preds(a)[i],
        )
    &&& forall|a: N::NodeId, i: int|
        g.spec_nodes().contains(a) && 0 <= i < g.spec_succs(a).len() ==> g.spec_nodes().contains(
            #[trigger] g.spec_succs(a)[i],
        )
    &&& forall|a: N::NodeId, b: N::NodeId|
        g.spec_nodes().contains(a) && g.spec_nodes().contains(b) ==> ((#[trigger] g.spec_preds(
            a,
        ).contains(b)) <==> (#[trigger] g.spec_succs(b).contains(a)))
}

/// The transfer function of an analysis: given a node and the fact on the
/// node's input side, it computes the fact on the node's output side. It is
/// consulted by the engine only through `trans`, whose result is fixed by
/// the mathematical function `spec_trans`.
pub trait Transfer<F: Fact, N: Node> {
    /// The transfer function as a mathematical function.
    spec fn spec_trans(&self, node: N, fact: F) -> F;

    /// Compute the transferred fact for a node.
    fn trans(&self, node: &N, fact: F) -> (r: F)
        ensures
            r == self.spec_trans(*node, fact),
    ;
}

/// The join function of an analysis: it combines the facts flowing in over
/// several edges into one. It must tolerate an empty list; returning the
/// analysis's top fact there is the natural choice.
pub trait Join<F: Fact> {
    /// The join function as a mathematical function.
    spec fn spec_join(&self, facts: Seq<F>) -> F;

    /// Combine a list of facts into one.
    fn join(&self, facts: Vec<F>) -> (r: F)
        ensures
            r == self.spec_join(facts@),
    ;
}

} // verus!
