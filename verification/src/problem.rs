use vstd::prelude::*;

use crate::{graph_wf, Fact, Graph, Node, NodeInfo};

verus! {

/// Disallows downstream implementations of `Problem`: only the two
/// directions below are coherent with the two-sided `NodeInfo`.
pub trait Sealed {

}

/// The direction of a dataflow problem. The solver consults this capability
/// for everything that distinguishes a forwards problem from a backwards
/// one: where the seed is, which neighbours are joined, which neighbours are
/// dirtied, which side of a `NodeInfo` carries the transferred fact, and how
/// a freshly computed pair is written back.
pub trait Problem<F: Fact, N: Node, G: Graph<N>>: Sealed {
    /// The id of the seed node: the node the worklist starts from.
    spec fn spec_first(g: &G) -> N::NodeId;

    /// The ids whose facts are joined to form the input of a given node.
    spec fn spec_joins(g: &G, id: N::NodeId) -> Seq<N::NodeId>;

    /// The ids that must be revisited after a given node's fact changes.
    spec fn spec_nexts(g: &G, id: N::NodeId) -> Seq<N::NodeId>;

    /// The side of a pair that carries the transferred fact; it is also the
    /// side that neighbours join over.
    spec fn spec_join_fact(info: NodeInfo<F>) -> F;

    /// The pair written back after a node is processed.
    spec fn spec_assigned(joined: F, transd: F) -> NodeInfo<F>;

    /// The seed of a well-formed graph is a node of the graph.
    proof fn first_in_graph(g: &G)
        requires
            graph_wf(g),
        ensures
            g.spec_nodes().contains(Self::spec_first(g)),
    ;

    /// In a well-formed graph, join sources and dirty targets of a node of
    /// the graph are nodes of the graph.
    proof fn neighbors_in_graph(g: &G, a: N::NodeId)
        requires
            graph_wf(g),
            g.spec_nodes().contains(a),
        ensures
            forall|i: int|
                0 <= i < Self::spec_joins(g, a).len() ==> g.spec_nodes().contains(
                    #[trigger] Self::spec_joins(g, a)[i],
                ),
            forall|i: int|
                0 <= i < Self::spec_nexts(g, a).len() ==> g.spec_nodes().contains(
                    #[trigger] Self::spec_nexts(g, a)[i],
                ),
    ;

    /// In a well-formed graph, `b` is a join source of `a` exactly when `a`
    /// is a dirty target of `b`: dirtying reaches every node whose join
    /// could have changed.
    proof fn joins_nexts_dual(g: &G, a: N::NodeId, b: N::NodeId)
        requires
            graph_wf(g),
            g.spec_nodes().contains(a),
            g.spec_nodes().contains(b),
        ensures
            Self::spec_joins(g, a).contains(b) <==> Self::spec_nexts(g, b).contains(a),
    ;

    /// The transferred side of an assigned pair is the transferred fact.
    proof fn join_fact_of_assigned(joined: F, transd: F)
        ensures
            Self::spec_join_fact(Self::spec_assigned(joined, transd)) == transd,
    ;

    /// Assign the `joined` and `transd` facts to a `NodeInfo`.
    fn assign(info: &mut NodeInfo<F>, joined: F, transd: F)
        ensures
            *final(info) == Self::spec_assigned(joined, transd),
    ;

    /// Get the `NodeId`s for the nodes that need to be analyzed after this.
    /// In a forwards problem, this corresponds to a node's successors.
    fn get_nexts<'a>(graph: &'a G, id: N::NodeId) -> (r: &'a [N::NodeId])
        requires
            graph.spec_nodes().contains(id),
        ensures
            r@ == Self::spec_nexts(graph, id),
    ;

    /// Get the `NodeId`s for the nodes whose facts are to be joined together.
    /// In a forwards problem, this corresponds to a node's predecessors.
    fn get_joins<'a>(graph: &'a G, id: N::NodeId) -> (r: &'a [N::NodeId])
        requires
            graph.spec_nodes().contains(id),
        ensures
            r@ == Self::spec_joins(graph, id),
    ;

    /// Get the node id for which the `first` fact holds true. In a forwards
    /// problem, this is the entry node.
    fn get_first(graph: &G) -> (id: N::NodeId)
        ensures
            id == Self::spec_first(graph),
    ;

    /// Get the fact which is computed by transformation. Note that this is
    /// not the fact that will be transformed, but the fact that has been
    /// transformed. This also gives the fact which will be `join`ed with
    /// other facts.
    fn get_join_fact<'a>(info: &'a NodeInfo<F>) -> (r: &'a F)
        ensures
            *r == Self::spec_join_fact(*info),
    ;
}

/// A forwards problem finds information which holds on all paths from
/// `enter` to `n` for all nodes `n`. Forward problems are often (but not
/// always) problems where all facts *must* be true.
pub struct Forward;

impl Sealed for Forward {

}

impl<F: Fact, N: Node, G: Graph<N>> Problem<F, N, G> for Forward {
    open spec fn spec_first(g: &G) -> N::NodeId {
        g.spec_entry()
    }

    open spec fn spec_joins(g: &G, id: N::NodeId) -> Seq<N::NodeId> {
        g.spec_preds(id)
    }

    open spec fn spec_nexts(g: &G, id: N::NodeId) -> Seq<N::NodeId> {
        g.spec_succs(id)
    }

    open spec fn spec_join_fact(info: NodeInfo<F>) -> F {
        info.after
    }

    open spec fn spec_assigned(joined: F, transd: F) -> NodeInfo<F> {
        NodeInfo { before: joined, after: transd }
    }

    proof fn first_in_graph(g: &G) {
    }

    proof fn neighbors_in_graph(g: &G, a: N::NodeId) {
    }

    proof fn joins_nexts_dual(g: &G, a: N::NodeId, b: N::NodeId) {
    }

    proof fn join_fact_of_assigned(joined: F, transd: F) {
    }

    fn assign(info: &mut NodeInfo<F>, joined: F, transd: F) {
        info.before = joined;
        info.after = transd;
    }

    fn get_nexts<'a>(graph: &'a G, id: N::NodeId) -> (r: &'a [N::NodeId]) {
        graph.get_succs(id)
    }

    fn get_joins<'a>(graph: &'a G, id: N::NodeId) -> (r: &'a [N::NodeId]) {
        graph.get_preds(id)
    }

    fn get_first(graph: &G) -> (id: N::NodeId) {
        graph.get_entry()
    }

    fn get_join_fact<'a>(info: &'a NodeInfo<F>) -> (r: &'a F) {
        &info.after
    }
}

/// A backwards problem finds information which holds on all paths from `n`
/// to `exit` for all nodes `n`. Backward problems are often (but not always)
/// problems where facts *may* be true.
pub struct Backward;

impl Sealed for Backward {

}

impl<F: Fact, N: Node, G: Graph<N>> Problem<F, N, G> for Backward {
    open spec fn spec_first(g: &G) -> N::NodeId {
        g.spec_exit()
    }

    open spec fn spec_joins(g: &G, id: N::NodeId) -> Seq<N::NodeId> {
        g.spec_succs(id)
    }

    open spec fn spec_nexts(g: &G, id: N::NodeId) -> Seq<N::NodeId> {
        g.spec_preds(id)
    }

    open spec fn spec_join_fact(info: NodeInfo<F>) -> F {
        info.before
    }

    open spec fn spec_assigned(joined: F, transd: F) -> NodeInfo<F> {
        NodeInfo { before: transd, after: joined }
    }

    proof fn first_in_graph(g: &G) {
    }

    proof fn neighbors_in_graph(g: &G, a: N::NodeId) {
    }

    proof fn joins_nexts_dual(g: &G, a: N::NodeId, b: N::NodeId) {
    }

    proof fn join_fact_of_assigned(joined: F, transd: F) {
    }

    fn assign(info: &mut NodeInfo<F>, joined: F, transd: F) {
        info.before = transd;
        info.after = joined;
    }

    fn get_nexts<'a>(graph: &'a G, id: N::NodeId) -> (r: &'a [N::NodeId]) {
        graph.get_preds(id)
    }

    fn get_joins<'a>(graph: &'a G, id: N::NodeId) -> (r: &'a [N::NodeId]) {
        graph.get_succs(id)
    }

    fn get_first(graph: &G) -> (id: N::NodeId) {
        graph.get_exit()
    }

    fn get_join_fact<'a>(info: &'a NodeInfo<F>) -> (r: &'a F) {
        &info.before
    }
}

} // verus!
