use vstd::prelude::*;

use crate::analyze::{
    enqueue_missing, init_info, is_solution, node_equation, run_model, solve_model, source_facts,
    with_defaults,
};
use crate::problem::{Backward, Forward, Problem};
use crate::{Fact, Graph, Join, Node, NodeInfo, Transfer};

verus! {

/// Seed pinning. In any table `solve` returns, the seed node's pair is
/// `spec_assigned(top, trans(seed, top))` whenever the seed has no join
/// sources and the join maps the empty list to top: its joined side is held
/// at top, which is the seed fact of a default-constructed analyzer, and
/// its transferred side is the transfer of top. In particular the empty
/// join-source list of the seed is no special case: it joins to top.
pub proof fn lemma_seed_pinning<
    F: Fact,
    N: Node,
    G: Graph<N>,
    Trans: Transfer<F, N>,
    J: Join<F>,
    Sort: Problem<F, N, G>,
>(t: Trans, j: J, top: F, g: &G, m: Map<N::NodeId, NodeInfo<F>>, p: Set<N::NodeId>)
    requires
        is_solution::<F, N, G, Trans, J, Sort>(t, j, top, g, m, p),
        Sort::spec_joins(g, Sort::spec_first(g)).len() == 0,
        j.spec_join(Seq::<F>::empty()) == top,
    ensures
        m.contains_key(Sort::spec_first(g)),
        m[Sort::spec_first(g)] == Sort::spec_assigned(
            top,
            t.spec_trans(g.spec_node(Sort::spec_first(g)), top),
        ),
{
    let seed = Sort::spec_first(g);
    assert(p.contains(seed));
    assert(node_equation::<F, N, G, Trans, J, Sort>(t, j, g, m, seed));
    assert(source_facts::<F, N, G, Sort>(g, m, seed) =~= Seq::<F>::empty());
}

/// Top identity. The engine consults the client's join only through
/// `spec_join`, so when top is an identity of the join (inserting it
/// anywhere changes no result), a node's fixpoint equation is indifferent
/// to an extra join source whose transferred side is top: the equation
/// holds over the widened source list exactly when it holds over the
/// original one.
pub proof fn lemma_top_source_identity<
    F: Fact,
    N: Node,
    G: Graph<N>,
    Trans: Transfer<F, N>,
    J: Join<F>,
    Sort: Problem<F, N, G>,
>(
    t: Trans,
    j: J,
    top: F,
    g: &G,
    g2: &G,
    m: Map<N::NodeId, NodeInfo<F>>,
    m2: Map<N::NodeId, NodeInfo<F>>,
    n: N::NodeId,
    z: N::NodeId,
    i: int,
)
    requires
        forall|s: Seq<F>, k: int|
            0 <= k <= s.len() ==> j.spec_join(#[trigger] s.insert(k, top)) == j.spec_join(s),
        0 <= i <= Sort::spec_joins(g, n).len(),
        Sort::spec_joins(g2, n) == Sort::spec_joins(g, n).insert(i, z),
        Sort::spec_join_fact(m2[z]) == top,
        g2.spec_node(n) == g.spec_node(n),
        m2[n] == m[n],
        forall|k: int|
            0 <= k < Sort::spec_joins(g, n).len() ==> Sort::spec_join_fact(
                m2[#[trigger] Sort::spec_joins(g, n)[k]],
            ) == Sort::spec_join_fact(m[Sort::spec_joins(g, n)[k]]),
    ensures
        node_equation::<F, N, G, Trans, J, Sort>(t, j, g2, m2, n) == node_equation::<
            F,
            N,
            G,
            Trans,
            J,
            Sort,
        >(t, j, g, m, n),
{
    let s1 = source_facts::<F, N, G, Sort>(g, m, n);
    let s2 = source_facts::<F, N, G, Sort>(g2, m2, n);
    let js = Sort::spec_joins(g, n);
    assert forall|k: int| 0 <= k < s2.len() implies s2[k] == s1.insert(i, top)[k] by {
        if k < i {
            assert(Sort::spec_joins(g2, n)[k] == js[k]);
        } else if k == i {
            assert(Sort::spec_joins(g2, n)[k] == z);
        } else {
            assert(Sort::spec_joins(g2, n)[k] == js[k - 1]);
        }
    }
    assert(s2 =~= s1.insert(i, top));
    assert(j.spec_join(s2) == j.spec_join(s1));
}

/// Determinism. `solve` promises that its result is `solve_model` of the
/// analyzer's parts and the graph, a mathematical function of them alone:
/// two invocations on equal inputs return equal tables.
pub proof fn lemma_determinism<
    F: Fact,
    N: Node,
    G: Graph<N>,
    Trans: Transfer<F, N>,
    J: Join<F>,
    Sort: Problem<F, N, G>,
>(
    t: Trans,
    j: J,
    top: F,
    first: NodeInfo<F>,
    g: &G,
    m1: Map<N::NodeId, NodeInfo<F>>,
    m2: Map<N::NodeId, NodeInfo<F>>,
)
    requires
        solve_model::<F, N, G, Trans, J, Sort>(t, j, top, first, g) == Some(m1),
        solve_model::<F, N, G, Trans, J, Sort>(t, j, top, first, g) == Some(m2),
    ensures
        m1 == m2,
{
}

/// A graph whose seed node has no join sources and no dirty targets — a
/// single node with no edges — converges in one visit: the iteration stops
/// after the seed alone, whose input side is the join of the empty list
/// and whose output side is its transfer.
pub proof fn lemma_single_node_converges<
    F: Fact,
    N: Node,
    G: Graph<N>,
    Trans: Transfer<F, N>,
    J: Join<F>,
    Sort: Problem<F, N, G>,
>(t: Trans, j: J, top: F, first: NodeInfo<F>, g: &G)
    requires
        Sort::spec_joins(g, Sort::spec_first(g)).len() == 0,
        Sort::spec_nexts(g, Sort::spec_first(g)).len() == 0,
    ensures
        ({
            let seed = Sort::spec_first(g);
            let joined = j.spec_join(Seq::<F>::empty());
            let transd = t.spec_trans(g.spec_node(seed), joined);
            solve_model::<F, N, G, Trans, J, Sort>(t, j, top, first, g) == Some(
                Map::empty().insert(seed, Sort::spec_assigned(joined, transd)),
            )
        }),
{
    let seed = Sort::spec_first(g);
    let m0 = Map::<N::NodeId, NodeInfo<F>>::empty().insert(seed, first);
    let w0 = seq![seed];
    let srcs = Sort::spec_joins(g, seed);
    let ma = with_defaults(m0, srcs, top);
    assert forall|k: N::NodeId| #[trigger] ma.contains_key(k) implies m0.contains_key(k)
        && ma[k] == m0[k] by {
        if !m0.contains_key(k) {
            assert(srcs.contains(k));
            let i = choose|i: int| 0 <= i < srcs.len() && srcs[i] == k;
            assert(false);
        }
    }
    assert(ma =~= m0);
    assert(source_facts::<F, N, G, Sort>(g, ma, seed) =~= Seq::<F>::empty());
    let joined = j.spec_join(Seq::<F>::empty());
    let transd = t.spec_trans(g.spec_node(seed), joined);
    let mb = ma.insert(seed, Sort::spec_assigned(joined, transd));
    assert(w0.drop_first() =~= Seq::<N::NodeId>::empty());
    let w1 = Seq::<N::NodeId>::empty();
    assert(enqueue_missing(w1, Sort::spec_nexts(g, seed)) == w1);
    assert(run_model::<F, N, G, Trans, J, Sort>(
        t,
        j,
        top,
        g,
        mb,
        w1,
        (u64::MAX - 1) as nat,
    ) == Some(mb));
    assert(mb =~= Map::empty().insert(seed, Sort::spec_assigned(joined, transd)));
}

/// The canonical join of the scenario analyses: facts are sets of variable
/// ids, the join of a list is the union of its members, and the union of
/// the empty list is the empty set, which is top.
pub open spec fn union_join(facts: Seq<Set<usize>>) -> Set<usize>
    decreases facts.len(),
{
    if facts.len() == 0 {
        Set::empty()
    } else {
        facts[0].union(union_join(facts.drop_first()))
    }
}

/// For the canonical union join, top is an identity of the join: inserting
/// the empty set anywhere into a list changes nothing. A join with this
/// property satisfies the hypothesis of `lemma_top_source_identity`.
pub proof fn lemma_union_join_top_identity(facts: Seq<Set<usize>>, i: int)
    requires
        0 <= i <= facts.len(),
    ensures
        union_join(facts.insert(i, Set::empty())) == union_join(facts),
    decreases facts.len(),
{
    let widened = facts.insert(i, Set::empty());
    if i == 0 {
        assert(widened[0] == Set::<usize>::empty());
        assert(widened.drop_first() =~= facts);
        assert(Set::<usize>::empty().union(union_join(facts)) =~= union_join(facts));
    } else {
        assert(widened[0] == facts[0]);
        assert(widened.drop_first() =~= facts.drop_first().insert(i - 1, Set::empty()));
        lemma_union_join_top_identity(facts.drop_first(), i - 1);
    }
}

/// The mirror image of a pair: `before` and `after` exchanged.
pub open spec fn swap_info<F: Fact>(info: NodeInfo<F>) -> NodeInfo<F> {
    NodeInfo { before: info.after, after: info.before }
}

/// `rg` is `g` with every edge turned around: same nodes, entry and exit
/// exchanged, predecessors and successors exchanged.
pub open spec fn reverse_of<N: Node, G: Graph<N>>(g: &G, rg: &G) -> bool {
    &&& rg.spec_nodes() == g.spec_nodes()
    &&& rg.spec_entry() == g.spec_exit()
    &&& rg.spec_exit() == g.spec_entry()
    &&& forall|n: N::NodeId| (#[trigger] rg.spec_preds(n)) == g.spec_succs(n)
    &&& forall|n: N::NodeId| (#[trigger] rg.spec_succs(n)) == g.spec_preds(n)
    &&& forall|n: N::NodeId| (#[trigger] rg.spec_node(n)) == g.spec_node(n)
}

/// Direction duality. A forward solution over a graph is, node for node, a
/// backward solution over the reversed graph with every pair mirrored: the
/// same transfer and join, the same visited set, and `before` and `after`
/// exchanged. Applying the lemma to the reversed graph (reversal and
/// mirroring undo themselves) gives the converse direction.
pub proof fn lemma_direction_duality<
    F: Fact,
    N: Node,
    G: Graph<N>,
    Trans: Transfer<F, N>,
    J: Join<F>,
>(
    t: Trans,
    j: J,
    top: F,
    g: &G,
    rg: &G,
    m: Map<N::NodeId, NodeInfo<F>>,
    rm: Map<N::NodeId, NodeInfo<F>>,
    p: Set<N::NodeId>,
)
    requires
        reverse_of(g, rg),
        rm.dom() == m.dom(),
        forall|k: N::NodeId| #[trigger] m.contains_key(k) ==> rm[k] == swap_info(m[k]),
        is_solution::<F, N, G, Trans, J, Forward>(t, j, top, g, m, p),
    ensures
        is_solution::<F, N, G, Trans, J, Backward>(t, j, top, rg, rm, p),
{
    assert(p.contains(<Backward as Problem<F, N, G>>::spec_first(rg)));
    assert forall|n: N::NodeId| #[trigger] p.contains(n) implies rm.contains_key(n) by {
        assert(m.contains_key(n));
    }
    assert forall|n: N::NodeId, i: int|
        p.contains(n) && 0 <= i < <Backward as Problem<F, N, G>>::spec_joins(rg, n).len() implies
        rm.contains_key(#[trigger] <Backward as Problem<F, N, G>>::spec_joins(rg, n)[i]) by {
        assert(<Backward as Problem<F, N, G>>::spec_joins(rg, n) == <Forward as Problem<
            F,
            N,
            G,
        >>::spec_joins(g, n));
        assert(m.contains_key(<Forward as Problem<F, N, G>>::spec_joins(g, n)[i]));
    }
    assert forall|n: N::NodeId| #[trigger] p.contains(n) implies node_equation::<
        F,
        N,
        G,
        Trans,
        J,
        Backward,
    >(t, j, rg, rm, n) by {
        assert(node_equation::<F, N, G, Trans, J, Forward>(t, j, g, m, n));
        let sf = source_facts::<F, N, G, Forward>(g, m, n);
        let sb = source_facts::<F, N, G, Backward>(rg, rm, n);
        let js = <Forward as Problem<F, N, G>>::spec_joins(g, n);
        assert(<Backward as Problem<F, N, G>>::spec_joins(rg, n) == js);
        assert forall|i: int| 0 <= i < sb.len() implies sb[i] == sf[i] by {
            assert(m.contains_key(js[i]));
            assert(rm[js[i]] == swap_info(m[js[i]]));
        }
        assert(sb =~= sf);
        let joined = j.spec_join(sf);
        let transd = t.spec_trans(g.spec_node(n), joined);
        assert(m.contains_key(n));
        assert(rm[n] == swap_info(m[n]));
        assert(m[n] == <Forward as Problem<F, N, G>>::spec_assigned(joined, transd));
        assert(rm[n] == <Backward as Problem<F, N, G>>::spec_assigned(joined, transd));
        assert(rg.spec_node(n) == g.spec_node(n));
    }
    assert forall|n: N::NodeId| #[trigger] p.contains(n) implies n == <Backward as Problem<
        F,
        N,
        G,
    >>::spec_first(rg) || exists|q: N::NodeId|
        #[trigger] p.contains(q) && <Backward as Problem<F, N, G>>::spec_nexts(rg, q).contains(
            n,
        ) by {
        if n != <Forward as Problem<F, N, G>>::spec_first(g) {
            let q = choose|q: N::NodeId|
                #[trigger] p.contains(q) && <Forward as Problem<F, N, G>>::spec_nexts(
                    g,
                    q,
                ).contains(n);
            assert(<Backward as Problem<F, N, G>>::spec_nexts(rg, q) == <Forward as Problem<
                F,
                N,
                G,
            >>::spec_nexts(g, q));
            assert(p.contains(q) && <Backward as Problem<F, N, G>>::spec_nexts(rg, q).contains(n));
        }
    }
    assert forall|n: N::NodeId| #[trigger] rm.contains_key(n) implies p.contains(n) || exists|
        q: N::NodeId,
    | #[trigger] p.contains(q) && <Backward as Problem<F, N, G>>::spec_joins(rg, q).contains(
        n,
    ) by {
        assert(m.contains_key(n));
        if !p.contains(n) {
            let q = choose|q: N::NodeId|
                #[trigger] p.contains(q) && <Forward as Problem<F, N, G>>::spec_joins(
                    g,
                    q,
                ).contains(n);
            assert(<Backward as Problem<F, N, G>>::spec_joins(rg, q) == <Forward as Problem<
                F,
                N,
                G,
            >>::spec_joins(g, q));
            assert(p.contains(q) && <Backward as Problem<F, N, G>>::spec_joins(rg, q).contains(n));
        }
    }
    assert forall|n: N::NodeId| #[trigger] rm.contains_key(n) && !p.contains(n) implies rm[n]
        == init_info(top) by {
        assert(m.contains_key(n));
        assert(m[n] == init_info(top));
    }
    assert forall|n: N::NodeId| #[trigger] rm.contains_key(n) implies rg.spec_nodes().contains(
        n,
    ) by {
        assert(m.contains_key(n));
    }
}

} // verus!
