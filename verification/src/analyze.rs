use vstd::prelude::*;

use crate::problem::{Backward, Forward, Problem};
use crate::{graph_wf, Fact, Graph, Join, Node, NodeInfo, Transfer};
use std::collections::HashMap;
use std::collections::VecDeque;

verus! {

broadcast use vstd::std_specs::hash::group_hash_axioms;

/// The second table keeps every entry of the first: it may add entries,
/// but never changes or drops one.
pub open spec fn map_extends<F: Fact>(
    m_old: Map<usize, NodeInfo<F>>,
    m_new: Map<usize, NodeInfo<F>>,
) -> bool {
    forall|k: usize|
        #[trigger] m_old.contains_key(k) ==> m_new.contains_key(k) && m_new[k] == m_old[k]
}

/// The facts that flow into a node `n`: for each join source of `n`, the
/// transferred side of that source's pair in the table `m`.
pub open spec fn source_facts<F: Fact, N: Node, G: Graph<N>, Sort: Problem<F, N, G>>(
    g: &G,
    m: Map<N::NodeId, NodeInfo<F>>,
    n: N::NodeId,
) -> Seq<F> {
    Sort::spec_joins(g, n).map_values(|s: N::NodeId| Sort::spec_join_fact(m[s]))
}

/// The local fixpoint equation at a node `n`: the pair recorded for `n` is
/// exactly what one more visit to `n` would write back, namely the join of
/// the facts flowing in and the transfer of that join.
pub open spec fn node_equation<
    F: Fact,
    N: Node,
    G: Graph<N>,
    Trans: Transfer<F, N>,
    J: Join<F>,
    Sort: Problem<F, N, G>,
>(t: Trans, j: J, g: &G, m: Map<N::NodeId, NodeInfo<F>>, n: N::NodeId) -> bool {
    let joined = j.spec_join(source_facts::<F, N, G, Sort>(g, m, n));
    let transd = t.spec_trans(g.spec_node(n), joined);
    m[n] == Sort::spec_assigned(joined, transd)
}

/// What `solve` guarantees of the table it returns, with `p` the set of
/// nodes the worklist visited:
/// the seed was visited; every visited node satisfies its fixpoint
/// equation; the worklist only ever moved along dirty-target edges from
/// visited nodes; the table holds exactly the visited nodes and their join
/// sources; a node that was read as a join source but never visited still
/// holds its initial pair; and everything in the table is a node of the
/// graph.
pub open spec fn is_solution<
    F: Fact,
    N: Node,
    G: Graph<N>,
    Trans: Transfer<F, N>,
    J: Join<F>,
    Sort: Problem<F, N, G>,
>(t: Trans, j: J, top: F, g: &G, m: Map<N::NodeId, NodeInfo<F>>, p: Set<N::NodeId>) -> bool {
    &&& p.contains(Sort::spec_first(g))
    &&& forall|n: N::NodeId| #[trigger] p.contains(n) ==> m.contains_key(n)
    &&& forall|n: N::NodeId, i: int|
        p.contains(n) && 0 <= i < Sort::spec_joins(g, n).len() ==> m.contains_key(
            #[trigger] Sort::spec_joins(g, n)[i],
        )
    &&& forall|n: N::NodeId| #[trigger] p.contains(n) ==> node_equation::<
        F,
        N,
        G,
        Trans,
        J,
        Sort,
    >(t, j, g, m, n)
    &&& forall|n: N::NodeId| #[trigger] p.contains(n) ==> n == Sort::spec_first(g) || exists|
        q: N::NodeId,
    |
        #[trigger] p.contains(q) && Sort::spec_nexts(g, q).contains(n)
    &&& forall|n: N::NodeId| #[trigger] m.contains_key(n) ==> p.contains(n) || exists|
        q: N::NodeId,
    |
        #[trigger] p.contains(q) && Sort::spec_joins(g, q).contains(n)
    &&& forall|n: N::NodeId|
        #[trigger] m.contains_key(n) && !p.contains(n) ==> m[n] == init_info(top)
    &&& forall|n: N::NodeId| #[trigger] m.contains_key(n) ==> g.spec_nodes().contains(n)
}

/// A table that `solve` may return: some set of visited nodes witnesses
/// `is_solution`.
pub open spec fn solved<
    F: Fact,
    N: Node,
    G: Graph<N>,
    Trans: Transfer<F, N>,
    J: Join<F>,
    Sort: Problem<F, N, G>,
>(t: Trans, j: J, top: F, g: &G, m: Map<N::NodeId, NodeInfo<F>>) -> bool {
    exists|p: Set<N::NodeId>| is_solution::<F, N, G, Trans, J, Sort>(t, j, top, g, m, p)
}

/// Append to the queue `w`, in order, every id of `xs` that is not already
/// queued.
pub open spec fn enqueue_missing<K>(w: Seq<K>, xs: Seq<K>) -> Seq<K>
    decreases xs.len(),
{
    if xs.len() == 0 {
        w
    } else {
        let w1 = if w.contains(xs[0]) {
            w
        } else {
            w.push(xs[0])
        };
        enqueue_missing(w1, xs.drop_first())
    }
}

/// The table `m` with the initial pair filled in for every id of `xs` that
/// it does not hold yet.
pub open spec fn with_defaults<F: Fact, K>(
    m: Map<K, NodeInfo<F>>,
    xs: Seq<K>,
    top: F,
) -> Map<K, NodeInfo<F>> {
    Map::new(
        |k: K| m.contains_key(k) || xs.contains(k),
        |k: K|
            if m.contains_key(k) {
                m[k]
            } else {
                init_info(top)
            },
    )
}

/// The worklist iteration as a mathematical function of its inputs: from
/// the table `m` and the queue `w`, visit the head of the queue as `solve`
/// does and recurse, for at most `fuel` visits. `None` is the case that the
/// queue still holds work when the fuel runs out.
pub open spec fn run_model<
    F: Fact,
    N: Node,
    G: Graph<N>,
    Trans: Transfer<F, N>,
    J: Join<F>,
    Sort: Problem<F, N, G>,
>(
    t: Trans,
    j: J,
    top: F,
    g: &G,
    m: Map<N::NodeId, NodeInfo<F>>,
    w: Seq<N::NodeId>,
    fuel: nat,
) -> Option<Map<N::NodeId, NodeInfo<F>>>
    decreases fuel,
{
    if w.len() == 0 {
        Some(m)
    } else if fuel == 0 {
        None
    } else {
        let id = w[0];
        let w1 = w.drop_first();
        let ma = with_defaults(m, Sort::spec_joins(g, id), top);
        let joined = j.spec_join(source_facts::<F, N, G, Sort>(g, ma, id));
        let transd = t.spec_trans(g.spec_node(id), joined);
        let prev = Sort::spec_join_fact(
            if ma.contains_key(id) {
                ma[id]
            } else {
                init_info(top)
            },
        );
        let w2 = if prev != transd {
            enqueue_missing(w1, Sort::spec_nexts(g, id))
        } else {
            w1
        };
        let mb = ma.insert(id, Sort::spec_assigned(joined, transd));
        run_model::<F, N, G, Trans, J, Sort>(t, j, top, g, mb, w2, (fuel - 1) as nat)
    }
}

/// What `solve` computes, as a function of the analyzer's parts and the
/// graph: the worklist iteration started from the seed alone, with a
/// budget of `u64::MAX` visits.
pub open spec fn solve_model<
    F: Fact,
    N: Node,
    G: Graph<N>,
    Trans: Transfer<F, N>,
    J: Join<F>,
    Sort: Problem<F, N, G>,
>(t: Trans, j: J, top: F, first: NodeInfo<F>, g: &G) -> Option<Map<N::NodeId, NodeInfo<F>>> {
    run_model::<F, N, G, Trans, J, Sort>(
        t,
        j,
        top,
        g,
        Map::empty().insert(Sort::spec_first(g), first),
        seq![Sort::spec_first(g)],
        u64::MAX as nat,
    )
}

/// If two tables agree on the transferred side of every join source of `n`,
/// the facts flowing into `n` are the same under both.
proof fn lemma_source_facts_agree<F: Fact, N: Node, G: Graph<N>, Sort: Problem<F, N, G>>(
    g: &G,
    m1: Map<N::NodeId, NodeInfo<F>>,
    m2: Map<N::NodeId, NodeInfo<F>>,
    n: N::NodeId,
)
    requires
        forall|i: int|
            0 <= i < Sort::spec_joins(g, n).len() ==> Sort::spec_join_fact(
                m1[#[trigger] Sort::spec_joins(g, n)[i]],
            ) == Sort::spec_join_fact(m2[Sort::spec_joins(g, n)[i]]),
    ensures
        source_facts::<F, N, G, Sort>(g, m1, n) == source_facts::<F, N, G, Sort>(g, m2, n),
{
    let s1 = source_facts::<F, N, G, Sort>(g, m1, n);
    let s2 = source_facts::<F, N, G, Sort>(g, m2, n);
    assert forall|i: int| 0 <= i < s1.len() implies s1[i] == s2[i] by {
        assert(Sort::spec_join_fact(m1[Sort::spec_joins(g, n)[i]]) == Sort::spec_join_fact(
            m2[Sort::spec_joins(g, n)[i]],
        ));
    }
    assert(s1 =~= s2);
}

/// If, in addition, the two tables record the same pair for `n` itself,
/// then `n`'s fixpoint equation transfers from one table to the other.
proof fn lemma_equation_stable<
    F: Fact,
    N: Node,
    G: Graph<N>,
    Trans: Transfer<F, N>,
    J: Join<F>,
    Sort: Problem<F, N, G>,
>(t: Trans, j: J, g: &G, m1: Map<N::NodeId, NodeInfo<F>>, m2: Map<N::NodeId, NodeInfo<F>>, n: N::NodeId)
    requires
        m1[n] == m2[n],
        forall|i: int|
            0 <= i < Sort::spec_joins(g, n).len() ==> Sort::spec_join_fact(
                m1[#[trigger] Sort::spec_joins(g, n)[i]],
            ) == Sort::spec_join_fact(m2[Sort::spec_joins(g, n)[i]]),
        node_equation::<F, N, G, Trans, J, Sort>(t, j, g, m1, n),
    ensures
        node_equation::<F, N, G, Trans, J, Sort>(t, j, g, m2, n),
{
    lemma_source_facts_agree::<F, N, G, Sort>(g, m1, m2, n);
}

/// Linear scan for membership in the worklist, used to suppress duplicate
/// enqueues.
fn deque_contains(w: &VecDeque<usize>, x: usize) -> (r: bool)
    ensures
        r == w@.contains(x),
{
    let mut i: usize = 0;
    while i < w.len()
        invariant
            i <= w@.len(),
            forall|k: int| 0 <= k < i ==> w@[k] != x,
        decreases w@.len() - i,
    {
        if w[i] == x {
            return true;
        }
        i += 1;
    }
    false
}

/// The pair that every node other than the seed starts from: both sides at
/// the analysis's top fact.
pub open spec fn init_info<F: Fact>(top: F) -> NodeInfo<F> {
    NodeInfo { before: top, after: top }
}

/// The generic solver. It is parameterised by the fact type, the node type,
/// the graph type, the transfer function, the join function, and the
/// direction, and offers a single operation: `solve`.
pub struct Analyzer<F, N, G, Trans, J, Sort> where
    F: Fact,
    N: Node,
    G: Graph<N>,
    Trans: Transfer<F, N>,
    J: Join<F>,
    Sort: Problem<F, N, G>,
 {
    /// Initial pair for the seed node of the analyzer. In a forwards problem
    /// its `before` side carries the entry fact.
    first_fact: NodeInfo<F>,

    /// Initial pair for all other nodes: top on both sides.
    init_fact: NodeInfo<F>,

    /// Transfer function which computes a fact from another fact and its node.
    trans: Trans,

    /// Join function which joins multiple facts.
    join: J,

    _graph: core::marker::PhantomData<G>,
    _node: core::marker::PhantomData<N>,
    _sort: core::marker::PhantomData<Sort>,
}

impl<F, N, G, Trans, J, Sort> Analyzer<F, N, G, Trans, J, Sort> where
    F: Fact,
    N: Node,
    G: Graph<N>,
    Trans: Transfer<F, N>,
    J: Join<F>,
    Sort: Problem<F, N, G>,
 {
    /// The top fact the analyzer was built with.
    pub closed spec fn spec_top(&self) -> F {
        self.init_fact.before
    }

    /// The pair the seed node starts from.
    pub closed spec fn spec_first_fact(&self) -> NodeInfo<F> {
        self.first_fact
    }

    /// The transfer function the analyzer was built with.
    pub closed spec fn spec_transfer(&self) -> Trans {
        self.trans
    }

    /// The join function the analyzer was built with.
    pub closed spec fn spec_joiner(&self) -> J {
        self.join
    }

    /// Both sides of the initial pair are top, and the transferred side of
    /// the seed pair starts at top as well.
    pub closed spec fn wf(&self) -> bool {
        &&& self.init_fact == init_info(self.spec_top())
        &&& Sort::spec_join_fact(self.first_fact) == self.spec_top()
    }
}

impl<F, N, G, Trans, J, Sort> Analyzer<F, N, G, Trans, J, Sort> where
    F: Fact,
    N: Node<NodeId = usize>,
    G: Graph<N>,
    Trans: Transfer<F, N>,
    J: Join<F>,
    Sort: Problem<F, N, G>,
 {
    /// Solve the joins for a node: read (inserting the initial pair for any
    /// source not yet in the table) the transferred side of every join
    /// source of `node_id`, and combine them with the client's join.
    fn solve_joins(&self, graph: &G, infos: &mut HashMap<usize, NodeInfo<F>>, node_id: usize) -> (r:
        F)
        requires
            graph_wf(graph),
            self.wf(),
            graph.spec_nodes().contains(node_id),
        ensures
            map_extends(old(infos)@, final(infos)@),
            forall|k: usize|
                #[trigger] final(infos)@.contains_key(k) ==> old(infos)@.contains_key(k) || (
                Sort::spec_joins(graph, node_id).contains(k) && final(infos)@[k] == init_info(
                    self.spec_top(),
                )),
            forall|i: int|
                0 <= i < Sort::spec_joins(graph, node_id).len() ==> final(infos)@.contains_key(
                    #[trigger] Sort::spec_joins(graph, node_id)[i],
                ),
            r == self.spec_joiner().spec_join(
                source_facts::<F, N, G, Sort>(graph, final(infos)@, node_id),
            ),
    {
        let joins: &[usize] = Sort::get_joins(graph, node_id);
        let ghost m_entry = infos@;
        let mut facts: Vec<F> = Vec::new();
        let mut i: usize = 0;
        while i < joins.len()
            invariant
                self.wf(),
                joins@ == Sort::spec_joins(graph, node_id),
                i <= joins@.len(),
                facts@.len() == i,
                map_extends(m_entry, infos@),
                forall|k: usize|
                    #[trigger] infos@.contains_key(k) ==> m_entry.contains_key(k) || (
                    joins@.contains(k) && infos@[k] == init_info(self.spec_top())),
                forall|k: int| 0 <= k < i ==> infos@.contains_key(#[trigger] joins@[k]),
                forall|k: int|
                    0 <= k < i ==> facts@[k] == Sort::spec_join_fact(infos@[joins@[k]]),
            decreases joins@.len() - i,
        {
            let s: usize = joins[i];
            let ghost pre = infos@;
            if !infos.contains_key(&s) {
                infos.insert(s, self.init_fact.dup());
                proof {
                    assert(joins@.contains(s));
                    assert(infos@ == pre.insert(s, init_info(self.spec_top())));
                }
            }
            let inf = infos.get(&s).unwrap();
            let f = Sort::get_join_fact(inf).dup();
            facts.push(f);
            i += 1;
        }
        proof {
            assert(facts@ =~= source_facts::<F, N, G, Sort>(graph, infos@, node_id));
        }
        self.join.join(facts)
    }

    /// Run the worklist to a fixpoint over `graph`. The result maps every
    /// node the worklist visited, and every join source such a node read, to
    /// its final pair; `is_solution` states exactly what holds of it. A
    /// budget of `u64::MAX` visits bounds the loop; if the facts have not
    /// stabilised by then, as they need not for a non-monotone analysis,
    /// `None` comes back.
    #[verifier::rlimit(100)]
    #[verifier::spinoff_prover]
    pub fn solve(&self, graph: &G) -> (res: Option<HashMap<usize, NodeInfo<F>>>)
        requires
            graph_wf(graph),
            self.wf(),
        ensures
            match res {
                Some(m) => solved::<F, N, G, Trans, J, Sort>(
                    self.spec_transfer(),
                    self.spec_joiner(),
                    self.spec_top(),
                    graph,
                    m@,
                ),
                None => true,
            },
            match res {
                Some(m) => solve_model::<F, N, G, Trans, J, Sort>(
                    self.spec_transfer(),
                    self.spec_joiner(),
                    self.spec_top(),
                    self.spec_first_fact(),
                    graph,
                ) == Some(m@),
                None => solve_model::<F, N, G, Trans, J, Sort>(
                    self.spec_transfer(),
                    self.spec_joiner(),
                    self.spec_top(),
                    self.spec_first_fact(),
                    graph,
                ) is None,
            },
    {
        let ghost t = self.spec_transfer();
        let ghost j = self.spec_joiner();
        let ghost top = self.spec_top();
        let ghost seed = Sort::spec_first(graph);
        proof {
            Sort::first_in_graph(graph);
        }

        let mut infos: HashMap<usize, NodeInfo<F>> = HashMap::new();
        let first = Sort::get_first(graph);
        infos.insert(first, self.first_fact.dup());

        let mut worklist: VecDeque<usize> = VecDeque::new();
        worklist.push_back(first);
        proof {
            assert(worklist@[0] == seed);
            assert(worklist@.contains(seed));
        }

        let ghost model0 = run_model::<F, N, G, Trans, J, Sort>(
            t,
            j,
            top,
            graph,
            infos@,
            worklist@,
            u64::MAX as nat,
        );
        proof {
            assert(infos@ =~= Map::empty().insert(seed, self.spec_first_fact()));
            assert(worklist@ =~= seq![seed]);
            assert(model0 == solve_model::<F, N, G, Trans, J, Sort>(
                t,
                j,
                top,
                self.spec_first_fact(),
                graph,
            ));
        }

        let ghost mut processed: Set<usize> = Set::empty();
        let mut fuel: u64 = u64::MAX;

        while worklist.len() > 0 && fuel > 0
            invariant
                graph_wf(graph),
                self.wf(),
                t == self.spec_transfer(),
                j == self.spec_joiner(),
                top == self.spec_top(),
                seed == Sort::spec_first(graph),
                forall|k: int|
                    0 <= k < worklist@.len() ==> graph.spec_nodes().contains(
                        #[trigger] worklist@[k],
                    ),
                forall|n: usize|
                    #[trigger] infos@.contains_key(n) ==> graph.spec_nodes().contains(n),
                forall|n: usize| #[trigger] processed.contains(n) ==> infos@.contains_key(n),
                forall|n: usize, i2: int|
                    processed.contains(n) && 0 <= i2 < Sort::spec_joins(graph, n).len()
                        ==> infos@.contains_key(#[trigger] Sort::spec_joins(graph, n)[i2]),
                forall|n: usize|
                    #[trigger] processed.contains(n) ==> worklist@.contains(n)
                        || node_equation::<F, N, G, Trans, J, Sort>(t, j, graph, infos@, n),
                forall|n: usize|
                    #[trigger] processed.contains(n) ==> n == seed || exists|q: usize|
                        #[trigger] processed.contains(q) && Sort::spec_nexts(graph, q).contains(n),
                forall|n: usize|
                    #[trigger] worklist@.contains(n) ==> n == seed || exists|q: usize|
                        #[trigger] processed.contains(q) && Sort::spec_nexts(graph, q).contains(n),
                forall|n: usize|
                    #[trigger] infos@.contains_key(n) ==> processed.contains(n)
                        || worklist@.contains(n) || exists|q: usize|
                        #[trigger] processed.contains(q) && Sort::spec_joins(graph, q).contains(n),
                forall|n: usize|
                    #[trigger] infos@.contains_key(n) && !processed.contains(n) ==> (n == seed
                        && infos@[n] == self.spec_first_fact()) || infos@[n] == init_info(top),
                infos@.contains_key(seed),
                processed.contains(seed) || worklist@.contains(seed),
                run_model::<F, N, G, Trans, J, Sort>(t, j, top, graph, infos@, worklist@, fuel as nat)
                    == model0,
            decreases fuel,
        {
            fuel = fuel - 1;
            let ghost w0 = worklist@;
            let ghost p0 = processed;
            let id = worklist.pop_front().unwrap();
            let ghost w1 = worklist@;
            proof {
                assert(id == w0[0]);
                assert(graph.spec_nodes().contains(id));
                Sort::neighbors_in_graph(graph, id);
                assert forall|n: usize| #[trigger] w1.contains(n) implies w0.contains(n) by {
                    let k = choose|k: int| 0 <= k < w1.len() && w1[k] == n;
                    assert(w0[k + 1] == n);
                }
            }

            let node = graph.get(id);
            let ghost m0 = infos@;
            let joined = self.solve_joins(graph, &mut infos, id);
            let ghost m1 = infos@;
            let transd = self.trans.trans(node, joined.dup());

            let mut cur: NodeInfo<F>;
            if infos.contains_key(&id) {
                cur = infos.get(&id).unwrap().dup();
            } else {
                cur = self.init_fact.dup();
            }
            let ghost prev = Sort::spec_join_fact(cur);
            let changed = !Sort::get_join_fact(&cur).same(&transd);

            let ghost w_in = worklist@;
            if changed {
                let nexts: &[usize] = Sort::get_nexts(graph, id);
                let mut k: usize = 0;
                proof {
                    assert(nexts@.skip(0) =~= nexts@);
                }
                while k < nexts.len()
                    invariant
                        graph_wf(graph),
                        graph.spec_nodes().contains(id),
                        nexts@ == Sort::spec_nexts(graph, id),
                        k <= nexts@.len(),
                        forall|x: usize|
                            #[trigger] w_in.contains(x) ==> worklist@.contains(x),
                        forall|kk: int|
                            0 <= kk < k ==> worklist@.contains(#[trigger] nexts@[kk]),
                        forall|x: usize|
                            #[trigger] worklist@.contains(x) ==> w_in.contains(x)
                                || nexts@.contains(x),
                        forall|kk: int|
                            0 <= kk < nexts@.len() ==> graph.spec_nodes().contains(
                                #[trigger] nexts@[kk],
                            ),
                        forall|kk: int|
                            0 <= kk < worklist@.len() ==> graph.spec_nodes().contains(
                                #[trigger] worklist@[kk],
                            ),
                        enqueue_missing(worklist@, nexts@.skip(k as int)) == enqueue_missing(
                            w_in,
                            nexts@,
                        ),
                    decreases nexts@.len() - k,
                {
                    let d = nexts[k];
                    let ghost w_pre = worklist@;
                    proof {
                        let rest = nexts@.skip(k as int);
                        assert(rest.len() > 0);
                        assert(rest[0] == nexts@[k as int]);
                        assert(rest.drop_first() =~= nexts@.skip(k as int + 1));
                    }
                    if !deque_contains(&worklist, d) {
                        worklist.push_back(d);
                        proof {
                            assert(nexts@.contains(d));
                            assert(forall|kk: int|
                                0 <= kk < w_pre.len() ==> worklist@[kk] == w_pre[kk]);
                            assert forall|x: usize| #[trigger] w_pre.contains(x) implies
                                worklist@.contains(x) by {
                                let kk = choose|kk: int|
                                    0 <= kk < w_pre.len() && w_pre[kk] == x;
                                assert(worklist@[kk] == x);
                            }
                            assert(worklist@[worklist@.len() - 1] == d);
                            assert forall|x: usize| #[trigger] worklist@.contains(x) implies
                                w_pre.contains(x) || nexts@.contains(x) by {
                                let kk = choose|kk: int|
                                    0 <= kk < worklist@.len() && worklist@[kk] == x;
                                if kk < worklist@.len() - 1 {
                                    assert(w_pre[kk] == x);
                                } else {
                                    assert(x == d);
                                }
                            }
                        }
                    }
                    proof {
                        let rest = nexts@.skip(k as int);
                        if w_pre.contains(d) {
                            assert(worklist@ == w_pre);
                            assert(enqueue_missing(w_pre, rest) == enqueue_missing(
                                worklist@,
                                rest.drop_first(),
                            ));
                        } else {
                            assert(worklist@ == w_pre.push(d));
                            assert(enqueue_missing(w_pre, rest) == enqueue_missing(
                                worklist@,
                                rest.drop_first(),
                            ));
                        }
                        assert(enqueue_missing(worklist@, nexts@.skip(k as int + 1))
                            == enqueue_missing(w_in, nexts@));
                    }
                    k += 1;
                }
                proof {
                    assert(nexts@.skip(nexts@.len() as int) =~= Seq::<usize>::empty());
                    assert(worklist@ == enqueue_missing(w_in, nexts@));
                }
            }
            let ghost w2 = worklist@;

            Sort::assign(&mut cur, joined, transd);
            infos.insert(id, cur);

            proof {
                let m2 = infos@;
                let p1 = p0.insert(id);
                processed = p1;
                Sort::join_fact_of_assigned(joined, transd);
                assert(Sort::spec_join_fact(m2[id]) == transd);
                assert(m2 == m1.insert(id, Sort::spec_assigned(joined, transd)));
                assert(map_extends(m0, m1));
                assert(joined == j.spec_join(source_facts::<F, N, G, Sort>(graph, m1, id)));
                assert(transd == t.spec_trans(graph.spec_node(id), joined));

                // If the transferred fact changed, everything downstream of
                // `id` is queued now.
                if changed {
                    assert(forall|kk: int|
                        0 <= kk < Sort::spec_nexts(graph, id).len() ==> w2.contains(
                            #[trigger] Sort::spec_nexts(graph, id)[kk],
                        ));
                }
                assert forall|x: usize| #[trigger] w1.contains(x) implies w2.contains(x) by {
                }
                assert forall|x: usize| #[trigger] w2.contains(x) implies w1.contains(x)
                    || Sort::spec_nexts(graph, id).contains(x) by {
                }

                // The sources of `id` are all present in `m1`, so if `id` is
                // its own join source it was present before the final insert.
                assert forall|i2: int|
                    0 <= i2 < Sort::spec_joins(graph, id).len() implies m1.contains_key(
                    #[trigger] Sort::spec_joins(graph, id)[i2],
                ) by {
                }

                // Fixpoint equation for `id` itself, unless it is queued.
                if !w2.contains(id) {
                    if changed && Sort::spec_joins(graph, id).contains(id) {
                        Sort::joins_nexts_dual(graph, id, id);
                        assert(w2.contains(id));
                    } else {
                        assert forall|i2: int|
                            0 <= i2 < Sort::spec_joins(graph, id).len() implies
                            Sort::spec_join_fact(
                                m1[#[trigger] Sort::spec_joins(graph, id)[i2]],
                            ) == Sort::spec_join_fact(m2[Sort::spec_joins(graph, id)[i2]]) by {
                            let s = Sort::spec_joins(graph, id)[i2];
                            if s == id {
                                assert(m1.contains_key(id));
                                assert(prev == Sort::spec_join_fact(m1[id]));
                                assert(!changed);
                            }
                        }
                        lemma_source_facts_agree::<F, N, G, Sort>(graph, m1, m2, id);
                        assert(node_equation::<F, N, G, Trans, J, Sort>(t, j, graph, m2, id));
                    }
                }

                // Fixpoint equations of previously settled nodes survive.
                assert forall|n: usize|
                    #[trigger] p1.contains(n) && !w2.contains(n) implies node_equation::<
                    F,
                    N,
                    G,
                    Trans,
                    J,
                    Sort,
                >(t, j, graph, m2, n) by {
                    if n == id {
                        assert(node_equation::<F, N, G, Trans, J, Sort>(t, j, graph, m2, id));
                    } else {
                        assert(p0.contains(n));
                        if w0.contains(n) {
                            let k = choose|k: int| 0 <= k < w0.len() && w0[k] == n;
                            assert(k != 0);
                            assert(w1[k - 1] == n);
                            assert(w1.contains(n));
                            assert(w2.contains(n));
                            assert(false);
                        }
                        assert(node_equation::<F, N, G, Trans, J, Sort>(t, j, graph, m0, n));
                        assert forall|i2: int|
                            0 <= i2 < Sort::spec_joins(graph, n).len() implies
                            Sort::spec_join_fact(
                                m0[#[trigger] Sort::spec_joins(graph, n)[i2]],
                            ) == Sort::spec_join_fact(m2[Sort::spec_joins(graph, n)[i2]]) by {
                            let s = Sort::spec_joins(graph, n)[i2];
                            assert(m0.contains_key(s));
                            assert(m1[s] == m0[s]);
                            if s == id {
                                if changed {
                                    assert(graph.spec_nodes().contains(n));
                                    Sort::joins_nexts_dual(graph, n, id);
                                    assert(Sort::spec_nexts(graph, id).contains(n));
                                    assert(w2.contains(n));
                                    assert(false);
                                } else {
                                    assert(prev == Sort::spec_join_fact(m1[id]));
                                    assert(Sort::spec_join_fact(m2[id]) == transd);
                                }
                            } else {
                                assert(m2[s] == m1[s]);
                            }
                        }
                        assert(m0[n] == m2[n]);
                        lemma_equation_stable::<F, N, G, Trans, J, Sort>(t, j, graph, m0, m2, n);
                    }
                }

                // Reachability of everything processed or queued.
                assert forall|n: usize| #[trigger] p1.contains(n) implies n == seed || exists|
                    q: usize,
                |
                    #[trigger] p1.contains(q) && Sort::spec_nexts(graph, q).contains(n) by {
                    if n == id {
                        if id != seed {
                            assert(w0.contains(id));
                            let q = choose|q: usize|
                                #[trigger] p0.contains(q) && Sort::spec_nexts(graph, q).contains(
                                    id,
                                );
                            assert(p1.contains(q) && Sort::spec_nexts(graph, q).contains(id));
                        }
                    } else {
                        if n != seed {
                            let q = choose|q: usize|
                                #[trigger] p0.contains(q) && Sort::spec_nexts(graph, q).contains(
                                    n,
                                );
                            assert(p1.contains(q) && Sort::spec_nexts(graph, q).contains(n));
                        }
                    }
                }
                assert forall|n: usize| #[trigger] w2.contains(n) implies n == seed || exists|
                    q: usize,
                |
                    #[trigger] p1.contains(q) && Sort::spec_nexts(graph, q).contains(n) by {
                    if Sort::spec_nexts(graph, id).contains(n) {
                        assert(p1.contains(id) && Sort::spec_nexts(graph, id).contains(n));
                    } else {
                        assert(w1.contains(n));
                        assert(w0.contains(n));
                        if n != seed {
                            let q = choose|q: usize|
                                #[trigger] p0.contains(q) && Sort::spec_nexts(graph, q).contains(
                                    n,
                                );
                            assert(p1.contains(q) && Sort::spec_nexts(graph, q).contains(n));
                        }
                    }
                }

                // Every table entry is accounted for.
                assert forall|n: usize| #[trigger] m2.contains_key(n) implies p1.contains(n)
                    || w2.contains(n) || exists|q: usize|
                    #[trigger] p1.contains(q) && Sort::spec_joins(graph, q).contains(n) by {
                    if n != id {
                        assert(m1.contains_key(n));
                        if m0.contains_key(n) {
                            if p0.contains(n) {
                                assert(p1.contains(n));
                            } else if w0.contains(n) {
                                let k = choose|k: int| 0 <= k < w0.len() && w0[k] == n;
                                assert(k != 0);
                                assert(w1[k - 1] == n);
                                assert(w1.contains(n));
                                assert(w2.contains(n));
                            } else {
                                let q = choose|q: usize|
                                    #[trigger] p0.contains(q) && Sort::spec_joins(
                                        graph,
                                        q,
                                    ).contains(n);
                                assert(p1.contains(q) && Sort::spec_joins(graph, q).contains(n));
                            }
                        } else {
                            assert(Sort::spec_joins(graph, id).contains(n));
                            assert(p1.contains(id) && Sort::spec_joins(graph, id).contains(n));
                        }
                    }
                }

                // Entries never visited still hold their starting pair.
                assert forall|n: usize|
                    #[trigger] m2.contains_key(n) && !p1.contains(n) implies (n == seed && m2[n]
                    == self.spec_first_fact()) || m2[n] == init_info(top) by {
                    assert(n != id);
                    assert(m2[n] == m1[n]);
                    if m0.contains_key(n) {
                        assert(m1[n] == m0[n]);
                        assert(!p0.contains(n));
                    } else {
                        assert(m1[n] == init_info(top));
                    }
                }

                // The seed is either settled or still queued.
                if !p1.contains(seed) {
                    assert(w0.contains(seed));
                    assert(seed != id);
                    let k = choose|k: int| 0 <= k < w0.len() && w0[k] == seed;
                    assert(k != 0);
                    assert(w1[k - 1] == seed);
                    assert(w1.contains(seed));
                    assert(w2.contains(seed));
                }

                // The visit matches one unfolding of the model.
                let f0 = (fuel + 1) as nat;
                assert(w0.len() > 0 && f0 > 0);
                assert(w1 =~= w0.drop_first());
                let srcs = Sort::spec_joins(graph, id);
                let ma = with_defaults(m0, srcs, top);
                assert forall|k: usize| #[trigger] ma.contains_key(k) implies m1.contains_key(k)
                    && m1[k] == ma[k] by {
                    if m0.contains_key(k) {
                        assert(m1.contains_key(k) && m1[k] == m0[k]);
                    } else {
                        assert(srcs.contains(k));
                        let i3 = choose|i3: int| 0 <= i3 < srcs.len() && srcs[i3] == k;
                        assert(m1.contains_key(srcs[i3]));
                        assert(m1[k] == init_info(top));
                    }
                }
                assert forall|k: usize| #[trigger] m1.contains_key(k) implies ma.contains_key(
                    k,
                ) by {
                    if !m0.contains_key(k) {
                        assert(srcs.contains(k));
                    }
                }
                assert(m1 =~= ma);
                assert(changed == (prev != transd));
                if changed {
                    assert(w2 == enqueue_missing(w1, Sort::spec_nexts(graph, id)));
                } else {
                    assert(w2 == w1);
                }
                assert(run_model::<F, N, G, Trans, J, Sort>(t, j, top, graph, m0, w0, f0)
                    == run_model::<F, N, G, Trans, J, Sort>(
                    t,
                    j,
                    top,
                    graph,
                    m2,
                    w2,
                    (f0 - 1) as nat,
                ));
                assert((f0 - 1) as nat == fuel as nat);
                assert(run_model::<F, N, G, Trans, J, Sort>(
                    t,
                    j,
                    top,
                    graph,
                    infos@,
                    w2,
                    fuel as nat,
                ) == model0);
            }
        }

        if worklist.len() > 0 {
            proof {
                assert(fuel == 0);
                assert(run_model::<F, N, G, Trans, J, Sort>(
                    t,
                    j,
                    top,
                    graph,
                    infos@,
                    worklist@,
                    fuel as nat,
                ) is None);
                assert(model0 is None);
            }
            return None;
        }
        proof {
            assert(worklist@.len() == 0);
            assert(run_model::<F, N, G, Trans, J, Sort>(
                t,
                j,
                top,
                graph,
                infos@,
                worklist@,
                fuel as nat,
            ) == Some(infos@));
            assert(model0 == Some(infos@));
            assert(forall|n: usize| !worklist@.contains(n));
            assert(is_solution::<F, N, G, Trans, J, Sort>(
                self.spec_transfer(),
                self.spec_joiner(),
                self.spec_top(),
                graph,
                infos@,
                processed,
            ));
            assert(solved::<F, N, G, Trans, J, Sort>(
                self.spec_transfer(),
                self.spec_joiner(),
                self.spec_top(),
                graph,
                infos@,
            ));
        }
        Some(infos)
    }
}

impl<F, N, G, Trans, J> Analyzer<F, N, G, Trans, J, Forward> where
    F: Fact,
    N: Node,
    G: Graph<N>,
    Trans: Transfer<F, N>,
    J: Join<F>,
 {
    /// Create a new forwards problem with the given top fact, transfer
    /// function and join function. `top` should have the property that
    /// `join(vec![f, top]) == f` for all facts `f`.
    pub fn new_forward(top: F, trans: Trans, join: J) -> (r: Self)
        ensures
            r.wf(),
            r.spec_top() == top,
            r.spec_transfer() == trans,
            r.spec_joiner() == join,
            r.spec_first_fact() == init_info(top),
    {
        Analyzer {
            first_fact: NodeInfo { before: top.dup(), after: top.dup() },
            init_fact: NodeInfo { before: top.dup(), after: top },
            trans,
            join,
            _graph: core::marker::PhantomData,
            _node: core::marker::PhantomData,
            _sort: core::marker::PhantomData,
        }
    }

    /// Replace the seed node's entry fact, which its pair starts from.
    pub fn with_entry_fact(self, enter: F) -> (r: Self)
        requires
            self.wf(),
        ensures
            r.wf(),
            r.spec_top() == self.spec_top(),
            r.spec_transfer() == self.spec_transfer(),
            r.spec_joiner() == self.spec_joiner(),
            r.spec_first_fact() == (NodeInfo {
                before: enter,
                after: self.spec_first_fact().after,
            }),
    {
        Analyzer {
            first_fact: NodeInfo { before: enter, after: self.first_fact.after },
            ..self
        }
    }
}

impl<F, N, G, Trans, J> Analyzer<F, N, G, Trans, J, Backward> where
    F: Fact,
    N: Node,
    G: Graph<N>,
    Trans: Transfer<F, N>,
    J: Join<F>,
 {
    /// Create a new backwards problem with the given top fact, transfer
    /// function and join function. `top` should have the property that
    /// `join(vec![f, top]) == f` for all facts `f`.
    pub fn new_backward(top: F, trans: Trans, join: J) -> (r: Self)
        ensures
            r.wf(),
            r.spec_top() == top,
            r.spec_transfer() == trans,
            r.spec_joiner() == join,
            r.spec_first_fact() == init_info(top),
    {
        Analyzer {
            first_fact: NodeInfo { before: top.dup(), after: top.dup() },
            init_fact: NodeInfo { before: top.dup(), after: top },
            trans,
            join,
            _graph: core::marker::PhantomData,
            _node: core::marker::PhantomData,
            _sort: core::marker::PhantomData,
        }
    }

    /// Replace the seed node's exit fact, which its pair starts from.
    pub fn with_exit_fact(self, exit: F) -> (r: Self)
        requires
            self.wf(),
        ensures
            r.wf(),
            r.spec_top() == self.spec_top(),
            r.spec_transfer() == self.spec_transfer(),
            r.spec_joiner() == self.spec_joiner(),
            r.spec_first_fact() == (NodeInfo {
                before: self.spec_first_fact().before,
                after: exit,
            }),
    {
        Analyzer {
            first_fact: NodeInfo { before: self.first_fact.before, after: exit },
            ..self
        }
    }
}

} // verus!
