//! Liveness analysis finds all variables which may be used after a given
//! point. It is a backwards problem with
//!
//! ```plain
//! trans(b) = union(gen(b), out(b) - kill(b))
//! join = union
//! ```
//!
//! where `gen(b)` gives the variables used, and `kill(b)` gives the
//! variables reassigned.

use creek::{Analyzer, Fact, Graph, Join, Node, NodeInfo, Transfer};
use fnv::{FnvHashMap, FnvHashSet};
use std::collections::HashMap;

/// A variable with a unique id
#[derive(Clone, Copy, Debug, Eq, Hash, PartialEq)]
pub struct Variable(pub usize);

/// A simple statement, which is either a declaration (`var x`), a constant
/// assignment (`x = 5`) or a variable assignment (`x = a`)
#[derive(Debug)]
pub enum Statement {
    Declare(Variable),
    ConstAssign(Variable, i32),
    VarAssign(Variable, Variable),
}

/// A sequence of statements
#[derive(Debug)]
pub struct Block {
    pub id: usize,
    pub stmts: Vec<Statement>,
    pub preds: Vec<usize>,
    pub succs: Vec<usize>,
}

impl Node for Block {
    type NodeId = usize;
}

pub fn block(id: usize, preds: &[usize], succs: &[usize], stmts: Vec<Statement>) -> Block {
    Block { id, stmts, preds: preds.to_vec(), succs: succs.to_vec() }
}

#[derive(Debug)]
pub struct NodeGraph {
    blocks: FnvHashMap<usize, Block>,
    entry: usize,
    exit: usize,
}

impl NodeGraph {
    /// Create a `NodeGraph` with the given initial block
    pub fn new(b: Block) -> Self {
        let mut graph = Self { blocks: FnvHashMap::default(), entry: b.id, exit: b.id };
        graph.blocks.insert(b.id, b);
        graph
    }

    /// Insert a block
    pub fn insert(&mut self, b: Block) {
        if self.blocks.insert(b.id, b).is_some() {
            panic!("duplicate block id");
        }
    }

    /// Insert an exit block
    pub fn insert_exit(&mut self, b: Block) {
        self.exit = b.id;
        self.insert(b);
    }
}

impl Graph<Block> for NodeGraph {
    // The spec members exist only for verification; they are never called
    // at run time.
    fn spec_nodes(&self) -> vstd::set::Set<usize> {
        unreachable!()
    }

    fn spec_node(&self, _id: usize) -> Block {
        unreachable!()
    }

    fn spec_entry(&self) -> usize {
        unreachable!()
    }

    fn spec_exit(&self) -> usize {
        unreachable!()
    }

    fn spec_preds(&self, _id: usize) -> vstd::seq::Seq<usize> {
        unreachable!()
    }

    fn spec_succs(&self, _id: usize) -> vstd::seq::Seq<usize> {
        unreachable!()
    }

    fn get(&self, id: usize) -> &Block {
        self.blocks.get(&id).unwrap()
    }

    fn get_entry(&self) -> usize {
        self.entry
    }

    fn get_exit(&self) -> usize {
        self.exit
    }

    fn get_preds(&self, id: usize) -> &[usize] {
        &self.get(id).preds
    }

    fn get_succs(&self, id: usize) -> &[usize] {
        &self.get(id).succs
    }
}

#[derive(Clone, Debug, PartialEq)]
struct LivenessFact {
    live: FnvHashSet<Variable>,
}

impl LivenessFact {
    fn new(live: FnvHashSet<Variable>) -> Self {
        Self { live }
    }
}

impl Fact for LivenessFact {
    fn dup(&self) -> Self {
        self.clone()
    }

    fn same(&self, other: &Self) -> bool {
        self == other
    }
}

fn vars(v: &[usize]) -> FnvHashSet<Variable> {
    v.iter().map(|&x| Variable(x)).collect()
}

/// ```plain
/// trans(b) = union(gen(b), out(b) - kill(b))
/// ```
struct LiveTrans;

impl Transfer<LivenessFact, Block> for LiveTrans {
    fn spec_trans(&self, _node: Block, _fact: LivenessFact) -> LivenessFact {
        unreachable!()
    }

    fn trans(&self, b: &Block, fact: LivenessFact) -> LivenessFact {
        let mut used = FnvHashSet::default();
        let mut killed = FnvHashSet::default();

        for stmt in b.stmts.iter() {
            match stmt {
                Statement::Declare(_) => {}
                Statement::ConstAssign(var, _) => {
                    killed.insert(*var);
                }
                Statement::VarAssign(var, war) => {
                    killed.insert(*var);
                    used.insert(*war);
                }
            }
        }

        for var in fact.live {
            if !killed.contains(&var) {
                used.insert(var);
            }
        }

        LivenessFact { live: used }
    }
}

/// ```plain
/// join = union
/// ```
struct UnionJoin;

impl Join<LivenessFact> for UnionJoin {
    fn spec_join(&self, _facts: vstd::seq::Seq<LivenessFact>) -> LivenessFact {
        unreachable!()
    }

    fn join(&self, facts: Vec<LivenessFact>) -> LivenessFact {
        let mut res = FnvHashSet::default();

        for fact in facts {
            for var in fact.live {
                res.insert(var);
            }
        }

        LivenessFact { live: res }
    }
}

/// ```plain
///       +-1-----+
///       | a = 0 |
///       | b = 1 |
///       +-------+
///        |     |
///        v     v
/// +-2-----+   +-3-----+
/// | c = b |   | c = a |
/// +-------+   +-------+
///        |     |
///        v     v
///       +-4-----+
///       | d = a |
///       +-------+
///
/// in(1)  = {}
/// out(1) = {a, b}
/// in(2)  = {a, b}
/// out(2) = {a}
/// in(3)  = {a}
/// out(3) = {a}
/// in(4)  = {a}
/// out(4) = {}
/// ```
#[test]
fn live_one_branch() {
    // Build graph
    let b1 = block(
        1,
        &[],
        &[2, 3],
        vec![
            Statement::ConstAssign(Variable(0), 0),
            Statement::ConstAssign(Variable(1), 1),
        ],
    );
    let b2 = block(2, &[1], &[4], vec![Statement::VarAssign(Variable(3), Variable(1))]);
    let b3 = block(3, &[1], &[4], vec![Statement::VarAssign(Variable(3), Variable(0))]);
    let b4 = block(4, &[2, 3], &[], vec![Statement::VarAssign(Variable(4), Variable(0))]);

    let mut graph = NodeGraph::new(b1);
    graph.insert(b2);
    graph.insert(b3);
    graph.insert_exit(b4);

    // Analyze
    let top = LivenessFact { live: FnvHashSet::default() };
    let analyzer = Analyzer::new_backward(top, LiveTrans, UnionJoin);
    let res = analyzer.solve(&graph).unwrap();

    // Compare
    let mut expected: HashMap<usize, NodeInfo<LivenessFact>> = HashMap::new();
    expected.insert(
        1,
        NodeInfo {
            before: LivenessFact::new(vars(&[])),
            after: LivenessFact::new(vars(&[0, 1])),
        },
    );
    expected.insert(
        2,
        NodeInfo {
            before: LivenessFact::new(vars(&[0, 1])),
            after: LivenessFact::new(vars(&[0])),
        },
    );
    expected.insert(
        3,
        NodeInfo {
            before: LivenessFact::new(vars(&[0])),
            after: LivenessFact::new(vars(&[0])),
        },
    );
    expected.insert(
        4,
        NodeInfo {
            before: LivenessFact::new(vars(&[0])),
            after: LivenessFact::new(vars(&[])),
        },
    );

    assert_eq!(expected, res);
}

/// ```plain
/// +-1-----+
/// | a = 0 |
/// +-------+
///     |
///     v
/// +-2-----+
/// | b = 1 |<-+
/// | c = a |  |
/// +-------+  |
///   |   |    |
///   |   +----+
///   v
/// +-3-----+
/// | d = a |
/// | e = b |
/// +-------+
///
/// in(1)  = {}
/// out(1) = {a}
/// in(2)  = {a}
/// out(2) = {a, b}
/// in(3)  = {a, b}
/// out(3) = {}
/// ```
#[test]
fn one_loop() {
    // Build graph
    let b1 = block(1, &[], &[2], vec![Statement::ConstAssign(Variable(0), 0)]);
    let b2 = block(
        2,
        &[1, 2],
        &[2, 3],
        vec![
            Statement::ConstAssign(Variable(1), 1),
            Statement::VarAssign(Variable(2), Variable(0)),
        ],
    );
    let b3 = block(
        3,
        &[2],
        &[],
        vec![
            Statement::VarAssign(Variable(3), Variable(0)),
            Statement::VarAssign(Variable(4), Variable(1)),
        ],
    );

    let mut graph = NodeGraph::new(b1);
    graph.insert(b2);
    graph.insert_exit(b3);

    // Analyze
    let top = LivenessFact { live: FnvHashSet::default() };
    let analyzer = Analyzer::new_backward(top, LiveTrans, UnionJoin);
    let res = analyzer.solve(&graph).unwrap();

    // Compare
    let mut expected: HashMap<usize, NodeInfo<LivenessFact>> = HashMap::new();
    expected.insert(
        1,
        NodeInfo {
            before: LivenessFact::new(vars(&[])),
            after: LivenessFact::new(vars(&[0])),
        },
    );
    expected.insert(
        2,
        NodeInfo {
            before: LivenessFact::new(vars(&[0])),
            after: LivenessFact::new(vars(&[0, 1])),
        },
    );
    expected.insert(
        3,
        NodeInfo {
            before: LivenessFact::new(vars(&[0, 1])),
            after: LivenessFact::new(vars(&[])),
        },
    );

    assert_eq!(expected, res);
}

///       +-1-----+
///       | k = 2 |
///       +-------+
///        |     |
///        v     v
/// +-2-----+   +-3-----+
/// | a = k |   | a = k |
/// +-------+   +-------+
///     |           |
///     v           v
/// +-4-----+   +-5-----+
/// | x = 5 |   | x = 8 |
/// +-------+   +-------+
///        |     |
///        v     v
///       +-6-----+
///       | k = a |<-+
///       +-------+  |
///         |   |    |
///    +----+   |    |
///    |        v    |
///    |  +-7-----+  |
///    |  | b = 2 |  |
///    |  +-------+  |
///    |      |      |
///    |      v      |
///    |  +-8-----+  |
///    |  | x = a |  |
///    |  | y = b |  |
///    |  +-------+  |
///    |      |      |
///    |      v      |
///    |  +-9-----+  |
///    |  | k = k |  |
///    |  +-------+  |
///    |        |    |
///    +----+   +----+
///         |
///         v
///       +-10----+
///       | m = a |
///       | n = x |
///       +-------+
#[test]
fn branch_and_loop() {
    let mut graph = NodeGraph::new(block(
        1,
        &[],
        &[2, 3],
        vec![Statement::ConstAssign(Variable(0), 2)],
    ));
    graph.insert(block(2, &[1], &[4], vec![Statement::VarAssign(Variable(1), Variable(0))]));
    graph.insert(block(3, &[1], &[5], vec![Statement::VarAssign(Variable(1), Variable(0))]));
    graph.insert(block(4, &[2], &[6], vec![Statement::ConstAssign(Variable(2), 5)]));
    graph.insert(block(5, &[3], &[6], vec![Statement::ConstAssign(Variable(2), 8)]));
    graph.insert(block(
        6,
        &[4, 5, 9],
        &[7, 10],
        vec![Statement::VarAssign(Variable(0), Variable(1))],
    ));
    graph.insert(block(7, &[6], &[8], vec![Statement::ConstAssign(Variable(3), 2)]));
    graph.insert(block(
        8,
        &[7],
        &[9],
        vec![
            Statement::VarAssign(Variable(2), Variable(1)),
            Statement::VarAssign(Variable(4), Variable(3)),
        ],
    ));
    graph.insert(block(9, &[8], &[6], vec![Statement::VarAssign(Variable(0), Variable(0))]));
    graph.insert_exit(block(
        10,
        &[6],
        &[],
        vec![
            Statement::VarAssign(Variable(5), Variable(1)),
            Statement::VarAssign(Variable(6), Variable(2)),
        ],
    ));

    // Analyze
    let top = LivenessFact { live: FnvHashSet::default() };
    let analyzer = Analyzer::new_backward(top, LiveTrans, UnionJoin);
    let res = analyzer.solve(&graph).unwrap();

    // Compare
    let mut expected: HashMap<usize, NodeInfo<LivenessFact>> = HashMap::new();
    expected.insert(
        1,
        NodeInfo {
            before: LivenessFact::new(vars(&[])),
            after: LivenessFact::new(vars(&[0])),
        },
    );
    expected.insert(
        2,
        NodeInfo {
            before: LivenessFact::new(vars(&[0])),
            after: LivenessFact::new(vars(&[1])),
        },
    );
    expected.insert(
        3,
        NodeInfo {
            before: LivenessFact::new(vars(&[0])),
            after: LivenessFact::new(vars(&[1])),
        },
    );
    expected.insert(
        4,
        NodeInfo {
            before: LivenessFact::new(vars(&[1])),
            after: LivenessFact::new(vars(&[1, 2])),
        },
    );
    expected.insert(
        5,
        NodeInfo {
            before: LivenessFact::new(vars(&[1])),
            after: LivenessFact::new(vars(&[1, 2])),
        },
    );
    expected.insert(
        6,
        NodeInfo {
            before: LivenessFact::new(vars(&[1, 2])),
            after: LivenessFact::new(vars(&[0, 1, 2])),
        },
    );
    expected.insert(
        7,
        NodeInfo {
            before: LivenessFact::new(vars(&[0, 1])),
            after: LivenessFact::new(vars(&[0, 1, 3])),
        },
    );
    expected.insert(
        8,
        NodeInfo {
            before: LivenessFact::new(vars(&[0, 1, 3])),
            after: LivenessFact::new(vars(&[0, 1, 2])),
        },
    );
    expected.insert(
        9,
        NodeInfo {
            before: LivenessFact::new(vars(&[0, 1, 2])),
            after: LivenessFact::new(vars(&[1, 2])),
        },
    );
    expected.insert(
        10,
        NodeInfo {
            before: LivenessFact::new(vars(&[1, 2])),
            after: LivenessFact::new(vars(&[])),
        },
    );

    assert_eq!(expected, res);
}
