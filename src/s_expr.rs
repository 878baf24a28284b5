use std::sync::Arc;

use vstd::prelude::*;

use crate::expression::RawExpr;

verus! {

/// How a join combines its two inputs; join conditions live in filters above it.
#[derive(Debug, Clone, Copy, PartialEq, Eq, Structural)]
pub enum JoinType {
    Inner,
    Cross,
}

/// The operator held by one plan node.
#[derive(Debug)]
pub enum RelOperator {
    Scan { table_index: usize, columns: Vec<usize> },
    Filter { predicate: RawExpr },
    Join { join_type: JoinType },
    Aggregate { group_items: Vec<usize>, aggregate_functions: Vec<usize> },
    Sort { keys: Vec<usize> },
    Limit { limit: Option<usize>, offset: usize },
    Project { columns: Vec<usize> },
    EvalScalar { items: Vec<usize> },
}

/// The kind of an operator, without its payload.
#[derive(Debug, Clone, Copy, PartialEq, Eq, Structural)]
pub enum RelOpKind {
    Scan,
    Filter,
    Join,
    Aggregate,
    Sort,
    Limit,
    Project,
    EvalScalar,
}

pub open spec fn op_kind(op: RelOperator) -> RelOpKind {
    match op {
        RelOperator::Scan { .. } => RelOpKind::Scan,
        RelOperator::Filter { .. } => RelOpKind::Filter,
        RelOperator::Join { .. } => RelOpKind::Join,
        RelOperator::Aggregate { .. } => RelOpKind::Aggregate,
        RelOperator::Sort { .. } => RelOpKind::Sort,
        RelOperator::Limit { .. } => RelOpKind::Limit,
        RelOperator::Project { .. } => RelOpKind::Project,
        RelOperator::EvalScalar { .. } => RelOpKind::EvalScalar,
    }
}

impl RelOperator {
    pub fn kind(&self) -> (r: RelOpKind)
        ensures
            r == op_kind(*self),
    {
        match self {
            RelOperator::Scan { .. } => RelOpKind::Scan,
            RelOperator::Filter { .. } => RelOpKind::Filter,
            RelOperator::Join { .. } => RelOpKind::Join,
            RelOperator::Aggregate { .. } => RelOpKind::Aggregate,
            RelOperator::Sort { .. } => RelOpKind::Sort,
            RelOperator::Limit { .. } => RelOpKind::Limit,
            RelOperator::Project { .. } => RelOpKind::Project,
            RelOperator::EvalScalar { .. } => RelOpKind::EvalScalar,
        }
    }
}

/// An immutable plan node. Children are shared: a rewrite builds new nodes
/// and keeps every unchanged child by reference.
#[derive(Debug)]
pub struct SExpr {
    pub plan: Arc<RelOperator>,
    pub children: Vec<Arc<SExpr>>,
}

/// The mathematical value of a plan tree: an operator and the trees of its children.
pub struct PlanTree {
    pub plan: RelOperator,
    pub children: Seq<PlanTree>,
}

pub open spec fn tree_of(e: SExpr) -> PlanTree
    decreases e,
{
    PlanTree { plan: *e.plan, children: trees_of(e.children@, e.children.len() as int) }
}

/// The trees of the first `n` nodes of `cs`.
pub open spec fn trees_of(cs: Seq<Arc<SExpr>>, n: int) -> Seq<PlanTree>
    decreases cs, n,
{
    if n <= 0 || n > cs.len() {
        Seq::empty()
    } else {
        trees_of(cs, n - 1).push(tree_of(*cs[n - 1]))
    }
}

pub proof fn lemma_trees_of(cs: Seq<Arc<SExpr>>, n: int)
    requires
        0 <= n <= cs.len(),
    ensures
        trees_of(cs, n).len() == n,
        forall|i: int| 0 <= i < n ==> #[trigger] trees_of(cs, n)[i] == tree_of(*cs[i]),
    decreases n,
{
    if n > 0 {
        lemma_trees_of(cs, n - 1);
    }
}

/// The trees of all nodes of `cs`.
pub open spec fn trees(cs: Seq<Arc<SExpr>>) -> Seq<PlanTree> {
    trees_of(cs, cs.len() as int)
}

pub proof fn lemma_trees(cs: Seq<Arc<SExpr>>)
    ensures
        trees(cs).len() == cs.len(),
        forall|i: int| 0 <= i < cs.len() ==> #[trigger] trees(cs)[i] == tree_of(*cs[i]),
{
    lemma_trees_of(cs, cs.len() as int);
}

impl View for SExpr {
    type V = PlanTree;

    open spec fn view(&self) -> PlanTree {
        tree_of(*self)
    }
}

impl SExpr {
    /// A node with the given operator and children.
    pub fn create(plan: Arc<RelOperator>, children: Vec<Arc<SExpr>>) -> (r: SExpr)
        ensures
            r.plan == plan,
            r.children == children,
            r@.plan == *plan,
            r@.children == trees(children@),
    {
        SExpr { plan, children }
    }

    /// A node without children.
    pub fn create_leaf(plan: Arc<RelOperator>) -> (r: SExpr)
        ensures
            r@.plan == *plan,
            r@.children == Seq::<PlanTree>::empty(),
    {
        SExpr { plan, children: Vec::new() }
    }

    /// A node with one child.
    pub fn create_unary(plan: Arc<RelOperator>, child: Arc<SExpr>) -> (r: SExpr)
        ensures
            r@.plan == *plan,
            r@.children == seq![tree_of(*child)],
    {
        let mut children: Vec<Arc<SExpr>> = Vec::new();
        children.push(child);
        let r = SExpr { plan, children };
        proof {
            lemma_trees(r.children@);
            assert(r@.children =~= seq![tree_of(*child)]);
        }
        r
    }

    /// A node with two children.
    pub fn create_binary(plan: Arc<RelOperator>, left: Arc<SExpr>, right: Arc<SExpr>) -> (r: SExpr)
        ensures
            r@.plan == *plan,
            r@.children == seq![tree_of(*left), tree_of(*right)],
    {
        let mut children: Vec<Arc<SExpr>> = Vec::new();
        children.push(left);
        children.push(right);
        let r = SExpr { plan, children };
        proof {
            lemma_trees(r.children@);
            assert(r@.children =~= seq![tree_of(*left), tree_of(*right)]);
        }
        r
    }

    /// The number of children.
    pub fn arity(&self) -> (r: usize)
        ensures
            r == self@.children.len(),
    {
        proof {
            lemma_trees(self.children@);
        }
        self.children.len()
    }

    /// The `n`-th child.
    pub fn child(&self, n: usize) -> (r: &Arc<SExpr>)
        requires
            n < self@.children.len(),
        ensures
            tree_of(**r) == self@.children[n as int],
    {
        proof {
            lemma_trees(self.children@);
        }
        &self.children[n]
    }
}

} // verus!
