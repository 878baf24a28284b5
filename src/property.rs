use std::sync::Arc;

use vstd::prelude::*;

use crate::column_set::ColumnSet;
use crate::s_expr::{lemma_trees, tree_of, PlanTree, RelOperator, SExpr};

verus! {

/// The output columns of an operator whose children output `cs`.
pub open spec fn op_columns(op: RelOperator, cs: Seq<Set<usize>>) -> Set<usize> {
    let first = if cs.len() > 0 { cs[0] } else { Set::empty() };
    let second = if cs.len() > 1 { cs[1] } else { Set::empty() };
    match op {
        RelOperator::Scan { columns, .. } => columns@.to_set(),
        RelOperator::Filter { .. } => first,
        RelOperator::Join { .. } => first.union(second),
        RelOperator::Aggregate { group_items, aggregate_functions } => group_items@.to_set().union(
            aggregate_functions@.to_set(),
        ),
        RelOperator::Sort { .. } => first,
        RelOperator::Limit { .. } => first,
        RelOperator::Project { columns } => columns@.to_set(),
        RelOperator::EvalScalar { items } => first.union(items@.to_set()),
    }
}

/// The output columns of a plan tree, derived bottom-up.
pub open spec fn output_columns(t: PlanTree) -> Set<usize>
    decreases t,
{
    op_columns(t.plan, columns_of_trees(t.children, t.children.len() as int))
}

/// The output columns of the first `n` trees of `ts`.
pub open spec fn columns_of_trees(ts: Seq<PlanTree>, n: int) -> Seq<Set<usize>>
    decreases ts, n,
{
    if n <= 0 || n > ts.len() {
        Seq::empty()
    } else {
        columns_of_trees(ts, n - 1).push(output_columns(ts[n - 1]))
    }
}

pub proof fn lemma_columns_of_trees(ts: Seq<PlanTree>, n: int)
    requires
        0 <= n <= ts.len(),
    ensures
        columns_of_trees(ts, n).len() == n,
        forall|i: int| 0 <= i < n ==> #[trigger] columns_of_trees(ts, n)[i] == output_columns(ts[i]),
    decreases n,
{
    if n > 0 {
        lemma_columns_of_trees(ts, n - 1);
    }
}

/// The output columns of a tree are its operator's rule applied to its children's columns.
pub proof fn lemma_output_columns(t: PlanTree)
    ensures
        columns_of_trees(t.children, t.children.len() as int).len() == t.children.len(),
        forall|i: int|
            0 <= i < t.children.len() ==> #[trigger] columns_of_trees(
                t.children,
                t.children.len() as int,
            )[i] == output_columns(t.children[i]),
{
    lemma_columns_of_trees(t.children, t.children.len() as int);
}

/// Logical metadata of a subtree.
#[derive(Debug)]
pub struct RelationalProperty {
    pub output_columns: ColumnSet,
}

/// Where the rows of a subtree live.
#[derive(Debug, Clone, Copy, PartialEq, Eq, Structural)]
pub enum Distribution {
    Any,
    Serial,
    Broadcast,
    Hash,
}

/// What a parent requires of a child: a distribution, with the hash keys
/// when it is `Hash`.
#[derive(Debug)]
pub struct RequiredProperty {
    pub distribution: Distribution,
    pub hash_keys: Vec<usize>,
}

/// What a subtree provides.
#[derive(Debug)]
pub struct PhysicalProperty {
    pub distribution: Distribution,
    pub hash_keys: Vec<usize>,
}

/// The distribution that a parent with operator `op` and requirement
/// `(dist, keys)` asks of its child at `index`.
pub open spec fn required_distribution(
    op: RelOperator,
    dist: Distribution,
    keys: Seq<usize>,
    index: int,
) -> (Distribution, Seq<usize>) {
    match op {
        RelOperator::Aggregate { group_items, .. } => if group_items.len() > 0 {
            (Distribution::Hash, group_items@)
        } else {
            (Distribution::Serial, Seq::empty())
        },
        RelOperator::Sort { .. } => (Distribution::Serial, Seq::empty()),
        RelOperator::Limit { .. } => (Distribution::Serial, Seq::empty()),
        RelOperator::Join { .. } => if index == 1 {
            (Distribution::Broadcast, Seq::empty())
        } else {
            (Distribution::Any, Seq::empty())
        },
        _ => (dist, keys),
    }
}

fn copy_ids(v: &Vec<usize>) -> (r: Vec<usize>)
    ensures
        r@ == v@,
{
    let mut r: Vec<usize> = Vec::new();
    let mut i: usize = 0;
    while i < v.len()
        invariant
            i <= v.len(),
            r@ == v@.subrange(0, i as int),
        decreases v.len() - i,
    {
        r.push(v[i]);
        i += 1;
        proof {
            assert(r@ =~= v@.subrange(0, i as int));
        }
    }
    proof {
        assert(r@ =~= v@);
    }
    r
}

impl RequiredProperty {
    /// Whether a subtree that provides `provided` meets this requirement;
    /// where it does not, an enforcing operator is needed.
    pub fn satisfied_by(&self, provided: &PhysicalProperty) -> (r: bool)
        ensures
            r == (self.distribution == Distribution::Any || (self.distribution
                == provided.distribution && (self.distribution == Distribution::Hash
                ==> self.hash_keys@ == provided.hash_keys@))),
    {
        match self.distribution {
            Distribution::Any => true,
            Distribution::Hash => {
                if provided.distribution != Distribution::Hash || self.hash_keys.len()
                    != provided.hash_keys.len() {
                    return false;
                }
                let mut i: usize = 0;
                while i < self.hash_keys.len()
                    invariant
                        self.distribution == Distribution::Hash,
                        provided.distribution == Distribution::Hash,
                        self.hash_keys.len() == provided.hash_keys.len(),
                        i <= self.hash_keys.len(),
                        forall|j: int| 0 <= j < i ==> self.hash_keys@[j] == provided.hash_keys@[j],
                    decreases self.hash_keys.len() - i,
                {
                    if self.hash_keys[i] != provided.hash_keys[i] {
                        proof {
                            assert(self.hash_keys@[i as int] != provided.hash_keys@[i as int]);
                        }
                        return false;
                    }
                    i += 1;
                }
                proof {
                    assert(self.hash_keys@ =~= provided.hash_keys@);
                }
                true
            },
            _ => self.distribution == provided.distribution,
        }
    }
}

/// Derives the requirement on the child at `child_index` of a node with
/// operator `op`, from the operator and the node's own requirement alone.
pub fn derive_required(op: &RelOperator, required: &RequiredProperty, child_index: usize) -> (r:
    RequiredProperty)
    ensures
        (r.distribution, r.hash_keys@) == required_distribution(
            *op,
            required.distribution,
            required.hash_keys@,
            child_index as int,
        ),
{
    match op {
        RelOperator::Aggregate { group_items, .. } => if group_items.len() > 0 {
            RequiredProperty { distribution: Distribution::Hash, hash_keys: copy_ids(group_items) }
        } else {
            RequiredProperty { distribution: Distribution::Serial, hash_keys: Vec::new() }
        },
        RelOperator::Sort { .. } => RequiredProperty {
            distribution: Distribution::Serial,
            hash_keys: Vec::new(),
        },
        RelOperator::Limit { .. } => RequiredProperty {
            distribution: Distribution::Serial,
            hash_keys: Vec::new(),
        },
        RelOperator::Join { .. } => if child_index == 1 {
            RequiredProperty { distribution: Distribution::Broadcast, hash_keys: Vec::new() }
        } else {
            RequiredProperty { distribution: Distribution::Any, hash_keys: Vec::new() }
        },
        _ => RequiredProperty {
            distribution: required.distribution,
            hash_keys: copy_ids(&required.hash_keys),
        },
    }
}

/// The view of a list of column sets.
pub open spec fn column_views(v: Seq<ColumnSet>) -> Seq<Set<usize>> {
    v.map_values(|c: ColumnSet| c@)
}

/// Applies an operator's own column rule to its children's column sets.
pub fn derive_op_columns(op: &RelOperator, children: &Vec<ColumnSet>) -> (r: ColumnSet)
    ensures
        r@ == op_columns(*op, column_views(children@)),
{
    let mut r = ColumnSet::new();
    match op {
        RelOperator::Scan { columns, .. } => r.extend_from(columns),
        RelOperator::Join { .. } => {
            if children.len() > 0 {
                r.union_with(&children[0]);
            }
            if children.len() > 1 {
                r.union_with(&children[1]);
            }
        },
        RelOperator::Aggregate { group_items, aggregate_functions } => {
            r.extend_from(group_items);
            r.extend_from(aggregate_functions);
        },
        RelOperator::Project { columns } => r.extend_from(columns),
        RelOperator::EvalScalar { items } => {
            if children.len() > 0 {
                r.union_with(&children[0]);
            }
            r.extend_from(items);
        },
        _ => {
            if children.len() > 0 {
                r.union_with(&children[0]);
            }
        },
    }
    proof {
        assert(r@ =~= op_columns(*op, column_views(children@)));
    }
    r
}

/// Derives the output columns of a plan tree bottom-up.
pub fn derive_columns(e: &SExpr) -> (r: ColumnSet)
    ensures
        r@ == output_columns(e@),
    decreases e,
{
    let mut cols: Vec<ColumnSet> = Vec::new();
    let mut i: usize = 0;
    proof {
        lemma_trees(e.children@);
        lemma_output_columns(e@);
    }
    while i < e.children.len()
        invariant
            i <= e.children.len(),
            cols.len() == i,
            forall|j: int|
                0 <= j < i ==> (#[trigger] cols@[j])@ == output_columns(tree_of(*e.children@[j])),
        decreases e.children.len() - i,
    {
        let c = derive_columns(&e.children[i]);
        cols.push(c);
        i += 1;
    }
    proof {
        assert(column_views(cols@) =~= crate::property::columns_of_trees(
            e@.children,
            e@.children.len() as int,
        ));
    }
    derive_op_columns(&e.plan, &cols)
}

/// Derives properties of a plan subtree.
pub struct RelExpr {
    pub s_expr: Arc<SExpr>,
}

impl RelExpr {
    pub fn with_s_expr(s_expr: Arc<SExpr>) -> (r: RelExpr)
        ensures
            r.s_expr == s_expr,
    {
        RelExpr { s_expr }
    }

    /// The relational property of the subtree.
    pub fn derive_relational_prop(&self) -> (r: RelationalProperty)
        ensures
            r.output_columns@ == output_columns(self.s_expr@),
    {
        RelationalProperty { output_columns: derive_columns(&self.s_expr) }
    }

    /// The relational property of the subtree's `index`-th child.
    pub fn derive_relational_prop_child(&self, index: usize) -> (r: RelationalProperty)
        requires
            index < self.s_expr@.children.len(),
        ensures
            r.output_columns@ == output_columns(self.s_expr@.children[index as int]),
    {
        let child = self.s_expr.child(index);
        RelationalProperty { output_columns: derive_columns(child) }
    }
}

} // verus!
