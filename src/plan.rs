use std::sync::Arc;

use vstd::prelude::*;

use crate::error::ErrorCode;
use crate::heuristic::{lemma_run_batches_keeps_columns, run_batches, MAX_ITERATIONS};
use crate::measure::{filter_weight, lemma_default_batches_within_cap, saturated};
use crate::optimize_context::OptimizeContext;
use crate::property::output_columns;
use crate::rule::default_batches;
use crate::s_expr::{PlanTree, SExpr};

verus! {

/// The columns that the binder exposed for a query.
#[derive(Debug)]
pub struct BindContext {
    pub columns: Vec<usize>,
}

/// The tables and columns that a query refers to.
#[derive(Debug)]
pub struct Metadata {
    pub tables: Vec<String>,
}

#[derive(Debug, Clone, Copy, PartialEq, Eq, Structural)]
pub enum ExplainKind {
    Syntax,
    Raw,
    Optimized,
}

#[derive(Debug)]
pub struct CreateDatabasePlan {
    pub if_not_exists: bool,
    pub database: String,
}

#[derive(Debug)]
pub struct CreateTablePlan {
    pub if_not_exists: bool,
    pub database: String,
    pub table: String,
}

#[derive(Debug)]
pub struct CreateUserPlan {
    pub user: String,
    pub hostname: String,
}

#[derive(Debug)]
pub struct CreateViewPlan {
    pub database: String,
    pub view: String,
    pub subquery: String,
}

#[derive(Debug)]
pub struct DropUserPlan {
    pub if_exists: bool,
    pub user: String,
}

/// A bound statement. Only `Query` and `Explain` carry a plan tree to rewrite.
#[derive(Debug)]
pub enum Plan {
    Query { s_expr: SExpr, bind_context: BindContext, metadata: Metadata },
    Explain { kind: ExplainKind, plan: Box<Plan> },
    ShowMetrics,
    ShowProcessList,
    ShowSettings,
    CreateDatabase(CreateDatabasePlan),
    CreateTable(CreateTablePlan),
    CreateUser(CreateUserPlan),
    CreateView(CreateViewPlan),
    DropUser(DropUserPlan),
}

/// The cap on the passes of each batch when optimizing `t`: the default
/// cap, raised above the filter weight of `t` where that is larger.
pub open spec fn query_cap(t: PlanTree) -> nat {
    if saturated(filter_weight(t) + 1) > MAX_ITERATIONS {
        saturated(filter_weight(t) + 1)
    } else {
        MAX_ITERATIONS as nat
    }
}

/// The result of optimizing a query's plan tree `t`.
pub open spec fn query_result(t: PlanTree) -> Result<PlanTree, ErrorCode> {
    run_batches(default_batches(), t, 0, query_cap(t))
}

/// `r` is what optimizing `p` gives: its plan trees rewritten, everything
/// else as it was.
pub open spec fn plan_optimized(p: Plan, r: Result<Plan, ErrorCode>) -> bool
    decreases p,
{
    match p {
        Plan::Query { s_expr, bind_context, metadata } => match query_result(s_expr@) {
            Ok(t) => match r {
                Ok(Plan::Query { s_expr: s2, bind_context: b2, metadata: m2 }) => s2@ == t && b2
                    == bind_context && m2 == metadata,
                _ => false,
            },
            Err(x) => r == Err::<Plan, ErrorCode>(x),
        },
        Plan::Explain { kind, plan } => match r {
            Ok(Plan::Explain { kind: k2, plan: p2 }) => k2 == kind && plan_optimized(
                *plan,
                Ok(*p2),
            ),
            Err(x) => plan_optimized(*plan, Err(x)),
            _ => false,
        },
        _ => r == Ok::<Plan, ErrorCode>(p),
    }
}

/// Every plan tree that `p` carries has a filter weight below `usize::MAX`.
pub open spec fn weights_fit(p: Plan) -> bool
    decreases p,
{
    match p {
        Plan::Query { s_expr, .. } => filter_weight(s_expr@) < usize::MAX,
        Plan::Explain { plan, .. } => weights_fit(*plan),
        _ => true,
    }
}

fn shallow_copy(e: &SExpr) -> (r: SExpr)
    ensures
        r@ == e@,
{
    let mut children: Vec<Arc<SExpr>> = Vec::new();
    let mut i: usize = 0;
    while i < e.children.len()
        invariant
            i <= e.children.len(),
            children@ == e.children@.subrange(0, i as int),
        decreases e.children.len() - i,
    {
        children.push(e.children[i].clone());
        i += 1;
        proof {
            assert(children@ =~= e.children@.subrange(0, i as int));
        }
    }
    proof {
        assert(children@ =~= e.children@);
    }
    SExpr::create(e.plan.clone(), children)
}

/// Rewrites a plan tree with the default rule set. The default batches
/// never run out of passes: their cap is fitted to the tree.
pub fn optimize_query(expression: SExpr) -> (r: Result<SExpr, ErrorCode>)
    ensures
        match query_result(expression@) {
            Ok(t) => r is Ok && r->Ok_0@ == t,
            Err(x) => r == Err::<SExpr, ErrorCode>(x),
        },
        filter_weight(expression@) < usize::MAX ==> !(r matches Err(
            ErrorCode::IterationLimitExceeded { .. },
        )),
{
    proof {
        if filter_weight(expression@) < usize::MAX {
            lemma_default_batches_within_cap(expression@, 0, query_cap(expression@));
        }
    }
    let heuristic = OptimizeContext::create().fit_to(&expression).heuristic_optimizer();
    match heuristic.optimize(Arc::new(expression)) {
        Ok(s_expr) => Ok(shallow_copy(&s_expr)),
        Err(x) => Err(x),
    }
}

/// Optimizes a bound statement: the plan trees of `Query` and `Explain`
/// are rewritten; every other statement passes through unchanged.
pub fn optimize(plan: Plan) -> (r: Result<Plan, ErrorCode>)
    ensures
        plan_optimized(plan, r),
        weights_fit(plan) ==> !(r matches Err(ErrorCode::IterationLimitExceeded { .. })),
    decreases plan,
{
    match plan {
        Plan::Query { s_expr, bind_context, metadata } => match optimize_query(s_expr) {
            Ok(s_expr) => Ok(Plan::Query { s_expr, bind_context, metadata }),
            Err(x) => Err(x),
        },
        Plan::Explain { kind, plan } => match optimize(*plan) {
            Ok(p) => Ok(Plan::Explain { kind, plan: Box::new(p) }),
            Err(x) => Err(x),
        },
        Plan::ShowMetrics => Ok(plan),
        Plan::ShowProcessList => Ok(plan),
        Plan::ShowSettings => Ok(plan),
        Plan::CreateDatabase(_) => Ok(plan),
        Plan::CreateTable(_) => Ok(plan),
        Plan::CreateUser(_) => Ok(plan),
        Plan::CreateView(_) => Ok(plan),
        Plan::DropUser(_) => Ok(plan),
    }
}

/// Optimizing a query keeps its output columns.
pub proof fn lemma_optimize_query_keeps_columns(t: PlanTree)
    requires
        query_result(t) is Ok,
    ensures
        output_columns(query_result(t)->Ok_0) == output_columns(t),
{
    lemma_run_batches_keeps_columns(default_batches(), t, 0, query_cap(t));
}

/// Optimizing an optimized query again succeeds, gives it back unchanged,
/// and so outputs the same columns as optimizing it once.
pub proof fn lemma_optimize_query_twice(t: PlanTree)
    requires
        query_result(t) is Ok,
    ensures
        query_result(query_result(t)->Ok_0) == query_result(t),
        output_columns(query_result(query_result(t)->Ok_0)->Ok_0) == output_columns(
            query_result(t)->Ok_0,
        ),
{
    crate::fixpoint::lemma_optimize_query_idempotent(t);
}

} // verus!
