use std::sync::Arc;

use query_optimizer::error::{BatchName, ErrorCode, RuleID};
use query_optimizer::expression::{DataType, RawExpr, Scalar};
use query_optimizer::heuristic::{next_state, HeuristicOptimizer, OptimizerState};
use query_optimizer::optimize_context::OptimizeContext;
use query_optimizer::plan::{
    optimize, optimize_query, BindContext, CreateUserPlan, ExplainKind, Metadata, Plan,
};
use query_optimizer::property::derive_columns;
use query_optimizer::rule::{Rule, RuleSet};
use query_optimizer::s_expr::{JoinType, RelOpKind, RelOperator, SExpr};

fn scan(table_index: usize, columns: Vec<usize>) -> Arc<SExpr> {
    Arc::new(SExpr::create_leaf(Arc::new(RelOperator::Scan { table_index, columns })))
}

fn column(id: usize) -> RawExpr {
    RawExpr::ColumnRef { span: None, id, data_type: DataType::Int64 }
}

fn literal(v: i64) -> RawExpr {
    RawExpr::Constant { span: None, scalar: Scalar::Int64(v), data_type: DataType::Int64 }
}

fn gt(l: RawExpr, r: RawExpr) -> RawExpr {
    RawExpr::FunctionCall { span: None, name: "gt".to_string(), params: vec![], args: vec![l, r] }
}

fn filter(predicate: RawExpr, child: Arc<SExpr>) -> Arc<SExpr> {
    Arc::new(SExpr::create_unary(Arc::new(RelOperator::Filter { predicate }), child))
}

fn join(left: Arc<SExpr>, right: Arc<SExpr>) -> Arc<SExpr> {
    Arc::new(SExpr::create_binary(
        Arc::new(RelOperator::Join { join_type: JoinType::Inner }),
        left,
        right,
    ))
}

fn sorted_columns(e: &SExpr) -> Vec<usize> {
    let mut v = derive_columns(e).cols;
    v.sort();
    v
}

fn kind(e: &SExpr) -> RelOpKind {
    e.plan.kind()
}

#[test]
fn filter_on_left_columns_moves_below_join() {
    let a = scan(0, vec![0, 1]);
    let b = scan(1, vec![2, 3]);
    let input = filter(gt(column(0), literal(1)), join(a.clone(), b.clone()));
    let before = sorted_columns(&input);
    let out = optimize_query(SExpr::create(input.plan.clone(), input.children.clone())).unwrap();
    assert_eq!(kind(&out), RelOpKind::Join);
    assert_eq!(out.children.len(), 2);
    let left = &out.children[0];
    assert_eq!(kind(left), RelOpKind::Filter);
    assert!(Arc::ptr_eq(&left.plan, &input.plan));
    assert!(Arc::ptr_eq(&left.children[0], &a));
    assert!(Arc::ptr_eq(&out.children[1], &b));
    assert_eq!(sorted_columns(&out), before);
    assert_eq!(before, vec![0, 1, 2, 3]);
}

#[test]
fn filter_on_right_columns_moves_below_join() {
    let a = scan(0, vec![0, 1]);
    let b = scan(1, vec![2, 3]);
    let input = filter(gt(column(3), literal(7)), join(a.clone(), b.clone()));
    let out = optimize_query(SExpr::create(input.plan.clone(), input.children.clone())).unwrap();
    assert_eq!(kind(&out), RelOpKind::Join);
    assert!(Arc::ptr_eq(&out.children[0], &a));
    assert_eq!(kind(&out.children[1]), RelOpKind::Filter);
    assert!(Arc::ptr_eq(&out.children[1].children[0], &b));
}

#[test]
fn filter_on_both_sides_stays_above_join() {
    let a = scan(0, vec![0, 1]);
    let b = scan(1, vec![2, 3]);
    let j = join(a, b);
    let input = filter(gt(column(0), column(2)), j.clone());
    let out = optimize_query(SExpr::create(input.plan.clone(), input.children.clone())).unwrap();
    assert_eq!(kind(&out), RelOpKind::Filter);
    assert!(Arc::ptr_eq(&out.plan, &input.plan));
    assert!(Arc::ptr_eq(&out.children[0], &j));
}

#[test]
fn filter_on_unknown_column_fails_the_rewrite() {
    let input = filter(gt(column(99), literal(1)), join(scan(0, vec![0]), scan(1, vec![1])));
    let r = optimize_query(SExpr::create(input.plan.clone(), input.children.clone()));
    assert!(matches!(
        r,
        Err(ErrorCode::RuleTransform {
            rule: RuleID::PushDownFilterJoin,
            kind: RelOpKind::Filter,
            batch: BatchName::PushDown
        })
    ));
}

#[test]
fn true_filter_is_removed() {
    let a = scan(0, vec![0, 1]);
    let t = RawExpr::Constant { span: None, scalar: Scalar::Boolean(true), data_type: DataType::Boolean };
    let input = filter(t, a.clone());
    let out = optimize_query(SExpr::create(input.plan.clone(), input.children.clone())).unwrap();
    assert_eq!(kind(&out), RelOpKind::Scan);
    assert!(Arc::ptr_eq(&out.plan, &a.plan));
}

#[test]
fn false_filter_is_kept() {
    let a = scan(0, vec![0, 1]);
    let f = RawExpr::Constant { span: None, scalar: Scalar::Boolean(false), data_type: DataType::Boolean };
    let input = filter(f, a.clone());
    let out = optimize_query(SExpr::create(input.plan.clone(), input.children.clone())).unwrap();
    assert_eq!(kind(&out), RelOpKind::Filter);
    assert!(Arc::ptr_eq(&out.children[0], &a));
}

#[test]
fn optimizing_twice_keeps_the_columns() {
    let input = filter(
        gt(column(1), literal(0)),
        filter(gt(column(2), literal(5)), join(scan(0, vec![0, 1]), scan(1, vec![2]))),
    );
    let once = optimize_query(SExpr::create(input.plan.clone(), input.children.clone())).unwrap();
    let once_cols = sorted_columns(&once);
    let twice = optimize_query(once).unwrap();
    assert_eq!(sorted_columns(&twice), once_cols);
    assert_eq!(once_cols, sorted_columns(&input));
    assert_eq!(once_cols, vec![0, 1, 2]);
}

#[test]
fn nested_filters_both_reach_their_scans() {
    let a = scan(0, vec![0, 1]);
    let b = scan(1, vec![2]);
    let input = filter(gt(column(1), literal(0)), filter(gt(column(2), literal(5)), join(a.clone(), b.clone())));
    let out = optimize_query(SExpr::create(input.plan.clone(), input.children.clone())).unwrap();
    assert_eq!(kind(&out), RelOpKind::Join);
    assert_eq!(kind(&out.children[0]), RelOpKind::Filter);
    assert!(Arc::ptr_eq(&out.children[0].children[0], &a));
    assert_eq!(kind(&out.children[1]), RelOpKind::Filter);
    assert!(Arc::ptr_eq(&out.children[1].children[0], &b));
}

#[test]
fn tree_without_applicable_rule_is_returned_as_is() {
    let a = scan(0, vec![0]);
    let b = scan(1, vec![1]);
    let j = join(a.clone(), b.clone());
    let opt = HeuristicOptimizer::create();
    let out = opt.optimize(j.clone()).unwrap();
    assert!(Arc::ptr_eq(&out, &j));
}

#[test]
fn cyclic_rule_hits_the_iteration_limit() {
    let mut rules = RuleSet::new();
    rules.add_batch(BatchName::Reorder, vec![RuleID::CommuteJoin]);
    let opt = HeuristicOptimizer::with_rule_set(rules, 10);
    let r = opt.optimize(join(scan(0, vec![0]), scan(1, vec![1])));
    assert!(matches!(r, Err(ErrorCode::IterationLimitExceeded { batch: BatchName::Reorder })));
}

#[test]
fn commute_join_swaps_inputs() {
    let a = scan(0, vec![0]);
    let b = scan(1, vec![1]);
    let rule = Rule::create(RuleID::CommuteJoin);
    let out = rule.apply(&join(a.clone(), b.clone())).unwrap();
    assert_eq!(out.len(), 1);
    assert!(Arc::ptr_eq(&out[0].children[0], &b));
    assert!(Arc::ptr_eq(&out[0].children[1], &a));
    assert_eq!(rule.apply(&a).unwrap().len(), 0);
}

#[test]
fn context_configures_the_optimizer() {
    let ctx = OptimizeContext::create();
    assert_eq!(ctx.max_iterations, 100);
    let opt = ctx.heuristic_optimizer();
    assert_eq!(opt.max_iterations, 100);
    assert_eq!(opt.rule_set.batches.len(), 2);
    assert_eq!(opt.rule_set.batches[0].name, BatchName::Normalize);
    assert_eq!(opt.rule_set.batches[1].rules, vec![RuleID::PushDownFilterJoin]);
}

#[test]
fn states_advance_batch_by_batch() {
    assert_eq!(next_state(OptimizerState::Init, 2), OptimizerState::ApplyingBatch(0));
    assert_eq!(next_state(OptimizerState::ApplyingBatch(0), 2), OptimizerState::ApplyingBatch(1));
    assert_eq!(next_state(OptimizerState::ApplyingBatch(1), 2), OptimizerState::Done);
    assert_eq!(next_state(OptimizerState::Init, 0), OptimizerState::Done);
    assert_eq!(next_state(OptimizerState::Done, 3), OptimizerState::Done);
}

#[test]
fn show_settings_passes_through() {
    let r = optimize(Plan::ShowSettings);
    assert!(matches!(r, Ok(Plan::ShowSettings)));
}

#[test]
fn create_user_passes_through() {
    let r = optimize(Plan::CreateUser(CreateUserPlan { user: "u".to_string(), hostname: "%".to_string() }));
    match r {
        Ok(Plan::CreateUser(p)) => {
            assert_eq!(p.user, "u");
            assert_eq!(p.hostname, "%");
        },
        _ => panic!("expected the plan back"),
    }
}

#[test]
fn explain_rewrites_its_query() {
    let a = scan(0, vec![0, 1]);
    let input = filter(gt(column(0), literal(1)), join(a.clone(), scan(1, vec![2])));
    let query = Plan::Query {
        s_expr: SExpr::create(input.plan.clone(), input.children.clone()),
        bind_context: BindContext { columns: vec![0, 1, 2] },
        metadata: Metadata { tables: vec!["a".to_string(), "b".to_string()] },
    };
    let r = optimize(Plan::Explain { kind: ExplainKind::Optimized, plan: Box::new(query) }).unwrap();
    match r {
        Plan::Explain { kind: ExplainKind::Optimized, plan } => match *plan {
            Plan::Query { s_expr, bind_context, metadata } => {
                assert_eq!(kind(&s_expr), RelOpKind::Join);
                assert!(Arc::ptr_eq(&s_expr.children[0].children[0], &a));
                assert_eq!(bind_context.columns, vec![0, 1, 2]);
                assert_eq!(metadata.tables.len(), 2);
            },
            _ => panic!("expected a query"),
        },
        _ => panic!("expected an explain"),
    }
}

#[test]
fn query_error_propagates_through_optimize() {
    let input = filter(gt(column(42), literal(1)), join(scan(0, vec![0]), scan(1, vec![1])));
    let query = Plan::Query {
        s_expr: SExpr::create(input.plan.clone(), input.children.clone()),
        bind_context: BindContext { columns: vec![] },
        metadata: Metadata { tables: vec![] },
    };
    let r = optimize(query);
    assert!(matches!(r, Err(ErrorCode::RuleTransform { batch: BatchName::PushDown, .. })));
}

#[test]
fn filter_above_long_join_chain_reaches_the_bottom() {
    let leftmost = scan(0, vec![0]);
    let mut tree = leftmost.clone();
    for i in 1..151usize {
        tree = join(tree, scan(i, vec![i]));
    }
    let f = RawExpr::Constant { span: None, scalar: Scalar::Boolean(false), data_type: DataType::Boolean };
    let input = filter(f, tree);
    let out = optimize_query(SExpr::create(input.plan.clone(), input.children.clone())).unwrap();
    let mut node: &SExpr = &out;
    let mut depth: usize = 0;
    while kind(node) == RelOpKind::Join {
        node = &node.children[0];
        depth += 1;
    }
    assert_eq!(depth, 150);
    assert_eq!(kind(node), RelOpKind::Filter);
    assert!(Arc::ptr_eq(&node.children[0], &leftmost));
}

#[test]
fn context_cap_fits_the_tree() {
    let mut tree = scan(0, vec![0]);
    for i in 1..201usize {
        tree = join(tree, scan(i, vec![i]));
    }
    let input = filter(gt(column(0), literal(1)), tree);
    let ctx = OptimizeContext::create().fit_to(&input);
    assert_eq!(ctx.max_iterations, 202);
    let small = OptimizeContext::create().fit_to(&scan(0, vec![0]));
    assert_eq!(small.max_iterations, 100);
}

#[test]
fn cyclic_rule_hits_the_limit_at_any_cap() {
    for cap in [1usize, 2, 7] {
        let mut rules = RuleSet::new();
        rules.add_batch(BatchName::Reorder, vec![RuleID::CommuteJoin]);
        let opt = HeuristicOptimizer::with_rule_set(rules, cap);
        let tree = join(join(scan(0, vec![0]), scan(1, vec![1])), scan(2, vec![2]));
        let r = opt.optimize(tree);
        assert!(matches!(r, Err(ErrorCode::IterationLimitExceeded { batch: BatchName::Reorder })));
    }
}

#[test]
fn cyclic_rule_below_the_root_hits_the_limit() {
    let mut rules = RuleSet::new();
    rules.add_batch(BatchName::Reorder, vec![RuleID::CommuteJoin]);
    let opt = HeuristicOptimizer::with_rule_set(rules, 5);
    let tree = filter(gt(column(0), literal(1)), join(scan(0, vec![0]), scan(1, vec![1])));
    let r = opt.optimize(tree);
    assert!(matches!(r, Err(ErrorCode::IterationLimitExceeded { batch: BatchName::Reorder })));
}

#[test]
fn optimizing_an_optimized_query_changes_nothing() {
    let a = scan(0, vec![0, 1]);
    let b = scan(1, vec![2]);
    let t = RawExpr::Constant { span: None, scalar: Scalar::Boolean(true), data_type: DataType::Boolean };
    let input = filter(t, filter(gt(column(1), literal(0)), join(a, b)));
    let once = optimize_query(SExpr::create(input.plan.clone(), input.children.clone())).unwrap();
    let root_plan = once.plan.clone();
    let left = once.children[0].clone();
    let right = once.children[1].clone();
    let twice = optimize_query(once).unwrap();
    assert!(Arc::ptr_eq(&twice.plan, &root_plan));
    assert!(Arc::ptr_eq(&twice.children[0], &left));
    assert!(Arc::ptr_eq(&twice.children[1], &right));
    assert_eq!(kind(&left), RelOpKind::Filter);
}
