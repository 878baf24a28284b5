use std::sync::Arc;

use query_optimizer::column_set::ColumnSet;
use query_optimizer::error::ErrorCode;
use query_optimizer::expression::{
    DataType, Expr, Function, FunctionRegistry, RawExpr, RemoteExpr, Scalar, TextRange,
};
use query_optimizer::hash_method::HashMethodSerializer;
use query_optimizer::memo::Memo;
use query_optimizer::pattern::{match_pattern, Pattern, PatternExtractor};
use query_optimizer::property::{
    derive_required, Distribution, PhysicalProperty, RelExpr, RequiredProperty,
};
use query_optimizer::s_expr::{JoinType, RelOpKind, RelOperator, SExpr};

fn scan(table_index: usize, columns: Vec<usize>) -> Arc<SExpr> {
    Arc::new(SExpr::create_leaf(Arc::new(RelOperator::Scan { table_index, columns })))
}

fn column(id: usize) -> RawExpr {
    RawExpr::ColumnRef { span: None, id, data_type: DataType::Int64 }
}

fn filter(id: usize, child: Arc<SExpr>) -> Arc<SExpr> {
    Arc::new(SExpr::create_unary(Arc::new(RelOperator::Filter { predicate: column(id) }), child))
}

fn join(left: Arc<SExpr>, right: Arc<SExpr>) -> Arc<SExpr> {
    Arc::new(SExpr::create_binary(
        Arc::new(RelOperator::Join { join_type: JoinType::Cross }),
        left,
        right,
    ))
}

fn sorted(mut v: Vec<usize>) -> Vec<usize> {
    v.sort();
    v
}

#[test]
fn column_refs_collects_every_column() {
    let e = RawExpr::FunctionCall {
        span: Some(TextRange { start: 0, end: 9 }),
        name: "plus".to_string(),
        params: vec![],
        args: vec![
            column(1),
            RawExpr::Cast { span: None, expr: Box::new(column(2)), dest_type: DataType::UInt64 },
            RawExpr::Constant { span: None, scalar: Scalar::Int64(3), data_type: DataType::Int64 },
            column(1),
        ],
    };
    let mut refs: Vec<usize> = e.column_refs().into_iter().collect();
    refs.sort();
    assert_eq!(refs, vec![1, 2]);
    assert_eq!(sorted(e.column_ref_set().cols), vec![1, 2]);
    let constant = RawExpr::Constant { span: None, scalar: Scalar::Null, data_type: DataType::Null };
    assert!(constant.column_refs().is_empty());
}

fn registry() -> FunctionRegistry {
    FunctionRegistry {
        funcs: vec![
            Arc::new(Function { name: "plus".to_string(), return_type: DataType::Int64 }),
            Arc::new(Function { name: "gt".to_string(), return_type: DataType::Boolean }),
        ],
    }
}

#[test]
fn remote_expr_round_trip() {
    let reg = registry();
    let expr = Expr::FunctionCall {
        span: None,
        id: 1,
        function: reg.funcs[1].clone(),
        generics: vec![DataType::Int64],
        args: vec![
            Expr::ColumnRef { span: None, id: 4 },
            Expr::TryCast {
                span: None,
                expr: Box::new(Expr::Constant { span: None, scalar: Scalar::UInt64(8) }),
                dest_type: DataType::Int64,
            },
        ],
    };
    let remote = RemoteExpr::from_expr(expr);
    match &remote {
        RemoteExpr::FunctionCall { id, generics, args, .. } => {
            assert_eq!(*id, 1);
            assert_eq!(generics, &vec![DataType::Int64]);
            assert_eq!(args.len(), 2);
            assert!(matches!(args[0], RemoteExpr::ColumnRef { id: 4, .. }));
        },
        _ => panic!("expected a function call"),
    }
    let back = remote.into_expr(&reg).unwrap();
    match back {
        Expr::FunctionCall { id, function, args, .. } => {
            assert_eq!(id, 1);
            assert_eq!(function.name, "gt");
            assert!(Arc::ptr_eq(&function, &reg.funcs[1]));
            assert!(matches!(
                args[1],
                Expr::TryCast { dest_type: DataType::Int64, .. }
            ));
        },
        _ => panic!("expected a function call"),
    }
}

#[test]
fn into_expr_fails_on_unknown_function() {
    let reg = registry();
    let remote = RemoteExpr::Cast {
        span: None,
        expr: Box::new(RemoteExpr::FunctionCall { span: None, id: 7, generics: vec![], args: vec![] }),
        dest_type: DataType::String,
    };
    assert!(remote.into_expr(&reg).is_none());
    assert!(reg.get(&7).is_none());
    assert_eq!(reg.get(&0).unwrap().name, "plus");
}

#[test]
fn serializer_hash_method_name() {
    assert_eq!(HashMethodSerializer {}.name(), "Serializer");
}

#[test]
fn column_set_operations() {
    let mut s = ColumnSet::new();
    s.insert(3);
    s.insert(3);
    s.extend_from(&vec![1, 2]);
    assert_eq!(sorted(s.cols.clone()), vec![1, 2, 3]);
    assert!(s.contains(2));
    assert!(!s.contains(4));
    let mut t = ColumnSet::new();
    t.insert(1);
    assert!(t.is_subset(&s));
    assert!(!s.is_subset(&t));
    t.union_with(&s);
    assert!(t.same_as(&s));
    assert_eq!(sorted(t.duplicate().cols), vec![1, 2, 3]);
}

#[test]
fn output_columns_by_operator() {
    let a = scan(0, vec![0, 1]);
    let agg = Arc::new(SExpr::create_unary(
        Arc::new(RelOperator::Aggregate { group_items: vec![1], aggregate_functions: vec![7] }),
        a.clone(),
    ));
    assert_eq!(sorted(RelExpr::with_s_expr(agg).derive_relational_prop().output_columns.cols), vec![1, 7]);
    let eval = Arc::new(SExpr::create_unary(Arc::new(RelOperator::EvalScalar { items: vec![5] }), a.clone()));
    assert_eq!(sorted(RelExpr::with_s_expr(eval.clone()).derive_relational_prop().output_columns.cols), vec![0, 1, 5]);
    let project = Arc::new(SExpr::create_unary(Arc::new(RelOperator::Project { columns: vec![5] }), eval));
    assert_eq!(RelExpr::with_s_expr(project).derive_relational_prop().output_columns.cols, vec![5]);
    let limit = Arc::new(SExpr::create_unary(Arc::new(RelOperator::Limit { limit: Some(3), offset: 0 }), a.clone()));
    let sort = Arc::new(SExpr::create_unary(Arc::new(RelOperator::Sort { keys: vec![0] }), limit));
    assert_eq!(sorted(RelExpr::with_s_expr(sort).derive_relational_prop().output_columns.cols), vec![0, 1]);
    let j = RelExpr::with_s_expr(join(a, scan(1, vec![4])));
    assert_eq!(sorted(j.derive_relational_prop().output_columns.cols), vec![0, 1, 4]);
    assert_eq!(j.derive_relational_prop_child(1).output_columns.cols, vec![4]);
}

#[test]
fn required_property_depends_on_parent_only() {
    let any = RequiredProperty { distribution: Distribution::Any, hash_keys: vec![] };
    let agg = RelOperator::Aggregate { group_items: vec![2, 3], aggregate_functions: vec![9] };
    let r = derive_required(&agg, &any, 0);
    assert_eq!(r.distribution, Distribution::Hash);
    assert_eq!(r.hash_keys, vec![2, 3]);
    let global = RelOperator::Aggregate { group_items: vec![], aggregate_functions: vec![9] };
    assert_eq!(derive_required(&global, &any, 0).distribution, Distribution::Serial);
    let sort = RelOperator::Sort { keys: vec![1] };
    assert_eq!(derive_required(&sort, &any, 0).distribution, Distribution::Serial);
    let j = RelOperator::Join { join_type: JoinType::Inner };
    assert_eq!(derive_required(&j, &any, 0).distribution, Distribution::Any);
    assert_eq!(derive_required(&j, &any, 1).distribution, Distribution::Broadcast);
    let hashed = RequiredProperty { distribution: Distribution::Hash, hash_keys: vec![4] };
    let f = RelOperator::Filter { predicate: column(4) };
    let passed = derive_required(&f, &hashed, 0);
    assert_eq!(passed.distribution, Distribution::Hash);
    assert_eq!(passed.hash_keys, vec![4]);
}

#[test]
fn required_property_satisfaction() {
    let hashed = RequiredProperty { distribution: Distribution::Hash, hash_keys: vec![4] };
    assert!(hashed.satisfied_by(&PhysicalProperty { distribution: Distribution::Hash, hash_keys: vec![4] }));
    assert!(!hashed.satisfied_by(&PhysicalProperty { distribution: Distribution::Hash, hash_keys: vec![5] }));
    assert!(!hashed.satisfied_by(&PhysicalProperty { distribution: Distribution::Serial, hash_keys: vec![] }));
    let any = RequiredProperty { distribution: Distribution::Any, hash_keys: vec![] };
    assert!(any.satisfied_by(&PhysicalProperty { distribution: Distribution::Broadcast, hash_keys: vec![] }));
    let serial = RequiredProperty { distribution: Distribution::Serial, hash_keys: vec![] };
    assert!(!serial.satisfied_by(&PhysicalProperty { distribution: Distribution::Broadcast, hash_keys: vec![] }));
}

fn filter_leaf() -> Pattern {
    Pattern::Node { kind: RelOpKind::Filter, children: vec![Pattern::Leaf] }
}

#[test]
fn pattern_matches_kind_and_arity() {
    let a = scan(0, vec![0]);
    let f = filter(0, a.clone());
    let caps = match_pattern(&filter_leaf(), &f).unwrap();
    assert_eq!(caps.len(), 1);
    assert!(Arc::ptr_eq(&caps[0], &a));
    assert!(match_pattern(&filter_leaf(), &a).is_none());
    let two = Pattern::Node { kind: RelOpKind::Filter, children: vec![Pattern::Leaf, Pattern::Leaf] };
    assert!(match_pattern(&two, &f).is_none());
    let whole = match_pattern(&Pattern::Leaf, &f).unwrap();
    assert!(Arc::ptr_eq(&whole[0], &f));
}

#[test]
fn extraction_is_pre_order_and_repeatable() {
    let a = scan(0, vec![0]);
    let b = scan(1, vec![1]);
    let inner_left = filter(0, a.clone());
    let inner_right = filter(1, b.clone());
    let root = filter(0, join(inner_left.clone(), inner_right.clone()));
    let extractor = PatternExtractor::create();
    let first = extractor.extract(&filter_leaf(), &root);
    let second = extractor.extract(&filter_leaf(), &root);
    let paths: Vec<Vec<usize>> = first.iter().map(|m| m.path.clone()).collect();
    assert_eq!(paths, vec![vec![], vec![0, 0], vec![0, 1]]);
    assert!(Arc::ptr_eq(&first[1].bindings[0], &a));
    assert!(Arc::ptr_eq(&first[2].bindings[0], &b));
    assert_eq!(first.len(), second.len());
    for (x, y) in first.iter().zip(second.iter()) {
        assert_eq!(x.path, y.path);
        assert_eq!(x.bindings.len(), y.bindings.len());
        for (p, q) in x.bindings.iter().zip(y.bindings.iter()) {
            assert!(Arc::ptr_eq(p, q));
        }
    }
    assert!(extractor.extract(&filter_leaf(), &a).is_empty());
}

fn sample(table: usize) -> SExpr {
    SExpr::create(
        Arc::new(RelOperator::Filter { predicate: column(0) }),
        vec![join(scan(table, vec![0]), scan(1, vec![1]))],
    )
}

#[test]
fn memo_interns_identical_trees() {
    let mut memo = Memo::create();
    let g1 = memo.insert(&sample(0));
    let groups = memo.groups.len();
    assert_eq!(groups, 4);
    let g2 = memo.insert(&sample(0));
    assert_eq!(g1, g2);
    assert_eq!(memo.groups.len(), groups);
    let g3 = memo.insert(&sample(5));
    assert_ne!(g1, g3);
    assert_eq!(memo.groups.len(), 7);
    let scan_b = memo.insert(&scan(1, vec![1]));
    assert!(scan_b < g1);
}

#[test]
fn memo_shares_common_subplans() {
    let mut memo = Memo::create();
    let shared = scan(3, vec![8, 9]);
    let tree = SExpr::create(
        Arc::new(RelOperator::Join { join_type: JoinType::Cross }),
        vec![shared.clone(), scan(3, vec![8, 9])],
    );
    let g = memo.insert(&tree);
    assert_eq!(memo.groups.len(), 2);
    assert_eq!(memo.groups[g].m_exprs[0].children, vec![0, 0]);
    assert_eq!(sorted(memo.groups[g].relational_prop.output_columns.cols.clone()), vec![8, 9]);
}

#[test]
fn memo_extract_rebuilds_the_tree() {
    let mut memo = Memo::create();
    let g = memo.insert(&sample(0));
    let back = memo.extract(g);
    assert_eq!(back.plan.kind(), RelOpKind::Filter);
    let j = &back.children[0];
    assert_eq!(j.plan.kind(), RelOpKind::Join);
    assert!(matches!(*j.children[0].plan, RelOperator::Scan { table_index: 0, .. }));
    assert!(matches!(*j.children[1].plan, RelOperator::Scan { table_index: 1, .. }));
    assert_eq!(memo.insert(&back), g);
}

#[test]
fn memo_rejects_member_with_other_columns() {
    let mut memo = Memo::create();
    let a = memo.insert(&scan(0, vec![0, 1]));
    let f = memo.insert(&SExpr::create(
        Arc::new(RelOperator::Filter { predicate: column(0) }),
        vec![scan(0, vec![0, 1])],
    ));
    let bad = memo.insert_m_expr(f, Arc::new(RelOperator::Project { columns: vec![0] }), vec![a]);
    assert!(matches!(bad, Err(ErrorCode::GroupPropertyConflict { group, kind: RelOpKind::Project }) if group == f));
    assert_eq!(memo.groups[f].m_exprs.len(), 1);
    let good = memo.insert_m_expr(f, Arc::new(RelOperator::Sort { keys: vec![1] }), vec![a]);
    assert_eq!(good, Ok(f));
    assert_eq!(memo.groups[f].m_exprs.len(), 2);
    let again = memo.insert_m_expr(f, Arc::new(RelOperator::Sort { keys: vec![1] }), vec![a]);
    assert_eq!(again, Ok(f));
    assert_eq!(memo.groups[f].m_exprs.len(), 2);
}

#[test]
fn memo_interns_against_every_member() {
    let mut memo = Memo::create();
    let a = memo.insert(&scan(0, vec![0, 1]));
    let f = memo.insert(&SExpr::create(
        Arc::new(RelOperator::Filter { predicate: column(0) }),
        vec![scan(0, vec![0, 1])],
    ));
    assert_eq!(memo.insert_m_expr(f, Arc::new(RelOperator::Sort { keys: vec![1] }), vec![a]), Ok(f));
    let groups = memo.groups.len();
    let sorted_scan = SExpr::create(Arc::new(RelOperator::Sort { keys: vec![1] }), vec![scan(0, vec![0, 1])]);
    assert_eq!(memo.insert(&sorted_scan), f);
    assert_eq!(memo.groups.len(), groups);
}

#[test]
fn memo_member_held_elsewhere_names_its_group() {
    let mut memo = Memo::create();
    let a = memo.insert(&scan(0, vec![0, 1]));
    let s = memo.insert(&SExpr::create(Arc::new(RelOperator::Sort { keys: vec![0] }), vec![scan(0, vec![0, 1])]));
    let f = memo.insert(&SExpr::create(
        Arc::new(RelOperator::Filter { predicate: column(0) }),
        vec![scan(0, vec![0, 1])],
    ));
    let r = memo.insert_m_expr(f, Arc::new(RelOperator::Sort { keys: vec![0] }), vec![a]);
    assert_eq!(r, Ok(s));
    assert_eq!(memo.groups[f].m_exprs.len(), 1);
}

#[test]
fn memo_accepts_newer_shallower_child_and_refuses_deeper() {
    let mut memo = Memo::create();
    let abc = SExpr::create(
        Arc::new(RelOperator::Join { join_type: JoinType::Inner }),
        vec![join(scan(0, vec![0]), scan(1, vec![1])), scan(2, vec![2])],
    );
    let top = memo.insert(&abc);
    let a = memo.insert(&scan(0, vec![0]));
    let bc = memo.insert(&join(scan(1, vec![1]), scan(2, vec![2])));
    assert!(bc > top);
    let join_op = Arc::new(RelOperator::Join { join_type: JoinType::Inner });
    assert_eq!(memo.insert_m_expr(top, join_op.clone(), vec![a, bc]), Ok(top));
    assert_eq!(memo.groups[top].m_exprs.len(), 2);
    let r = memo.insert_m_expr(bc, join_op, vec![top, a]);
    assert!(matches!(r, Err(ErrorCode::GroupCycle { group, kind: RelOpKind::Join }) if group == bc));
    assert_eq!(memo.groups[bc].m_exprs.len(), 1);
}

#[test]
fn memo_extract_takes_first_members() {
    let mut memo = Memo::create();
    let a = memo.insert(&scan(0, vec![0, 1]));
    let f = memo.insert(&SExpr::create(
        Arc::new(RelOperator::Filter { predicate: column(0) }),
        vec![scan(0, vec![0, 1])],
    ));
    assert_eq!(memo.insert_m_expr(f, Arc::new(RelOperator::Sort { keys: vec![1] }), vec![a]), Ok(f));
    let top = memo.insert(&SExpr::create(
        Arc::new(RelOperator::Limit { limit: Some(1), offset: 0 }),
        vec![Arc::new(SExpr::create(
            Arc::new(RelOperator::Filter { predicate: column(0) }),
            vec![scan(0, vec![0, 1])],
        ))],
    ));
    let back = memo.extract(top);
    assert_eq!(back.plan.kind(), RelOpKind::Limit);
    assert_eq!(back.children[0].plan.kind(), RelOpKind::Filter);
}
