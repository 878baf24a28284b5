use vstd::prelude::*;

use crate::error::{RuleID, TransformError};
use crate::heuristic::{
    first_rewrite, lemma_pass, lemma_pass_children, pass, pass_children, run_batch, run_batches,
};
use crate::plan::query_result;
use crate::rule::{default_batches, transform_spec};
use crate::s_expr::PlanTree;

verus! {

/// A batch that succeeds ends at a fixpoint: one more pass changes nothing.
pub proof fn lemma_run_batch_fixpoint(rules: Seq<RuleID>, t: PlanTree, fuel: nat)
    requires
        run_batch(rules, t, fuel) is Ok,
    ensures
        pass(rules, run_batch(rules, t, fuel)->Ok_0) == Ok::<(PlanTree, bool), TransformError>(
            (run_batch(rules, t, fuel)->Ok_0, false),
        ),
    decreases fuel,
{
    lemma_pass(rules, t);
    if pass(rules, t)->Ok_0.1 {
        lemma_run_batch_fixpoint(rules, pass(rules, t)->Ok_0.0, (fuel - 1) as nat);
    }
}

/// No node of `t` is a filter that `EliminateFilter` removes.
pub open spec fn no_true_filters(t: PlanTree) -> bool
    decreases t,
{
    &&& transform_spec(RuleID::EliminateFilter, t) == Ok::<Option<PlanTree>, TransformError>(None)
    &&& forall|i: int| 0 <= i < t.children.len() ==> no_true_filters(#[trigger] t.children[i])
}

pub open spec fn eliminate_rules() -> Seq<RuleID> {
    seq![RuleID::EliminateFilter]
}

pub open spec fn push_down_rules() -> Seq<RuleID> {
    seq![RuleID::PushDownFilterJoin]
}

/// A pass of `EliminateFilter` over a tree without true filters changes nothing.
proof fn lemma_eliminate_pass_settled(t: PlanTree)
    requires
        no_true_filters(t),
    ensures
        pass(eliminate_rules(), t) == Ok::<(PlanTree, bool), TransformError>((t, false)),
    decreases t, 0int,
{
    let len = t.children.len() as int;
    lemma_eliminate_children_settled(t.children, len);
    let cs = pass_children(eliminate_rules(), t.children, len)->Ok_0.0;
    assert(cs =~= t.children);
    let node = PlanTree { plan: t.plan, children: cs };
    assert(node == t);
    assert(first_rewrite(eliminate_rules(), t, 1) == Ok::<Option<PlanTree>, TransformError>(None));
}

proof fn lemma_eliminate_children_settled(ts: Seq<PlanTree>, n: int)
    requires
        0 <= n <= ts.len(),
        forall|i: int| 0 <= i < ts.len() ==> no_true_filters(#[trigger] ts[i]),
    ensures
        pass_children(eliminate_rules(), ts, n) == Ok::<(Seq<PlanTree>, bool), TransformError>(
            (ts.subrange(0, n), false),
        ),
    decreases ts, n,
{
    if n > 0 {
        lemma_eliminate_children_settled(ts, n - 1);
        lemma_eliminate_pass_settled(ts[n - 1]);
        assert(ts.subrange(0, n - 1).push(ts[n - 1]) =~= ts.subrange(0, n));
    } else {
        assert(ts.subrange(0, 0) =~= Seq::<PlanTree>::empty());
    }
}

/// A tree on which a pass of `EliminateFilter` changes nothing has no true filters.
proof fn lemma_settled_has_no_true_filters(t: PlanTree)
    requires
        pass(eliminate_rules(), t) is Ok,
        !pass(eliminate_rules(), t)->Ok_0.1,
    ensures
        no_true_filters(t),
    decreases t, 0int,
{
    let rules = eliminate_rules();
    let len = t.children.len() as int;
    lemma_pass_children(rules, t.children, len);
    lemma_settled_children(t.children, len);
    let cs = pass_children(rules, t.children, len)->Ok_0.0;
    assert(cs =~= t.children);
    let node = PlanTree { plan: t.plan, children: cs };
    assert(node == t);
    assert(first_rewrite(rules, t, 0) == Ok::<Option<PlanTree>, TransformError>(None));
    assert(first_rewrite(rules, t, 1) == Ok::<Option<PlanTree>, TransformError>(None));
}

proof fn lemma_settled_children(ts: Seq<PlanTree>, n: int)
    requires
        0 <= n <= ts.len(),
        pass_children(eliminate_rules(), ts, n) is Ok,
        !pass_children(eliminate_rules(), ts, n)->Ok_0.1,
    ensures
        forall|i: int| 0 <= i < n ==> no_true_filters(#[trigger] ts[i]),
    decreases ts, n,
{
    if n > 0 {
        lemma_settled_children(ts, n - 1);
        lemma_settled_has_no_true_filters(ts[n - 1]);
    }
}

/// Pushing filters down creates no true filter.
proof fn lemma_push_down_pass_keeps(t: PlanTree)
    requires
        no_true_filters(t),
        pass(push_down_rules(), t) is Ok,
    ensures
        no_true_filters(pass(push_down_rules(), t)->Ok_0.0),
    decreases t, 0int,
{
    let rules = push_down_rules();
    let len = t.children.len() as int;
    lemma_pass_children(rules, t.children, len);
    lemma_push_down_children_keep(t.children, len);
    let cs = pass_children(rules, t.children, len)->Ok_0.0;
    let node = PlanTree { plan: t.plan, children: cs };
    assert(transform_spec(RuleID::EliminateFilter, node) == transform_spec(RuleID::EliminateFilter, t));
    assert(no_true_filters(node));
    assert(first_rewrite(rules, node, 1) == Ok::<Option<PlanTree>, TransformError>(None));
    if transform_spec(RuleID::PushDownFilterJoin, node) matches Ok(Some(_)) {
        let n = transform_spec(RuleID::PushDownFilterJoin, node)->Ok_0->0;
        let j = node.children[0];
        assert(no_true_filters(j));
        assert(no_true_filters(j.children[0]));
        assert(no_true_filters(j.children[1]));
        let a = n.children[0];
        let b = n.children[1];
        assert(transform_spec(RuleID::EliminateFilter, a) == transform_spec(
            RuleID::EliminateFilter,
            node,
        ) || a == j.children[0]);
        assert(transform_spec(RuleID::EliminateFilter, b) == transform_spec(
            RuleID::EliminateFilter,
            node,
        ) || b == j.children[1]);
        assert(no_true_filters(a));
        assert(no_true_filters(b));
        assert(no_true_filters(n));
    }
}

proof fn lemma_push_down_children_keep(ts: Seq<PlanTree>, n: int)
    requires
        0 <= n <= ts.len(),
        forall|i: int| 0 <= i < ts.len() ==> no_true_filters(#[trigger] ts[i]),
        pass_children(push_down_rules(), ts, n) is Ok,
    ensures
        forall|i: int|
            0 <= i < n ==> no_true_filters(
                #[trigger] pass_children(push_down_rules(), ts, n)->Ok_0.0[i],
            ),
    decreases ts, n,
{
    if n > 0 {
        let rules = push_down_rules();
        lemma_pass_children(rules, ts, n - 1);
        lemma_push_down_children_keep(ts, n - 1);
        lemma_push_down_pass_keeps(ts[n - 1]);
        let prev = pass_children(rules, ts, n - 1)->Ok_0.0;
        let cs = pass_children(rules, ts, n)->Ok_0.0;
        assert(cs == prev.push(pass(rules, ts[n - 1])->Ok_0.0));
        assert forall|i: int| 0 <= i < n implies no_true_filters(#[trigger] cs[i]) by {
            if i < n - 1 {
                assert(cs[i] == prev[i]);
            }
        }
    }
}

proof fn lemma_push_down_batch_keeps(t: PlanTree, fuel: nat)
    requires
        no_true_filters(t),
        run_batch(push_down_rules(), t, fuel) is Ok,
    ensures
        no_true_filters(run_batch(push_down_rules(), t, fuel)->Ok_0),
    decreases fuel,
{
    lemma_push_down_pass_keeps(t);
    if pass(push_down_rules(), t)->Ok_0.1 {
        lemma_push_down_batch_keeps(pass(push_down_rules(), t)->Ok_0.0, (fuel - 1) as nat);
    }
}

/// Optimizing an optimized query gives it back unchanged.
pub proof fn lemma_optimize_query_idempotent(t: PlanTree)
    requires
        query_result(t) is Ok,
    ensures
        query_result(query_result(t)->Ok_0) == query_result(t),
{
    let batches = default_batches();
    let cap = crate::plan::query_cap(t);
    assert(batches[0].1 == eliminate_rules());
    assert(batches[1].1 == push_down_rules());
    let t1 = run_batch(eliminate_rules(), t, cap)->Ok_0;
    assert(run_batches(batches, t, 0, cap) == run_batches(batches, t1, 1, cap));
    let r = run_batch(push_down_rules(), t1, cap)->Ok_0;
    assert(run_batches(batches, t1, 1, cap) == run_batches(batches, r, 2, cap));
    assert(query_result(t) == Ok::<PlanTree, crate::error::ErrorCode>(r));
    lemma_run_batch_fixpoint(eliminate_rules(), t, cap);
    lemma_settled_has_no_true_filters(t1);
    lemma_push_down_batch_keeps(t1, cap);
    lemma_run_batch_fixpoint(push_down_rules(), t1, cap);
    lemma_eliminate_pass_settled(r);
    let cap2 = crate::plan::query_cap(r);
    assert(cap2 > 0);
    assert(run_batch(eliminate_rules(), r, cap2) == Ok::<PlanTree, crate::heuristic::BatchFailure>(r));
    assert(run_batch(push_down_rules(), r, cap2) == Ok::<PlanTree, crate::heuristic::BatchFailure>(r));
    assert(run_batches(batches, r, 0, cap2) == run_batches(batches, r, 1, cap2));
    assert(run_batches(batches, r, 1, cap2) == run_batches(batches, r, 2, cap2));
}

} // verus!
