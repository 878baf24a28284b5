use vstd::prelude::*;

use crate::error::{BatchName, ErrorCode, RuleID};
use crate::heuristic::{
    first_rewrite, lemma_decreasing_batch_reaches_fixpoint, lemma_pass_children, pass,
    pass_children, run_batch, run_batches, BatchFailure,
};
use crate::rule::{default_batches, transform_spec};
use crate::s_expr::{lemma_trees, op_kind, PlanTree, RelOpKind, SExpr};

verus! {

/// The number of joins in a plan tree.
pub open spec fn join_count(t: PlanTree) -> nat
    decreases t,
{
    (if op_kind(t.plan) == RelOpKind::Join {
        1nat
    } else {
        0nat
    }) + join_counts(t.children, t.children.len() as int)
}

/// The joins of the first `n` trees of `ts`.
pub open spec fn join_counts(ts: Seq<PlanTree>, n: int) -> nat
    decreases ts, n,
{
    if n <= 0 || n > ts.len() {
        0
    } else {
        join_counts(ts, n - 1) + join_count(ts[n - 1])
    }
}

/// Each filter of a tree weighs one plus the number of joins below it: the
/// work left to the rules that remove filters or push them down.
pub open spec fn filter_weight(t: PlanTree) -> nat
    decreases t,
{
    (if op_kind(t.plan) == RelOpKind::Filter {
        1 + join_counts(t.children, t.children.len() as int)
    } else {
        0nat
    }) + filter_weights(t.children, t.children.len() as int)
}

/// The filter weights of the first `n` trees of `ts`.
pub open spec fn filter_weights(ts: Seq<PlanTree>, n: int) -> nat
    decreases ts, n,
{
    if n <= 0 || n > ts.len() {
        0
    } else {
        filter_weights(ts, n - 1) + filter_weight(ts[n - 1])
    }
}

proof fn lemma_sums_prefix(s: Seq<PlanTree>, x: PlanTree, n: int)
    requires
        0 <= n <= s.len(),
    ensures
        join_counts(s.push(x), n) == join_counts(s, n),
        filter_weights(s.push(x), n) == filter_weights(s, n),
    decreases n,
{
    if n > 0 {
        lemma_sums_prefix(s, x, n - 1);
        assert(s.push(x)[n - 1] == s[n - 1]);
    }
}

proof fn lemma_sums_two(a: PlanTree, b: PlanTree)
    ensures
        join_counts(seq![a, b], 2) == join_count(a) + join_count(b),
        filter_weights(seq![a, b], 2) == filter_weight(a) + filter_weight(b),
{
    reveal_with_fuel(join_counts, 3);
    reveal_with_fuel(filter_weights, 3);
}

proof fn lemma_sums_one(a: PlanTree)
    ensures
        join_counts(seq![a], 1) == join_count(a),
        filter_weights(seq![a], 1) == filter_weight(a),
{
    reveal_with_fuel(join_counts, 2);
    reveal_with_fuel(filter_weights, 2);
}

/// Removing a filter or pushing one below a join keeps the joins and
/// lowers the filter weight.
proof fn lemma_transform_lowers_weight(id: RuleID, t: PlanTree)
    requires
        id != RuleID::CommuteJoin,
        transform_spec(id, t) matches Ok(Some(_)),
    ensures
        join_count(transform_spec(id, t)->Ok_0->0) == join_count(t),
        filter_weight(transform_spec(id, t)->Ok_0->0) < filter_weight(t),
{
    let n = transform_spec(id, t)->Ok_0->0;
    let c = t.children[0];
    assert(t.children =~= seq![c]);
    lemma_sums_one(c);
    assert(join_count(t) == join_count(c));
    assert(filter_weight(t) == 1 + join_count(c) + filter_weight(c));
    if id == RuleID::PushDownFilterJoin {
        let l = c.children[0];
        let r = c.children[1];
        assert(c.children =~= seq![l, r]);
        lemma_sums_two(l, r);
        assert(join_count(c) == 1 + join_count(l) + join_count(r));
        assert(filter_weight(c) == filter_weight(l) + filter_weight(r));
        let a = n.children[0];
        let b = n.children[1];
        assert(n.children =~= seq![a, b]);
        lemma_sums_two(a, b);
        assert(join_count(n) == 1 + join_count(a) + join_count(b));
        assert(filter_weight(n) == filter_weight(a) + filter_weight(b));
        if a == l {
            assert(b.children =~= seq![r]);
            lemma_sums_one(r);
            assert(join_count(b) == join_count(r));
            assert(filter_weight(b) == 1 + join_count(r) + filter_weight(r));
        } else {
            assert(b == r);
            assert(a.children =~= seq![l]);
            lemma_sums_one(l);
            assert(join_count(a) == join_count(l));
            assert(filter_weight(a) == 1 + join_count(l) + filter_weight(l));
        }
    }
}

proof fn lemma_first_rewrite_lowers_weight(rules: Seq<RuleID>, t: PlanTree, k: int)
    requires
        !rules.contains(RuleID::CommuteJoin),
        first_rewrite(rules, t, k) matches Ok(Some(_)),
    ensures
        join_count(first_rewrite(rules, t, k)->Ok_0->0) == join_count(t),
        filter_weight(first_rewrite(rules, t, k)->Ok_0->0) < filter_weight(t),
    decreases rules.len() - k,
{
    if 0 <= k < rules.len() {
        assert(rules[k] != RuleID::CommuteJoin);
        match transform_spec(rules[k], t) {
            Ok(None) => lemma_first_rewrite_lowers_weight(rules, t, k + 1),
            _ => lemma_transform_lowers_weight(rules[k], t),
        }
    }
}

/// A pass of rules other than `CommuteJoin` keeps the joins and never
/// raises the filter weight; a pass that changes the tree lowers it.
pub proof fn lemma_pass_lowers_weight(rules: Seq<RuleID>, t: PlanTree)
    requires
        !rules.contains(RuleID::CommuteJoin),
        pass(rules, t) is Ok,
    ensures
        join_count(pass(rules, t)->Ok_0.0) == join_count(t),
        filter_weight(pass(rules, t)->Ok_0.0) <= filter_weight(t),
        pass(rules, t)->Ok_0.1 ==> filter_weight(pass(rules, t)->Ok_0.0) < filter_weight(t),
    decreases t, 0int,
{
    let len = t.children.len() as int;
    lemma_pass_children(rules, t.children, len);
    lemma_pass_children_lowers_weight(rules, t.children, len);
    let cs = pass_children(rules, t.children, len)->Ok_0.0;
    let node = PlanTree { plan: t.plan, children: cs };
    match first_rewrite(rules, node, 0) {
        Ok(Some(_)) => lemma_first_rewrite_lowers_weight(rules, node, 0),
        _ => {},
    }
}

proof fn lemma_pass_children_lowers_weight(rules: Seq<RuleID>, ts: Seq<PlanTree>, n: int)
    requires
        !rules.contains(RuleID::CommuteJoin),
        0 <= n <= ts.len(),
        pass_children(rules, ts, n) is Ok,
    ensures
        join_counts(pass_children(rules, ts, n)->Ok_0.0, n) == join_counts(ts, n),
        filter_weights(pass_children(rules, ts, n)->Ok_0.0, n) <= filter_weights(ts, n),
        pass_children(rules, ts, n)->Ok_0.1 ==> filter_weights(
            pass_children(rules, ts, n)->Ok_0.0,
            n,
        ) < filter_weights(ts, n),
    decreases ts, n,
{
    if n > 0 {
        lemma_pass_children(rules, ts, n - 1);
        lemma_pass_children_lowers_weight(rules, ts, n - 1);
        lemma_pass_lowers_weight(rules, ts[n - 1]);
        let prev = pass_children(rules, ts, n - 1)->Ok_0.0;
        let c = pass(rules, ts[n - 1])->Ok_0.0;
        lemma_sums_prefix(prev, c, n - 1);
        assert(prev.push(c)[n - 1] == c);
    }
}

/// One batch of rules other than `CommuteJoin` never raises the filter weight.
proof fn lemma_run_batch_weight(rules: Seq<RuleID>, t: PlanTree, fuel: nat)
    requires
        !rules.contains(RuleID::CommuteJoin),
        run_batch(rules, t, fuel) is Ok,
    ensures
        filter_weight(run_batch(rules, t, fuel)->Ok_0) <= filter_weight(t),
    decreases fuel,
{
    if fuel > 0 {
        lemma_pass_lowers_weight(rules, t);
        if pass(rules, t)->Ok_0.1 {
            lemma_run_batch_weight(rules, pass(rules, t)->Ok_0.0, (fuel - 1) as nat);
        }
    }
}

/// A batch of rules other than `CommuteJoin` reaches its fixpoint within any
/// cap above the filter weight of its input.
pub proof fn lemma_batch_within_cap(rules: Seq<RuleID>, t: PlanTree, cap: nat)
    requires
        !rules.contains(RuleID::CommuteJoin),
        filter_weight(t) < cap,
    ensures
        !(run_batch(rules, t, cap) matches Err(BatchFailure::IterationLimit)),
{
    assert forall|u: PlanTree|
        #[trigger] pass(rules, u) is Ok && pass(rules, u)->Ok_0.1 implies filter_weight(
            pass(rules, u)->Ok_0.0,
        ) < filter_weight(u) by {
        lemma_pass_lowers_weight(rules, u);
    }
    lemma_decreasing_batch_reaches_fixpoint(rules, |u: PlanTree| filter_weight(u), t, cap);
}

/// The default batches reach their fixpoints within any cap above the
/// filter weight of the input.
pub proof fn lemma_default_batches_within_cap(t: PlanTree, i: int, cap: nat)
    requires
        filter_weight(t) < cap,
    ensures
        !(run_batches(default_batches(), t, i, cap) matches Err(
            ErrorCode::IterationLimitExceeded { .. },
        )),
    decreases default_batches().len() - i,
{
    let batches = default_batches();
    if 0 <= i < batches.len() {
        let (name, rules) = batches[i];
        assert(!rules.contains(RuleID::CommuteJoin)) by {
            if rules.contains(RuleID::CommuteJoin) {
                let k = choose|k: int| 0 <= k < rules.len() && rules[k] == RuleID::CommuteJoin;
            }
        }
        lemma_batch_within_cap(rules, t, cap);
        if run_batch(rules, t, cap) is Ok {
            lemma_run_batch_weight(rules, t, cap);
            lemma_default_batches_within_cap(run_batch(rules, t, cap)->Ok_0, i + 1, cap);
        }
    }
}

/// `x`, or `usize::MAX` where `x` is larger.
pub open spec fn saturated(x: nat) -> nat {
    if x > usize::MAX {
        usize::MAX as nat
    } else {
        x
    }
}

/// The filter weight and the number of joins of the tree rooted at `e`,
/// each saturated at `usize::MAX`.
pub fn weigh(e: &SExpr) -> (r: (usize, usize))
    ensures
        r.0 == saturated(filter_weight(e@)),
        r.1 == saturated(join_count(e@)),
    decreases e,
{
    proof {
        lemma_trees(e.children@);
    }
    let mut weights: usize = 0;
    let mut joins: usize = 0;
    let mut i: usize = 0;
    while i < e.children.len()
        invariant
            i <= e.children.len(),
            e@.children.len() == e.children.len(),
            forall|j: int| 0 <= j < e.children.len() ==> #[trigger] e@.children[j] == e.children@[j]@,
            weights == saturated(filter_weights(e@.children, i as int)),
            joins == saturated(join_counts(e@.children, i as int)),
        decreases e.children.len() - i,
    {
        let (w, j) = weigh(&e.children[i]);
        weights = weights.saturating_add(w);
        joins = joins.saturating_add(j);
        i += 1;
    }
    let own_weight: usize = if e.plan.kind() == RelOpKind::Filter {
        joins.saturating_add(1)
    } else {
        0
    };
    let own_join: usize = if e.plan.kind() == RelOpKind::Join {
        1
    } else {
        0
    };
    (own_weight.saturating_add(weights), own_join.saturating_add(joins))
}

} // verus!
