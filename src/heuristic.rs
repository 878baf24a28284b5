use std::sync::Arc;

use vstd::prelude::*;

use crate::error::{BatchName, ErrorCode, RuleID, TransformError};
use crate::rule::{transform_spec, Rule, RuleSet};
use crate::property::{columns_of_trees, lemma_columns_of_trees, lemma_output_columns, output_columns};
use crate::s_expr::{lemma_trees, op_kind, trees, PlanTree, RelOpKind, SExpr};

verus! {

/// The most passes that one batch may take before it is deemed cyclic.
pub const MAX_ITERATIONS: usize = 100;

/// What the first of `rules[k..]` that applies makes of the root of `t`.
pub open spec fn first_rewrite(rules: Seq<RuleID>, t: PlanTree, k: int) -> Result<
    Option<PlanTree>,
    TransformError,
>
    decreases rules.len() - k,
{
    if k < 0 || k >= rules.len() {
        Ok(None)
    } else {
        match transform_spec(rules[k], t) {
            Ok(None) => first_rewrite(rules, t, k + 1),
            other => other,
        }
    }
}

/// One bottom-up pass of `rules` over `t`: children first, then the node
/// itself, rewritten by the first rule that applies. The flag tells whether
/// anything changed.
pub open spec fn pass(rules: Seq<RuleID>, t: PlanTree) -> Result<(PlanTree, bool), TransformError>
    decreases t,
{
    match pass_children(rules, t.children, t.children.len() as int) {
        Err(x) => Err(x),
        Ok((cs, changed)) => {
            let node = PlanTree { plan: t.plan, children: cs };
            match first_rewrite(rules, node, 0) {
                Err(x) => Err(x),
                Ok(Some(n)) => Ok((n, true)),
                Ok(None) => Ok((node, changed)),
            }
        },
    }
}

/// A pass over the first `n` trees of `ts`, left to right.
pub open spec fn pass_children(rules: Seq<RuleID>, ts: Seq<PlanTree>, n: int) -> Result<
    (Seq<PlanTree>, bool),
    TransformError,
>
    decreases ts, n,
{
    if n <= 0 || n > ts.len() {
        Ok((Seq::empty(), false))
    } else {
        match pass_children(rules, ts, n - 1) {
            Err(x) => Err(x),
            Ok((cs, changed)) => match pass(rules, ts[n - 1]) {
                Err(x) => Err(x),
                Ok((c, c_changed)) => Ok((cs.push(c), changed || c_changed)),
            },
        }
    }
}

/// Why a batch stopped without a result.
pub enum BatchFailure {
    Transform(TransformError),
    IterationLimit,
}

/// Passes of `rules` over `t` until one changes nothing, at most `fuel` of them.
pub open spec fn run_batch(rules: Seq<RuleID>, t: PlanTree, fuel: nat) -> Result<
    PlanTree,
    BatchFailure,
>
    decreases fuel,
{
    if fuel == 0 {
        Err(BatchFailure::IterationLimit)
    } else {
        match pass(rules, t) {
            Err(x) => Err(BatchFailure::Transform(x)),
            Ok((n, false)) => Ok(n),
            Ok((n, true)) => run_batch(rules, n, (fuel - 1) as nat),
        }
    }
}

/// Runs the batches from the `i`-th on, in order, each to its fixpoint.
pub open spec fn run_batches(
    batches: Seq<(BatchName, Seq<RuleID>)>,
    t: PlanTree,
    i: int,
    cap: nat,
) -> Result<PlanTree, ErrorCode>
    decreases batches.len() - i,
{
    if i < 0 || i >= batches.len() {
        Ok(t)
    } else {
        let (name, rules) = batches[i];
        match run_batch(rules, t, cap) {
            Err(BatchFailure::Transform(x)) => Err(
                ErrorCode::RuleTransform { rule: x.rule, kind: x.kind, batch: name },
            ),
            Err(BatchFailure::IterationLimit) => Err(
                ErrorCode::IterationLimitExceeded { batch: name },
            ),
            Ok(n) => run_batches(batches, n, i + 1, cap),
        }
    }
}

/// The ids of a list of rules.
pub open spec fn rule_ids(rs: Seq<Rule>) -> Seq<RuleID> {
    rs.map_values(|x: Rule| x.id)
}

/// Once a prefix of the children fails, the whole list fails the same way.
proof fn lemma_pass_children_error(rules: Seq<RuleID>, ts: Seq<PlanTree>, m: int, n: int)
    requires
        0 <= m <= n <= ts.len(),
        pass_children(rules, ts, m) is Err,
    ensures
        pass_children(rules, ts, n) == pass_children(rules, ts, m),
    decreases n - m,
{
    if n > m {
        lemma_pass_children_error(rules, ts, m, n - 1);
    }
}

/// The states of the optimizer: one `ApplyingBatch` per batch, in order.
#[derive(Debug, Clone, Copy, PartialEq, Eq, Structural)]
pub enum OptimizerState {
    Init,
    ApplyingBatch(usize),
    Done,
}

pub open spec fn next_state_spec(state: OptimizerState, batches: nat) -> OptimizerState {
    match state {
        OptimizerState::Init => if batches > 0 {
            OptimizerState::ApplyingBatch(0)
        } else {
            OptimizerState::Done
        },
        OptimizerState::ApplyingBatch(i) => if i + 1 < batches {
            OptimizerState::ApplyingBatch((i + 1) as usize)
        } else {
            OptimizerState::Done
        },
        OptimizerState::Done => OptimizerState::Done,
    }
}

/// The state that follows `state` once its batch has reached its fixpoint.
pub fn next_state(state: OptimizerState, batches: usize) -> (r: OptimizerState)
    ensures
        r == next_state_spec(state, batches as nat),
{
    match state {
        OptimizerState::Init => if batches > 0 {
            OptimizerState::ApplyingBatch(0)
        } else {
            OptimizerState::Done
        },
        OptimizerState::ApplyingBatch(i) => if i < batches && i + 1 < batches {
            OptimizerState::ApplyingBatch(i + 1)
        } else {
            OptimizerState::Done
        },
        OptimizerState::Done => OptimizerState::Done,
    }
}

/// Applies rule after rule at the root of `e` until one gives a candidate;
/// its first candidate is the replacement.
fn apply_rules(rules: &Vec<Rule>, e: &Arc<SExpr>) -> (r: Result<Option<Arc<SExpr>>, TransformError>)
    requires
        forall|k: int| 0 <= k < rules.len() ==> (#[trigger] rules@[k]).wf(),
    ensures
        match first_rewrite(rule_ids(rules@), e@, 0) {
            Ok(None) => r == Ok::<Option<Arc<SExpr>>, TransformError>(None),
            Ok(Some(t)) => r is Ok && r->Ok_0 is Some && r->Ok_0->0@ == t,
            Err(x) => r == Err::<Option<Arc<SExpr>>, TransformError>(x),
        },
{
    let ghost ids = rule_ids(rules@);
    let mut k: usize = 0;
    while k < rules.len()
        invariant
            k <= rules.len(),
            forall|j: int| 0 <= j < rules.len() ==> (#[trigger] rules@[j]).wf(),
            ids == rule_ids(rules@),
            first_rewrite(ids, e@, 0) == first_rewrite(ids, e@, k as int),
        decreases rules.len() - k,
    {
        let candidates = rules[k].apply(e);
        match candidates {
            Err(x) => return Err(x),
            Ok(cs) => {
                if cs.len() > 0 {
                    return Ok(Some(cs[0].clone()));
                }
            },
        }
        k += 1;
    }
    Ok(None)
}

/// The rules that `ids` name.
fn rules_of(ids: &Vec<RuleID>) -> (r: Vec<Rule>)
    ensures
        rule_ids(r@) == ids@,
        forall|k: int| 0 <= k < r.len() ==> (#[trigger] r@[k]).wf(),
{
    let mut r: Vec<Rule> = Vec::new();
    let mut i: usize = 0;
    while i < ids.len()
        invariant
            i <= ids.len(),
            rule_ids(r@) == ids@.subrange(0, i as int),
            forall|k: int| 0 <= k < r.len() ==> (#[trigger] r@[k]).wf(),
        decreases ids.len() - i,
    {
        let rule = Rule::create(ids[i]);
        let ghost before = r@;
        r.push(rule);
        proof {
            assert(r@ == before.push(rule));
            assert(rule_ids(r@) =~= rule_ids(before).push(rule.id));
            assert(ids@.subrange(0, i + 1) =~= ids@.subrange(0, i as int).push(ids@[i as int]));
        }
        i += 1;
        proof {
            assert(rule_ids(r@) =~= ids@.subrange(0, i as int));
        }
    }
    proof {
        assert(ids@.subrange(0, ids.len() as int) =~= ids@);
    }
    r
}

/// One pass of `rules` over the tree rooted at `e`. Where nothing changed,
/// the result is `e` itself.
#[verifier::loop_isolation(false)]
fn rewrite_pass(rules: &Vec<Rule>, e: &Arc<SExpr>) -> (r: Result<(Arc<SExpr>, bool), TransformError>)
    requires
        forall|k: int| 0 <= k < rules.len() ==> (#[trigger] rules@[k]).wf(),
    ensures
        match pass(rule_ids(rules@), e@) {
            Ok((t, changed)) => r is Ok && r->Ok_0.0@ == t && r->Ok_0.1 == changed,
            Err(x) => r == Err::<(Arc<SExpr>, bool), TransformError>(x),
        },
        r is Ok && !r->Ok_0.1 ==> r->Ok_0.0 == *e,
    decreases e,
{
    let ghost ids = rule_ids(rules@);
    proof {
        lemma_trees(e.children@);
    }
    let mut children: Vec<Arc<SExpr>> = Vec::new();
    let mut changed = false;
    let mut i: usize = 0;
    while i < e.children.len()
        invariant
            i <= e.children.len(),
            children.len() == i,
            pass_children(ids, e@.children, i as int) == Ok::<(Seq<PlanTree>, bool), TransformError>(
                (trees(children@), changed),
            ),
            !changed ==> children@ == e.children@.subrange(0, i as int),
        decreases e.children.len() - i,
    {
        let c = rewrite_pass(rules, &e.children[i]);
        match c {
            Err(x) => {
                proof {
                    lemma_pass_children_error(ids, e@.children, i + 1, e.children.len() as int);
                }
                return Err(x);
            },
            Ok((n, c_changed)) => {
                let ghost before = children@;
                children.push(n);
                changed = changed || c_changed;
                proof {
                    lemma_trees(before);
                    lemma_trees(children@);
                    assert(trees(children@) =~= trees(before).push(n@));
                    if !changed {
                        assert(children@ =~= e.children@.subrange(0, i + 1));
                    }
                }
            },
        }
        i += 1;
    }
    let node = if changed {
        Arc::new(SExpr::create(e.plan.clone(), children))
    } else {
        proof {
            assert(children@ =~= e.children@);
        }
        e.clone()
    };
    proof {
        lemma_trees(node.children@);
    }
    match apply_rules(rules, &node) {
        Err(x) => Err(x),
        Ok(Some(n)) => Ok((n, true)),
        Ok(None) => Ok((node, changed)),
    }
}

/// Runs one batch to its fixpoint, at most `cap` passes.
fn run_batch_exec(rules: &Vec<Rule>, e: Arc<SExpr>, cap: usize) -> (r: Result<Arc<SExpr>, BatchFailure>)
    requires
        forall|k: int| 0 <= k < rules.len() ==> (#[trigger] rules@[k]).wf(),
    ensures
        match run_batch(rule_ids(rules@), e@, cap as nat) {
            Ok(t) => r is Ok && r->Ok_0@ == t,
            Err(BatchFailure::Transform(x)) => r matches Err(BatchFailure::Transform(y)) && y == x,
            Err(BatchFailure::IterationLimit) => r matches Err(BatchFailure::IterationLimit),
        },
{
    let ghost ids = rule_ids(rules@);
    let mut cur = e;
    let mut fuel: usize = cap;
    while fuel > 0
        invariant
            forall|k: int| 0 <= k < rules.len() ==> (#[trigger] rules@[k]).wf(),
            ids == rule_ids(rules@),
            run_batch(ids, e@, cap as nat) == run_batch(ids, cur@, fuel as nat),
        decreases fuel,
    {
        match rewrite_pass(rules, &cur) {
            Err(x) => return Err(BatchFailure::Transform(x)),
            Ok((n, changed)) => {
                if !changed {
                    return Ok(n);
                }
                cur = n;
            },
        }
        fuel -= 1;
    }
    Err(BatchFailure::IterationLimit)
}

/// Runs the batches of a rule set, in order, each to its fixpoint.
#[derive(Debug)]
pub struct HeuristicOptimizer {
    pub rule_set: RuleSet,
    pub max_iterations: usize,
}

impl HeuristicOptimizer {
    /// The optimizer with the default rule set.
    pub fn create() -> (r: HeuristicOptimizer)
        ensures
            r.rule_set@ == crate::rule::default_batches(),
            r.max_iterations == MAX_ITERATIONS,
    {
        HeuristicOptimizer { rule_set: RuleSet::create(), max_iterations: MAX_ITERATIONS }
    }

    /// An optimizer with the given rule set and iteration cap.
    pub fn with_rule_set(rule_set: RuleSet, max_iterations: usize) -> (r: HeuristicOptimizer)
        ensures
            r.rule_set == rule_set,
            r.max_iterations == max_iterations,
    {
        HeuristicOptimizer { rule_set, max_iterations }
    }

    /// Rewrites the tree rooted at `e` batch by batch, from `Init` through
    /// one `ApplyingBatch` per batch to `Done`.
    pub fn optimize(&self, e: Arc<SExpr>) -> (r: Result<Arc<SExpr>, ErrorCode>)
        ensures
            match run_batches(self.rule_set@, e@, 0, self.max_iterations as nat) {
                Ok(t) => r is Ok && r->Ok_0@ == t,
                Err(x) => r == Err::<Arc<SExpr>, ErrorCode>(x),
            },
    {
        let ghost batches = self.rule_set@;
        let ghost cap = self.max_iterations as nat;
        let n = self.rule_set.batches.len();
        let mut cur = e;
        let mut state = next_state(OptimizerState::Init, n);
        while state != OptimizerState::Done
            invariant
                n == self.rule_set.batches.len(),
                batches == self.rule_set@,
                cap == self.max_iterations as nat,
                state matches OptimizerState::ApplyingBatch(i) ==> i < n,
                run_batches(batches, e@, 0, cap) == run_batches(
                    batches,
                    cur@,
                    match state {
                        OptimizerState::ApplyingBatch(i) => i as int,
                        _ => n as int,
                    },
                    cap,
                ),
            decreases match state {
                OptimizerState::ApplyingBatch(i) => n - i,
                OptimizerState::Init => n + 1,
                OptimizerState::Done => 0,
            },
        {
            let i = match state {
                OptimizerState::ApplyingBatch(i) => i,
                _ => n,
            };
            if i >= n {
                return Ok(cur);
            }
            let batch = &self.rule_set.batches[i];
            let rules = rules_of(&batch.rules);
            match run_batch_exec(&rules, cur, self.max_iterations) {
                Err(BatchFailure::Transform(x)) => {
                    return Err(ErrorCode::RuleTransform { rule: x.rule, kind: x.kind, batch: batch.name });
                },
                Err(BatchFailure::IterationLimit) => {
                    return Err(ErrorCode::IterationLimitExceeded { batch: batch.name });
                },
                Ok(next) => {
                    cur = next;
                },
            }
            state = next_state(state, n);
        }
        Ok(cur)
    }
}

} // verus!

verus! {

/// A rule's replacement outputs the same columns as the tree it replaces.
pub proof fn lemma_transform_keeps_columns(id: RuleID, t: PlanTree)
    requires
        transform_spec(id, t) matches Ok(Some(_)),
    ensures
        output_columns(transform_spec(id, t)->Ok_0->0) == output_columns(t),
{
    let n = transform_spec(id, t)->Ok_0->0;
    lemma_output_columns(t);
    lemma_output_columns(n);
    match id {
        RuleID::EliminateFilter => {},
        RuleID::PushDownFilterJoin => {
            let join = t.children[0];
            lemma_output_columns(join);
            lemma_output_columns(n.children[0]);
            lemma_output_columns(n.children[1]);
            assert(output_columns(n) =~= output_columns(t));
        },
        RuleID::CommuteJoin => {
            assert(output_columns(n) =~= output_columns(t));
        },
    }
}

proof fn lemma_first_rewrite_keeps_columns(rules: Seq<RuleID>, t: PlanTree, k: int)
    requires
        first_rewrite(rules, t, k) matches Ok(Some(_)),
    ensures
        output_columns(first_rewrite(rules, t, k)->Ok_0->0) == output_columns(t),
    decreases rules.len() - k,
{
    if 0 <= k < rules.len() {
        match transform_spec(rules[k], t) {
            Ok(None) => lemma_first_rewrite_keeps_columns(rules, t, k + 1),
            _ => lemma_transform_keeps_columns(rules[k], t),
        }
    }
}

/// A pass outputs the same columns as the tree it passed over; a pass
/// that changes nothing gives back the tree itself.
pub proof fn lemma_pass(rules: Seq<RuleID>, t: PlanTree)
    requires
        pass(rules, t) is Ok,
    ensures
        output_columns(pass(rules, t)->Ok_0.0) == output_columns(t),
        !pass(rules, t)->Ok_0.1 ==> pass(rules, t)->Ok_0.0 == t,
    decreases t, 0int,
{
    let len = t.children.len() as int;
    lemma_pass_children(rules, t.children, len);
    let cs = pass_children(rules, t.children, len)->Ok_0.0;
    let node = PlanTree { plan: t.plan, children: cs };
    lemma_columns_of_trees(cs, len);
    lemma_columns_of_trees(t.children, len);
    assert(columns_of_trees(cs, len) =~= columns_of_trees(t.children, len));
    assert(output_columns(node) == output_columns(t));
    if !pass_children(rules, t.children, len)->Ok_0.1 {
        assert(cs =~= t.children);
    }
    match first_rewrite(rules, node, 0) {
        Ok(Some(_)) => lemma_first_rewrite_keeps_columns(rules, node, 0),
        _ => {},
    }
}

pub(crate) proof fn lemma_pass_children(rules: Seq<RuleID>, ts: Seq<PlanTree>, n: int)
    requires
        0 <= n <= ts.len(),
        pass_children(rules, ts, n) is Ok,
    ensures
        pass_children(rules, ts, n)->Ok_0.0.len() == n,
        forall|i: int|
            0 <= i < n ==> output_columns(#[trigger] pass_children(rules, ts, n)->Ok_0.0[i])
                == output_columns(ts[i]),
        !pass_children(rules, ts, n)->Ok_0.1 ==> pass_children(rules, ts, n)->Ok_0.0
            == ts.subrange(0, n),
    decreases ts, n,
{
    if n > 0 {
        lemma_pass_children(rules, ts, n - 1);
        lemma_pass(rules, ts[n - 1]);
        let prev = pass_children(rules, ts, n - 1)->Ok_0.0;
        let cs = pass_children(rules, ts, n)->Ok_0.0;
        assert(cs == prev.push(pass(rules, ts[n - 1])->Ok_0.0));
        assert forall|i: int| 0 <= i < n implies output_columns(#[trigger] cs[i])
            == output_columns(ts[i]) by {
            if i < n - 1 {
                assert(cs[i] == prev[i]);
            }
        }
        if !pass_children(rules, ts, n)->Ok_0.1 {
            assert(cs =~= ts.subrange(0, n));
        }
    } else {
        assert(pass_children(rules, ts, n)->Ok_0.0 =~= ts.subrange(0, n));
    }
}

/// A batch run outputs the same columns as its input.
pub proof fn lemma_run_batch_keeps_columns(rules: Seq<RuleID>, t: PlanTree, fuel: nat)
    requires
        run_batch(rules, t, fuel) is Ok,
    ensures
        output_columns(run_batch(rules, t, fuel)->Ok_0) == output_columns(t),
    decreases fuel,
{
    if fuel > 0 {
        lemma_pass(rules, t);
        if pass(rules, t)->Ok_0.1 {
            lemma_run_batch_keeps_columns(rules, pass(rules, t)->Ok_0.0, (fuel - 1) as nat);
        }
    }
}

/// Running batches outputs the same columns as the input.
pub proof fn lemma_run_batches_keeps_columns(
    batches: Seq<(BatchName, Seq<RuleID>)>,
    t: PlanTree,
    i: int,
    cap: nat,
)
    requires
        run_batches(batches, t, i, cap) is Ok,
    ensures
        output_columns(run_batches(batches, t, i, cap)->Ok_0) == output_columns(t),
    decreases batches.len() - i,
{
    if 0 <= i < batches.len() {
        let (name, rules) = batches[i];
        lemma_run_batch_keeps_columns(rules, t, cap);
        lemma_run_batches_keeps_columns(batches, run_batch(rules, t, cap)->Ok_0, i + 1, cap);
    }
}

} // verus!

verus! {

/// A batch whose changing passes strictly decrease a measure reaches its
/// fixpoint before the cap, when the measure of the input is below the cap.
pub proof fn lemma_decreasing_batch_reaches_fixpoint(
    rules: Seq<RuleID>,
    measure: spec_fn(PlanTree) -> nat,
    t: PlanTree,
    cap: nat,
)
    requires
        forall|u: PlanTree|
            #[trigger] pass(rules, u) is Ok && pass(rules, u)->Ok_0.1 ==> measure(
                pass(rules, u)->Ok_0.0,
            ) < measure(u),
        measure(t) < cap,
    ensures
        !(run_batch(rules, t, cap) matches Err(BatchFailure::IterationLimit)),
    decreases cap,
{
    if pass(rules, t) is Ok && pass(rules, t)->Ok_0.1 {
        lemma_decreasing_batch_reaches_fixpoint(rules, measure, pass(rules, t)->Ok_0.0, (cap - 1) as nat);
    }
}

} // verus!

verus! {

proof fn lemma_commute_pass_ok(t: PlanTree)
    ensures
        pass(seq![RuleID::CommuteJoin], t) is Ok,
    decreases t, 0int,
{
    let len = t.children.len() as int;
    let rules = seq![RuleID::CommuteJoin];
    lemma_commute_pass_children_ok(t.children, len);
    let cs = pass_children(rules, t.children, len)->Ok_0.0;
    let node = PlanTree { plan: t.plan, children: cs };
    assert(first_rewrite(rules, node, 1) == Ok::<Option<PlanTree>, TransformError>(None));
    assert(first_rewrite(rules, node, 0) is Ok);
}

proof fn lemma_commute_pass_children_ok(ts: Seq<PlanTree>, n: int)
    ensures
        pass_children(seq![RuleID::CommuteJoin], ts, n) is Ok,
    decreases ts, n,
{
    if 0 < n <= ts.len() {
        lemma_commute_pass_children_ok(ts, n - 1);
        lemma_commute_pass_ok(ts[n - 1]);
    }
}

/// Some node of `t` is a join with two inputs.
pub open spec fn contains_join(t: PlanTree) -> bool
    decreases t,
{
    ||| (op_kind(t.plan) == RelOpKind::Join && t.children.len() == 2)
    ||| exists|i: int| 0 <= i < t.children.len() && contains_join(#[trigger] t.children[i])
}

proof fn lemma_commute_children(ts: Seq<PlanTree>, n: int)
    requires
        0 <= n <= ts.len(),
    ensures
        pass_children(seq![RuleID::CommuteJoin], ts, n) is Ok,
        pass_children(seq![RuleID::CommuteJoin], ts, n)->Ok_0.0.len() == n,
        forall|i: int|
            0 <= i < n ==> #[trigger] pass_children(seq![RuleID::CommuteJoin], ts, n)->Ok_0.0[i]
                == pass(seq![RuleID::CommuteJoin], ts[i])->Ok_0.0,
        pass_children(seq![RuleID::CommuteJoin], ts, n)->Ok_0.1 == exists|i: int|
            0 <= i < n && (#[trigger] pass(seq![RuleID::CommuteJoin], ts[i]))->Ok_0.1,
    decreases n,
{
    let rules = seq![RuleID::CommuteJoin];
    if n > 0 {
        lemma_commute_children(ts, n - 1);
        lemma_commute_pass_ok(ts[n - 1]);
        let prev = pass_children(rules, ts, n - 1)->Ok_0.0;
        let cs = pass_children(rules, ts, n)->Ok_0.0;
        assert(cs == prev.push(pass(rules, ts[n - 1])->Ok_0.0));
        assert forall|i: int| 0 <= i < n implies #[trigger] cs[i] == pass(rules, ts[i])->Ok_0.0 by {
            if i < n - 1 {
                assert(cs[i] == prev[i]);
            }
        }
        if pass(rules, ts[n - 1])->Ok_0.1 {
            assert(pass(rules, ts[n - 1])->Ok_0.1);
        }
    } else {
        lemma_commute_children_ok_base(ts);
    }
}

proof fn lemma_commute_children_ok_base(ts: Seq<PlanTree>)
    ensures
        pass_children(seq![RuleID::CommuteJoin], ts, 0) == Ok::<(Seq<PlanTree>, bool), TransformError>(
            (Seq::empty(), false),
        ),
{
}

/// A pass of `CommuteJoin` over a tree with a join changes it, and the
/// result still has a join.
proof fn lemma_commute_pass_changes(t: PlanTree)
    requires
        contains_join(t),
    ensures
        pass(seq![RuleID::CommuteJoin], t) is Ok,
        pass(seq![RuleID::CommuteJoin], t)->Ok_0.1,
        contains_join(pass(seq![RuleID::CommuteJoin], t)->Ok_0.0),
    decreases t,
{
    let rules = seq![RuleID::CommuteJoin];
    let len = t.children.len() as int;
    lemma_commute_pass_ok(t);
    lemma_commute_children(t.children, len);
    let cs = pass_children(rules, t.children, len)->Ok_0.0;
    let node = PlanTree { plan: t.plan, children: cs };
    assert(first_rewrite(rules, node, 1) == Ok::<Option<PlanTree>, TransformError>(None));
    if op_kind(t.plan) == RelOpKind::Join && len == 2 {
        let n = PlanTree { plan: t.plan, children: seq![cs[1], cs[0]] };
        assert(pass(rules, t)->Ok_0.0 == n);
    } else {
        let i = choose|i: int| 0 <= i < t.children.len() && contains_join(#[trigger] t.children[i]);
        lemma_commute_pass_changes(t.children[i]);
        assert(pass(rules, t.children[i])->Ok_0.1);
        assert(cs[i] == pass(rules, t.children[i])->Ok_0.0);
        assert(contains_join(node.children[i]));
        assert(pass(rules, t)->Ok_0.0 == node);
    }
}

/// A batch that holds only `CommuteJoin`, a rule that undoes itself, never
/// settles on a tree that has a join anywhere: every pass swaps that
/// join's inputs again, so the batch always ends at the iteration cap.
pub proof fn lemma_commute_batch_hits_cap(t: PlanTree, fuel: nat)
    requires
        contains_join(t),
    ensures
        run_batch(seq![RuleID::CommuteJoin], t, fuel) == Err::<PlanTree, BatchFailure>(
            BatchFailure::IterationLimit,
        ),
    decreases fuel,
{
    if fuel > 0 {
        lemma_commute_pass_changes(t);
        lemma_commute_batch_hits_cap(pass(seq![RuleID::CommuteJoin], t)->Ok_0.0, (fuel - 1) as nat);
    }
}

/// Optimizing with a rule set whose one batch holds only `CommuteJoin`
/// reports that the batch exceeded the iteration cap, whatever the cap, on
/// every tree that has a join anywhere.
pub proof fn lemma_cyclic_batch_exceeds_limit(name: BatchName, t: PlanTree, cap: nat)
    requires
        contains_join(t),
    ensures
        run_batches(seq![(name, seq![RuleID::CommuteJoin])], t, 0, cap) == Err::<PlanTree, ErrorCode>(
            ErrorCode::IterationLimitExceeded { batch: name },
        ),
{
    lemma_commute_batch_hits_cap(t, cap);
}

} // verus!
