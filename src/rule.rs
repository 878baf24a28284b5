use std::sync::Arc;

use vstd::prelude::*;

use crate::error::{BatchName, RuleID, TransformError};
use crate::expression::{raw_column_refs, RawExpr, Scalar};
use crate::pattern::{match_pattern, pattern_matches, Pattern};
use crate::property::{derive_columns, output_columns};
use crate::s_expr::{lemma_trees, op_kind, PlanTree, RelOpKind, RelOperator, SExpr};

verus! {

/// The shape that the pattern of rule `id` accepts.
pub open spec fn rule_shape(id: RuleID, t: PlanTree) -> bool {
    match id {
        RuleID::EliminateFilter => op_kind(t.plan) == RelOpKind::Filter && t.children.len() == 1,
        RuleID::PushDownFilterJoin => {
            &&& op_kind(t.plan) == RelOpKind::Filter
            &&& t.children.len() == 1
            &&& op_kind(t.children[0].plan) == RelOpKind::Join
            &&& t.children[0].children.len() == 2
        },
        RuleID::CommuteJoin => op_kind(t.plan) == RelOpKind::Join && t.children.len() == 2,
    }
}

pub open spec fn is_true_constant(e: RawExpr) -> bool {
    match e {
        RawExpr::Constant { scalar: Scalar::Boolean(b), .. } => b,
        _ => false,
    }
}

/// A filter node over one child.
pub open spec fn filter_over(filter: RelOperator, child: PlanTree) -> PlanTree {
    PlanTree { plan: filter, children: seq![child] }
}

/// Moves the filter at the root of `t`, whose child is a join, below the
/// join onto the side that outputs every column its predicate reads.
pub open spec fn push_down_filter(t: PlanTree, predicate: RawExpr) -> Result<
    Option<PlanTree>,
    TransformError,
> {
    let join = t.children[0];
    let left = join.children[0];
    let right = join.children[1];
    let refs = raw_column_refs(predicate);
    if refs.subset_of(output_columns(left)) {
        Ok(Some(PlanTree { plan: join.plan, children: seq![filter_over(t.plan, left), right] }))
    } else if refs.subset_of(output_columns(right)) {
        Ok(Some(PlanTree { plan: join.plan, children: seq![left, filter_over(t.plan, right)] }))
    } else if refs.subset_of(output_columns(left).union(output_columns(right))) {
        Ok(None)
    } else {
        Err(TransformError { rule: RuleID::PushDownFilterJoin, kind: RelOpKind::Filter })
    }
}

/// What rule `id` makes of the tree `t`: a replacement, none, or a failure.
pub open spec fn transform_spec(id: RuleID, t: PlanTree) -> Result<Option<PlanTree>, TransformError> {
    if !rule_shape(id, t) {
        Ok(None)
    } else {
        match id {
            RuleID::EliminateFilter => match t.plan {
                RelOperator::Filter { predicate } => if is_true_constant(predicate) {
                    Ok(Some(t.children[0]))
                } else {
                    Ok(None)
                },
                _ => Ok(None),
            },
            RuleID::PushDownFilterJoin => match t.plan {
                RelOperator::Filter { predicate } => push_down_filter(t, predicate),
                _ => Ok(None),
            },
            RuleID::CommuteJoin => Ok(
                Some(PlanTree { plan: t.plan, children: seq![t.children[1], t.children[0]] }),
            ),
        }
    }
}

/// A rule: its id and the pattern that selects where it applies.
#[derive(Debug)]
pub struct Rule {
    pub id: RuleID,
    pub pattern: Pattern,
}

impl Rule {
    /// The pattern accepts exactly the shape of the rule.
    pub open spec fn wf(&self) -> bool {
        forall|t: PlanTree| pattern_matches(self.pattern, t) == rule_shape(self.id, t)
    }

    /// The rule that `id` names.
    pub fn create(id: RuleID) -> (r: Rule)
        ensures
            r.id == id,
            r.wf(),
    {
        let pattern = match id {
            RuleID::EliminateFilter => {
                let mut cs: Vec<Pattern> = Vec::new();
                cs.push(Pattern::Leaf);
                let p = Pattern::Node { kind: RelOpKind::Filter, children: cs };
                proof {
                    assert forall|t: PlanTree| pattern_matches(p, t) == rule_shape(id, t) by {
                        if t.children.len() == 1 {
                            assert(pattern_matches(cs@[0], t.children[0]));
                        }
                    }
                }
                p
            },
            RuleID::PushDownFilterJoin => {
                let mut js: Vec<Pattern> = Vec::new();
                js.push(Pattern::Leaf);
                js.push(Pattern::Leaf);
                let jp = Pattern::Node { kind: RelOpKind::Join, children: js };
                let mut cs: Vec<Pattern> = Vec::new();
                cs.push(jp);
                let p = Pattern::Node { kind: RelOpKind::Filter, children: cs };
                proof {
                    assert forall|t: PlanTree| pattern_matches(jp, t) == rule_shape(RuleID::CommuteJoin, t) by {
                        if t.children.len() == 2 {
                            assert(pattern_matches(js@[0], t.children[0]));
                            assert(pattern_matches(js@[1], t.children[1]));
                        }
                    }
                    assert forall|t: PlanTree| pattern_matches(p, t) == rule_shape(id, t) by {
                        if t.children.len() == 1 {
                            assert(cs@[0] == jp);
                            assert(pattern_matches(jp, t.children[0]) == rule_shape(RuleID::CommuteJoin, t.children[0]));
                        }
                    }
                }
                p
            },
            RuleID::CommuteJoin => {
                let mut cs: Vec<Pattern> = Vec::new();
                cs.push(Pattern::Leaf);
                cs.push(Pattern::Leaf);
                let p = Pattern::Node { kind: RelOpKind::Join, children: cs };
                proof {
                    assert forall|t: PlanTree| pattern_matches(p, t) == rule_shape(id, t) by {
                        if t.children.len() == 2 {
                            assert(pattern_matches(cs@[0], t.children[0]));
                            assert(pattern_matches(cs@[1], t.children[1]));
                        }
                    }
                }
                p
            },
        };
        let r = Rule { id, pattern };
        r
    }

    /// Applies the rule at the root of `e`: the replacement candidates, none
    /// where it does not apply.
    pub fn apply(&self, e: &Arc<SExpr>) -> (r: Result<Vec<Arc<SExpr>>, TransformError>)
        requires
            self.wf(),
        ensures
            match transform_spec(self.id, e@) {
                Ok(None) => r is Ok && r->Ok_0.len() == 0,
                Ok(Some(t)) => r is Ok && r->Ok_0.len() == 1 && r->Ok_0@[0]@ == t,
                Err(x) => r == Err::<Vec<Arc<SExpr>>, TransformError>(x),
            },
    {
        let mut out: Vec<Arc<SExpr>> = Vec::new();
        if match_pattern(&self.pattern, e).is_none() {
            return Ok(out);
        }
        match transform(self.id, e) {
            Ok(Some(n)) => {
                out.push(n);
                Ok(out)
            },
            Ok(None) => Ok(out),
            Err(x) => Err(x),
        }
    }
}

/// Rewrites the root of `e` by rule `id`.
pub fn transform(id: RuleID, e: &Arc<SExpr>) -> (r: Result<Option<Arc<SExpr>>, TransformError>)
    ensures
        match transform_spec(id, e@) {
            Ok(None) => r == Ok::<Option<Arc<SExpr>>, TransformError>(None),
            Ok(Some(t)) => r is Ok && r->Ok_0 is Some && r->Ok_0->0@ == t,
            Err(x) => r == Err::<Option<Arc<SExpr>>, TransformError>(x),
        },
{
    proof {
        lemma_trees(e.children@);
    }
    if e.children.len() == 0 {
        return Ok(None);
    }
    let first = &e.children[0];
    proof {
        lemma_trees(first.children@);
    }
    match id {
        RuleID::EliminateFilter => {
            if e.children.len() != 1 {
                return Ok(None);
            }
            match &*e.plan {
                RelOperator::Filter { predicate } => match predicate {
                    RawExpr::Constant { scalar: Scalar::Boolean(b), .. } => if *b {
                        Ok(Some(first.clone()))
                    } else {
                        Ok(None)
                    },
                    _ => Ok(None),
                },
                _ => Ok(None),
            }
        },
        RuleID::PushDownFilterJoin => {
            if e.children.len() != 1 || first.plan.kind() != RelOpKind::Join || first.children.len()
                != 2 {
                return Ok(None);
            }
            match &*e.plan {
                RelOperator::Filter { predicate } => {
                    let left = &first.children[0];
                    let right = &first.children[1];
                    let refs = predicate.column_ref_set();
                    let mut cols = derive_columns(left);
                    if refs.is_subset(&cols) {
                        let f = Arc::new(SExpr::create_unary(e.plan.clone(), left.clone()));
                        let j = SExpr::create_binary(first.plan.clone(), f, right.clone());
                        return Ok(Some(Arc::new(j)));
                    }
                    let right_cols = derive_columns(right);
                    if refs.is_subset(&right_cols) {
                        let f = Arc::new(SExpr::create_unary(e.plan.clone(), right.clone()));
                        let j = SExpr::create_binary(first.plan.clone(), left.clone(), f);
                        return Ok(Some(Arc::new(j)));
                    }
                    cols.union_with(&right_cols);
                    if refs.is_subset(&cols) {
                        Ok(None)
                    } else {
                        Err(TransformError { rule: RuleID::PushDownFilterJoin, kind: RelOpKind::Filter })
                    }
                },
                _ => Ok(None),
            }
        },
        RuleID::CommuteJoin => {
            if e.plan.kind() != RelOpKind::Join || e.children.len() != 2 {
                return Ok(None);
            }
            let j = SExpr::create_binary(e.plan.clone(), e.children[1].clone(), e.children[0].clone());
            Ok(Some(Arc::new(j)))
        },
    }
}

/// An ordered group of rules, applied together until none changes the tree.
#[derive(Debug)]
pub struct RuleBatch {
    pub name: BatchName,
    pub rules: Vec<RuleID>,
}

/// The batches of rules, in the order in which they run.
#[derive(Debug)]
pub struct RuleSet {
    pub batches: Vec<RuleBatch>,
}

pub open spec fn batch_view(b: RuleBatch) -> (BatchName, Seq<RuleID>) {
    (b.name, b.rules@)
}

impl View for RuleSet {
    type V = Seq<(BatchName, Seq<RuleID>)>;

    open spec fn view(&self) -> Seq<(BatchName, Seq<RuleID>)> {
        self.batches@.map_values(|b: RuleBatch| batch_view(b))
    }
}

/// The batches that a query goes through by default: normalization, then pushdown.
pub open spec fn default_batches() -> Seq<(BatchName, Seq<RuleID>)> {
    seq![
        (BatchName::Normalize, seq![RuleID::EliminateFilter]),
        (BatchName::PushDown, seq![RuleID::PushDownFilterJoin]),
    ]
}

impl RuleSet {
    /// A rule set without batches.
    pub fn new() -> (r: RuleSet)
        ensures
            r@ == Seq::<(BatchName, Seq<RuleID>)>::empty(),
    {
        let r = RuleSet { batches: Vec::new() };
        proof {
            assert(r@ =~= Seq::<(BatchName, Seq<RuleID>)>::empty());
        }
        r
    }

    /// Appends a batch that runs after the present ones.
    pub fn add_batch(&mut self, name: BatchName, rules: Vec<RuleID>)
        ensures
            final(self)@ == old(self)@.push((name, rules@)),
    {
        self.batches.push(RuleBatch { name, rules });
        proof {
            assert(final(self)@ =~= old(self)@.push((name, rules@)));
        }
    }

    /// The default rule set.
    pub fn create() -> (r: RuleSet)
        ensures
            r@ == default_batches(),
    {
        let mut r = RuleSet::new();
        let mut normalize: Vec<RuleID> = Vec::new();
        normalize.push(RuleID::EliminateFilter);
        r.add_batch(BatchName::Normalize, normalize);
        let mut push_down: Vec<RuleID> = Vec::new();
        push_down.push(RuleID::PushDownFilterJoin);
        r.add_batch(BatchName::PushDown, push_down);
        proof {
            assert(r@ =~= default_batches());
        }
        r
    }
}

} // verus!
