use vstd::prelude::*;

use crate::error::RuleID;
use crate::expression::{raw_column_refs, RawExpr, Scalar};
use crate::heuristic::{first_rewrite, pass, pass_children, run_batch, run_batches};
use crate::plan::query_result;
use crate::property::{columns_of_trees, lemma_columns_of_trees, lemma_output_columns, output_columns};
use crate::rule::{default_batches, is_true_constant, transform_spec};
use crate::s_expr::{op_kind, PlanTree, RelOpKind, RelOperator};

verus! {

/// A row: the value of each of its columns.
pub type Row = Map<usize, Scalar>;

/// What the scalar world outside the plan trees contributes to evaluation:
/// whether a predicate holds of a row, and what an operator other than a
/// filter or a join outputs for the rows of its children.
pub struct Semantics {
    pub holds: spec_fn(RawExpr, Row) -> bool,
    pub other: spec_fn(RelOperator, Seq<Seq<Row>>) -> Seq<Row>,
}

/// The rows `r1` and `r2` have the same columns among `cols`, with the same values.
pub open spec fn agree_on(cols: Set<usize>, r1: Row, r2: Row) -> bool {
    forall|c: usize| #[trigger]
        cols.contains(c) ==> r1.dom().contains(c) == r2.dom().contains(c) && (r1.dom().contains(c)
            ==> r1[c] == r2[c])
}

/// A predicate reads only the columns it references, and the constant
/// `true` holds of every row.
pub open spec fn sound(sem: Semantics) -> bool {
    &&& forall|p: RawExpr, r1: Row, r2: Row|
        #![trigger (sem.holds)(p, r1), (sem.holds)(p, r2)]
        agree_on(raw_column_refs(p), r1, r2) ==> (sem.holds)(p, r1) == (sem.holds)(p, r2)
    &&& forall|p: RawExpr, r: Row| is_true_constant(p) ==> #[trigger] (sem.holds)(p, r)
}

/// The rows of `rows` of which `p` holds, in order.
pub open spec fn filter_rows(sem: Semantics, p: RawExpr, rows: Seq<Row>) -> Seq<Row>
    decreases rows.len(),
{
    if rows.len() == 0 {
        rows
    } else {
        let rest = filter_rows(sem, p, rows.drop_last());
        if (sem.holds)(p, rows.last()) {
            rest.push(rows.last())
        } else {
            rest
        }
    }
}

/// Each row of `rs` combined with `l`.
pub open spec fn with_left(l: Row, rs: Seq<Row>) -> Seq<Row> {
    rs.map_values(|r: Row| l.union_prefer_right(r))
}

/// Every combination of a row of `ls` with a row of `rs`, left-major.
pub open spec fn join_rows(ls: Seq<Row>, rs: Seq<Row>) -> Seq<Row>
    decreases ls.len(),
{
    if ls.len() == 0 {
        Seq::empty()
    } else {
        join_rows(ls.drop_last(), rs) + with_left(ls.last(), rs)
    }
}

pub open spec fn filter_predicate(op: RelOperator) -> RawExpr {
    match op {
        RelOperator::Filter { predicate } => predicate,
        _ => RawExpr::Constant {
            span: None,
            scalar: Scalar::Boolean(true),
            data_type: crate::expression::DataType::Boolean,
        },
    }
}

/// The rows that a plan tree outputs.
pub open spec fn eval(sem: Semantics, t: PlanTree) -> Seq<Row>
    decreases t,
{
    if op_kind(t.plan) == RelOpKind::Filter && t.children.len() == 1 {
        filter_rows(sem, filter_predicate(t.plan), eval(sem, t.children[0]))
    } else if op_kind(t.plan) == RelOpKind::Join && t.children.len() == 2 {
        join_rows(eval(sem, t.children[0]), eval(sem, t.children[1]))
    } else {
        (sem.other)(t.plan, evals(sem, t.children, t.children.len() as int)).map_values(
            |r: Row| r.restrict(output_columns(t)),
        )
    }
}

pub open spec fn evals(sem: Semantics, ts: Seq<PlanTree>, n: int) -> Seq<Seq<Row>>
    decreases ts, n,
{
    if n <= 0 || n > ts.len() {
        Seq::empty()
    } else {
        evals(sem, ts, n - 1).push(eval(sem, ts[n - 1]))
    }
}

/// The inputs of every join output disjoint column sets.
pub open spec fn joins_disjoint(t: PlanTree) -> bool
    decreases t,
{
    &&& (op_kind(t.plan) == RelOpKind::Join && t.children.len() == 2 ==> output_columns(
        t.children[0],
    ).disjoint(output_columns(t.children[1])))
    &&& forall|i: int| 0 <= i < t.children.len() ==> joins_disjoint(#[trigger] t.children[i])
}

proof fn lemma_filter_rows_members(sem: Semantics, p: RawExpr, rows: Seq<Row>)
    ensures
        forall|i: int|
            0 <= i < filter_rows(sem, p, rows).len() ==> rows.contains(
                #[trigger] filter_rows(sem, p, rows)[i],
            ),
    decreases rows.len(),
{
    if rows.len() > 0 {
        lemma_filter_rows_members(sem, p, rows.drop_last());
        let out = filter_rows(sem, p, rows);
        let rest = filter_rows(sem, p, rows.drop_last());
        assert forall|i: int| 0 <= i < out.len() implies rows.contains(#[trigger] out[i]) by {
            if i < rest.len() {
                assert(out[i] == rest[i]);
                let j = choose|j: int| 0 <= j < rows.drop_last().len() && rows.drop_last()[j] == rest[i];
                assert(rows[j] == out[i]);
            } else {
                assert(rows[rows.len() - 1] == out[i]);
            }
        }
    }
}

proof fn lemma_join_row(ls: Seq<Row>, rs: Seq<Row>, i: int) -> (ab: (int, int))
    requires
        0 <= i < join_rows(ls, rs).len(),
    ensures
        0 <= ab.0 < ls.len(),
        0 <= ab.1 < rs.len(),
        join_rows(ls, rs)[i] == ls[ab.0].union_prefer_right(rs[ab.1]),
    decreases ls.len(),
{
    let prev = join_rows(ls.drop_last(), rs);
    if i < prev.len() {
        let ab = lemma_join_row(ls.drop_last(), rs, i);
        assert(ls[ab.0] == ls.drop_last()[ab.0]);
        ab
    } else {
        (ls.len() - 1, i - prev.len())
    }
}

proof fn lemma_evals(sem: Semantics, ts: Seq<PlanTree>, n: int)
    requires
        0 <= n <= ts.len(),
    ensures
        evals(sem, ts, n).len() == n,
        forall|i: int| 0 <= i < n ==> #[trigger] evals(sem, ts, n)[i] == eval(sem, ts[i]),
    decreases n,
{
    if n > 0 {
        lemma_evals(sem, ts, n - 1);
    }
}

/// Every output row of a tree holds only columns that the tree outputs.
pub proof fn lemma_eval_domain(sem: Semantics, t: PlanTree)
    ensures
        forall|i: int|
            0 <= i < eval(sem, t).len() ==> (#[trigger] eval(sem, t)[i]).dom().subset_of(
                output_columns(t),
            ),
    decreases t,
{
    lemma_output_columns(t);
    let rows = eval(sem, t);
    if op_kind(t.plan) == RelOpKind::Filter && t.children.len() == 1 {
        lemma_eval_domain(sem, t.children[0]);
        let child = eval(sem, t.children[0]);
        lemma_filter_rows_members(sem, filter_predicate(t.plan), child);
        assert forall|i: int| 0 <= i < rows.len() implies (#[trigger] rows[i]).dom().subset_of(
            output_columns(t),
        ) by {
            let j = choose|j: int| 0 <= j < child.len() && child[j] == rows[i];
        }
    } else if op_kind(t.plan) == RelOpKind::Join && t.children.len() == 2 {
        lemma_eval_domain(sem, t.children[0]);
        lemma_eval_domain(sem, t.children[1]);
        let ls = eval(sem, t.children[0]);
        let rs = eval(sem, t.children[1]);
        assert forall|i: int| 0 <= i < rows.len() implies (#[trigger] rows[i]).dom().subset_of(
            output_columns(t),
        ) by {
            let (a, b) = lemma_join_row(ls, rs, i);
            assert(ls[a].dom().subset_of(output_columns(t.children[0])));
            assert(rs[b].dom().subset_of(output_columns(t.children[1])));
        }
    }
}

proof fn lemma_filter_rows_concat(sem: Semantics, p: RawExpr, a: Seq<Row>, b: Seq<Row>)
    ensures
        filter_rows(sem, p, a + b) == filter_rows(sem, p, a) + filter_rows(sem, p, b),
    decreases b.len(),
{
    if b.len() == 0 {
        assert(a + b =~= a);
        assert(filter_rows(sem, p, a) + filter_rows(sem, p, b) =~= filter_rows(sem, p, a));
    } else {
        assert((a + b).drop_last() =~= a + b.drop_last());
        lemma_filter_rows_concat(sem, p, a, b.drop_last());
        if (sem.holds)(p, b.last()) {
            assert(filter_rows(sem, p, a + b) =~= filter_rows(sem, p, a) + filter_rows(sem, p, b));
        } else {
            assert(filter_rows(sem, p, a + b) =~= filter_rows(sem, p, a) + filter_rows(sem, p, b));
        }
    }
}

proof fn lemma_filter_rows_all(sem: Semantics, p: RawExpr, rows: Seq<Row>)
    requires
        forall|i: int| 0 <= i < rows.len() ==> (sem.holds)(p, #[trigger] rows[i]),
    ensures
        filter_rows(sem, p, rows) == rows,
    decreases rows.len(),
{
    if rows.len() > 0 {
        lemma_filter_rows_all(sem, p, rows.drop_last());
        assert((sem.holds)(p, rows[rows.len() - 1]));
        assert(rows.drop_last().push(rows.last()) =~= rows);
    }
}

proof fn lemma_filter_rows_none(sem: Semantics, p: RawExpr, rows: Seq<Row>)
    requires
        forall|i: int| 0 <= i < rows.len() ==> !(sem.holds)(p, #[trigger] rows[i]),
    ensures
        filter_rows(sem, p, rows) == Seq::<Row>::empty(),
    decreases rows.len(),
{
    if rows.len() > 0 {
        lemma_filter_rows_none(sem, p, rows.drop_last());
        assert(!(sem.holds)(p, rows[rows.len() - 1]));
    } else {
        assert(rows =~= Seq::<Row>::empty());
    }
}

/// A filter that reads only the left side of a join can run before it.
proof fn lemma_filter_before_join_left(sem: Semantics, p: RawExpr, ls: Seq<Row>, rs: Seq<Row>)
    requires
        forall|a: int, b: int|
            0 <= a < ls.len() && 0 <= b < rs.len() ==> (sem.holds)(
                p,
                #[trigger] ls[a].union_prefer_right(#[trigger] rs[b]),
            ) == (sem.holds)(p, ls[a]),
    ensures
        join_rows(filter_rows(sem, p, ls), rs) == filter_rows(sem, p, join_rows(ls, rs)),
    decreases ls.len(),
{
    if ls.len() > 0 {
        let x = ls.last();
        let rest = ls.drop_last();
        assert forall|a: int, b: int| 0 <= a < rest.len() && 0 <= b < rs.len() implies (sem.holds)(
            p,
            #[trigger] rest[a].union_prefer_right(#[trigger] rs[b]),
        ) == (sem.holds)(p, rest[a]) by {
            assert(rest[a] == ls[a]);
        }
        lemma_filter_before_join_left(sem, p, rest, rs);
        lemma_filter_rows_concat(sem, p, join_rows(rest, rs), with_left(x, rs));
        let fr = filter_rows(sem, p, rest);
        if (sem.holds)(p, x) {
            assert forall|i: int| 0 <= i < with_left(x, rs).len() implies (sem.holds)(
                p,
                #[trigger] with_left(x, rs)[i],
            ) by {
                assert(with_left(x, rs)[i] == ls[ls.len() - 1].union_prefer_right(rs[i]));
            }
            lemma_filter_rows_all(sem, p, with_left(x, rs));
            assert(fr.push(x).drop_last() =~= fr);
            assert(join_rows(fr.push(x), rs) == join_rows(fr, rs) + with_left(x, rs));
        } else {
            assert forall|i: int| 0 <= i < with_left(x, rs).len() implies !(sem.holds)(
                p,
                #[trigger] with_left(x, rs)[i],
            ) by {
                assert(with_left(x, rs)[i] == ls[ls.len() - 1].union_prefer_right(rs[i]));
            }
            lemma_filter_rows_none(sem, p, with_left(x, rs));
            assert(join_rows(fr, rs) + Seq::<Row>::empty() =~= join_rows(fr, rs));
        }
    }
}

proof fn lemma_filter_with_left(sem: Semantics, p: RawExpr, l: Row, rs: Seq<Row>)
    requires
        forall|b: int|
            0 <= b < rs.len() ==> (sem.holds)(p, l.union_prefer_right(#[trigger] rs[b])) == (
            sem.holds)(p, rs[b]),
    ensures
        with_left(l, filter_rows(sem, p, rs)) == filter_rows(sem, p, with_left(l, rs)),
    decreases rs.len(),
{
    if rs.len() > 0 {
        let y = rs.last();
        let rest = rs.drop_last();
        assert forall|b: int| 0 <= b < rest.len() implies (sem.holds)(
            p,
            l.union_prefer_right(#[trigger] rest[b]),
        ) == (sem.holds)(p, rest[b]) by {
            assert(rest[b] == rs[b]);
        }
        lemma_filter_with_left(sem, p, l, rest);
        assert(with_left(l, rs).drop_last() =~= with_left(l, rest));
        assert(with_left(l, rs).last() == l.union_prefer_right(y));
        assert((sem.holds)(p, l.union_prefer_right(rs[rs.len() - 1])) == (sem.holds)(p, y));
        if (sem.holds)(p, y) {
            assert(with_left(l, filter_rows(sem, p, rest).push(y)) =~= with_left(
                l,
                filter_rows(sem, p, rest),
            ).push(l.union_prefer_right(y)));
        }
    } else {
        assert(with_left(l, rs) =~= Seq::<Row>::empty());
    }
}

/// A filter that reads only the right side of a join can run before it.
proof fn lemma_filter_before_join_right(sem: Semantics, p: RawExpr, ls: Seq<Row>, rs: Seq<Row>)
    requires
        forall|a: int, b: int|
            0 <= a < ls.len() && 0 <= b < rs.len() ==> (sem.holds)(
                p,
                #[trigger] ls[a].union_prefer_right(#[trigger] rs[b]),
            ) == (sem.holds)(p, rs[b]),
    ensures
        join_rows(ls, filter_rows(sem, p, rs)) == filter_rows(sem, p, join_rows(ls, rs)),
    decreases ls.len(),
{
    if ls.len() > 0 {
        let x = ls.last();
        let rest = ls.drop_last();
        assert forall|a: int, b: int| 0 <= a < rest.len() && 0 <= b < rs.len() implies (sem.holds)(
            p,
            #[trigger] rest[a].union_prefer_right(#[trigger] rs[b]),
        ) == (sem.holds)(p, rs[b]) by {
            assert(rest[a] == ls[a]);
        }
        lemma_filter_before_join_right(sem, p, rest, rs);
        assert forall|b: int| 0 <= b < rs.len() implies (sem.holds)(
            p,
            x.union_prefer_right(#[trigger] rs[b]),
        ) == (sem.holds)(p, rs[b]) by {
            assert(x == ls[ls.len() - 1]);
        }
        lemma_filter_with_left(sem, p, x, rs);
        lemma_filter_rows_concat(sem, p, join_rows(rest, rs), with_left(x, rs));
    } else {
        assert(filter_rows(sem, p, join_rows(ls, rs)) =~= Seq::<Row>::empty());
    }
}

/// Rewriting the root of a tree by eliminating a true filter or pushing a
/// filter below a join keeps its rows and the disjointness of its joins.
pub proof fn lemma_transform_keeps_rows(sem: Semantics, id: RuleID, t: PlanTree)
    requires
        sound(sem),
        joins_disjoint(t),
        id != RuleID::CommuteJoin,
        transform_spec(id, t) matches Ok(Some(_)),
    ensures
        eval(sem, transform_spec(id, t)->Ok_0->0) == eval(sem, t),
        joins_disjoint(transform_spec(id, t)->Ok_0->0),
{
    let n = transform_spec(id, t)->Ok_0->0;
    let p = filter_predicate(t.plan);
    assert(joins_disjoint(t.children[0]));
    if id == RuleID::EliminateFilter {
        let rows = eval(sem, t.children[0]);
        assert forall|i: int| 0 <= i < rows.len() implies (sem.holds)(p, #[trigger] rows[i]) by {}
        lemma_filter_rows_all(sem, p, rows);
        assert(eval(sem, t) == filter_rows(sem, p, rows));
    } else {
        let j = t.children[0];
        let l = j.children[0];
        let r = j.children[1];
        assert(joins_disjoint(l));
        assert(joins_disjoint(r));
        let ls = eval(sem, l);
        let rs = eval(sem, r);
        let refs = raw_column_refs(p);
        lemma_eval_domain(sem, l);
        lemma_eval_domain(sem, r);
        lemma_output_columns(t);
        lemma_output_columns(j);
        let f = n.children[0];
        let g = n.children[1];
        lemma_output_columns(f);
        lemma_output_columns(g);
        assert(eval(sem, j) == join_rows(ls, rs));
        assert(eval(sem, t) == filter_rows(sem, p, eval(sem, j)));
        assert(eval(sem, n) == join_rows(eval(sem, f), eval(sem, g)));
        if refs.subset_of(output_columns(l)) {
            assert(eval(sem, f) == filter_rows(sem, p, ls));
            assert forall|a: int, b: int| 0 <= a < ls.len() && 0 <= b < rs.len() implies (sem.holds)(
                p,
                #[trigger] ls[a].union_prefer_right(#[trigger] rs[b]),
            ) == (sem.holds)(p, ls[a]) by {
                assert(ls[a].dom().subset_of(output_columns(l)));
                assert(rs[b].dom().subset_of(output_columns(r)));
                assert(agree_on(refs, ls[a].union_prefer_right(rs[b]), ls[a]));
            }
            lemma_filter_before_join_left(sem, p, ls, rs);
            assert(joins_disjoint(f)) by {
                assert(f.children[0] == l);
            }
            assert(joins_disjoint(n)) by {
                assert(n.children[1] == r);
            }
        } else {
            assert forall|a: int, b: int| 0 <= a < ls.len() && 0 <= b < rs.len() implies (sem.holds)(
                p,
                #[trigger] ls[a].union_prefer_right(#[trigger] rs[b]),
            ) == (sem.holds)(p, rs[b]) by {
                assert(ls[a].dom().subset_of(output_columns(l)));
                assert(rs[b].dom().subset_of(output_columns(r)));
                assert(agree_on(refs, ls[a].union_prefer_right(rs[b]), rs[b]));
            }
            lemma_filter_before_join_right(sem, p, ls, rs);
            assert(eval(sem, g) == filter_rows(sem, p, rs));
            assert(joins_disjoint(g)) by {
                assert(g.children[0] == r);
            }
            assert(joins_disjoint(n)) by {
                assert(n.children[0] == l);
            }
        }
    }
}

/// Trees with one operator, children with the same rows, and the same
/// output columns output the same rows.
proof fn lemma_eval_congruent(sem: Semantics, t1: PlanTree, t2: PlanTree)
    requires
        t1.plan == t2.plan,
        t1.children.len() == t2.children.len(),
        forall|i: int|
            0 <= i < t1.children.len() ==> eval(sem, #[trigger] t1.children[i]) == eval(
                sem,
                t2.children[i],
            ),
        output_columns(t1) == output_columns(t2),
    ensures
        eval(sem, t1) == eval(sem, t2),
{
    let n = t1.children.len() as int;
    lemma_evals(sem, t1.children, n);
    lemma_evals(sem, t2.children, n);
    assert(evals(sem, t1.children, n) =~= evals(sem, t2.children, n));
    if n >= 1 {
        assert(eval(sem, t1.children[0]) == eval(sem, t2.children[0]));
    }
    if n >= 2 {
        assert(eval(sem, t1.children[1]) == eval(sem, t2.children[1]));
    }
}

proof fn lemma_first_rewrite_keeps_rows(sem: Semantics, rules: Seq<RuleID>, t: PlanTree, k: int)
    requires
        sound(sem),
        joins_disjoint(t),
        !rules.contains(RuleID::CommuteJoin),
        first_rewrite(rules, t, k) matches Ok(Some(_)),
    ensures
        eval(sem, first_rewrite(rules, t, k)->Ok_0->0) == eval(sem, t),
        joins_disjoint(first_rewrite(rules, t, k)->Ok_0->0),
    decreases rules.len() - k,
{
    if 0 <= k < rules.len() {
        assert(rules[k] != RuleID::CommuteJoin);
        match transform_spec(rules[k], t) {
            Ok(None) => lemma_first_rewrite_keeps_rows(sem, rules, t, k + 1),
            _ => lemma_transform_keeps_rows(sem, rules[k], t),
        }
    }
}

/// A pass of rules other than `CommuteJoin` keeps the rows of a tree and the
/// disjointness of its joins.
pub proof fn lemma_pass_keeps_rows(sem: Semantics, rules: Seq<RuleID>, t: PlanTree)
    requires
        sound(sem),
        joins_disjoint(t),
        !rules.contains(RuleID::CommuteJoin),
        pass(rules, t) is Ok,
    ensures
        eval(sem, pass(rules, t)->Ok_0.0) == eval(sem, t),
        joins_disjoint(pass(rules, t)->Ok_0.0),
    decreases t, 0int,
{
    let len = t.children.len() as int;
    crate::heuristic::lemma_pass(rules, t);
    crate::heuristic::lemma_pass_children(rules, t.children, len);
    lemma_pass_children_keeps_rows(sem, rules, t.children, len);
    let cs = pass_children(rules, t.children, len)->Ok_0.0;
    let node = PlanTree { plan: t.plan, children: cs };
    lemma_columns_of_trees(cs, len);
    lemma_columns_of_trees(t.children, len);
    assert(columns_of_trees(cs, len) =~= columns_of_trees(t.children, len));
    lemma_eval_congruent(sem, node, t);
    assert(joins_disjoint(node)) by {
        if op_kind(t.plan) == RelOpKind::Join && len == 2 {
            assert(output_columns(cs[0]) == output_columns(t.children[0]));
            assert(output_columns(cs[1]) == output_columns(t.children[1]));
        }
    }
    match first_rewrite(rules, node, 0) {
        Ok(Some(_)) => lemma_first_rewrite_keeps_rows(sem, rules, node, 0),
        _ => {},
    }
}

proof fn lemma_pass_children_keeps_rows(
    sem: Semantics,
    rules: Seq<RuleID>,
    ts: Seq<PlanTree>,
    n: int,
)
    requires
        sound(sem),
        0 <= n <= ts.len(),
        forall|i: int| 0 <= i < ts.len() ==> joins_disjoint(#[trigger] ts[i]),
        !rules.contains(RuleID::CommuteJoin),
        pass_children(rules, ts, n) is Ok,
    ensures
        forall|i: int|
            0 <= i < n ==> eval(sem, #[trigger] pass_children(rules, ts, n)->Ok_0.0[i]) == eval(
                sem,
                ts[i],
            ) && joins_disjoint(pass_children(rules, ts, n)->Ok_0.0[i]),
    decreases ts, n,
{
    if n > 0 {
        crate::heuristic::lemma_pass_children(rules, ts, n - 1);
        lemma_pass_children_keeps_rows(sem, rules, ts, n - 1);
        lemma_pass_keeps_rows(sem, rules, ts[n - 1]);
        let prev = pass_children(rules, ts, n - 1)->Ok_0.0;
        let cs = pass_children(rules, ts, n)->Ok_0.0;
        assert(cs == prev.push(pass(rules, ts[n - 1])->Ok_0.0));
        assert forall|i: int| 0 <= i < n implies eval(sem, #[trigger] cs[i]) == eval(sem, ts[i])
            && joins_disjoint(cs[i]) by {
            if i < n - 1 {
                assert(cs[i] == prev[i]);
            }
        }
    }
}

proof fn lemma_run_batch_keeps_rows(sem: Semantics, rules: Seq<RuleID>, t: PlanTree, fuel: nat)
    requires
        sound(sem),
        joins_disjoint(t),
        !rules.contains(RuleID::CommuteJoin),
        run_batch(rules, t, fuel) is Ok,
    ensures
        eval(sem, run_batch(rules, t, fuel)->Ok_0) == eval(sem, t),
        joins_disjoint(run_batch(rules, t, fuel)->Ok_0),
    decreases fuel,
{
    if fuel > 0 {
        lemma_pass_keeps_rows(sem, rules, t);
        if pass(rules, t)->Ok_0.1 {
            lemma_run_batch_keeps_rows(sem, rules, pass(rules, t)->Ok_0.0, (fuel - 1) as nat);
        }
    }
}

proof fn lemma_default_batches_keep_rows(sem: Semantics, t: PlanTree, i: int, cap: nat)
    requires
        sound(sem),
        joins_disjoint(t),
        run_batches(default_batches(), t, i, cap) is Ok,
    ensures
        eval(sem, run_batches(default_batches(), t, i, cap)->Ok_0) == eval(sem, t),
        joins_disjoint(run_batches(default_batches(), t, i, cap)->Ok_0),
    decreases default_batches().len() - i,
{
    let batches = default_batches();
    if 0 <= i < batches.len() {
        let (name, rules) = batches[i];
        assert(!rules.contains(RuleID::CommuteJoin)) by {
            if rules.contains(RuleID::CommuteJoin) {
                let k = choose|k: int| 0 <= k < rules.len() && rules[k] == RuleID::CommuteJoin;
            }
        }
        lemma_run_batch_keeps_rows(sem, rules, t, cap);
        lemma_default_batches_keep_rows(sem, run_batch(rules, t, cap)->Ok_0, i + 1, cap);
    }
}

/// Optimizing a query keeps the rows it outputs, in order, whenever the
/// inputs of each of its joins output disjoint columns and predicates read
/// only the columns they reference.
pub proof fn lemma_optimize_query_keeps_rows(sem: Semantics, t: PlanTree)
    requires
        sound(sem),
        joins_disjoint(t),
        query_result(t) is Ok,
    ensures
        eval(sem, query_result(t)->Ok_0) == eval(sem, t),
        joins_disjoint(query_result(t)->Ok_0),
{
    lemma_default_batches_keep_rows(sem, t, 0, crate::plan::query_cap(t));
}

/// Optimizing an optimized query again outputs the same rows as optimizing
/// it once.
pub proof fn lemma_optimize_query_twice_keeps_rows(sem: Semantics, t: PlanTree)
    requires
        sound(sem),
        joins_disjoint(t),
        query_result(t) is Ok,
    ensures
        query_result(query_result(t)->Ok_0) is Ok,
        eval(sem, query_result(query_result(t)->Ok_0)->Ok_0) == eval(sem, query_result(t)->Ok_0),
        eval(sem, query_result(query_result(t)->Ok_0)->Ok_0) == eval(sem, t),
{
    lemma_optimize_query_keeps_rows(sem, t);
    crate::fixpoint::lemma_optimize_query_idempotent(t);
}

} // verus!
