use std::sync::Arc;

use vstd::prelude::*;

use crate::column_set::ColumnSet;
use crate::error::ErrorCode;
use crate::expression::{DataType, RawExpr, Scalar, Span};
use crate::property::{column_views, derive_op_columns, op_columns, RelationalProperty};
use crate::s_expr::{lemma_trees, op_kind, JoinType, PlanTree, RelOperator, SExpr};

verus! {

/// The structure of a raw expression as a mathematical value.
pub enum RawKey {
    Constant(Span, Scalar, DataType),
    ColumnRef(Span, usize, DataType),
    Cast(Span, Box<RawKey>, DataType),
    TryCast(Span, Box<RawKey>, DataType),
    FunctionCall(Span, Seq<char>, Seq<usize>, Seq<RawKey>),
}

pub open spec fn raw_key(e: RawExpr) -> RawKey
    decreases e,
{
    match e {
        RawExpr::Constant { span, scalar, data_type } => RawKey::Constant(span, scalar, data_type),
        RawExpr::ColumnRef { span, id, data_type } => RawKey::ColumnRef(span, id, data_type),
        RawExpr::Cast { span, expr, dest_type } => RawKey::Cast(
            span,
            Box::new(raw_key(*expr)),
            dest_type,
        ),
        RawExpr::TryCast { span, expr, dest_type } => RawKey::TryCast(
            span,
            Box::new(raw_key(*expr)),
            dest_type,
        ),
        RawExpr::FunctionCall { span, name, params, args } => RawKey::FunctionCall(
            span,
            name@,
            params@,
            raw_keys(args@, args.len() as int),
        ),
    }
}

/// The keys of the first `n` expressions of `args`.
pub open spec fn raw_keys(args: Seq<RawExpr>, n: int) -> Seq<RawKey>
    decreases args, n,
{
    if n <= 0 || n > args.len() {
        Seq::empty()
    } else {
        raw_keys(args, n - 1).push(raw_key(args[n - 1]))
    }
}

proof fn lemma_raw_keys(args: Seq<RawExpr>, n: int)
    requires
        0 <= n <= args.len(),
    ensures
        raw_keys(args, n).len() == n,
        forall|i: int| 0 <= i < n ==> #[trigger] raw_keys(args, n)[i] == raw_key(args[i]),
    decreases n,
{
    if n > 0 {
        lemma_raw_keys(args, n - 1);
    }
}

/// The structure of an operator, its kind and its parameters, as a mathematical value.
pub enum OpKey {
    Scan(usize, Seq<usize>),
    Filter(RawKey),
    Join(JoinType),
    Aggregate(Seq<usize>, Seq<usize>),
    Sort(Seq<usize>),
    Limit(Option<usize>, usize),
    Project(Seq<usize>),
    EvalScalar(Seq<usize>),
}

pub open spec fn op_key(op: RelOperator) -> OpKey {
    match op {
        RelOperator::Scan { table_index, columns } => OpKey::Scan(table_index, columns@),
        RelOperator::Filter { predicate } => OpKey::Filter(raw_key(predicate)),
        RelOperator::Join { join_type } => OpKey::Join(join_type),
        RelOperator::Aggregate { group_items, aggregate_functions } => OpKey::Aggregate(
            group_items@,
            aggregate_functions@,
        ),
        RelOperator::Sort { keys } => OpKey::Sort(keys@),
        RelOperator::Limit { limit, offset } => OpKey::Limit(limit, offset),
        RelOperator::Project { columns } => OpKey::Project(columns@),
        RelOperator::EvalScalar { items } => OpKey::EvalScalar(items@),
    }
}

/// The structure of a whole plan tree: two trees are structurally
/// identical when their keys are equal.
pub struct TreeKey {
    pub op: OpKey,
    pub children: Seq<TreeKey>,
}

pub open spec fn tree_key(t: PlanTree) -> TreeKey
    decreases t,
{
    TreeKey { op: op_key(t.plan), children: tree_keys(t.children, t.children.len() as int) }
}

pub open spec fn tree_keys(ts: Seq<PlanTree>, n: int) -> Seq<TreeKey>
    decreases ts, n,
{
    if n <= 0 || n > ts.len() {
        Seq::empty()
    } else {
        tree_keys(ts, n - 1).push(tree_key(ts[n - 1]))
    }
}

proof fn lemma_tree_keys(ts: Seq<PlanTree>, n: int)
    requires
        0 <= n <= ts.len(),
    ensures
        tree_keys(ts, n).len() == n,
        forall|i: int| 0 <= i < n ==> #[trigger] tree_keys(ts, n)[i] == tree_key(ts[i]),
    decreases n,
{
    if n > 0 {
        lemma_tree_keys(ts, n - 1);
    }
}

fn same_ids(a: &Vec<usize>, b: &Vec<usize>) -> (r: bool)
    ensures
        r == (a@ == b@),
{
    if a.len() != b.len() {
        return false;
    }
    let mut i: usize = 0;
    while i < a.len()
        invariant
            a.len() == b.len(),
            i <= a.len(),
            forall|j: int| 0 <= j < i ==> a@[j] == b@[j],
        decreases a.len() - i,
    {
        if a[i] != b[i] {
            proof {
                assert(a@[i as int] != b@[i as int]);
            }
            return false;
        }
        i += 1;
    }
    proof {
        assert(a@ =~= b@);
    }
    true
}

fn same_span(a: &Span, b: &Span) -> (r: bool)
    ensures
        r == (*a == *b),
{
    match (a, b) {
        (Some(x), Some(y)) => x.start == y.start && x.end == y.end,
        (None, None) => true,
        _ => false,
    }
}

/// Whether two raw expressions are structurally identical.
#[verifier::loop_isolation(false)]
fn same_raw(a: &RawExpr, b: &RawExpr) -> (r: bool)
    ensures
        r == (raw_key(*a) == raw_key(*b)),
    decreases a,
{
    match (a, b) {
        (
            RawExpr::Constant { span: s1, scalar: c1, data_type: d1 },
            RawExpr::Constant { span: s2, scalar: c2, data_type: d2 },
        ) => same_span(s1, s2) && *c1 == *c2 && *d1 == *d2,
        (
            RawExpr::ColumnRef { span: s1, id: i1, data_type: d1 },
            RawExpr::ColumnRef { span: s2, id: i2, data_type: d2 },
        ) => same_span(s1, s2) && *i1 == *i2 && *d1 == *d2,
        (
            RawExpr::Cast { span: s1, expr: e1, dest_type: d1 },
            RawExpr::Cast { span: s2, expr: e2, dest_type: d2 },
        ) => same_span(s1, s2) && *d1 == *d2 && same_raw(e1, e2),
        (
            RawExpr::TryCast { span: s1, expr: e1, dest_type: d1 },
            RawExpr::TryCast { span: s2, expr: e2, dest_type: d2 },
        ) => same_span(s1, s2) && *d1 == *d2 && same_raw(e1, e2),
        (
            RawExpr::FunctionCall { span: s1, name: n1, params: p1, args: a1 },
            RawExpr::FunctionCall { span: s2, name: n2, params: p2, args: a2 },
        ) => {
            proof {
                lemma_raw_keys(a1@, a1.len() as int);
                lemma_raw_keys(a2@, a2.len() as int);
            }
            if !same_span(s1, s2) || *n1 != *n2 || !same_ids(p1, p2) || a1.len() != a2.len() {
                return false;
            }
            let mut i: usize = 0;
            while i < a1.len()
                invariant
                    i <= a1.len(),
                    a1.len() == a2.len(),
                    forall|j: int| 0 <= j < i ==> raw_key(#[trigger] a1@[j]) == raw_key(a2@[j]),
                decreases a1.len() - i,
            {
                if !same_raw(&a1[i], &a2[i]) {
                    proof {
                        assert(raw_keys(a1@, a1.len() as int)[i as int] != raw_keys(
                            a2@,
                            a2.len() as int,
                        )[i as int]);
                    }
                    return false;
                }
                i += 1;
            }
            proof {
                assert(raw_keys(a1@, a1.len() as int) =~= raw_keys(a2@, a2.len() as int));
            }
            true
        },
        _ => false,
    }
}

fn same_limit(a: &Option<usize>, b: &Option<usize>) -> (r: bool)
    ensures
        r == (*a == *b),
{
    match (a, b) {
        (Some(x), Some(y)) => *x == *y,
        (None, None) => true,
        _ => false,
    }
}

/// Whether two operators are of one kind with the same parameters.
pub fn same_op(a: &RelOperator, b: &RelOperator) -> (r: bool)
    ensures
        r == (op_key(*a) == op_key(*b)),
{
    match (a, b) {
        (
            RelOperator::Scan { table_index: t1, columns: c1 },
            RelOperator::Scan { table_index: t2, columns: c2 },
        ) => *t1 == *t2 && same_ids(c1, c2),
        (RelOperator::Filter { predicate: p1 }, RelOperator::Filter { predicate: p2 }) => same_raw(
            p1,
            p2,
        ),
        (RelOperator::Join { join_type: j1 }, RelOperator::Join { join_type: j2 }) => *j1 == *j2,
        (
            RelOperator::Aggregate { group_items: g1, aggregate_functions: f1 },
            RelOperator::Aggregate { group_items: g2, aggregate_functions: f2 },
        ) => same_ids(g1, g2) && same_ids(f1, f2),
        (RelOperator::Sort { keys: k1 }, RelOperator::Sort { keys: k2 }) => same_ids(k1, k2),
        (
            RelOperator::Limit { limit: l1, offset: o1 },
            RelOperator::Limit { limit: l2, offset: o2 },
        ) => same_limit(l1, l2) && *o1 == *o2,
        (RelOperator::Project { columns: c1 }, RelOperator::Project { columns: c2 }) => same_ids(
            c1,
            c2,
        ),
        (RelOperator::EvalScalar { items: i1 }, RelOperator::EvalScalar { items: i2 }) => same_ids(
            i1,
            i2,
        ),
        _ => false,
    }
}

} // verus!

verus! {

/// One operator of a group; its children are group ids.
#[derive(Debug)]
pub struct MExpr {
    pub group_index: usize,
    pub plan: Arc<RelOperator>,
    pub children: Vec<usize>,
}

/// A class of interchangeable expressions, with the columns they all
/// output and its depth: one more than the deepest group its expressions read.
#[derive(Debug)]
pub struct Group {
    pub group_index: usize,
    pub depth: usize,
    pub m_exprs: Vec<MExpr>,
    pub relational_prop: RelationalProperty,
}

/// The store of all groups, indexed by group id.
#[derive(Debug)]
pub struct Memo {
    pub groups: Vec<Group>,
}

impl Memo {
    /// The `k`-th expression of group `g`.
    pub open spec fn member(&self, g: int, k: int) -> MExpr {
        self.groups@[g].m_exprs@[k]
    }

    /// The first expression of group `g`.
    pub open spec fn first(&self, g: int) -> MExpr {
        self.member(g, 0)
    }

    pub open spec fn columns_of(&self, g: int) -> Set<usize> {
        self.groups@[g].relational_prop.output_columns@
    }

    pub open spec fn depth_of(&self, g: int) -> int {
        self.groups@[g].depth as int
    }

    /// The output columns of the groups `ids`.
    pub open spec fn child_columns(&self, ids: Seq<usize>) -> Seq<Set<usize>> {
        ids.map_values(|c: usize| self.columns_of(c as int))
    }

    /// Every group knows its id, is no deeper than its id, and holds at
    /// least one expression. Its first expression reads earlier groups and
    /// gives the cached columns; every expression reads shallower groups.
    /// No expression stands in two groups.
    pub open spec fn wf(&self) -> bool {
        &&& forall|g: int|
            0 <= g < self.groups.len() ==> {
                &&& (#[trigger] self.groups@[g]).group_index == g
                &&& self.groups@[g].depth <= g
                &&& self.groups@[g].m_exprs.len() > 0
                &&& forall|c: int|
                    0 <= c < self.first(g).children.len() ==> self.first(g).children@[c] < g
                &&& forall|k: int, c: int|
                    0 <= k < self.groups@[g].m_exprs.len() && 0 <= c
                        < self.member(g, k).children.len() ==> {
                        &&& self.member(g, k).children@[c] < self.groups.len()
                        &&& self.depth_of(self.member(g, k).children@[c] as int) < self.depth_of(g)
                    }
                &&& self.columns_of(g) == op_columns(
                    *self.first(g).plan,
                    self.child_columns(self.first(g).children@),
                )
            }
        &&& forall|g1: int, k1: int, g2: int, k2: int|
            0 <= g1 < self.groups.len() && 0 <= g2 < self.groups.len() && g1 != g2 && 0 <= k1
                < self.groups@[g1].m_exprs.len() && 0 <= k2 < self.groups@[g2].m_exprs.len() ==> !(
            op_key(*(#[trigger] self.member(g1, k1)).plan) == op_key(
                *(#[trigger] self.member(g2, k2)).plan,
            ) && self.member(g1, k1).children@ == self.member(g2, k2).children@)
    }

    /// Group `g` holds an expression with operator key `op` over the groups `children`.
    pub open spec fn holds_member(&self, g: int, op: OpKey, children: Seq<usize>) -> bool {
        exists|k: int|
            0 <= k < self.groups@[g].m_exprs.len() && op_key(*(#[trigger] self.member(g, k)).plan)
                == op && self.member(g, k).children@ == children
    }

    /// Every group holds exactly one expression.
    pub open spec fn single_members(&self) -> bool {
        forall|g: int| 0 <= g < self.groups.len() ==> (#[trigger] self.groups@[g]).m_exprs.len() == 1
    }

    /// Some expression of group `g` stands for the tree whose key is `key`.
    pub open spec fn represents(&self, g: int, key: TreeKey) -> bool
        decreases key,
    {
        exists|k: int|
            #![trigger self.member(g, k)]
            {
                &&& 0 <= g < self.groups.len()
                &&& 0 <= k < self.groups@[g].m_exprs.len()
                &&& op_key(*self.member(g, k).plan) == key.op
                &&& self.member(g, k).children.len() == key.children.len()
                &&& forall|i: int|
                    0 <= i < key.children.len() ==> self.represents(
                        self.member(g, k).children@[i] as int,
                        #[trigger] key.children[i],
                    )
            }
    }

    /// Expression `k` of group `g` stands for the tree whose key is `key`.
    pub open spec fn member_represents(&self, g: int, k: int, key: TreeKey) -> bool {
        &&& 0 <= g < self.groups.len()
        &&& 0 <= k < self.groups@[g].m_exprs.len()
        &&& op_key(*self.member(g, k).plan) == key.op
        &&& self.member(g, k).children.len() == key.children.len()
        &&& forall|i: int|
            0 <= i < key.children.len() ==> self.represents(
                self.member(g, k).children@[i] as int,
                #[trigger] key.children[i],
            )
    }

    /// `t` is the plan that the first expressions give from group `g` down:
    /// each node holds its group's first expression and the plans of that
    /// expression's child groups.
    pub open spec fn first_members_plan(&self, g: int, t: PlanTree) -> bool
        decreases t,
    {
        &&& 0 <= g < self.groups.len()
        &&& self.groups@[g].m_exprs.len() > 0
        &&& t.plan == *self.first(g).plan
        &&& t.children.len() == self.first(g).children.len()
        &&& forall|i: int|
            0 <= i < t.children.len() ==> self.first_members_plan(
                self.first(g).children@[i] as int,
                #[trigger] t.children[i],
            )
    }

    /// `self` holds the groups of `old`, each with the expressions it had
    /// first, and perhaps more of both.
    pub open spec fn extends(&self, old: &Memo) -> bool {
        &&& old.groups.len() <= self.groups.len()
        &&& forall|g: int|
            0 <= g < old.groups.len() ==> {
                &&& (#[trigger] old.groups@[g]).m_exprs.len() <= self.groups@[g].m_exprs.len()
                &&& forall|k: int|
                    0 <= k < old.groups@[g].m_exprs.len() ==> #[trigger] self.member(g, k)
                        == old.member(g, k)
            }
    }

    /// An empty memo.
    pub fn create() -> (r: Memo)
        ensures
            r.wf(),
            r.single_members(),
            r.groups.len() == 0,
    {
        Memo { groups: Vec::new() }
    }

    /// Interns the tree rooted at `e`, children first: an expression equal
    /// in kind, parameters and child groups to an expression of some group
    /// reuses that group, anything else makes a new one.
    #[verifier::loop_isolation(false)]
    #[verifier::rlimit(60)]
    pub fn insert(&mut self, e: &SExpr) -> (r: usize)
        requires
            old(self).wf(),
        ensures
            final(self).wf(),
            final(self).extends(&*old(self)),
            forall|g: int| 0 <= g < old(self).groups.len() ==> #[trigger] final(self).groups@[g] == old(self).groups@[g],
            old(self).single_members() ==> final(self).single_members(),
            final(self).represents(r as int, tree_key(e@)),
            forall|g: int, k: TreeKey| #[trigger]
                old(self).represents(g, k) ==> final(self).represents(g, k),
            forall|g: int| #[trigger] old(self).represents(g, tree_key(e@)) ==> r == g,
        decreases e,
    {
        let ghost start = *self;
        proof {
            lemma_trees(e.children@);
            lemma_tree_keys(e@.children, e@.children.len() as int);
        }
        let mut ids: Vec<usize> = Vec::new();
        let mut i: usize = 0;
        while i < e.children.len()
            invariant
                i <= e.children.len(),
                self.wf(),
                self.extends(&start),
                forall|g: int| 0 <= g < start.groups.len() ==> #[trigger] self.groups@[g] == start.groups@[g],
                start.single_members() ==> self.single_members(),
                forall|g: int, k: TreeKey| #[trigger] start.represents(g, k) ==> self.represents(g, k),
                ids.len() == i,
                forall|j: int|
                    0 <= j < i ==> self.represents(
                        #[trigger] ids@[j] as int,
                        tree_key(e@.children[j]),
                    ),
            decreases e.children.len() - i,
        {
            let ghost before = *self;
            let c = self.insert(&e.children[i]);
            proof {
                assert forall|g: int, k: TreeKey| #[trigger] start.represents(g, k) implies self.represents(g, k) by {
                    assert(before.represents(g, k));
                }
                assert forall|j: int| 0 <= j < i implies self.represents(#[trigger] ids@[j] as int, tree_key(e@.children[j])) by {
                    assert(before.represents(ids@[j] as int, tree_key(e@.children[j])));
                }
                assert forall|g: int| 0 <= g < start.groups.len() implies #[trigger] self.groups@[g] == start.groups@[g] by {
                    assert(before.groups@[g] == start.groups@[g]);
                }
            }
            ids.push(c);
            i += 1;
        }
        proof {
            assert forall|x: int| 0 <= x < ids.len() implies (#[trigger] ids@[x]) < self.groups.len() by {
                assert(self.represents(ids@[x] as int, tree_key(e@.children[x])));
            }
        }
        let mut g: usize = 0;
        while g < self.groups.len()
            invariant
                self.wf(),
                g <= self.groups.len(),
                forall|h: int, k: int|
                    0 <= h < g && 0 <= k < self.groups@[h].m_exprs.len() ==> !(op_key(
                        *(#[trigger] self.member(h, k)).plan,
                    ) == op_key(*e.plan) && self.member(h, k).children@ == ids@),
            decreases self.groups.len() - g,
        {
            let mut k: usize = 0;
            while k < self.groups[g].m_exprs.len()
                invariant
                    g < self.groups.len(),
                    k <= self.groups@[g as int].m_exprs.len(),
                    forall|h: int, k2: int|
                        0 <= h < g && 0 <= k2 < self.groups@[h].m_exprs.len() ==> !(op_key(
                            *(#[trigger] self.member(h, k2)).plan,
                        ) == op_key(*e.plan) && self.member(h, k2).children@ == ids@),
                    forall|k2: int|
                        0 <= k2 < k ==> !(op_key(*(#[trigger] self.member(g as int, k2)).plan) == op_key(
                            *e.plan,
                        ) && self.member(g as int, k2).children@ == ids@),
                decreases self.groups@[g as int].m_exprs.len() - k,
            {
                let m = &self.groups[g].m_exprs[k];
                if same_op(&m.plan, &e.plan) && same_ids(&m.children, &ids) {
                    proof {
                        assert(self.member_represents(g as int, k as int, tree_key(e@))) by {
                            assert forall|x: int| 0 <= x < tree_key(e@).children.len() implies self.represents(
                                self.member(g as int, k as int).children@[x] as int,
                                #[trigger] tree_key(e@).children[x],
                            ) by {
                                assert(self.represents(ids@[x] as int, tree_key(e@.children[x])));
                            }
                        }
                        lemma_member_represents(*self, g as int, k as int, tree_key(e@));
                        assert forall|h: int| #[trigger] start.represents(h, tree_key(e@)) implies g == h by {
                            lemma_same_key_same_group(*self, g as int, h, tree_key(e@));
                        }
                    }
                    return g;
                }
                k += 1;
            }
            g += 1;
        }
        let mut props: Vec<ColumnSet> = Vec::new();
        let mut depth: usize = 0;
        let mut j: usize = 0;
        while j < ids.len()
            invariant
                self.wf(),
                j <= ids.len(),
                props.len() == j,
                forall|x: int| 0 <= x < ids.len() ==> (#[trigger] ids@[x]) < self.groups.len(),
                forall|x: int| 0 <= x < j ==> (#[trigger] props@[x])@ == self.columns_of(ids@[x] as int),
                forall|x: int| 0 <= x < j ==> self.depth_of(#[trigger] ids@[x] as int) < depth,
                depth <= self.groups.len(),
            decreases ids.len() - j,
        {
            props.push(self.groups[ids[j]].relational_prop.output_columns.duplicate());
            if self.groups[ids[j]].depth >= depth {
                depth = self.groups[ids[j]].depth + 1;
            }
            j += 1;
        }
        let cols = derive_op_columns(&e.plan, &props);
        proof {
            assert(column_views(props@) =~= self.child_columns(ids@));
        }
        let g = self.groups.len();
        let mut members: Vec<MExpr> = Vec::new();
        members.push(MExpr { group_index: g, plan: e.plan.clone(), children: ids });
        let ghost before = *self;
        self.groups.push(
            Group {
                group_index: g,
                depth,
                m_exprs: members,
                relational_prop: RelationalProperty { output_columns: cols },
            },
        );
        proof {
            assert forall|h: int| 0 <= h < g implies #[trigger] self.groups@[h] == before.groups@[h] by {}
            assert(self.extends(&before)) by {
                assert forall|h: int| 0 <= h < before.groups.len() implies {
                    &&& (#[trigger] before.groups@[h]).m_exprs.len() <= self.groups@[h].m_exprs.len()
                    &&& forall|k: int|
                        0 <= k < before.groups@[h].m_exprs.len() ==> #[trigger] self.member(h, k)
                            == before.member(h, k)
                } by {
                    assert(self.groups@[h] == before.groups@[h]);
                }
            }
            assert forall|h: int, k: TreeKey| #[trigger] before.represents(h, k) implies self.represents(h, k) by {
                lemma_represents_extends(before, *self, h, k);
            }
            assert forall|h: int, k: TreeKey| #[trigger] start.represents(h, k) implies self.represents(h, k) by {
                assert(before.represents(h, k));
                lemma_represents_extends(before, *self, h, k);
            }
            assert forall|h: int| 0 <= h < g implies self.child_columns(#[trigger] self.first(h).children@)
                == before.child_columns(before.first(h).children@) by {
                assert(self.groups@[h] == before.groups@[h]);
                assert(self.child_columns(self.first(h).children@) =~= before.child_columns(before.first(h).children@));
            }
            assert(self.child_columns(ids@) =~= before.child_columns(ids@));
            assert(self.member(g as int, 0).children@ == ids@);
            assert forall|g1: int, k1: int, g2: int, k2: int|
                0 <= g1 < self.groups.len() && 0 <= g2 < self.groups.len() && g1 != g2 && 0 <= k1
                    < self.groups@[g1].m_exprs.len() && 0 <= k2 < self.groups@[g2].m_exprs.len() implies !(
                op_key(*(#[trigger] self.member(g1, k1)).plan) == op_key(
                    *(#[trigger] self.member(g2, k2)).plan,
                ) && self.member(g1, k1).children@ == self.member(g2, k2).children@) by {
                if g1 < g && g2 < g {
                    assert(self.member(g1, k1) == before.member(g1, k1));
                    assert(self.member(g2, k2) == before.member(g2, k2));
                } else if g1 < g {
                    assert(self.member(g1, k1) == before.member(g1, k1));
                } else {
                    assert(self.member(g2, k2) == before.member(g2, k2));
                }
            }
            assert forall|h: int| 0 <= h < self.groups.len() implies {
                &&& (#[trigger] self.groups@[h]).group_index == h
                &&& self.groups@[h].depth <= h
                &&& self.groups@[h].m_exprs.len() > 0
                &&& forall|c: int|
                    0 <= c < self.first(h).children.len() ==> self.first(h).children@[c] < h
                &&& forall|k: int, c: int|
                    0 <= k < self.groups@[h].m_exprs.len() && 0 <= c
                        < self.member(h, k).children.len() ==> {
                        &&& self.member(h, k).children@[c] < self.groups.len()
                        &&& self.depth_of(self.member(h, k).children@[c] as int) < self.depth_of(h)
                    }
                &&& self.columns_of(h) == op_columns(
                    *self.first(h).plan,
                    self.child_columns(self.first(h).children@),
                )
            } by {
                if h < g {
                    assert(self.groups@[h] == before.groups@[h]);
                    assert forall|k: int, c: int|
                        0 <= k < self.groups@[h].m_exprs.len() && 0 <= c
                            < self.member(h, k).children.len() implies
                            self.depth_of(self.member(h, k).children@[c] as int) < self.depth_of(h) by {
                        let cc = self.member(h, k).children@[c] as int;
                        assert(self.groups@[cc] == before.groups@[cc]);
                    }
                } else {
                    assert forall|k: int, c: int|
                        0 <= k < self.groups@[h].m_exprs.len() && 0 <= c
                            < self.member(h, k).children.len() implies
                            self.depth_of(self.member(h, k).children@[c] as int) < self.depth_of(h) by {
                        let cc = self.member(h, k).children@[c] as int;
                        assert(cc == ids@[c]);
                        assert(self.groups@[cc] == before.groups@[cc]);
                    }
                }
            }
            assert(self.member_represents(g as int, 0, tree_key(e@))) by {
                assert forall|x: int| 0 <= x < tree_key(e@).children.len() implies self.represents(
                    self.first(g as int).children@[x] as int,
                    #[trigger] tree_key(e@).children[x],
                ) by {
                    assert(before.represents(ids@[x] as int, tree_key(e@.children[x])));
                    lemma_represents_extends(before, *self, ids@[x] as int, tree_key(e@.children[x]));
                }
            }
            lemma_member_represents(*self, g as int, 0, tree_key(e@));
            assert forall|h: int| #[trigger] start.represents(h, tree_key(e@)) implies g == h by {
                lemma_same_key_same_group(*self, g as int, h, tree_key(e@));
            }
        }
        g
    }

    /// Materializes the plan that group `g` stands for, taking the first
    /// expression of each group it reaches.
    pub fn extract(&self, g: usize) -> (r: SExpr)
        requires
            self.wf(),
            g < self.groups.len(),
        ensures
            self.first_members_plan(g as int, r@),
            self.member_represents(g as int, 0, tree_key(r@)),
            self.represents(g as int, tree_key(r@)),
        decreases g,
    {
        let m = &self.groups[g].m_exprs[0];
        let mut children: Vec<Arc<SExpr>> = Vec::new();
        let mut i: usize = 0;
        while i < m.children.len()
            invariant
                self.wf(),
                g < self.groups.len(),
                *m == self.first(g as int),
                i <= m.children.len(),
                children.len() == i,
                forall|j: int|
                    0 <= j < i ==> self.represents(
                        m.children@[j] as int,
                        tree_key((#[trigger] children@[j])@),
                    ) && self.first_members_plan(m.children@[j] as int, children@[j]@),
            decreases m.children.len() - i,
        {
            let c = self.extract(m.children[i]);
            children.push(Arc::new(c));
            i += 1;
        }
        let r = SExpr::create(m.plan.clone(), children);
        proof {
            lemma_trees(r.children@);
            lemma_tree_keys(r@.children, r@.children.len() as int);
            assert(self.member_represents(g as int, 0, tree_key(r@)));
            lemma_member_represents(*self, g as int, 0, tree_key(r@));
        }
        r
    }

    /// Adds an expression to an existing group. It is refused where it reads
    /// a group that is not shallower than the group, and where it outputs
    /// other columns than the group. Where some group already holds it, the
    /// memo is left as it was. The result is the group that holds it.
    #[verifier::loop_isolation(false)]
    #[verifier::rlimit(60)]
    pub fn insert_m_expr(&mut self, group: usize, plan: Arc<RelOperator>, children: Vec<usize>) -> (r:
        Result<usize, ErrorCode>)
        requires
            old(self).wf(),
            group < old(self).groups.len(),
            forall|c: int| 0 <= c < children.len() ==> #[trigger] children@[c] < old(self).groups.len(),
        ensures
            final(self).wf(),
            final(self).extends(&*old(self)),
            final(self).groups.len() == old(self).groups.len(),
            (exists|c: int|
                0 <= c < children.len() && old(self).depth_of(#[trigger] children@[c] as int)
                    >= old(self).depth_of(group as int)) ==> r == Err::<usize, ErrorCode>(
                ErrorCode::GroupCycle { group, kind: op_kind(*plan) },
            ),
            r is Ok ==> forall|c: int|
                0 <= c < children.len() ==> old(self).depth_of(#[trigger] children@[c] as int)
                    < old(self).depth_of(group as int),
            r matches Err(ErrorCode::GroupCycle { .. }) ==> exists|c: int|
                0 <= c < children.len() && old(self).depth_of(#[trigger] children@[c] as int)
                    >= old(self).depth_of(group as int),
            r matches Err(ErrorCode::GroupPropertyConflict { .. }) ==> r == Err::<usize, ErrorCode>(
                ErrorCode::GroupPropertyConflict { group, kind: op_kind(*plan) },
            ) && op_columns(*plan, old(self).child_columns(children@)) != old(self).columns_of(
                group as int,
            ),
            r is Ok ==> op_columns(*plan, old(self).child_columns(children@)) == old(self).columns_of(
                group as int,
            ),
            r is Err ==> *final(self) == *old(self),
            r is Err ==> (r matches Err(ErrorCode::GroupCycle { .. }) || r matches Err(
                ErrorCode::GroupPropertyConflict { .. },
            )),
            (forall|c: int|
                0 <= c < children.len() ==> old(self).depth_of(#[trigger] children@[c] as int)
                    < old(self).depth_of(group as int)) && op_columns(
                *plan,
                old(self).child_columns(children@),
            ) == old(self).columns_of(group as int) ==> r is Ok,
            r is Ok ==> r->Ok_0 < final(self).groups.len() && final(self).holds_member(
                r->Ok_0 as int,
                op_key(*plan),
                children@,
            ),
            r is Ok ==> (exists|g: int, k: int|
                0 <= g < old(self).groups.len() && 0 <= k < old(self).groups@[g].m_exprs.len()
                    && op_key(*(#[trigger] old(self).member(g, k)).plan) == op_key(*plan)
                    && old(self).member(g, k).children@ == children@) ==> *final(self) == *old(self),
            r is Ok ==> r->Ok_0 == group || *final(self) == *old(self),
    {
        let mut props: Vec<ColumnSet> = Vec::new();
        let mut j: usize = 0;
        while j < children.len()
            invariant
                j <= children.len(),
                props.len() == j,
                group < self.groups.len(),
                forall|c: int| 0 <= c < children.len() ==> #[trigger] children@[c] < self.groups.len(),
                forall|x: int| 0 <= x < j ==> (#[trigger] props@[x])@ == self.columns_of(children@[x] as int),
                forall|x: int| 0 <= x < j ==> self.depth_of(#[trigger] children@[x] as int) < self.depth_of(group as int),
            decreases children.len() - j,
        {
            if self.groups[children[j]].depth >= self.groups[group].depth {
                proof {
                    assert(self.depth_of(children@[j as int] as int) >= self.depth_of(group as int));
                }
                return Err(ErrorCode::GroupCycle { group, kind: plan.kind() });
            }
            props.push(self.groups[children[j]].relational_prop.output_columns.duplicate());
            j += 1;
        }
        let cols = derive_op_columns(&plan, &props);
        proof {
            assert(column_views(props@) =~= self.child_columns(children@));
        }
        if !cols.same_as(&self.groups[group].relational_prop.output_columns) {
            return Err(ErrorCode::GroupPropertyConflict { group, kind: plan.kind() });
        }
        let mut g: usize = 0;
        while g < self.groups.len()
            invariant
                self.wf(),
                g <= self.groups.len(),
                forall|h: int, k: int|
                    0 <= h < g && 0 <= k < self.groups@[h].m_exprs.len() ==> !(op_key(
                        *(#[trigger] self.member(h, k)).plan,
                    ) == op_key(*plan) && self.member(h, k).children@ == children@),
            decreases self.groups.len() - g,
        {
            let mut k: usize = 0;
            while k < self.groups[g].m_exprs.len()
                invariant
                    g < self.groups.len(),
                    k <= self.groups@[g as int].m_exprs.len(),
                    forall|h: int, k2: int|
                        0 <= h < g && 0 <= k2 < self.groups@[h].m_exprs.len() ==> !(op_key(
                            *(#[trigger] self.member(h, k2)).plan,
                        ) == op_key(*plan) && self.member(h, k2).children@ == children@),
                    forall|k2: int|
                        0 <= k2 < k ==> !(op_key(*(#[trigger] self.member(g as int, k2)).plan) == op_key(
                            *plan,
                        ) && self.member(g as int, k2).children@ == children@),
                decreases self.groups@[g as int].m_exprs.len() - k,
            {
                let m = &self.groups[g].m_exprs[k];
                if same_op(&m.plan, &plan) && same_ids(&m.children, &children) {
                    proof {
                        assert(self.member(g as int, k as int) == *m);
                        assert(op_key(*self.member(g as int, k as int).plan) == op_key(*plan));
                        assert(self.member(g as int, k as int).children@ == children@);
                        assert(self.holds_member(g as int, op_key(*plan), children@));
                    }
                    return Ok(g);
                }
                k += 1;
            }
            g += 1;
        }
        let ghost before = *self;
        let mut grp = self.groups.remove(group);
        grp.m_exprs.push(MExpr { group_index: group, plan, children });
        self.groups.insert(group, grp);
        proof {
            assert(self.groups@ =~= before.groups@.update(group as int, grp));
            assert forall|h: int| 0 <= h < self.groups.len() implies self.child_columns(#[trigger] self.first(h).children@)
                == before.child_columns(before.first(h).children@) by {
                assert(self.child_columns(self.first(h).children@) =~= before.child_columns(before.first(h).children@));
            }
            let last = grp.m_exprs.len() - 1;
            let gi = group as int;
            assert(grp.m_exprs@ == before.groups@[gi].m_exprs@.push(MExpr { group_index: group, plan, children }));
            assert(self.member(gi, last as int).children@ == children@);
            assert(op_key(*self.member(gi, last as int).plan) == op_key(*plan));
            assert(self.holds_member(gi, op_key(*plan), children@));
            assert forall|h: int| 0 <= h < self.groups.len() implies self.depth_of(h) == before.depth_of(h)
                && self.columns_of(h) == before.columns_of(h) && #[trigger] self.first(h) == before.first(h) by {}
            assert forall|h: int, k: int|
                0 <= h < self.groups.len() && 0 <= k < before.groups@[h].m_exprs.len() implies
                #[trigger] self.member(h, k) == before.member(h, k) by {}
            assert(self.extends(&before));
            assert forall|g1: int, k1: int, g2: int, k2: int|
                0 <= g1 < self.groups.len() && 0 <= g2 < self.groups.len() && g1 != g2 && 0 <= k1
                    < self.groups@[g1].m_exprs.len() && 0 <= k2 < self.groups@[g2].m_exprs.len() implies !(
                op_key(*(#[trigger] self.member(g1, k1)).plan) == op_key(
                    *(#[trigger] self.member(g2, k2)).plan,
                ) && self.member(g1, k1).children@ == self.member(g2, k2).children@) by {
                if k1 < before.groups@[g1].m_exprs.len() {
                    assert(self.member(g1, k1) == before.member(g1, k1));
                }
                if k2 < before.groups@[g2].m_exprs.len() {
                    assert(self.member(g2, k2) == before.member(g2, k2));
                }
            }
            assert forall|h: int| 0 <= h < self.groups.len() implies {
                &&& (#[trigger] self.groups@[h]).group_index == h
                &&& self.groups@[h].depth <= h
                &&& self.groups@[h].m_exprs.len() > 0
                &&& forall|c: int|
                    0 <= c < self.first(h).children.len() ==> self.first(h).children@[c] < h
                &&& forall|k: int, c: int|
                    0 <= k < self.groups@[h].m_exprs.len() && 0 <= c
                        < self.member(h, k).children.len() ==> {
                        &&& self.member(h, k).children@[c] < self.groups.len()
                        &&& self.depth_of(self.member(h, k).children@[c] as int) < self.depth_of(h)
                    }
                &&& self.columns_of(h) == op_columns(
                    *self.first(h).plan,
                    self.child_columns(self.first(h).children@),
                )
            } by {
                assert(self.first(h) == before.first(h));
                assert(self.child_columns(self.first(h).children@) =~= before.child_columns(before.first(h).children@));
                assert forall|k: int, c: int|
                    0 <= k < self.groups@[h].m_exprs.len() && 0 <= c
                        < self.member(h, k).children.len() implies {
                        &&& self.member(h, k).children@[c] < self.groups.len()
                        &&& self.depth_of(self.member(h, k).children@[c] as int) < self.depth_of(h)
                    } by {
                    if k < before.groups@[h].m_exprs.len() {
                        assert(self.member(h, k) == before.member(h, k));
                    } else {
                        assert(h == gi);
                        assert(self.member(h, k).children@ == children@);
                    }
                }
            }
            assert(self.wf());
        }
        Ok(group)
    }
}

proof fn lemma_member_represents(memo: Memo, g: int, k: int, key: TreeKey)
    requires
        memo.member_represents(g, k, key),
    ensures
        memo.represents(g, key),
{
    assert(memo.member(g, k) == memo.member(g, k));
}

proof fn lemma_represents_witness(memo: Memo, g: int, key: TreeKey) -> (k: int)
    requires
        memo.represents(g, key),
    ensures
        memo.member_represents(g, k, key),
{
    let k = choose|k: int|
        #![trigger memo.member(g, k)]
        {
            &&& 0 <= g < memo.groups.len()
            &&& 0 <= k < memo.groups@[g].m_exprs.len()
            &&& op_key(*memo.member(g, k).plan) == key.op
            &&& memo.member(g, k).children.len() == key.children.len()
            &&& forall|i: int|
                0 <= i < key.children.len() ==> memo.represents(
                    memo.member(g, k).children@[i] as int,
                    #[trigger] key.children[i],
                )
        };
    k
}

proof fn lemma_represents_extends(small: Memo, big: Memo, g: int, k: TreeKey)
    requires
        big.extends(&small),
        small.represents(g, k),
    ensures
        big.represents(g, k),
    decreases k,
{
    let m = lemma_represents_witness(small, g, k);
    assert(small.groups@[g].m_exprs.len() <= big.groups@[g].m_exprs.len());
    assert(big.member(g, m) == small.member(g, m));
    assert forall|i: int| 0 <= i < k.children.len() implies big.represents(
        big.member(g, m).children@[i] as int,
        #[trigger] k.children[i],
    ) by {
        lemma_represents_extends(small, big, small.member(g, m).children@[i] as int, k.children[i]);
    }
    assert(big.member_represents(g, m, k));
    lemma_member_represents(big, g, m, k);
}

proof fn lemma_same_key_same_group(memo: Memo, g1: int, g2: int, k: TreeKey)
    requires
        memo.wf(),
        memo.represents(g1, k),
        memo.represents(g2, k),
    ensures
        g1 == g2,
    decreases k,
{
    let m1 = lemma_represents_witness(memo, g1, k);
    let m2 = lemma_represents_witness(memo, g2, k);
    assert forall|i: int| 0 <= i < k.children.len() implies memo.member(g1, m1).children@[i]
        == #[trigger] memo.member(g2, m2).children@[i] by {
        lemma_same_key_same_group(
            memo,
            memo.member(g1, m1).children@[i] as int,
            memo.member(g2, m2).children@[i] as int,
            k.children[i],
        );
    }
    assert(memo.member(g1, m1).children@ =~= memo.member(g2, m2).children@);
}

proof fn lemma_group_determines_key(memo: Memo, g: int, k1: TreeKey, k2: TreeKey)
    requires
        memo.single_members(),
        memo.represents(g, k1),
        memo.represents(g, k2),
    ensures
        k1 == k2,
    decreases k1,
{
    let m1 = lemma_represents_witness(memo, g, k1);
    let m2 = lemma_represents_witness(memo, g, k2);
    assert(memo.groups@[g].m_exprs.len() == 1);
    assert forall|i: int| 0 <= i < k1.children.len() implies k1.children[i] == #[trigger] k2.children[i] by {
        lemma_group_determines_key(memo, memo.first(g).children@[i] as int, k1.children[i], k2.children[i]);
    }
    assert(k1.children =~= k2.children);
}

/// Interning: in a well-formed memo, structurally identical trees are
/// represented by the same group. Where every group holds one expression,
/// as `insert` alone leaves it, structurally different trees are
/// represented by different groups.
pub proof fn lemma_memo_interning(memo: Memo, g1: int, g2: int, t1: PlanTree, t2: PlanTree)
    requires
        memo.wf(),
        memo.represents(g1, tree_key(t1)),
        memo.represents(g2, tree_key(t2)),
    ensures
        tree_key(t1) == tree_key(t2) ==> g1 == g2,
        memo.single_members() ==> ((g1 == g2) <==> (tree_key(t1) == tree_key(t2))),
{
    if tree_key(t1) == tree_key(t2) {
        lemma_same_key_same_group(memo, g1, g2, tree_key(t1));
    }
    if g1 == g2 && memo.single_members() {
        lemma_group_determines_key(memo, g1, tree_key(t1), tree_key(t2));
    }
}

/// Where every group holds one expression, extracting the group that a tree
/// was interned into gives back a structurally identical tree.
pub proof fn lemma_extract_after_insert(memo: Memo, g: int, t: PlanTree, extracted: PlanTree)
    requires
        memo.single_members(),
        memo.represents(g, tree_key(t)),
        memo.represents(g, tree_key(extracted)),
    ensures
        tree_key(extracted) == tree_key(t),
{
    lemma_group_determines_key(memo, g, tree_key(t), tree_key(extracted));
}

} // verus!
