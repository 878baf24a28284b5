use std::collections::HashSet;
use std::sync::Arc;

use vstd::prelude::*;

use crate::column_set::ColumnSet;

verus! {

/// A half-open byte range of the query text.
#[derive(Debug, Clone, Copy, PartialEq, Eq, Structural)]
pub struct TextRange {
    pub start: usize,
    pub end: usize,
}

/// Where in the query text an expression came from, if known.
pub type Span = Option<TextRange>;

/// A constant value embedded in an expression.
#[derive(Debug, Clone, Copy, PartialEq, Eq, Structural)]
pub enum Scalar {
    Null,
    Boolean(bool),
    Int64(i64),
    UInt64(u64),
    Date(i32),
    Timestamp(i64),
}

/// The type of a value.
#[derive(Debug, Clone, Copy, PartialEq, Eq, Structural)]
pub enum DataType {
    Null,
    Boolean,
    Int64,
    UInt64,
    String,
    Date,
    Timestamp,
}

/// Identifies a function: its index in the function registry.
pub type FunctionID = usize;

/// A resolved function of the registry.
#[derive(Debug)]
pub struct Function {
    pub name: String,
    pub return_type: DataType,
}

/// The registry that resolves a `FunctionID` to the function it stands for.
#[derive(Debug)]
pub struct FunctionRegistry {
    pub funcs: Vec<Arc<Function>>,
}

/// An expression as the binder produced it: functions named, not resolved.
#[derive(Debug)]
pub enum RawExpr {
    Constant { span: Span, scalar: Scalar, data_type: DataType },
    ColumnRef { span: Span, id: usize, data_type: DataType },
    Cast { span: Span, expr: Box<RawExpr>, dest_type: DataType },
    TryCast { span: Span, expr: Box<RawExpr>, dest_type: DataType },
    FunctionCall { span: Span, name: String, params: Vec<usize>, args: Vec<RawExpr> },
}

/// A type-checked expression whose function calls hold the resolved function.
#[derive(Debug)]
pub enum Expr {
    Constant { span: Span, scalar: Scalar },
    ColumnRef { span: Span, id: usize },
    Cast { span: Span, expr: Box<Expr>, dest_type: DataType },
    TryCast { span: Span, expr: Box<Expr>, dest_type: DataType },
    FunctionCall {
        span: Span,
        id: FunctionID,
        function: Arc<Function>,
        generics: Vec<DataType>,
        args: Vec<Expr>,
    },
}

/// The form of an `Expr` that can be shipped to another node: function calls
/// carry only their `FunctionID`, which the receiver resolves in its registry.
#[derive(Debug)]
pub enum RemoteExpr {
    Constant { span: Span, scalar: Scalar },
    ColumnRef { span: Span, id: usize },
    Cast { span: Span, expr: Box<RemoteExpr>, dest_type: DataType },
    TryCast { span: Span, expr: Box<RemoteExpr>, dest_type: DataType },
    FunctionCall { span: Span, id: FunctionID, generics: Vec<DataType>, args: Vec<RemoteExpr> },
}

/// The column ids that a raw expression references.
pub open spec fn raw_column_refs(e: RawExpr) -> Set<usize>
    decreases e,
{
    match e {
        RawExpr::Constant { .. } => Set::empty(),
        RawExpr::ColumnRef { id, .. } => set![id],
        RawExpr::Cast { expr, .. } => raw_column_refs(*expr),
        RawExpr::TryCast { expr, .. } => raw_column_refs(*expr),
        RawExpr::FunctionCall { args, .. } => args_column_refs(args@, args.len() as int),
    }
}

/// The column ids referenced by the first `n` expressions of `args`.
pub open spec fn args_column_refs(args: Seq<RawExpr>, n: int) -> Set<usize>
    decreases args, n,
{
    if n <= 0 || n > args.len() {
        Set::empty()
    } else {
        args_column_refs(args, n - 1).union(raw_column_refs(args[n - 1]))
    }
}

/// `r` is the remote form of `e`: the same tree with the resolved functions left out.
pub open spec fn is_remote_of(e: Expr, r: RemoteExpr) -> bool
    decreases e,
{
    match (e, r) {
        (Expr::Constant { span, scalar }, RemoteExpr::Constant { span: s2, scalar: c2 }) => span
            == s2 && scalar == c2,
        (Expr::ColumnRef { span, id }, RemoteExpr::ColumnRef { span: s2, id: i2 }) => span == s2
            && id == i2,
        (
            Expr::Cast { span, expr, dest_type },
            RemoteExpr::Cast { span: s2, expr: x2, dest_type: d2 },
        ) => span == s2 && dest_type == d2 && is_remote_of(*expr, *x2),
        (
            Expr::TryCast { span, expr, dest_type },
            RemoteExpr::TryCast { span: s2, expr: x2, dest_type: d2 },
        ) => span == s2 && dest_type == d2 && is_remote_of(*expr, *x2),
        (
            Expr::FunctionCall { span, id, generics, args, .. },
            RemoteExpr::FunctionCall { span: s2, id: i2, generics: g2, args: a2 },
        ) => {
            &&& span == s2
            &&& id == i2
            &&& generics@ == g2@
            &&& args.len() == a2.len()
            &&& forall|i: int| 0 <= i < args.len() ==> is_remote_of(#[trigger] args@[i], a2@[i])
        },
        _ => false,
    }
}

/// Every function id in `r` names a function of `reg`.
pub open spec fn ids_resolvable(r: RemoteExpr, reg: FunctionRegistry) -> bool
    decreases r,
{
    match r {
        RemoteExpr::Constant { .. } => true,
        RemoteExpr::ColumnRef { .. } => true,
        RemoteExpr::Cast { expr, .. } => ids_resolvable(*expr, reg),
        RemoteExpr::TryCast { expr, .. } => ids_resolvable(*expr, reg),
        RemoteExpr::FunctionCall { id, args, .. } => {
            &&& id < reg.funcs.len()
            &&& forall|i: int| 0 <= i < args.len() ==> ids_resolvable(#[trigger] args@[i], reg)
        },
    }
}

/// Every function call of `e` holds the function that `reg` gives for its id.
pub open spec fn functions_from(e: Expr, reg: FunctionRegistry) -> bool
    decreases e,
{
    match e {
        Expr::Constant { .. } => true,
        Expr::ColumnRef { .. } => true,
        Expr::Cast { expr, .. } => functions_from(*expr, reg),
        Expr::TryCast { expr, .. } => functions_from(*expr, reg),
        Expr::FunctionCall { id, function, args, .. } => {
            &&& id < reg.funcs.len()
            &&& function == reg.funcs@[id as int]
            &&& forall|i: int| 0 <= i < args.len() ==> functions_from(#[trigger] args@[i], reg)
        },
    }
}

impl FunctionRegistry {
    /// Looks up the function that `id` names.
    pub fn get(&self, id: &FunctionID) -> (r: Option<Arc<Function>>)
        ensures
            r is Some <==> *id < self.funcs.len(),
            r is Some ==> r->0 == self.funcs@[*id as int],
    {
        if *id < self.funcs.len() {
            Some(self.funcs[*id].clone())
        } else {
            None
        }
    }
}

fn copy_types(v: &Vec<DataType>) -> (r: Vec<DataType>)
    ensures
        r@ == v@,
{
    let mut r: Vec<DataType> = Vec::new();
    let mut i: usize = 0;
    while i < v.len()
        invariant
            i <= v.len(),
            r@ == v@.subrange(0, i as int),
        decreases v.len() - i,
    {
        r.push(v[i]);
        i += 1;
        proof {
            assert(r@ =~= v@.subrange(0, i as int));
        }
    }
    proof {
        assert(r@ =~= v@);
    }
    r
}

#[verifier::loop_isolation(false)]
fn walk_refs(expr: &RawExpr, buf: &mut HashSet<usize>)
    ensures
        final(buf)@ == old(buf)@.union(raw_column_refs(*expr)),
    decreases expr,
{
    match expr {
        RawExpr::ColumnRef { id, .. } => {
            buf.insert(*id);
        },
        RawExpr::Cast { expr, .. } => walk_refs(expr, buf),
        RawExpr::TryCast { expr, .. } => walk_refs(expr, buf),
        RawExpr::FunctionCall { args, .. } => {
            let ghost start = buf@;
            let mut i: usize = 0;
            while i < args.len()
                invariant
                    i <= args.len(),
                    buf@ == start.union(args_column_refs(args@, i as int)),
                decreases args.len() - i,
            {
                walk_refs(&args[i], buf);
                i += 1;
                proof {
                    assert(buf@ =~= start.union(args_column_refs(args@, i as int)));
                }
            }
        },
        RawExpr::Constant { .. } => {},
    }
    proof {
        assert(final(buf)@ =~= old(buf)@.union(raw_column_refs(*expr)));
    }
}

#[verifier::loop_isolation(false)]
fn walk_ref_set(expr: &RawExpr, buf: &mut ColumnSet)
    ensures
        final(buf)@ == old(buf)@.union(raw_column_refs(*expr)),
    decreases expr,
{
    match expr {
        RawExpr::ColumnRef { id, .. } => {
            buf.insert(*id);
        },
        RawExpr::Cast { expr, .. } => walk_ref_set(expr, buf),
        RawExpr::TryCast { expr, .. } => walk_ref_set(expr, buf),
        RawExpr::FunctionCall { args, .. } => {
            let ghost start = buf@;
            let mut i: usize = 0;
            while i < args.len()
                invariant
                    i <= args.len(),
                    buf@ == start.union(args_column_refs(args@, i as int)),
                decreases args.len() - i,
            {
                walk_ref_set(&args[i], buf);
                i += 1;
                proof {
                    assert(buf@ =~= start.union(args_column_refs(args@, i as int)));
                }
            }
        },
        RawExpr::Constant { .. } => {},
    }
    proof {
        assert(final(buf)@ =~= old(buf)@.union(raw_column_refs(*expr)));
    }
}

impl RawExpr {
    /// The column ids that this expression references, as a `ColumnSet`.
    pub fn column_ref_set(&self) -> (r: ColumnSet)
        ensures
            r@ == raw_column_refs(*self),
    {
        let mut buf = ColumnSet::new();
        walk_ref_set(self, &mut buf);
        proof {
            assert(buf@ =~= raw_column_refs(*self));
        }
        buf
    }

    /// The set of column ids that this expression references.
    pub fn column_refs(&self) -> (r: HashSet<usize>)
        ensures
            r@ == raw_column_refs(*self),
    {
        let mut buf: HashSet<usize> = HashSet::new();
        walk_refs(self, &mut buf);
        proof {
            assert(buf@ =~= raw_column_refs(*self));
        }
        buf
    }
}

#[verifier::loop_isolation(false)]
fn remote_of(expr: &Expr) -> (r: RemoteExpr)
    ensures
        is_remote_of(*expr, r),
    decreases expr,
{
    match expr {
        Expr::Constant { span, scalar } => RemoteExpr::Constant { span: *span, scalar: *scalar },
        Expr::ColumnRef { span, id } => RemoteExpr::ColumnRef { span: *span, id: *id },
        Expr::Cast { span, expr, dest_type } => RemoteExpr::Cast {
            span: *span,
            expr: Box::new(remote_of(expr)),
            dest_type: *dest_type,
        },
        Expr::TryCast { span, expr, dest_type } => RemoteExpr::TryCast {
            span: *span,
            expr: Box::new(remote_of(expr)),
            dest_type: *dest_type,
        },
        Expr::FunctionCall { span, id, generics, args, .. } => {
            let mut out: Vec<RemoteExpr> = Vec::new();
            let mut i: usize = 0;
            while i < args.len()
                invariant
                    i <= args.len(),
                    out.len() == i,
                    forall|j: int| 0 <= j < i ==> is_remote_of(#[trigger] args@[j], out@[j]),
                decreases args.len() - i,
            {
                let a = remote_of(&args[i]);
                out.push(a);
                i += 1;
            }
            RemoteExpr::FunctionCall {
                span: *span,
                id: *id,
                generics: copy_types(generics),
                args: out,
            }
        },
    }
}

#[verifier::loop_isolation(false)]
fn expr_of(remote: &RemoteExpr, fn_registry: &FunctionRegistry) -> (r: Option<Expr>)
    ensures
        r is Some <==> ids_resolvable(*remote, *fn_registry),
        r is Some ==> is_remote_of(r->0, *remote) && functions_from(r->0, *fn_registry),
    decreases remote,
{
    match remote {
        RemoteExpr::Constant { span, scalar } => Some(Expr::Constant { span: *span, scalar: *scalar }),
        RemoteExpr::ColumnRef { span, id } => Some(Expr::ColumnRef { span: *span, id: *id }),
        RemoteExpr::Cast { span, expr, dest_type } => match expr_of(expr, fn_registry) {
            Some(e) => Some(Expr::Cast { span: *span, expr: Box::new(e), dest_type: *dest_type }),
            None => None,
        },
        RemoteExpr::TryCast { span, expr, dest_type } => match expr_of(expr, fn_registry) {
            Some(e) => Some(Expr::TryCast { span: *span, expr: Box::new(e), dest_type: *dest_type }),
            None => None,
        },
        RemoteExpr::FunctionCall { span, id, generics, args } => {
            let function = match fn_registry.get(id) {
                Some(f) => f,
                None => return None,
            };
            let mut out: Vec<Expr> = Vec::new();
            let mut i: usize = 0;
            while i < args.len()
                invariant
                    i <= args.len(),
                    out.len() == i,
                    forall|j: int|
                        0 <= j < i ==> #[trigger] ids_resolvable(args@[j], *fn_registry)
                            && is_remote_of(out@[j], args@[j]) && functions_from(out@[j], *fn_registry),
                decreases args.len() - i,
            {
                match expr_of(&args[i], fn_registry) {
                    Some(e) => out.push(e),
                    None => {
                        proof {
                            assert(!ids_resolvable(args@[i as int], *fn_registry));
                        }
                        return None;
                    },
                }
                i += 1;
            }
            let r = Expr::FunctionCall {
                span: *span,
                id: *id,
                function,
                generics: copy_types(generics),
                args: out,
            };
            proof {
                assert(forall|j: int| 0 <= j < args.len() ==> ids_resolvable(#[trigger] args@[j], *fn_registry));
            }
            Some(r)
        },
    }
}

impl RemoteExpr {
    /// Converts a type-checked expression into its shippable form.
    pub fn from_expr(expr: Expr) -> (r: Self)
        ensures
            is_remote_of(expr, r),
    {
        remote_of(&expr)
    }

    /// Rebuilds the executable expression, resolving every function id in
    /// `fn_registry`; `None` when some id is not registered.
    pub fn into_expr(self, fn_registry: &FunctionRegistry) -> (r: Option<Expr>)
        ensures
            r is Some <==> ids_resolvable(self, *fn_registry),
            r is Some ==> is_remote_of(r->0, self) && functions_from(r->0, *fn_registry),
    {
        expr_of(&self, fn_registry)
    }
}

} // verus!
