use vstd::prelude::*;

use crate::s_expr::RelOpKind;

verus! {

/// The rules that the optimizer knows.
#[derive(Debug, Clone, Copy, PartialEq, Eq, Structural)]
pub enum RuleID {
    /// Removes a filter whose predicate is the constant `true`.
    EliminateFilter,
    /// Moves a filter below a join, onto the side whose columns it reads.
    PushDownFilterJoin,
    /// Swaps the two inputs of a join.
    CommuteJoin,
}

/// The name of a batch of rules.
#[derive(Debug, Clone, Copy, PartialEq, Eq, Structural)]
pub enum BatchName {
    Normalize,
    PushDown,
    Reorder,
}

/// A rule found a shape it cannot rewrite.
#[derive(Debug, Clone, Copy, PartialEq, Eq, Structural)]
pub struct TransformError {
    pub rule: RuleID,
    pub kind: RelOpKind,
}

/// Why an optimization failed.
#[derive(Debug, Clone, Copy, PartialEq, Eq, Structural)]
pub enum ErrorCode {
    /// A rule met an invalid or unsupported shape.
    RuleTransform { rule: RuleID, kind: RelOpKind, batch: BatchName },
    /// A batch did not reach a fixpoint within the iteration cap.
    IterationLimitExceeded { batch: BatchName },
    /// An expression of kind `kind` outputs other columns than its group.
    GroupPropertyConflict { group: usize, kind: RelOpKind },
    /// An expression of kind `kind` added to a group reads a group that is
    /// not shallower, which could make the group reach itself.
    GroupCycle { group: usize, kind: RelOpKind },
}

} // verus!
