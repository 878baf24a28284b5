//! Logical rewriting of bound query plans: shared immutable plan trees,
//! property derivation, pattern matching, rules applied batch by batch to a
//! fixpoint, and a memo that interns structurally identical sub-plans.

pub mod column_set;
pub mod error;
pub mod expression;
pub mod hash_method;
pub mod heuristic;
pub mod memo;
pub mod optimize_context;
pub mod pattern;
pub mod plan;
pub mod property;
pub mod rule;
pub mod s_expr;
pub mod semantics;
pub mod measure;
pub mod fixpoint;
