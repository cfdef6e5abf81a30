//! Declarative file-sorting rules: a persistent rule list and the decisions
//! of a batch pass that moves matching files.
pub mod pattern;
pub mod text;
pub mod rule;
pub mod rulefile;
pub mod rulefile_laws;
pub mod sort;

pub use pattern::{regex_builds, CompiledPattern};
pub use rule::Rule;
pub use rulefile::{RuleField, Rulefile, RulefileError};
pub use sort::{after_failed_move, plan_moves, MoveAction, MoveFailure, RulePlan, SortError};
