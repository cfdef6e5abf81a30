//! The decisions of a sorting pass. Listing directories and moving files is
//! left to the caller, which reports back what the file system said.
use vstd::prelude::*;
use crate::pattern::{regex_finds, regex_valid, CompiledPattern};
use crate::rule::Rule;

verus! {

/// Why a sorting pass had to stop.
#[derive(Debug, Clone, PartialEq, Eq)]
pub enum SortError {
    /// A stored pattern does not compile; it is given here.
    Pattern(String),
}

/// How the file system refused to move a file into the output directory.
#[derive(Debug, Clone, Copy, PartialEq, Eq, Structural)]
pub enum MoveFailure {
    /// The output directory does not exist.
    OutputMissing,
    /// The output path exists and is not a directory.
    OutputNotDirectory,
    /// Any other reason (permissions, another device, ...).
    Other,
}

/// What to do about a move that failed.
#[derive(Debug, Clone, Copy, PartialEq, Eq, Structural)]
pub enum MoveAction {
    /// Create the output directory (its parent must exist) and move again.
    CreateOutputAndRetry,
    /// Report that the output path is in the way; leave the file.
    ReportConflict,
    /// Report that the file could not be moved; leave it.
    ReportFailure,
}

/// The action owed after `failure`; `retried` tells whether this was the
/// second attempt, made after creating the output directory.
pub open spec fn action_after(failure: MoveFailure, retried: bool) -> MoveAction {
    if retried {
        MoveAction::ReportFailure
    } else {
        match failure {
            MoveFailure::OutputMissing => MoveAction::CreateOutputAndRetry,
            MoveFailure::OutputNotDirectory => MoveAction::ReportConflict,
            MoveFailure::Other => MoveAction::ReportFailure,
        }
    }
}

/// Decides what follows a failed move. Each file is retried at most once.
pub fn after_failed_move(failure: MoveFailure, retried: bool) -> (r: MoveAction)
    ensures
        r == action_after(failure, retried),
{
    if retried {
        MoveAction::ReportFailure
    } else {
        match failure {
            MoveFailure::OutputMissing => MoveAction::CreateOutputAndRetry,
            MoveFailure::OutputNotDirectory => MoveAction::ReportConflict,
            MoveFailure::Other => MoveAction::ReportFailure,
        }
    }
}

/// The names among the first `n` entries that are text and in which
/// `pattern` finds a match, in listing order.
pub open spec fn selected(pattern: Seq<char>, names: Seq<Option<String>>, n: int) -> Seq<
    Seq<char>,
>
    decreases n,
{
    if n <= 0 {
        Seq::empty()
    } else {
        let prev = selected(pattern, names, n - 1);
        match names[n - 1] {
            Some(s) => if regex_finds(pattern, s@) {
                prev.push(s@)
            } else {
                prev
            },
            None => prev,
        }
    }
}

/// How many of the first `n` entries have a name that is not text.
pub open spec fn undecodable(names: Seq<Option<String>>, n: int) -> nat
    decreases n,
{
    if n <= 0 {
        0
    } else {
        undecodable(names, n - 1) + if names[n - 1] is None {
            1nat
        } else {
            0nat
        }
    }
}

/// What a sorting pass does in one input directory.
pub struct RulePlan {
    /// The names of the entries to move, in listing order.
    pub moves: Vec<String>,
    /// How many entries were skipped because their names are not text.
    pub undecodable: usize,
}

/// Plans one rule over the entries of its input directory, given by name
/// (`None` for a name that is not valid text). Every entry whose name the
/// rule's pattern matches anywhere is to be moved; the pattern must compile.
pub fn plan_moves(rule: &Rule, names: &Vec<Option<String>>) -> (r: Result<RulePlan, SortError>)
    ensures
        r is Ok <==> regex_valid(rule@.matching),
        r matches Err(e) ==> (e matches SortError::Pattern(p) && p@ == rule@.matching),
        r matches Ok(plan) ==> plan.moves@.map_values(|s: String| s@) == selected(
            rule@.matching,
            names@,
            names@.len() as int,
        ) && plan.undecodable == undecodable(names@, names@.len() as int),
{
    let pattern = match CompiledPattern::compile(rule.matching()) {
        Some(p) => p,
        None => {
            return Err(SortError::Pattern(rule.matching().to_string()));
        },
    };
    let mut moves: Vec<String> = Vec::new();
    let mut skipped: usize = 0;
    let mut i: usize = 0;
    while i < names.len()
        invariant
            i <= names@.len(),
            pattern.source_view() == rule@.matching,
            moves@.map_values(|s: String| s@) == selected(rule@.matching, names@, i as int),
            skipped == undecodable(names@, i as int),
            skipped <= i,
        decreases names@.len() - i,
    {
        let ghost prev = moves@;
        match &names[i] {
            Some(name) => {
                if pattern.finds(name.as_str()) {
                    moves.push(name.clone());
                    assert(moves@.map_values(|s: String| s@) =~= prev.map_values(|s: String| s@).push(
                        name@,
                    ));
                }
            },
            None => {
                skipped = skipped + 1;
            },
        }
        i = i + 1;
    }
    Ok(RulePlan { moves, undecodable: skipped })
}

} // verus!
