//! Moving HEAD back, and with it the index and the working tree.
use vstd::prelude::*;
use crate::text::{copy_str, push_str};
use crate::errors::error::Error;

verus! {

/// The reference that keeps where HEAD was before a reset.
pub const ORIG_HEAD: &'static str = "ORIG_HEAD";

/// Resets HEAD, the index or the working tree to a commit.
pub struct ResetCommand;

/// How much a reset touches.
#[derive(Debug, Clone, Copy, PartialEq, Eq, Structural)]
pub enum ResetMode {
    /// HEAD only.
    Soft,
    /// HEAD and the index.
    Mixed,
    /// HEAD, the index and the working tree.
    Hard,
}

/// What the index gets from the target commit.
#[derive(Debug, Clone, Copy, PartialEq, Eq, Structural)]
pub enum IndexReset {
    Untouched,
    Everything,
    GivenPaths,
}

/// The steps of a reset.
#[derive(Debug, Clone, Copy, PartialEq, Eq, Structural)]
pub struct ResetPlan {
    /// Warn that the paths given are ignored.
    pub ignore_paths: bool,
    /// What the index is reset to.
    pub index: IndexReset,
    /// The working tree and index move to the target as a checkout does.
    pub working_tree: bool,
    /// HEAD moves to the target and ORIG_HEAD keeps the old one.
    pub move_head: bool,
}

/// The plan of a reset in a mode, with or without paths.
pub open spec fn reset_plan(mode: ResetMode, has_paths: bool) -> ResetPlan {
    match mode {
        ResetMode::Soft => ResetPlan { ignore_paths: has_paths, index: IndexReset::Untouched, working_tree: false, move_head: !has_paths },
        ResetMode::Mixed => ResetPlan {
            ignore_paths: false,
            index: if has_paths { IndexReset::GivenPaths } else { IndexReset::Everything },
            working_tree: false,
            move_head: !has_paths,
        },
        ResetMode::Hard => ResetPlan { ignore_paths: has_paths, index: IndexReset::Untouched, working_tree: true, move_head: !has_paths },
    }
}

impl ResetCommand {
    /// The mode the flags ask for: hard over soft, mixed by default.
    pub fn mode(soft: bool, mixed: bool, hard: bool) -> (m: ResetMode)
        ensures
            m == if hard { ResetMode::Hard } else if soft { ResetMode::Soft } else { ResetMode::Mixed },
    {
        if hard {
            ResetMode::Hard
        } else if soft {
            ResetMode::Soft
        } else {
            ResetMode::Mixed
        }
    }

    /// What a reset does in a mode, with or without paths.
    pub fn plan(mode: ResetMode, has_paths: bool) -> (p: ResetPlan)
        ensures
            p == reset_plan(mode, has_paths),
    {
        match mode {
            ResetMode::Soft => ResetPlan { ignore_paths: has_paths, index: IndexReset::Untouched, working_tree: false, move_head: !has_paths },
            ResetMode::Mixed => ResetPlan {
                ignore_paths: false,
                index: if has_paths { IndexReset::GivenPaths } else { IndexReset::Everything },
                working_tree: false,
                move_head: !has_paths,
            },
            ResetMode::Hard => ResetPlan { ignore_paths: has_paths, index: IndexReset::Untouched, working_tree: true, move_head: !has_paths },
        }
    }

    /// The target: the revision resolved when one was given, else HEAD.
    pub fn target(revision: &str, resolved: Option<String>, current_head: &str) -> (t: String)
        ensures
            revision@.len() > 0 && resolved is Some ==> t@ == resolved->0@,
            !(revision@.len() > 0 && resolved is Some) ==> t@ == current_head@,
    {
        if !crate::text::str_is_empty(revision) {
            if let Some(oid) = resolved {
                return oid;
            }
        }
        copy_str(current_head)
    }

    /// The error when the repository has no commit yet.
    pub fn no_head_error() -> (e: Error)
        ensures
            e matches Error::Generic(m) && m@ == "No HEAD commit found. Repository may be empty."@,
    {
        Error::Generic(copy_str("No HEAD commit found. Repository may be empty."))
    }

    /// The error when the target is not a commit.
    pub fn not_commit_error(oid: &str) -> (e: Error)
        ensures
            e matches Error::Generic(m) && m@ == "Object "@ + oid@ + " is not a commit"@,
    {
        let mut m = copy_str("Object ");
        push_str(&mut m, oid);
        push_str(&mut m, " is not a commit");
        Error::Generic(m)
    }

    /// The error when a tree id names something else.
    pub fn not_tree_error(oid: &str) -> (e: Error)
        ensures
            e matches Error::Generic(m) && m@ == "Object "@ + oid@ + " is not a tree"@,
    {
        let mut m = copy_str("Object ");
        push_str(&mut m, oid);
        push_str(&mut m, " is not a tree");
        Error::Generic(m)
    }
}

} // verus!
