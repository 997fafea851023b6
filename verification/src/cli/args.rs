//! The commands of the command line and their options.
use vstd::prelude::*;

verus! {

/// A command with its options.
#[derive(Debug)]
pub enum Command {
    /// Initializes a new repository at the path.
    Init { path: String },
    /// Creates a new commit or amends an existing one.
    Commit { message: String, amend: bool, reuse_message: Option<String>, edit: bool },
    /// Stages files for commit.
    Add { paths: Vec<String> },
    /// Shows the state of the working directory and index.
    Status { porcelain: bool, color: String },
    /// Shows changes between the index, the working tree and commits.
    Diff { paths: Vec<String>, cached: bool },
    /// Manages branches.
    Branch { name: String, start_point: Option<String>, verbose: bool, delete: bool, force: bool },
    /// Switches branches.
    Checkout { target: String },
    /// Shows the commit log.
    Log { revisions: Vec<String>, abbrev: bool, format: String, patch: bool, decorate: String },
    /// Merges another branch into the current one.
    Merge { branch: String, message: Option<String>, abort: bool, continue_merge: bool, tool: Option<String> },
    /// Removes files from the working tree and/or index.
    Rm { files: Vec<String>, cached: bool, force: bool, recursive: bool },
    /// Resets the current HEAD.
    Reset { files: Vec<String>, soft: bool, mixed: bool, hard: bool, force: bool, reuse_message: Option<String> },
    /// Applies the changes of commits.
    CherryPick { args: Vec<String>, continue_pick: bool, abort: bool, quit: bool, mainline: Option<u32> },
    /// Reverts the changes of commits.
    Revert { args: Vec<String>, continue_revert: bool, abort: bool, quit: bool, mainline: Option<u32> },
    /// Starts a sprint.
    SprintStart { name: String, duration: u32 },
    /// Shows the current sprint.
    SprintInfo {},
    /// Shows the commits of a sprint.
    SprintCommitMap { sprint_name: Option<String> },
    /// Shows the burndown chart of a sprint.
    SprintBurndown { sprint_name: Option<String> },
    /// Shows sprint velocity.
    SprintVelocity {},
    /// Moves a sprint to new dates.
    SprintAdvance { name: String, start_date: String, end_date: String },
    /// Shows a summary of the current sprint.
    SprintView {},
    /// Creates a task.
    TaskCreate { id: String, description: String, story_points: Option<u32> },
    /// Completes a task, optionally merging its branch.
    TaskComplete { id: String, story_points: Option<i32>, auto_merge: bool },
    /// Shows a task.
    TaskStatus { id: String },
    /// Lists tasks.
    TaskList { args: Vec<String> },
    /// A command that is not known.
    Unknown { name: String },
}

/// The parsed command line.
#[derive(Debug)]
pub struct CliArgs {
    pub command: Command,
}

} // verus!
