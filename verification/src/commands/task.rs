//! `task create` and `task complete`: which sprint a task belongs to, the
//! names of its branch and references, and the checks on it.
use vstd::prelude::*;
use crate::text::{str_eq, texts, copy_str, concat, push_str, first_occurrence, contains_seq, occurs_at};
use crate::stdtext::alphanumeric;
use crate::errors::error::{Error, error_message};
use crate::vcs::refs::Reference;
use crate::vcs::branch_metadata::{SprintMetadata, end_of};
use crate::vcs::sprint::sprint::{Sprint, Task, TaskStatus, has_id, total_points};

verus! {

/// The sprint part of a task branch name: what stands between the first
/// `sprint-sprint` and the next `-task-` after it.
pub open spec fn task_branch_sprint(current: Seq<char>) -> Option<Seq<char>> {
    match first_occurrence(current, "sprint-sprint"@) {
        None => None,
        Some(idx) => {
            let rest = current.skip(idx + 13);
            match first_occurrence(rest, "-task-"@) {
                None => None,
                Some(t) => Some(rest.take(t)),
            }
        },
    }
}

/// The sprint that a new task should go to, as the current branch tells:
/// a sprint branch names it after `sprint-`; a task branch names it as
/// `sprint` and its sprint part; any other branch tells nothing.
pub open spec fn sprint_named_by(current: Seq<char>) -> Option<Seq<char>> {
    if "sprint-"@.is_prefix_of(current) {
        if !contains_seq(current, "-task-"@) {
            Some(current.skip(7))
        } else {
            match task_branch_sprint(current) {
                Some(x) => Some("sprint"@ + x),
                None => None,
            }
        }
    } else {
        None
    }
}

/// Every character of an id is a letter, a digit, `-` or `_`.
pub open spec fn valid_task_id(id: Seq<char>) -> bool {
    forall|i: int| 0 <= i < id.len() ==> alphanumeric(#[trigger] id[i]) || id[i] == '-' || id[i] == '_'
}

/// The name of a reference.
pub open spec fn reference_name(r: Reference) -> Seq<char> {
    match r {
        Reference::Symbolic(n) => n@,
        Reference::Direct(n) => n@,
    }
}

/// A sprint branch `branch` is the one that `sprint_branch` names, with or
/// without the `sprint-` prefix.
pub open spec fn branch_names_sprint(branch: Seq<char>, sprint_branch: Seq<char>) -> bool {
    branch == sprint_branch || "sprint-"@ + branch == sprint_branch
}

/// A sprint with the tasks loaded for it (`None` when loading failed).
#[derive(Debug)]
pub struct SprintCandidate {
    pub branch: String,
    pub metadata: SprintMetadata,
    pub tasks: Option<Vec<Task>>,
}

/// Where `task complete` finds the task's sprint.
#[derive(Debug, Clone, Copy, PartialEq, Eq, Structural)]
pub enum TaskLocation {
    /// One of the sprints, by position.
    Sprint(usize),
    /// The active sprint.
    Active,
    /// Nowhere.
    NotFound,
}

/// The tasks of a candidate have one with `id`.
pub open spec fn holds_task(c: SprintCandidate, id: Seq<char>) -> bool {
    c.tasks matches Some(ts) && has_id(ts@, id)
}

/// Where the task's sprint is found: first the sprint that the task's
/// reference names, among those whose tasks loaded; else the first sprint
/// whose tasks hold the task; else the active sprint, when its tasks
/// loaded; else, when the task has metadata and no sprint is active, the
/// last sprint, when its tasks loaded.
pub open spec fn located(id: Seq<char>, original: Option<Seq<char>>, all: Seq<SprintCandidate>, active: Option<SprintCandidate>, has_metadata: bool) -> TaskLocation {
    let by_ref = match original {
        Some(sb) => exists|i: int| 0 <= i < all.len() && branch_names_sprint(all[i].branch@, sb) && #[trigger] all[i].tasks is Some,
        None => false,
    };
    let by_task = exists|i: int| 0 <= i < all.len() && #[trigger] holds_task(all[i], id);
    if by_ref {
        TaskLocation::Sprint((choose|i: int| 0 <= i < all.len() && branch_names_sprint(all[i].branch@, original->0)
            && #[trigger] all[i].tasks is Some && forall|j: int| 0 <= j < i ==> !(branch_names_sprint(all[j].branch@, original->0) && all[j].tasks is Some)) as usize)
    } else if by_task {
        TaskLocation::Sprint((choose|i: int| 0 <= i < all.len() && #[trigger] holds_task(all[i], id)
            && forall|j: int| 0 <= j < i ==> !holds_task(all[j], id)) as usize)
    } else if active matches Some(a) && a.tasks is Some {
        TaskLocation::Active
    } else if has_metadata && active is None && all.len() > 0 && all.last().tasks is Some {
        TaskLocation::Sprint((all.len() - 1) as usize)
    } else {
        TaskLocation::NotFound
    }
}

/// The `task create` command.
pub struct TaskCreateCommand;

/// The `task complete` command.
pub struct TaskCompleteCommand;

/// The text of a literal.
fn text(t: &str) -> (r: String)
    ensures
        r@ == t@,
{
    copy_str(t)
}

/// The sprint part of a task branch name.
pub fn sprint_part_of_task_branch(current: &str) -> (r: Option<String>)
    ensures
        r matches Some(x) ==> task_branch_sprint(current@) == Some(x@),
        r is None ==> task_branch_sprint(current@) is None,
{
    proof {
        reveal_strlit("sprint-sprint");
        reveal_strlit("-task-");
    }
    let cs = crate::text::chars_of(current);
    let pattern = crate::text::chars_of("sprint-sprint");
    let marker = crate::text::chars_of("-task-");
    assert(pattern@.len() == 13);
    match crate::text::find(cs.as_slice(), pattern.as_slice()) {
        None => None,
        Some(idx) => {
            assert(occurs_at(cs@, pattern@, idx as int));
            let n = cs.len();
            assert(idx + 13 <= n);
            let rest = crate::text::slice_chars(cs.as_slice(), idx + 13, n);
            assert(rest@ =~= current@.skip(idx + 13));
            match crate::text::find(rest.as_slice(), marker.as_slice()) {
                None => None,
                Some(t) => {
                    let part = crate::text::slice_chars(rest.as_slice(), 0, t);
                    assert(part@ =~= rest@.take(t as int));
                    Some(crate::text::string_of(part.as_slice()))
                },
            }
        },
    }
}

impl TaskCreateCommand {
    /// The sprint that the current branch names for a new task.
    pub fn sprint_named_by_branch(current: &str) -> (r: Option<String>)
        ensures
            r matches Some(x) ==> sprint_named_by(current@) == Some(x@),
            r is None ==> sprint_named_by(current@) is None,
    {
        proof {
            reveal_strlit("sprint-");
            reveal_strlit("-task-");
            reveal_strlit("sprint");
        }
        if !crate::text::str_starts_with(current, "sprint-") {
            return None;
        }
        if !crate::text::str_contains(current, "-task-") {
            let cs = crate::text::chars_of(current);
            let rest = crate::text::slice_chars(cs.as_slice(), 7, cs.len());
            assert(rest@ =~= current@.skip(7));
            return Some(crate::text::string_of(rest.as_slice()));
        }
        match sprint_part_of_task_branch(current) {
            Some(x) => Some(concat("sprint", x.as_str())),
            None => None,
        }
    }

    /// The active sprint a task is created in; without one, the error
    /// that asks to start a sprint first.
    pub fn require_active_sprint(active: Option<(String, SprintMetadata)>) -> (r: Result<(String, SprintMetadata), Error>)
        ensures
            match active {
                Some(p) => r == Ok::<(String, SprintMetadata), Error>(p),
                None => r matches Err(Error::Generic(m))
                    && m@ == "No active sprint found. Start a sprint first with 'ash sprint start'."@,
            },
    {
        match active {
            Some(p) => Ok(p),
            None => Err(Error::Generic(copy_str("No active sprint found. Start a sprint first with 'ash sprint start'."))),
        }
    }

    /// The sprint to create the task in: the one the current branch names,
    /// when its metadata was found, else the active sprint.
    pub fn choose_sprint(named: Option<String>, named_metadata: Option<SprintMetadata>, active_branch: String, active_metadata: SprintMetadata) -> (r: (String, SprintMetadata))
        ensures
            match (named, named_metadata) {
                (Some(n), Some(m)) => r.0@ == n@ && r.1 == m,
                _ => r.0@ == active_branch@ && r.1 == active_metadata,
            },
    {
        match (named, named_metadata) {
            (Some(n), Some(m)) => (n, m),
            _ => (active_branch, active_metadata),
        }
    }

    /// Whether an id has only letters, digits, dashes and underscores.
    pub fn is_valid_task_id(id: &str) -> (r: bool)
        ensures
            r == valid_task_id(id@),
    {
        let cs = crate::text::chars_of(id);
        let mut i: usize = 0;
        while i < cs.len()
            invariant
                i <= cs@.len(),
                cs@ == id@,
                forall|j: int| 0 <= j < i ==> alphanumeric(#[trigger] cs@[j]) || cs@[j] == '-' || cs@[j] == '_',
            decreases cs@.len() - i,
        {
            let c = cs[i];
            if !(crate::stdtext::is_alphanumeric(c) || c == '-' || c == '_') {
                return false;
            }
            i += 1;
        }
        true
    }

    /// Refuses an id with other characters than letters, digits, dashes
    /// and underscores.
    pub fn validate_task_id(id: &str) -> (r: Result<(), Error>)
        ensures
            r is Ok <==> valid_task_id(id@),
            r matches Err(Error::Generic(m)) ==> m@ == "Task ID must contain only alphanumeric characters, dashes, or underscores."@,
            r is Err ==> r matches Err(Error::Generic(_)),
    {
        if !Self::is_valid_task_id(id) {
            return Err(Error::Generic(text("Task ID must contain only alphanumeric characters, dashes, or underscores.")));
        }
        Ok(())
    }

    /// The sprint to add the task to: the current one, or a new one from the
    /// chosen metadata starting at `now`; either way on the chosen branch.
    /// Refused when the sprint has a task with the id already.
    pub fn prepare_sprint(current: Option<Sprint>, metadata: &SprintMetadata, branch: &str, id: &str, now: u64) -> (r: Result<Sprint, Error>)
        requires
            current matches Some(s) ==> s.wf(),
        ensures
            ({
                let tasks = match current { Some(s) => s.tasks@, None => Seq::empty() };
                &&& r is Err <==> has_id(tasks, id@)
                &&& (r matches Err(Error::Generic(m)) ==> m@ == "Task with ID '"@ + id@ + "' already exists in this sprint."@)
                &&& (r is Err ==> (r matches Err(Error::Generic(_))))
                &&& (r matches Ok(s) ==> s.wf() && s.branch@ == branch@ && s.tasks@ == tasks && match current {
                    Some(c) => s.name == c.name && s.start_date == c.start_date && s.end_date == c.end_date,
                    None => s.name@ == metadata.name@ && s.start_date == now,
                })
            }),
    {
        let mut sprint = match current {
            Some(s) => s,
            None => Sprint::new_at(metadata.name.clone(), metadata.duration_days, now),
        };
        sprint.branch = copy_str(branch);
        if sprint.find_task(id).is_some() {
            let mut m = text("Task with ID '");
            push_str(&mut m, id);
            push_str(&mut m, "' already exists in this sprint.");
            return Err(Error::Generic(m));
        }
        Ok(sprint)
    }

    /// A new task, already in progress, started (and created) at `now`.
    pub fn new_started_task(id: &str, description: &str, story_points: Option<u32>, now: u64) -> (t: Task)
        ensures
            t.id@ == id@,
            t.description@ == description@,
            t.story_points == story_points,
            t.status == TaskStatus::InProgress,
            t.created_at == now,
            t.started_at == Some(now),
            t.completed_at is None,
            t.commits@.len() == 0,
    {
        let mut t = Task::new_at(copy_str(id), copy_str(description), story_points, now);
        t.status = TaskStatus::InProgress;
        t.started_at = Some(now);
        t
    }

    /// The branch of a sprint as task creation names it: `sprint-` and the
    /// sprint's branch name.
    pub fn expected_sprint_branch(sprint_branch: &str) -> (s: String)
        ensures
            s@ == "sprint-"@ + sprint_branch@,
    {
        concat("sprint-", sprint_branch)
    }

    /// The branch of a task: the sprint branch, `-task-` and the id.
    pub fn task_branch_name(sprint_branch: &str, id: &str) -> (s: String)
        ensures
            s@ == "sprint-"@ + sprint_branch@ + "-task-"@ + id@,
    {
        let mut s = text("sprint-");
        push_str(&mut s, sprint_branch);
        push_str(&mut s, "-task-");
        push_str(&mut s, id);
        s
    }

    /// The references that record a task's branch and sprint.
    pub fn task_refs(id: &str) -> (r: (String, String))
        ensures
            r.0@ == "refs/meta/taskbranch/"@ + id@,
            r.1@ == "refs/meta/tasksprint/"@ + id@,
    {
        (concat("refs/meta/taskbranch/", id), concat("refs/meta/tasksprint/", id))
    }

    /// Where the task branch starts: the sprint branch when some branch has
    /// its name, else the current branch.
    pub fn start_point(branches: &Vec<Reference>, expected: &str, current: &str) -> (r: String)
        ensures
            r@ == (if exists|i: int| 0 <= i < branches@.len() && reference_name(#[trigger] branches@[i]) == expected@ {
                expected@
            } else {
                current@
            }),
    {
        let mut i: usize = 0;
        while i < branches.len()
            invariant
                i <= branches@.len(),
                forall|j: int| 0 <= j < i ==> reference_name(#[trigger] branches@[j]) != expected@,
            decreases branches@.len() - i,
        {
            let name = match &branches[i] {
                Reference::Symbolic(n) => n,
                Reference::Direct(n) => n,
            };
            if str_eq(name.as_str(), expected) {
                return copy_str(expected);
            }
            i += 1;
        }
        copy_str(current)
    }

    /// Lets a branch that exists already pass: the outcome of creating the
    /// task branch, `Ok(true)` when it existed.
    pub fn tolerate_existing_branch(created: Result<(), Error>) -> (r: Result<bool, Error>)
        ensures
            match created {
                Ok(_) => r == Ok::<bool, Error>(false),
                Err(e) => if contains_seq(error_message(e), "already exists"@) {
                    r == Ok::<bool, Error>(true)
                } else {
                    r == Err::<bool, Error>(e)
                },
            },
    {
        match created {
            Ok(_) => Ok(false),
            Err(e) => {
                let m = e.to_message();
                if crate::text::str_contains(m.as_str(), "already exists") {
                    Ok(true)
                } else {
                    Err(e)
                }
            },
        }
    }
}

impl TaskCompleteCommand {
    /// Refuses to go on when there is no sprint.
    pub fn check_sprints(count: usize) -> (r: Result<(), Error>)
        ensures
            count == 0 <==> r is Err,
            r matches Err(Error::Generic(m)) ==> m@ == "No sprints found. Start a sprint first with 'ash sprint start'."@,
            r is Err ==> r matches Err(Error::Generic(_)),
    {
        if count == 0 {
            return Err(Error::Generic(text("No sprints found. Start a sprint first with 'ash sprint start'.")));
        }
        Ok(())
    }

    /// Whether a sprint branch is the one a task's reference names.
    pub fn branch_matches(branch: &str, sprint_branch: &str) -> (r: bool)
        ensures
            r == branch_names_sprint(branch@, sprint_branch@),
    {
        if str_eq(branch, sprint_branch) {
            return true;
        }
        let prefixed = concat("sprint-", branch);
        str_eq(prefixed.as_str(), sprint_branch)
    }

    /// Whether a candidate's tasks hold one with `id`.
    fn candidate_holds(c: &SprintCandidate, id: &str) -> (r: bool)
        ensures
            r == holds_task(*c, id@),
    {
        match &c.tasks {
            Some(ts) => {
                let mut i: usize = 0;
                while i < ts.len()
                    invariant
                        i <= ts@.len(),
                        c.tasks is Some && c.tasks->0@ == ts@,
                        forall|j: int| 0 <= j < i ==> ts@[j].id@ != id@,
                    decreases ts@.len() - i,
                {
                    if str_eq(ts[i].id.as_str(), id) {
                        assert(ts@[i as int].id@ == id@);
                        return true;
                    }
                    i += 1;
                }
                false
            },
            None => false,
        }
    }

    /// Where the task's sprint is found.
    pub fn locate_task(id: &str, original: Option<&str>, all: &Vec<SprintCandidate>, active: Option<&SprintCandidate>,
        has_metadata: bool) -> (r: TaskLocation)
        ensures
            r == located(id@, match original { Some(o) => Some(o@), None => None }, all@,
                match active { Some(a) => Some(*a), None => None }, has_metadata),
    {
        let ghost orig = match original { Some(o) => Some(o@), None => None };
        if let Some(sb) = original {
            let mut i: usize = 0;
            while i < all.len()
                invariant
                    i <= all@.len(),
                    original matches Some(o) && o@ == sb@,
                    forall|j: int| 0 <= j < i ==> !(branch_names_sprint(all@[j].branch@, sb@) && #[trigger] all@[j].tasks is Some),
                decreases all@.len() - i,
            {
                if Self::branch_matches(all[i].branch.as_str(), sb) && all[i].tasks.is_some() {
                    proof {
                        assert(branch_names_sprint(all@[i as int].branch@, sb@) && all@[i as int].tasks is Some);
                        let w = choose|k: int| 0 <= k < all@.len() && branch_names_sprint(all@[k].branch@, sb@)
                            && #[trigger] all@[k].tasks is Some && forall|j: int| 0 <= j < k ==> !(branch_names_sprint(all@[j].branch@, sb@) && all@[j].tasks is Some);
                        if w < i {
                            assert(!(branch_names_sprint(all@[w].branch@, sb@) && all@[w].tasks is Some));
                        } else if w > i {
                            assert(!(branch_names_sprint(all@[i as int].branch@, sb@) && all@[i as int].tasks is Some));
                        }
                    }
                    return TaskLocation::Sprint(i);
                }
                i += 1;
            }
        }
        let mut i: usize = 0;
        while i < all.len()
            invariant
                i <= all@.len(),
                orig == (match original { Some(o) => Some(o@), None => None }),
                forall|j: int| 0 <= j < i ==> !#[trigger] holds_task(all@[j], id@),
                !(match orig {
                    Some(sb) => exists|i: int| 0 <= i < all@.len() && branch_names_sprint(all@[i].branch@, sb) && #[trigger] all@[i].tasks is Some,
                    None => false,
                }),
            decreases all@.len() - i,
        {
            if Self::candidate_holds(&all[i], id) {
                proof {
                    assert(holds_task(all@[i as int], id@));
                    let w = choose|k: int| 0 <= k < all@.len() && #[trigger] holds_task(all@[k], id@)
                        && forall|j: int| 0 <= j < k ==> !holds_task(all@[j], id@);
                    if w < i {
                        assert(!holds_task(all@[w], id@));
                    } else if w > i {
                        assert(!holds_task(all@[i as int], id@));
                    }
                }
                return TaskLocation::Sprint(i);
            }
            i += 1;
        }
        if let Some(a) = active {
            if a.tasks.is_some() {
                return TaskLocation::Active;
            }
        }
        if has_metadata && active.is_none() && all.len() > 0 && all[all.len() - 1].tasks.is_some() {
            return TaskLocation::Sprint(all.len() - 1);
        }
        TaskLocation::NotFound
    }

    /// The error when the task is in no sprint.
    pub fn not_found_error(id: &str) -> (e: Error)
        ensures
            e matches Error::Generic(m) && m@ == "Task with ID "@ + id@ + " not found in any sprint"@,
    {
        let mut m = text("Task with ID ");
        push_str(&mut m, id);
        push_str(&mut m, " not found in any sprint");
        Error::Generic(m)
    }

    /// Checks the task before completing it: refused when it is done
    /// already; when the sprint lacks it, it is added from its metadata
    /// (id, description, points), created at `now`, or refused without
    /// metadata. Says whether the task was still to do.
    pub fn prepare_task(sprint: &mut Sprint, id: &str, metadata: Option<(String, String, Option<u32>)>, now: u64) -> (r: Result<bool, Error>)
        requires
            old(sprint).wf(),
            old(sprint).total_story_points <= u32::MAX,
            metadata matches Some(m) ==> m.0@ == id@ && old(sprint).total_story_points + match m.2 { Some(p) => p as int, None => 0 } <= u32::MAX,
        ensures
            final(sprint).wf(),
            has_id(old(sprint).tasks@, id@) ==> ({
                let t = old(sprint).tasks@[choose|i: int| 0 <= i < old(sprint).tasks@.len() && old(sprint).tasks@[i].id@ == id@];
                &&& *final(sprint) == *old(sprint)
                &&& (t.status == TaskStatus::Done <==> r is Err)
                &&& ((r matches Err(Error::Generic(m)) && m@ == "Task "@ + id@ + " is already completed."@) || r is Ok)
                &&& (r matches Ok(todo) ==> todo == (t.status == TaskStatus::Todo))
            }),
            !has_id(old(sprint).tasks@, id@) ==> match metadata {
                Some(m) => r == Ok::<bool, Error>(true) && final(sprint).tasks@.len() == old(sprint).tasks@.len() + 1
                    && final(sprint).tasks@.drop_last() == old(sprint).tasks@
                    && final(sprint).tasks@.last().id@ == id@
                    && final(sprint).tasks@.last().description@ == m.1@
                    && final(sprint).tasks@.last().story_points == m.2
                    && final(sprint).tasks@.last().status == TaskStatus::Todo
                    && final(sprint).tasks@.last().created_at == now,
                None => *final(sprint) == *old(sprint) && (r matches Err(Error::Generic(msg))
                    && msg@ == "Task with ID "@ + id@ + " not found in any sprint"@),
            },
    {
        match sprint.find_task(id) {
            Some(i) => {
                proof {
                    let k = choose|k: int| 0 <= k < sprint.tasks@.len() && sprint.tasks@[k].id@ == id@;
                    if k != i as int {
                        if k < i as int {
                            assert(sprint.tasks@[k].id@ != sprint.tasks@[i as int].id@);
                        } else {
                            assert(sprint.tasks@[i as int].id@ != sprint.tasks@[k].id@);
                        }
                    }
                }
                let status = sprint.tasks[i].status;
                if status == TaskStatus::Done {
                    let mut m = text("Task ");
                    push_str(&mut m, id);
                    push_str(&mut m, " is already completed.");
                    return Err(Error::Generic(m));
                }
                Ok(status == TaskStatus::Todo)
            },
            None => {
                match metadata {
                    Some(m) => {
                        let task = Task::new_at(m.0, m.1, m.2, now);
                        let _ = sprint.add_task(task);
                        Ok(true)
                    },
                    None => Err(Self::not_found_error(id)),
                }
            },
        }
    }

    /// The task branch: the one the task's reference records, else the
    /// sprint branch, `-task-` and the id.
    pub fn task_branch(recorded: Option<String>, sprint_branch: &str, id: &str) -> (r: String)
        ensures
            match recorded {
                Some(b) => r@ == b@,
                None => r@ == sprint_branch@ + "-task-"@ + id@,
            },
    {
        match recorded {
            Some(b) => b,
            None => {
                let mut s = copy_str(sprint_branch);
                push_str(&mut s, "-task-");
                push_str(&mut s, id);
                s
            },
        }
    }

    /// The sprint branch a task branch belongs to, as its name tells.
    pub fn sprint_of_current_branch(current: &str) -> (r: Option<String>)
        ensures
            contains_seq(current@, "-task-"@) ==> match task_branch_sprint(current@) {
                Some(x) => r matches Some(s) && s@ == "sprint-sprint"@ + x,
                None => r is None,
            },
            !contains_seq(current@, "-task-"@) ==> r is None,
    {
        if !crate::text::str_contains(current, "-task-") {
            return None;
        }
        match sprint_part_of_task_branch(current) {
            Some(x) => Some(concat("sprint-sprint", x.as_str())),
            None => None,
        }
    }

    /// The sprint branch to merge the task into: the one the task's
    /// reference records, else the one the current task branch tells, else
    /// `sprint-` and the sprint's branch; with `sprint-` in front if it
    /// lacks it.
    pub fn sprint_branch_to_merge(recorded: Option<String>, from_current: Option<String>, branch_name: &str) -> (r: String)
        ensures
            ({
                let chosen = match recorded {
                    Some(b) => b@,
                    None => match from_current {
                        Some(c) => c@,
                        None => "sprint-"@ + branch_name@,
                    },
                };
                r@ == if "sprint-"@.is_prefix_of(chosen) { chosen } else { "sprint-"@ + chosen }
            }),
    {
        let chosen = match recorded {
            Some(b) => b,
            None => match from_current {
                Some(c) => c,
                None => concat("sprint-", branch_name),
            },
        };
        if crate::text::str_starts_with(chosen.as_str(), "sprint-") {
            chosen
        } else {
            concat("sprint-", chosen.as_str())
        }
    }

    /// The message of the merge of a task branch.
    pub fn merge_message(id: &str, sprint_branch: &str) -> (s: String)
        ensures
            s@ == "Merge task/"@ + id@ + " into "@ + sprint_branch@,
    {
        let mut s = text("Merge task/");
        push_str(&mut s, id);
        push_str(&mut s, " into ");
        push_str(&mut s, sprint_branch);
        s
    }
}

} // verus!
