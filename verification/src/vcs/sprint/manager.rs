//! Loading and saving sprints through their branch metadata.
use vstd::prelude::*;
use crate::errors::error::Error;
use crate::text::without_prefix;
use crate::vcs::branch_metadata::{SprintMetadata, end_of};
use crate::vcs::sprint::sprint::{Sprint, Task, TaskStatus};

verus! {

/// The sprints of the repository at `repo_path`.
pub struct SprintManager {
    pub repo_path: String,
}

/// What saving a sprint records: the branch (without its `sprint-` prefix)
/// under which its metadata goes, the metadata, and the tasks.
#[derive(Debug)]
pub struct SprintSave {
    pub branch_name: String,
    pub metadata: SprintMetadata,
    pub tasks: Vec<Task>,
}

/// What the manager records of a task.
pub open spec fn task_view(t: Task) -> (Seq<char>, Seq<char>, Option<u32>, TaskStatus, u64, Option<u64>, Option<u64>, Seq<Seq<char>>) {
    (t.id@, t.description@, t.story_points, t.status, t.created_at, t.started_at, t.completed_at, crate::text::texts(t.commits@))
}

/// The records of tasks.
pub open spec fn task_views(v: Seq<Task>) -> Seq<(Seq<char>, Seq<char>, Option<u32>, TaskStatus, u64, Option<u64>, Option<u64>, Seq<Seq<char>>)> {
    v.map_values(|t: Task| task_view(t))
}

/// Sets a task among tasks by id: replaces the first with its id, else appends it.
pub open spec fn upsert(s: Seq<(Seq<char>, Seq<char>, Option<u32>, TaskStatus, u64, Option<u64>, Option<u64>, Seq<Seq<char>>)>,
    t: (Seq<char>, Seq<char>, Option<u32>, TaskStatus, u64, Option<u64>, Option<u64>, Seq<Seq<char>>))
    -> Seq<(Seq<char>, Seq<char>, Option<u32>, TaskStatus, u64, Option<u64>, Option<u64>, Seq<Seq<char>>)>
    decreases s.len(),
{
    if s.len() == 0 {
        seq![t]
    } else if s[0].0 == t.0 {
        seq![t] + s.drop_first()
    } else {
        seq![s[0]] + upsert(s.drop_first(), t)
    }
}

/// A task belongs to a sprint branch when the branch stored for it is that
/// branch, with or without its `sprint-` prefix.
pub open spec fn belongs(stored: Option<String>, branch: Seq<char>) -> bool {
    match stored {
        Some(b) => b@ == branch || without_prefix(b@, "sprint-"@) == branch,
        None => false,
    }
}

/// The tasks of a sprint branch among all tasks with their stored branches,
/// each id once (a later task replacing an earlier one).
pub open spec fn tasks_of(all: Seq<(Task, Option<String>)>, branch: Seq<char>)
    -> Seq<(Seq<char>, Seq<char>, Option<u32>, TaskStatus, u64, Option<u64>, Option<u64>, Seq<Seq<char>>)>
    decreases all.len(),
{
    if all.len() == 0 {
        Seq::empty()
    } else {
        let prev = tasks_of(all.drop_last(), branch);
        if belongs(all.last().1, branch) {
            upsert(prev, task_view(all.last().0))
        } else {
            prev
        }
    }
}

/// Setting a task where the first task with its id is, or at the end.
proof fn lemma_upsert_at(s: Seq<(Seq<char>, Seq<char>, Option<u32>, TaskStatus, u64, Option<u64>, Option<u64>, Seq<Seq<char>>)>,
    t: (Seq<char>, Seq<char>, Option<u32>, TaskStatus, u64, Option<u64>, Option<u64>, Seq<Seq<char>>), k: int)
    requires
        0 <= k <= s.len(),
        forall|j: int| 0 <= j < k ==> s[j].0 != t.0,
        k < s.len() ==> s[k].0 == t.0,
    ensures
        upsert(s, t) == if k < s.len() { s.update(k, t) } else { s.push(t) },
    decreases s.len(),
{
    if s.len() == 0 {
        assert(seq![t] =~= s.push(t));
    } else if k == 0 {
        assert(seq![t] + s.drop_first() =~= s.update(0, t));
    } else {
        let r = s.drop_first();
        assert forall|j: int| 0 <= j < k - 1 implies r[j].0 != t.0 by {
            assert(r[j] == s[j + 1]);
        }
        lemma_upsert_at(r, t, k - 1);
        if k < s.len() {
            assert(seq![s[0]] + r.update(k - 1, t) =~= s.update(k, t));
        } else {
            assert(seq![s[0]] + r.push(t) =~= s.push(t));
        }
    }
}

/// Saving a sprint whose length is a whole number of days records metadata
/// whose end is the sprint's end.
pub proof fn lemma_saved_sprint_end(start: u64, end: u64)
    requires
        start <= end,
        (end - start) % 86400 == 0,
        (end - start) / 86400 <= u32::MAX,
    ensures
        end_of(start, ((end - start) / 86400) as u32) == end,
{
    let d: int = end - start;
    assert(d == (d / 86400) * 86400 + d % 86400) by (nonlinear_arith);
}

/// Saving a sprint, then finding the current sprint. The metadata that
/// `save_sprint` records for a sprint (its name, its start and the whole days
/// to its end), handed back to `get_current_sprint` on the sprint's branch at
/// a time `now` up to the sprint's end, meets that function's condition for
/// finding a sprint, and the sprint it then gives has the saved sprint's name,
/// start, end and branch; this holds when the branch starts with `sprint-`
/// and the sprint lasts a whole number of days.
pub proof fn lemma_save_then_current(sprint: Sprint, saved: SprintMetadata, now: u64)
    requires
        sprint.start_date <= sprint.end_date,
        (sprint.end_date - sprint.start_date) % 86400 == 0,
        (sprint.end_date - sprint.start_date) / 86400 <= u32::MAX,
        "sprint-"@.is_prefix_of(sprint.branch@),
        now <= sprint.end_date,
        saved.name@ == sprint.name@,
        saved.start_timestamp == sprint.start_date,
        saved.duration_days == ((sprint.end_date - sprint.start_date) / 86400) as u32,
    ensures
        end_of(saved.start_timestamp, saved.duration_days) == sprint.end_date,
        end_of(saved.start_timestamp, saved.duration_days) <= u64::MAX,
        "sprint-"@.is_prefix_of(sprint.branch@) && now <= end_of(saved.start_timestamp, saved.duration_days),
        saved.name@ == sprint.name@ && saved.start_timestamp == sprint.start_date,
{
    lemma_saved_sprint_end(sprint.start_date, sprint.end_date);
}

impl Task {
    /// A copy of the task.
    pub fn copy(&self) -> (t: Task)
        ensures
            task_view(t) == task_view(*self),
    {
        let commits = crate::text::copy_strings_from(self.commits.as_slice(), 0);
        assert(crate::text::texts(self.commits@).skip(0) =~= crate::text::texts(self.commits@));
        Task {
            id: self.id.clone(),
            description: self.description.clone(),
            story_points: self.story_points,
            status: self.status,
            created_at: self.created_at,
            started_at: self.started_at,
            completed_at: self.completed_at,
            commits,
        }
    }
}

impl SprintManager {
    /// A manager for the repository at `repository_path`.
    pub fn new(repository_path: &str) -> (m: Self)
        ensures
            m.repo_path@ == repository_path@,
    {
        SprintManager { repo_path: repository_path.to_string() }
    }

    /// Prepares the manager; there is nothing to prepare.
    pub fn init(&self) -> (r: Result<(), Error>)
        ensures
            r is Ok,
    {
        Ok(())
    }

    /// The sprint of the current branch: none unless the branch starts with
    /// `sprint-` and its metadata is active at `now`; then a sprint with the
    /// metadata's name and dates on that branch, without tasks yet.
    pub fn get_current_sprint(&self, current_branch: &str, metadata: Option<SprintMetadata>, now: u64) -> (r: Result<Option<Sprint>, Error>)
        requires
            metadata matches Some(m) ==> end_of(m.start_timestamp, m.duration_days) <= u64::MAX,
        ensures
            r matches Ok(o) && (match metadata {
                Some(m) => if "sprint-"@.is_prefix_of(current_branch@) && now <= end_of(m.start_timestamp, m.duration_days) {
                    o matches Some(s) && s.name@ == m.name@ && s.start_date == m.start_timestamp
                        && s.end_date == end_of(m.start_timestamp, m.duration_days) && s.tasks@.len() == 0
                        && s.branch@ == current_branch@ && s.total_story_points == 0 && s.completed_story_points == 0
                        && s.wf()
                } else {
                    o is None
                },
                None => o is None,
            }),
    {
        if !crate::text::str_starts_with(current_branch, "sprint-") {
            return Ok(None);
        }
        match metadata {
            Some(m) => {
                if !m.is_active_at(now) {
                    return Ok(None);
                }
                let s = Sprint::from_metadata(&m, current_branch, Vec::new());
                proof {
                    assert(s.tasks@ =~= Seq::<Task>::empty());
                }
                Ok(Some(s))
            },
            None => Ok(None),
        }
    }

    /// What saving a sprint records: its metadata (name, start, whole days
    /// between start and end) under its branch without the `sprint-` prefix,
    /// and each of its tasks.
    pub fn save_sprint(&self, sprint: &Sprint) -> (r: Result<SprintSave, Error>)
        requires
            sprint.start_date <= sprint.end_date,
        ensures
            r matches Ok(w) && {
                &&& w.branch_name@ == without_prefix(sprint.branch@, "sprint-"@)
                &&& w.metadata.name@ == sprint.name@
                &&& w.metadata.start_timestamp == sprint.start_date
                &&& w.metadata.duration_days == (((sprint.end_date - sprint.start_date) / 86400) as u32)
                &&& task_views(w.tasks@) == task_views(sprint.tasks@)
            },
    {
        let days: u64 = (sprint.end_date - sprint.start_date) / 86400;
        let metadata = SprintMetadata {
            name: sprint.name.clone(),
            start_timestamp: sprint.start_date,
            duration_days: days as u32,
        };
        let branch_name = crate::text::strip_prefix_or_keep(sprint.branch.as_str(), "sprint-");
        let mut tasks: Vec<Task> = Vec::new();
        let mut i: usize = 0;
        while i < sprint.tasks.len()
            invariant
                i <= sprint.tasks@.len(),
                task_views(tasks@) == task_views(sprint.tasks@.take(i as int)),
            decreases sprint.tasks@.len() - i,
        {
            let t = sprint.tasks[i].copy();
            let ghost before = tasks@;
            tasks.push(t);
            proof {
                assert(sprint.tasks@.take(i + 1) =~= sprint.tasks@.take(i as int).push(sprint.tasks@[i as int]));
                assert(tasks@ =~= before.push(t));
                assert(task_views(before.push(t)) =~= task_views(before).push(task_view(t)));
                assert(task_views(sprint.tasks@.take(i as int).push(sprint.tasks@[i as int]))
                    =~= task_views(sprint.tasks@.take(i as int)).push(task_view(sprint.tasks@[i as int])));
            }
            i += 1;
        }
        assert(sprint.tasks@.take(sprint.tasks@.len() as int) =~= sprint.tasks@);
        Ok(SprintSave { branch_name, metadata, tasks })
    }

    /// Whether an active sprint was found.
    pub fn has_active_sprint(&self, active: &Option<(String, SprintMetadata)>) -> (r: Result<bool, Error>)
        ensures
            r matches Ok(b) && b == active.is_some(),
    {
        Ok(active.is_some())
    }

    /// The tasks of a sprint branch, from all tasks and the branch stored
    /// for each: those stored for the branch (with or without `sprint-`),
    /// each id once.
    pub fn get_sprint_tasks(&self, sprint_branch: &str, all: Vec<(Task, Option<String>)>) -> (r: Result<Vec<Task>, Error>)
        ensures
            r matches Ok(v) && task_views(v@) == tasks_of(all@, sprint_branch@),
    {
        let mut tasks: Vec<Task> = Vec::new();
        let mut i: usize = 0;
        while i < all.len()
            invariant
                i <= all@.len(),
                task_views(tasks@) == tasks_of(all@.take(i as int), sprint_branch@),
            decreases all@.len() - i,
        {
            proof {
                assert(all@.take(i + 1).drop_last() =~= all@.take(i as int));
                assert(all@.take(i + 1).last() == all@[i as int]);
            }
            let (task, stored) = &all[i];
            let matches_branch = match stored {
                Some(b) => {
                    let stripped = crate::text::strip_prefix_or_keep(b.as_str(), "sprint-");
                    crate::text::str_eq(b.as_str(), sprint_branch) || crate::text::str_eq(stripped.as_str(), sprint_branch)
                },
                None => false,
            };
            if matches_branch {
                let ghost before = task_views(tasks@);
                let copy = task.copy();
                let mut k: usize = 0;
                while k < tasks.len() && !crate::text::str_eq(tasks[k].id.as_str(), copy.id.as_str())
                    invariant
                        k <= tasks@.len(),
                        task_views(tasks@) == before,
                        forall|j: int| 0 <= j < k ==> before[j].0 != task_view(copy).0,
                    decreases tasks@.len() - k,
                {
                    k += 1;
                }
                proof {
                    lemma_upsert_at(before, task_view(copy), k as int);
                }
                if k < tasks.len() {
                    tasks.set(k, copy);
                    assert(task_views(tasks@) =~= before.update(k as int, task_view(*task)));
                } else {
                    tasks.push(copy);
                    assert(task_views(tasks@) =~= before.push(task_view(*task)));
                }
            }
            i += 1;
        }
        assert(all@.take(all@.len() as int) =~= all@);
        Ok(tasks)
    }
}

} // verus!
