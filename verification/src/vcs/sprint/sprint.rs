//! Sprints and their tasks.
use vstd::prelude::*;
use crate::errors::error::Error;
use crate::vcs::branch_metadata::{SprintMetadata, end_of, dashed};
use crate::stdtext::lowercase;

verus! {

/// Progress of a task.
#[derive(Debug, Clone, Copy, PartialEq, Eq, Structural)]
pub enum TaskStatus {
    Todo,
    InProgress,
    Done,
}

/// A task of a sprint.
#[derive(Debug, Clone)]
pub struct Task {
    pub id: String,
    pub description: String,
    pub story_points: Option<u32>,
    pub status: TaskStatus,
    pub created_at: u64,
    pub started_at: Option<u64>,
    pub completed_at: Option<u64>,
    pub commits: Vec<String>,
}

/// Story points of a task, zero when it has none.
pub open spec fn points_of(t: Task) -> int {
    match t.story_points {
        Some(p) => p as int,
        None => 0,
    }
}

/// Sum of the story points of the tasks.
pub open spec fn total_points(tasks: Seq<Task>) -> int
    decreases tasks.len(),
{
    if tasks.len() == 0 {
        0
    } else {
        total_points(tasks.drop_last()) + points_of(tasks.last())
    }
}

/// The points of a prefix of the tasks count no more than those of all.
pub proof fn lemma_total_points_prefix(tasks: Seq<Task>, i: int)
    requires
        0 <= i <= tasks.len(),
    ensures
        total_points(tasks.take(i)) <= total_points(tasks),
    decreases tasks.len() - i,
{
    if i < tasks.len() {
        lemma_total_points_prefix(tasks, i + 1);
        assert(tasks.take(i + 1).drop_last() =~= tasks.take(i));
    } else {
        assert(tasks.take(i) =~= tasks);
    }
}

/// Sum of the story points of the finished tasks.
pub open spec fn done_points(tasks: Seq<Task>) -> int
    decreases tasks.len(),
{
    if tasks.len() == 0 {
        0
    } else {
        done_points(tasks.drop_last()) + if tasks.last().status == TaskStatus::Done {
            points_of(tasks.last())
        } else {
            0
        }
    }
}

/// No two tasks share an id.
pub open spec fn ids_unique(tasks: Seq<Task>) -> bool {
    forall|i: int, j: int| 0 <= i < j < tasks.len() ==> tasks[i].id@ != tasks[j].id@
}

/// Some task has id `id`.
pub open spec fn has_id(tasks: Seq<Task>, id: Seq<char>) -> bool {
    exists|i: int| 0 <= i < tasks.len() && tasks[i].id@ == id
}

/// A sprint with its tasks.
#[derive(Debug)]
pub struct Sprint {
    pub name: String,
    pub start_date: u64,
    pub end_date: u64,
    pub tasks: Vec<Task>,
    pub branch: String,
    pub total_story_points: u32,
    pub completed_story_points: u32,
}

impl Task {
    /// A new task, to do, created now.
    pub fn new(id: String, description: String, story_points: Option<u32>) -> (t: Self)
        ensures
            t.id@ == id@,
            t.description@ == description@,
            t.story_points == story_points,
            t.status == TaskStatus::Todo,
            t.started_at is None,
            t.completed_at is None,
            t.commits@.len() == 0,
    {
        let now = crate::clock::now_secs();
        Self::new_at(id, description, story_points, now)
    }

    /// A new task, to do, created at `now`.
    pub fn new_at(id: String, description: String, story_points: Option<u32>, now: u64) -> (t: Self)
        ensures
            t.id@ == id@,
            t.description@ == description@,
            t.story_points == story_points,
            t.status == TaskStatus::Todo,
            t.created_at == now,
            t.started_at is None,
            t.completed_at is None,
            t.commits@.len() == 0,
    {
        Task {
            id,
            description,
            story_points,
            status: TaskStatus::Todo,
            created_at: now,
            started_at: None,
            completed_at: None,
            commits: Vec::new(),
        }
    }
}

proof fn lemma_points_push(tasks: Seq<Task>, t: Task)
    ensures
        total_points(tasks.push(t)) == total_points(tasks) + points_of(t),
        done_points(tasks.push(t)) == done_points(tasks) + if t.status == TaskStatus::Done { points_of(t) } else { 0 },
{
    assert(tasks.push(t).drop_last() =~= tasks);
}

proof fn lemma_points_nonneg(tasks: Seq<Task>)
    ensures
        total_points(tasks) >= 0,
        done_points(tasks) >= 0,
        done_points(tasks) <= total_points(tasks),
    decreases tasks.len(),
{
    if tasks.len() > 0 {
        lemma_points_nonneg(tasks.drop_last());
    }
}

/// Changing one task changes the sums by the change of that task.
proof fn lemma_points_update(tasks: Seq<Task>, i: int, t: Task)
    requires
        0 <= i < tasks.len(),
    ensures
        total_points(tasks.update(i, t)) == total_points(tasks) - points_of(tasks[i]) + points_of(t),
        done_points(tasks.update(i, t)) == done_points(tasks)
            - (if tasks[i].status == TaskStatus::Done { points_of(tasks[i]) } else { 0 })
            + (if t.status == TaskStatus::Done { points_of(t) } else { 0 }),
    decreases tasks.len(),
{
    let u = tasks.update(i, t);
    if i == tasks.len() - 1 {
        assert(u.drop_last() =~= tasks.drop_last());
    } else {
        lemma_points_update(tasks.drop_last(), i, t);
        assert(u.drop_last() =~= tasks.drop_last().update(i, t));
    }
}

/// The end of a sprint starting at `now` and lasting `days`; the largest
/// timestamp when that end is past it.
pub open spec fn sprint_end(now: u64, days: u32) -> u64 {
    if end_of(now, days) <= u64::MAX { end_of(now, days) as u64 } else { u64::MAX }
}

impl Sprint {
    /// Whether the story points of the tasks add up to a count that fits in
    /// 32 bits, as a sprint's totals must.
    pub fn points_fit(tasks: &Vec<Task>) -> (r: bool)
        ensures
            r == (total_points(tasks@) <= u32::MAX),
    {
        let mut sum: u64 = 0;
        let mut i: usize = 0;
        assert(tasks@.take(0) =~= Seq::<Task>::empty());
        while i < tasks.len()
            invariant
                i <= tasks@.len(),
                sum == total_points(tasks@.take(i as int)),
                sum <= u32::MAX,
            decreases tasks@.len() - i,
        {
            let p: u64 = match tasks[i].story_points {
                Some(x) => x as u64,
                None => 0,
            };
            proof {
                assert(tasks@.take(i + 1).drop_last() =~= tasks@.take(i as int));
                assert(tasks@.take(i + 1).last() == tasks@[i as int]);
            }
            if sum + p > 0xffff_ffff {
                proof {
                    lemma_total_points_prefix(tasks@, i + 1);
                }
                return false;
            }
            sum = sum + p;
            i += 1;
        }
        assert(tasks@.take(tasks@.len() as int) =~= tasks@);
        true
    }
    /// Well-formed: task ids are unique and the point totals are those of the tasks.
    pub open spec fn wf(&self) -> bool {
        &&& ids_unique(self.tasks@)
        &&& self.total_story_points == total_points(self.tasks@)
        &&& self.completed_story_points == done_points(self.tasks@)
    }

    /// A new sprint starting now.
    pub fn new(name: String, duration_days: u32) -> (s: Self)
        ensures
            s.name@ == name@,
            s.tasks@.len() == 0,
            s.branch@ == "sprint-"@ + lowercase(dashed(name@)),
            s.end_date == sprint_end(s.start_date, duration_days),
            s.wf(),
    {
        let now = crate::clock::now_secs();
        Self::new_at(name, duration_days, now)
    }

    /// A new sprint starting at `now`, named after `name`, with no tasks.
    pub fn new_at(name: String, duration_days: u32, now: u64) -> (s: Self)
        ensures
            s.name@ == name@,
            s.start_date == now,
            s.end_date == sprint_end(now, duration_days),
            s.tasks@.len() == 0,
            s.branch@ == "sprint-"@ + lowercase(dashed(name@)),
            s.total_story_points == 0,
            s.completed_story_points == 0,
            s.wf(),
    {
        let span: u64 = duration_days as u64 * 86400;
        let end_date = match now.checked_add(span) {
            Some(e) => e,
            None => u64::MAX,
        };
        let d = crate::vcs::branch_metadata::replace_spaces(name.as_str());
        let l = crate::stdtext::to_lowercase(d.as_str());
        let branch = crate::text::concat("sprint-", l.as_str());
        let s = Sprint {
            name,
            start_date: now,
            end_date,
            tasks: Vec::new(),
            branch,
            total_story_points: 0,
            completed_story_points: 0,
        };
        assert(s.tasks@ =~= Seq::<Task>::empty());
        s
    }

    /// Position of the task with id `id`.
    pub fn find_task(&self, id: &str) -> (r: Option<usize>)
        ensures
            r matches Some(i) ==> i < self.tasks@.len() && self.tasks@[i as int].id@ == id@,
            r is None ==> !has_id(self.tasks@, id@),
    {
        let mut i: usize = 0;
        while i < self.tasks.len()
            invariant
                i <= self.tasks@.len(),
                forall|j: int| 0 <= j < i ==> self.tasks@[j].id@ != id@,
            decreases self.tasks@.len() - i,
        {
            if crate::text::str_eq(self.tasks[i].id.as_str(), id) {
                return Some(i);
            }
            i += 1;
        }
        None
    }

    /// Adds a task; refused when a task with the same id exists.
    pub fn add_task(&mut self, task: Task) -> (r: Result<(), Error>)
        requires
            !has_id(old(self).tasks@, task.id@) ==>
                old(self).total_story_points + points_of(task) <= u32::MAX,
        ensures
            r is Err <==> has_id(old(self).tasks@, task.id@),
            r is Err ==> *final(self) == *old(self),
            r is Err ==> (r matches Err(Error::Generic(m)) && m@ == "Task with ID "@ + task.id@ + " already exists"@),
            r is Ok ==> final(self).tasks@ == old(self).tasks@.push(task),
            r is Ok ==> final(self).total_story_points == old(self).total_story_points + points_of(task),
            r is Ok ==> final(self).completed_story_points == old(self).completed_story_points,
            final(self).name == old(self).name,
            final(self).branch == old(self).branch,
            final(self).start_date == old(self).start_date,
            final(self).end_date == old(self).end_date,
            old(self).wf() && task.status != TaskStatus::Done ==> final(self).wf(),
    {
        if self.find_task(task.id.as_str()).is_some() {
            let mut m = crate::text::concat("Task with ID ", task.id.as_str());
            crate::text::push_str(&mut m, " already exists");
            return Err(Error::Generic(m));
        }
        if let Some(points) = task.story_points {
            self.total_story_points = self.total_story_points + points;
        }
        let ghost before = self.tasks@;
        self.tasks.push(task);
        proof {
            lemma_points_push(before, task);
            if old(self).wf() && task.status != TaskStatus::Done {
                assert forall|i: int, j: int| 0 <= i < j < self.tasks@.len() implies
                    self.tasks@[i].id@ != self.tasks@[j].id@ by {
                    if j == before.len() {
                        assert(self.tasks@[i] == before[i]);
                    } else {
                        assert(self.tasks@[i] == before[i]);
                        assert(self.tasks@[j] == before[j]);
                    }
                }
            }
        }
        Ok(())
    }

    /// Marks a task finished now: refused when no task has the id or the
    /// task is already finished; a task still to do is started when it is
    /// finished.
    pub fn complete_task(&mut self, task_id: &str) -> (r: Result<(), Error>)
        requires
            old(self).wf(),
            old(self).total_story_points <= u32::MAX,
        ensures
            final(self).wf(),
            r is Ok <==> has_id(old(self).tasks@, task_id@) && exists|i: int|
                0 <= i < old(self).tasks@.len() && old(self).tasks@[i].id@ == task_id@
                && old(self).tasks@[i].status != TaskStatus::Done,
            r is Err ==> *final(self) == *old(self),
            !has_id(old(self).tasks@, task_id@) ==> (r matches Err(Error::Generic(m))
                && m@ == "Task with ID "@ + task_id@ + " not found"@),
            has_id(old(self).tasks@, task_id@) && r is Err ==> (r matches Err(Error::Generic(m))
                && m@ == "Task "@ + task_id@ + " is already completed"@),
            r is Ok ==> forall|i: int| 0 <= i < old(self).tasks@.len() && (#[trigger] old(self).tasks@[i]).id@ == task_id@ ==> {
                let t = old(self).tasks@[i];
                let n = final(self).tasks@[i];
                &&& final(self).tasks@ == old(self).tasks@.update(i, n)
                &&& n.status == TaskStatus::Done
                &&& n.completed_at is Some
                &&& n.started_at == (if t.status == TaskStatus::Todo { n.completed_at } else { t.started_at })
                &&& n.id@ == t.id@ && n.description@ == t.description@ && n.story_points == t.story_points
                &&& n.created_at == t.created_at && n.commits@ == t.commits@
                &&& final(self).completed_story_points == old(self).completed_story_points + points_of(t)
            },
            final(self).total_story_points == old(self).total_story_points,
            final(self).name == old(self).name,
            final(self).branch == old(self).branch,
            final(self).start_date == old(self).start_date,
            final(self).end_date == old(self).end_date,
    {
        let now = crate::clock::now_secs();
        self.complete_task_at(task_id, now)
    }

    /// Marks a task finished at `now`: refused when no task has the id or the
    /// task is already finished; a task still to do is started at `now` too.
    pub fn complete_task_at(&mut self, task_id: &str, now: u64) -> (r: Result<(), Error>)
        requires
            old(self).wf(),
        ensures
            final(self).wf(),
            r is Ok <==> exists|i: int|
                0 <= i < old(self).tasks@.len() && old(self).tasks@[i].id@ == task_id@
                && old(self).tasks@[i].status != TaskStatus::Done,
            r is Err ==> *final(self) == *old(self),
            !has_id(old(self).tasks@, task_id@) ==> (r matches Err(Error::Generic(m))
                && m@ == "Task with ID "@ + task_id@ + " not found"@),
            has_id(old(self).tasks@, task_id@) && r is Err ==> (r matches Err(Error::Generic(m))
                && m@ == "Task "@ + task_id@ + " is already completed"@),
            r is Ok ==> forall|i: int| 0 <= i < old(self).tasks@.len() && (#[trigger] old(self).tasks@[i]).id@ == task_id@ ==> {
                let t = old(self).tasks@[i];
                let n = final(self).tasks@[i];
                &&& t.id@ == task_id@
                &&& final(self).tasks@ == old(self).tasks@.update(i, n)
                &&& n.status == TaskStatus::Done
                &&& n.completed_at == Some(now)
                &&& n.started_at == (if t.status == TaskStatus::Todo { Some(now) } else { t.started_at })
                &&& n.id@ == t.id@ && n.description@ == t.description@ && n.story_points == t.story_points
                &&& n.created_at == t.created_at && n.commits@ == t.commits@
                &&& final(self).completed_story_points == old(self).completed_story_points + points_of(t)
            },
            final(self).total_story_points == old(self).total_story_points,
            final(self).name == old(self).name,
            final(self).branch == old(self).branch,
            final(self).start_date == old(self).start_date,
            final(self).end_date == old(self).end_date,
    {
        let idx = match self.find_task(task_id) {
            Some(i) => i,
            None => {
                let mut m = crate::text::concat("Task with ID ", task_id);
                crate::text::push_str(&mut m, " not found");
                return Err(Error::Generic(m));
            },
        };
        let t = &self.tasks[idx];
        if t.status == TaskStatus::Done {
            let mut m = crate::text::concat("Task ", task_id);
            crate::text::push_str(&mut m, " is already completed");
            return Err(Error::Generic(m));
        }
        let started_at = if t.status == TaskStatus::Todo { Some(now) } else { t.started_at };
        let commits = t.commits.clone();
        proof {
            assert forall|k: int| 0 <= k < commits@.len() implies commits@[k] == t.commits@[k] by {
                assert(cloned::<String>(t.commits[k], commits[k]));
            }
            assert(commits@ =~= t.commits@);
        }
        let task = Task {
            id: t.id.clone(),
            description: t.description.clone(),
            story_points: t.story_points,
            status: TaskStatus::Done,
            created_at: t.created_at,
            started_at,
            completed_at: Some(now),
            commits,
        };
        proof {
            lemma_points_update(self.tasks@, idx as int, task);
            lemma_points_nonneg(self.tasks@.update(idx as int, task));
        }
        if let Some(points) = task.story_points {
            self.completed_story_points = self.completed_story_points + points;
        }
        let ghost before = self.tasks@;
        self.tasks.set(idx, task);
        proof {
            assert forall|i: int, j: int| 0 <= i < j < self.tasks@.len() implies
                self.tasks@[i].id@ != self.tasks@[j].id@ by {
                assert(before[i].id@ != before[j].id@);
            }
        }
        Ok(())
    }

    /// How long a task took, in seconds, once started and completed; an
    /// error when no task has the id.
    pub fn get_task_duration(&self, task_id: &str) -> (r: Result<Option<u64>, Error>)
        requires
            forall|i: int| 0 <= i < self.tasks@.len() && (#[trigger] self.tasks@[i]).id@ == task_id@
                ==> started_before_completed(self.tasks@[i]),
        ensures
            r is Err <==> !has_id(self.tasks@, task_id@),
            r is Err ==> (r matches Err(Error::Generic(m)) && m@ == "Task with ID "@ + task_id@ + " not found"@),
            r matches Ok(d) ==> exists|i: int| 0 <= i < self.tasks@.len() && self.tasks@[i].id@ == task_id@ && d == duration_of(
                #[trigger] self.tasks@[i]),
    {
        match self.find_task(task_id) {
            None => {
                let mut m = crate::text::concat("Task with ID ", task_id);
                crate::text::push_str(&mut m, " not found");
                Err(Error::Generic(m))
            },
            Some(i) => {
                let t = &self.tasks[i];
                assert(started_before_completed(self.tasks@[i as int]));
                match (t.started_at, t.completed_at) {
                    (Some(start), Some(end)) => Ok(Some(end - start)),
                    _ => Ok(None),
                }
            },
        }
    }

    /// The sprint has not ended at time `now`.
    pub open spec fn active_at(&self, now: u64) -> bool {
        now <= self.end_date
    }

    /// Whether the sprint has not ended yet: whether it is active at the
    /// time the clock reads (which is not known here).
    pub fn is_active(&self) -> (r: bool)
        ensures
            exists|now: u64| r == #[trigger] self.active_at(now),
            self.end_date == u64::MAX ==> r,
    {
        let now = crate::clock::now_secs();
        let r = self.is_active_at(now);
        assert(r == self.active_at(now));
        r
    }

    /// Whether the sprint has not ended at time `now`.
    pub fn is_active_at(&self, now: u64) -> (r: bool)
        ensures
            r == (now <= self.end_date),
    {
        now <= self.end_date
    }

    /// The sprint that metadata describes on `branch`, holding `tasks`, with
    /// its point totals counted from them.
    pub fn from_metadata(metadata: &SprintMetadata, branch: &str, tasks: Vec<Task>) -> (s: Sprint)
        requires
            end_of(metadata.start_timestamp, metadata.duration_days) <= u64::MAX,
            total_points(tasks@) <= u32::MAX,
        ensures
            s.name@ == metadata.name@,
            s.start_date == metadata.start_timestamp,
            s.end_date == end_of(metadata.start_timestamp, metadata.duration_days),
            s.tasks@ == tasks@,
            s.branch@ == branch@,
            s.total_story_points == total_points(tasks@),
            s.completed_story_points == done_points(tasks@),
    {
        let mut total: u32 = 0;
        let mut done: u32 = 0;
        let mut i: usize = 0;
        while i < tasks.len()
            invariant
                i <= tasks@.len(),
                total_points(tasks@) <= u32::MAX,
                total == total_points(tasks@.take(i as int)),
                done == done_points(tasks@.take(i as int)),
            decreases tasks@.len() - i,
        {
            proof {
                assert(tasks@.take(i + 1) =~= tasks@.take(i as int).push(tasks@[i as int]));
                lemma_points_push(tasks@.take(i as int), tasks@[i as int]);
                lemma_points_prefix(tasks@, i + 1);
                lemma_points_nonneg(tasks@.take(i + 1));
            }
            let t = &tasks[i];
            if let Some(p) = t.story_points {
                total = total + p;
                if t.status == TaskStatus::Done {
                    done = done + p;
                }
            }
            i += 1;
        }
        assert(tasks@.take(tasks@.len() as int) =~= tasks@);
        Sprint {
            name: metadata.name.clone(),
            start_date: metadata.start_timestamp,
            end_date: metadata.end_timestamp(),
            tasks,
            branch: branch.to_string(),
            total_story_points: total,
            completed_story_points: done,
        }
    }
}

/// A task's start comes no later than its completion.
pub open spec fn started_before_completed(t: Task) -> bool {
    match (t.started_at, t.completed_at) {
        (Some(s), Some(e)) => s <= e,
        _ => true,
    }
}

/// Seconds from a task's start to its completion, once both are known.
pub open spec fn duration_of(t: Task) -> Option<u64> {
    match (t.started_at, t.completed_at) {
        (Some(s), Some(e)) => Some((e - s) as u64),
        _ => None,
    }
}

/// The points of a prefix are no more than those of the whole.
proof fn lemma_points_prefix(tasks: Seq<Task>, k: int)
    requires
        0 <= k <= tasks.len(),
    ensures
        total_points(tasks.take(k)) <= total_points(tasks),
    decreases tasks.len() - k,
{
    if k < tasks.len() {
        lemma_points_prefix(tasks, k + 1);
        assert(tasks.take(k + 1) =~= tasks.take(k).push(tasks[k]));
        lemma_points_push(tasks.take(k), tasks[k]);
    } else {
        assert(tasks.take(k) =~= tasks);
    }
}

} // verus!
