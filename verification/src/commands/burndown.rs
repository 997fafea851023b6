//! `sprint burndown`: the sprint to chart, its days, and the story points
//! completed by each day.
use vstd::prelude::*;
use crate::text::{copy_str, concat, push_str};
use crate::stdtext::lowercase;
use crate::errors::error::{Error, error_message};
use crate::vcs::sprint::sprint::{Task, TaskStatus};

verus! {

/// The `sprint burndown` command.
pub struct SprintBurndownCommand;

/// Largest timestamp whose day chrono is sure to give.
pub open spec fn max_timestamp() -> int {
    8_000_000_000_000
}

/// Every completion time of the tasks is one whose day chrono gives.
pub open spec fn completions_in_range(tasks: Seq<Task>) -> bool {
    forall|k: int| 0 <= k < tasks.len() ==> match #[trigger] tasks[k].completed_at {
        Some(c) => c <= max_timestamp(),
        None => true,
    }
}

/// The UTC day of a timestamp, counted from the epoch.
pub open spec fn day_of(ts: int) -> int {
    ts / 86400
}

/// The days of a sprint: how many between its start and end dates, how
/// many have passed by `now` (all of them once `now` is past the end or
/// before the start), and how many remain.
pub open spec fn sprint_days(start: u64, end: u64, now: u64) -> (int, int, int) {
    let total = day_of(end as int) - day_of(start as int);
    let since = day_of(now as int) - day_of(start as int);
    let passed = if since < 0 || since > total { total } else { since };
    (total, passed, total - passed)
}

/// The points a task weighs in the burndown: its story points, one when it has none.
pub open spec fn weight(t: Task) -> int {
    match t.story_points {
        Some(p) => p as int,
        None => 1,
    }
}

/// The day of the sprint on which a task was completed, when it is done
/// and was completed within the sprint's days.
pub open spec fn completion_day(t: Task, start_day: int, total: int) -> Option<int> {
    if t.status == TaskStatus::Done && t.completed_at is Some {
        let d = day_of(t.completed_at->0 as int) - start_day;
        if 0 <= d <= total { Some(d) } else { None }
    } else {
        None
    }
}

/// The points of the tasks completed by day `day` of the sprint.
pub open spec fn points_done_by(tasks: Seq<Task>, start_day: int, total: int, day: int) -> int
    decreases tasks.len(),
{
    if tasks.len() == 0 {
        0
    } else {
        points_done_by(tasks.drop_last(), start_day, total, day) + match completion_day(tasks.last(), start_day, total) {
            Some(d) => if d <= day { weight(tasks.last()) } else { 0 },
            None => 0,
        }
    }
}

/// The points done by a day never exceed those done by a later one.
pub proof fn lemma_points_done_monotone(tasks: Seq<Task>, start_day: int, total: int, a: int, b: int)
    requires
        a <= b,
    ensures
        0 <= points_done_by(tasks, start_day, total, a) <= points_done_by(tasks, start_day, total, b),
    decreases tasks.len(),
{
    if tasks.len() > 0 {
        lemma_points_done_monotone(tasks.drop_last(), start_day, total, a, b);
    }
}

/// The sum of the story points of the tasks.
pub open spec fn story_points_sum(tasks: Seq<Task>) -> int
    decreases tasks.len(),
{
    if tasks.len() == 0 {
        0
    } else {
        story_points_sum(tasks.drop_last()) + match tasks.last().story_points {
            Some(p) => p as int,
            None => 0,
        }
    }
}

impl SprintBurndownCommand {
    /// The branch of a sprint named on the command line.
    pub fn branch_for_name(name: &str) -> (s: String)
        ensures
            s@ == "sprint-"@ + lowercase(name@),
    {
        let l = crate::stdtext::to_lowercase(name);
        concat("sprint-", l.as_str())
    }

    /// The error when the named sprint has no metadata.
    pub fn not_found_error(name: &str) -> (e: Error)
        ensures
            e matches Error::Generic(m) && m@ == "Sprint '"@ + name@ + "' not found"@,
    {
        let mut m = copy_str("Sprint '");
        push_str(&mut m, name);
        push_str(&mut m, "' not found");
        Error::Generic(m)
    }

    /// The error when no sprint is active.
    pub fn no_active_error() -> (e: Error)
        ensures
            e matches Error::Generic(m) && m@ == "No active sprint found"@,
    {
        Error::Generic(copy_str("No active sprint found"))
    }

    /// The error when the sprint's tasks could not be read.
    pub fn tasks_error(cause: &Error) -> (e: Error)
        ensures
            e matches Error::Generic(m) && m@ == "Failed to get tasks: "@ + error_message(*cause),
    {
        let detail = cause.to_message();
        Error::Generic(concat("Failed to get tasks: ", detail.as_str()))
    }

    /// The sum of the tasks' story points.
    pub fn total_story_points(tasks: &Vec<Task>) -> (n: u32)
        requires
            story_points_sum(tasks@) <= u32::MAX,
        ensures
            n == story_points_sum(tasks@),
    {
        let mut n: u32 = 0;
        let mut i: usize = 0;
        while i < tasks.len()
            invariant
                i <= tasks@.len(),
                story_points_sum(tasks@) <= u32::MAX,
                n == story_points_sum(tasks@.take(i as int)),
            decreases tasks@.len() - i,
        {
            assert(tasks@.take(i + 1).drop_last() =~= tasks@.take(i as int));
            proof {
                lemma_sum_prefix(tasks@, i + 1);
                lemma_sum_prefix_bound(tasks@, i + 1);
            }
            if let Some(p) = tasks[i].story_points {
                n = n + p;
            }
            i += 1;
        }
        assert(tasks@.take(tasks@.len() as int) =~= tasks@);
        n
    }

    /// The day of a timestamp.
    fn day(ts: u64) -> (d: i64)
        requires
            ts <= max_timestamp(),
        ensures
            d == day_of(ts as int),
            0 <= d <= 100_000_000,
    {
        assert(0 <= day_of(ts as int) <= 100_000_000) by (nonlinear_arith)
            requires ts <= 8_000_000_000_000int;
        match crate::clock::utc_day(ts as i64) {
            Some(d) => d as i64,
            None => 0,
        }
    }

    /// How many days the sprint has, how many have passed by `now`, and how
    /// many remain.
    pub fn sprint_days(start: u64, end: u64, now: u64) -> (r: (usize, usize, usize))
        requires
            start <= end <= max_timestamp(),
            now <= max_timestamp(),
        ensures
            r.0 as int == sprint_days(start, end, now).0,
            r.1 as int == sprint_days(start, end, now).1,
            r.2 as int == sprint_days(start, end, now).2,
    {
        let s = Self::day(start);
        let e = Self::day(end);
        let c = Self::day(now);
        assert(day_of(start as int) <= day_of(end as int)) by (nonlinear_arith)
            requires start <= end;
        assert(day_of(end as int) <= 100_000_000) by (nonlinear_arith)
            requires end <= 8_000_000_000_000int;
        let total = (e - s) as usize;
        let since = c - s;
        let passed: usize = if since < 0 || since > total as i64 { total } else { since as usize };
        (total, passed, total - passed)
    }

    /// The points of the tasks done by day `day` of the sprint.
    fn done_by(tasks: &Vec<Task>, start_day: i64, total: i64, day: i64) -> (n: u32)
        requires
            completions_in_range(tasks@),
            points_done_by(tasks@, start_day as int, total as int, total as int) <= u32::MAX,
            day <= total,
            0 <= start_day <= 100_000_000,
        ensures
            n == points_done_by(tasks@, start_day as int, total as int, day as int),
    {
        let mut n: u32 = 0;
        let mut i: usize = 0;
        while i < tasks.len()
            invariant
                i <= tasks@.len(),
                day <= total,
                0 <= start_day <= 100_000_000,
                completions_in_range(tasks@),
                points_done_by(tasks@, start_day as int, total as int, total as int) <= u32::MAX,
                n == points_done_by(tasks@.take(i as int), start_day as int, total as int, day as int),
            decreases tasks@.len() - i,
        {
            let ghost pre = tasks@.take(i + 1);
            assert(pre.drop_last() =~= tasks@.take(i as int));
            proof {
                lemma_points_done_monotone(pre, start_day as int, total as int, day as int, total as int);
                lemma_done_prefix(tasks@, i + 1, start_day as int, total as int);
                lemma_done_prefix_bound(tasks@, i + 1, start_day as int, total as int, total as int);
            }
            let t = &tasks[i];
            assert(match tasks@[i as int].completed_at { Some(c) => c <= max_timestamp(), None => true });
            if t.status == TaskStatus::Done {
                if let Some(c) = t.completed_at {
                    let d = Self::day(c) - start_day;
                    if 0 <= d && d <= total && d <= day {
                        let w: u32 = match t.story_points {
                            Some(p) => p,
                            None => 1,
                        };
                        n = n + w;
                    }
                }
            }
            i += 1;
        }
        assert(tasks@.take(tasks@.len() as int) =~= tasks@);
        n
    }

    /// For each day of the sprint, from its first to its last, the day and
    /// the points of the tasks completed by then (a task without story
    /// points weighs one).
    pub fn get_daily_progress(tasks: &Vec<Task>, start: u64, total_days: usize) -> (r: Vec<(usize, u32)>)
        requires
            start <= max_timestamp(),
            total_days <= 100_000_000,
            completions_in_range(tasks@),
            points_done_by(tasks@, day_of(start as int), total_days as int, total_days as int) <= u32::MAX,
        ensures
            r@.len() == total_days + 1,
            forall|d: int| 0 <= d <= total_days ==> (#[trigger] r@[d]).0 == d
                && r@[d].1 == points_done_by(tasks@, day_of(start as int), total_days as int, d),
    {
        let start_day = Self::day(start);
        let total = total_days as i64;
        let mut r: Vec<(usize, u32)> = Vec::new();
        let mut d: usize = 0;
        while d <= total_days
            invariant
                d <= total_days + 1,
                total_days <= 100_000_000,
                total == total_days as i64,
                start_day == day_of(start as int),
                0 <= start_day <= 100_000_000,
                r@.len() == d,
                completions_in_range(tasks@),
                points_done_by(tasks@, start_day as int, total as int, total as int) <= u32::MAX,
                forall|e: int| 0 <= e < d ==> (#[trigger] r@[e]).0 == e
                    && r@[e].1 == points_done_by(tasks@, start_day as int, total as int, e),
            decreases total_days + 1 - d,
        {
            let n = Self::done_by(tasks, start_day, total, d as i64);
            r.push((d, n));
            d += 1;
        }
        r
    }
}

/// The sum over a prefix extends by the next task.
proof fn lemma_sum_prefix(tasks: Seq<Task>, k: int)
    requires
        0 < k <= tasks.len(),
    ensures
        story_points_sum(tasks.take(k)) == story_points_sum(tasks.take(k - 1)) + match tasks[k - 1].story_points {
            Some(p) => p as int,
            None => 0,
        },
{
    assert(tasks.take(k).drop_last() =~= tasks.take(k - 1));
}

/// A prefix of the tasks has no more story points than all of them.
proof fn lemma_sum_prefix_bound(tasks: Seq<Task>, k: int)
    requires
        0 <= k <= tasks.len(),
    ensures
        story_points_sum(tasks.take(k)) <= story_points_sum(tasks),
    decreases tasks.len(),
{
    if k == tasks.len() {
        assert(tasks.take(k) =~= tasks);
    } else {
        lemma_sum_prefix_bound(tasks.drop_last(), k);
        assert(tasks.drop_last().take(k) =~= tasks.take(k));
    }
}

/// A prefix of the tasks has no more points done than all of them.
proof fn lemma_done_prefix_bound(tasks: Seq<Task>, k: int, start_day: int, total: int, day: int)
    requires
        0 <= k <= tasks.len(),
    ensures
        points_done_by(tasks.take(k), start_day, total, day) <= points_done_by(tasks, start_day, total, day),
    decreases tasks.len(),
{
    if k == tasks.len() {
        assert(tasks.take(k) =~= tasks);
    } else {
        lemma_done_prefix_bound(tasks.drop_last(), k, start_day, total, day);
        assert(tasks.drop_last().take(k) =~= tasks.take(k));
    }
}

/// The points over a prefix extend by the next task.
proof fn lemma_done_prefix(tasks: Seq<Task>, k: int, start_day: int, total: int)
    requires
        0 < k <= tasks.len(),
    ensures
        forall|day: int| points_done_by(tasks.take(k), start_day, total, day)
            == points_done_by(tasks.take(k - 1), start_day, total, day) + match completion_day(tasks[k - 1], start_day, total) {
                Some(d) => if d <= day { weight(tasks[k - 1]) } else { 0 },
                None => 0,
            },
{
    assert(tasks.take(k).drop_last() =~= tasks.take(k - 1));
}

} // verus!
