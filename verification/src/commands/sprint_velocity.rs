//! How many story points recent sprints planned and completed.
use vstd::prelude::*;
use crate::vcs::sprint::sprint::{Task, TaskStatus, total_points, done_points};

verus! {

/// Shows the velocity of the recent sprints.
pub struct SprintVelocityCommand;

/// The sprints shown: the last ten.
pub open spec fn recent<T>(all: Seq<T>) -> Seq<T> {
    if all.len() > 10 { all.skip(all.len() - 10) } else { all }
}

/// A prefix of the tasks plans no more than all of them, and completes no
/// more than it plans.
proof fn lemma_prefix_points(tasks: Seq<Task>, k: int)
    requires
        0 <= k <= tasks.len(),
    ensures
        total_points(tasks.take(k)) <= total_points(tasks),
        done_points(tasks.take(k)) <= total_points(tasks.take(k)),
    decreases tasks.len(),
{
    if k == tasks.len() {
        assert(tasks.take(k) =~= tasks);
        if tasks.len() > 0 {
            lemma_prefix_points(tasks.drop_last(), k - 1);
            assert(tasks.drop_last().take(k - 1) =~= tasks.drop_last());
        }
    } else {
        lemma_prefix_points(tasks.drop_last(), k);
        assert(tasks.drop_last().take(k) =~= tasks.take(k));
        assert(tasks.drop_last().take(tasks.len() - 1) =~= tasks.drop_last());
        lemma_prefix_points(tasks.drop_last(), tasks.len() - 1);
    }
}

impl SprintVelocityCommand {
    /// The story points a sprint's tasks plan, and those of its finished
    /// tasks.
    pub fn sprint_points(tasks: &Vec<Task>) -> (r: (u32, u32))
        requires
            total_points(tasks@) <= u32::MAX,
        ensures
            r.0 == total_points(tasks@),
            r.1 == done_points(tasks@),
    {
        let mut planned: u32 = 0;
        let mut completed: u32 = 0;
        let mut i: usize = 0;
        while i < tasks.len()
            invariant
                i <= tasks@.len(),
                total_points(tasks@) <= u32::MAX,
                planned == total_points(tasks@.take(i as int)),
                completed == done_points(tasks@.take(i as int)),
            decreases tasks@.len() - i,
        {
            assert(tasks@.take(i + 1).drop_last() =~= tasks@.take(i as int));
            proof {
                lemma_prefix_points(tasks@, i + 1);
            }
            if let Some(p) = tasks[i].story_points {
                planned = planned + p;
                if tasks[i].status == TaskStatus::Done {
                    completed = completed + p;
                }
            }
            i += 1;
        }
        assert(tasks@.take(tasks@.len() as int) =~= tasks@);
        (planned, completed)
    }

    /// The last ten sprints, in order.
    pub fn recent_sprints<T>(all: Vec<T>) -> (r: Vec<T>)
        ensures
            r@ == recent(all@),
    {
        let ghost whole = all@;
        let mut all = all;
        let n = all.len();
        if n > 10 {
            let r = all.split_off(n - 10);
            assert(r@ =~= recent(whole));
            r
        } else {
            all
        }
    }
}

} // verus!
