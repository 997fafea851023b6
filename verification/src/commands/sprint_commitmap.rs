//! When the commits of a sprint were made: a count per day and hour.
use vstd::prelude::*;

verus! {

/// Shows the commits of a sprint by day and hour.
pub struct SprintCommitMapCommand;

/// Largest distance from the epoch, in seconds, of a time whose day and
/// hour chrono is sure to give.
pub open spec fn time_range() -> int {
    8_000_000_000_000
}

/// The UTC day of a time, counted from the epoch.
pub open spec fn day_of_time(t: int) -> int {
    t / 86400
}

/// The UTC hour of a time.
pub open spec fn hour_of_time(t: int) -> int {
    (t % 86400) / 3600
}

/// How many of the times fall in a day and hour.
pub open spec fn commits_at(times: Seq<i64>, day: int, hour: int) -> nat
    decreases times.len(),
{
    if times.len() == 0 {
        0
    } else {
        commits_at(times.drop_last(), day, hour)
            + if day_of_time(times.last() as int) == day && hour_of_time(times.last() as int) == hour { 1nat } else { 0nat }
    }
}

/// Commits per hour of each day of a sprint, from its first day.
pub struct CommitMap {
    pub first_day: i64,
    pub days: Vec<Vec<u32>>,
}

/// No more of the times fall in an hour than there are times.
proof fn lemma_commits_at_bound(times: Seq<i64>, day: int, hour: int)
    ensures
        commits_at(times, day, hour) <= times.len(),
    decreases times.len(),
{
    if times.len() > 0 {
        lemma_commits_at_bound(times.drop_last(), day, hour);
    }
}

impl SprintCommitMapCommand {
    /// The day of a time.
    fn day(t: i64) -> (d: i64)
        requires
            -time_range() <= t <= time_range(),
        ensures
            d == day_of_time(t as int),
    {
        match crate::clock::utc_day(t) {
            Some(d) => d as i64,
            None => 0,
        }
    }

    /// The counts of the commits made at `commit_times` on each day from
    /// the sprint's start to its end, hour by hour.
    pub fn heatmap(start_ts: u64, end_ts: u64, commit_times: &Vec<i64>) -> (m: CommitMap)
        requires
            start_ts <= time_range(),
            end_ts <= time_range(),
            commit_times@.len() < u32::MAX,
            forall|k: int| 0 <= k < commit_times@.len() ==> -time_range() <= #[trigger] commit_times@[k] <= time_range(),
        ensures
            m.first_day == day_of_time(start_ts as int),
            m.days@.len() == if day_of_time(end_ts as int) >= day_of_time(start_ts as int) {
                day_of_time(end_ts as int) - day_of_time(start_ts as int) + 1
            } else {
                0
            },
            forall|d: int| 0 <= d < m.days@.len() ==> (#[trigger] m.days@[d])@.len() == 24,
            forall|d: int, h: int| 0 <= d < m.days@.len() && 0 <= h < 24 ==>
                #[trigger] m.days@[d]@[h] == commits_at(commit_times@, m.first_day + d, h),
    {
        let first = Self::day(start_ts as i64);
        let last = Self::day(end_ts as i64);
        let mut days: Vec<Vec<u32>> = Vec::new();
        let n: i64 = if last >= first { last - first + 1 } else { 0 };
        assert(0 <= day_of_time(start_ts as int) <= 100_000_000) by (nonlinear_arith)
            requires start_ts <= 8_000_000_000_000int, start_ts >= 0;
        assert(0 <= day_of_time(end_ts as int) <= 100_000_000) by (nonlinear_arith)
            requires end_ts <= 8_000_000_000_000int, end_ts >= 0;
        let mut d: i64 = 0;
        while d < n
            invariant
                0 <= d <= n,
                n <= 100_000_001,
                days@.len() == d,
                forall|a: int| 0 <= a < d ==> (#[trigger] days@[a])@.len() == 24,
                forall|a: int, h: int| 0 <= a < d && 0 <= h < 24 ==> #[trigger] days@[a]@[h] == 0,
            decreases n - d,
        {
            let mut row: Vec<u32> = Vec::new();
            let mut h: usize = 0;
            while h < 24
                invariant
                    h <= 24,
                    row@.len() == h,
                    forall|b: int| 0 <= b < h ==> row@[b] == 0,
                decreases 24 - h,
            {
                row.push(0);
                h += 1;
            }
            days.push(row);
            d += 1;
        }
        let mut i: usize = 0;
        assert(commit_times@.take(0) =~= Seq::<i64>::empty());
        while i < commit_times.len()
            invariant
                i <= commit_times@.len(),
                commit_times@.len() < u32::MAX,
                forall|k: int| 0 <= k < commit_times@.len() ==> -time_range() <= #[trigger] commit_times@[k] <= time_range(),
                days@.len() == n,
                n >= 0,
                first == day_of_time(start_ts as int),
                n == if last >= first { last - first + 1 } else { 0 },
                forall|a: int| 0 <= a < n ==> (#[trigger] days@[a])@.len() == 24,
                forall|a: int, h: int| 0 <= a < n && 0 <= h < 24 ==>
                    #[trigger] days@[a]@[h] == commits_at(commit_times@.take(i as int), first + a, h),
            decreases commit_times@.len() - i,
        {
            let t = commit_times[i];
            let ghost pre = commit_times@.take(i as int);
            assert(commit_times@.take(i + 1).drop_last() =~= pre);
            assert(commit_times@.take(i + 1).last() == t);
            let day = Self::day(t);
            let hour = match crate::clock::utc_hour(t) {
                Some(h) => h as usize,
                None => 0,
            };
            assert(hour as int == hour_of_time(t as int));
            if day >= first && day - first < n {
                let idx = (day - first) as usize;
                let mut row: Vec<u32> = Vec::new();
                std::mem::swap(&mut row, &mut days[idx]);
                proof {
                    lemma_commits_at_bound(pre, day as int, hour as int);
                }
                let v = row[hour];
                row.set(hour, v + 1);
                std::mem::swap(&mut row, &mut days[idx]);
            }
            i += 1;
        }
        assert(commit_times@.take(commit_times@.len() as int) =~= commit_times@);
        CommitMap { first_day: first, days }
    }

    /// Scrolls down by `step` lines, up to `max_scroll`.
    pub fn scroll_down(offset: usize, step: usize, max_scroll: usize) -> (r: usize)
        requires
            offset + step <= usize::MAX,
        ensures
            r == if offset + step < max_scroll { offset + step } else { max_scroll as int },
    {
        if offset + step < max_scroll { offset + step } else { max_scroll }
    }

    /// Scrolls up by `step` lines, down to zero.
    pub fn scroll_up(offset: usize, step: usize) -> (r: usize)
        ensures
            r == if offset >= step { offset - step } else { 0 },
    {
        if offset >= step { offset - step } else { 0 }
    }

    /// How far the view can scroll: the days that do not fit.
    pub fn max_scroll(days: usize, visible: usize) -> (r: usize)
        ensures
            r == if days >= visible { days - visible } else { 0 },
    {
        if days >= visible { days - visible } else { 0 }
    }
}

} // verus!
