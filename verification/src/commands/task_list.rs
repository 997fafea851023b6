//! `task list`: the tasks shown, how the list is filtered and navigated,
//! and what each line says.
use vstd::prelude::*;
use crate::text::{copy_str, concat, push_str, str_eq, contains_seq, first_occurrence};
use crate::numeral::decimal;
use crate::vcs::sprint::sprint::TaskStatus;

verus! {

/// The `task list` command.
pub struct TaskListCommand {
    pub repo_path: String,
    pub args: Vec<String>,
}

/// A task as the list shows it.
#[derive(Debug, Clone)]
pub struct TaskInfo {
    pub id: String,
    pub description: String,
    pub story_points: Option<u32>,
    pub status: TaskStatus,
    pub sprint_branch: Option<String>,
}

/// Which tasks the list shows.
#[derive(Debug, Clone, Copy, PartialEq, Eq, Structural)]
pub enum FilterMode {
    All,
    CurrentSprint,
    ActiveTasks,
}

/// A list and the position selected in it.
#[derive(Debug)]
pub struct StatefulList<T> {
    pub items: Vec<T>,
    pub selected: Option<usize>,
}

impl<T> StatefulList<T> {
    /// A list with its first item selected, if it has one.
    pub fn with_items(items: Vec<T>) -> (l: Self)
        ensures
            l.items@ == items@,
            l.selected == (if items@.len() > 0 { Some(0usize) } else { None }),
    {
        let selected = if items.len() > 0 { Some(0usize) } else { None };
        StatefulList { items, selected }
    }

    /// Selects the next item, the first after the last.
    pub fn next(&mut self)
        requires
            old(self).selected is Some ==> old(self).items@.len() > 0,
        ensures
            final(self).items@ == old(self).items@,
            final(self).selected == Some(match old(self).selected {
                Some(i) => if i >= old(self).items@.len() - 1 { 0usize } else { (i + 1) as usize },
                None => 0usize,
            }),
    {
        let i = match self.selected {
            Some(i) => if i >= self.items.len() - 1 { 0 } else { i + 1 },
            None => 0,
        };
        self.selected = Some(i);
    }

    /// Selects the previous item, the last before the first.
    pub fn previous(&mut self)
        requires
            old(self).selected matches Some(i) && i == 0 ==> old(self).items@.len() > 0,
        ensures
            final(self).items@ == old(self).items@,
            final(self).selected == Some(match old(self).selected {
                Some(i) => if i == 0 { (old(self).items@.len() - 1) as usize } else { (i - 1) as usize },
                None => 0usize,
            }),
    {
        let i = match self.selected {
            Some(i) => if i == 0 { self.items.len() - 1 } else { i - 1 },
            None => 0,
        };
        self.selected = Some(i);
    }
}

/// What stands before the first `-task-` of a branch name (all of it when
/// there is none).
pub open spec fn before_task(b: Seq<char>) -> Seq<char> {
    match first_occurrence(b, "-task-"@) {
        Some(i) => b.take(i),
        None => b,
    }
}

/// A task passes the filter: every task; a task of the current sprint
/// (its sprint branch is the current branch, or holds what stands before
/// `-task-` in the current task branch); a task in progress.
pub open spec fn passes(t: TaskInfo, mode: FilterMode, current: Seq<char>) -> bool {
    match mode {
        FilterMode::All => true,
        FilterMode::CurrentSprint => match t.sprint_branch {
            Some(b) => b@ == current || (contains_seq(current, "-task-"@) && contains_seq(b@, before_task(current))),
            None => false,
        },
        FilterMode::ActiveTasks => t.status == TaskStatus::InProgress,
    }
}

/// The positions of the tasks that pass the filter, in order.
pub open spec fn filtered(tasks: Seq<TaskInfo>, mode: FilterMode, current: Seq<char>) -> Seq<usize>
    decreases tasks.len(),
{
    if tasks.len() == 0 {
        Seq::empty()
    } else {
        let rest = filtered(tasks.drop_last(), mode, current);
        if passes(tasks.last(), mode, current) { rest.push((tasks.len() - 1) as usize) } else { rest }
    }
}

/// The filtered positions increase, and each is a task's.
pub proof fn lemma_filtered_increasing(tasks: Seq<TaskInfo>, mode: FilterMode, current: Seq<char>)
    requires
        tasks.len() <= usize::MAX,
    ensures
        forall|i: int, j: int| 0 <= i < j < filtered(tasks, mode, current).len() ==>
            filtered(tasks, mode, current)[i] < filtered(tasks, mode, current)[j],
        forall|i: int| 0 <= i < filtered(tasks, mode, current).len() ==> filtered(tasks, mode, current)[i] < tasks.len(),
    decreases tasks.len(),
{
    if tasks.len() > 0 {
        lemma_filtered_increasing(tasks.drop_last(), mode, current);
        let rest = filtered(tasks.drop_last(), mode, current);
        let f = filtered(tasks, mode, current);
        if passes(tasks.last(), mode, current) {
            assert(f == rest.push((tasks.len() - 1) as usize));
            assert forall|i: int, j: int| 0 <= i < j < f.len() implies f[i] < f[j] by {
                if j == rest.len() {
                    assert(f[i] == rest[i]);
                } else {
                    assert(f[i] == rest[i] && f[j] == rest[j]);
                }
            }
            assert forall|i: int| 0 <= i < f.len() implies f[i] < tasks.len() by {
                if i < rest.len() {
                    assert(f[i] == rest[i]);
                }
            }
        } else {
            assert(f == rest);
        }
    }
}

/// The selection after moving forward among the filtered positions: the
/// next one, the first after the last, the first when the selection is
/// none of them; unchanged when none passes.
pub open spec fn moved_next(sel: Option<usize>, f: Seq<usize>) -> Option<usize> {
    if f.len() == 0 {
        sel
    } else {
        match sel {
            Some(c) => if f.contains(c) {
                let pos = f.index_of(c);
                if pos + 1 < f.len() { Some(f[pos + 1]) } else { Some(f[0]) }
            } else {
                Some(f[0])
            },
            None => Some(f[0]),
        }
    }
}

/// The selection after moving back among the filtered positions.
pub open spec fn moved_previous(sel: Option<usize>, f: Seq<usize>) -> Option<usize> {
    if f.len() == 0 {
        sel
    } else {
        match sel {
            Some(c) => if f.contains(c) {
                let pos = f.index_of(c);
                if pos > 0 { Some(f[pos - 1]) } else { Some(f[f.len() - 1]) }
            } else {
                Some(f[0])
            },
            None => Some(f[0]),
        }
    }
}

/// The label of a status in the list.
pub open spec fn status_label(s: TaskStatus) -> Seq<char> {
    match s {
        TaskStatus::Todo => "[TODO]"@,
        TaskStatus::InProgress => "[IN PROGRESS]"@,
        TaskStatus::Done => "[DONE]"@,
    }
}

/// The text of a task in the list: id, description and story points.
pub open spec fn task_text(t: TaskInfo) -> Seq<char> {
    t.id@ + " - "@ + t.description@ + " "@ + match t.story_points {
        Some(p) => "("@ + decimal(p as nat) + "sp)"@,
        None => Seq::empty(),
    }
}

/// The state of the task list.
pub struct TaskApp {
    pub tasks: StatefulList<TaskInfo>,
    pub current_branch: String,
    pub filter_mode: FilterMode,
}

/// What stands before the first `-task-`.
fn prefix_before_task(s: &str) -> (r: String)
    ensures
        r@ == before_task(s@),
{
    let cs = crate::text::chars_of(s);
    let m = crate::text::chars_of("-task-");
    match crate::text::find(cs.as_slice(), m.as_slice()) {
        Some(i) => {
            let part = crate::text::slice_chars(cs.as_slice(), 0, i);
            assert(part@ =~= s@.take(i as int));
            crate::text::string_of(part.as_slice())
        },
        None => copy_str(s),
    }
}

impl TaskApp {
    /// The list of tasks, showing the current sprint, with the first selected.
    pub fn new(tasks: Vec<TaskInfo>, current_branch: String) -> (a: Self)
        ensures
            a.tasks.items@ == tasks@,
            a.tasks.selected == (if tasks@.len() > 0 { Some(0usize) } else { None }),
            a.current_branch@ == current_branch@,
            a.filter_mode == FilterMode::CurrentSprint,
    {
        TaskApp { tasks: StatefulList::with_items(tasks), current_branch, filter_mode: FilterMode::CurrentSprint }
    }

    /// Switches to the next filter, selecting the first task.
    pub fn next_filter_mode(&mut self)
        ensures
            final(self).filter_mode == match old(self).filter_mode {
                FilterMode::All => FilterMode::CurrentSprint,
                FilterMode::CurrentSprint => FilterMode::ActiveTasks,
                FilterMode::ActiveTasks => FilterMode::All,
            },
            final(self).tasks.items@ == old(self).tasks.items@,
            final(self).tasks.selected == (if old(self).tasks.items@.len() > 0 { Some(0usize) } else { old(self).tasks.selected }),
            final(self).current_branch@ == old(self).current_branch@,
    {
        self.filter_mode = match self.filter_mode {
            FilterMode::All => FilterMode::CurrentSprint,
            FilterMode::CurrentSprint => FilterMode::ActiveTasks,
            FilterMode::ActiveTasks => FilterMode::All,
        };
        if self.tasks.items.len() > 0 {
            self.tasks.selected = Some(0);
        }
    }

    /// Whether a task passes the current filter.
    pub fn passes_filter(&self, t: &TaskInfo) -> (r: bool)
        ensures
            r == passes(*t, self.filter_mode, self.current_branch@),
    {
        match self.filter_mode {
            FilterMode::All => true,
            FilterMode::CurrentSprint => match &t.sprint_branch {
                Some(b) => {
                    if str_eq(b.as_str(), self.current_branch.as_str()) {
                        true
                    } else if crate::text::str_contains(self.current_branch.as_str(), "-task-") {
                        let p = prefix_before_task(self.current_branch.as_str());
                        crate::text::str_contains(b.as_str(), p.as_str())
                    } else {
                        false
                    }
                },
                None => false,
            },
            FilterMode::ActiveTasks => t.status == TaskStatus::InProgress,
        }
    }

    /// The positions of the tasks that pass the filter.
    pub fn get_filtered_indices(&self) -> (r: Vec<usize>)
        ensures
            r@ == filtered(self.tasks.items@, self.filter_mode, self.current_branch@),
    {
        let ghost items = self.tasks.items@;
        let mut r: Vec<usize> = Vec::new();
        let mut i: usize = 0;
        assert(items.take(0) =~= Seq::<TaskInfo>::empty());
        while i < self.tasks.items.len()
            invariant
                i <= items.len(),
                items == self.tasks.items@,
                r@ == filtered(items.take(i as int), self.filter_mode, self.current_branch@),
            decreases items.len() - i,
        {
            assert(items.take(i + 1).drop_last() =~= items.take(i as int));
            assert(items.take(i + 1).last() == items[i as int]);
            if self.passes_filter(&self.tasks.items[i]) {
                r.push(i);
            }
            i += 1;
        }
        assert(items.take(items.len() as int) =~= items);
        r
    }

    /// Where a position stands among the filtered ones.
    fn position_of(f: &Vec<usize>, c: usize) -> (r: Option<usize>)
        ensures
            r is Some <==> f@.contains(c),
            r matches Some(p) ==> p < f@.len() && f@[p as int] == c && forall|j: int| 0 <= j < p ==> f@[j] != c,
    {
        let mut k: usize = 0;
        while k < f.len()
            invariant
                k <= f@.len(),
                forall|j: int| 0 <= j < k ==> f@[j] != c,
            decreases f@.len() - k,
        {
            if f[k] == c {
                return Some(k);
            }
            k += 1;
        }
        None
    }

    /// Moves the selection to the next task that passes the filter.
    pub fn next_filtered_task(&mut self)
        ensures
            final(self).tasks.selected == moved_next(old(self).tasks.selected,
                filtered(old(self).tasks.items@, old(self).filter_mode, old(self).current_branch@)),
            final(self).tasks.items@ == old(self).tasks.items@,
            final(self).filter_mode == old(self).filter_mode,
            final(self).current_branch@ == old(self).current_branch@,
    {
        let f = self.get_filtered_indices();
        let _n = self.tasks.items.len();
        if f.len() == 0 {
            return;
        }
        let next = match self.tasks.selected {
            Some(c) => match Self::position_of(&f, c) {
                Some(pos) => {
                    proof {
                        lemma_filtered_increasing(self.tasks.items@, self.filter_mode, self.current_branch@);
                        let k = f@.index_of(c);
                        assert(f@[k] == c);
                    }
                    if pos + 1 < f.len() { f[pos + 1] } else { f[0] }
                },
                None => f[0],
            },
            None => f[0],
        };
        self.tasks.selected = Some(next);
    }

    /// Moves the selection to the previous task that passes the filter.
    pub fn previous_filtered_task(&mut self)
        ensures
            final(self).tasks.selected == moved_previous(old(self).tasks.selected,
                filtered(old(self).tasks.items@, old(self).filter_mode, old(self).current_branch@)),
            final(self).tasks.items@ == old(self).tasks.items@,
            final(self).filter_mode == old(self).filter_mode,
            final(self).current_branch@ == old(self).current_branch@,
    {
        let f = self.get_filtered_indices();
        let _n = self.tasks.items.len();
        if f.len() == 0 {
            return;
        }
        let prev = match self.tasks.selected {
            Some(c) => match Self::position_of(&f, c) {
                Some(pos) => {
                    proof {
                        lemma_filtered_increasing(self.tasks.items@, self.filter_mode, self.current_branch@);
                        let k = f@.index_of(c);
                        assert(f@[k] == c);
                    }
                    if pos > 0 { f[pos - 1] } else { f[f.len() - 1] }
                },
                None => f[0],
            },
            None => f[0],
        };
        self.tasks.selected = Some(prev);
    }

    /// The branch to check out for the selected task: its sprint branch
    /// and `-task-` and its id; without a sprint branch, the current
    /// branch (with `sprint-` in front when it lacks it) takes its place.
    pub fn task_branch(&self) -> (r: Option<String>)
        ensures
            match self.tasks.selected {
                Some(i) => i < self.tasks.items@.len() ==> (r matches Some(b) && {
                    let t = self.tasks.items@[i as int];
                    let sprint = match t.sprint_branch {
                        Some(s) => s@,
                        None => if "sprint-"@.is_prefix_of(self.current_branch@) {
                            self.current_branch@
                        } else {
                            "sprint-"@ + self.current_branch@
                        },
                    };
                    b@ == sprint + "-task-"@ + t.id@
                }),
                None => r is None,
            },
    {
        match self.tasks.selected {
            Some(i) => {
                if i >= self.tasks.items.len() {
                    return None;
                }
                let t = &self.tasks.items[i];
                let mut b = match &t.sprint_branch {
                    Some(s) => copy_str(s.as_str()),
                    None => if crate::text::str_starts_with(self.current_branch.as_str(), "sprint-") {
                        copy_str(self.current_branch.as_str())
                    } else {
                        concat("sprint-", self.current_branch.as_str())
                    },
                };
                push_str(&mut b, "-task-");
                push_str(&mut b, t.id.as_str());
                Some(b)
            },
            None => None,
        }
    }

    /// Records the branch that was checked out.
    pub fn set_current_branch(&mut self, branch: String)
        ensures
            final(self).current_branch@ == branch@,
            final(self).tasks.items@ == old(self).tasks.items@,
            final(self).tasks.selected == old(self).tasks.selected,
            final(self).filter_mode == old(self).filter_mode,
    {
        self.current_branch = branch;
    }

    /// The label of the current filter.
    pub fn filter_label(&self) -> (s: &'static str)
        ensures
            s@ == match self.filter_mode {
                FilterMode::All => "Filter: All Tasks"@,
                FilterMode::CurrentSprint => "Filter: Current Sprint"@,
                FilterMode::ActiveTasks => "Filter: Active Tasks"@,
            },
    {
        match self.filter_mode {
            FilterMode::All => "Filter: All Tasks",
            FilterMode::CurrentSprint => "Filter: Current Sprint",
            FilterMode::ActiveTasks => "Filter: Active Tasks",
        }
    }

    /// The line above the list: how many tasks it shows of how many.
    pub fn displaying_line(&self) -> (s: String)
        ensures
            s@ == "Displaying "@ + decimal(filtered(self.tasks.items@, self.filter_mode, self.current_branch@).len())
                + " of "@ + decimal(self.tasks.items@.len()) + " tasks"@,
    {
        let f = self.get_filtered_indices();
        let mut s = copy_str("Displaying ");
        push_str(&mut s, crate::numeral::format_decimal(f.len() as u64).as_str());
        push_str(&mut s, " of ");
        push_str(&mut s, crate::numeral::format_decimal(self.tasks.items.len() as u64).as_str());
        push_str(&mut s, " tasks");
        s
    }

    /// The selected task's place in the filtered list, if it is shown.
    pub fn selected_row(&self) -> (r: Option<usize>)
        ensures
            ({
                let f = filtered(self.tasks.items@, self.filter_mode, self.current_branch@);
                match self.tasks.selected {
                    Some(c) => if f.contains(c) { r == Some(f.index_of(c) as usize) } else { r is None },
                    None => r is None,
                }
            }),
    {
        match self.tasks.selected {
            Some(c) => {
                let f = self.get_filtered_indices();
                let _n = self.tasks.items.len();
                match Self::position_of(&f, c) {
                    Some(p) => {
                        proof {
                            lemma_filtered_increasing(self.tasks.items@, self.filter_mode, self.current_branch@);
                            let k = f@.index_of(c);
                            assert(f@[k] == c);
                        }
                        Some(p)
                    },
                    None => None,
                }
            },
            None => None,
        }
    }
}

impl TaskListCommand {
    /// The label of a task's status.
    pub fn status_label(status: TaskStatus) -> (s: &'static str)
        ensures
            s@ == status_label(status),
    {
        match status {
            TaskStatus::Todo => "[TODO]",
            TaskStatus::InProgress => "[IN PROGRESS]",
            TaskStatus::Done => "[DONE]",
        }
    }

    /// The text of a task in the list.
    pub fn task_text(t: &TaskInfo) -> (s: String)
        ensures
            s@ == task_text(*t),
    {
        let mut s = copy_str(t.id.as_str());
        push_str(&mut s, " - ");
        push_str(&mut s, t.description.as_str());
        push_str(&mut s, " ");
        match t.story_points {
            Some(p) => {
                push_str(&mut s, "(");
                push_str(&mut s, crate::numeral::format_decimal(p as u64).as_str());
                push_str(&mut s, "sp)");
            },
            None => {},
        }
        s
    }

    /// The active sprint's branch, with `sprint-` in front when it lacks it.
    pub fn active_sprint_branch(active: Option<&str>) -> (r: Option<String>)
        ensures
            match active {
                Some(a) => r matches Some(b) && b@ == (if "sprint-"@.is_prefix_of(a@) { a@ } else { "sprint-"@ + a@ }),
                None => r is None,
            },
    {
        match active {
            Some(a) => if crate::text::str_starts_with(a, "sprint-") { Some(copy_str(a)) } else { Some(concat("sprint-", a)) },
            None => None,
        }
    }

    /// The sprint branch the list starts from: the current branch when it
    /// is a sprint branch; what stands before `-task-` in a task branch;
    /// else the active sprint's branch.
    pub fn current_sprint_branch(current: &str, active: Option<String>) -> (r: Option<String>)
        ensures
            if "sprint-"@.is_prefix_of(current@) && !contains_seq(current@, "-task-"@) {
                r matches Some(b) && b@ == current@
            } else if contains_seq(current@, "-task-"@) {
                r matches Some(b) && b@ == before_task(current@)
            } else {
                match active {
                    Some(a) => r matches Some(b) && b@ == a@,
                    None => r is None,
                }
            },
    {
        let is_task = crate::text::str_contains(current, "-task-");
        if crate::text::str_starts_with(current, "sprint-") && !is_task {
            Some(copy_str(current))
        } else if is_task {
            Some(prefix_before_task(current))
        } else {
            active
        }
    }
}

} // verus!
