//! Browsing the sprints and their tasks, and checking one of them out.
use vstd::prelude::*;
use crate::text::{copy_str, push_str, str_eq, concat};
use crate::errors::error::Error;
use crate::vcs::sprint::sprint::Task;
use crate::commands::task_list::StatefulList;

verus! {

/// Shows the sprints and their tasks.
pub struct SprintViewCommand;

/// A sprint as the view shows it.
pub struct SprintData {
    pub name: String,
    pub branch: String,
    pub is_active: bool,
    pub is_current: bool,
    pub expanded: bool,
    pub tasks: Vec<Task>,
    pub start_date: Option<String>,
    pub end_date: Option<String>,
}

/// The name shown for a sprint branch: without its `sprint-` prefix.
pub open spec fn shown_name(branch: Seq<char>) -> Seq<char> {
    if "sprint-"@.is_prefix_of(branch) { branch.skip(7) } else { branch }
}

/// The full branch of a sprint: with the `sprint-` prefix.
pub open spec fn full_branch(branch: Seq<char>) -> Seq<char> {
    if "sprint-"@.is_prefix_of(branch) { branch } else { "sprint-"@ + branch }
}

/// The text after a sprint's name that gives its period.
pub open spec fn period(start: Option<Seq<char>>, end: Option<Seq<char>>) -> Seq<char> {
    match (start, end) {
        (Some(s), Some(e)) => " ("@ + s + " - "@ + e + ")"@,
        (Some(s), None) => " (from "@ + s + ")"@,
        (None, Some(e)) => " (until "@ + e + ")"@,
        (None, None) => Seq::empty(),
    }
}

/// The branch of a task of a sprint.
pub open spec fn task_branch_of(sprint_branch: Seq<char>, task_id: Seq<char>) -> Seq<char> {
    sprint_branch + "-task-"@ + task_id
}

/// The view: the sprints, the branch checked out, and, in task mode, the
/// task selected in the selected sprint.
pub struct SprintApp {
    pub sprints: StatefulList<SprintData>,
    pub current_branch: String,
    pub task_mode: bool,
    pub task_index: usize,
}

impl SprintViewCommand {
    /// The name, full branch, and whether the sprint is active and checked
    /// out, of a sprint branch.
    pub fn sprint_entry(branch: &str, active_branch: Option<&str>, current_branch: &str) -> (r: (String, String, bool, bool))
        ensures
            r.0@ == shown_name(branch@),
            r.1@ == full_branch(branch@),
            r.2 == (active_branch matches Some(a) && a@ == branch@),
            r.3 == (full_branch(branch@) == current_branch@),
    {
        let prefixed = crate::text::str_starts_with(branch, "sprint-");
        proof {
            reveal_strlit("sprint-");
        }
        let name = if prefixed {
            let cs = crate::text::chars_of(branch);
            let rest = crate::text::slice_chars(cs.as_slice(), 7, cs.len());
            assert(rest@ =~= branch@.skip(7));
            crate::text::string_of(rest.as_slice())
        } else {
            copy_str(branch)
        };
        let full = if prefixed { copy_str(branch) } else { concat("sprint-", branch) };
        let is_active = match active_branch {
            Some(a) => str_eq(a, branch),
            None => false,
        };
        let is_current = str_eq(full.as_str(), current_branch);
        (name, full, is_active, is_current)
    }

    /// The text after a sprint's name that gives its period.
    pub fn period_text(start: Option<&str>, end: Option<&str>) -> (s: String)
        ensures
            s@ == period(match start { Some(x) => Some(x@), None => None }, match end { Some(x) => Some(x@), None => None }),
    {
        match (start, end) {
            (Some(s), Some(e)) => {
                let mut t = copy_str(" (");
                push_str(&mut t, s);
                push_str(&mut t, " - ");
                push_str(&mut t, e);
                push_str(&mut t, ")");
                t
            },
            (Some(s), None) => {
                let mut t = copy_str(" (from ");
                push_str(&mut t, s);
                push_str(&mut t, ")");
                t
            },
            (None, Some(e)) => {
                let mut t = copy_str(" (until ");
                push_str(&mut t, e);
                push_str(&mut t, ")");
                t
            },
            (None, None) => String::new(),
        }
    }

    /// The error when the terminal view fails.
    pub fn ui_error(detail: &str) -> (e: Error)
        ensures
            e matches Error::Generic(m) && m@ == "Error running terminal UI: "@ + detail@,
    {
        Error::Generic(concat("Error running terminal UI: ", detail))
    }
}

impl SprintApp {
    /// The selection, when there is one, names a sprint.
    pub open spec fn wf(&self) -> bool {
        self.sprints.selected matches Some(i) ==> i < self.sprints.items@.len()
    }

    /// The view over the sprints, the first selected, out of task mode.
    pub fn new(sprint_data: Vec<SprintData>, current_branch: String) -> (a: Self)
        ensures
            a.wf(),
            a.sprints.items@ == sprint_data@,
            a.sprints.selected == (if sprint_data@.len() > 0 { Some(0usize) } else { None }),
            a.current_branch@ == current_branch@,
            !a.task_mode,
            a.task_index == 0,
    {
        SprintApp { sprints: StatefulList::with_items(sprint_data), current_branch, task_mode: false, task_index: 0 }
    }

    /// Opens or closes the selected sprint.
    pub fn toggle_expanded(&mut self)
        requires
            old(self).wf(),
        ensures
            final(self).wf(),
            final(self).sprints.selected == old(self).sprints.selected,
            final(self).sprints.items@.len() == old(self).sprints.items@.len(),
            final(self).task_mode == old(self).task_mode,
            final(self).task_index == old(self).task_index,
            forall|j: int| 0 <= j < old(self).sprints.items@.len() ==> {
                let a = #[trigger] final(self).sprints.items@[j];
                let b = old(self).sprints.items@[j];
                &&& a.expanded == (if (old(self).sprints.selected matches Some(s) && s as int == j) { !b.expanded } else { b.expanded })
                &&& a.name == b.name && a.branch == b.branch && a.is_active == b.is_active
                &&& a.is_current == b.is_current && a.tasks == b.tasks
            },
    {
        if let Some(i) = self.sprints.selected {
            let e = self.sprints.items[i].expanded;
            self.sprints.items[i].expanded = !e;
        }
    }

    /// Enters task mode on the selected sprint when it has tasks: it opens,
    /// and its first task is selected.
    pub fn enter_task_mode(&mut self)
        requires
            old(self).wf(),
        ensures
            final(self).wf(),
            final(self).sprints.selected == old(self).sprints.selected,
            final(self).sprints.items@.len() == old(self).sprints.items@.len(),
            ({
                let enters = old(self).sprints.selected matches Some(i) && old(self).sprints.items@[i as int].tasks@.len() > 0;
                &&& final(self).task_mode == (enters || old(self).task_mode)
                &&& final(self).task_index == (if enters { 0 } else { old(self).task_index })
                &&& forall|j: int| 0 <= j < old(self).sprints.items@.len() ==> {
                    let a = #[trigger] final(self).sprints.items@[j];
                    let b = old(self).sprints.items@[j];
                    &&& a.expanded == (if enters && (old(self).sprints.selected matches Some(s) && s as int == j) { true } else { b.expanded })
                    &&& a.name == b.name && a.branch == b.branch && a.is_active == b.is_active
                    &&& a.is_current == b.is_current && a.tasks == b.tasks
                }
            }),
    {
        if let Some(i) = self.sprints.selected {
            if self.sprints.items[i].tasks.len() > 0 {
                self.sprints.items[i].expanded = true;
                self.task_mode = true;
                self.task_index = 0;
            }
        }
    }

    /// Leaves task mode.
    pub fn exit_task_mode(&mut self)
        ensures
            !final(self).task_mode,
            final(self).task_index == 0,
            final(self).sprints == old(self).sprints,
            final(self).current_branch == old(self).current_branch,
    {
        self.task_mode = false;
        self.task_index = 0;
    }

    /// Moves down: to the next task of the selected sprint in task mode
    /// (staying at the last), else to the next sprint (the first after the
    /// last), back to the first task.
    pub fn next_item(&mut self)
        requires
            old(self).wf(),
            !old(self).task_mode ==> old(self).sprints.items@.len() > 0,
        ensures
            final(self).wf(),
            final(self).sprints.items@ == old(self).sprints.items@,
            final(self).task_mode == old(self).task_mode,
            old(self).task_mode ==> final(self).sprints.selected == old(self).sprints.selected
                && final(self).task_index == (match old(self).sprints.selected {
                    Some(i) => if old(self).task_index + 1 < old(self).sprints.items@[i as int].tasks@.len() {
                        old(self).task_index + 1
                    } else {
                        old(self).task_index as int
                    },
                    None => old(self).task_index as int,
                }),
            !old(self).task_mode ==> final(self).task_index == 0
                && final(self).sprints.selected == Some(match old(self).sprints.selected {
                    Some(i) => if i >= old(self).sprints.items@.len() - 1 { 0usize } else { (i + 1) as usize },
                    None => 0usize,
                }),
    {
        if self.task_mode {
            if let Some(i) = self.sprints.selected {
                let n = self.sprints.items[i].tasks.len();
                if n > 0 && self.task_index < n - 1 {
                    self.task_index = self.task_index + 1;
                }
            }
        } else {
            self.sprints.next();
            self.task_index = 0;
        }
    }

    /// Moves up: to the previous task in task mode (staying at the first),
    /// else to the previous sprint (the last before the first), back to the
    /// first task.
    pub fn previous_item(&mut self)
        requires
            old(self).wf(),
            !old(self).task_mode ==> old(self).sprints.items@.len() > 0,
        ensures
            final(self).wf(),
            final(self).sprints.items@ == old(self).sprints.items@,
            final(self).task_mode == old(self).task_mode,
            old(self).task_mode ==> final(self).sprints.selected == old(self).sprints.selected
                && final(self).task_index == (if old(self).task_index > 0 { old(self).task_index - 1 } else { 0 }),
            !old(self).task_mode ==> final(self).task_index == 0
                && final(self).sprints.selected == Some(match old(self).sprints.selected {
                    Some(i) => if i == 0 { (old(self).sprints.items@.len() - 1) as usize } else { (i - 1) as usize },
                    None => 0usize,
                }),
    {
        if self.task_mode {
            if self.task_index > 0 {
                self.task_index = self.task_index - 1;
            }
        } else {
            self.sprints.previous();
            self.task_index = 0;
        }
    }

    /// The branch to check out for the selected sprint.
    pub fn sprint_to_check_out(&self) -> (r: Option<String>)
        requires
            self.wf(),
        ensures
            match self.sprints.selected {
                Some(i) => r matches Some(b) && b@ == self.sprints.items@[i as int].branch@,
                None => r is None,
            },
    {
        match self.sprints.selected {
            Some(i) => Some(copy_str(self.sprints.items[i].branch.as_str())),
            None => None,
        }
    }

    /// Records that a sprint's branch is checked out: it is the current
    /// branch, and exactly the sprints on it are marked current.
    pub fn sprint_checked_out(&mut self, branch: &str)
        requires
            old(self).wf(),
        ensures
            final(self).wf(),
            final(self).current_branch@ == branch@,
            final(self).sprints.selected == old(self).sprints.selected,
            final(self).sprints.items@.len() == old(self).sprints.items@.len(),
            final(self).task_mode == old(self).task_mode,
            final(self).task_index == old(self).task_index,
            forall|j: int| 0 <= j < old(self).sprints.items@.len() ==> {
                let a = #[trigger] final(self).sprints.items@[j];
                let b = old(self).sprints.items@[j];
                &&& a.is_current == (b.branch@ == branch@)
                &&& a.name == b.name && a.branch == b.branch && a.is_active == b.is_active
                &&& a.expanded == b.expanded && a.tasks == b.tasks
            },
    {
        self.current_branch = copy_str(branch);
        let mut k: usize = 0;
        while k < self.sprints.items.len()
            invariant
                k <= self.sprints.items@.len(),
                self.sprints.items@.len() == old(self).sprints.items@.len(),
                self.sprints.selected == old(self).sprints.selected,
                self.task_mode == old(self).task_mode,
                self.task_index == old(self).task_index,
                self.current_branch@ == branch@,
                old(self).wf(),
                forall|j: int| 0 <= j < old(self).sprints.items@.len() ==> {
                    let a = #[trigger] self.sprints.items@[j];
                    let b = old(self).sprints.items@[j];
                    &&& a.is_current == (if j < k { b.branch@ == branch@ } else { b.is_current })
                    &&& a.name == b.name && a.branch == b.branch && a.is_active == b.is_active
                    &&& a.expanded == b.expanded && a.tasks == b.tasks
                },
            decreases old(self).sprints.items@.len() - k,
        {
            let cur = str_eq(self.sprints.items[k].branch.as_str(), branch);
            self.sprints.items[k].is_current = cur;
            k += 1;
        }
    }

    /// The branch to check out for the selected task: its sprint's branch,
    /// `-task-` and its id; `None` without a selected task.
    pub fn task_to_check_out(&self) -> (r: Option<String>)
        requires
            self.wf(),
        ensures
            match self.sprints.selected {
                Some(i) => if self.task_index < self.sprints.items@[i as int].tasks@.len() {
                    r matches Some(b) && b@ == task_branch_of(self.sprints.items@[i as int].branch@,
                        self.sprints.items@[i as int].tasks@[self.task_index as int].id@)
                } else {
                    r is None
                },
                None => r is None,
            },
    {
        match self.sprints.selected {
            Some(i) => {
                let sprint = &self.sprints.items[i];
                if self.task_index < sprint.tasks.len() {
                    let mut b = copy_str(sprint.branch.as_str());
                    push_str(&mut b, "-task-");
                    push_str(&mut b, sprint.tasks[self.task_index].id.as_str());
                    Some(b)
                } else {
                    None
                }
            },
            None => None,
        }
    }

    /// Records that a task branch is checked out: it is the current branch
    /// and no sprint is marked current.
    pub fn task_checked_out(&mut self, branch: String)
        requires
            old(self).wf(),
        ensures
            final(self).wf(),
            final(self).current_branch@ == branch@,
            final(self).sprints.selected == old(self).sprints.selected,
            final(self).sprints.items@.len() == old(self).sprints.items@.len(),
            final(self).task_mode == old(self).task_mode,
            final(self).task_index == old(self).task_index,
            forall|j: int| 0 <= j < old(self).sprints.items@.len() ==> {
                let a = #[trigger] final(self).sprints.items@[j];
                let b = old(self).sprints.items@[j];
                &&& !a.is_current
                &&& a.name == b.name && a.branch == b.branch && a.is_active == b.is_active
                &&& a.expanded == b.expanded && a.tasks == b.tasks
            },
    {
        self.current_branch = branch;
        let mut k: usize = 0;
        while k < self.sprints.items.len()
            invariant
                k <= self.sprints.items@.len(),
                self.sprints.items@.len() == old(self).sprints.items@.len(),
                self.sprints.selected == old(self).sprints.selected,
                self.task_mode == old(self).task_mode,
                self.task_index == old(self).task_index,
                self.current_branch@ == branch@,
                old(self).wf(),
                forall|j: int| 0 <= j < old(self).sprints.items@.len() ==> {
                    let a = #[trigger] self.sprints.items@[j];
                    let b = old(self).sprints.items@[j];
                    &&& a.is_current == (if j < k { false } else { b.is_current })
                    &&& a.name == b.name && a.branch == b.branch && a.is_active == b.is_active
                    &&& a.expanded == b.expanded && a.tasks == b.tasks
                },
            decreases old(self).sprints.items@.len() - k,
        {
            self.sprints.items[k].is_current = false;
            k += 1;
        }
    }
}

} // verus!
