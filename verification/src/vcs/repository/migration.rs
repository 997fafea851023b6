//! Moving the workspace and the index from one tree to another: the
//! changes to make, the conflicts that forbid them, and the order in which
//! they are made.
use vstd::prelude::*;
use crate::text::{texts, copy_str, push_str, str_eq};
use crate::numeral::octal;
use crate::errors::error::Error;
use crate::vcs::file_mode::{parse_mode, mode_is_directory};
use crate::vcs::database::entry::DatabaseEntry;
use crate::vcs::index::entry::Entry;
use crate::vcs::index::index::{Index, EntryView, entry_view};
use crate::vcs::inspector::ChangeType;
use crate::vcs::merge::resolve::{DiffChange, EntryRec, rec, copy_entry, copy_opt};
use crate::commands::status::sorted_permutation;
use crate::paths::path_parent;
use vstd::utf8::encode_utf8;

verus! {

/// Why a migration cannot proceed.
#[derive(Debug, Clone, Copy, PartialEq, Eq, Structural)]
pub enum ConflictType {
    /// Local changes would be overwritten.
    StaleFile,
    /// A directory holds untracked files.
    StaleDirectory,
    /// An untracked file would be overwritten.
    UntrackedOverwritten,
    /// An untracked file would be removed.
    UntrackedRemoved,
    /// The working tree has uncommitted changes.
    UncommittedChanges,
}

/// A change the migration makes.
#[derive(Debug)]
pub enum Change {
    Create { path: String, entry: DatabaseEntry },
    Update { path: String, entry: DatabaseEntry },
    Delete { path: String },
}

/// What the workspace holds at a path of the diff.
#[derive(Debug)]
pub enum WorkspaceState {
    /// Nothing.
    Missing,
    /// A file.
    File,
    /// A directory, and whether it holds an untracked file.
    Directory(bool),
    /// Something else.
    Other,
    /// Its metadata could not be read.
    StatFailed(Error),
    /// The directory could not be scanned.
    ScanFailed(Error),
}

/// What was observed of a path of the diff: whether the workspace file
/// differs from the indexed blob (`None` when that could not be told), and
/// what the workspace holds there.
#[derive(Debug)]
pub struct PathObservation {
    pub differs_from_index: Option<bool>,
    pub state: WorkspaceState,
}

/// What the migration decides for a path of the diff.
pub ghost enum PathDecision {
    /// Nothing to do here (a deletion, planned apart).
    Skip,
    /// A conflict of some kind.
    Conflict(ConflictType),
    /// A failure to look at the workspace.
    Fail(Error),
    /// Create the entry there, or update it.
    Write(bool, EntryRec),
    /// Nothing changes.
    Nothing,
}

/// The index entry with a path, when there is one.
pub open spec fn indexed(view: Seq<EntryView>, path: Seq<char>) -> Option<EntryView> {
    if exists|i: int| 0 <= i < view.len() && #[trigger] view[i].3 == path {
        Some(view[choose|i: int| 0 <= i < view.len() && #[trigger] view[i].3 == path])
    } else {
        None
    }
}

/// How a tree entry compares with an index entry (both present): whether
/// mode or id differ.
pub open spec fn tree_differs(item: Option<EntryRec>, e: EntryView) -> bool {
    match item {
        None => true,
        Some(i) => i.2 != octal(e.0[6] as nat) || i.1 != e.1,
    }
}

/// A new entry that is a directory.
pub open spec fn new_is_directory(new: Option<EntryRec>) -> bool {
    match new {
        Some(e) => e.2 == "040000"@ || mode_is_directory(parse_mode(e.2)),
        None => false,
    }
}

/// The index entry has the mode and id of a tree entry.
pub open spec fn index_holds(item: Option<EntryRec>, e: EntryView) -> bool {
    match item {
        Some(i) => i.2 == octal(e.0[6] as nat) && i.1 == e.1,
        None => false,
    }
}

/// What the migration decides for a path that the target tree holds and
/// the index tracks. When the index holds the current tree's entry or the
/// target's, and the workspace file is not known to differ from the index,
/// the target entry is written (an update when the current tree had the
/// path, else a creation), never a conflict. When the index holds neither
/// (local staged changes), or the workspace file differs from the index,
/// the path is a stale-file conflict, unless the target entry is a
/// directory, which is written anyway.
pub proof fn lemma_decide_tracked(old: Option<EntryRec>, new: EntryRec, e: EntryView, obs: PathObservation)
    ensures
        (index_holds(old, e) || index_holds(Some(new), e)) && obs.differs_from_index != Some(true)
            ==> decide(old, Some(new), Some(e), obs) == PathDecision::Write(old is Some, new),
        !new_is_directory(Some(new)) && ((!index_holds(old, e) && !index_holds(Some(new), e)) || obs.differs_from_index == Some(true))
            ==> decide(old, Some(new), Some(e), obs) == PathDecision::Conflict(ConflictType::StaleFile),
        new_is_directory(Some(new)) ==> decide(old, Some(new), Some(e), obs) == PathDecision::Write(old is Some, new),
{
}

/// What the migration decides for one path of the diff.
pub open spec fn decide(old: Option<EntryRec>, new: Option<EntryRec>, ie: Option<EntryView>, obs: PathObservation) -> PathDecision {
    if new is None && old is Some {
        PathDecision::Skip
    } else {
        let conflict: Option<PathDecision> = if new_is_directory(new) {
            None
        } else {
            match ie {
                Some(e) => if tree_differs(old, e) && tree_differs(new, e) {
                    Some(PathDecision::Conflict(ConflictType::StaleFile))
                } else if obs.differs_from_index == Some(true) {
                    Some(PathDecision::Conflict(ConflictType::StaleFile))
                } else {
                    None
                },
                None => match obs.state {
                    WorkspaceState::Missing => None,
                    WorkspaceState::StatFailed(err) => Some(PathDecision::Fail(err)),
                    WorkspaceState::File => if new is Some { Some(PathDecision::Conflict(ConflictType::UntrackedOverwritten)) } else { None },
                    WorkspaceState::Directory(untracked) => if untracked { Some(PathDecision::Conflict(ConflictType::StaleDirectory)) } else { None },
                    WorkspaceState::ScanFailed(err) => Some(PathDecision::Fail(err)),
                    WorkspaceState::Other => None,
                },
            }
        };
        match conflict {
            Some(d) => d,
            None => match new {
                Some(n) => PathDecision::Write(old is Some, n),
                None => PathDecision::Nothing,
            },
        }
    }
}

/// The paths of the changes in a conflict list, each once.
pub open spec fn conflict_paths(changes: Seq<(Seq<char>, ChangeType)>) -> Seq<Seq<char>> {
    changes.filter(|c: (Seq<char>, ChangeType)| c.1 == ChangeType::Modified || c.1 == ChangeType::Added || c.1 == ChangeType::Deleted)
        .map_values(|c: (Seq<char>, ChangeType)| c.0)
}

/// The message of one kind of conflict: its heading, the paths in order
/// (each behind a tab), and its closing line.
pub open spec fn conflict_message(header: Seq<char>, sorted: Seq<Seq<char>>, footer: Seq<char>) -> Seq<char> {
    header + "\n"@ + tab_lines(sorted) + footer
}

/// Each path behind a tab, on its own line.
pub open spec fn tab_lines(paths: Seq<Seq<char>>) -> Seq<char>
    decreases paths.len(),
{
    if paths.len() == 0 {
        Seq::empty()
    } else {
        tab_lines(paths.drop_last()) + "\t"@ + paths.last() + "\n"@
    }
}

/// The heading and closing line of each kind of conflict.
pub open spec fn conflict_texts(t: ConflictType) -> (Seq<char>, Seq<char>) {
    match t {
        ConflictType::StaleFile => ("Your local changes to the following files would be overwritten by checkout:"@,
            "Please commit your changes or stash them before you switch branches."@),
        ConflictType::StaleDirectory => ("Updating the following directories would lose untracked files in them:"@, "\n"@),
        ConflictType::UntrackedOverwritten => ("The following untracked working tree files would be overwritten by checkout:"@,
            "Please move or remove them before you switch branches."@),
        ConflictType::UntrackedRemoved => ("The following untracked working tree files would be removed by checkout:"@,
            "Please move or remove them before you switch branches."@),
        ConflictType::UncommittedChanges => ("You have uncommitted changes in your working tree:"@,
            "Please commit your changes or stash them before you switch branches."@),
    }
}

/// A migration from one tree to another, from the differences between them.
pub struct Migration {
    pub diff: Vec<DiffChange>,
    pub errors: Vec<String>,
    pub conflicts: Vec<(ConflictType, Vec<String>)>,
    pub changes_to_make: Vec<Change>,
}

/// Adds a path to a list unless it is there.
fn add_once(list: &mut Vec<String>, p: &str)
    ensures
        texts(final(list)@) == if texts(old(list)@).contains(p@) { texts(old(list)@) } else { texts(old(list)@).push(p@) },
{
    let mut i: usize = 0;
    while i < list.len()
        invariant
            i <= list@.len(),
            forall|j: int| 0 <= j < i ==> #[trigger] texts(list@)[j] != p@,
        decreases list@.len() - i,
    {
        if str_eq(list[i].as_str(), p) {
            assert(texts(list@)[i as int] == p@);
            return;
        }
        i += 1;
    }
    let ghost before = texts(list@);
    list.push(copy_str(p));
    assert(texts(list@) =~= before.push(p@));
}

/// `s` is the message of a kind of conflict over its paths, in order.
pub open spec fn conflict_error(s: Seq<char>, c: (ConflictType, Vec<String>)) -> bool {
    exists|sorted: Seq<Seq<char>>| #[trigger] sorted_permutation(sorted, texts(c.1@))
        && s == conflict_message(conflict_texts(c.0).0, sorted, conflict_texts(c.0).1)
}

impl Migration {
    /// A migration along the differences `diff`, with nothing found yet.
    pub fn new(diff: Vec<DiffChange>) -> (m: Self)
        ensures
            m.diff@ == diff@,
            m.errors@.len() == 0,
            m.changes_to_make@.len() == 0,
            m.conflicts@.len() == 5,
            m.conflicts@[0].0 == ConflictType::StaleFile && m.conflicts@[0].1@.len() == 0,
            m.conflicts@[1].0 == ConflictType::StaleDirectory && m.conflicts@[1].1@.len() == 0,
            m.conflicts@[2].0 == ConflictType::UntrackedOverwritten && m.conflicts@[2].1@.len() == 0,
            m.conflicts@[3].0 == ConflictType::UntrackedRemoved && m.conflicts@[3].1@.len() == 0,
            m.conflicts@[4].0 == ConflictType::UncommittedChanges && m.conflicts@[4].1@.len() == 0,
    {
        let mut conflicts: Vec<(ConflictType, Vec<String>)> = Vec::new();
        conflicts.push((ConflictType::StaleFile, Vec::new()));
        conflicts.push((ConflictType::StaleDirectory, Vec::new()));
        conflicts.push((ConflictType::UntrackedOverwritten, Vec::new()));
        conflicts.push((ConflictType::UntrackedRemoved, Vec::new()));
        conflicts.push((ConflictType::UncommittedChanges, Vec::new()));
        Migration { diff, errors: Vec::new(), conflicts, changes_to_make: Vec::new() }
    }

    /// The slot of a kind of conflict.
    fn slot(t: ConflictType) -> (i: usize)
        ensures
            i < 5,
            i == match t {
                ConflictType::StaleFile => 0usize,
                ConflictType::StaleDirectory => 1usize,
                ConflictType::UntrackedOverwritten => 2usize,
                ConflictType::UntrackedRemoved => 3usize,
                ConflictType::UncommittedChanges => 4usize,
            },
    {
        match t {
            ConflictType::StaleFile => 0,
            ConflictType::StaleDirectory => 1,
            ConflictType::UntrackedOverwritten => 2,
            ConflictType::UntrackedRemoved => 3,
            ConflictType::UncommittedChanges => 4,
        }
    }

    /// The message of a kind of conflict over its paths, in order.
    pub fn conflict_text(t: ConflictType, paths: &Vec<String>) -> (s: String)
        ensures
            conflict_error(s@, (t, *paths)),
    {
        let (header, footer): (&str, &str) = match t {
            ConflictType::StaleFile => ("Your local changes to the following files would be overwritten by checkout:",
                "Please commit your changes or stash them before you switch branches."),
            ConflictType::StaleDirectory => ("Updating the following directories would lose untracked files in them:", "\n"),
            ConflictType::UntrackedOverwritten => ("The following untracked working tree files would be overwritten by checkout:",
                "Please move or remove them before you switch branches."),
            ConflictType::UntrackedRemoved => ("The following untracked working tree files would be removed by checkout:",
                "Please move or remove them before you switch branches."),
            ConflictType::UncommittedChanges => ("You have uncommitted changes in your working tree:",
                "Please commit your changes or stash them before you switch branches."),
        };
        let sorted = crate::order::sort_strings(paths);
        let mut m = copy_str(header);
        push_str(&mut m, "\n");
        let mut i: usize = 0;
        while i < sorted.len()
            invariant
                i <= sorted@.len(),
                m@ == header@ + "\n"@ + tab_lines(texts(sorted@).take(i as int)),
            decreases sorted@.len() - i,
        {
            push_str(&mut m, "\t");
            push_str(&mut m, sorted[i].as_str());
            push_str(&mut m, "\n");
            assert(texts(sorted@).take(i + 1).drop_last() =~= texts(sorted@).take(i as int));
            assert(texts(sorted@).take(i + 1).last() == sorted@[i as int]@);
            i += 1;
        }
        assert(texts(sorted@).take(sorted@.len() as int) =~= texts(sorted@));
        push_str(&mut m, footer);
        assert(sorted_permutation(texts(sorted@), texts(paths@)));
        assert(m@ == conflict_message(conflict_texts(t).0, texts(sorted@), conflict_texts(t).1));
        assert(sorted_permutation(texts(sorted@), texts((t, *paths).1@)));
        m
    }

    /// The messages of the conflicts found, one per kind that has any, in
    /// the order of the kinds; an error when there is one.
    pub fn check_conflicts(&mut self) -> (r: Result<(), Error>)
        ensures
            final(self).diff@ == old(self).diff@,
            final(self).conflicts@ == old(self).conflicts@,
            final(self).changes_to_make@ == old(self).changes_to_make@,
            ({
                let found = old(self).conflicts@.filter(|c: (ConflictType, Vec<String>)| c.1@.len() > 0);
                &&& final(self).errors@.len() == old(self).errors@.len() + found.len()
                &&& final(self).errors@.subrange(0, old(self).errors@.len() as int) == old(self).errors@
                &&& forall|m: int| 0 <= m < found.len() ==>
                    #[trigger] conflict_error(final(self).errors@[old(self).errors@.len() + m]@, found[m])
            }),
            r is Ok <==> (old(self).errors@.len() == 0
                && forall|j: int| 0 <= j < old(self).conflicts@.len() ==> (#[trigger] old(self).conflicts@[j]).1@.len() == 0),
            r is Err ==> (r matches Err(Error::Generic(m)) && m@ == "Checkout failed due to conflicts"@),
    {
        let ghost cs = self.conflicts@;
        let ghost pred = |c: (ConflictType, Vec<String>)| c.1@.len() > 0;
        let ghost e0 = self.errors@;
        let mut i: usize = 0;
        assert(cs.take(0).filter(pred) =~= Seq::<(ConflictType, Vec<String>)>::empty()) by {
            reveal(Seq::filter);
        }
        assert(self.errors@.subrange(0, e0.len() as int) =~= e0);
        while i < self.conflicts.len()
            invariant
                i <= self.conflicts@.len(),
                cs == self.conflicts@,
                pred == (|c: (ConflictType, Vec<String>)| c.1@.len() > 0),
                e0 == old(self).errors@,
                self.diff@ == old(self).diff@,
                self.conflicts@ == old(self).conflicts@,
                self.changes_to_make@ == old(self).changes_to_make@,
                self.errors@.len() == e0.len() + cs.take(i as int).filter(pred).len(),
                self.errors@.subrange(0, e0.len() as int) == e0,
                forall|m: int| 0 <= m < cs.take(i as int).filter(pred).len() ==>
                    #[trigger] conflict_error(self.errors@[e0.len() + m]@, cs.take(i as int).filter(pred)[m]),
                (cs.take(i as int).filter(pred).len() == 0) <==> forall|j: int| 0 <= j < i ==> (#[trigger] cs[j]).1@.len() == 0,
            decreases self.conflicts@.len() - i,
        {
            assert(cs.take(i + 1).drop_last() =~= cs.take(i as int));
            assert(cs.take(i + 1).last() == cs[i as int]);
            proof {
                reveal(Seq::filter);
            }
            let ghost f0 = cs.take(i as int).filter(pred);
            let ghost before = self.errors@;
            if self.conflicts[i].1.len() > 0 {
                let text = Self::conflict_text(self.conflicts[i].0, &self.conflicts[i].1);
                self.errors.push(text);
                proof {
                    assert(cs.take(i + 1).filter(pred) == f0.push(cs[i as int]));
                    assert(self.errors@.subrange(0, e0.len() as int) =~= before.subrange(0, e0.len() as int));
                    assert forall|m: int| 0 <= m < f0.len() + 1 implies
                        #[trigger] conflict_error(self.errors@[e0.len() + m]@, f0.push(cs[i as int])[m]) by {
                        if m < f0.len() {
                            assert(self.errors@[e0.len() + m] == before[e0.len() + m]);
                        }
                    }
                }
            } else {
                assert(cs.take(i + 1).filter(pred) == f0);
            }
            i += 1;
        }
        assert(cs.take(cs.len() as int) =~= cs);
        if self.errors.len() > 0 {
            return Err(Error::Generic(copy_str("Checkout failed due to conflicts")));
        }
        Ok(())
    }

    /// Records uncommitted changes of the working tree (modified, added or
    /// deleted paths) as conflicts; says whether there were any.
    pub fn record_uncommitted(&mut self, workspace_changes: &Vec<(String, ChangeType)>) -> (any: bool)
        requires
            old(self).conflicts@.len() == 5,
            old(self).conflicts@[4].0 == ConflictType::UncommittedChanges,
        ensures
            final(self).conflicts@.len() == 5,
            forall|k: int| 0 <= k < 4 ==> #[trigger] final(self).conflicts@[k] == old(self).conflicts@[k],
            final(self).conflicts@[4].0 == ConflictType::UncommittedChanges,
            final(self).diff@ == old(self).diff@,
            final(self).errors@ == old(self).errors@,
            final(self).changes_to_make@ == old(self).changes_to_make@,
            any == (texts(final(self).conflicts@[4].1@).len() > 0),
            texts(old(self).conflicts@[4].1@).no_duplicates() ==> texts(final(self).conflicts@[4].1@).no_duplicates(),
            texts(final(self).conflicts@[4].1@).to_set() == texts(old(self).conflicts@[4].1@).to_set()
                + conflict_paths(workspace_changes@.map_values(|c: (String, ChangeType)| (c.0@, c.1))).to_set(),
    {
        let mut list: Vec<String> = Vec::new();
        std::mem::swap(&mut list, &mut self.conflicts[4].1);
        let ghost start = texts(list@);
        let ghost wc = workspace_changes@.map_values(|c: (String, ChangeType)| (c.0@, c.1));
        let ghost pred = |c: (Seq<char>, ChangeType)| c.1 == ChangeType::Modified || c.1 == ChangeType::Added || c.1 == ChangeType::Deleted;
        let mut i: usize = 0;
        assert(wc.take(0).filter(pred) =~= Seq::<(Seq<char>, ChangeType)>::empty()) by {
            reveal(Seq::filter);
        }
        assert(start.to_set() + Seq::<Seq<char>>::empty().to_set() =~= start.to_set());
        while i < workspace_changes.len()
            invariant
                i <= workspace_changes@.len(),
                wc == workspace_changes@.map_values(|c: (String, ChangeType)| (c.0@, c.1)),
                pred == (|c: (Seq<char>, ChangeType)| c.1 == ChangeType::Modified || c.1 == ChangeType::Added || c.1 == ChangeType::Deleted),
                texts(list@).to_set() == start.to_set() + wc.take(i as int).filter(pred).map_values(|c: (Seq<char>, ChangeType)| c.0).to_set(),
                start.no_duplicates() ==> texts(list@).no_duplicates(),
            decreases workspace_changes@.len() - i,
        {
            assert(wc.take(i + 1).drop_last() =~= wc.take(i as int));
            assert(wc.take(i + 1).last() == wc[i as int]);
            proof {
                reveal(Seq::filter);
            }
            let ghost f0 = wc.take(i as int).filter(pred);
            let ct = workspace_changes[i].1;
            let ghost before = texts(list@);
            if ct == ChangeType::Modified || ct == ChangeType::Added || ct == ChangeType::Deleted {
                add_once(&mut list, workspace_changes[i].0.as_str());
                proof {
                    let p = workspace_changes@[i as int].0@;
                    if start.no_duplicates() {
                        lemma_with_once_no_dup(before, p);
                    }
                    assert(wc.take(i + 1).filter(pred) == f0.push(wc[i as int]));
                    assert(f0.push(wc[i as int]).map_values(|c: (Seq<char>, ChangeType)| c.0)
                        =~= f0.map_values(|c: (Seq<char>, ChangeType)| c.0).push(p));
                    f0.map_values(|c: (Seq<char>, ChangeType)| c.0).lemma_push_to_set_commute(p);
                    if before.contains(p) {
                        assert(before.to_set().contains(p));
                        assert(texts(list@).to_set() =~= before.to_set().insert(p));
                    } else {
                        before.lemma_push_to_set_commute(p);
                    }
                    assert(texts(list@).to_set() =~= start.to_set()
                        + wc.take(i + 1).filter(pred).map_values(|c: (Seq<char>, ChangeType)| c.0).to_set());
                }
            }
            i += 1;
        }
        assert(wc.take(wc.len() as int) =~= wc);
        let any = list.len() > 0;
        std::mem::swap(&mut list, &mut self.conflicts[4].1);
        any
    }
}

/// A change as the contracts see it.
pub ghost enum ChangeView {
    Create(Seq<char>, EntryRec),
    Update(Seq<char>, EntryRec),
    Delete(Seq<char>),
}

/// The view of a change.
pub open spec fn change_view(c: Change) -> ChangeView {
    match c {
        Change::Create { path, entry } => ChangeView::Create(path@, (entry.name@, entry.oid@, entry.mode@)),
        Change::Update { path, entry } => ChangeView::Update(path@, (entry.name@, entry.oid@, entry.mode@)),
        Change::Delete { path } => ChangeView::Delete(path@),
    }
}

/// The views of a list of changes.
pub open spec fn changes_view(cs: Seq<Change>) -> Seq<ChangeView> {
    cs.map_values(|c: Change| change_view(c))
}

/// A list with `p` added at its end unless it holds it already.
pub open spec fn with_once(l: Seq<Seq<char>>, p: Seq<char>) -> Seq<Seq<char>> {
    if l.contains(p) { l } else { l.push(p) }
}

/// The slot that holds the paths of a kind of conflict.
pub open spec fn slot_of(t: ConflictType) -> int {
    match t {
        ConflictType::StaleFile => 0,
        ConflictType::StaleDirectory => 1,
        ConflictType::UntrackedOverwritten => 2,
        ConflictType::UntrackedRemoved => 3,
        ConflictType::UncommittedChanges => 4,
    }
}

/// Each kind has a slot of its own.
proof fn lemma_slot_injective(a: ConflictType, b: ConflictType)
    requires
        slot_of(a) == slot_of(b),
    ensures
        a == b,
{
    match a {
        ConflictType::StaleFile => { assert(b is StaleFile); },
        ConflictType::StaleDirectory => { assert(b is StaleDirectory); },
        ConflictType::UntrackedOverwritten => { assert(b is UntrackedOverwritten); },
        ConflictType::UntrackedRemoved => { assert(b is UntrackedRemoved); },
        ConflictType::UncommittedChanges => { assert(b is UncommittedChanges); },
    }
}

/// The record of the index entry handed in for a path.
pub open spec fn opt_entry_view(e: Option<&Entry>) -> Option<EntryView> {
    match e {
        Some(x) => Some(entry_view(*x)),
        None => None,
    }
}

impl Migration {
    /// One slot per kind of conflict, in the order of the kinds, each
    /// holding a path at most once.
    pub open spec fn wf(&self) -> bool {
        &&& self.conflicts@.len() == 5
        &&& forall|k: int| 0 <= k < 5 ==> #[trigger] slot_of(self.conflicts@[k].0) == k
        &&& forall|k: int| 0 <= k < 5 ==> texts(#[trigger] self.conflicts@[k].1@).no_duplicates()
    }

    /// Carries out the decision for the path `k` of the diff (see
    /// `decide`), given the index entry at that path and what the
    /// workspace holds there.
    fn record_path(&mut self, k: usize, ie: Option<&Entry>, obs: PathObservation) -> (r: Result<(), Error>)
        requires
            old(self).wf(),
            k < old(self).diff@.len(),
        ensures
            final(self).wf(),
            final(self).diff@ == old(self).diff@,
            final(self).errors@ == old(self).errors@,
            ({
                let d = old(self).diff@[k as int];
                match decide(rec(d.old), rec(d.new), opt_entry_view(ie), obs) {
                    PathDecision::Fail(e) => r == Err::<(), Error>(e)
                        && final(self).conflicts@ == old(self).conflicts@
                        && final(self).changes_to_make@ == old(self).changes_to_make@,
                    PathDecision::Conflict(t) => r is Ok
                        && final(self).changes_to_make@ == old(self).changes_to_make@
                        && final(self).conflicts@[slot_of(t)].0 == t
                        && texts(final(self).conflicts@[slot_of(t)].1@) == with_once(texts(old(self).conflicts@[slot_of(t)].1@), d.path@)
                        && forall|j: int| 0 <= j < 5 && j != slot_of(t) ==> #[trigger] final(self).conflicts@[j] == old(self).conflicts@[j],
                    PathDecision::Write(u, n) => r is Ok
                        && final(self).conflicts@ == old(self).conflicts@
                        && changes_view(final(self).changes_to_make@) == changes_view(old(self).changes_to_make@).push(
                            if u { ChangeView::Update(d.path@, n) } else { ChangeView::Create(d.path@, n) }),
                    _ => r is Ok
                        && final(self).conflicts@ == old(self).conflicts@
                        && final(self).changes_to_make@ == old(self).changes_to_make@,
                }
            }),
    {
        let ghost d = self.diff@[k as int];
        let ghost dec = decide(rec(d.old), rec(d.new), opt_entry_view(ie), obs);
        if self.diff[k].new.is_none() && self.diff[k].old.is_some() {
            return Ok(());
        }
        let new_dir = match &self.diff[k].new {
            Some(e) => str_eq(e.get_mode(), "040000") || crate::vcs::file_mode::FileMode::is_directory(crate::vcs::file_mode::FileMode::parse(e.get_mode())),
            None => false,
        };
        assert(new_dir == new_is_directory(rec(d.new)));
        let mut conflict: Option<ConflictType> = None;
        if !new_dir {
            match ie {
                Some(e) => {
                    let from_old = crate::vcs::inspector::Inspector::compare_tree_to_index(self.diff[k].old.as_ref(), Some(e)).is_some();
                    let from_new = crate::vcs::inspector::Inspector::compare_tree_to_index(self.diff[k].new.as_ref(), Some(e)).is_some();
                    assert(from_old == tree_differs(rec(d.old), entry_view(*e)));
                    assert(from_new == tree_differs(rec(d.new), entry_view(*e)));
                    if from_old && from_new {
                        conflict = Some(ConflictType::StaleFile);
                    } else if obs.differs_from_index == Some(true) {
                        conflict = Some(ConflictType::StaleFile);
                    }
                },
                None => {
                    match obs.state {
                        WorkspaceState::Missing => {},
                        WorkspaceState::StatFailed(err) => {
                            return Err(err);
                        },
                        WorkspaceState::File => {
                            if self.diff[k].new.is_some() {
                                conflict = Some(ConflictType::UntrackedOverwritten);
                            }
                        },
                        WorkspaceState::Directory(untracked) => {
                            if untracked {
                                conflict = Some(ConflictType::StaleDirectory);
                            }
                        },
                        WorkspaceState::ScanFailed(err) => {
                            return Err(err);
                        },
                        WorkspaceState::Other => {},
                    }
                },
            }
        }
        match conflict {
            Some(t) => {
                assert(dec == PathDecision::Conflict(t));
                let s = Self::slot(t);
                let mut list: Vec<String> = Vec::new();
                std::mem::swap(&mut list, &mut self.conflicts[s].1);
                let ghost before = texts(list@);
                add_once(&mut list, self.diff[k].path.as_str());
                proof {
                    lemma_with_once_no_dup(before, d.path@);
                }
                std::mem::swap(&mut list, &mut self.conflicts[s].1);
                assert forall|j: int| 0 <= j < 5 implies #[trigger] slot_of(self.conflicts@[j].0) == j by {
                    if j == s as int {} else { assert(self.conflicts@[j] == old(self).conflicts@[j]); }
                }
                assert forall|j: int| 0 <= j < 5 implies texts(#[trigger] self.conflicts@[j].1@).no_duplicates() by {
                    if j == s as int {} else { assert(self.conflicts@[j] == old(self).conflicts@[j]); }
                }
                assert(slot_of(t) == s as int);
                assert(self.conflicts@[s as int].0 == t) by {
                    lemma_slot_injective(self.conflicts@[s as int].0, t);
                }
                assert(texts(self.conflicts@[s as int].1@) == with_once(texts(old(self).conflicts@[s as int].1@), d.path@));
                assert(forall|j: int| 0 <= j < 5 && j != slot_of(t) ==> #[trigger] self.conflicts@[j] == old(self).conflicts@[j]);
                assert(self.changes_to_make@ == old(self).changes_to_make@);
                return Ok(());
            },
            None => {},
        }
        match &self.diff[k].new {
            Some(n) => {
                let path = copy_str(self.diff[k].path.as_str());
                let entry = copy_entry(n);
                let ghost before = self.changes_to_make@;
                if self.diff[k].old.is_some() {
                    self.changes_to_make.push(Change::Update { path, entry });
                } else {
                    self.changes_to_make.push(Change::Create { path, entry });
                }
                assert(changes_view(self.changes_to_make@) =~= changes_view(before).push(change_view(self.changes_to_make@.last())));
            },
            None => {},
        }
        Ok(())
    }
}

/// The deletions that the diff makes, in its order.
pub open spec fn planned_deletions(diff: Seq<DiffChange>) -> Seq<ChangeView>
    decreases diff.len(),
{
    if diff.len() == 0 {
        Seq::empty()
    } else {
        let rest = planned_deletions(diff.drop_last());
        let d = diff.last();
        if d.old is Some && d.new is None { rest.push(ChangeView::Delete(d.path@)) } else { rest }
    }
}

/// What the migration decides for each path of the diff, given the
/// index and what was observed at each path.
pub open spec fn decisions(diff: Seq<DiffChange>, view: Seq<EntryView>, obs: Seq<PathObservation>) -> Seq<PathDecision> {
    Seq::new(diff.len(), |k: int| decide(rec(diff[k].old), rec(diff[k].new), indexed(view, diff[k].path@), obs[k]))
}

/// The creations and updates that the decisions make, in order.
pub open spec fn planned_writes(diff: Seq<DiffChange>, ds: Seq<PathDecision>) -> Seq<ChangeView>
    decreases ds.len(),
{
    if ds.len() == 0 {
        Seq::empty()
    } else {
        let k = ds.len() - 1;
        let rest = planned_writes(diff, ds.drop_last());
        match ds[k] {
            PathDecision::Write(u, n) => rest.push(
                if u { ChangeView::Update(diff[k].path@, n) } else { ChangeView::Create(diff[k].path@, n) }),
            _ => rest,
        }
    }
}

/// The paths that the decisions find in a kind of conflict.
pub open spec fn conflicted(diff: Seq<DiffChange>, ds: Seq<PathDecision>, t: ConflictType) -> Set<Seq<char>> {
    Set::new(|p: Seq<char>| exists|k: int| 0 <= k < ds.len() && ds[k] == PathDecision::Conflict(t) && #[trigger] diff[k].path@ == p)
}

/// Adding a path once to a list adds it to the set of its paths.
proof fn lemma_with_once_set(l: Seq<Seq<char>>, p: Seq<char>)
    ensures
        with_once(l, p).to_set() == l.to_set().insert(p),
{
    if l.contains(p) {
        assert(l.to_set() =~= l.to_set().insert(p));
    } else {
        l.lemma_push_to_set_commute(p);
    }
}

/// Adding a path once keeps a list free of repeats.
proof fn lemma_with_once_no_dup(l: Seq<Seq<char>>, p: Seq<char>)
    requires
        l.no_duplicates(),
    ensures
        with_once(l, p).no_duplicates(),
{
    if !l.contains(p) {
        let m = l.push(p);
        assert forall|a: int, b: int| 0 <= a < m.len() && 0 <= b < m.len() && a != b implies m[a] != m[b] by {
            if a == l.len() {
                assert(m[b] == l[b]);
            } else if b == l.len() {
                assert(m[a] == l[a]);
            } else {
                assert(m[a] == l[a] && m[b] == l[b]);
            }
        }
    }
}

/// One more decision adds its path to its kind of conflict.
proof fn lemma_conflicted_step(d: Seq<DiffChange>, ds: Seq<PathDecision>, i: int, t: ConflictType)
    requires
        0 <= i < ds.len(),
        i < d.len(),
    ensures
        conflicted(d, ds.take(i + 1), t) == if ds[i] == PathDecision::Conflict(t) {
            conflicted(d, ds.take(i), t).insert(d[i].path@)
        } else {
            conflicted(d, ds.take(i), t)
        },
{
    let a = conflicted(d, ds.take(i + 1), t);
    let b = conflicted(d, ds.take(i), t);
    if ds[i] == PathDecision::Conflict(t) {
        assert forall|p: Seq<char>| a.contains(p) <==> b.insert(d[i].path@).contains(p) by {
            if a.contains(p) {
                let k = choose|k: int| 0 <= k < ds.take(i + 1).len() && ds.take(i + 1)[k] == PathDecision::Conflict(t) && #[trigger] d[k].path@ == p;
                if k < i {
                    assert(ds.take(i)[k] == ds[k]);
                }
            }
            if b.contains(p) {
                let k = choose|k: int| 0 <= k < ds.take(i).len() && ds.take(i)[k] == PathDecision::Conflict(t) && #[trigger] d[k].path@ == p;
                assert(ds.take(i + 1)[k] == ds[k]);
            }
            if p == d[i].path@ {
                assert(ds.take(i + 1)[i] == ds[i]);
            }
        }
        assert(a =~= b.insert(d[i].path@));
    } else {
        assert forall|p: Seq<char>| a.contains(p) <==> b.contains(p) by {
            if a.contains(p) {
                let k = choose|k: int| 0 <= k < ds.take(i + 1).len() && ds.take(i + 1)[k] == PathDecision::Conflict(t) && #[trigger] d[k].path@ == p;
                assert(k != i);
                assert(ds.take(i)[k] == ds[k]);
            }
            if b.contains(p) {
                let k = choose|k: int| 0 <= k < ds.take(i).len() && ds.take(i)[k] == PathDecision::Conflict(t) && #[trigger] d[k].path@ == p;
                assert(ds.take(i + 1)[k] == ds[k]);
            }
        }
        assert(a =~= b);
    }
}

/// In an index whose paths increase, the entry at a path is the one
/// found there.
proof fn lemma_indexed_at(view: Seq<EntryView>, i: int)
    requires
        crate::vcs::index::index::sorted_paths(view),
        0 <= i < view.len(),
    ensures
        indexed(view, view[i].3) == Some(view[i]),
{
    let j = choose|j: int| 0 <= j < view.len() && #[trigger] view[j].3 == view[i].3;
    if j != i {
        if j < i {
            assert(crate::order::text_lt(view[j].3, view[i].3));
        } else {
            assert(crate::order::text_lt(view[i].3, view[j].3));
        }
        crate::order::lemma_text_lt_asymmetric(view[i].3, view[j].3);
    }
}

impl Migration {
    /// Plans the removal of each path that the diff deletes.
    fn plan_deletions(&mut self)
        ensures
            final(self).diff@ == old(self).diff@,
            final(self).errors@ == old(self).errors@,
            final(self).conflicts@ == old(self).conflicts@,
            changes_view(final(self).changes_to_make@) == changes_view(old(self).changes_to_make@) + planned_deletions(old(self).diff@),
    {
        let ghost d = self.diff@;
        let ghost c0 = changes_view(self.changes_to_make@);
        let mut k: usize = 0;
        assert(d.take(0) =~= Seq::<DiffChange>::empty());
        assert(c0 + planned_deletions(d.take(0)) =~= c0);
        while k < self.diff.len()
            invariant
                k <= d.len(),
                d == self.diff@,
                self.diff@ == old(self).diff@,
                self.errors@ == old(self).errors@,
                self.conflicts@ == old(self).conflicts@,
                c0 == changes_view(old(self).changes_to_make@),
                changes_view(self.changes_to_make@) == c0 + planned_deletions(d.take(k as int)),
            decreases d.len() - k,
        {
            assert(d.take(k + 1).drop_last() =~= d.take(k as int));
            assert(d.take(k + 1).last() == d[k as int]);
            if self.diff[k].old.is_some() && self.diff[k].new.is_none() {
                let ghost before = self.changes_to_make@;
                let path = copy_str(self.diff[k].path.as_str());
                self.changes_to_make.push(Change::Delete { path });
                assert(changes_view(self.changes_to_make@) =~= changes_view(before).push(ChangeView::Delete(d[k as int].path@)));
            }
            k += 1;
        }
        assert(d.take(d.len() as int) =~= d);
    }

    /// Works out what moving to the new tree takes: records the uncommitted
    /// changes of the working tree as conflicts and stops there when there
    /// are any; else plans the deletions of the diff, then decides each of
    /// its paths in turn (see `decide`), stopping at the first failure.
    /// `observations` holds what the workspace has at each path of the diff.
    fn analyze_changes(&mut self, index: &Index, workspace_changes: &Vec<(String, ChangeType)>,
        observations: Vec<PathObservation>) -> (r: Result<(), Error>)
        requires
            old(self).wf(),
            index.wf(),
            observations@.len() == old(self).diff@.len(),
        ensures
            final(self).wf(),
            final(self).diff@ == old(self).diff@,
            final(self).errors@ == old(self).errors@,
            texts(final(self).conflicts@[4].1@).to_set() == texts(old(self).conflicts@[4].1@).to_set()
                + conflict_paths(workspace_changes@.map_values(|c: (String, ChangeType)| (c.0@, c.1))).to_set(),
            forall|j: int| 0 <= j < 5 ==> #[trigger] final(self).conflicts@[j].0 == old(self).conflicts@[j].0,
            texts(final(self).conflicts@[4].1@).len() > 0 ==> r is Ok
                && final(self).changes_to_make@ == old(self).changes_to_make@
                && forall|j: int| 0 <= j < 4 ==> #[trigger] final(self).conflicts@[j] == old(self).conflicts@[j],
            texts(final(self).conflicts@[4].1@).len() == 0 ==> ({
                let ds = decisions(old(self).diff@, index.view_entries(), observations@);
                &&& (r is Ok <==> forall|k: int| 0 <= k < ds.len() ==> !(#[trigger] ds[k] is Fail))
                &&& (r matches Err(e) ==> exists|k: int| 0 <= k < ds.len() && ds[k] == PathDecision::Fail(e)
                        && forall|j: int| 0 <= j < k ==> !(#[trigger] ds[j] is Fail))
                &&& (r is Ok ==> changes_view(final(self).changes_to_make@) == changes_view(old(self).changes_to_make@)
                        + planned_deletions(old(self).diff@) + planned_writes(old(self).diff@, ds))
                &&& (r is Ok ==> forall|j: int| 0 <= j < 4 ==> texts(#[trigger] final(self).conflicts@[j].1@).to_set()
                        == texts(old(self).conflicts@[j].1@).to_set() + conflicted(old(self).diff@, ds, old(self).conflicts@[j].0))
            }),
    {
        let ghost cf_start = self.conflicts@;
        proof {
            lemma_slot_injective(cf_start[4].0, ConflictType::UncommittedChanges);
        }
        let any = self.record_uncommitted(workspace_changes);
        proof {
            assert forall|j: int| 0 <= j < 5 implies #[trigger] slot_of(self.conflicts@[j].0) == j by {
                if j < 4 { assert(self.conflicts@[j] == cf_start[j]); }
            }
            assert forall|j: int| 0 <= j < 5 implies texts(#[trigger] self.conflicts@[j].1@).no_duplicates() by {
                if j < 4 { assert(self.conflicts@[j] == cf_start[j]); }
            }
        }
        if any {
            return Ok(());
        }
        let ghost cf = self.conflicts@;
        self.plan_deletions();
        let ghost d = self.diff@;
        let ghost view = index.view_entries();
        let ghost obs0 = observations@;
        let ghost ds = decisions(d, view, obs0);
        let ghost c1 = changes_view(self.changes_to_make@);
        let mut pending = observations;
        let mut i: usize = 0;
        assert(ds.take(0) =~= Seq::<PathDecision>::empty());
        assert(obs0.skip(0) =~= obs0);
        proof {
            assert(c1 + planned_writes(d, ds.take(0)) =~= c1);
            assert forall|j: int| 0 <= j < 5 implies texts(#[trigger] cf[j].1@).to_set() + conflicted(d, ds.take(0), cf[j].0)
                == texts(cf[j].1@).to_set() by {
                assert(conflicted(d, ds.take(0), cf[j].0) =~= Set::<Seq<char>>::empty());
                assert(texts(cf[j].1@).to_set() + conflicted(d, ds.take(0), cf[j].0) =~= texts(cf[j].1@).to_set());
            }
        }
        while i < self.diff.len()
            invariant
                i <= d.len(),
                d == self.diff@,
                d == old(self).diff@,
                ds == decisions(d, view, obs0),
                view == index.view_entries(),
                index.wf(),
                obs0.len() == d.len(),
                pending@ == obs0.skip(i as int),
                obs0 == observations@,
                self.wf(),
                self.errors@ == old(self).errors@,
                forall|j: int| 0 <= j < 5 ==> #[trigger] self.conflicts@[j].0 == cf[j].0,
                cf[4] == self.conflicts@[4],
                texts(cf[4].1@).len() == 0,
                texts(cf[4].1@).to_set() == texts(old(self).conflicts@[4].1@).to_set()
                    + conflict_paths(workspace_changes@.map_values(|c: (String, ChangeType)| (c.0@, c.1))).to_set(),
                cf[4].0 == old(self).conflicts@[4].0,
                forall|j: int| 0 <= j < 5 ==> slot_of(#[trigger] cf[j].0) == j,
                forall|j: int| 0 <= j < 4 ==> #[trigger] cf[j] == old(self).conflicts@[j],
                forall|j: int| 0 <= j < i ==> !(#[trigger] ds[j] is Fail),
                c1 == changes_view(old(self).changes_to_make@) + planned_deletions(d),
                changes_view(self.changes_to_make@) == c1 + planned_writes(d, ds.take(i as int)),
                forall|j: int| 0 <= j < 5 ==> texts(#[trigger] self.conflicts@[j].1@).to_set()
                    == texts(cf[j].1@).to_set() + conflicted(d, ds.take(i as int), cf[j].0),
            decreases d.len() - i,
        {
            let ie = index.get_entry(self.diff[i].path.as_str());
            proof {
                if ie is Some {
                    let e = ie->0;
                    let q = choose|q: int| 0 <= q < index.entries_seq().len() && index.entries_seq()[q] == *e
                        && entry_view(*e) == index.view_entries()[q] && #[trigger] index.view_entries()[q].3 == d[i as int].path@;
                    lemma_indexed_at(view, q);
                } else {
                    assert(!(exists|q: int| 0 <= q < view.len() && #[trigger] view[q].3 == d[i as int].path@));
                }
                assert(opt_entry_view(ie) == indexed(view, d[i as int].path@));
            }
            let obs = pending.remove(0);
            assert(obs == obs0[i as int]);
            assert(pending@ =~= obs0.skip(i + 1));
            let ghost before_changes = changes_view(self.changes_to_make@);
            let ghost before_conf = self.conflicts@;
            let res = self.record_path(i, ie, obs);
            proof {
                assert(ds[i as int] == decide(rec(d[i as int].old), rec(d[i as int].new), opt_entry_view(ie), obs0[i as int]));
            }
            match res {
                Err(e) => {
                    proof {
                        assert(ds[i as int] == PathDecision::Fail(e));
                        assert(exists|k: int| 0 <= k < ds.len() && ds[k] == PathDecision::Fail(e)
                            && forall|j: int| 0 <= j < k ==> !(#[trigger] ds[j] is Fail));
                        assert(!(forall|k: int| 0 <= k < ds.len() ==> !(#[trigger] ds[k] is Fail)));
                    }
                    return Err(e);
                },
                Ok(()) => {},
            }
            proof {
                assert(!(ds[i as int] is Fail));
                assert(ds.take(i + 1).drop_last() =~= ds.take(i as int));
                assert(ds.take(i + 1)[i as int] == ds[i as int]);
                assert(changes_view(self.changes_to_make@) == c1 + planned_writes(d, ds.take(i + 1))) by {
                    match ds[i as int] {
                        PathDecision::Write(u, n) => {
                            assert(c1 + planned_writes(d, ds.take(i + 1)) =~= (c1 + planned_writes(d, ds.take(i as int))).push(
                                if u { ChangeView::Update(d[i as int].path@, n) } else { ChangeView::Create(d[i as int].path@, n) }));
                        },
                        _ => {},
                    }
                }
                assert forall|j: int| 0 <= j < 5 implies texts(#[trigger] self.conflicts@[j].1@).to_set()
                    == texts(cf[j].1@).to_set() + conflicted(d, ds.take(i + 1), cf[j].0) by {
                    lemma_conflicted_step(d, ds, i as int, cf[j].0);
                    match ds[i as int] {
                        PathDecision::Conflict(t) => {
                            if j == slot_of(t) {
                                lemma_slot_injective(cf[j].0, t);
                                lemma_with_once_set(texts(before_conf[j].1@), d[i as int].path@);
                                assert(texts(self.conflicts@[j].1@).to_set() =~= texts(cf[j].1@).to_set() + conflicted(d, ds.take(i + 1), cf[j].0));
                            } else {
                                assert(self.conflicts@[j] == before_conf[j]);
                                if cf[j].0 == t {
                                    assert(slot_of(cf[j].0) == j);
                                }
                            }
                        },
                        _ => {},
                    }
                }
                assert forall|j: int| 0 <= j < 5 implies #[trigger] self.conflicts@[j].0 == cf[j].0 by {
                    match ds[i as int] {
                        PathDecision::Conflict(t) => {
                            if j == slot_of(t) {
                                lemma_slot_injective(cf[j].0, t);
                            } else {
                                assert(self.conflicts@[j] == before_conf[j]);
                            }
                        },
                        _ => {},
                    }
                }
                match ds[i as int] {
                    PathDecision::Conflict(t) => {
                        // a decision never finds uncommitted changes
                        assert(slot_of(t) != 4);
                        assert(self.conflicts@[4] == before_conf[4]);
                    },
                    _ => {},
                }
            }
            i += 1;
        }
        proof {
            assert(ds.take(d.len() as int) =~= ds);
            assert(forall|j: int| 0 <= j < 4 ==> #[trigger] self.conflicts@[j].0 == old(self).conflicts@[j].0);
        }
        Ok(())
    }
}

/// The paths that a list of changes deletes, in order.
pub open spec fn deleted_paths(cs: Seq<ChangeView>) -> Seq<Seq<char>>
    decreases cs.len(),
{
    if cs.len() == 0 {
        Seq::empty()
    } else {
        let rest = deleted_paths(cs.drop_last());
        match cs.last() {
            ChangeView::Delete(p) => rest.push(p),
            _ => rest,
        }
    }
}

/// The paths and entries that a list of changes creates or updates, in
/// order.
pub open spec fn written(cs: Seq<ChangeView>) -> Seq<(Seq<char>, EntryRec)>
    decreases cs.len(),
{
    if cs.len() == 0 {
        Seq::empty()
    } else {
        let rest = written(cs.drop_last());
        match cs.last() {
            ChangeView::Create(p, e) => rest.push((p, e)),
            ChangeView::Update(p, e) => rest.push((p, e)),
            ChangeView::Delete(_) => rest,
        }
    }
}

/// The directories above a path that must exist for it, nearest first:
/// its parents, up to an empty one or `.`; `fuel` bounds the steps.
pub open spec fn dir_chain(p: Seq<char>, fuel: nat) -> Seq<Seq<char>>
    decreases fuel,
{
    if fuel == 0 {
        Seq::empty()
    } else {
        match path_parent(p) {
            None => Seq::empty(),
            Some(q) => if q.len() == 0 || q == "."@ { Seq::empty() } else { seq![q] + dir_chain(q, (fuel - 1) as nat) },
        }
    }
}

/// The directories that the written paths need.
pub open spec fn needed_dirs(ws: Seq<(Seq<char>, EntryRec)>) -> Set<Seq<char>> {
    Set::new(|q: Seq<char>| exists|k: int| 0 <= k < ws.len() && #[trigger] dir_chain(ws[k].0, (ws[k].0.len() + 1) as nat).contains(q))
}

/// The directories that deletions may leave empty: the parents of the
/// deleted paths, but an empty one and `.`.
pub open spec fn affected_dirs(ds: Seq<Seq<char>>) -> Set<Seq<char>> {
    Set::new(|q: Seq<char>| exists|k: int| 0 <= k < ds.len() && #[trigger] path_parent(ds[k]) == Some(q) && q.len() > 0 && q != "."@)
}

/// The length of a path in bytes, as `str::len` gives it.
pub open spec fn byte_len(p: Seq<char>) -> usize {
    encode_utf8(p).len() as usize
}

/// Shorter paths come first.
pub open spec fn by_length(s: Seq<Seq<char>>) -> bool {
    forall|i: int, j: int| 0 <= i < j < s.len() ==> byte_len(#[trigger] s[i]) <= byte_len(#[trigger] s[j])
}

/// The view of a planned write.
pub open spec fn write_view(w: (String, DatabaseEntry, bool)) -> (Seq<char>, EntryRec, bool) {
    (w.0@, (w.1.name@, w.1.oid@, w.1.mode@), w.2)
}

/// A written path and entry, with whether the entry is a directory.
pub open spec fn with_kind(x: (Seq<char>, EntryRec)) -> (Seq<char>, EntryRec, bool) {
    (x.0, x.1, new_is_directory(Some(x.1)))
}

/// What carrying out a migration does, step by step.
pub struct ExecutionPlan {
    /// Paths to remove from the index and the workspace, in order.
    pub deletions: Vec<String>,
    /// Directories to make, shorter ones first.
    pub directories: Vec<String>,
    /// Entries to write out and index, in order; the flag marks a directory
    /// entry, for which a directory is made instead.
    pub writes: Vec<(String, DatabaseEntry, bool)>,
    /// Directories that deletions may have left empty and that nothing
    /// needs: each is removed if it is empty.
    pub cleanup: Vec<String>,
}

/// `p` carries out the changes `cs`: it deletes their deleted paths in
/// order; makes each directory that their written paths need once,
/// shorter ones first; writes their entries in order, marking directory
/// entries; and lists once each parent of a deleted path (but an empty
/// one and `.`) that no written path needs.
pub open spec fn describes(p: ExecutionPlan, cs: Seq<ChangeView>) -> bool {
    &&& texts(p.deletions@) == deleted_paths(cs)
    &&& p.writes@.map_values(|w: (String, DatabaseEntry, bool)| write_view(w))
        == written(cs).map_values(|x: (Seq<char>, EntryRec)| with_kind(x))
    &&& texts(p.directories@).to_set() == needed_dirs(written(cs))
    &&& texts(p.directories@).no_duplicates()
    &&& by_length(texts(p.directories@))
    &&& texts(p.cleanup@).to_set() == affected_dirs(deleted_paths(cs)) - needed_dirs(written(cs))
    &&& texts(p.cleanup@).no_duplicates()
}

/// Adds `p` to a list kept in order of length unless it holds it already.
fn insert_by_length(list: &mut Vec<String>, p: &str)
    requires
        by_length(texts(old(list)@)),
        texts(old(list)@).no_duplicates(),
    ensures
        by_length(texts(final(list)@)),
        texts(final(list)@).no_duplicates(),
        texts(final(list)@).to_set() == texts(old(list)@).to_set().insert(p@),
{
    let mut i: usize = 0;
    while i < list.len()
        invariant
            i <= list@.len(),
            list@ == old(list)@,
            by_length(texts(old(list)@)),
            texts(old(list)@).no_duplicates(),
            forall|j: int| 0 <= j < i ==> #[trigger] texts(list@)[j] != p@,
        decreases list@.len() - i,
    {
        if str_eq(list[i].as_str(), p) {
            assert(texts(list@)[i as int] == p@);
            assert(texts(list@).contains(p@));
            assert(texts(list@).to_set() =~= texts(list@).to_set().insert(p@));
            return;
        }
        i += 1;
    }
    assert(!texts(list@).contains(p@));
    let n = p.len();
    let mut pos: usize = 0;
    while pos < list.len() && list[pos].as_str().len() <= n
        invariant
            pos <= list@.len(),
            list@ == old(list)@,
            n == byte_len(p@),
            forall|j: int| 0 <= j < pos ==> byte_len(#[trigger] texts(list@)[j]) <= byte_len(p@),
        decreases list@.len() - pos,
    {
        pos += 1;
    }
    let ghost before = texts(list@);
    list.insert(pos, copy_str(p));
    assert(texts(list@) =~= before.insert(pos as int, p@));
    proof {
        let t = before.insert(pos as int, p@);
        assert forall|a: int, b: int| 0 <= a < b < t.len() implies byte_len(#[trigger] t[a]) <= byte_len(#[trigger] t[b]) by {
            if b < pos {
            } else if b == pos {
            } else if a == pos {
                assert(t[b] == before[b - 1]);
                assert(byte_len(before[pos as int]) > byte_len(p@));
            } else if a < pos {
                assert(t[b] == before[b - 1]);
            } else {
                assert(t[a] == before[a - 1] && t[b] == before[b - 1]);
            }
        }
        assert forall|a: int, b: int| 0 <= a < t.len() && 0 <= b < t.len() && a != b implies t[a] != t[b] by {
            if a == pos {
                if b < pos { assert(t[b] == before[b]); } else { assert(t[b] == before[b - 1]); }
            } else if b == pos {
                if a < pos { assert(t[a] == before[a]); } else { assert(t[a] == before[a - 1]); }
            } else {
                let a2 = if a < pos { a } else { a - 1 };
                let b2 = if b < pos { b } else { b - 1 };
                assert(t[a] == before[a2] && t[b] == before[b2]);
            }
        }
        assert forall|x: Seq<char>| t.contains(x) <==> before.contains(x) || x == p@ by {
            if t.contains(x) {
                let a = choose|a: int| 0 <= a < t.len() && t[a] == x;
                if a < pos { assert(before[a] == x); } else if a > pos { assert(before[a - 1] == x); }
            }
            if before.contains(x) {
                let a = choose|a: int| 0 <= a < before.len() && before[a] == x;
                if a < pos { assert(t[a] == x); } else { assert(t[a + 1] == x); }
            }
            if x == p@ {
                assert(t[pos as int] == x);
            }
        }
        assert(t.to_set() =~= before.to_set().insert(p@));
    }
}

/// Adds the directories above `p` to a list kept in order of length.
fn add_dir_chain(dirs: &mut Vec<String>, p: &str)
    requires
        by_length(texts(old(dirs)@)),
        texts(old(dirs)@).no_duplicates(),
    ensures
        by_length(texts(final(dirs)@)),
        texts(final(dirs)@).no_duplicates(),
        texts(final(dirs)@).to_set() == texts(old(dirs)@).to_set() + dir_chain(p@, (p@.len() + 1) as nat).to_set(),
{
    let ghost fuel: nat = (p@.len() + 1) as nat;
    let ghost base = texts(dirs@).to_set();
    let mut current = copy_str(p);
    let ghost mut remaining: nat = fuel;
    assert(base + dir_chain(p@, fuel).to_set() == base + dir_chain(current@, remaining).to_set());
    loop
        invariant
            current@.len() + 1 <= remaining,
            base == texts(old(dirs)@).to_set(),
            fuel == (p@.len() + 1) as nat,
            by_length(texts(dirs@)),
            texts(dirs@).no_duplicates(),
            texts(dirs@).to_set() + dir_chain(current@, remaining).to_set() == base + dir_chain(p@, fuel).to_set(),
        decreases current@.len(),
    {
        let ghost chain = dir_chain(current@, remaining);
        match crate::paths::parent_of(current.as_str()) {
            None => {
                assert(chain =~= Seq::<Seq<char>>::empty());
                assert(texts(dirs@).to_set() + chain.to_set() =~= texts(dirs@).to_set());
                return;
            },
            Some(parent) => {
                if crate::text::str_is_empty(parent.as_str()) || str_eq(parent.as_str(), ".") {
                    assert(chain =~= Seq::<Seq<char>>::empty());
                    assert(texts(dirs@).to_set() + chain.to_set() =~= texts(dirs@).to_set());
                    return;
                }
                let ghost before = texts(dirs@).to_set();
                insert_by_length(dirs, parent.as_str());
                proof {
                    let rest = dir_chain(parent@, (remaining - 1) as nat);
                    assert(chain == seq![parent@] + rest);
                    assert(chain.to_set() =~= rest.to_set().insert(parent@)) by {
                        assert forall|x: Seq<char>| chain.contains(x) <==> rest.contains(x) || x == parent@ by {
                            if chain.contains(x) {
                                let a = choose|a: int| 0 <= a < chain.len() && chain[a] == x;
                                if a > 0 { assert(rest[a - 1] == x); }
                            }
                            if rest.contains(x) {
                                let a = choose|a: int| 0 <= a < rest.len() && rest[a] == x;
                                assert(chain[a + 1] == x);
                            }
                            if x == parent@ { assert(chain[0] == x); }
                        }
                    }
                    assert(texts(dirs@).to_set() + rest.to_set() =~= before + chain.to_set());
                    remaining = (remaining - 1) as nat;
                }
                current = parent;
            },
        }
    }
}

impl Migration {
    /// The steps that carry out the planned changes: the deletions, the
    /// directories that the written paths need (shorter ones first), the
    /// writes, and the directories that deletions may leave empty and
    /// that nothing needs.
    pub fn execution_plan(&self) -> (p: ExecutionPlan)
        ensures
            describes(p, changes_view(self.changes_to_make@)),
    {
        let ghost cs = changes_view(self.changes_to_make@);
        let mut deletions: Vec<String> = Vec::new();
        let mut writes: Vec<(String, DatabaseEntry, bool)> = Vec::new();
        let mut k: usize = 0;
        assert(cs.take(0) =~= Seq::<ChangeView>::empty());
        assert(texts(deletions@) =~= Seq::<Seq<char>>::empty());
        assert(writes@.map_values(|w: (String, DatabaseEntry, bool)| write_view(w)) =~= Seq::<(Seq<char>, EntryRec, bool)>::empty());
        assert(written(cs.take(0)).map_values(|x: (Seq<char>, EntryRec)| with_kind(x)) =~= Seq::<(Seq<char>, EntryRec, bool)>::empty());
        while k < self.changes_to_make.len()
            invariant
                k <= cs.len(),
                cs == changes_view(self.changes_to_make@),
                texts(deletions@) == deleted_paths(cs.take(k as int)),
                writes@.map_values(|w: (String, DatabaseEntry, bool)| write_view(w))
                    == written(cs.take(k as int)).map_values(|x: (Seq<char>, EntryRec)| with_kind(x)),
            decreases cs.len() - k,
        {
            assert(cs.take(k + 1).drop_last() =~= cs.take(k as int));
            assert(cs.take(k + 1).last() == cs[k as int]);
            let ghost before_d = texts(deletions@);
            let ghost before_w = writes@.map_values(|w: (String, DatabaseEntry, bool)| write_view(w));
            match &self.changes_to_make[k] {
                Change::Delete { path } => {
                    deletions.push(copy_str(path.as_str()));
                    assert(texts(deletions@) =~= before_d.push(path@));
                },
                Change::Create { path, entry } | Change::Update { path, entry } => {
                    let is_dir = str_eq(entry.get_mode(), "040000")
                        || crate::vcs::file_mode::FileMode::is_directory(crate::vcs::file_mode::FileMode::parse(entry.get_mode()));
                    writes.push((copy_str(path.as_str()), copy_entry(entry), is_dir));
                    assert(writes@.map_values(|w: (String, DatabaseEntry, bool)| write_view(w)) =~= before_w.push(
                        with_kind((path@, (entry.name@, entry.oid@, entry.mode@)))));
                    assert(written(cs.take(k + 1)).map_values(|x: (Seq<char>, EntryRec)| with_kind(x)) =~=
                        written(cs.take(k as int)).map_values(|x: (Seq<char>, EntryRec)| with_kind(x)).push(
                        with_kind((path@, (entry.name@, entry.oid@, entry.mode@)))));
                },
            }
            k += 1;
        }
        assert(cs.take(cs.len() as int) =~= cs);
        let ghost ws = written(cs);
        assert forall|j: int| 0 <= j < ws.len() implies #[trigger] ws[j].0 == writes@[j].0@ by {
            assert(writes@.map_values(|w: (String, DatabaseEntry, bool)| write_view(w))[j]
                == ws.map_values(|x: (Seq<char>, EntryRec)| with_kind(x))[j]);
        }
        let mut dirs: Vec<String> = Vec::new();
        let mut w: usize = 0;
        assert(needed_dirs(ws.take(0)) =~= Set::<Seq<char>>::empty());
        assert(texts(dirs@).to_set() =~= Set::<Seq<char>>::empty());
        while w < writes.len()
            invariant
                w <= writes@.len(),
                ws.len() == writes@.len(),
                forall|j: int| 0 <= j < ws.len() ==> #[trigger] ws[j].0 == writes@[j].0@,
                by_length(texts(dirs@)),
                texts(dirs@).no_duplicates(),
                texts(dirs@).to_set() == needed_dirs(ws.take(w as int)),
            decreases writes@.len() - w,
        {
            let ghost before = texts(dirs@).to_set();
            add_dir_chain(&mut dirs, writes[w].0.as_str());
            proof {
                let chain_w = dir_chain(ws[w as int].0, (ws[w as int].0.len() + 1) as nat);
                assert forall|q: Seq<char>| needed_dirs(ws.take(w + 1)).contains(q) <==> before.contains(q) || chain_w.to_set().contains(q) by {
                    let t1 = ws.take(w + 1);
                    let t0 = ws.take(w as int);
                    if needed_dirs(t1).contains(q) {
                        let a = choose|a: int| 0 <= a < t1.len() && #[trigger] dir_chain(t1[a].0, (t1[a].0.len() + 1) as nat).contains(q);
                        if a < w { assert(t0[a] == t1[a]); assert(needed_dirs(t0).contains(q)); }
                    }
                    if before.contains(q) {
                        let a = choose|a: int| 0 <= a < t0.len() && #[trigger] dir_chain(t0[a].0, (t0[a].0.len() + 1) as nat).contains(q);
                        assert(t1[a] == t0[a]);
                    }
                    if chain_w.to_set().contains(q) {
                        assert(t1[w as int] == ws[w as int]);
                    }
                }
                assert(texts(dirs@).to_set() =~= needed_dirs(ws.take(w + 1)));
            }
            w += 1;
        }
        assert(ws.take(ws.len() as int) =~= ws);
        let ghost dl = deleted_paths(cs);
        let mut cleanup: Vec<String> = Vec::new();
        let mut d: usize = 0;
        assert(texts(cleanup@).to_set() =~= Set::<Seq<char>>::empty());
        assert(affected_dirs(dl.take(0)) =~= Set::<Seq<char>>::empty());
        while d < deletions.len()
            invariant
                d <= deletions@.len(),
                dl == texts(deletions@),
                texts(dirs@).to_set() == needed_dirs(ws),
                texts(cleanup@).no_duplicates(),
                texts(cleanup@).to_set() == affected_dirs(dl.take(d as int)) - needed_dirs(ws),
            decreases deletions@.len() - d,
        {
            let ghost before = texts(cleanup@);
            let ghost pd = deletions@[d as int]@;
            match crate::paths::parent_of(deletions[d].as_str()) {
                Some(parent) => {
                    if !crate::text::str_is_empty(parent.as_str()) && !str_eq(parent.as_str(), ".")
                        && !contains_text(&dirs, parent.as_str()) {
                        add_once(&mut cleanup, parent.as_str());
                        proof {
                            lemma_with_once_no_dup(before, parent@);
                            lemma_with_once_set(before, parent@);
                        }
                    }
                },
                None => {},
            }
            proof {
                let t1 = dl.take(d + 1);
                let t0 = dl.take(d as int);
                assert forall|q: Seq<char>| #![auto] (affected_dirs(t1) - needed_dirs(ws)).contains(q) <==> texts(cleanup@).to_set().contains(q) by {
                    if affected_dirs(t1).contains(q) {
                        let a = choose|a: int| 0 <= a < t1.len() && #[trigger] path_parent(t1[a]) == Some(q) && q.len() > 0 && q != "."@;
                        if a < d { assert(t0[a] == t1[a]); assert(affected_dirs(t0).contains(q)); }
                    }
                    if affected_dirs(t0).contains(q) {
                        let a = choose|a: int| 0 <= a < t0.len() && #[trigger] path_parent(t0[a]) == Some(q) && q.len() > 0 && q != "."@;
                        assert(t1[a] == t0[a]);
                    }
                    if path_parent(pd) == Some(q) && q.len() > 0 && q != "."@ {
                        assert(t1[d as int] == pd);
                    }
                }
                assert(texts(cleanup@).to_set() =~= affected_dirs(t1) - needed_dirs(ws));
            }
            d += 1;
        }
        assert(dl.take(dl.len() as int) =~= dl);
        ExecutionPlan { deletions, directories: dirs, writes, cleanup }
    }
}

/// Whether a list holds a path.
fn contains_text(list: &Vec<String>, p: &str) -> (r: bool)
    ensures
        r == texts(list@).to_set().contains(p@),
{
    let mut i: usize = 0;
    while i < list.len()
        invariant
            i <= list@.len(),
            forall|j: int| 0 <= j < i ==> #[trigger] texts(list@)[j] != p@,
        decreases list@.len() - i,
    {
        if str_eq(list[i].as_str(), p) {
            assert(texts(list@)[i as int] == p@);
            return true;
        }
        i += 1;
    }
    false
}

impl Migration {
    /// Works out the migration: records the uncommitted changes of the
    /// working tree, decides each path of the diff (see `analyze_changes`),
    /// refuses with the conflict messages when any conflict was found, and
    /// else gives the steps that carry the changes out.
    /// `observations` holds what the workspace has at each path of the diff.
    pub fn apply_changes(&mut self, index: &Index, workspace_changes: &Vec<(String, ChangeType)>,
        observations: Vec<PathObservation>) -> (r: Result<ExecutionPlan, Error>)
        requires
            old(self).wf(),
            index.wf(),
            observations@.len() == old(self).diff@.len(),
        ensures
            final(self).wf(),
            final(self).diff@ == old(self).diff@,
            texts(final(self).conflicts@[4].1@).to_set() == texts(old(self).conflicts@[4].1@).to_set()
                + conflict_paths(workspace_changes@.map_values(|c: (String, ChangeType)| (c.0@, c.1))).to_set(),
            ({
                let ds = decisions(old(self).diff@, index.view_entries(), observations@);
                let failed = exists|k: int| 0 <= k < ds.len() && (#[trigger] ds[k]) is Fail;
                let analyzed = texts(final(self).conflicts@[4].1@).len() > 0 || !failed;
                &&& (!analyzed ==> (r matches Err(e) && exists|k: int| 0 <= k < ds.len() && ds[k] == PathDecision::Fail(e)
                        && forall|j: int| 0 <= j < k ==> !(#[trigger] ds[j] is Fail)))
                &&& (analyzed ==> (r is Ok <==> (old(self).errors@.len() == 0
                        && forall|j: int| 0 <= j < 5 ==> (#[trigger] final(self).conflicts@[j]).1@.len() == 0)))
                &&& (analyzed && r is Err ==> (r matches Err(Error::Generic(m)) && m@ == "Checkout failed due to conflicts"@))
                &&& (r matches Ok(p) ==> describes(p, changes_view(final(self).changes_to_make@)))
                &&& (texts(final(self).conflicts@[4].1@).len() == 0 && !failed ==> (
                        changes_view(final(self).changes_to_make@) == changes_view(old(self).changes_to_make@)
                            + planned_deletions(old(self).diff@) + planned_writes(old(self).diff@, ds)
                        && forall|j: int| 0 <= j < 4 ==> texts(#[trigger] final(self).conflicts@[j].1@).to_set()
                            == texts(old(self).conflicts@[j].1@).to_set() + conflicted(old(self).diff@, ds, old(self).conflicts@[j].0)))
            }),
    {
        let ghost ds = decisions(self.diff@, index.view_entries(), observations@);
        match self.analyze_changes(index, workspace_changes, observations) {
            Err(e) => {
                return Err(e);
            },
            Ok(()) => {},
        }
        let ghost analyzed = self.conflicts@;
        match self.check_conflicts() {
            Err(e) => {
                return Err(e);
            },
            Ok(()) => {},
        }
        assert(self.conflicts@ == analyzed);
        Ok(self.execution_plan())
    }
}

} // verus!
