//! `status`: how the index differs from HEAD, and the workspace from the
//! index, path by path; and the two ways of printing it.
use vstd::prelude::*;
use crate::keyed::{distinct_keys, has_key, key_index, upsert, upsert_all, lemma_key_index_unique, lemma_upsert_distinct};
use crate::text::{str_eq, texts, copy_str};
use crate::numeral::{parse_radix_spec, decimal};
use crate::stdtext::trim;
use crate::vcs::database::entry::{DatabaseEntry, normalized_mode};
use crate::vcs::index::entry::{Entry, FileStat, parents_of};
use crate::vcs::file_mode::{modes_equivalent, mode_is_executable};
use crate::vcs::database::database::{Database, object_id};
use crate::vcs::index::index::Index;
use crate::vcs::database::tree::{Tree, TreeEntry, EntryView, parse_raw, insert_all};
use crate::vcs::database::database::{StoredObject, GitObject};
use crate::paths::{joined, join_path};
use crate::errors::error::Error;

verus! {

/// A kind of change of a path.
#[derive(Debug, Clone, Copy, PartialEq, Eq, Structural)]
pub enum ChangeType {
    WorkspaceModified,
    WorkspaceDeleted,
    IndexAdded,
    IndexModified,
    IndexDeleted,
}

/// The kinds of change recorded for a path.
#[derive(Debug, Clone, Copy, PartialEq, Eq, Structural)]
pub struct ChangeFlags {
    pub workspace_modified: bool,
    pub workspace_deleted: bool,
    pub index_added: bool,
    pub index_modified: bool,
    pub index_deleted: bool,
}

/// No change recorded.
pub open spec fn no_changes() -> ChangeFlags {
    ChangeFlags {
        workspace_modified: false,
        workspace_deleted: false,
        index_added: false,
        index_modified: false,
        index_deleted: false,
    }
}

/// The kinds `f` together with `c`.
pub open spec fn with_change(f: ChangeFlags, c: ChangeType) -> ChangeFlags {
    match c {
        ChangeType::WorkspaceModified => ChangeFlags { workspace_modified: true, ..f },
        ChangeType::WorkspaceDeleted => ChangeFlags { workspace_deleted: true, ..f },
        ChangeType::IndexAdded => ChangeFlags { index_added: true, ..f },
        ChangeType::IndexModified => ChangeFlags { index_modified: true, ..f },
        ChangeType::IndexDeleted => ChangeFlags { index_deleted: true, ..f },
    }
}

/// The kinds recorded for `p` in a list of changes.
pub open spec fn flags_in(s: Seq<(Seq<char>, ChangeFlags)>, p: Seq<char>) -> ChangeFlags {
    if has_key(s, p) {
        s[key_index(s, p)].1
    } else {
        no_changes()
    }
}

/// The list of changes after recording `c` for `p`.
pub open spec fn recorded(s: Seq<(Seq<char>, ChangeFlags)>, p: Seq<char>, c: ChangeType) -> Seq<(Seq<char>, ChangeFlags)> {
    upsert(s, p, with_change(flags_in(s, p), c))
}

/// The list after recording `c` for each path of `ps` in turn.
pub open spec fn recorded_all(s: Seq<(Seq<char>, ChangeFlags)>, ps: Seq<Seq<char>>, c: ChangeType) -> Seq<(Seq<char>, ChangeFlags)>
    decreases ps.len(),
{
    if ps.len() == 0 {
        s
    } else {
        recorded(recorded_all(s, ps.drop_last(), c), ps.last(), c)
    }
}

/// A changed path and the kinds of its change.
#[derive(Debug, Clone)]
pub struct PathChange {
    pub path: String,
    pub flags: ChangeFlags,
}

/// The changed paths, each once, in the order in which they were first
/// recorded, with the kinds of their changes.
pub struct Changes {
    entries: Vec<PathChange>,
}

impl View for Changes {
    type V = Seq<(Seq<char>, ChangeFlags)>;

    closed spec fn view(&self) -> Seq<(Seq<char>, ChangeFlags)> {
        self.entries@.map_values(|e: PathChange| (e.path@, e.flags))
    }
}

impl Changes {
    /// No path occurs twice.
    pub open spec fn wf(&self) -> bool {
        distinct_keys(self@)
    }

    /// The kinds recorded for `p`.
    pub open spec fn flags_of(&self, p: Seq<char>) -> ChangeFlags {
        flags_in(self@, p)
    }

    /// No change recorded.
    pub fn new() -> (c: Self)
        ensures
            c@ == Seq::<(Seq<char>, ChangeFlags)>::empty(),
            c.wf(),
    {
        let c = Changes { entries: Vec::new() };
        assert(c@ =~= Seq::<(Seq<char>, ChangeFlags)>::empty());
        c
    }

    /// Where the record of `p` stands.
    fn position(&self, p: &str) -> (r: Option<usize>)
        requires
            self.wf(),
        ensures
            r matches Some(i) ==> i < self@.len() && self@[i as int].0 == p@ && key_index(self@, p@) == i,
            r is Some <==> has_key(self@, p@),
    {
        let mut i: usize = 0;
        while i < self.entries.len()
            invariant
                i <= self.entries@.len(),
                self@.len() == self.entries@.len(),
                self.wf(),
                forall|j: int| 0 <= j < i ==> #[trigger] self@[j].0 != p@,
            decreases self.entries@.len() - i,
        {
            assert(self@[i as int].0 == self.entries@[i as int].path@);
            if str_eq(self.entries[i].path.as_str(), p) {
                proof {
                    lemma_key_index_unique(self@, p@, i as int);
                }
                return Some(i);
            }
            i += 1;
        }
        None
    }

    /// Records a change of `path` (`changed.insert` and the path's set of kinds).
    pub fn record(&mut self, path: String, change: ChangeType)
        requires
            old(self).wf(),
        ensures
            final(self).wf(),
            final(self)@ == recorded(old(self)@, path@, change),
    {
        proof {
            lemma_upsert_distinct(self@, path@, with_change(flags_in(self@, path@), change));
        }
        match self.position(path.as_str()) {
            Some(i) => {
                let f = self.entries[i].flags;
                let updated = add_change(f, change);
                let entry = PathChange { path, flags: updated };
                self.entries.set(i, entry);
                assert(self@ =~= recorded(old(self)@, entry.path@, change));
            },
            None => {
                let entry = PathChange { path, flags: add_change(ChangeFlags {
                    workspace_modified: false,
                    workspace_deleted: false,
                    index_added: false,
                    index_modified: false,
                    index_deleted: false,
                }, change) };
                let ghost p = entry.path@;
                self.entries.push(entry);
                assert(self@ =~= recorded(old(self)@, p, change));
            },
        }
    }

    /// The kinds recorded for `path`.
    pub fn get(&self, path: &str) -> (f: ChangeFlags)
        requires
            self.wf(),
        ensures
            f == self.flags_of(path@),
    {
        match self.position(path) {
            Some(i) => self.entries[i].flags,
            None => ChangeFlags {
                workspace_modified: false,
                workspace_deleted: false,
                index_added: false,
                index_modified: false,
                index_deleted: false,
            },
        }
    }

    /// Whether `path` has a recorded change.
    pub fn contains(&self, path: &str) -> (r: bool)
        requires
            self.wf(),
        ensures
            r == has_key(self@, path@),
    {
        self.position(path).is_some()
    }

    /// The changed paths, in the order first recorded.
    pub fn paths(&self) -> (r: Vec<String>)
        ensures
            texts(r@) == self@.map_values(|e: (Seq<char>, ChangeFlags)| e.0),
    {
        let mut r: Vec<String> = Vec::new();
        let mut i: usize = 0;
        while i < self.entries.len()
            invariant
                i <= self.entries@.len(),
                texts(r@) == self@.map_values(|e: (Seq<char>, ChangeFlags)| e.0).take(i as int),
            decreases self.entries@.len() - i,
        {
            let ghost before = texts(r@);
            assert(self@[i as int].0 == self.entries@[i as int].path@);
            let s = self.entries[i].path.clone();
            r.push(s);
            assert(texts(r@) =~= before.push(self@[i as int].0));
            assert(texts(r@) =~= self@.map_values(|e: (Seq<char>, ChangeFlags)| e.0).take(i + 1));
            i += 1;
        }
        assert(self@.map_values(|e: (Seq<char>, ChangeFlags)| e.0).take(self@.len() as int)
            =~= self@.map_values(|e: (Seq<char>, ChangeFlags)| e.0));
        r
    }

    /// How many paths changed.
    pub fn len(&self) -> (n: usize)
        ensures
            n == self@.len(),
    {
        self.entries.len()
    }
}

/// The kinds `f` together with `c`.
fn add_change(f: ChangeFlags, c: ChangeType) -> (r: ChangeFlags)
    ensures
        r == with_change(f, c),
{
    match c {
        ChangeType::WorkspaceModified => ChangeFlags { workspace_modified: true, ..f },
        ChangeType::WorkspaceDeleted => ChangeFlags { workspace_deleted: true, ..f },
        ChangeType::IndexAdded => ChangeFlags { index_added: true, ..f },
        ChangeType::IndexModified => ChangeFlags { index_modified: true, ..f },
        ChangeType::IndexDeleted => ChangeFlags { index_deleted: true, ..f },
    }
}

/// The records of a tree as read from HEAD: each path with the id and the
/// mode text of its entry, each path once.
pub struct HeadTree {
    entries: Vec<DatabaseEntry>,
}

/// What the head tree records of a path: its id and mode text.
pub type HeadRecord = (Seq<char>, Seq<char>);

impl View for HeadTree {
    type V = Seq<(Seq<char>, HeadRecord)>;

    closed spec fn view(&self) -> Seq<(Seq<char>, HeadRecord)> {
        self.entries@.map_values(|e: DatabaseEntry| (e.name@, (e.oid@, e.mode@)))
    }
}

impl HeadTree {
    /// No path occurs twice.
    pub open spec fn wf(&self) -> bool {
        distinct_keys(self@)
    }

    /// An empty tree.
    pub fn new() -> (t: Self)
        ensures
            t@ == Seq::<(Seq<char>, HeadRecord)>::empty(),
            t.wf(),
    {
        let t = HeadTree { entries: Vec::new() };
        assert(t@ =~= Seq::<(Seq<char>, HeadRecord)>::empty());
        t
    }

    /// Where the record of `p` stands.
    fn position(&self, p: &str) -> (r: Option<usize>)
        requires
            self.wf(),
        ensures
            r matches Some(i) ==> i < self@.len() && self@[i as int].0 == p@ && key_index(self@, p@) == i,
            r is Some <==> has_key(self@, p@),
    {
        let mut i: usize = 0;
        while i < self.entries.len()
            invariant
                i <= self.entries@.len(),
                self@.len() == self.entries@.len(),
                self.wf(),
                forall|j: int| 0 <= j < i ==> #[trigger] self@[j].0 != p@,
            decreases self.entries@.len() - i,
        {
            assert(self@[i as int].0 == self.entries@[i as int].name@);
            if str_eq(self.entries[i].name.as_str(), p) {
                proof {
                    lemma_key_index_unique(self@, p@, i as int);
                }
                return Some(i);
            }
            i += 1;
        }
        None
    }

    /// Sets the record of the entry's path (a map's `insert`).
    pub fn insert(&mut self, entry: DatabaseEntry)
        requires
            old(self).wf(),
        ensures
            final(self).wf(),
            final(self)@ == upsert(old(self)@, entry.name@, (entry.oid@, entry.mode@)),
    {
        proof {
            lemma_upsert_distinct(self@, entry.name@, (entry.oid@, entry.mode@));
        }
        let ghost e = entry;
        match self.position(entry.name.as_str()) {
            Some(i) => {
                self.entries.set(i, entry);
            },
            None => {
                self.entries.push(entry);
            },
        }
        assert(self@ =~= upsert(old(self)@, e.name@, (e.oid@, e.mode@)));
    }

    /// The entry of a path.
    pub fn get(&self, path: &str) -> (r: Option<&DatabaseEntry>)
        requires
            self.wf(),
        ensures
            r is Some <==> has_key(self@, path@),
            r matches Some(e) ==> (e.oid@, e.mode@) == self@[key_index(self@, path@)].1 && e.name@ == path@,
    {
        match self.position(path) {
            Some(i) => Some(&self.entries[i]),
            None => None,
        }
    }

    /// Whether the tree has no record.
    pub fn is_empty(&self) -> (r: bool)
        ensures
            r == (self@.len() == 0),
    {
        self.entries.len() == 0
    }

    /// The entries, in the order first inserted.
    pub fn entries(&self) -> (r: &Vec<DatabaseEntry>)
        ensures
            r@.map_values(|e: DatabaseEntry| (e.name@, (e.oid@, e.mode@))) == self@,
    {
        &self.entries
    }
}

/// The number a mode text stands for when read as octal, after trimming
/// and dropping one leading `0`; zero when it does not read.
pub open spec fn mode_text_value(s: Seq<char>) -> nat {
    let t = trim(s);
    let digits = if t.len() > 0 && t[0] == '0' { t.drop_first() } else { t };
    match parse_radix_spec(digits, 8, 0xffff_ffffnat) {
        Some(v) => v,
        None => 0,
    }
}

/// A mode text names a directory.
pub open spec fn is_directory_mode_text(s: Seq<char>) -> bool {
    (mode_text_value(s) as u32 & 0o170000u32) == 0o040000u32
}

/// `p` followed by a separator, unless it ends with one.
pub open spec fn dir_prefix(p: Seq<char>) -> Seq<char> {
    if p.len() > 0 && p.last() == '/' {
        p
    } else {
        p.push('/')
    }
}

/// Some path of `paths` lies below the directory `p`.
pub open spec fn has_path_below(p: Seq<char>, paths: Seq<Seq<char>>) -> bool {
    exists|i: int| 0 <= i < paths.len() && dir_prefix(p).is_prefix_of(#[trigger] paths[i])
}

/// The paths of the index.
pub open spec fn index_paths(index: &Index) -> Seq<Seq<char>> {
    index.view_entries().map_values(|e: crate::vcs::index::index::EntryView| e.3)
}

/// The change that comparing an index entry with HEAD finds: added when
/// HEAD is empty or lacks the path, modified when the ids differ, none for
/// a directory record or an unchanged file.
pub open spec fn head_change(path: Seq<char>, oid: Seq<char>, head: Seq<(Seq<char>, HeadRecord)>) -> Option<ChangeType> {
    if head.len() == 0 || !has_key(head, path) {
        Some(ChangeType::IndexAdded)
    } else {
        let r = head[key_index(head, path)].1;
        if is_directory_mode_text(r.1) {
            None
        } else if r.0 != oid {
            Some(ChangeType::IndexModified)
        } else {
            None
        }
    }
}

/// The file paths of HEAD, in order, that the index neither has nor has
/// anything below.
pub open spec fn deleted_from_index(head: Seq<(Seq<char>, HeadRecord)>, paths: Seq<Seq<char>>) -> Seq<Seq<char>>
    decreases head.len(),
{
    if head.len() == 0 {
        Seq::empty()
    } else {
        let rest = deleted_from_index(head.drop_last(), paths);
        let r = head.last();
        if !is_directory_mode_text(r.1.1) && !paths.contains(r.0) && !has_path_below(r.0, paths) {
            rest.push(r.0)
        } else {
            rest
        }
    }
}

/// The `status` command.
pub struct StatusCommand;

impl StatusCommand {
    /// Whether a mode text names a directory (its octal value has the
    /// directory type bits).
    pub fn is_directory_from_mode(mode_str: &str) -> (r: bool)
        ensures
            r == is_directory_mode_text(mode_str@),
    {
        let chars = crate::text::chars_of(mode_str);
        let t = crate::stdtext::trim_chars(chars.as_slice());
        let digits = if t.len() > 0 && t[0] == '0' {
            crate::text::slice_chars(t.as_slice(), 1, t.len())
        } else {
            t
        };
        assert(t@.len() > 0 && t@[0] == '0' ==> digits@ =~= t@.drop_first());
        let value: u64 = match crate::numeral::parse_radix(digits.as_slice(), 8, 0xffff_ffff) {
            Some(v) => v,
            None => 0,
        };
        ((value as u32) & 0o170000) == 0o040000
    }

    /// Whether a path looks like a directory: it ends with a separator or
    /// has no dot.
    pub fn is_directory_path(path: &str) -> (r: bool)
        ensures
            r == ((path@.len() > 0 && path@.last() == '/') || !path@.contains('.')),
    {
        let cs = crate::text::chars_of(path);
        (cs.len() > 0 && cs[cs.len() - 1] == '/') || !crate::text::contains_char(cs.as_slice(), '.')
    }

    /// `path` with a separator at its end.
    fn with_separator(path: &str) -> (r: String)
        ensures
            r@ == dir_prefix(path@),
    {
        let cs = crate::text::chars_of(path);
        let mut r = copy_str(path);
        if !(cs.len() > 0 && cs[cs.len() - 1] == '/') {
            crate::text::push_char(&mut r, '/');
        }
        r
    }

    /// Whether some path of the index lies below the directory `path`.
    pub fn is_parent_of_tracked_files(path: &str, index: &Index) -> (r: bool)
        ensures
            r == has_path_below(path@, index_paths(index)),
    {
        let prefix = Self::with_separator(path);
        let entries = index.each_entry();
        let mut i: usize = 0;
        while i < entries.len()
            invariant
                i <= entries@.len(),
                prefix@ == dir_prefix(path@),
                entries@.map_values(|e: Entry| crate::vcs::index::index::entry_view(e)) == index.view_entries(),
                forall|j: int| 0 <= j < i ==> !dir_prefix(path@).is_prefix_of(#[trigger] index_paths(index)[j]),
            decreases entries@.len() - i,
        {
            assert(index_paths(index)[i as int] == entries@[i as int].path@);
            if crate::text::str_starts_with(entries[i].path.as_str(), prefix.as_str()) {
                return true;
            }
            i += 1;
        }
        false
    }

    /// Whether `path` lies below one of the directories `deleted_dirs`.
    pub fn is_within_deleted_dir(path: &str, deleted_dirs: &Vec<String>) -> (r: bool)
        ensures
            r == exists|i: int| 0 <= i < deleted_dirs@.len() && dir_prefix(#[trigger] deleted_dirs@[i]@).is_prefix_of(path@),
    {
        let mut i: usize = 0;
        while i < deleted_dirs.len()
            invariant
                i <= deleted_dirs@.len(),
                forall|j: int| 0 <= j < i ==> !dir_prefix(#[trigger] deleted_dirs@[j]@).is_prefix_of(path@),
            decreases deleted_dirs@.len() - i,
        {
            let prefix = Self::with_separator(deleted_dirs[i].as_str());
            if crate::text::str_starts_with(path, prefix.as_str()) {
                return true;
            }
            i += 1;
        }
        false
    }

    /// Records how an index entry differs from HEAD.
    pub fn check_index_against_head_tree(index_entry: &Entry, head_tree: &HeadTree, changes: &mut Changes)
        requires
            old(changes).wf(),
            head_tree.wf(),
        ensures
            final(changes).wf(),
            final(changes)@ == match head_change(index_entry.path@, index_entry.oid@, head_tree@) {
                Some(c) => recorded(old(changes)@, index_entry.path@, c),
                None => old(changes)@,
            },
    {
        let path = index_entry.get_path();
        if head_tree.is_empty() {
            changes.record(copy_str(path), ChangeType::IndexAdded);
            return;
        }
        match head_tree.get(path) {
            Some(head_entry) => {
                if Self::is_directory_from_mode(head_entry.get_mode()) {
                    return;
                }
                if !str_eq(index_entry.oid.as_str(), head_entry.get_oid()) {
                    changes.record(copy_str(path), ChangeType::IndexModified);
                }
            },
            None => {
                changes.record(copy_str(path), ChangeType::IndexAdded);
            },
        }
    }

    /// Records as deleted from the index each file of HEAD that the index
    /// neither has nor has anything below.
    pub fn check_head_tree_against_index(head_tree: &HeadTree, index: &Index, changes: &mut Changes)
        requires
            old(changes).wf(),
            head_tree.wf(),
            index.wf(),
        ensures
            final(changes).wf(),
            final(changes)@ == recorded_all(old(changes)@, deleted_from_index(head_tree@, index_paths(index)), ChangeType::IndexDeleted),
    {
        let entries = head_tree.entries();
        let ghost paths = index_paths(index);
        let mut i: usize = 0;
        assert(head_tree@.take(0) =~= Seq::<(Seq<char>, HeadRecord)>::empty());
        while i < entries.len()
            invariant
                i <= entries@.len(),
                entries@.map_values(|e: DatabaseEntry| (e.name@, (e.oid@, e.mode@))) == head_tree@,
                paths == index_paths(index),
                index.wf(),
                changes.wf(),
                changes@ == recorded_all(old(changes)@, deleted_from_index(head_tree@.take(i as int), paths), ChangeType::IndexDeleted),
            decreases entries@.len() - i,
        {
            let e = &entries[i];
            let ghost r = head_tree@[i as int];
            assert(head_tree@.take(i + 1).drop_last() =~= head_tree@.take(i as int));
            assert(head_tree@.take(i + 1).last() == r);
            if !Self::is_directory_from_mode(e.get_mode()) {
                let tracked_here = index.is_tracked(e.get_name());
                assert(tracked_here == paths.contains(r.0)) by {
                    if tracked_here {
                        let k = choose|k: int| 0 <= k < index.view_entries().len() && #[trigger] index.view_entries()[k].3 == r.0;
                        assert(paths[k] == r.0);
                    }
                    if paths.contains(r.0) {
                        let k = choose|k: int| 0 <= k < paths.len() && paths[k] == r.0;
                        assert(index.view_entries()[k].3 == r.0);
                    }
                }
                if !tracked_here && !Self::is_parent_of_tracked_files(e.get_name(), index) {
                    let ghost before = changes@;
                    changes.record(copy_str(e.get_name()), ChangeType::IndexDeleted);
                    assert(deleted_from_index(head_tree@.take(i + 1), paths)
                        == deleted_from_index(head_tree@.take(i as int), paths).push(r.0));
                    assert(deleted_from_index(head_tree@.take(i + 1), paths).drop_last()
                        =~= deleted_from_index(head_tree@.take(i as int), paths));
                }
            }
            i += 1;
        }
        assert(head_tree@.take(entries@.len() as int) =~= head_tree@);
    }
}

/// The two status letters of a path: HEAD against index (added, modified,
/// deleted), then index against workspace (deleted, modified), a space
/// where nothing changed.
pub open spec fn status_code(f: ChangeFlags) -> Seq<char> {
    let left = if f.index_added {
        'A'
    } else if f.index_modified {
        'M'
    } else if f.index_deleted {
        'D'
    } else {
        ' '
    };
    let right = if f.workspace_deleted {
        'D'
    } else if f.workspace_modified {
        'M'
    } else {
        ' '
    };
    seq![left, right]
}

/// The status letters of a path: two letters; the first says how the index
/// differs from HEAD (`A` added, else `M` modified, else `D` deleted, else a
/// space), the second how the workspace differs from the index (`D`
/// deleted, else `M` modified, else a space). A path only added to the
/// index shows `A ` and one only modified in it shows `M `.
pub proof fn lemma_status_letters(f: ChangeFlags)
    ensures
        status_code(f).len() == 2,
        f.index_added ==> status_code(f)[0] == 'A',
        !f.index_added && f.index_modified ==> status_code(f)[0] == 'M',
        !f.index_added && !f.index_modified && f.index_deleted ==> status_code(f)[0] == 'D',
        !f.index_added && !f.index_modified && !f.index_deleted ==> status_code(f)[0] == ' ',
        f.workspace_deleted ==> status_code(f)[1] == 'D',
        !f.workspace_deleted && f.workspace_modified ==> status_code(f)[1] == 'M',
        !f.workspace_deleted && !f.workspace_modified ==> status_code(f)[1] == ' ',
        f == (ChangeFlags { index_added: true, ..no_changes() }) ==> status_code(f) == seq!['A', ' '],
        f == (ChangeFlags { index_modified: true, ..no_changes() }) ==> status_code(f) == seq!['M', ' '],
        f == (ChangeFlags { index_deleted: true, ..no_changes() }) ==> status_code(f) == seq!['D', ' '],
{
}

/// `s` is `of` in non-decreasing order.
pub open spec fn sorted_permutation(s: Seq<Seq<char>>, of: Seq<Seq<char>>) -> bool {
    crate::order::texts_sorted(s) && s.to_multiset() == of.to_multiset()
}

/// The porcelain line of a path: `??` for an untracked one, else its
/// status letters, then a space and the path.
pub open spec fn porcelain_line(p: Seq<char>, untracked: Seq<Seq<char>>, changes: Seq<(Seq<char>, ChangeFlags)>) -> Seq<char> {
    if untracked.contains(p) {
        "?? "@ + p
    } else {
        status_code(flags_in(changes, p)) + " "@ + p
    }
}

/// How a path's change shows among the changes to be committed.
pub open spec fn staged_label(f: ChangeFlags) -> Option<Seq<char>> {
    if f.index_added {
        Some("new file"@)
    } else if f.index_modified {
        Some("modified"@)
    } else if f.index_deleted {
        Some("deleted"@)
    } else {
        None
    }
}

/// How a path's change shows among the changes not staged.
pub open spec fn unstaged_label(f: ChangeFlags) -> Option<Seq<char>> {
    if f.workspace_modified {
        Some("modified"@)
    } else if f.workspace_deleted {
        Some("deleted"@)
    } else {
        None
    }
}

/// A listed path: eight spaces, then the label and the path.
pub open spec fn listed(label: Seq<char>, p: Seq<char>) -> Seq<char> {
    "        "@ + label + ": "@ + p
}

/// The listed paths of `paths` that have a label (staged ones, or unstaged ones).
pub open spec fn labelled_lines(paths: Seq<Seq<char>>, changes: Seq<(Seq<char>, ChangeFlags)>, staged: bool) -> Seq<Seq<char>>
    decreases paths.len(),
{
    if paths.len() == 0 {
        Seq::empty()
    } else {
        let rest = labelled_lines(paths.drop_last(), changes, staged);
        let f = flags_in(changes, paths.last());
        let label = if staged { staged_label(f) } else { unstaged_label(f) };
        match label {
            Some(l) => rest.push(listed(l, paths.last())),
            None => rest,
        }
    }
}

/// The untracked paths, each behind eight spaces.
pub open spec fn untracked_lines(paths: Seq<Seq<char>>) -> Seq<Seq<char>> {
    paths.map_values(|p: Seq<char>| "        "@ + p)
}

/// The human-readable report, given the changed and the untracked paths in order.
pub open spec fn human_lines(changed: Seq<Seq<char>>, untracked: Seq<Seq<char>>, changes: Seq<(Seq<char>, ChangeFlags)>) -> Seq<Seq<char>> {
    let staged = labelled_lines(changed, changes, true);
    let unstaged = labelled_lines(changed, changes, false);
    seq!["On branch master"@]
        + (if staged.len() > 0 {
            seq![""@, "Changes to be committed:"@, "  (use \"ash reset HEAD <file>...\" to unstage)"@] + staged
        } else {
            Seq::empty()
        })
        + (if unstaged.len() > 0 {
            seq![""@, "Changes not staged for commit:"@,
                "  (use \"ash add <file>...\" to update what will be committed)"@,
                "  (use \"ash checkout -- <file>...\" to discard changes in working directory)"@] + unstaged
        } else {
            Seq::empty()
        })
        + (if untracked.len() > 0 {
            seq![""@, "Untracked files:"@, "  (use \"ash add <file>...\" to include in what will be committed)"@]
                + untracked_lines(untracked)
        } else {
            Seq::empty()
        })
        + (if staged.len() == 0 && unstaged.len() == 0 && untracked.len() == 0 {
            seq!["nothing to commit, working tree clean"@]
        } else {
            Seq::empty()
        })
}

/// The paths of a list of changes.
pub open spec fn changed_paths(changes: Seq<(Seq<char>, ChangeFlags)>) -> Seq<Seq<char>> {
    changes.map_values(|e: (Seq<char>, ChangeFlags)| e.0)
}

/// Appends `extra` to a list of lines.
fn append_lines(out: &mut Vec<String>, extra: &Vec<String>)
    ensures
        texts(final(out)@) == texts(old(out)@) + texts(extra@),
{
    let mut i: usize = 0;
    while i < extra.len()
        invariant
            i <= extra@.len(),
            texts(out@) == texts(old(out)@) + texts(extra@).take(i as int),
        decreases extra@.len() - i,
    {
        let ghost before = texts(out@);
        let l = extra[i].clone();
        out.push(l);
        assert(texts(out@) =~= before.push(extra@[i as int]@));
        assert(texts(extra@).take(i + 1) =~= texts(extra@).take(i as int).push(extra@[i as int]@));
        i += 1;
    }
    assert(texts(extra@).take(extra@.len() as int) =~= texts(extra@));
}

/// A line from a literal.
fn line(text: &str) -> (r: String)
    ensures
        r@ == text@,
{
    copy_str(text)
}

impl StatusCommand {
    /// The two status letters of a path.
    pub fn status_for(path: &str, changes: &Changes) -> (r: String)
        requires
            changes.wf(),
        ensures
            r@ == status_code(changes.flags_of(path@)),
    {
        let f = changes.get(path);
        let left = if f.index_added {
            'A'
        } else if f.index_modified {
            'M'
        } else if f.index_deleted {
            'D'
        } else {
            ' '
        };
        let right = if f.workspace_deleted {
            'D'
        } else if f.workspace_modified {
            'M'
        } else {
            ' '
        };
        let mut r = String::new();
        crate::text::push_char(&mut r, left);
        crate::text::push_char(&mut r, right);
        assert(r@ =~= status_code(f));
        r
    }

    /// Whether `p` is one of `v`.
    fn listed_in(v: &Vec<String>, p: &str) -> (r: bool)
        ensures
            r == texts(v@).contains(p@),
    {
        let mut i: usize = 0;
        while i < v.len()
            invariant
                i <= v@.len(),
                forall|j: int| 0 <= j < i ==> #[trigger] texts(v@)[j] != p@,
            decreases v@.len() - i,
        {
            if str_eq(v[i].as_str(), p) {
                assert(texts(v@)[i as int] == p@);
                return true;
            }
            i += 1;
        }
        false
    }

    /// The machine-readable report: the changed and untracked paths in
    /// order, each on a line with its status letters (`??` when untracked).
    pub fn porcelain_lines(untracked: &Vec<String>, changes: &Changes) -> (r: Vec<String>)
        requires
            changes.wf(),
        ensures
            exists|all: Seq<Seq<char>>|
                #[trigger] sorted_permutation(all, changed_paths(changes@) + texts(untracked@))
                && texts(r@) == all.map_values(|p: Seq<char>| porcelain_line(p, texts(untracked@), changes@)),
    {
        let mut all = changes.paths();
        let ghost changed = texts(all@);
        let mut i: usize = 0;
        while i < untracked.len()
            invariant
                i <= untracked@.len(),
                texts(all@) == changed + texts(untracked@).take(i as int),
            decreases untracked@.len() - i,
        {
            let ghost before = texts(all@);
            let u = untracked[i].clone();
            all.push(u);
            assert(texts(all@) =~= before.push(untracked@[i as int]@));
            assert(texts(untracked@).take(i + 1) =~= texts(untracked@).take(i as int).push(untracked@[i as int]@));
            i += 1;
        }
        assert(texts(untracked@).take(untracked@.len() as int) =~= texts(untracked@));
        let sorted = crate::order::sort_strings(&all);
        let ghost s = texts(sorted@);
        let mut r: Vec<String> = Vec::new();
        let mut k: usize = 0;
        while k < sorted.len()
            invariant
                k <= sorted@.len(),
                s == texts(sorted@),
                changes.wf(),
                texts(r@) == s.take(k as int).map_values(|p: Seq<char>| porcelain_line(p, texts(untracked@), changes@)),
            decreases sorted@.len() - k,
        {
            let p = sorted[k].as_str();
            proof {
                reveal_strlit("?? ");
                reveal_strlit(" ");
            }
            let mut l: String;
            if Self::listed_in(untracked, p) {
                l = line("?? ");
            } else {
                l = Self::status_for(p, changes);
                crate::text::push_char(&mut l, ' ');
            }
            crate::text::push_str(&mut l, p);
            let ghost before = texts(r@);
            r.push(l);
            proof {
                assert(s[k as int] == p@);
                if !texts(untracked@).contains(p@) {
                    assert(l@ =~= status_code(flags_in(changes@, p@)) + " "@ + p@);
                }
                assert(texts(r@) =~= before.push(porcelain_line(p@, texts(untracked@), changes@)));
                assert(s.take(k + 1).map_values(|p: Seq<char>| porcelain_line(p, texts(untracked@), changes@))
                    =~= s.take(k as int).map_values(|p: Seq<char>| porcelain_line(p, texts(untracked@), changes@))
                        .push(porcelain_line(p@, texts(untracked@), changes@)));
            }
            k += 1;
        }
        assert(s.take(sorted@.len() as int) =~= s);
        assert(changed == changed_paths(changes@));
        assert(sorted_permutation(s, changed_paths(changes@) + texts(untracked@)));
        r
    }

    /// The listed lines of the paths that have a label.
    fn labelled(paths: &Vec<String>, changes: &Changes, staged: bool) -> (r: Vec<String>)
        requires
            changes.wf(),
        ensures
            texts(r@) == labelled_lines(texts(paths@), changes@, staged),
    {
        let mut r: Vec<String> = Vec::new();
        let mut i: usize = 0;
        while i < paths.len()
            invariant
                i <= paths@.len(),
                changes.wf(),
                texts(r@) == labelled_lines(texts(paths@).take(i as int), changes@, staged),
            decreases paths@.len() - i,
        {
            let p = paths[i].as_str();
            let f = changes.get(p);
            let label: Option<&str> = if staged {
                if f.index_added {
                    Some("new file")
                } else if f.index_modified {
                    Some("modified")
                } else if f.index_deleted {
                    Some("deleted")
                } else {
                    None
                }
            } else if f.workspace_modified {
                Some("modified")
            } else if f.workspace_deleted {
                Some("deleted")
            } else {
                None
            };
            proof {
                reveal_strlit("new file");
                reveal_strlit("modified");
                reveal_strlit("deleted");
                assert(texts(paths@).take(i + 1).drop_last() =~= texts(paths@).take(i as int));
                assert(texts(paths@).take(i + 1).last() == p@);
            }
            match label {
                Some(l) => {
                    let mut text = line("        ");
                    crate::text::push_str(&mut text, l);
                    crate::text::push_str(&mut text, ": ");
                    crate::text::push_str(&mut text, p);
                    let ghost before = texts(r@);
                    r.push(text);
                    assert(texts(r@) =~= before.push(listed(l@, p@)));
                },
                None => {},
            }
            i += 1;
        }
        assert(texts(paths@).take(paths@.len() as int) =~= texts(paths@));
        r
    }

    /// The human-readable report: changes to be committed, changes not
    /// staged and untracked files, each group in path order under its
    /// heading, or a line saying that nothing changed.
    pub fn human_readable_lines(untracked: &Vec<String>, changes: &Changes) -> (r: Vec<String>)
        requires
            changes.wf(),
        ensures
            exists|changed: Seq<Seq<char>>, untracked_sorted: Seq<Seq<char>>|
                #[trigger] sorted_permutation(changed, changed_paths(changes@))
                && #[trigger] sorted_permutation(untracked_sorted, texts(untracked@))
                && human_lines(changed, untracked_sorted, changes@) == texts(r@),
    {
        let paths = changes.paths();
        let changed = crate::order::sort_strings(&paths);
        let untracked_sorted = crate::order::sort_strings(untracked);
        let staged = Self::labelled(&changed, changes, true);
        let unstaged = Self::labelled(&changed, changes, false);
        let ghost c = texts(changed@);
        let ghost u = texts(untracked_sorted@);
        let ghost st = labelled_lines(c, changes@, true);
        let ghost un = labelled_lines(c, changes@, false);
        let mut r: Vec<String> = Vec::new();
        r.push(line("On branch master"));
        let ghost part1 = seq!["On branch master"@];
        assert(texts(r@) =~= part1);
        if staged.len() > 0 {
            r.push(line(""));
            r.push(line("Changes to be committed:"));
            r.push(line("  (use \"ash reset HEAD <file>...\" to unstage)"));
            assert(texts(r@) =~= part1 + seq![""@, "Changes to be committed:"@, "  (use \"ash reset HEAD <file>...\" to unstage)"@]);
            append_lines(&mut r, &staged);
        }
        let ghost part2 = part1 + (if st.len() > 0 {
            seq![""@, "Changes to be committed:"@, "  (use \"ash reset HEAD <file>...\" to unstage)"@] + st
        } else {
            Seq::<Seq<char>>::empty()
        });
        assert(texts(r@) =~= part2);
        if unstaged.len() > 0 {
            r.push(line(""));
            r.push(line("Changes not staged for commit:"));
            r.push(line("  (use \"ash add <file>...\" to update what will be committed)"));
            r.push(line("  (use \"ash checkout -- <file>...\" to discard changes in working directory)"));
            assert(texts(r@) =~= part2 + seq![""@, "Changes not staged for commit:"@,
                "  (use \"ash add <file>...\" to update what will be committed)"@,
                "  (use \"ash checkout -- <file>...\" to discard changes in working directory)"@]);
            append_lines(&mut r, &unstaged);
        }
        let ghost part3 = part2 + (if un.len() > 0 {
            seq![""@, "Changes not staged for commit:"@,
                "  (use \"ash add <file>...\" to update what will be committed)"@,
                "  (use \"ash checkout -- <file>...\" to discard changes in working directory)"@] + un
        } else {
            Seq::<Seq<char>>::empty()
        });
        assert(texts(r@) =~= part3);
        let n_untracked = untracked_sorted.len();
        if n_untracked > 0 {
            r.push(line(""));
            r.push(line("Untracked files:"));
            r.push(line("  (use \"ash add <file>...\" to include in what will be committed)"));
            assert(texts(r@) =~= part3 + seq![""@, "Untracked files:"@, "  (use \"ash add <file>...\" to include in what will be committed)"@]);
            let mut lines: Vec<String> = Vec::new();
            let mut i: usize = 0;
            while i < untracked_sorted.len()
                invariant
                    i <= untracked_sorted@.len(),
                    texts(lines@) == untracked_lines(texts(untracked_sorted@).take(i as int)),
                decreases untracked_sorted@.len() - i,
            {
                let mut l = line("        ");
                crate::text::push_str(&mut l, untracked_sorted[i].as_str());
                let ghost before = texts(lines@);
                lines.push(l);
                assert(texts(lines@) =~= before.push("        "@ + untracked_sorted@[i as int]@));
                assert(untracked_lines(texts(untracked_sorted@).take(i + 1))
                    =~= untracked_lines(texts(untracked_sorted@).take(i as int)).push("        "@ + untracked_sorted@[i as int]@));
                i += 1;
            }
            assert(texts(untracked_sorted@).take(untracked_sorted@.len() as int) =~= texts(untracked_sorted@));
            append_lines(&mut r, &lines);
        }
        let ghost part4 = part3 + (if u.len() > 0 {
            seq![""@, "Untracked files:"@, "  (use \"ash add <file>...\" to include in what will be committed)"@]
                + untracked_lines(u)
        } else {
            Seq::<Seq<char>>::empty()
        });
        assert(texts(r@) =~= part4);
        if staged.len() == 0 && unstaged.len() == 0 && n_untracked == 0 {
            r.push(line("nothing to commit, working tree clean"));
        }
        assert(human_lines(c, u, changes@) =~= texts(r@));
        assert(sorted_permutation(c, changed_paths(changes@)));
        assert(sorted_permutation(u, texts(untracked@)));
        r
    }
}

/// The mode text recorded for directories (that of the decimal numeral of
/// the directory mode, normalized).
pub open spec fn tree_mode_text() -> Seq<char> {
    normalized_mode(decimal(0o040000nat))
}

/// The records that a tree's entries give under `prefix`: each blob with
/// its id and mode, each subtree that has an id with that id.
pub open spec fn walk_records(prefix: Seq<char>, entries: Seq<(Seq<char>, EntryView)>) -> Seq<(Seq<char>, HeadRecord)>
    decreases entries.len(),
{
    if entries.len() == 0 {
        Seq::empty()
    } else {
        let rest = walk_records(prefix, entries.drop_last());
        let path = joined(prefix, entries.last().0);
        match entries.last().1 {
            EntryView::Blob(oid, mode) => rest.push((path, (oid, normalized_mode(decimal(mode as nat))))),
            EntryView::Tree(Some(oid)) => rest.push((path, (oid, tree_mode_text()))),
            EntryView::Tree(None) => rest,
        }
    }
}

/// The subtrees that a tree's entries lead to under `prefix`: the
/// subtrees that have an id, and, unless the tree was read from a blob,
/// the blobs whose mode is a directory's.
pub open spec fn walk_children(prefix: Seq<char>, entries: Seq<(Seq<char>, EntryView)>, from_blob: bool) -> Seq<(Seq<char>, Seq<char>, bool)>
    decreases entries.len(),
{
    if entries.len() == 0 {
        Seq::empty()
    } else {
        let rest = walk_children(prefix, entries.drop_last(), from_blob);
        let path = joined(prefix, entries.last().0);
        match entries.last().1 {
            EntryView::Blob(oid, mode) => if !from_blob && mode == 0o040000u32 {
                rest.push((path, oid, false))
            } else {
                rest
            },
            EntryView::Tree(Some(oid)) => rest.push((path, oid, false)),
            EntryView::Tree(None) => rest,
        }
    }
}

/// A tree still to visit: where it stands, its id, and whether it is the root.
#[derive(Debug)]
pub struct PendingTree {
    pub prefix: String,
    pub oid: String,
    pub root: bool,
}

/// The walk through the trees below a root that builds the head tree (the
/// recursive traversal of `status`, one loaded object at a time): each
/// visited tree's path is recorded as a directory, and its entries as
/// records; subtrees are visited in turn. A failure to load the root
/// fails the walk; a failure below it skips that subtree.
pub struct TreeWalk {
    pending: Vec<PendingTree>,
    head: HeadTree,
}

impl TreeWalk {
    /// The trees still to visit; the last is visited next.
    pub closed spec fn pending_view(&self) -> Seq<(Seq<char>, Seq<char>, bool)> {
        self.pending@.map_values(|p: PendingTree| (p.prefix@, p.oid@, p.root))
    }

    /// The records found so far.
    pub closed spec fn head_view(&self) -> Seq<(Seq<char>, HeadRecord)> {
        self.head@
    }

    /// The records are keyed by distinct paths.
    pub closed spec fn wf(&self) -> bool {
        self.head.wf()
    }

    /// A walk that visits the tree `root_oid` first.
    pub fn new(root_oid: String) -> (w: Self)
        ensures
            w.wf(),
            w.pending_view() == seq![(Seq::<char>::empty(), root_oid@, true)],
            w.head_view() == Seq::<(Seq<char>, HeadRecord)>::empty(),
    {
        let mut pending: Vec<PendingTree> = Vec::new();
        pending.push(PendingTree { prefix: String::new(), oid: root_oid, root: true });
        let w = TreeWalk { pending, head: HeadTree::new() };
        assert(w.pending_view() =~= seq![(Seq::<char>::empty(), root_oid@, true)]);
        w
    }

    /// The id of the tree to load next, when one is left.
    pub fn next_oid(&self) -> (r: Option<String>)
        ensures
            r is None <==> self.pending_view().len() == 0,
            r matches Some(o) ==> o@ == self.pending_view().last().1,
    {
        if self.pending.len() == 0 {
            None
        } else {
            Some(self.pending[self.pending.len() - 1].oid.clone())
        }
    }

    /// Records the entries of one tree and queues its subtrees.
    fn visit_entries(&mut self, prefix: &str, entries: &Vec<(String, TreeEntry)>, from_blob: bool)
        requires
            old(self).wf(),
        ensures
            final(self).wf(),
            ({
                let ev = entries@.map_values(|p: (String, TreeEntry)| (p.0@, crate::vcs::database::tree::entry_view(p.1)));
                &&& final(self).head_view() == upsert_all(old(self).head_view(), walk_records(prefix@, ev))
                &&& final(self).pending_view() == old(self).pending_view() + walk_children(prefix@, ev, from_blob)
            }),
    {
        let ghost ev = entries@.map_values(|p: (String, TreeEntry)| (p.0@, crate::vcs::database::tree::entry_view(p.1)));
        let mut i: usize = 0;
        assert(ev.take(0) =~= Seq::<(Seq<char>, EntryView)>::empty());
        assert(old(self).pending_view() + Seq::<(Seq<char>, Seq<char>, bool)>::empty() =~= old(self).pending_view());
        while i < entries.len()
            invariant
                i <= entries@.len(),
                ev == entries@.map_values(|p: (String, TreeEntry)| (p.0@, crate::vcs::database::tree::entry_view(p.1))),
                self.wf(),
                self.head_view() == upsert_all(old(self).head_view(), walk_records(prefix@, ev.take(i as int))),
                self.pending_view() == old(self).pending_view() + walk_children(prefix@, ev.take(i as int), from_blob),
            decreases entries@.len() - i,
        {
            let name = &entries[i].0;
            let path = join_path(prefix, name.as_str());
            let ghost t = ev.take(i + 1);
            proof {
                assert(t.drop_last() =~= ev.take(i as int));
                assert(t.last() == ev[i as int]);
            }
            let ghost head_before = self.head_view();
            let ghost pending_before = self.pending_view();
            match &entries[i].1 {
                TreeEntry::Blob(oid, mode) => {
                    let mode_text = crate::numeral::format_decimal(*mode as u64);
                    let e = DatabaseEntry::new(copy_str(path.as_str()), oid.clone(), mode_text.as_str());
                    self.head.insert(e);
                    if !from_blob && *mode == 0o040000u32 {
                        self.pending.push(PendingTree { prefix: path, oid: oid.clone(), root: false });
                        assert(self.pending_view() =~= pending_before.push((joined(prefix@, name@), oid@, false)));
                    }
                },
                TreeEntry::Tree(sub) => {
                    match sub.get_oid() {
                        Some(soid) => {
                            let mode_text = crate::numeral::format_decimal(0o040000u64);
                            let e = DatabaseEntry::new(copy_str(path.as_str()), soid.clone(), mode_text.as_str());
                            self.head.insert(e);
                            self.pending.push(PendingTree { prefix: path, oid: soid.clone(), root: false });
                            assert(self.pending_view() =~= pending_before.push((joined(prefix@, name@), soid@, false)));
                        },
                        None => {},
                    }
                },
            }
            proof {
                let recs = walk_records(prefix@, t);
                let recs0 = walk_records(prefix@, t.drop_last());
                if recs.len() > recs0.len() {
                    assert(recs.drop_last() =~= recs0);
                }
                assert(pending_before == old(self).pending_view() + walk_children(prefix@, t.drop_last(), from_blob));
                assert(self.pending_view() =~= old(self).pending_view() + walk_children(prefix@, t, from_blob));
            }
            i += 1;
        }
        assert(ev.take(entries@.len() as int) =~= ev);
    }

    /// Takes the next tree off the walk and handles the outcome of loading
    /// it: its path (unless it is the root) is recorded as a directory;
    /// a tree's entries are recorded and its subtrees queued; a blob is read
    /// as a tree when it reads as one, its directory blobs not followed; a
    /// commit adds nothing. A failure to load the root is returned; one
    /// below it is skipped.
    pub fn feed(&mut self, loaded: Result<StoredObject, Error>) -> (r: Result<(), Error>)
        requires
            old(self).wf(),
            old(self).pending_view().len() > 0,
        ensures
            final(self).wf(),
            ({
                let item = old(self).pending_view().last();
                let rest = old(self).pending_view().drop_last();
                let head1 = if item.0.len() > 0 {
                    upsert(old(self).head_view(), item.0, (item.1, tree_mode_text()))
                } else {
                    old(self).head_view()
                };
                match loaded {
                    Err(e) => {
                        &&& final(self).head_view() == head1
                        &&& final(self).pending_view() == rest
                        &&& (item.2 ==> r == Err::<(), Error>(e))
                        &&& (!item.2 ==> r is Ok)
                    },
                    Ok(StoredObject::Tree(t)) => {
                        &&& r is Ok
                        &&& final(self).head_view() == upsert_all(head1, walk_records(item.0, t@))
                        &&& final(self).pending_view() == rest + walk_children(item.0, t@, false)
                    },
                    Ok(StoredObject::Blob(b)) => {
                        &&& r is Ok
                        &&& match parse_raw(b.data_view()) {
                            Some(raw) => {
                                &&& final(self).head_view() == upsert_all(head1, walk_records(item.0, insert_all(Seq::empty(), raw)))
                                &&& final(self).pending_view() == rest + walk_children(item.0, insert_all(Seq::empty(), raw), true)
                            },
                            None => {
                                &&& final(self).head_view() == head1
                                &&& final(self).pending_view() == rest
                            },
                        }
                    },
                    Ok(StoredObject::Commit(_)) => {
                        &&& r is Ok
                        &&& final(self).head_view() == head1
                        &&& final(self).pending_view() == rest
                    },
                }
            }),
    {
        let item = self.pending.pop().unwrap();
        assert(self.pending_view() =~= old(self).pending_view().drop_last());
        if !crate::text::str_is_empty(item.prefix.as_str()) {
            let mode_text = crate::numeral::format_decimal(0o040000u64);
            let e = DatabaseEntry::new(copy_str(item.prefix.as_str()), item.oid.clone(), mode_text.as_str());
            self.head.insert(e);
        }
        match loaded {
            Err(e) => {
                if item.root {
                    Err(e)
                } else {
                    Ok(())
                }
            },
            Ok(StoredObject::Tree(t)) => {
                self.visit_entries(item.prefix.as_str(), t.get_entries(), false);
                Ok(())
            },
            Ok(StoredObject::Blob(b)) => {
                let data = b.to_bytes();
                match Tree::parse(data.as_slice()) {
                    Ok(t) => {
                        self.visit_entries(item.prefix.as_str(), t.get_entries(), true);
                    },
                    Err(_) => {},
                }
                Ok(())
            },
            Ok(StoredObject::Commit(_)) => Ok(()),
        }
    }

    /// The records found.
    pub fn into_head_tree(self) -> (t: HeadTree)
        requires
            self.wf(),
        ensures
            t.wf(),
            t@ == self.head_view(),
    {
        self.head
    }
}

impl StatusCommand {
    /// The root tree of the commit that HEAD names, from the outcome of
    /// loading that commit: its tree id, or the failure to load it, or an
    /// error when the object is no commit.
    pub fn head_tree_root(loaded: Result<StoredObject, Error>) -> (r: Result<String, Error>)
        ensures
            match loaded {
                Ok(StoredObject::Commit(c)) => r matches Ok(t) && t@ == c.tree_view(),
                Ok(_) => r matches Err(Error::Generic(m)) && m@ == "Object is not a commit"@,
                Err(e) => r == Err::<String, Error>(e),
            },
    {
        match loaded {
            Ok(StoredObject::Commit(c)) => Ok(copy_str(c.get_tree())),
            Ok(_) => Err(Error::Generic(line("Object is not a commit"))),
            Err(e) => Err(e),
        }
    }
}

/// What comparing an indexed file with the workspace finds before reading it.
#[derive(Debug, Clone, Copy, PartialEq, Eq, Structural)]
pub enum WorkspaceCheck {
    /// The file is gone.
    Deleted,
    /// Its size or mode differ from the index.
    Modified,
    /// Nothing to record.
    Unchanged,
    /// Only its content can tell: it must be read.
    ReadContent,
}

/// What comparing an indexed file's content with the index finds.
#[derive(Debug, Clone, Copy, PartialEq, Eq, Structural)]
pub enum ContentCheck {
    /// The content differs, or could not be read.
    Modified,
    /// Same content, newer times: the index entry's times are stale.
    StatStale,
}

/// The mode a workspace file has (that of its permissions).
pub open spec fn file_mode_of(stat: FileStat) -> u32 {
    if mode_is_executable(stat.permissions) { 0o100755u32 } else { 0o100644u32 }
}

/// Size and mode of a file agree with its index entry.
pub open spec fn stat_matches(entry: Entry, stat: FileStat) -> bool {
    entry.size as u64 == stat.size && modes_equivalent(entry.mode, file_mode_of(stat))
}

/// The modification times of a file agree with its index entry.
pub open spec fn times_agree(entry: Entry, stat: FileStat) -> bool {
    entry.mtime == stat.mtime as u32 && entry.mtime_nsec == stat.mtime_nsec
}

/// What a scan of the workspace does with one entry of a directory.
#[derive(Debug)]
pub enum ScanAction {
    /// The repository's own directory: left alone.
    Skip,
    /// A directory that is indexed or holds indexed files: scanned in turn.
    Descend(String),
    /// A directory with nothing indexed: listed as untracked (with a
    /// trailing separator) when it holds some file.
    CheckTrackable(String),
    /// An untracked file.
    Untracked(String),
    /// An indexed file, whose metadata is kept for the comparison.
    CacheStat(String),
}

/// The directories above the paths of the index.
pub open spec fn tracked_dir_set(paths: Seq<Seq<char>>) -> Set<Seq<char>> {
    Set::new(|d: Seq<char>| exists|i: int| 0 <= i < paths.len() && parents_of(paths[i], paths[i].len() + 1).contains(d))
}

impl StatusCommand {
    /// Whether size and mode of a file agree with its index entry.
    pub fn stat_match(entry: &Entry, stat: &FileStat) -> (r: bool)
        ensures
            r == stat_matches(*entry, *stat),
    {
        let file_mode = crate::vcs::file_mode::FileMode::from_metadata(false, stat.permissions);
        (entry.size as u64) == stat.size && crate::vcs::file_mode::FileMode::are_equivalent(entry.mode, file_mode)
    }

    /// Whether the modification times of a file agree with its index entry.
    pub fn times_match(entry: &Entry, stat: &FileStat) -> (r: bool)
        ensures
            r == times_agree(*entry, *stat),
    {
        entry.mtime == (stat.mtime as u32) && entry.mtime_nsec == stat.mtime_nsec
    }

    /// The first comparison of an indexed file with the workspace: deleted
    /// when it does not exist or has no metadata, nothing for a path listed
    /// as untracked, modified when size or mode differ, unchanged when the
    /// times agree, else its content must be read.
    pub fn check_workspace_file(entry: &Entry, exists: bool, untracked: bool, stat: Option<&FileStat>) -> (r: WorkspaceCheck)
        ensures
            r == (if !exists {
                WorkspaceCheck::Deleted
            } else if untracked {
                WorkspaceCheck::Unchanged
            } else {
                match stat {
                    None => WorkspaceCheck::Deleted,
                    Some(st) => if !stat_matches(*entry, *st) {
                        WorkspaceCheck::Modified
                    } else if times_agree(*entry, *st) {
                        WorkspaceCheck::Unchanged
                    } else {
                        WorkspaceCheck::ReadContent
                    },
                }
            }),
    {
        if !exists {
            return WorkspaceCheck::Deleted;
        }
        if untracked {
            return WorkspaceCheck::Unchanged;
        }
        match stat {
            None => WorkspaceCheck::Deleted,
            Some(st) => {
                if !Self::stat_match(entry, st) {
                    WorkspaceCheck::Modified
                } else if Self::times_match(entry, st) {
                    WorkspaceCheck::Unchanged
                } else {
                    WorkspaceCheck::ReadContent
                }
            },
        }
    }

    /// The comparison of an indexed file's content (`None` when it could
    /// not be read) with its index entry: the id of a blob of that content
    /// against the entry's id.
    pub fn check_workspace_content(entry: &Entry, database: &Database, data: Option<&[u8]>) -> (r: ContentCheck)
        ensures
            r == (match data {
                None => ContentCheck::Modified,
                Some(d) => if object_id("blob"@, d@) != entry.oid@ {
                    ContentCheck::Modified
                } else {
                    ContentCheck::StatStale
                },
            }),
    {
        match data {
            None => ContentCheck::Modified,
            Some(d) => {
                let computed = database.hash_file_data(d);
                if !str_eq(computed.as_str(), entry.oid.as_str()) {
                    ContentCheck::Modified
                } else {
                    ContentCheck::StatStale
                }
            },
        }
    }

    /// The directories above the paths of the index, each once.
    pub fn tracked_directories(index: &Index) -> (r: Vec<String>)
        ensures
            texts(r@).no_duplicates(),
            texts(r@).to_set() == tracked_dir_set(index_paths(index)),
    {
        let entries = index.each_entry();
        let ghost paths = index_paths(index);
        let mut r: Vec<String> = Vec::new();
        let mut i: usize = 0;
        while i < entries.len()
            invariant
                i <= entries@.len(),
                paths == index_paths(index),
                entries@.map_values(|e: Entry| crate::vcs::index::index::entry_view(e)) == index.view_entries(),
                texts(r@).no_duplicates(),
                texts(r@).to_set() == tracked_dir_set(paths.take(i as int)),
            decreases entries@.len() - i,
        {
            assert(paths[i as int] == entries@[i as int].path@);
            let dirs = entries[i].parent_directories();
            let ghost set_before = tracked_dir_set(paths.take(i as int));
            let mut k: usize = 0;
            while k < dirs.len()
                invariant
                    k <= dirs@.len(),
                    texts(r@).no_duplicates(),
                    texts(r@).to_set() == set_before.union(texts(dirs@).take(k as int).to_set()),
                decreases dirs@.len() - k,
            {
                let ghost before = texts(r@);
                let ghost d = dirs@[k as int]@;
                if !Self::listed_in(&r, dirs[k].as_str()) {
                    r.push(dirs[k].clone());
                    assert(texts(r@) =~= before.push(d));
                    proof {
                        before.lemma_push_to_set_commute(d);
                    }
                } else {
                    assert(before.to_set().contains(d));
                    assert(before.to_set().insert(d) =~= before.to_set());
                }
                assert(texts(dirs@).take(k + 1) =~= texts(dirs@).take(k as int).push(d));
                proof {
                    texts(dirs@).take(k as int).lemma_push_to_set_commute(d);
                }
                assert(texts(r@).to_set() =~= set_before.union(texts(dirs@).take(k + 1).to_set()));
                k += 1;
            }
            assert(texts(dirs@).take(dirs@.len() as int) =~= texts(dirs@));
            assert(paths.take(i + 1) =~= paths.take(i as int).push(paths[i as int]));
            assert(tracked_dir_set(paths.take(i + 1)) =~= set_before.union(texts(dirs@).to_set())) by {
                assert forall|d: Seq<char>| tracked_dir_set(paths.take(i + 1)).contains(d)
                    implies set_before.union(texts(dirs@).to_set()).contains(d) by {
                    let pt = paths.take(i + 1);
                    let j = choose|j: int| 0 <= j < pt.len() && parents_of(#[trigger] pt[j], pt[j].len() + 1).contains(d);
                    if j < i {
                        assert(paths.take(i as int)[j] == paths.take(i + 1)[j]);
                    }
                }
                assert forall|d: Seq<char>| set_before.union(texts(dirs@).to_set()).contains(d)
                    implies tracked_dir_set(paths.take(i + 1)).contains(d) by {
                    if set_before.contains(d) {
                        let pt = paths.take(i as int);
                        let j = choose|j: int| 0 <= j < pt.len() && parents_of(#[trigger] pt[j], pt[j].len() + 1).contains(d);
                        assert(paths.take(i + 1)[j] == paths.take(i as int)[j]);
                    } else {
                        assert(paths.take(i + 1)[i as int] == paths[i as int]);
                    }
                }
            }
            i += 1;
        }
        assert(paths.take(entries@.len() as int) =~= paths);
        r
    }

    /// What the scan does with the entry `name` of the directory `prefix`.
    pub fn scan_action(prefix: &str, name: &str, is_dir: bool, index: &Index, tracked_dirs: &Vec<String>) -> (r: ScanAction)
        requires
            index.wf(),
        ensures
            ({
                let rel = joined(prefix@, name@);
                let indexed = index_paths(index).contains(rel);
                let in_tracked_dir = texts(tracked_dirs@).contains(rel);
                if name@ == ".ash"@ {
                    r is Skip
                } else if is_dir {
                    if indexed || in_tracked_dir {
                        r matches ScanAction::Descend(p) && p@ == rel
                    } else {
                        r matches ScanAction::CheckTrackable(p) && p@ == rel.push('/')
                    }
                } else if !indexed {
                    r matches ScanAction::Untracked(p) && p@ == rel
                } else {
                    r matches ScanAction::CacheStat(p) && p@ == rel
                }
            }),
    {
        if str_eq(name, ".ash") {
            return ScanAction::Skip;
        }
        let rel = join_path(prefix, name);
        let indexed = index.is_tracked(rel.as_str());
        proof {
            let paths = index_paths(index);
            if indexed {
                let k = choose|k: int| 0 <= k < index.view_entries().len() && #[trigger] index.view_entries()[k].3 == rel@;
                assert(paths[k] == rel@);
            }
            if paths.contains(rel@) {
                let k = choose|k: int| 0 <= k < paths.len() && paths[k] == rel@;
                assert(index.view_entries()[k].3 == rel@);
            }
        }
        let in_tracked_dir = Self::listed_in(tracked_dirs, rel.as_str());
        if is_dir {
            if indexed || in_tracked_dir {
                ScanAction::Descend(rel)
            } else {
                let mut marker = rel;
                crate::text::push_char(&mut marker, '/');
                ScanAction::CheckTrackable(marker)
            }
        } else if !indexed {
            ScanAction::Untracked(rel)
        } else {
            ScanAction::CacheStat(rel)
        }
    }
}

} // verus!
