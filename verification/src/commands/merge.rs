//! `merge`: the checks before merging, the messages, and how a
//! fast-forward applies each change.
use vstd::prelude::*;
use crate::text::{texts, copy_str, concat, push_str, contains_seq};
use crate::errors::error::{Error, error_message};
use crate::vcs::database::entry::DatabaseEntry;
use crate::vcs::file_mode::{parse_mode, mode_is_directory};
use crate::vcs::index::entry::Entry;
use crate::vcs::index::index::{Index, EntryView};
use crate::vcs::merge::resolve::DiffChange;
use crate::commands::status::{index_paths, sorted_permutation};
use crate::numeral::octal;

verus! {

/// The `merge` command.
pub struct MergeCommand;

/// What a fast-forward does with one change between the two trees.
#[derive(Debug, Clone, Copy, PartialEq, Eq, Structural)]
pub enum FastForwardStep {
    /// Make the directory and fill it from its tree.
    WriteDirectory,
    /// Write the file from its blob.
    WriteFile,
    /// Remove the directory and its entries.
    RemoveDirectory,
    /// Remove the file and its entry.
    RemoveFile,
    /// Nothing to do.
    Nothing,
}

/// The paths that the merge adds or changes into a file while the
/// workspace has an untracked file there.
pub open spec fn untracked_overwritten(changes: Seq<DiffChange>, exists: Seq<bool>, tracked_paths: Seq<Seq<char>>) -> Seq<Seq<char>>
    decreases changes.len(),
{
    if changes.len() == 0 || exists.len() < changes.len() {
        Seq::empty()
    } else {
        let rest = untracked_overwritten(changes.drop_last(), exists.take(changes.len() - 1), tracked_paths);
        let c = changes.last();
        if c.new matches Some(n) && !mode_is_directory(parse_mode(n.mode@)) && exists[changes.len() - 1]
            && !tracked_paths.contains(c.path@) {
            rest.push(c.path@)
        } else {
            rest
        }
    }
}

/// The listed paths of a refusal, each as `  path` on its own line.
pub open spec fn listed_paths(paths: Seq<Seq<char>>) -> Seq<char>
    decreases paths.len(),
{
    if paths.len() == 0 {
        Seq::empty()
    } else {
        listed_paths(paths.drop_last()) + "  "@ + paths.last() + "\n"@
    }
}

/// The base and our side of a path that their side changed: what our
/// change of the path (the first one, in order) went from and to, or,
/// when we did not change it, what their change started from, on both.
pub open spec fn sides_of(ours: Seq<DiffChange>, path: Seq<char>, their_old: Option<DatabaseEntry>)
    -> (Option<crate::vcs::merge::resolve::EntryRec>, Option<crate::vcs::merge::resolve::EntryRec>) {
    if exists|i: int| 0 <= i < ours.len() && #[trigger] ours[i].path@ == path {
        let i = choose|i: int| 0 <= i < ours.len() && #[trigger] ours[i].path@ == path
            && forall|j: int| 0 <= j < i ==> ours[j].path@ != path;
        (crate::vcs::merge::resolve::rec(ours[i].old), crate::vcs::merge::resolve::rec(ours[i].new))
    } else {
        (crate::vcs::merge::resolve::rec(their_old), crate::vcs::merge::resolve::rec(their_old))
    }
}

impl MergeCommand {
    /// The base and our side of a path that their side changed (`sides_of`).
    pub fn merge_sides(ours: &Vec<DiffChange>, path: &str, their_old: &Option<DatabaseEntry>)
        -> (r: (Option<DatabaseEntry>, Option<DatabaseEntry>))
        ensures
            (crate::vcs::merge::resolve::rec(r.0), crate::vcs::merge::resolve::rec(r.1)) == sides_of(ours@, path@, *their_old),
    {
        let mut i: usize = 0;
        while i < ours.len()
            invariant
                i <= ours@.len(),
                forall|j: int| 0 <= j < i ==> ours@[j].path@ != path@,
            decreases ours@.len() - i,
        {
            if crate::text::str_eq(ours[i].path.as_str(), path) {
                proof {
                    let k = choose|k: int| 0 <= k < ours@.len() && #[trigger] ours@[k].path@ == path@
                        && forall|j: int| 0 <= j < k ==> ours@[j].path@ != path@;
                    assert(0 <= i < ours@.len() && ours@[i as int].path@ == path@);
                    if k < i {
                        assert(ours@[k].path@ != path@);
                    } else if k > i {
                        assert(ours@[i as int].path@ != path@);
                    }
                }
                return (crate::vcs::merge::resolve::copy_opt(&ours[i].old), crate::vcs::merge::resolve::copy_opt(&ours[i].new));
            }
            i += 1;
        }
        (crate::vcs::merge::resolve::copy_opt(their_old), crate::vcs::merge::resolve::copy_opt(their_old))
    }

    /// Refuses to merge while the index has conflicts.
    pub fn check_no_conflicts(has_conflict: bool) -> (r: Result<(), Error>)
        ensures
            r is Ok <==> !has_conflict,
            r matches Err(Error::Generic(m)) ==> m@ == "Cannot merge with conflicts. Fix conflicts and commit first."@,
            r is Err ==> r matches Err(Error::Generic(_)),
    {
        if has_conflict {
            return Err(Error::Generic(copy_str("Cannot merge with conflicts. Fix conflicts and commit first.")));
        }
        Ok(())
    }

    /// The commit HEAD names, or the refusal to merge without one.
    pub fn require_head(head: Option<String>) -> (r: Result<String, Error>)
        ensures
            match head {
                Some(h) => r matches Ok(x) && x@ == h@,
                None => r matches Err(Error::Generic(m)) && m@ == "No HEAD commit found. Create an initial commit first."@,
            },
    {
        match head {
            Some(h) => Ok(h),
            None => Err(Error::Generic(copy_str("No HEAD commit found. Create an initial commit first."))),
        }
    }

    /// The paths that the merge would write over an untracked file: those
    /// it adds or changes into a file, that exist in the workspace
    /// (`exists`, one flag per change) and that the index lacks.
    pub fn untracked_overwrites(changes: &Vec<DiffChange>, exists: &Vec<bool>, index: &Index) -> (r: Vec<String>)
        requires
            index.wf(),
            exists@.len() == changes@.len(),
        ensures
            texts(r@) == untracked_overwritten(changes@, exists@, index_paths(index)),
    {
        let ghost paths = index_paths(index);
        let mut r: Vec<String> = Vec::new();
        let mut i: usize = 0;
        assert(changes@.take(0) =~= Seq::<DiffChange>::empty());
        while i < changes.len()
            invariant
                i <= changes@.len(),
                exists@.len() == changes@.len(),
                index.wf(),
                paths == index_paths(index),
                texts(r@) == untracked_overwritten(changes@.take(i as int), exists@.take(i as int), paths),
            decreases changes@.len() - i,
        {
            let c = &changes[i];
            proof {
                assert(changes@.take(i + 1).drop_last() =~= changes@.take(i as int));
                assert(exists@.take(i + 1).take(i as int) =~= exists@.take(i as int));
                assert(changes@.take(i + 1).last() == changes@[i as int]);
            }
            let hit = match &c.new {
                Some(n) => {
                    if !crate::vcs::file_mode::FileMode::is_directory(n.get_file_mode()) && exists[i] {
                        let t = index.is_tracked(c.path.as_str());
                        proof {
                            if t {
                                let k = choose|k: int| 0 <= k < index.view_entries().len() && #[trigger] index.view_entries()[k].3 == c.path@;
                                assert(paths[k] == c.path@);
                            }
                            if paths.contains(c.path@) {
                                let k = choose|k: int| 0 <= k < paths.len() && paths[k] == c.path@;
                                assert(index.view_entries()[k].3 == c.path@);
                            }
                        }
                        !t
                    } else {
                        false
                    }
                },
                None => false,
            };
            if hit {
                let ghost before = texts(r@);
                r.push(copy_str(c.path.as_str()));
                assert(texts(r@) =~= before.push(c.path@));
            }
            i += 1;
        }
        assert(changes@.take(changes@.len() as int) =~= changes@);
        assert(exists@.take(exists@.len() as int) =~= exists@);
        r
    }

    /// The refusal to merge over some paths, listed in order between a
    /// heading and a closing advice, or nothing when there are none.
    pub fn overwrite_refusal(paths: &Vec<String>, heading: &str, advice: &str) -> (r: Result<(), Error>)
        ensures
            paths@.len() == 0 <==> r is Ok,
            r is Err ==> exists|sorted: Seq<Seq<char>>| #[trigger] sorted_permutation(sorted, texts(paths@))
                && (r matches Err(Error::Generic(m)) && m@ == heading@ + listed_paths(sorted) + advice@ + "Aborting"@),
    {
        if paths.len() == 0 {
            return Ok(());
        }
        let sorted = crate::order::sort_strings(paths);
        assert(texts(sorted@).len() == texts(paths@).len()) by {
            assert(texts(sorted@).to_multiset().len() == texts(paths@).to_multiset().len());
            vstd::seq_lib::to_multiset_len(texts(sorted@));
            vstd::seq_lib::to_multiset_len(texts(paths@));
        }
        let mut m = copy_str(heading);
        let mut i: usize = 0;
        while i < sorted.len()
            invariant
                i <= sorted@.len(),
                m@ == heading@ + listed_paths(texts(sorted@).take(i as int)),
            decreases sorted@.len() - i,
        {
            push_str(&mut m, "  ");
            push_str(&mut m, sorted[i].as_str());
            push_str(&mut m, "\n");
            assert(texts(sorted@).take(i + 1).drop_last() =~= texts(sorted@).take(i as int));
            assert(texts(sorted@).take(i + 1).last() == sorted@[i as int]@);
            i += 1;
        }
        assert(texts(sorted@).take(sorted@.len() as int) =~= texts(sorted@));
        push_str(&mut m, advice);
        push_str(&mut m, "Aborting");
        assert(sorted_permutation(texts(sorted@), texts(paths@)));
        Err(Error::Generic(m))
    }

    /// The refusal to write over untracked files.
    pub fn untracked_refusal(paths: &Vec<String>) -> (r: Result<(), Error>)
        ensures
            paths@.len() == 0 <==> r is Ok,
            r is Err ==> exists|sorted: Seq<Seq<char>>| #[trigger] sorted_permutation(sorted, texts(paths@))
                && (r matches Err(Error::Generic(m)) && m@ == "The following untracked working tree files would be overwritten by merge:\n"@
                    + listed_paths(sorted) + "Please move or remove them before you merge.\n"@ + "Aborting"@),
    {
        Self::overwrite_refusal(paths, "The following untracked working tree files would be overwritten by merge:\n",
            "Please move or remove them before you merge.\n")
    }

    /// The refusal to write over local changes.
    pub fn local_changes_refusal(paths: &Vec<String>) -> (r: Result<(), Error>)
        ensures
            paths@.len() == 0 <==> r is Ok,
            r is Err ==> exists|sorted: Seq<Seq<char>>| #[trigger] sorted_permutation(sorted, texts(paths@))
                && (r matches Err(Error::Generic(m)) && m@ == "Your local changes to the following files would be overwritten by merge:\n"@
                    + listed_paths(sorted) + "Please commit your changes or stash them before you merge.\n"@ + "Aborting"@),
    {
        Self::overwrite_refusal(paths, "Your local changes to the following files would be overwritten by merge:\n",
            "Please commit your changes or stash them before you merge.\n")
    }

    /// The message of a merge commit: the one given, else `Merge branch '<revision>'`.
    pub fn commit_message(message: Option<&str>, revision: &str) -> (s: String)
        ensures
            match message {
                Some(m) => s@ == m@,
                None => s@ == "Merge branch '"@ + revision@ + "'"@,
            },
    {
        match message {
            Some(m) => copy_str(m),
            None => {
                let mut s = copy_str("Merge branch '");
                push_str(&mut s, revision);
                push_str(&mut s, "'");
                s
            },
        }
    }

    /// The first eight characters of an id (all of it when shorter).
    pub fn short_oid(oid: &str) -> (s: String)
        ensures
            s@ == oid@.take(if oid@.len() < 8 { oid@.len() as int } else { 8 }),
    {
        let cs = crate::text::chars_of(oid);
        let n: usize = if cs.len() < 8 { cs.len() } else { 8 };
        let part = crate::text::slice_chars(cs.as_slice(), 0, n);
        assert(part@ =~= oid@.take(n as int));
        crate::text::string_of(part.as_slice())
    }

    /// Whether a failed merge gives the index lock back: unless the failure
    /// asks to fix conflicts, whose index is kept.
    pub fn releases_lock(e: &Error) -> (r: bool)
        ensures
            r == !contains_seq(error_message(*e), "fix conflicts"@),
    {
        let m = e.to_message();
        !crate::text::str_contains(m.as_str(), "fix conflicts")
    }

    /// What a fast-forward does with a change: writes a file or a directory
    /// that is added or modified, removes one that is deleted.
    pub fn fast_forward_step(old: &Option<DatabaseEntry>, new: &Option<DatabaseEntry>) -> (r: FastForwardStep)
        ensures
            r == match (old, new) {
                (_, Some(n)) => if mode_is_directory(parse_mode(n.mode@)) { FastForwardStep::WriteDirectory } else { FastForwardStep::WriteFile },
                (Some(o), None) => if mode_is_directory(parse_mode(o.mode@)) { FastForwardStep::RemoveDirectory } else { FastForwardStep::RemoveFile },
                (None, None) => FastForwardStep::Nothing,
            },
    {
        match (old, new) {
            (_, Some(n)) => if crate::vcs::file_mode::FileMode::is_directory(n.get_file_mode()) {
                FastForwardStep::WriteDirectory
            } else {
                FastForwardStep::WriteFile
            },
            (Some(o), None) => if crate::vcs::file_mode::FileMode::is_directory(o.get_file_mode()) {
                FastForwardStep::RemoveDirectory
            } else {
                FastForwardStep::RemoveFile
            },
            (None, None) => FastForwardStep::Nothing,
        }
    }

    /// The entries of the index at stage zero, as tree entries (path, id
    /// and octal mode), in order.
    pub fn stage_zero_entries(index: &Index) -> (r: Vec<DatabaseEntry>)
        ensures
            r@.map_values(|e: DatabaseEntry| (e.name@, e.oid@, e.mode@)) == index.view_entries().filter(
                |v: EntryView| v.4 == 0).map_values(|v: EntryView| (v.3, v.1, crate::vcs::database::entry::normalized_mode(octal(v.0[6] as nat)))),
    {
        let entries = index.each_entry();
        let ghost view = index.view_entries();
        let ghost pred = |v: EntryView| v.4 == 0;
        let ghost f = |v: EntryView| (v.3, v.1, crate::vcs::database::entry::normalized_mode(octal(v.0[6] as nat)));
        let mut r: Vec<DatabaseEntry> = Vec::new();
        let mut i: usize = 0;
        assert(view.take(0).filter(pred) =~= Seq::<EntryView>::empty()) by {
            reveal(Seq::filter);
        }
        while i < entries.len()
            invariant
                i <= entries@.len(),
                entries@.map_values(|e: Entry| crate::vcs::index::index::entry_view(e)) == view,
                pred == (|v: EntryView| v.4 == 0),
                f == (|v: EntryView| (v.3, v.1, crate::vcs::database::entry::normalized_mode(octal(v.0[6] as nat)))),
                r@.map_values(|e: DatabaseEntry| (e.name@, e.oid@, e.mode@)) == view.take(i as int).filter(pred).map_values(f),
            decreases entries@.len() - i,
        {
            let e = &entries[i];
            assert(view.take(i + 1).drop_last() =~= view.take(i as int));
            assert(view.take(i + 1).last() == view[i as int]);
            assert(view[i as int] == crate::vcs::index::index::entry_view(*e));
            proof {
                reveal(Seq::filter);
            }
            if e.stage == 0 {
                let mode = e.mode_octal();
                let d = DatabaseEntry::new(copy_str(e.get_path()), copy_str(e.oid.as_str()), mode.as_str());
                let ghost before = r@.map_values(|e: DatabaseEntry| (e.name@, e.oid@, e.mode@));
                r.push(d);
                proof {
                    let filtered0 = view.take(i as int).filter(pred);
                    assert(view.take(i + 1).filter(pred) == filtered0.push(view[i as int]));
                    assert(filtered0.push(view[i as int]).map_values(f) =~= filtered0.map_values(f).push(f(view[i as int])));
                    assert(r@.map_values(|e: DatabaseEntry| (e.name@, e.oid@, e.mode@)) =~= before.push(f(view[i as int])));
                }
            }
            i += 1;
        }
        assert(view.take(entries@.len() as int) =~= view);
        r
    }
}

} // verus!
