//! `commit`: the checks before committing, whether anything changed, and
//! how many files the commit changed.
use vstd::prelude::*;
use crate::text::{copy_str, concat, push_str, str_eq};
use crate::numeral::decimal;
use crate::keyed::{TextMap, has_key, key_index, distinct_keys, lookup, lemma_lookup_upsert, upsert};
use crate::errors::error::{Error, error_message};
use crate::vcs::write_commit::{WriteCommitOptions, EditOption};

verus! {

/// The `commit` command.
pub struct CommitCommand;

/// The notes shown below a commit message being edited.
pub const COMMIT_NOTES: &'static str = "Please enter the commit message for your changes. Lines starting\nwith '#' will be ignored, and an empty message aborts the commit.\n";

/// How many paths of `a` are missing from `b` or have another id there.
pub open spec fn differing(a: Seq<(Seq<char>, Seq<char>)>, b: Seq<(Seq<char>, Seq<char>)>) -> nat
    decreases a.len(),
{
    if a.len() == 0 {
        0
    } else {
        let r = a.last();
        differing(a.drop_last(), b) + if !has_key(b, r.0) || b[key_index(b, r.0)].1 != r.1 { 1nat } else { 0nat }
    }
}

/// How many paths of `a` are missing from `b`.
pub open spec fn missing(a: Seq<(Seq<char>, Seq<char>)>, b: Seq<(Seq<char>, Seq<char>)>) -> nat
    decreases a.len(),
{
    if a.len() == 0 {
        0
    } else {
        missing(a.drop_last(), b) + if !has_key(b, a.last().0) { 1nat } else { 0nat }
    }
}

impl CommitCommand {
    /// The error when there is no index file.
    pub fn no_index_error() -> (e: Error)
        ensures
            e matches Error::Generic(m) && m@ == "No index file found. Please add some files first."@,
    {
        Error::Generic(copy_str("No index file found. Please add some files first."))
    }

    /// The error when the index cannot be loaded.
    pub fn index_load_error(cause: &Error) -> (e: Error)
        ensures
            e matches Error::Generic(m) && m@ == "Error loading index: "@ + error_message(*cause),
    {
        let d = cause.to_message();
        Error::Generic(concat("Error loading index: ", d.as_str()))
    }

    /// The error when HEAD is locked.
    pub fn head_lock_error() -> (e: Error)
        ensures
            e matches Error::Lock(m) && m@ == "Unable to create '.ash/HEAD.lock': File exists.\nAnother ash process seems to be running in this repository.\nIf it still fails, a process may have crashed in this repository earlier:\nremove the file manually to continue."@,
    {
        Error::Lock(copy_str("Unable to create '.ash/HEAD.lock': File exists.\nAnother ash process seems to be running in this repository.\nIf it still fails, a process may have crashed in this repository earlier:\nremove the file manually to continue."))
    }

    /// The error when the tree did not change.
    pub fn no_changes_error() -> (e: Error)
        ensures
            e matches Error::Generic(m) && m@ == "No changes staged for commit."@,
    {
        Error::Generic(copy_str("No changes staged for commit."))
    }

    /// The options of a commit: the message when one was given, edited
    /// always when asked, else when needed.
    pub fn options(message: &str, edit_always: bool) -> (o: WriteCommitOptions)
        ensures
            message@.len() == 0 ==> o.message is None,
            message@.len() > 0 ==> (o.message matches Some(m) && m@ == message@),
            o.file is None,
            o.edit == (if edit_always { EditOption::Always } else { EditOption::Auto }),
            !o.amend,
            o.reuse_message is None,
    {
        WriteCommitOptions {
            message: if crate::text::str_is_empty(message) { None } else { Some(copy_str(message)) },
            file: None,
            edit: if edit_always { EditOption::Always } else { EditOption::Auto },
            amend: false,
            reuse_message: None,
        }
    }

    /// Whether the new tree is the parent commit's tree.
    pub fn unchanged(tree_oid: &str, parent_tree: Option<&str>) -> (r: bool)
        ensures
            r == (parent_tree matches Some(p) && p@ == tree_oid@),
    {
        match parent_tree {
            Some(p) => str_eq(p, tree_oid),
            None => false,
        }
    }

    /// How many of `a`'s paths `b` lacks or holds with another id.
    fn count_differing(a: &TextMap, b: &TextMap, ids_too: bool) -> (n: usize)
        requires
            b.wf(),
        ensures
            n <= a@.len(),
            ids_too ==> n == differing(a@, b@),
            !ids_too ==> n == missing(a@, b@),
    {
        let entries = a.entries();
        let ghost s = a@;
        let mut n: usize = 0;
        let mut i: usize = 0;
        while i < entries.len()
            invariant
                i <= entries@.len(),
                b.wf(),
                entries@.map_values(|e: (String, String)| (e.0@, e.1@)) == s,
                n <= i,
                s.len() == entries@.len(),
                ids_too ==> n == differing(s.take(i as int), b@),
                !ids_too ==> n == missing(s.take(i as int), b@),
            decreases entries@.len() - i,
        {
            assert(s.take(i + 1).drop_last() =~= s.take(i as int));
            assert(s.take(i + 1).last() == s[i as int]);
            assert(s[i as int] == (entries@[i as int].0@, entries@[i as int].1@));
            match b.get(entries[i].0.as_str()) {
                Some(v) => {
                    if ids_too && !str_eq(v.as_str(), entries[i].1.as_str()) {
                        n += 1;
                    }
                },
                None => {
                    n += 1;
                },
            }
            i += 1;
        }
        assert(s.take(entries@.len() as int) =~= s);
        n
    }

    /// How many files the commit changed: all the files of a first commit;
    /// else the paths added, removed or given another id since the parent.
    pub fn count_changed_files(parent_files: Option<&TextMap>, current_files: &TextMap) -> (n: usize)
        requires
            current_files.wf(),
            parent_files matches Some(p) ==> p.wf(),
            current_files@.len() + match parent_files { Some(p) => p@.len() as int, None => 0 } <= usize::MAX,
        ensures
            n == match parent_files {
                None => current_files@.len() as int,
                Some(p) => (differing(p@, current_files@) + missing(current_files@, p@)) as int,
            },
            parent_files matches Some(p) ==> n == changed_paths(p@, current_files@).len(),
    {
        match parent_files {
            None => current_files.len(),
            Some(p) => {
                proof {
                    lemma_changed_files_count(p@, current_files@);
                }
                let changed_or_removed = Self::count_differing(p, current_files, true);
                let added = Self::count_differing(current_files, p, false);
                let _ = p.len();
                changed_or_removed + added
            },
        }
    }

    /// The line that says how many files changed (before its timing).
    pub fn changed_files_line(n: usize) -> (s: String)
        ensures
            s@ == decimal(n as nat) + " file"@ + (if n == 1 { Seq::<char>::empty() } else { "s"@ }) + " changed"@,
    {
        proof {
            reveal_strlit("");
            reveal_strlit("s");
        }
        let mut s = crate::numeral::format_decimal(n as u64);
        push_str(&mut s, " file");
        push_str(&mut s, if n == 1 { "" } else { "s" });
        push_str(&mut s, " changed");
        s
    }
}

/// The paths of `a` whose record in `b` is not theirs in `a`.
pub open spec fn not_kept(a: Seq<(Seq<char>, Seq<char>)>, b: Seq<(Seq<char>, Seq<char>)>) -> Set<Seq<char>> {
    Set::new(|k: Seq<char>| has_key(a, k) && lookup(a, k) != lookup(b, k))
}

/// The paths held by either list but not with the same id by both: added,
/// removed, or given another id.
pub open spec fn changed_paths(a: Seq<(Seq<char>, Seq<char>)>, b: Seq<(Seq<char>, Seq<char>)>) -> Set<Seq<char>> {
    Set::new(|k: Seq<char>| (has_key(a, k) || has_key(b, k)) && lookup(a, k) != lookup(b, k))
}

/// A key list is its shorter list with its last record set.
proof fn lemma_last_record(a: Seq<(Seq<char>, Seq<char>)>, k: Seq<char>)
    requires
        a.len() > 0,
        distinct_keys(a),
    ensures
        distinct_keys(a.drop_last()),
        !has_key(a.drop_last(), a.last().0),
        lookup(a, k) == (if k == a.last().0 { Some(a.last().1) } else { lookup(a.drop_last(), k) }),
        has_key(a, k) == (has_key(a.drop_last(), k) || k == a.last().0),
{
    let p = a.drop_last();
    let r = a.last();
    assert(distinct_keys(p)) by {
        assert forall|i: int, j: int| 0 <= i < p.len() && 0 <= j < p.len() && i != j implies #[trigger] p[i].0 != #[trigger] p[j].0 by {
            assert(p[i] == a[i] && p[j] == a[j]);
        }
    }
    if has_key(p, r.0) {
        let i = key_index(p, r.0);
        assert(p[i].0 == r.0);
        assert(a[i].0 == a[a.len() - 1].0);
    }
    assert(upsert(p, r.0, r.1) =~= a);
    lemma_lookup_upsert(p, r.0, r.1, k);
    if has_key(a, k) {
        let i = key_index(a, k);
        assert(a[i].0 == k);
        if i < p.len() {
            assert(p[i].0 == k);
        }
    }
    if has_key(p, k) {
        let i = key_index(p, k);
        assert(p[i].0 == k && a[i] == p[i]);
    }
    if k == r.0 {
        assert(a[a.len() - 1].0 == k);
    }
}

/// `differing` counts the paths of `a` not kept with their id in `b`.
proof fn lemma_differing_counts(a: Seq<(Seq<char>, Seq<char>)>, b: Seq<(Seq<char>, Seq<char>)>)
    requires
        distinct_keys(a),
        distinct_keys(b),
    ensures
        not_kept(a, b).finite(),
        differing(a, b) == not_kept(a, b).len(),
    decreases a.len(),
{
    if a.len() == 0 {
        assert(not_kept(a, b) =~= Set::<Seq<char>>::empty());
    } else {
        let p = a.drop_last();
        let r = a.last();
        lemma_last_record(a, r.0);
        lemma_differing_counts(p, b);
        if has_key(b, r.0) {
            let i = key_index(b, r.0);
            assert(b[i].0 == r.0);
        }
        let flip = !has_key(b, r.0) || b[key_index(b, r.0)].1 != r.1;
        assert(flip == (lookup(b, r.0) != Some(r.1)));
        assert forall|k: Seq<char>| #[trigger] not_kept(a, b).contains(k) == (not_kept(p, b).contains(k) || (flip && k == r.0)) by {
            lemma_last_record(a, k);
        }
        if flip {
            assert(not_kept(a, b) =~= not_kept(p, b).insert(r.0));
        } else {
            assert(not_kept(a, b) =~= not_kept(p, b));
        }
    }
}

/// The paths of `b` that `a` lacks.
pub open spec fn added_paths(a: Seq<(Seq<char>, Seq<char>)>, b: Seq<(Seq<char>, Seq<char>)>) -> Set<Seq<char>> {
    Set::new(|k: Seq<char>| has_key(b, k) && !has_key(a, k))
}

/// `missing` counts the paths of `b` that `a` lacks.
proof fn lemma_missing_counts(a: Seq<(Seq<char>, Seq<char>)>, b: Seq<(Seq<char>, Seq<char>)>)
    requires
        distinct_keys(b),
    ensures
        added_paths(a, b).finite(),
        missing(b, a) == added_paths(a, b).len(),
    decreases b.len(),
{
    if b.len() == 0 {
        assert(added_paths(a, b) =~= Set::<Seq<char>>::empty());
    } else {
        let p = b.drop_last();
        let r = b.last();
        lemma_last_record(b, r.0);
        lemma_missing_counts(a, p);
        assert forall|k: Seq<char>| #[trigger] added_paths(a, b).contains(k)
            == (added_paths(a, p).contains(k) || (!has_key(a, r.0) && k == r.0)) by {
            lemma_last_record(b, k);
        }
        if !has_key(a, r.0) {
            assert(added_paths(a, b) =~= added_paths(a, p).insert(r.0));
        } else {
            assert(added_paths(a, b) =~= added_paths(a, p));
        }
    }
}

/// The files a commit changed, counted against its parent's
/// (`count_changed_files`), are exactly the paths added, removed, or given
/// another id: each path in either list but not with the same id in both
/// counts once.
pub proof fn lemma_changed_files_count(parent: Seq<(Seq<char>, Seq<char>)>, current: Seq<(Seq<char>, Seq<char>)>)
    requires
        distinct_keys(parent),
        distinct_keys(current),
    ensures
        changed_paths(parent, current).finite(),
        differing(parent, current) + missing(current, parent) == changed_paths(parent, current).len(),
{
    lemma_differing_counts(parent, current);
    lemma_missing_counts(parent, current);
    let x = not_kept(parent, current);
    let y = added_paths(parent, current);
    assert forall|k: Seq<char>| #[trigger] changed_paths(parent, current).contains(k) == (x + y).contains(k) by {
        if has_key(parent, k) {
            let i = key_index(parent, k);
            assert(parent[i].0 == k);
        }
        if has_key(current, k) {
            let i = key_index(current, k);
            assert(current[i].0 == k);
        }
    }
    assert(changed_paths(parent, current) =~= x + y);
    assert(x.disjoint(y));
    vstd::set_lib::lemma_set_disjoint_lens(x, y);
}

} // verus!
