//! `add`: which files to stage, staging them, and what to report.
use vstd::prelude::*;
use crate::keyed::{TextMap, has_key, upsert, upsert_all};
use crate::text::{str_eq, texts, copy_str, concat, push_str};
use crate::numeral::decimal;
use crate::paths::{joined, join_path};
use crate::errors::error::{Error, error_message};
use crate::vcs::blob::Blob;
use crate::vcs::file_mode::mode_is_directory;
use crate::vcs::index::entry::{Entry, FileStat};
use crate::vcs::index::index::{Index, EntryView, entry_view, store_sorted, lemma_store_sorted_contains};
use crate::vcs::database::database::{Database, StoredObject, GitObject, object_id};
use crate::vcs::database::tree::{Tree, TreeEntry, EntryView as TreeEntryView, parse_raw, insert_all};

verus! {

/// The `add` command.
pub struct AddCommand;

/// What listing one path argument gave: the files found below it, or why not.
#[derive(Debug)]
pub struct PathListing {
    pub path: String,
    pub result: Result<Vec<String>, Error>,
}

/// The view of a listing.
pub open spec fn listing_view(l: PathListing) -> (Seq<char>, Result<Seq<Seq<char>>, Error>) {
    (l.path@, match l.result {
        Ok(v) => Ok(texts(v@)),
        Err(e) => Err(e),
    })
}

/// `files` with the ones of `found` that it lacks, in order.
pub open spec fn add_distinct(files: Seq<Seq<char>>, found: Seq<Seq<char>>) -> Seq<Seq<char>>
    decreases found.len(),
{
    if found.len() == 0 {
        files
    } else {
        let rest = add_distinct(files, found.drop_last());
        if rest.contains(found.last()) {
            rest
        } else {
            rest.push(found.last())
        }
    }
}

/// What going through the listings gives: the messages printed, the files
/// gathered, whether a path was missing, and the error that stopped it.
pub open spec fn gathered(ls: Seq<(Seq<char>, Result<Seq<Seq<char>>, Error>)>) -> (Seq<Seq<char>>, Seq<Seq<char>>, bool, Option<Error>)
    decreases ls.len(),
{
    if ls.len() == 0 {
        (Seq::empty(), Seq::empty(), false, None)
    } else {
        let (msgs, files, missing, failed) = gathered(ls.drop_last());
        let (p, res) = ls.last();
        if failed is Some {
            (msgs, files, missing, failed)
        } else {
            match res {
                Ok(found) => if found.len() == 0 {
                    (msgs.push("warning: '"@ + p + "' didn't match any files"@), files, missing, None)
                } else {
                    (msgs, add_distinct(files, found), missing, None)
                },
                Err(Error::InvalidPath(_)) => (msgs.push("fatal: pathspec '"@ + p + "' did not match any files"@), files, true, None),
                Err(e) => (msgs, files, missing, Some(e)),
            }
        }
    }
}

/// `s` when `n` is not one (the plural ending).
pub open spec fn plural(n: nat) -> Seq<char> {
    if n == 1 { Seq::empty() } else { "s"@ }
}

/// The summary of an addition, before its timing.
pub open spec fn summary_text(new_files: nat, modified_files: nat, added: nat, unchanged: nat) -> Seq<char> {
    let new_part = if new_files > 0 { decimal(new_files) + " new file"@ + plural(new_files) } else { Seq::empty() };
    let both = if modified_files > 0 {
        new_part + (if new_part.len() > 0 { " and "@ } else { Seq::empty() }) + decimal(modified_files) + " modified file"@ + plural(modified_files)
    } else {
        new_part
    };
    let message = if both.len() == 0 { decimal(added) + " file"@ + plural(added) } else { both };
    if unchanged > 0 {
        message + " added to index, "@ + decimal(unchanged) + " file"@ + plural(unchanged) + " unchanged"@
    } else {
        message + " added to index"@
    }
}

/// A file to stage: its path, content and metadata.
#[derive(Debug)]
pub struct FileToStage {
    pub path: String,
    pub data: Vec<u8>,
    pub stat: FileStat,
}

/// How many of `files` the head files have (`true`) or lack (`false`).
pub open spec fn count_in_head(files: Seq<Seq<char>>, head: Seq<(Seq<char>, Seq<char>)>, present: bool) -> nat
    decreases files.len(),
{
    if files.len() == 0 {
        0
    } else {
        count_in_head(files.drop_last(), head, present) + if has_key(head, files.last()) == present { 1nat } else { 0nat }
    }
}

/// The text of a literal.
fn text(t: &str) -> (r: String)
    ensures
        r@ == t@,
{
    copy_str(t)
}

/// The plural ending for `n`.
fn plural_of(n: usize) -> (r: &'static str)
    ensures
        r@ == plural(n as nat),
{
    proof {
        reveal_strlit("s");
        reveal_strlit("");
    }
    if n == 1 { "" } else { "s" }
}

impl AddCommand {
    /// Refuses an empty list of paths.
    pub fn check_paths(paths: &Vec<String>) -> (r: Result<(), Error>)
        ensures
            paths@.len() == 0 ==> (r matches Err(Error::Generic(m)) && m@ == "No paths specified for add command"@),
            paths@.len() > 0 ==> r is Ok,
    {
        if paths.len() == 0 {
            return Err(Error::Generic(text("No paths specified for add command")));
        }
        Ok(())
    }

    /// Adds to `files` those of `found` that it lacks.
    fn add_found(files: &mut Vec<String>, found: &Vec<String>)
        ensures
            texts(final(files)@) == add_distinct(texts(old(files)@), texts(found@)),
    {
        let mut i: usize = 0;
        assert(texts(found@).take(0) =~= Seq::<Seq<char>>::empty());
        while i < found.len()
            invariant
                i <= found@.len(),
                texts(files@) == add_distinct(texts(old(files)@), texts(found@).take(i as int)),
            decreases found@.len() - i,
        {
            let ghost t = texts(found@).take(i + 1);
            assert(t.drop_last() =~= texts(found@).take(i as int));
            assert(t.last() == found@[i as int]@);
            let mut present = false;
            let mut k: usize = 0;
            while k < files.len()
                invariant
                    k <= files@.len(),
                    i < found@.len(),
                    present == exists|j: int| 0 <= j < k && #[trigger] texts(files@)[j] == found@[i as int]@,
                decreases files@.len() - k,
            {
                if str_eq(files[k].as_str(), found[i].as_str()) {
                    present = true;
                    assert(texts(files@)[k as int] == found@[i as int]@);
                }
                k += 1;
            }
            if !present {
                let ghost before = texts(files@);
                files.push(found[i].clone());
                assert(texts(files@) =~= before.push(found@[i as int]@));
            }
            i += 1;
        }
        assert(texts(found@).take(found@.len() as int) =~= texts(found@));
    }

    /// Goes through what listing each path argument gave: a warning for a
    /// path that matched nothing, a fatal message for one that does not
    /// exist, and the files found, each once. Another error stops at once.
    /// Returns the messages to print and the files to add, or the error:
    /// that one, or, when a path did not exist, that adding failed.
    pub fn gather_files(listings: Vec<PathListing>) -> (res: (Vec<String>, Result<Vec<String>, Error>))
        ensures
            ({
                let g = gathered(listings@.map_values(|l: PathListing| listing_view(l)));
                &&& texts(res.0@) == g.0
                &&& match g.3 {
                    Some(e) => res.1 == Err::<Vec<String>, Error>(e),
                    None => if g.2 {
                        res.1 matches Err(Error::Generic(m)) && m@ == "Adding files failed: some paths don't exist"@
                    } else {
                        res.1 matches Ok(files) && texts(files@) == g.1
                    },
                }
            }),
    {
        let ghost all = listings@;
        let ghost ls = all.map_values(|l: PathListing| listing_view(l));
        let mut rest = listings;
        let mut rev: Vec<PathListing> = Vec::new();
        while rest.len() > 0
            invariant
                all == rest@ + rev@.reverse(),
            decreases rest@.len(),
        {
            let ghost before = rev@;
            let l = rest.pop().unwrap();
            rev.push(l);
            assert(before.push(l).reverse() =~= seq![l] + before.reverse());
            assert(all =~= rest@ + rev@.reverse());
        }
        assert(rev@.reverse() =~= all);
        let mut messages: Vec<String> = Vec::new();
        let mut files: Vec<String> = Vec::new();
        let mut missing = false;
        let ghost mut done: int = 0;
        assert(ls.take(0) =~= Seq::<(Seq<char>, Result<Seq<Seq<char>>, Error>)>::empty());
        while rev.len() > 0
            invariant
                all == listings@,
                0 <= done <= all.len(),
                ls == all.map_values(|l: PathListing| listing_view(l)),
                rev@.reverse() == all.skip(done),
                ({
                    let g = gathered(ls.take(done));
                    &&& texts(messages@) == g.0
                    &&& texts(files@) == g.1
                    &&& missing == g.2
                    &&& g.3 is None
                }),
            decreases rev@.len(),
        {
            let ghost before_rev = rev@;
            let l = rev.pop().unwrap();
            proof {
                assert(before_rev.reverse() =~= seq![l] + rev@.reverse());
                assert(all.skip(done)[0] == l);
                assert(ls[done] == listing_view(l));
                assert(ls.take(done + 1).drop_last() =~= ls.take(done));
                assert(ls.take(done + 1).last() == listing_view(l));
                assert(all.skip(done + 1) =~= all.skip(done).drop_first());
            }
            let path = l.path;
            match l.result {
                Ok(found) => {
                    if found.len() == 0 {
                        let mut m = text("warning: '");
                        push_str(&mut m, path.as_str());
                        push_str(&mut m, "' didn't match any files");
                        let ghost before = texts(messages@);
                        messages.push(m);
                        assert(texts(messages@) =~= before.push("warning: '"@ + path@ + "' didn't match any files"@));
                    } else {
                        Self::add_found(&mut files, &found);
                    }
                },
                Err(Error::InvalidPath(d)) => {
                    let mut m = text("fatal: pathspec '");
                    push_str(&mut m, path.as_str());
                    push_str(&mut m, "' did not match any files");
                    let ghost before = texts(messages@);
                    messages.push(m);
                    assert(texts(messages@) =~= before.push("fatal: pathspec '"@ + path@ + "' did not match any files"@));
                    missing = true;
                },
                Err(e) => {
                    proof {
                        assert(gathered(ls.take(done + 1)).3 == Some(e));
                        assert(gathered(ls.take(done + 1)).0 == gathered(ls.take(done)).0);
                        lemma_gathered_stops(ls, done + 1);
                        assert(ls.take(ls.len() as int) =~= ls);
                    }
                    return (messages, Err(e));
                },
            }
            proof {
                done = done + 1;
            }
        }
        assert(done == all.len());
        assert(ls.take(done) =~= ls);
        if missing {
            return (messages, Err(Error::Generic(text("Adding files failed: some paths don't exist"))));
        }
        (messages, Ok(files))
    }
}

/// Once the going through stopped at an error, later listings change nothing.
proof fn lemma_gathered_stops(ls: Seq<(Seq<char>, Result<Seq<Seq<char>>, Error>)>, k: int)
    requires
        0 <= k <= ls.len(),
        gathered(ls.take(k)).3 is Some,
    ensures
        gathered(ls) == gathered(ls.take(k)),
    decreases ls.len() - k,
{
    if k < ls.len() {
        assert(ls.take(k + 1).drop_last() =~= ls.take(k));
        lemma_gathered_stops(ls, k + 1);
    } else {
        assert(ls.take(k) =~= ls);
    }
}

/// The files of a head tree as `add` collects them under `prefix`: each
/// blob that is no directory, with its id.
pub open spec fn collected_files(prefix: Seq<char>, entries: Seq<(Seq<char>, TreeEntryView)>) -> Seq<(Seq<char>, Seq<char>)>
    decreases entries.len(),
{
    if entries.len() == 0 {
        Seq::empty()
    } else {
        let rest = collected_files(prefix, entries.drop_last());
        match entries.last().1 {
            TreeEntryView::Blob(oid, mode) => if mode_is_directory(mode) {
                rest
            } else {
                rest.push((joined(prefix, entries.last().0), oid))
            },
            TreeEntryView::Tree(_) => rest,
        }
    }
}

/// The subtrees `add` goes into under `prefix`: directory blobs and
/// subtrees that have an id.
pub open spec fn collected_children(prefix: Seq<char>, entries: Seq<(Seq<char>, TreeEntryView)>) -> Seq<(Seq<char>, Seq<char>)>
    decreases entries.len(),
{
    if entries.len() == 0 {
        Seq::empty()
    } else {
        let rest = collected_children(prefix, entries.drop_last());
        let path = joined(prefix, entries.last().0);
        match entries.last().1 {
            TreeEntryView::Blob(oid, mode) => if mode_is_directory(mode) { rest.push((path, oid)) } else { rest },
            TreeEntryView::Tree(Some(oid)) => rest.push((path, oid)),
            TreeEntryView::Tree(None) => rest,
        }
    }
}

/// The walk through the trees below a root that collects the files of
/// HEAD with their ids, one loaded object at a time. Any failure to load
/// fails it.
pub struct FileCollect {
    pending: Vec<(String, String)>,
    files: TextMap,
}

impl FileCollect {
    /// The trees still to visit (path and id); the last comes next.
    pub closed spec fn pending_view(&self) -> Seq<(Seq<char>, Seq<char>)> {
        self.pending@.map_values(|p: (String, String)| (p.0@, p.1@))
    }

    /// The files found so far.
    pub closed spec fn files_view(&self) -> Seq<(Seq<char>, Seq<char>)> {
        self.files@
    }

    /// The files are keyed by distinct paths.
    pub closed spec fn wf(&self) -> bool {
        self.files.wf()
    }

    /// A walk that starts at the tree `root_oid`.
    pub fn new(root_oid: String) -> (w: Self)
        ensures
            w.wf(),
            w.pending_view() == seq![(Seq::<char>::empty(), root_oid@)],
            w.files_view() == Seq::<(Seq<char>, Seq<char>)>::empty(),
    {
        let mut pending: Vec<(String, String)> = Vec::new();
        pending.push((String::new(), root_oid));
        let w = FileCollect { pending, files: TextMap::new() };
        assert(w.pending_view() =~= seq![(Seq::<char>::empty(), root_oid@)]);
        w
    }

    /// The id of the tree to load next, when one is left.
    pub fn next_oid(&self) -> (r: Option<String>)
        ensures
            r is None <==> self.pending_view().len() == 0,
            r matches Some(o) ==> o@ == self.pending_view().last().1,
    {
        if self.pending.len() == 0 {
            None
        } else {
            Some(self.pending[self.pending.len() - 1].1.clone())
        }
    }

    /// Records the files of one tree and queues its subtrees.
    fn visit_entries(&mut self, prefix: &str, entries: &Vec<(String, TreeEntry)>)
        requires
            old(self).wf(),
        ensures
            final(self).wf(),
            ({
                let ev = entries@.map_values(|p: (String, TreeEntry)| (p.0@, crate::vcs::database::tree::entry_view(p.1)));
                &&& final(self).files_view() == upsert_all(old(self).files_view(), collected_files(prefix@, ev))
                &&& final(self).pending_view() == old(self).pending_view() + collected_children(prefix@, ev)
            }),
    {
        let ghost ev = entries@.map_values(|p: (String, TreeEntry)| (p.0@, crate::vcs::database::tree::entry_view(p.1)));
        let mut i: usize = 0;
        assert(ev.take(0) =~= Seq::<(Seq<char>, TreeEntryView)>::empty());
        assert(old(self).pending_view() + Seq::<(Seq<char>, Seq<char>)>::empty() =~= old(self).pending_view());
        while i < entries.len()
            invariant
                i <= entries@.len(),
                ev == entries@.map_values(|p: (String, TreeEntry)| (p.0@, crate::vcs::database::tree::entry_view(p.1))),
                self.wf(),
                self.files_view() == upsert_all(old(self).files_view(), collected_files(prefix@, ev.take(i as int))),
                self.pending_view() == old(self).pending_view() + collected_children(prefix@, ev.take(i as int)),
            decreases entries@.len() - i,
        {
            let name = &entries[i].0;
            let path = join_path(prefix, name.as_str());
            let ghost t = ev.take(i + 1);
            proof {
                assert(t.drop_last() =~= ev.take(i as int));
                assert(t.last() == ev[i as int]);
            }
            let ghost pending_before = self.pending_view();
            match &entries[i].1 {
                TreeEntry::Blob(oid, mode) => {
                    if crate::vcs::file_mode::FileMode::is_directory(*mode) {
                        self.pending.push((path, oid.clone()));
                        assert(self.pending_view() =~= pending_before.push((joined(prefix@, name@), oid@)));
                    } else {
                        self.files.insert(path, oid.clone());
                    }
                },
                TreeEntry::Tree(sub) => {
                    match sub.get_oid() {
                        Some(soid) => {
                            self.pending.push((path, soid.clone()));
                            assert(self.pending_view() =~= pending_before.push((joined(prefix@, name@), soid@)));
                        },
                        None => {},
                    }
                },
            }
            proof {
                let recs = collected_files(prefix@, t);
                let recs0 = collected_files(prefix@, t.drop_last());
                if recs.len() > recs0.len() {
                    assert(recs.drop_last() =~= recs0);
                }
                assert(self.pending_view() =~= old(self).pending_view() + collected_children(prefix@, t));
            }
            i += 1;
        }
        assert(ev.take(entries@.len() as int) =~= ev);
    }

    /// Takes the next tree off the walk and handles the outcome of loading
    /// it: a tree's files are recorded and its subtrees queued; a blob is
    /// read as a tree when it reads as one, else, below the root, it is
    /// recorded as a file at that path; a commit adds nothing; a failure
    /// is returned.
    pub fn feed(&mut self, loaded: Result<StoredObject, Error>) -> (r: Result<(), Error>)
        requires
            old(self).wf(),
            old(self).pending_view().len() > 0,
        ensures
            final(self).wf(),
            ({
                let item = old(self).pending_view().last();
                let rest = old(self).pending_view().drop_last();
                match loaded {
                    Err(e) => r == Err::<(), Error>(e),
                    Ok(StoredObject::Tree(t)) => {
                        &&& r is Ok
                        &&& final(self).files_view() == upsert_all(old(self).files_view(), collected_files(item.0, t@))
                        &&& final(self).pending_view() == rest + collected_children(item.0, t@)
                    },
                    Ok(StoredObject::Blob(b)) => {
                        &&& r is Ok
                        &&& match parse_raw(b.data_view()) {
                            Some(raw) => {
                                &&& final(self).files_view() == upsert_all(old(self).files_view(), collected_files(item.0, insert_all(Seq::empty(), raw)))
                                &&& final(self).pending_view() == rest + collected_children(item.0, insert_all(Seq::empty(), raw))
                            },
                            None => {
                                &&& final(self).files_view() == (if item.0.len() > 0 {
                                    upsert(old(self).files_view(), item.0, item.1)
                                } else {
                                    old(self).files_view()
                                })
                                &&& final(self).pending_view() == rest
                            },
                        }
                    },
                    Ok(StoredObject::Commit(_)) => {
                        &&& r is Ok
                        &&& final(self).files_view() == old(self).files_view()
                        &&& final(self).pending_view() == rest
                    },
                }
            }),
    {
        let item = self.pending.pop().unwrap();
        assert(self.pending_view() =~= old(self).pending_view().drop_last());
        match loaded {
            Err(e) => Err(e),
            Ok(StoredObject::Tree(t)) => {
                self.visit_entries(item.0.as_str(), t.get_entries());
                Ok(())
            },
            Ok(StoredObject::Blob(b)) => {
                let data = b.to_bytes();
                match Tree::parse(data.as_slice()) {
                    Ok(t) => {
                        self.visit_entries(item.0.as_str(), t.get_entries());
                    },
                    Err(_) => {
                        if !crate::text::str_is_empty(item.0.as_str()) {
                            self.files.insert(item.0, item.1);
                        }
                    },
                }
                Ok(())
            },
            Ok(StoredObject::Commit(_)) => Ok(()),
        }
    }

    /// The files found, by path.
    pub fn into_files(self) -> (m: TextMap)
        requires
            self.wf(),
        ensures
            m.wf(),
            m@ == self.files_view(),
    {
        self.files
    }
}

/// The index holds `path` with id `oid`.
pub open spec fn holds(s: Seq<EntryView>, path: Seq<char>, oid: Seq<char>) -> bool {
    exists|i: int| 0 <= i < s.len() && s[i].3 == path && s[i].1 == oid
}

impl AddCommand {
    /// Whether the index already holds `path` with the id `new_oid`, so
    /// that adding it changes nothing.
    pub fn is_unchanged(index: &Index, path: &str, new_oid: &str) -> (r: bool)
        requires
            index.wf(),
        ensures
            r == holds(index.view_entries(), path@, new_oid@),
    {
        match index.get_entry(path) {
            Some(e) => {
                let same = str_eq(e.oid.as_str(), new_oid);
                proof {
                    let s = index.view_entries();
                    if holds(s, path@, new_oid@) {
                        let i = choose|i: int| 0 <= i < s.len() && s[i].3 == path@ && s[i].1 == new_oid@;
                        let j = choose|j: int| 0 <= j < index.entries_seq().len() && index.entries_seq()[j] == *e
                            && entry_view(*e) == s[j] && #[trigger] s[j].3 == path@;
                        if i < j {
                            crate::order::lemma_text_lt_asymmetric(s[i].3, s[j].3);
                        } else if j < i {
                            crate::order::lemma_text_lt_asymmetric(s[j].3, s[i].3);
                        }
                    }
                }
                same
            },
            None => false,
        }
    }

    /// The error for a file that could not be read: permission denied, or
    /// another failure described by its message.
    pub fn read_failure(path: &str, error: &Error, permission_denied: bool) -> (e: Error)
        ensures
            e matches Error::Generic(m) && m@ == (if permission_denied {
                "error: open('"@ + path@ + "'): Permission denied\nfatal: adding files failed"@
            } else {
                "error: Failed to read '"@ + path@ + "': "@ + error_message(*error) + "\nfatal: adding files failed"@
            }),
    {
        if permission_denied {
            let mut m = text("error: open('");
            push_str(&mut m, path);
            push_str(&mut m, "'): Permission denied\nfatal: adding files failed");
            Error::Generic(m)
        } else {
            let mut m = text("error: Failed to read '");
            push_str(&mut m, path);
            push_str(&mut m, "': ");
            let detail = error.to_message();
            push_str(&mut m, detail.as_str());
            push_str(&mut m, "\nfatal: adding files failed");
            Error::Generic(m)
        }
    }

    /// The error for a file whose metadata could not be read.
    pub fn stat_failure(path: &str, error: &Error) -> (e: Error)
        ensures
            e matches Error::Generic(m) && m@ == "error: Failed to get stats for '"@ + path@ + "': "@ + error_message(*error)
                + "\nfatal: adding files failed"@,
    {
        let mut m = text("error: Failed to get stats for '");
        push_str(&mut m, path);
        push_str(&mut m, "': ");
        let detail = error.to_message();
        push_str(&mut m, detail.as_str());
        push_str(&mut m, "\nfatal: adding files failed");
        Error::Generic(m)
    }

    /// The error when the index is locked by another process.
    pub fn lock_exists_error() -> (e: Error)
        ensures
            e matches Error::Lock(m) && m@ == "Unable to create '.ash/index.lock': File exists.\nAnother ash process seems to be running in this repository.\nIf it still fails, a process may have crashed in this repository earlier:\nremove the file manually to continue."@,
    {
        Error::Lock(text("Unable to create '.ash/index.lock': File exists.\nAnother ash process seems to be running in this repository.\nIf it still fails, a process may have crashed in this repository earlier:\nremove the file manually to continue."))
    }

    /// The error when the lock on the index cannot be taken.
    pub fn lock_denied_error() -> (e: Error)
        ensures
            e matches Error::Lock(m) && m@ == "Unable to acquire lock on index. Another process may be using it. If not, the .ash/index.lock file may need to be manually removed."@,
    {
        Error::Lock(text("Unable to acquire lock on index. Another process may be using it. If not, the .ash/index.lock file may need to be manually removed."))
    }

    /// Stores a blob of each file and stages it with its id. The paths are
    /// distinct. Afterwards the index holds each path with the id of its
    /// content, and otherwise what it held; one write is queued per file.
    pub fn stage_files(database: &mut Database, index: &mut Index, files: Vec<FileToStage>) -> (added: usize)
        requires
            old(index).wf(),
            files@.map_values(|f: FileToStage| f.path@).no_duplicates(),
        ensures
            added == files@.len(),
            final(index).wf(),
            forall|k: int| 0 <= k < files@.len() ==>
                holds(final(index).view_entries(), #[trigger] files@[k].path@, object_id("blob"@, files@[k].data@)),
            forall|x: EntryView| #[trigger] final(index).view_entries().contains(x) ==>
                (old(index).view_entries().contains(x) && !files@.map_values(|f: FileToStage| f.path@).contains(x.3))
                || exists|k: int| 0 <= k < files@.len() && x.3 == files@[k].path@ && x.1 == object_id("blob"@, files@[k].data@),
            final(database).writes_view().len() == old(database).writes_view().len() + files@.len(),
            final(database).cache_view() == old(database).cache_view(),
            final(database).path_view() == old(database).path_view(),
    {
        let n = files.len();
        let ghost all = files@;
        let ghost paths = all.map_values(|f: FileToStage| f.path@);
        let mut rest = files;
        let mut rev: Vec<FileToStage> = Vec::new();
        while rest.len() > 0
            invariant
                all == rest@ + rev@.reverse(),
            decreases rest@.len(),
        {
            let ghost before = rev@;
            let f = rest.pop().unwrap();
            rev.push(f);
            assert(before.push(f).reverse() =~= seq![f] + before.reverse());
            assert(all =~= rest@ + rev@.reverse());
        }
        assert(rev@.reverse() =~= all);
        let mut added: usize = 0;
        while rev.len() > 0
            invariant
                all == files@,
                all.len() == n,
                paths == all.map_values(|f: FileToStage| f.path@),
                paths.no_duplicates(),
                added <= all.len(),
                rev@.reverse() == all.skip(added as int),
                index.wf(),
                forall|k: int| 0 <= k < added ==>
                    holds(index.view_entries(), #[trigger] all[k].path@, object_id("blob"@, all[k].data@)),
                forall|x: EntryView| #[trigger] index.view_entries().contains(x) ==>
                    (old(index).view_entries().contains(x) && !paths.take(added as int).contains(x.3))
                    || exists|k: int| 0 <= k < added && x.3 == all[k].path@ && x.1 == object_id("blob"@, all[k].data@),
                database.writes_view().len() == old(database).writes_view().len() + added,
                database.cache_view() == old(database).cache_view(),
                database.path_view() == old(database).path_view(),
            decreases rev@.len(),
        {
            let ghost before_rev = rev@;
            let f = rev.pop().unwrap();
            let ghost k0 = added as int;
            proof {
                assert(all.skip(k0).len() == before_rev.len());
                assert(before_rev.reverse() =~= seq![f] + rev@.reverse());
                assert(all.skip(k0)[0] == f);
                assert(all[k0] == f);
                assert(all.skip(k0 + 1) =~= all.skip(k0).drop_first());
            }
            let mut blob = Blob::new(f.data);
            let oid = match database.store(&mut blob) {
                Ok(o) => o,
                Err(_) => {
                    proof {
                        assert(false);
                    }
                    return added;
                },
            };
            let ghost s0 = index.view_entries();
            let _ = index.add(f.path.as_str(), oid.as_str(), &f.stat);
            proof {
                let s1 = index.view_entries();
                let e = choose|e: Entry| e.path@ == f.path@ && e.oid@ == oid@
                    && #[trigger] store_sorted(s0, entry_view(e)) == s1;
                let ev = entry_view(e);
                lemma_store_sorted_contains(s0, ev, ev);
                let i = choose|i: int| 0 <= i < s1.len() && s1[i] == ev;
                assert(s1[i].3 == f.path@ && s1[i].1 == oid@);
                assert(paths[k0] == f.path@);
                assert forall|k: int| 0 <= k < k0 + 1 implies
                    holds(s1, #[trigger] all[k].path@, object_id("blob"@, all[k].data@)) by {
                    if k < k0 {
                        let j = choose|j: int| 0 <= j < s0.len() && s0[j].3 == all[k].path@ && s0[j].1 == object_id("blob"@, all[k].data@);
                        assert(paths[k] == all[k].path@);
                        assert(paths[k] != paths[k0]);
                        lemma_store_sorted_contains(s0, ev, s0[j]);
                        let m = choose|m: int| 0 <= m < s1.len() && s1[m] == s0[j];
                    } else {
                        assert(s1[i].3 == all[k].path@);
                    }
                }
                assert(paths.take(k0 + 1) =~= paths.take(k0).push(f.path@));
                assert forall|x: EntryView| #[trigger] s1.contains(x) implies
                    (old(index).view_entries().contains(x) && !paths.take(k0 + 1).contains(x.3))
                    || exists|k: int| 0 <= k < k0 + 1 && x.3 == all[k].path@ && x.1 == object_id("blob"@, all[k].data@) by {
                    lemma_store_sorted_contains(s0, ev, x);
                    if x == ev {
                        assert(x.3 == all[k0].path@ && x.1 == object_id("blob"@, all[k0].data@));
                    } else {
                        assert(s0.contains(x));
                        if !(old(index).view_entries().contains(x) && !paths.take(k0).contains(x.3)) {
                            let k = choose|k: int| 0 <= k < k0 && x.3 == all[k].path@ && x.1 == object_id("blob"@, all[k].data@);
                            assert(0 <= k < k0 + 1);
                        } else {
                            assert(x.3 != f.path@);
                            if paths.take(k0 + 1).contains(x.3) {
                                let pt = paths.take(k0 + 1);
                                let m = choose|m: int| 0 <= m < pt.len() && #[trigger] pt[m] == x.3;
                                assert(m < k0);
                                assert(paths.take(k0)[m] == x.3);
                            }
                        }
                    }
                }
            }
            added = added + 1;
        }
        assert(added == all.len());
        assert(paths.take(added as int) =~= paths);
        added
    }

    /// How many of the added files HEAD has (modified) and lacks (new).
    pub fn count_new_and_modified(files: &Vec<String>, head_files: &TextMap) -> (r: (usize, usize))
        requires
            head_files.wf(),
        ensures
            r.0 == count_in_head(texts(files@), head_files@, false),
            r.1 == count_in_head(texts(files@), head_files@, true),
    {
        let mut new_files: usize = 0;
        let mut modified_files: usize = 0;
        let mut i: usize = 0;
        while i < files.len()
            invariant
                i <= files@.len(),
                head_files.wf(),
                new_files + modified_files == i,
                new_files == count_in_head(texts(files@).take(i as int), head_files@, false),
                modified_files == count_in_head(texts(files@).take(i as int), head_files@, true),
            decreases files@.len() - i,
        {
            assert(texts(files@).take(i + 1).drop_last() =~= texts(files@).take(i as int));
            assert(texts(files@).take(i + 1).last() == files@[i as int]@);
            if head_files.contains_key(files[i].as_str()) {
                modified_files += 1;
            } else {
                new_files += 1;
            }
            i += 1;
        }
        assert(texts(files@).take(files@.len() as int) =~= texts(files@));
        (new_files, modified_files)
    }

    /// The summary printed after an addition, before its timing: new and
    /// modified files (or just how many were added), and how many were
    /// unchanged.
    pub fn summary_message(new_files: usize, modified_files: usize, added: usize, unchanged: usize) -> (s: String)
        ensures
            s@ == summary_text(new_files as nat, modified_files as nat, added as nat, unchanged as nat),
    {
        proof {
            reveal_strlit(" and ");
        }
        let mut message = String::new();
        if new_files > 0 {
            push_str(&mut message, crate::numeral::format_decimal(new_files as u64).as_str());
            push_str(&mut message, " new file");
            push_str(&mut message, plural_of(new_files));
        }
        let ghost new_part = message@;
        if modified_files > 0 {
            if !crate::text::str_is_empty(message.as_str()) {
                push_str(&mut message, " and ");
            }
            push_str(&mut message, crate::numeral::format_decimal(modified_files as u64).as_str());
            push_str(&mut message, " modified file");
            push_str(&mut message, plural_of(modified_files));
        }
        let ghost both = message@;
        if crate::text::str_is_empty(message.as_str()) {
            message = crate::numeral::format_decimal(added as u64);
            push_str(&mut message, " file");
            push_str(&mut message, plural_of(added));
        }
        if unchanged > 0 {
            push_str(&mut message, " added to index, ");
            push_str(&mut message, crate::numeral::format_decimal(unchanged as u64).as_str());
            push_str(&mut message, " file");
            push_str(&mut message, plural_of(unchanged));
            push_str(&mut message, " unchanged");
        } else {
            push_str(&mut message, " added to index");
        }
        proof {
            assert(new_part =~= (if new_files > 0 { decimal(new_files as nat) + " new file"@ + plural(new_files as nat) } else { Seq::empty() }));
            assert(both =~= (if modified_files > 0 {
                new_part + (if new_part.len() > 0 { " and "@ } else { Seq::empty() }) + decimal(modified_files as nat) + " modified file"@ + plural(modified_files as nat)
            } else {
                new_part
            }));
        }
        assert(message@ =~= summary_text(new_files as nat, modified_files as nat, added as nat, unchanged as nat));
        message
    }

    /// The message when nothing was added: how many files were already up
    /// to date, or that nothing changed.
    pub fn no_addition_message(unchanged: usize) -> (s: String)
        ensures
            s@ == (if unchanged > 0 {
                "No files changed, "@ + decimal(unchanged as nat) + " file"@ + plural(unchanged as nat) + " already up to date"@
            } else {
                "No changes were made to the index"@
            }),
    {
        if unchanged > 0 {
            let mut m = text("No files changed, ");
            push_str(&mut m, crate::numeral::format_decimal(unchanged as u64).as_str());
            push_str(&mut m, " file");
            push_str(&mut m, plural_of(unchanged));
            push_str(&mut m, " already up to date");
            m
        } else {
            text("No changes were made to the index")
        }
    }
}

} // verus!
