//! The index: the entries staged for the next commit, ordered by path, and
//! its file format (`DIRC`, version 2, the entries, a SHA-1 checksum).
use vstd::prelude::*;
use vstd::utf8::encode_utf8;
use crate::order::text_lt;
use crate::digest::sha1_digest;
use crate::vcs::index::entry::{Entry, FileStat, entry_bytes, parsed_entry, be32, read_be32};
use crate::vcs::index::checksum::Checksum;
use crate::vcs::database::entry::DatabaseEntry;
use crate::vcs::file_mode::parse_mode;
use crate::errors::error::Error;

verus! {

/// Signature of index files.
pub const HEADER_FORMAT: &'static str = "DIRC";
/// Version of the index format.
pub const VERSION: u32 = 2;
/// Size of the header, in bytes.
pub const HEADER_SIZE: usize = 12;

/// What the index records of an entry: its ten numbers, id, flags, path and stage.
pub type EntryView = (Seq<u32>, Seq<char>, u16, Seq<char>, u8);

/// The record of an entry.
pub open spec fn entry_view(e: Entry) -> EntryView {
    (seq![e.ctime, e.ctime_nsec, e.mtime, e.mtime_nsec, e.dev, e.ino, e.mode, e.uid, e.gid, e.size], e.oid@, e.flags, e.path@, e.stage)
}

/// Paths strictly increase along the entries.
pub open spec fn sorted_paths(s: Seq<EntryView>) -> bool {
    forall|i: int, j: int| 0 <= i < j < s.len() ==> text_lt(#[trigger] s[i].3, #[trigger] s[j].3)
}

/// The entries after storing `e`: it replaces the entry with its path, else
/// goes before the first larger path.
pub open spec fn store_sorted(s: Seq<EntryView>, e: EntryView) -> Seq<EntryView>
    decreases s.len(),
{
    if s.len() == 0 {
        seq![e]
    } else if s[0].3 == e.3 {
        seq![e] + s.drop_first()
    } else if text_lt(e.3, s[0].3) {
        seq![e] + s
    } else {
        seq![s[0]] + store_sorted(s.drop_first(), e)
    }
}

/// An entry that removing `path` takes away: the path itself or one below it.
pub open spec fn removed_by(p: Seq<char>, path: Seq<char>) -> bool {
    p == path || (path + seq!['/']).is_prefix_of(p)
}

/// The entries that removing `path` keeps, in order.
pub open spec fn without_path(s: Seq<EntryView>, path: Seq<char>) -> Seq<EntryView>
    decreases s.len(),
{
    if s.len() == 0 {
        Seq::empty()
    } else {
        let prev = without_path(s.drop_last(), path);
        if removed_by(s.last().3, path) {
            prev
        } else {
            prev.push(s.last())
        }
    }
}

/// The entries after storing each of `es` in turn.
pub open spec fn store_all(s: Seq<EntryView>, es: Seq<EntryView>) -> Seq<EntryView>
    decreases es.len(),
{
    if es.len() == 0 {
        s
    } else {
        store_all(store_sorted(s, es[0]), es.drop_first())
    }
}

/// The end of an entry whose first `end` bytes were read: blocks of eight
/// bytes are added until its last byte is zero; `None` when the data ends first.
pub open spec fn entry_end(d: Seq<u8>, end: int) -> Option<int>
    decreases d.len() - end,
{
    if end < 1 || end > d.len() {
        None
    } else if d[end - 1] == 0 {
        Some(end)
    } else if end + 8 > d.len() {
        None
    } else {
        entry_end(d, end + 8)
    }
}

/// The entries read from `pos` for `count` entries (each at least 64 bytes,
/// those that do not parse left out) and where reading stopped: at the end
/// of the data when it runs out.
pub open spec fn read_entries(d: Seq<u8>, pos: int, count: nat) -> (Seq<EntryView>, int)
    decreases count,
{
    if count == 0 {
        (Seq::empty(), pos)
    } else if pos < 0 || pos + 64 > d.len() {
        (Seq::empty(), d.len() as int)
    } else {
        match entry_end(d, pos + 64) {
            None => (Seq::empty(), d.len() as int),
            Some(e) => {
                let rest = read_entries(d, e, (count - 1) as nat);
                match parsed_entry(d.subrange(pos, e)) {
                    Some(p) => (seq![(p.0, p.1, p.2, p.3, 0u8)] + rest.0, rest.1),
                    None => rest,
                }
            },
        }
    }
}

/// What loading index bytes gives: no entries for missing or too short data;
/// an error for a wrong signature or version, or when the twenty bytes after
/// the entries are missing or are not the SHA-1 of what precedes them;
/// else the entries read, stored in turn.
pub open spec fn loaded(file: Option<Seq<u8>>) -> Option<Seq<EntryView>> {
    match file {
        None => Some(Seq::empty()),
        Some(d) => if d.len() < 12 {
            Some(Seq::empty())
        } else if crate::stdtext::lossy_text(d.take(4)) != "DIRC"@ {
            None
        } else if read_be32(d, 4) != 2 {
            None
        } else {
            let r = read_entries(d, 12, read_be32(d, 8) as nat);
            if r.1 + 20 > d.len() || d.subrange(r.1, r.1 + 20) != sha1_digest(d.take(r.1)) {
                None
            } else {
                Some(store_all(Seq::empty(), r.0))
            }
        },
    }
}

/// The bytes of an index: header, entries in order, SHA-1 of both.
pub open spec fn index_bytes(entries: Seq<Entry>) -> Seq<u8> {
    let body = encode_utf8("DIRC"@) + be32(2) + be32(entries.len() as u32) + all_entry_bytes(entries);
    body + sha1_digest(body)
}

/// The bytes of entries, one after the other.
pub open spec fn all_entry_bytes(entries: Seq<Entry>) -> Seq<u8>
    decreases entries.len(),
{
    if entries.len() == 0 {
        Seq::empty()
    } else {
        all_entry_bytes(entries.drop_last()) + entry_bytes(entries.last())
    }
}

/// The staged entries of a repository, ordered by path.
pub struct Index {
    pathname: String,
    entries: Vec<Entry>,
    changed: bool,
}

impl Index {
    /// The records of the entries, ordered by path.
    pub closed spec fn view_entries(&self) -> Seq<EntryView> {
        self.entries@.map_values(|e: Entry| entry_view(e))
    }

    /// The entries themselves.
    pub closed spec fn entries_seq(&self) -> Seq<Entry> {
        self.entries@
    }

    /// Whether the index changed since it was loaded or written.
    pub closed spec fn changed_view(&self) -> bool {
        self.changed
    }

    /// Paths are ordered and distinct.
    pub open spec fn wf(&self) -> bool {
        sorted_paths(self.view_entries())
    }

    /// An empty index for the file at `pathname`, marked changed.
    pub fn new(pathname: &str) -> (i: Self)
        ensures
            i.view_entries().len() == 0,
            i.changed_view(),
            i.wf(),
    {
        let i = Index { pathname: pathname.to_string(), entries: Vec::new(), changed: true };
        assert(i.view_entries() =~= Seq::<EntryView>::empty());
        i
    }

    /// The entry with a path.
    pub fn get_entry(&self, key: &str) -> (r: Option<&Entry>)
        requires
            self.wf(),
        ensures
            r matches Some(e) ==> exists|i: int| 0 <= i < self.entries_seq().len() && self.entries_seq()[i] == *e
                && entry_view(*e) == self.view_entries()[i] && #[trigger] self.view_entries()[i].3 == key@,
            self.view_entries().len() == self.entries_seq().len(),
            r is None ==> forall|i: int| 0 <= i < self.view_entries().len() ==> #[trigger] self.view_entries()[i].3 != key@,
    {
        let mut i: usize = 0;
        while i < self.entries.len()
            invariant
                i <= self.entries@.len(),
                forall|j: int| 0 <= j < i ==> #[trigger] self.view_entries()[j].3 != key@,
            decreases self.entries@.len() - i,
        {
            assert(self.view_entries()[i as int].3 == self.entries@[i as int].path@);
            if crate::text::str_eq(self.entries[i].path.as_str(), key) {
                return Some(&self.entries[i]);
            }
            i += 1;
        }
        None
    }

    /// Whether the index changed since it was loaded or written.
    pub fn is_changed(&self) -> (r: bool)
        ensures
            r == self.changed_view(),
    {
        self.changed
    }

    /// Marks the index changed or not.
    pub fn set_changed(&mut self, changed: bool)
        ensures
            final(self).changed_view() == changed,
            final(self).view_entries() == old(self).view_entries(),
    {
        self.changed = changed;
    }

    /// Stores an entry by its path.
    fn store_entry(&mut self, entry: Entry)
        requires
            old(self).wf(),
        ensures
            final(self).view_entries() == store_sorted(old(self).view_entries(), entry_view(entry)),
            final(self).wf(),
            final(self).changed_view() == old(self).changed_view(),
    {
        let ghost s = self.view_entries();
        let ghost ev = entry_view(entry);
        proof {
            lemma_store_sorted_sorted(s, ev);
            assert(s.skip(0) =~= s);
            assert(s.take(0) =~= Seq::<EntryView>::empty());
        }
        let mut i: usize = 0;
        while i < self.entries.len()
            invariant
                i <= self.entries@.len(),
                self.view_entries() == s,
                s == old(self).view_entries(),
                sorted_paths(store_sorted(s, ev)),
                self.changed_view() == old(self).changed_view(),
                s.len() == self.entries@.len(),
                ev == entry_view(entry),
                store_sorted(s, ev) == s.take(i as int) + store_sorted(s.skip(i as int), ev),
            decreases self.entries@.len() - i,
        {
            let ghost rest = s.skip(i as int);
            assert(rest[0] == s[i as int]);
            assert(s[i as int].3 == self.entries@[i as int].path@);
            if crate::text::str_eq(self.entries[i].path.as_str(), entry.path.as_str()) {
                self.entries.set(i, entry);
                proof {
                    assert(store_sorted(rest, ev) == seq![ev] + rest.drop_first());
                    assert(self.view_entries() =~= s.take(i as int) + (seq![ev] + rest.drop_first()));
                }
                return;
            }
            if crate::order::text_less(entry.path.as_str(), self.entries[i].path.as_str()) {
                self.entries.insert(i, entry);
                proof {
                    assert(self.view_entries() =~= s.take(i as int) + (seq![ev] + rest));
                }
                return;
            }
            proof {
                assert(rest.drop_first() =~= s.skip(i + 1));
                assert(s.take(i as int) + (seq![rest[0]] + store_sorted(s.skip(i + 1), ev))
                    =~= s.take(i + 1) + store_sorted(s.skip(i + 1), ev));
            }
            i += 1;
        }
        self.entries.push(entry);
        proof {
            assert(s.skip(i as int) =~= Seq::<EntryView>::empty());
            assert(s.take(i as int) =~= s);
            assert(self.view_entries() =~= s + seq![ev]);
        }
    }

    /// Stages a file: its entry replaces any with the same path.
    pub fn add(&mut self, pathname: &str, oid: &str, stat: &FileStat) -> (r: Result<(), Error>)
        requires
            old(self).wf(),
        ensures
            r is Ok,
            final(self).wf(),
            final(self).changed_view(),
            exists|e: Entry| e.path@ == pathname@ && e.oid@ == oid@
                && #[trigger] final(self).view_entries() == store_sorted(old(self).view_entries(), entry_view(e)),
    {
        let entry = Entry::create(pathname, oid, stat);
        let ghost e = entry;
        self.store_entry(entry);
        self.changed = true;
        Ok(())
    }

    /// The entries, ordered by path.
    pub fn each_entry(&self) -> (r: &Vec<Entry>)
        ensures
            r@.map_values(|e: Entry| entry_view(e)) == self.view_entries(),
    {
        &self.entries
    }

    /// Whether some entry has the path.
    pub fn is_tracked(&self, path: &str) -> (r: bool)
        requires
            self.wf(),
        ensures
            r == exists|i: int| 0 <= i < self.view_entries().len() && #[trigger] self.view_entries()[i].3 == path@,
    {
        self.get_entry(path).is_some()
    }

    /// Removes the entry of a path and those below it.
    pub fn remove(&mut self, path: &str) -> (r: Result<(), Error>)
        requires
            old(self).wf(),
        ensures
            r is Ok,
            final(self).view_entries() == without_path(old(self).view_entries(), path@),
            final(self).wf(),
            final(self).changed_view(),
    {
        let ghost s = self.view_entries();
        let mut kept: Vec<Entry> = Vec::new();
        let mut old_entries: Vec<Entry> = Vec::new();
        std::mem::swap(&mut old_entries, &mut self.entries);
        assert(old_entries@.map_values(|e: Entry| entry_view(e)) == s);
        let mut i: usize = 0;
        let mut prefix = crate::text::copy_str(path);
        crate::text::push_char(&mut prefix, '/');
        while i < old_entries.len()
            invariant
                i <= old_entries@.len(),
                s == old_entries@.map_values(|e: Entry| entry_view(e)),
                sorted_paths(s),
                prefix@ == path@ + seq!['/'],
                kept@.map_values(|e: Entry| entry_view(e)) == without_path(s.take(i as int), path@),
                sorted_paths(kept@.map_values(|e: Entry| entry_view(e))),
                forall|k: int, j: int| 0 <= k < kept@.len() && i <= j < s.len()
                    ==> text_lt(#[trigger] kept@[k].path@, #[trigger] s[j].3),
            decreases old_entries@.len() - i,
        {
            let e = &old_entries[i];
            let ghost ev = s[i as int];
            assert(ev.3 == e.path@);
            proof {
                assert(s.take(i + 1).drop_last() =~= s.take(i as int));
                assert(s.take(i + 1).last() == ev);
            }
            let gone = crate::text::str_eq(e.path.as_str(), path) || crate::text::str_starts_with(e.path.as_str(), prefix.as_str());
            if !gone {
                let ghost before = kept@.map_values(|e: Entry| entry_view(e));
                kept.push(copy_entry(e));
                proof {
                    assert(kept@.map_values(|e: Entry| entry_view(e)) =~= before.push(ev));
                    assert forall|k: int, j: int| 0 <= k < kept@.len() && i + 1 <= j < s.len()
                        implies text_lt(#[trigger] kept@[k].path@, #[trigger] s[j].3) by {
                        if k < kept@.len() - 1 {
                        } else {
                            assert(kept@[k].path@ == ev.3);
                        }
                    }
                    let kv = kept@.map_values(|e: Entry| entry_view(e));
                    assert forall|a: int, b: int| 0 <= a < b < kv.len() implies text_lt(#[trigger] kv[a].3, #[trigger] kv[b].3) by {
                        if b == kv.len() - 1 {
                            assert(kv[a].3 == kept@[a].path@);
                        } else {
                            assert(kv[a] == before[a] && kv[b] == before[b]);
                        }
                    }
                }
            } else {
                proof {
                    assert forall|k: int, j: int| 0 <= k < kept@.len() && i + 1 <= j < s.len()
                        implies text_lt(#[trigger] kept@[k].path@, #[trigger] s[j].3) by {
                    }
                }
            }
            i += 1;
        }
        assert(s.take(s.len() as int) =~= s);
        self.entries = kept;
        self.changed = true;
        Ok(())
    }

    /// Records the versions of a conflicted path (base, ours, theirs) as
    /// stage entries; as they share the path, the last present one stays.
    pub fn add_conflict(&mut self, path: &str, entries: Vec<Option<DatabaseEntry>>)
        requires
            old(self).wf(),
            entries@.len() >= 3,
        ensures
            final(self).wf(),
            final(self).changed_view(),
            ({
                let base = without_exact(old(self).view_entries(), path@);
                let s1 = match entries@[0] { Some(d) => store_sorted(base, stage_view(path@, d.oid@, 1)), None => base };
                let s2 = match entries@[1] { Some(d) => store_sorted(s1, stage_view(path@, d.oid@, 2)), None => s1 };
                let s3 = match entries@[2] { Some(d) => store_sorted(s2, stage_view(path@, d.oid@, 3)), None => s2 };
                final(self).view_entries() == s3
            }),
    {
        self.remove_exact(path);
        let mut k: usize = 0;
        while k < 3
            invariant
                k <= 3,
                entries@.len() >= 3,
                self.wf(),
                self.view_entries() == ({
                    let base = without_exact(old(self).view_entries(), path@);
                    let s1 = if k >= 1 { match entries@[0] { Some(d) => store_sorted(base, stage_view(path@, d.oid@, 1)), None => base } } else { base };
                    let s2 = if k >= 2 { match entries@[1] { Some(d) => store_sorted(s1, stage_view(path@, d.oid@, 2)), None => s1 } } else { s1 };
                    if k >= 3 { match entries@[2] { Some(d) => store_sorted(s2, stage_view(path@, d.oid@, 3)), None => s2 } } else { s2 }
                }),
            decreases 3 - k,
        {
            match &entries[k] {
                Some(d) => {
                    let e = create_stage_entry(path, d.get_oid(), (k + 1) as u8);
                    self.store_entry(e);
                },
                None => {},
            }
            k += 1;
        }
        self.changed = true;
    }

    /// Removes the entry with exactly this path.
    fn remove_exact(&mut self, path: &str)
        requires
            old(self).wf(),
        ensures
            final(self).view_entries() == without_exact(old(self).view_entries(), path@),
            final(self).wf(),
            final(self).changed_view() == old(self).changed_view(),
    {
        let ghost s = self.view_entries();
        let mut i: usize = 0;
        while i < self.entries.len()
            invariant
                i <= self.entries@.len(),
                self.view_entries() == s,
                s == old(self).view_entries(),
                sorted_paths(s),
                self.changed_view() == old(self).changed_view(),
                forall|j: int| 0 <= j < i ==> #[trigger] s[j].3 != path@,
            decreases self.entries@.len() - i,
        {
            assert(s[i as int].3 == self.entries@[i as int].path@);
            if crate::text::str_eq(self.entries[i].path.as_str(), path) {
                self.entries.remove(i);
                proof {
                    lemma_without_exact_at(s, path@, i as int);
                    assert(self.view_entries() =~= s.remove(i as int));
                    assert forall|a: int, b: int| 0 <= a < b < s.remove(i as int).len()
                        implies text_lt(#[trigger] s.remove(i as int)[a].3, #[trigger] s.remove(i as int)[b].3) by {
                        let sa = if a < i { a } else { a + 1 };
                        let sb = if b < i { b } else { b + 1 };
                        assert(s.remove(i as int)[a] == s[sa] && s.remove(i as int)[b] == s[sb]);
                    }
                }
                return;
            }
            i += 1;
        }
        proof {
            lemma_without_exact_none(s, path@);
        }
    }

    /// Whether some entry is a conflict stage.
    pub fn has_conflict(&self) -> (r: bool)
        ensures
            r == exists|i: int| 0 <= i < self.view_entries().len() && #[trigger] self.view_entries()[i].4 > 0,
    {
        let mut i: usize = 0;
        while i < self.entries.len()
            invariant
                i <= self.entries@.len(),
                forall|j: int| 0 <= j < i ==> #[trigger] self.view_entries()[j].4 == 0,
            decreases self.entries@.len() - i,
        {
            assert(self.view_entries()[i as int].4 == self.entries@[i as int].stage);
            if self.entries[i].stage > 0 {
                return true;
            }
            i += 1;
        }
        false
    }

    /// Removes every entry, marking the index changed.
    pub fn clear(&mut self)
        ensures
            final(self).view_entries().len() == 0,
            final(self).changed_view(),
            final(self).wf(),
    {
        self.entries = Vec::new();
        self.changed = true;
        assert(self.view_entries() =~= Seq::<EntryView>::empty());
    }

    /// Stages a path at the version a tree entry records, with empty stat data.
    pub fn add_from_db(&mut self, path: &str, entry: &DatabaseEntry) -> (r: Result<(), Error>)
        requires
            old(self).wf(),
        ensures
            r is Ok,
            final(self).wf(),
            final(self).changed_view(),
            final(self).view_entries() == store_sorted(old(self).view_entries(), (
                seq![0u32, 0, 0, 0, 0, 0, parse_mode(entry.mode@), 0, 0, 0], entry.oid@,
                (if encode_utf8(path@).len() < 0xfff { encode_utf8(path@).len() } else { 0xfff }) as u16, path@, 0u8)),
    {
        let bytes = crate::stdtext::utf8_bytes(path);
        let flags: u16 = if bytes.len() < 0xfff { bytes.len() as u16 } else { 0xfff };
        let index_entry = Entry {
            ctime: 0,
            ctime_nsec: 0,
            mtime: 0,
            mtime_nsec: 0,
            dev: 0,
            ino: 0,
            mode: entry.get_file_mode(),
            uid: 0,
            gid: 0,
            size: 0,
            oid: entry.get_oid().to_string(),
            flags,
            path: path.to_string(),
            stage: 0,
        };
        proof {
            assert(entry_view(index_entry).0 =~= seq![0u32, 0, 0, 0, 0, 0, parse_mode(entry.mode@), 0, 0, 0]);
        }
        self.store_entry(index_entry);
        self.changed = true;
        Ok(())
    }

    /// The bytes to write when the index changed (`None` when it did not,
    /// and the lock is only released); the index is then unchanged.
    pub fn write_updates(&mut self) -> (r: Result<Option<Vec<u8>>, Error>)
        requires
            old(self).entries_seq().len() <= u32::MAX,
        ensures
            !old(self).changed_view() ==> (r matches Ok(None)),
            old(self).changed_view() ==> (r matches Ok(Some(b)) && b@ == index_bytes(old(self).entries_seq())),
            !final(self).changed_view(),
            final(self).view_entries() == old(self).view_entries(),
            final(self).entries_seq() == old(self).entries_seq(),
    {
        if !self.changed {
            return Ok(None);
        }
        let mut checksum = Checksum::new();
        let mut header = crate::stdtext::utf8_bytes("DIRC");
        push_u32(&mut header, VERSION);
        push_u32(&mut header, self.entries.len() as u32);
        checksum.update(header.as_slice());
        let mut out = header;
        let mut i: usize = 0;
        let ghost es = self.entries@;
        while i < self.entries.len()
            invariant
                i <= es.len(),
                es == self.entries@,
                es.len() <= u32::MAX,
                out@ == encode_utf8("DIRC"@) + be32(2) + be32(es.len() as u32) + all_entry_bytes(es.take(i as int)),
                checksum.seen() == out@,
            decreases es.len() - i,
        {
            let bytes = self.entries[i].to_bytes();
            checksum.update(bytes.as_slice());
            crate::bytes::extend(&mut out, bytes.as_slice());
            proof {
                assert(es.take(i + 1).drop_last() =~= es.take(i as int));
                assert(es.take(i + 1).last() == es[i as int]);
            }
            i += 1;
        }
        assert(es.take(es.len() as int) =~= es);
        let digest = checksum.finalize();
        crate::bytes::extend(&mut out, digest.as_slice());
        self.changed = false;
        Ok(Some(out))
    }

    /// Loads the index from its file's bytes (`None` when there is no file).
    pub fn load(&mut self, file: Option<Vec<u8>>) -> (r: Result<(), Error>)
        ensures
            final(self).wf(),
            r is Ok <==> loaded(crate::vcs::database::database::bytes_of(file)) is Some,
            r is Ok ==> final(self).view_entries() == loaded(crate::vcs::database::database::bytes_of(file))->0,
    {
        self.clear();
        let d = match file {
            None => {
                return Ok(());
            },
            Some(d) => d,
        };
        if d.len() < HEADER_SIZE {
            return Ok(());
        }
        let sig = crate::bytes::slice_bytes(d.as_slice(), 0, 4);
        assert(sig@ =~= d@.take(4));
        let signature = crate::stdtext::utf8_lossy(sig.as_slice());
        if !crate::text::str_eq(signature.as_str(), "DIRC") {
            return Err(Error::Generic(crate::text::concat("Signature: expected 'DIRC' but found ", signature.as_str())));
        }
        let version = get_u32(d.as_slice(), 4);
        if version != VERSION {
            return Err(crate::errors::error::generic("Version: expected '2' but found another version"));
        }
        let count = get_u32(d.as_slice(), 8);
        let mut checksum = Checksum::new();
        checksum.update(sig.as_slice());
        let rest_header = crate::bytes::slice_bytes(d.as_slice(), 4, 12);
        checksum.update(rest_header.as_slice());
        assert(checksum.seen() =~= d@.take(12));
        let ghost goal = read_entries(d@, 12, count as nat);
        let mut pos: usize = 12;
        let mut left: u32 = count;
        let mut parsed: Vec<Entry> = Vec::new();
        let mut stopped = false;
        while left > 0 && !stopped
            invariant
                12 <= pos <= d@.len(),
                checksum.seen() == d@.take(pos as int),
                goal == read_entries(d@, 12, count as nat),
                !stopped ==> goal.0 == parsed@.map_values(|e: Entry| entry_view(e)) + read_entries(d@, pos as int, left as nat).0,
                !stopped ==> goal.1 == read_entries(d@, pos as int, left as nat).1,
                stopped ==> goal.0 == parsed@.map_values(|e: Entry| entry_view(e)) && goal.1 == d@.len(),
                forall|k: int| 0 <= k < parsed@.len() ==> (#[trigger] parsed@[k]).stage == 0,
            decreases left, (if stopped { 0int } else { 1int }),
        {
            if d.len() - pos < 64 {
                stopped = true;
                proof {
                    assert(parsed@.map_values(|e: Entry| entry_view(e)) + Seq::<EntryView>::empty()
                        =~= parsed@.map_values(|e: Entry| entry_view(e)));
                }
            } else {
                let mut end: usize = pos + 64;
                let mut ok = true;
                while d[end - 1] != 0 && ok
                    invariant
                        pos + 64 <= end <= d@.len(),
                        entry_end(d@, pos + 64) == (if ok { entry_end(d@, end as int) } else { None }),
                    decreases d@.len() - end, (if ok { 1int } else { 0int }),
                {
                    if d.len() - end < 8 {
                        ok = false;
                    } else {
                        end = end + 8;
                    }
                }
                if !ok {
                    stopped = true;
                    proof {
                        assert(parsed@.map_values(|e: Entry| entry_view(e)) + Seq::<EntryView>::empty()
                            =~= parsed@.map_values(|e: Entry| entry_view(e)));
                    }
                } else {
                    let chunk = crate::bytes::slice_bytes(d.as_slice(), pos, end);
                    checksum.update(chunk.as_slice());
                    proof {
                        assert(d@.take(pos as int) + d@.subrange(pos as int, end as int) =~= d@.take(end as int));
                    }
                    let ghost before = parsed@.map_values(|e: Entry| entry_view(e));
                    match Entry::parse(chunk.as_slice()) {
                        Ok(e) => {
                            parsed.push(e);
                            proof {
                                assert(parsed@.map_values(|e: Entry| entry_view(e)) =~= before.push(entry_view(e)));
                                let p = parsed_entry(chunk@)->0;
                                assert(entry_view(e) == (p.0, p.1, p.2, p.3, 0u8));
                                assert(before.push(entry_view(e)) + read_entries(d@, end as int, (left - 1) as nat).0
                                    =~= before + (seq![entry_view(e)] + read_entries(d@, end as int, (left - 1) as nat).0));
                            }
                        },
                        Err(_) => {},
                    }
                    pos = end;
                    left = left - 1;
                }
            }
        }
        if stopped || d.len() - pos < 20 {
            return Err(Error::IO("failed to fill whole buffer".to_string()));
        }
        proof {
            assert(read_entries(d@, pos as int, left as nat).0 =~= Seq::<EntryView>::empty());
            assert(parsed@.map_values(|e: Entry| entry_view(e)) + Seq::<EntryView>::empty()
                =~= parsed@.map_values(|e: Entry| entry_view(e)));
        }
        let stored = crate::bytes::slice_bytes(d.as_slice(), pos, pos + 20);
        assert(stored@ == d@.subrange(pos as int, pos + 20));
        match checksum.verify(stored.as_slice()) {
            Ok(()) => {},
            Err(e) => {
                return Err(e);
            },
        }
        let ghost pv = parsed@.map_values(|e: Entry| entry_view(e));
        let mut k: usize = 0;
        assert(pv.skip(0) =~= pv);
        while k < parsed.len()
            invariant
                k <= parsed@.len(),
                self.wf(),
                pv == parsed@.map_values(|e: Entry| entry_view(e)),
                store_all(Seq::empty(), pv) == store_all(self.view_entries(), pv.skip(k as int)),
            decreases parsed@.len() - k,
        {
            let e = copy_entry(&parsed[k]);
            proof {
                assert(pv.skip(k as int)[0] == pv[k as int]);
                assert(pv.skip(k as int).drop_first() =~= pv.skip(k + 1));
            }
            self.store_entry(e);
            k += 1;
        }
        assert(pv.skip(k as int) =~= Seq::<EntryView>::empty());
        Ok(())
    }
}

/// A stage entry's record for a path and id.
pub open spec fn stage_view(path: Seq<char>, oid: Seq<char>, stage: u8) -> EntryView {
    (seq![0u32, 0, 0, 0, 0, 0, 0o100644u32, 0, 0, 0], oid, ((encode_utf8(path).len() as u16) | ((stage as u16) << 12u16)) as u16, path, stage)
}

/// The entries without the one with exactly this path.
pub open spec fn without_exact(s: Seq<EntryView>, path: Seq<char>) -> Seq<EntryView>
    decreases s.len(),
{
    if s.len() == 0 {
        Seq::empty()
    } else if s[0].3 == path {
        s.drop_first()
    } else {
        seq![s[0]] + without_exact(s.drop_first(), path)
    }
}

proof fn lemma_without_exact_at(s: Seq<EntryView>, path: Seq<char>, i: int)
    requires
        0 <= i < s.len(),
        s[i].3 == path,
        forall|j: int| 0 <= j < i ==> #[trigger] s[j].3 != path,
    ensures
        without_exact(s, path) == s.remove(i),
    decreases i,
{
    if i > 0 {
        let r = s.drop_first();
        assert forall|j: int| 0 <= j < i - 1 implies #[trigger] r[j].3 != path by {
            assert(r[j] == s[j + 1]);
        }
        lemma_without_exact_at(r, path, i - 1);
        assert(seq![s[0]] + r.remove(i - 1) =~= s.remove(i));
    } else {
        assert(s.drop_first() =~= s.remove(0));
    }
}

proof fn lemma_without_exact_none(s: Seq<EntryView>, path: Seq<char>)
    requires
        forall|j: int| 0 <= j < s.len() ==> #[trigger] s[j].3 != path,
    ensures
        without_exact(s, path) == s,
    decreases s.len(),
{
    if s.len() > 0 {
        let r = s.drop_first();
        assert forall|j: int| 0 <= j < r.len() implies #[trigger] r[j].3 != path by {
            assert(r[j] == s[j + 1]);
        }
        lemma_without_exact_none(r, path);
        assert(seq![s[0]] + r =~= s);
    }
}

/// A stage entry of a conflicted path.
fn create_stage_entry(path: &str, oid: &str, stage: u8) -> (e: Entry)
    ensures
        entry_view(e) == stage_view(path@, oid@, stage),
{
    let bytes = crate::stdtext::utf8_bytes(path);
    let len16 = bytes.len() as u16;
    let flags: u16 = len16 | ((stage as u16) << 12u16);
    let e = Entry {
        ctime: 0,
        ctime_nsec: 0,
        mtime: 0,
        mtime_nsec: 0,
        dev: 0,
        ino: 0,
        mode: crate::vcs::file_mode::FileMode::REGULAR,
        uid: 0,
        gid: 0,
        size: 0,
        oid: oid.to_string(),
        flags,
        path: path.to_string(),
        stage,
    };
    assert(entry_view(e).0 =~= seq![0u32, 0, 0, 0, 0, 0, 0o100644u32, 0, 0, 0]);
    e
}

/// A copy of an entry.
fn copy_entry(e: &Entry) -> (c: Entry)
    ensures
        entry_view(c) == entry_view(*e),
        c.stage == e.stage,
        c.path@ == e.path@,
{
    Entry {
        ctime: e.ctime,
        ctime_nsec: e.ctime_nsec,
        mtime: e.mtime,
        mtime_nsec: e.mtime_nsec,
        dev: e.dev,
        ino: e.ino,
        mode: e.mode,
        uid: e.uid,
        gid: e.gid,
        size: e.size,
        oid: e.oid.clone(),
        flags: e.flags,
        path: e.path.clone(),
        stage: e.stage,
    }
}

/// Appends a number's big-endian bytes.
fn push_u32(v: &mut Vec<u8>, x: u32)
    ensures
        final(v)@ == old(v)@ + be32(x),
{
    v.push((x / 0x100_0000) as u8);
    v.push(((x / 0x1_0000) % 0x100) as u8);
    v.push(((x / 0x100) % 0x100) as u8);
    v.push((x % 0x100) as u8);
    assert(v@ =~= old(v)@ + be32(x));
}

/// Reads four big-endian bytes.
fn get_u32(d: &[u8], i: usize) -> (x: u32)
    requires
        i + 4 <= d@.len(),
    ensures
        x == read_be32(d@, i as int),
{
    (d[i] as u32) * 0x100_0000 + (d[i + 1] as u32) * 0x1_0000 + (d[i + 2] as u32) * 0x100 + (d[i + 3] as u32)
}

/// Storing keeps paths ordered.
proof fn lemma_store_sorted_sorted(s: Seq<EntryView>, e: EntryView)
    requires
        sorted_paths(s),
    ensures
        sorted_paths(store_sorted(s, e)),
    decreases s.len(),
{
    let r = store_sorted(s, e);
    if s.len() == 0 {
    } else if s[0].3 == e.3 {
        assert forall|i: int, j: int| 0 <= i < j < r.len() implies text_lt(#[trigger] r[i].3, #[trigger] r[j].3) by {
            assert(r[j] == s[j]);
            if i > 0 {
                assert(r[i] == s[i]);
            }
        }
    } else if text_lt(e.3, s[0].3) {
        assert forall|i: int, j: int| 0 <= i < j < r.len() implies text_lt(#[trigger] r[i].3, #[trigger] r[j].3) by {
            assert(r[j] == s[j - 1]);
            if i > 0 {
                assert(r[i] == s[i - 1]);
            } else if j > 1 {
                crate::order::lemma_text_lt_transitive(e.3, s[0].3, s[j - 1].3);
            }
        }
    } else {
        let t = s.drop_first();
        assert forall|i: int, j: int| 0 <= i < j < t.len() implies text_lt(#[trigger] t[i].3, #[trigger] t[j].3) by {
            assert(t[i] == s[i + 1] && t[j] == s[j + 1]);
        }
        lemma_store_sorted_sorted(t, e);
        crate::order::lemma_text_lt_total(e.3, s[0].3);
        assert forall|k: int| 0 <= k < t.len() implies text_lt(s[0].3, #[trigger] t[k].3) by {
            assert(t[k] == s[k + 1]);
        }
        lemma_store_lower_bound(t, e, s[0].3);
        let u = store_sorted(t, e);
        assert forall|i: int, j: int| 0 <= i < j < r.len() implies text_lt(#[trigger] r[i].3, #[trigger] r[j].3) by {
            assert(r[j] == u[j - 1]);
            if i > 0 {
                assert(r[i] == u[i - 1]);
            }
        }
    }
}

proof fn lemma_store_lower_bound(s: Seq<EntryView>, e: EntryView, x: Seq<char>)
    requires
        forall|k: int| 0 <= k < s.len() ==> text_lt(x, #[trigger] s[k].3),
        text_lt(x, e.3),
    ensures
        forall|k: int| 0 <= k < store_sorted(s, e).len() ==> text_lt(x, #[trigger] store_sorted(s, e)[k].3),
    decreases s.len(),
{
    let r = store_sorted(s, e);
    if s.len() == 0 {
    } else if s[0].3 == e.3 {
        assert forall|k: int| 0 <= k < r.len() implies text_lt(x, #[trigger] r[k].3) by {
            if k > 0 {
                assert(r[k] == s[k]);
            }
        }
    } else if text_lt(e.3, s[0].3) {
        assert forall|k: int| 0 <= k < r.len() implies text_lt(x, #[trigger] r[k].3) by {
            if k > 0 {
                assert(r[k] == s[k - 1]);
            }
        }
    } else {
        let t = s.drop_first();
        assert forall|k: int| 0 <= k < t.len() implies text_lt(x, #[trigger] t[k].3) by {
            assert(t[k] == s[k + 1]);
        }
        lemma_store_lower_bound(t, e, x);
        let u = store_sorted(t, e);
        assert forall|k: int| 0 <= k < r.len() implies text_lt(x, #[trigger] r[k].3) by {
            if k > 0 {
                assert(r[k] == u[k - 1]);
            }
        }
    }
}

/// After an entry is stored, the index holds that entry, and of the
/// entries it held before, exactly those with another path.
pub proof fn lemma_store_sorted_contains(s: Seq<EntryView>, e: EntryView, x: EntryView)
    requires
        sorted_paths(s),
    ensures
        store_sorted(s, e).contains(x) <==> (x == e || (s.contains(x) && x.3 != e.3)),
    decreases s.len(),
{
    let r = store_sorted(s, e);
    if s.len() == 0 {
        assert(r =~= seq![e]);
        if r.contains(x) {
            let k = choose|k: int| 0 <= k < r.len() && r[k] == x;
        }
        if x == e {
            assert(r[0] == e);
        }
    } else if s[0].3 == e.3 {
        let t = s.drop_first();
        assert(r =~= seq![e] + t);
        assert forall|k: int| 0 <= k < t.len() implies #[trigger] t[k].3 != e.3 by {
            assert(t[k] == s[k + 1]);
            assert(text_lt(s[0].3, s[k + 1].3));
            crate::order::lemma_text_lt_asymmetric(s[0].3, s[k + 1].3);
        }
        if r.contains(x) {
            let k = choose|k: int| 0 <= k < r.len() && r[k] == x;
            if k > 0 {
                assert(s[k] == x);
            }
        }
        if x == e {
            assert(r[0] == x);
        } else if s.contains(x) && x.3 != e.3 {
            let k = choose|k: int| 0 <= k < s.len() && s[k] == x;
            assert(k > 0);
            assert(r[k] == x);
        }
    } else if text_lt(e.3, s[0].3) {
        assert(r =~= seq![e] + s);
        assert forall|k: int| 0 <= k < s.len() implies #[trigger] s[k].3 != e.3 by {
            if k > 0 {
                assert(text_lt(s[0].3, s[k].3));
                crate::order::lemma_text_lt_transitive(e.3, s[0].3, s[k].3);
            }
            crate::order::lemma_text_lt_asymmetric(e.3, s[k].3);
        }
        if r.contains(x) {
            let k = choose|k: int| 0 <= k < r.len() && r[k] == x;
            if k > 0 {
                assert(s[k - 1] == x);
            }
        }
        if x == e {
            assert(r[0] == x);
        } else if s.contains(x) {
            let k = choose|k: int| 0 <= k < s.len() && s[k] == x;
            assert(r[k + 1] == x);
        }
    } else {
        let t = s.drop_first();
        assert forall|i: int, j: int| 0 <= i < j < t.len() implies text_lt(#[trigger] t[i].3, #[trigger] t[j].3) by {
            assert(t[i] == s[i + 1] && t[j] == s[j + 1]);
        }
        lemma_store_sorted_contains(t, e, x);
        let u = store_sorted(t, e);
        assert(r =~= seq![s[0]] + u);
        if r.contains(x) {
            let k = choose|k: int| 0 <= k < r.len() && r[k] == x;
            if k > 0 {
                assert(u[k - 1] == x);
                assert(u.contains(x));
                if x != e {
                    let m = choose|m: int| 0 <= m < t.len() && t[m] == x;
                    assert(s[m + 1] == x);
                }
            } else {
                assert(s[0] == x);
            }
        }
        if x == e {
            assert(u.contains(x));
            let m = choose|m: int| 0 <= m < u.len() && u[m] == x;
            assert(r[m + 1] == x);
        } else if s.contains(x) && x.3 != e.3 {
            let k = choose|k: int| 0 <= k < s.len() && s[k] == x;
            if k == 0 {
                assert(r[0] == x);
            } else {
                assert(t[k - 1] == x);
                assert(t.contains(x));
                assert(u.contains(x));
                let m = choose|m: int| 0 <= m < u.len() && u[m] == x;
                assert(r[m + 1] == x);
            }
        }
    }
}

/// What staging gives back: after `add`, the index holds an entry for the
/// path with the id that was added, and every other path keeps exactly the
/// entries it had.
pub proof fn lemma_add_then_lookup(before: Seq<EntryView>, after: Seq<EntryView>, path: Seq<char>, oid: Seq<char>, x: EntryView)
    requires
        sorted_paths(before),
        exists|e: Entry| e.path@ == path && e.oid@ == oid && #[trigger] store_sorted(before, entry_view(e)) == after,
    ensures
        exists|i: int| 0 <= i < after.len() && after[i].3 == path && after[i].1 == oid,
        x.3 != path ==> (after.contains(x) <==> before.contains(x)),
{
    let e = choose|e: Entry| e.path@ == path && e.oid@ == oid && #[trigger] store_sorted(before, entry_view(e)) == after;
    lemma_store_sorted_contains(before, entry_view(e), entry_view(e));
    lemma_store_sorted_contains(before, entry_view(e), x);
    let i = choose|i: int| 0 <= i < after.len() && after[i] == entry_view(e);
    assert(after[i].3 == path && after[i].1 == oid);
}

} // verus!
