//! The differences between two trees, path by path: what each tree holds
//! is compared entry by entry, and subtrees are compared in turn.
use vstd::prelude::*;
use crate::text::{copy_str, concat, push_str, str_eq};
use crate::numeral::{octal, decimal};
use crate::keyed::{distinct_keys, has_key, key_index, upsert, upsert_all, lemma_key_index_unique, lemma_upsert_distinct,
    lookup, last_value, lemma_lookup_upsert_all};
use crate::paths::joined;
use crate::errors::error::Error;
use crate::vcs::file_mode::{parse_mode, mode_is_directory};
use crate::vcs::database::entry::{DatabaseEntry, normalized_mode};
use crate::vcs::database::tree::{Tree, TreeEntry, EntryView};
use crate::vcs::database::database::StoredObject;
use crate::vcs::merge::resolve::{DiffChange, EntryRec, rec, copy_entry};

verus! {

/// A comparison still to make: the two ids and the path they stand at.
#[derive(Debug)]
pub struct PendingCompare {
    pub a: Option<String>,
    pub b: Option<String>,
    pub prefix: String,
}

/// The view of a pending comparison.
pub open spec fn pending_view(p: PendingCompare) -> (Option<Seq<char>>, Option<Seq<char>>, Seq<char>) {
    (match p.a { Some(x) => Some(x@), None => None }, match p.b { Some(x) => Some(x@), None => None }, p.prefix@)
}

/// The record of an entry.
pub open spec fn erec(e: DatabaseEntry) -> EntryRec {
    (e.name@, e.oid@, e.mode@)
}

/// The entry named `name` among `entries`, the first if several.
pub open spec fn named(entries: Seq<EntryRec>, name: Seq<char>) -> Option<EntryRec>
    decreases entries.len(),
{
    if entries.len() == 0 {
        None
    } else if entries[0].0 == name {
        Some(entries[0])
    } else {
        named(entries.drop_first(), name)
    }
}

/// A mode text that the tree comparison reads as a tree.
pub open spec fn tree_mode_literal(mode: Seq<char>) -> bool {
    mode == "040000"@
}

/// What comparing the entries of `a` with those of `b` records, entry of
/// `a` by entry (deleted or changed), then entry of `b` by entry (added),
/// and the subtrees it compares next.
pub open spec fn deletions(prefix: Seq<char>, a: Seq<EntryRec>, b: Seq<EntryRec>)
    -> (Seq<(Seq<char>, (Option<EntryRec>, Option<EntryRec>))>, Seq<(Option<Seq<char>>, Option<Seq<char>>, Seq<char>)>)
    decreases a.len(),
{
    if a.len() == 0 {
        (Seq::empty(), Seq::empty())
    } else {
        let (recs, subs) = deletions(prefix, a.drop_last(), b);
        let x = a.last();
        let path = joined(prefix, x.0);
        match named(b, x.0) {
            Some(y) => if x.1 == y.1 && x.2 == y.2 {
                (recs, subs)
            } else if tree_mode_literal(x.2) && tree_mode_literal(y.2) {
                (recs, subs.push((Some(x.1), Some(y.1), path)))
            } else {
                (recs.push((path, (Some(x), Some(y)))), subs)
            },
            None => (recs.push((path, (Some(x), None))), subs),
        }
    }
}

/// The additions: entries of `b` that `a` lacks.
pub open spec fn additions(prefix: Seq<char>, a: Seq<EntryRec>, b: Seq<EntryRec>)
    -> (Seq<(Seq<char>, (Option<EntryRec>, Option<EntryRec>))>, Seq<(Option<Seq<char>>, Option<Seq<char>>, Seq<char>)>)
    decreases b.len(),
{
    if b.len() == 0 {
        (Seq::empty(), Seq::empty())
    } else {
        let (recs, subs) = additions(prefix, a, b.drop_last());
        let y = b.last();
        let path = joined(prefix, y.0);
        if named(a, y.0) is Some {
            (recs, subs)
        } else if tree_mode_literal(y.2) || mode_is_directory(parse_mode(y.2)) {
            (recs, subs.push((None, Some(y.1), path)))
        } else {
            (recs.push((path, (None, Some(y)))), subs)
        }
    }
}

/// The entries a tree lists for comparison: each blob with its octal
/// mode, each subtree that has an id with the directory mode.
pub open spec fn tree_entries(entries: Seq<(Seq<char>, EntryView)>) -> Seq<EntryRec>
    decreases entries.len(),
{
    if entries.len() == 0 {
        Seq::empty()
    } else {
        let rest = tree_entries(entries.drop_last());
        let (name, ev) = entries.last();
        match ev {
            EntryView::Blob(oid, mode) => rest.push((name, oid, normalized_mode(octal(mode as nat)))),
            EntryView::Tree(Some(oid)) => rest.push((name, oid, normalized_mode("040000"@))),
            EntryView::Tree(None) => rest,
        }
    }
}

/// The differences found so far between two trees.
pub struct TreeDiff {
    changes: Vec<DiffChange>,
}

impl TreeDiff {
    /// The changes: each path with its old and new entries.
    pub closed spec fn changes_view(&self) -> Seq<(Seq<char>, (Option<EntryRec>, Option<EntryRec>))> {
        self.changes@.map_values(|c: DiffChange| (c.path@, (rec(c.old), rec(c.new))))
    }

    /// Each path is recorded once.
    pub closed spec fn wf(&self) -> bool {
        distinct_keys(self.changes_view())
    }

    /// No difference found yet.
    pub fn new() -> (d: Self)
        ensures
            d.wf(),
            d.changes_view() == Seq::<(Seq<char>, (Option<EntryRec>, Option<EntryRec>))>::empty(),
    {
        let d = TreeDiff { changes: Vec::new() };
        assert(d.changes_view() =~= Seq::<(Seq<char>, (Option<EntryRec>, Option<EntryRec>))>::empty());
        d
    }

    /// The changes found.
    pub fn changes(&self) -> (r: &Vec<DiffChange>)
        ensures
            r@.map_values(|c: DiffChange| (c.path@, (rec(c.old), rec(c.new)))) == self.changes_view(),
    {
        &self.changes
    }

    /// Records a change at a path (replacing one recorded there).
    fn record(&mut self, path: String, before: Option<DatabaseEntry>, after: Option<DatabaseEntry>)
        requires
            old(self).wf(),
        ensures
            final(self).wf(),
            final(self).changes_view() == upsert(old(self).changes_view(), path@, (rec(before), rec(after))),
    {
        let ghost v = (rec(before), rec(after));
        proof {
            lemma_upsert_distinct(self.changes_view(), path@, v);
        }
        let ghost s = self.changes_view();
        let mut i: usize = 0;
        while i < self.changes.len()
            invariant
                i <= self.changes@.len(),
                s == self.changes_view(),
                s == old(self).changes_view(),
                v == (rec(before), rec(after)),
                distinct_keys(s),
                forall|j: int| 0 <= j < i ==> #[trigger] s[j].0 != path@,
            decreases self.changes@.len() - i,
        {
            assert(s[i as int].0 == self.changes@[i as int].path@);
            if str_eq(self.changes[i].path.as_str(), path.as_str()) {
                proof {
                    lemma_key_index_unique(s, path@, i as int);
                }
                let ghost p = path@;
                self.changes.set(i, DiffChange { path, old: before, new: after });
                assert(self.changes_view() =~= upsert(s, p, v));
                return;
            }
            i += 1;
        }
        let ghost p = path@;
        self.changes.push(DiffChange { path, old: before, new: after });
        assert(self.changes_view() =~= upsert(s, p, v));
    }

    /// The entry named `name`.
    fn find_named(entries: &Vec<DatabaseEntry>, name: &str) -> (r: Option<usize>)
        ensures
            match r {
                Some(i) => i < entries@.len() && named(entries@.map_values(|e: DatabaseEntry| erec(e)), name@) == Some(erec(entries@[i as int])),
                None => named(entries@.map_values(|e: DatabaseEntry| erec(e)), name@) is None,
            },
    {
        let ghost s = entries@.map_values(|e: DatabaseEntry| erec(e));
        let mut i: usize = 0;
        assert(s.skip(0) =~= s);
        while i < entries.len()
            invariant
                i <= entries@.len(),
                s == entries@.map_values(|e: DatabaseEntry| erec(e)),
                named(s, name@) == named(s.skip(i as int), name@),
            decreases entries@.len() - i,
        {
            assert(s.skip(i as int)[0] == erec(entries@[i as int]));
            if str_eq(entries[i].name.as_str(), name) {
                return Some(i);
            }
            assert(s.skip(i as int).drop_first() =~= s.skip(i + 1));
            i += 1;
        }
        assert(s.skip(i as int) =~= Seq::<EntryRec>::empty());
        None
    }

    /// Compares the entries of two trees at `prefix` (`compare_oids` once
    /// both sides are loaded): nothing when the ids are the same; else the
    /// deleted and changed entries, then the added ones, are recorded, and
    /// the subtrees to compare next are returned.
    pub fn compare_oids(&mut self, a: Option<&str>, b: Option<&str>, prefix: &str,
        a_entries: &Vec<DatabaseEntry>, b_entries: &Vec<DatabaseEntry>) -> (next: Vec<PendingCompare>)
        requires
            old(self).wf(),
        ensures
            final(self).wf(),
            ({
                let av = a_entries@.map_values(|e: DatabaseEntry| erec(e));
                let bv = b_entries@.map_values(|e: DatabaseEntry| erec(e));
                let same = match (a, b) { (Some(x), Some(y)) => x@ == y@, (None, None) => true, _ => false };
                let (dr, ds) = deletions(prefix@, av, bv);
                let (ar, as_) = additions(prefix@, av, bv);
                if same {
                    &&& final(self).changes_view() == old(self).changes_view()
                    &&& next@.len() == 0
                } else {
                    &&& final(self).changes_view() == upsert_all(upsert_all(old(self).changes_view(), dr), ar)
                    &&& next@.map_values(|p: PendingCompare| pending_view(p)) == ds + as_
                }
            }),
    {
        let same = match (a, b) {
            (Some(x), Some(y)) => str_eq(x, y),
            (None, None) => true,
            _ => false,
        };
        let mut next: Vec<PendingCompare> = Vec::new();
        if same {
            return next;
        }
        let ghost av = a_entries@.map_values(|e: DatabaseEntry| erec(e));
        let ghost bv = b_entries@.map_values(|e: DatabaseEntry| erec(e));
        let ghost start = self.changes_view();
        let mut i: usize = 0;
        assert(av.take(0) =~= Seq::<EntryRec>::empty());
        assert(next@.map_values(|p: PendingCompare| pending_view(p)) =~= Seq::<(Option<Seq<char>>, Option<Seq<char>>, Seq<char>)>::empty());
        while i < a_entries.len()
            invariant
                i <= a_entries@.len(),
                av == a_entries@.map_values(|e: DatabaseEntry| erec(e)),
                bv == b_entries@.map_values(|e: DatabaseEntry| erec(e)),
                self.wf(),
                self.changes_view() == upsert_all(start, deletions(prefix@, av.take(i as int), bv).0),
                next@.map_values(|p: PendingCompare| pending_view(p)) == deletions(prefix@, av.take(i as int), bv).1,
            decreases a_entries@.len() - i,
        {
            let x = &a_entries[i];
            let path = crate::paths::join_path(prefix, x.name.as_str());
            proof {
                assert(av.take(i + 1).drop_last() =~= av.take(i as int));
                assert(av.take(i + 1).last() == erec(*x));
            }
            let ghost recs0 = deletions(prefix@, av.take(i as int), bv).0;
            let ghost subs0 = deletions(prefix@, av.take(i as int), bv).1;
            let ghost next0 = next@.map_values(|p: PendingCompare| pending_view(p));
            match Self::find_named(b_entries, x.name.as_str()) {
                Some(k) => {
                    let y = &b_entries[k];
                    if str_eq(x.oid.as_str(), y.oid.as_str()) && str_eq(x.mode.as_str(), y.mode.as_str()) {
                    } else if str_eq(x.mode.as_str(), "040000") && str_eq(y.mode.as_str(), "040000") {
                        next.push(PendingCompare { a: Some(copy_str(x.oid.as_str())), b: Some(copy_str(y.oid.as_str())), prefix: path });
                        assert(next@.map_values(|p: PendingCompare| pending_view(p)) =~= next0.push((Some(x.oid@), Some(y.oid@), joined(prefix@, x.name@))));
                    } else {
                        self.record(path, Some(copy_entry(x)), Some(copy_entry(y)));
                        proof {
                            let r = deletions(prefix@, av.take(i + 1), bv).0;
                            assert(r == recs0.push((joined(prefix@, x.name@), (Some(erec(*x)), Some(erec(*y))))));
                            assert(r.drop_last() =~= recs0);
                        }
                    }
                },
                None => {
                    self.record(path, Some(copy_entry(x)), None);
                    proof {
                        let r = deletions(prefix@, av.take(i + 1), bv).0;
                        assert(r.drop_last() =~= recs0);
                    }
                },
            }
            i += 1;
        }
        assert(av.take(a_entries@.len() as int) =~= av);
        let ghost mid = self.changes_view();
        let ghost dsubs = next@.map_values(|p: PendingCompare| pending_view(p));
        let mut k: usize = 0;
        assert(bv.take(0) =~= Seq::<EntryRec>::empty());
        assert(dsubs + Seq::<(Option<Seq<char>>, Option<Seq<char>>, Seq<char>)>::empty() =~= dsubs);
        while k < b_entries.len()
            invariant
                k <= b_entries@.len(),
                av == a_entries@.map_values(|e: DatabaseEntry| erec(e)),
                bv == b_entries@.map_values(|e: DatabaseEntry| erec(e)),
                self.wf(),
                self.changes_view() == upsert_all(mid, additions(prefix@, av, bv.take(k as int)).0),
                next@.map_values(|p: PendingCompare| pending_view(p)) == dsubs + additions(prefix@, av, bv.take(k as int)).1,
            decreases b_entries@.len() - k,
        {
            let y = &b_entries[k];
            let path = crate::paths::join_path(prefix, y.name.as_str());
            proof {
                assert(bv.take(k + 1).drop_last() =~= bv.take(k as int));
                assert(bv.take(k + 1).last() == erec(*y));
            }
            let ghost recs0 = additions(prefix@, av, bv.take(k as int)).0;
            let ghost next0 = next@.map_values(|p: PendingCompare| pending_view(p));
            let ghost subs0 = additions(prefix@, av, bv.take(k as int)).1;
            match Self::find_named(a_entries, y.name.as_str()) {
                Some(_) => {},
                None => {
                    if str_eq(y.mode.as_str(), "040000") || crate::vcs::file_mode::FileMode::is_directory(y.get_file_mode()) {
                        next.push(PendingCompare { a: None, b: Some(copy_str(y.oid.as_str())), prefix: path });
                        proof {
                            assert(next@.map_values(|p: PendingCompare| pending_view(p)) =~= next0.push((None, Some(y.oid@), joined(prefix@, y.name@))));
                            assert(dsubs + subs0.push((None, Some(y.oid@), joined(prefix@, y.name@))) =~= (dsubs + subs0).push((None, Some(y.oid@), joined(prefix@, y.name@))));
                        }
                    } else {
                        self.record(path, None, Some(copy_entry(y)));
                        proof {
                            let r = additions(prefix@, av, bv.take(k + 1)).0;
                            assert(r.drop_last() =~= recs0);
                        }
                    }
                },
            }
            k += 1;
        }
        assert(bv.take(b_entries@.len() as int) =~= bv);
        next
    }

    /// The entries a tree lists for comparison.
    pub fn tree_to_entries(tree: &Tree) -> (r: Vec<DatabaseEntry>)
        ensures
            r@.map_values(|e: DatabaseEntry| erec(e)) == tree_entries(tree@),
    {
        let entries = tree.get_entries();
        let ghost ev = entries@.map_values(|p: (String, TreeEntry)| (p.0@, crate::vcs::database::tree::entry_view(p.1)));
        let mut r: Vec<DatabaseEntry> = Vec::new();
        let mut i: usize = 0;
        assert(ev.take(0) =~= Seq::<(Seq<char>, EntryView)>::empty());
        while i < entries.len()
            invariant
                i <= entries@.len(),
                ev == entries@.map_values(|p: (String, TreeEntry)| (p.0@, crate::vcs::database::tree::entry_view(p.1))),
                r@.map_values(|e: DatabaseEntry| erec(e)) == tree_entries(ev.take(i as int)),
            decreases entries@.len() - i,
        {
            proof {
                assert(ev.take(i + 1).drop_last() =~= ev.take(i as int));
                assert(ev.take(i + 1).last() == ev[i as int]);
            }
            let ghost before = r@.map_values(|e: DatabaseEntry| erec(e));
            let name = &entries[i].0;
            match &entries[i].1 {
                TreeEntry::Blob(oid, mode) => {
                    let m = crate::vcs::file_mode::FileMode::to_octal_string(*mode);
                    r.push(DatabaseEntry::new(copy_str(name.as_str()), copy_str(oid.as_str()), m.as_str()));
                    assert(r@.map_values(|e: DatabaseEntry| erec(e)) =~= before.push((name@, oid@, normalized_mode(octal(*mode as nat)))));
                },
                TreeEntry::Tree(sub) => {
                    match sub.get_oid() {
                        Some(o) => {
                            r.push(DatabaseEntry::new(copy_str(name.as_str()), copy_str(o.as_str()), "040000"));
                            assert(r@.map_values(|e: DatabaseEntry| erec(e)) =~= before.push((name@, o@, normalized_mode("040000"@))));
                        },
                        None => {},
                    }
                },
            }
            i += 1;
        }
        assert(ev.take(entries@.len() as int) =~= ev);
        r
    }

    /// The entries an object lists for comparison, from loading it and,
    /// for a commit, loading its tree: a tree's entries; an error for an
    /// object that is neither, or whose commit's tree is no tree.
    pub fn object_entries(oid: &str, loaded: Result<StoredObject, Error>, commit_tree: Option<Result<StoredObject, Error>>)
        -> (r: Result<Vec<DatabaseEntry>, Error>)
        ensures
            match loaded {
                Err(e) => r == Err::<Vec<DatabaseEntry>, Error>(e),
                Ok(StoredObject::Tree(t)) => r matches Ok(v) && v@.map_values(|e: DatabaseEntry| erec(e)) == tree_entries(t@),
                Ok(StoredObject::Commit(c)) => match commit_tree {
                    Some(Ok(StoredObject::Tree(t))) => r matches Ok(v) && v@.map_values(|e: DatabaseEntry| erec(e)) == tree_entries(t@),
                    Some(Err(e)) => r == Err::<Vec<DatabaseEntry>, Error>(e),
                    _ => r matches Err(Error::Generic(m)) && m@ == "Object "@ + c.tree_view() + " is not a tree"@,
                },
                Ok(StoredObject::Blob(_)) => r matches Err(Error::Generic(m)) && m@ == "Object "@ + oid@ + " is neither commit nor tree"@,
            },
    {
        match loaded {
            Err(e) => Err(e),
            Ok(StoredObject::Tree(t)) => Ok(Self::tree_to_entries(&t)),
            Ok(StoredObject::Commit(c)) => match commit_tree {
                Some(Ok(StoredObject::Tree(t))) => Ok(Self::tree_to_entries(&t)),
                Some(Err(e)) => Err(e),
                _ => {
                    let mut m = copy_str("Object ");
                    push_str(&mut m, c.get_tree());
                    push_str(&mut m, " is not a tree");
                    Err(Error::Generic(m))
                },
            },
            Ok(StoredObject::Blob(_)) => {
                let mut m = copy_str("Object ");
                push_str(&mut m, oid);
                push_str(&mut m, " is neither commit nor tree");
                Err(Error::Generic(m))
            },
        }
    }
}

/// Names are distinct and none starts with `/`.
pub open spec fn plain_names(entries: Seq<EntryRec>) -> bool {
    &&& forall|i: int, j: int| 0 <= i < j < entries.len() ==> (#[trigger] entries[i]).0 != (#[trigger] entries[j]).0
    &&& forall|i: int| 0 <= i < entries.len() ==> !(#[trigger] entries[i].0.len() > 0 && entries[i].0[0] == '/')
}

/// No entry is a directory.
pub open spec fn no_directories(entries: Seq<EntryRec>) -> bool {
    forall|i: int| 0 <= i < entries.len() ==> !tree_mode_literal((#[trigger] entries[i]).2)
        && !mode_is_directory(parse_mode(entries[i].2))
}

/// The entry `named` finds is one of the entries, with that name.
proof fn lemma_named_found(entries: Seq<EntryRec>, name: Seq<char>)
    ensures
        named(entries, name) matches Some(e) ==> e.0 == name && entries.contains(e),
    decreases entries.len(),
{
    if entries.len() > 0 && entries[0].0 != name {
        lemma_named_found(entries.drop_first(), name);
        if named(entries.drop_first(), name) is Some {
            let e = named(entries.drop_first(), name)->0;
            let k = choose|k: int| 0 <= k < entries.drop_first().len() && entries.drop_first()[k] == e;
            assert(entries[k + 1] == e);
        }
    } else if entries.len() > 0 {
        assert(entries[0] == entries[0]);
        assert(entries.contains(entries[0]));
    }
}

/// Among entries with distinct names, the one named `name` is the last
/// entry when that has the name, else the one among the others.
proof fn lemma_named_last(entries: Seq<EntryRec>, name: Seq<char>)
    requires
        entries.len() > 0,
        plain_names(entries),
    ensures
        named(entries, name) == (if entries.last().0 == name {
            Some(entries.last())
        } else {
            named(entries.drop_last(), name)
        }),
    decreases entries.len(),
{
    if entries.len() == 1 {
        assert(entries.drop_last() =~= Seq::<EntryRec>::empty());
        assert(entries.last() == entries[0]);
        if entries[0].0 != name {
            assert(entries.drop_first() =~= Seq::<EntryRec>::empty());
        }
    } else {
        let rest = entries.drop_first();
        assert(entries.drop_last()[0] == entries[0]);
        if entries[0].0 == name {
            assert(entries[0].0 != entries[entries.len() - 1].0);
        } else {
            assert(plain_names(rest)) by {
                assert forall|i: int, j: int| 0 <= i < j < rest.len() implies (#[trigger] rest[i]).0 != (#[trigger] rest[j]).0 by {
                    assert(rest[i] == entries[i + 1] && rest[j] == entries[j + 1]);
                }
                assert forall|i: int| 0 <= i < rest.len() implies !(#[trigger] rest[i].0.len() > 0 && rest[i].0[0] == '/') by {
                    assert(rest[i] == entries[i + 1]);
                }
            }
            lemma_named_last(rest, name);
            assert(rest.last() == entries.last());
            assert(entries.drop_last().drop_first() =~= rest.drop_last());
        }
    }
}

/// A name is missing from entries with distinct names once their last
/// entry, which has it, is left out.
proof fn lemma_named_only_last(entries: Seq<EntryRec>)
    requires
        entries.len() > 0,
        plain_names(entries),
    ensures
        named(entries.drop_last(), entries.last().0) is None,
{
    let n = entries.last().0;
    let rest = entries.drop_last();
    lemma_named_found(rest, n);
    if named(rest, n) is Some {
        let e = named(rest, n)->0;
        let k = choose|k: int| 0 <= k < rest.len() && rest[k] == e;
        assert(entries[k] == e);
        assert(entries[k].0 != entries[entries.len() - 1].0);
    }
}

/// Different names give different paths under a prefix, when neither
/// starts with `/`.
proof fn lemma_joined_distinct(prefix: Seq<char>, m: Seq<char>, n: Seq<char>)
    requires
        m != n,
        !(m.len() > 0 && m[0] == '/'),
        !(n.len() > 0 && n[0] == '/'),
    ensures
        joined(prefix, m) != joined(prefix, n),
{
    if prefix.len() > 0 {
        let head = if prefix.last() == '/' { prefix } else { prefix + seq!['/'] };
        assert(joined(prefix, m) =~= head + m);
        assert(joined(prefix, n) =~= head + n);
        assert((head + m).skip(head.len() as int) =~= m);
        assert((head + n).skip(head.len() as int) =~= n);
    }
}

/// The change the deletion pass records at the path of `n`: the entries
/// of both trees under `n`, when the first tree has one and they differ.
proof fn lemma_deletions_at(prefix: Seq<char>, a: Seq<EntryRec>, b: Seq<EntryRec>, n: Seq<char>)
    requires
        plain_names(a),
        no_directories(a),
        !(n.len() > 0 && n[0] == '/'),
    ensures
        last_value(deletions(prefix, a, b).0, joined(prefix, n)) == (if named(a, n) is Some && named(a, n) != named(b, n) {
            Some((named(a, n), named(b, n)))
        } else {
            None
        }),
        deletions(prefix, a, b).1.len() == 0,
    decreases a.len(),
{
    if a.len() > 0 {
        let rest = a.drop_last();
        let x = a.last();
        assert(plain_names(rest)) by {
            assert forall|i: int, j: int| 0 <= i < j < rest.len() implies (#[trigger] rest[i]).0 != (#[trigger] rest[j]).0 by {
                assert(rest[i] == a[i] && rest[j] == a[j]);
            }
            assert forall|i: int| 0 <= i < rest.len() implies !(#[trigger] rest[i].0.len() > 0 && rest[i].0[0] == '/') by {
                assert(rest[i] == a[i]);
            }
        }
        assert(no_directories(rest)) by {
            assert forall|i: int| 0 <= i < rest.len() implies !tree_mode_literal((#[trigger] rest[i]).2)
                && !mode_is_directory(parse_mode(rest[i].2)) by {
                assert(rest[i] == a[i]);
            }
        }
        lemma_deletions_at(prefix, rest, b, n);
        lemma_named_last(a, n);
        assert(x == a[a.len() - 1]);
        assert(!tree_mode_literal(x.2));
        assert(!(x.0.len() > 0 && x.0[0] == '/'));
        lemma_named_found(b, x.0);
        if x.0 == n {
            lemma_named_only_last(a);
        } else {
            lemma_joined_distinct(prefix, x.0, n);
        }
        let recs = deletions(prefix, rest, b).0;
        let path = joined(prefix, x.0);
        match named(b, x.0) {
            Some(y) => {
                if x.1 == y.1 && x.2 == y.2 {
                    assert(deletions(prefix, a, b).0 == recs);
                    assert(x == y);
                } else {
                    let r = (path, (Some(x), Some(y)));
                    assert(deletions(prefix, a, b).0 == recs.push(r));
                    assert(recs.push(r).drop_last() =~= recs);
                    assert(recs.push(r).last() == r);
                }
            },
            None => {
                let r = (path, (Some(x), None::<EntryRec>));
                assert(deletions(prefix, a, b).0 == recs.push(r));
                assert(recs.push(r).drop_last() =~= recs);
                assert(recs.push(r).last() == r);
            },
        }
    }
}

/// The change the addition pass records at the path of `n`: the second
/// tree's entry under `n`, when the first tree has none.
proof fn lemma_additions_at(prefix: Seq<char>, a: Seq<EntryRec>, b: Seq<EntryRec>, n: Seq<char>)
    requires
        plain_names(b),
        no_directories(b),
        !(n.len() > 0 && n[0] == '/'),
    ensures
        last_value(additions(prefix, a, b).0, joined(prefix, n)) == (if named(a, n) is None && named(b, n) is Some {
            Some((None::<EntryRec>, named(b, n)))
        } else {
            None
        }),
        additions(prefix, a, b).1.len() == 0,
    decreases b.len(),
{
    if b.len() > 0 {
        let rest = b.drop_last();
        let y = b.last();
        assert(plain_names(rest)) by {
            assert forall|i: int, j: int| 0 <= i < j < rest.len() implies (#[trigger] rest[i]).0 != (#[trigger] rest[j]).0 by {
                assert(rest[i] == b[i] && rest[j] == b[j]);
            }
            assert forall|i: int| 0 <= i < rest.len() implies !(#[trigger] rest[i].0.len() > 0 && rest[i].0[0] == '/') by {
                assert(rest[i] == b[i]);
            }
        }
        assert(no_directories(rest)) by {
            assert forall|i: int| 0 <= i < rest.len() implies !tree_mode_literal((#[trigger] rest[i]).2)
                && !mode_is_directory(parse_mode(rest[i].2)) by {
                assert(rest[i] == b[i]);
            }
        }
        lemma_additions_at(prefix, a, rest, n);
        lemma_named_last(b, n);
        assert(y == b[b.len() - 1]);
        assert(!tree_mode_literal(y.2) && !mode_is_directory(parse_mode(y.2)));
        assert(!(y.0.len() > 0 && y.0[0] == '/'));
        if y.0 == n {
            lemma_named_only_last(b);
        } else {
            lemma_joined_distinct(prefix, y.0, n);
        }
        let recs = additions(prefix, a, rest).0;
        let path = joined(prefix, y.0);
        if named(a, y.0) is Some {
            assert(additions(prefix, a, b).0 == recs);
        } else {
            let r = (path, (None::<EntryRec>, Some(y)));
            assert(additions(prefix, a, b).0 == recs.push(r));
            assert(recs.push(r).drop_last() =~= recs);
            assert(recs.push(r).last() == r);
        }
    }
}

/// What one comparison of two trees records at the path of `n`, starting
/// from no changes.
pub open spec fn flat_change(prefix: Seq<char>, a: Seq<EntryRec>, b: Seq<EntryRec>, n: Seq<char>)
    -> Option<(Option<EntryRec>, Option<EntryRec>)> {
    lookup(upsert_all(upsert_all(Seq::empty(), deletions(prefix, a, b).0), additions(prefix, a, b).0), joined(prefix, n))
}

/// Comparing two trees that list no directory, with different ids, from a
/// fresh comparison (`TreeDiff::new`, then `compare_oids`): it records at
/// the path of each name a change exactly when the two trees' entries under
/// that name differ, holding the entry of each side (none where a tree lacks
/// the name), and asks for no comparison below; so the comparison the other
/// way round records each pair swapped. Names are distinct within a tree
/// and none starts with `/`.
pub proof fn lemma_flat_comparison(prefix: Seq<char>, a: Seq<EntryRec>, b: Seq<EntryRec>, n: Seq<char>)
    requires
        plain_names(a),
        plain_names(b),
        no_directories(a),
        no_directories(b),
        !(n.len() > 0 && n[0] == '/'),
    ensures
        flat_change(prefix, a, b, n) == (if named(a, n) == named(b, n) {
            None
        } else {
            Some((named(a, n), named(b, n)))
        }),
        flat_change(prefix, b, a, n) == (match flat_change(prefix, a, b, n) {
            Some((x, y)) => Some((y, x)),
            None => None,
        }),
        deletions(prefix, a, b).1 + additions(prefix, a, b).1 == Seq::<(Option<Seq<char>>, Option<Seq<char>>, Seq<char>)>::empty(),
{
    lemma_flat_one_way(prefix, a, b, n);
    lemma_flat_one_way(prefix, b, a, n);
    assert(deletions(prefix, a, b).1 + additions(prefix, a, b).1
        =~= Seq::<(Option<Seq<char>>, Option<Seq<char>>, Seq<char>)>::empty());
}

/// The change at the path of `n` after one comparison of directory-free trees.
proof fn lemma_flat_one_way(prefix: Seq<char>, a: Seq<EntryRec>, b: Seq<EntryRec>, n: Seq<char>)
    requires
        plain_names(a),
        plain_names(b),
        no_directories(a),
        no_directories(b),
        !(n.len() > 0 && n[0] == '/'),
    ensures
        flat_change(prefix, a, b, n) == (if named(a, n) == named(b, n) {
            None
        } else {
            Some((named(a, n), named(b, n)))
        }),
        deletions(prefix, a, b).1.len() == 0,
        additions(prefix, a, b).1.len() == 0,
{
    let p = joined(prefix, n);
    let empty = Seq::<(Seq<char>, (Option<EntryRec>, Option<EntryRec>))>::empty();
    let dr = deletions(prefix, a, b).0;
    let ar = additions(prefix, a, b).0;
    lemma_deletions_at(prefix, a, b, n);
    lemma_additions_at(prefix, a, b, n);
    assert(distinct_keys(empty));
    assert(!has_key(empty, p));
    lemma_lookup_upsert_all(empty, dr, p);
    lemma_lookup_upsert_all(upsert_all(empty, dr), ar, p);
}

} // verus!
