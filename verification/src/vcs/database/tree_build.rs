//! Building the trees of a commit from index entries: the files placed by
//! their path components, each directory a tree, stored deepest first.
use vstd::prelude::*;
use crate::text::{texts, copy_str, push_str, str_eq};
use crate::errors::error::Error;
use crate::vcs::file_mode::parse_mode;
use crate::vcs::database::entry::DatabaseEntry;
use crate::vcs::database::tree::{Tree, TreeEntry, EntryView, insert_all, insert_sorted, entry_view, tree_bytes};
use crate::vcs::database::database::{Database, object_id, object_bytes, object_path_of};
use crate::compression::zlib_compressed;

verus! {

/// The components of a path as `Path::components` gives them, as text.
pub uninterp spec fn path_parts(p: Seq<char>) -> Seq<Seq<char>>;

/// Calls `Path::components`, each component as text.
#[verifier::external_body]
fn components_of(p: &str) -> (r: Vec<String>)
    ensures
        texts(r@) == path_parts(p@),
{
    let mut v: Vec<String> = Vec::new();
    for c in std::path::Path::new(p).components() {
        v.push(c.as_os_str().to_string_lossy().to_string());
    }
    v
}

/// A file to place: its path, the path's components, its id and mode.
pub struct BuildItem {
    pub name: String,
    pub parts: Vec<String>,
    pub oid: String,
    pub mode: u32,
}

/// Components joined with `/`.
pub open spec fn joined_parts(ps: Seq<Seq<char>>) -> Seq<char>
    decreases ps.len(),
{
    if ps.len() == 0 {
        Seq::empty()
    } else if ps.len() == 1 {
        ps[0]
    } else {
        joined_parts(ps.drop_last()) + "/"@ + ps.last()
    }
}

/// The components of each entry's name.
pub open spec fn entry_parts(entries: Seq<DatabaseEntry>) -> Seq<Seq<Seq<char>>> {
    entries.map_values(|e: DatabaseEntry| path_parts(e.name@))
}

/// The first `k` components of entry `j` are the whole path of an earlier
/// entry: a file stands where a directory is needed.
pub open spec fn blocked(ps: Seq<Seq<Seq<char>>>, j: int, k: int) -> bool {
    1 <= k < ps[j].len() && exists|i: int| 0 <= i < j && ps[i] == #[trigger] ps[j].take(k)
}

/// Some prefix of entry `j` is blocked by a file.
pub open spec fn has_block(ps: Seq<Seq<Seq<char>>>, j: int) -> bool {
    exists|k: int| #[trigger] blocked(ps, j, k)
}

/// The first entry blocked by a file, with the shallowest blocked prefix.
pub open spec fn first_block(ps: Seq<Seq<Seq<char>>>) -> Option<(int, int)> {
    if exists|j: int| 0 <= j < ps.len() && #[trigger] has_block(ps, j) {
        let j = choose|j: int| 0 <= j < ps.len() && #[trigger] has_block(ps, j)
            && forall|j2: int| 0 <= j2 < j ==> !#[trigger] has_block(ps, j2);
        let k = choose|k: int| #[trigger] blocked(ps, j, k) && forall|k2: int| 1 <= k2 < k ==> !#[trigger] blocked(ps, j, k2);
        Some((j, k))
    } else {
        None
    }
}

/// The error for a file standing where a directory is needed.
pub open spec fn conflict_error_text(dir: Seq<char>, path: Seq<char>) -> Seq<char> {
    "Path conflict: '"@ + dir + "' exists as a file but is also used as a directory in '"@ + path + "'"@
}

/// The items of the entries that have components, in order.
pub open spec fn items_of(entries: Seq<DatabaseEntry>) -> Seq<(Seq<char>, Seq<Seq<char>>, Seq<char>, u32)>
    decreases entries.len(),
{
    if entries.len() == 0 {
        Seq::empty()
    } else {
        let e = entries.last();
        let rest = items_of(entries.drop_last());
        if path_parts(e.name@).len() == 0 { rest } else { rest.push((e.name@, path_parts(e.name@), e.oid@, parse_mode(e.mode@))) }
    }
}

/// The view of an item.
pub open spec fn item_view(it: BuildItem) -> (Seq<char>, Seq<Seq<char>>, Seq<char>, u32) {
    (it.name@, texts(it.parts@), it.oid@, it.mode)
}

/// `d` is the directory just above the path `p`.
pub open spec fn child_of(p: Seq<Seq<char>>, d: Seq<Seq<char>>) -> bool {
    p.len() == d.len() + 1 && p.take(d.len() as int) == d
}

/// The directories of the items: every proper prefix of their components,
/// the root among them.
pub open spec fn directory_set(items: Seq<(Seq<char>, Seq<Seq<char>>, Seq<char>, u32)>) -> Set<Seq<Seq<char>>> {
    Set::new(|d: Seq<Seq<char>>| exists|i: int, k: int| 0 <= i < items.len() && 0 <= k < items[i].1.len() && d == #[trigger] items[i].1.take(k))
}

proof fn lemma_insert_all_push(base: Seq<(Seq<char>, EntryView)>, raw: Seq<(Seq<char>, EntryView)>, x: (Seq<char>, EntryView))
    ensures
        insert_all(base, raw.push(x)) == insert_sorted(insert_all(base, raw), x.0, x.1),
    decreases raw.len(),
{
    if raw.len() == 0 {
        assert(raw.push(x)[0] == x);
        assert(raw.push(x).drop_first() =~= Seq::<(Seq<char>, EntryView)>::empty());
        assert(insert_all(base, raw) == base);
        let y = insert_sorted(base, x.0, x.1);
        assert(insert_all(y, Seq::<(Seq<char>, EntryView)>::empty()) == y);
        assert(insert_all(base, raw.push(x)) == insert_all(y, raw.push(x).drop_first()));
    } else {
        assert(raw.push(x)[0] == raw[0]);
        assert(raw.push(x).drop_first() =~= raw.drop_first().push(x));
        let y = insert_sorted(base, raw[0].0, raw[0].1);
        lemma_insert_all_push(y, raw.drop_first(), x);
        assert(insert_all(base, raw.push(x)) == insert_all(y, raw.push(x).drop_first()));
        assert(insert_all(base, raw) == insert_all(y, raw.drop_first()));
    }
}

/// Joins components with `/`.
fn join_parts(ps: &Vec<String>, n: usize) -> (s: String)
    requires
        n <= ps@.len(),
    ensures
        s@ == joined_parts(texts(ps@).take(n as int)),
{
    let mut s = String::new();
    let mut i: usize = 0;
    assert(texts(ps@).take(0) =~= Seq::<Seq<char>>::empty());
    while i < n
        invariant
            i <= n <= ps@.len(),
            s@ == joined_parts(texts(ps@).take(i as int)),
        decreases n - i,
    {
        if i > 0 {
            push_str(&mut s, "/");
        }
        push_str(&mut s, ps[i].as_str());
        proof {
            let t = texts(ps@).take(i + 1);
            assert(t.drop_last() =~= texts(ps@).take(i as int));
            if i == 0 {
                assert(s@ == t[0]);
            }
        }
        i += 1;
    }
    s
}

/// Whether two component lists are equal.
fn parts_eq(a: &Vec<String>, b: &Vec<String>, n: usize) -> (r: bool)
    requires
        n <= b@.len(),
    ensures
        r == (texts(a@) == texts(b@).take(n as int)),
{
    if a.len() != n {
        assert(texts(a@).len() != texts(b@).take(n as int).len());
        return false;
    }
    let mut i: usize = 0;
    while i < n
        invariant
            i <= n,
            a@.len() == n,
            n <= b@.len(),
            forall|q: int| 0 <= q < i ==> #[trigger] texts(a@)[q] == texts(b@).take(n as int)[q],
        decreases n - i,
    {
        if !str_eq(a[i].as_str(), b[i].as_str()) {
            assert(texts(a@)[i as int] != texts(b@).take(n as int)[i as int]);
            return false;
        }
        i += 1;
    }
    assert(texts(a@) =~= texts(b@).take(n as int));
    true
}

impl Tree {
    /// The files of index entries placed by their path components (an
    /// entry without components is left out); an error names the first
    /// path, in order, whose directory is a file of an earlier entry.
    pub fn build_items(entries: &Vec<DatabaseEntry>) -> (r: Result<Vec<BuildItem>, Error>)
        ensures
            match first_block(entry_parts(entries@)) {
                Some((j, k)) => r matches Err(Error::Generic(m))
                    && m@ == conflict_error_text(joined_parts(entry_parts(entries@)[j].take(k)), entries@[j].name@),
                None => r matches Ok(items) && items@.map_values(|it: BuildItem| item_view(it)) == items_of(entries@),
            },
    {
        let ghost ps = entry_parts(entries@);
        let mut all: Vec<Vec<String>> = Vec::new();
        let mut items: Vec<BuildItem> = Vec::new();
        let mut j: usize = 0;
        assert(entries@.take(0) =~= Seq::<DatabaseEntry>::empty());
        while j < entries.len()
            invariant
                j <= entries@.len(),
                ps == entry_parts(entries@),
                all@.len() == j,
                forall|q: int| 0 <= q < j ==> texts(#[trigger] all@[q]@) == ps[q],
                forall|j2: int| 0 <= j2 < j ==> !#[trigger] has_block(ps, j2),
                items@.map_values(|it: BuildItem| item_view(it)) == items_of(entries@.take(j as int)),
            decreases entries@.len() - j,
        {
            let parts = components_of(entries[j].name.as_str());
            assert(texts(parts@) == ps[j as int]);
            let mut k: usize = 1;
            while k < parts.len()
                invariant
                    1 <= k,
                    j < entries@.len(),
                    texts(parts@) == ps[j as int],
                    ps == entry_parts(entries@),
                    all@.len() == j,
                    forall|q: int| 0 <= q < j ==> texts(#[trigger] all@[q]@) == ps[q],
                    forall|k2: int| 1 <= k2 < k ==> !#[trigger] blocked(ps, j as int, k2),
                    forall|j2: int| 0 <= j2 < j ==> !#[trigger] has_block(ps, j2),
                decreases parts@.len() - k,
            {
                let mut i: usize = 0;
                while i < j
                    invariant
                        i <= j < entries@.len(),
                        1 <= k < parts@.len(),
                        ps == entry_parts(entries@),
                        texts(parts@) == ps[j as int],
                        forall|j2: int| 0 <= j2 < j ==> !#[trigger] has_block(ps, j2),
                        forall|k2: int| 1 <= k2 < k ==> !#[trigger] blocked(ps, j as int, k2),
                        all@.len() == j,
                        forall|q: int| 0 <= q < j ==> texts(#[trigger] all@[q]@) == ps[q],
                        forall|q: int| 0 <= q < i ==> ps[q] != ps[j as int].take(k as int),
                    decreases j - i,
                {
                    if parts_eq(&all[i], &parts, k) {
                        let dir = join_parts(&parts, k);
                        let mut m = copy_str("Path conflict: '");
                        push_str(&mut m, dir.as_str());
                        push_str(&mut m, "' exists as a file but is also used as a directory in '");
                        push_str(&mut m, entries[j].name.as_str());
                        push_str(&mut m, "'");
                        proof {
                            assert(blocked(ps, j as int, k as int));
                            assert(has_block(ps, j as int));
                            assert(forall|j2: int| 0 <= j2 < j ==> !#[trigger] has_block(ps, j2));
                            let jj = choose|j3: int| 0 <= j3 < ps.len() && #[trigger] has_block(ps, j3)
                                && forall|j2: int| 0 <= j2 < j3 ==> !#[trigger] has_block(ps, j2);
                            assert(jj == j as int) by {
                                if jj > j as int {
                                    assert(has_block(ps, j as int));
                                }
                            }
                            let kk = choose|k3: int| #[trigger] blocked(ps, j as int, k3) && forall|k2: int| 1 <= k2 < k3 ==> !#[trigger] blocked(ps, j as int, k2);
                            assert(kk == k as int) by {
                                if kk > k as int {
                                    assert(blocked(ps, j as int, k as int));
                                }
                            }
                        }
                        return Err(Error::Generic(m));
                    }
                    i += 1;
                }
                proof {
                    assert forall|q: int| 0 <= q < j implies #[trigger] ps[q] != ps[j as int].take(k as int) by {}
                    assert(!blocked(ps, j as int, k as int));
                }
                k += 1;
            }
            proof {
                assert forall|k2: int| !#[trigger] blocked(ps, j as int, k2) by {
                    if 1 <= k2 < ps[j as int].len() {
                        assert(k2 < k);
                    }
                }
                assert(!has_block(ps, j as int));
            }
            assert(entries@.take(j + 1).drop_last() =~= entries@.take(j as int));
            if parts.len() > 0 {
                let ghost before = items@.map_values(|it: BuildItem| item_view(it));
                let mode = crate::vcs::file_mode::FileMode::parse(entries[j].mode.as_str());
                let it = BuildItem { name: copy_str(entries[j].name.as_str()), parts: texts_copy(&parts), oid: copy_str(entries[j].oid.as_str()), mode };
                items.push(it);
                assert(items@.map_values(|it: BuildItem| item_view(it)) =~= before.push(item_view(items@.last())));
            }
            all.push(parts);
            j += 1;
        }
        assert(entries@.take(entries@.len() as int) =~= entries@);
        assert(first_block(ps) is None);
        Ok(items)
    }
}

/// A copy of a list of strings.
fn texts_copy(v: &Vec<String>) -> (r: Vec<String>)
    ensures
        texts(r@) == texts(v@),
{
    let mut r: Vec<String> = Vec::new();
    let mut i: usize = 0;
    while i < v.len()
        invariant
            i <= v@.len(),
            texts(r@) == texts(v@).take(i as int),
        decreases v@.len() - i,
    {
        let ghost before = texts(r@);
        r.push(copy_str(v[i].as_str()));
        assert(texts(r@) =~= before.push(v@[i as int]@));
        assert(texts(r@) =~= texts(v@).take(i + 1));
        i += 1;
    }
    assert(texts(v@).take(v@.len() as int) =~= texts(v@));
    r
}

/// The files just below directory `d`, in order.
pub open spec fn file_children(d: Seq<Seq<char>>, items: Seq<(Seq<char>, Seq<Seq<char>>, Seq<char>, u32)>) -> Seq<(Seq<char>, EntryView)>
    decreases items.len(),
{
    if items.len() == 0 {
        Seq::empty()
    } else {
        let rest = file_children(d, items.drop_last());
        let it = items.last();
        if child_of(it.1, d) { rest.push((it.1.last(), EntryView::Blob(it.2, it.3))) } else { rest }
    }
}

/// The stored directories just below directory `d`, in order.
pub open spec fn dir_children(d: Seq<Seq<char>>, stored: Seq<(Seq<Seq<char>>, Seq<char>)>) -> Seq<(Seq<char>, EntryView)>
    decreases stored.len(),
{
    if stored.len() == 0 {
        Seq::empty()
    } else {
        let rest = dir_children(d, stored.drop_last());
        let s = stored.last();
        if child_of(s.0, d) { rest.push((s.0.last(), EntryView::Tree(Some(s.1)))) } else { rest }
    }
}

/// The tree of directory `d`: its files, then the directories stored before
/// it that lie just below it.
pub open spec fn directory_view(
    d: Seq<Seq<char>>,
    iv: Seq<(Seq<char>, Seq<Seq<char>>, Seq<char>, u32)>,
    stored: Seq<(Seq<Seq<char>>, Seq<char>)>,
) -> Seq<(Seq<char>, EntryView)> {
    insert_all(Seq::empty(), file_children(d, iv) + dir_children(d, stored))
}

/// The directories with the ids of their trees, stored in the order given.
pub open spec fn stored_trees(dirs: Seq<Seq<Seq<char>>>, iv: Seq<(Seq<char>, Seq<Seq<char>>, Seq<char>, u32)>)
    -> Seq<(Seq<Seq<char>>, Seq<char>)>
    decreases dirs.len(),
{
    if dirs.len() == 0 {
        Seq::empty()
    } else {
        let prev = stored_trees(dirs.drop_last(), iv);
        prev.push((dirs.last(), object_id("tree"@, tree_bytes(directory_view(dirs.last(), iv, prev)))))
    }
}

/// The object writes that storing the directories' trees in order asks for,
/// in a database at `path`.
pub open spec fn tree_writes(
    dirs: Seq<Seq<Seq<char>>>,
    iv: Seq<(Seq<char>, Seq<Seq<char>>, Seq<char>, u32)>,
    path: Seq<char>,
) -> Seq<(Seq<char>, Seq<char>, Seq<u8>)>
    decreases dirs.len(),
{
    if dirs.len() == 0 {
        Seq::empty()
    } else {
        let body = tree_bytes(directory_view(dirs.last(), iv, stored_trees(dirs.drop_last(), iv)));
        let oid = object_id("tree"@, body);
        tree_writes(dirs.drop_last(), iv, path).push(
            (oid, object_path_of(path, oid), zlib_compressed(object_bytes("tree"@, body))))
    }
}

/// The root's id among stored directories: that of the last one without
/// components, empty text when there is none.
pub open spec fn root_id(stored: Seq<(Seq<Seq<char>>, Seq<char>)>) -> Seq<char>
    decreases stored.len(),
{
    if stored.len() == 0 {
        Seq::empty()
    } else if stored.last().0.len() == 0 {
        stored.last().1
    } else {
        root_id(stored.drop_last())
    }
}

/// The views of the items.
pub open spec fn items_view(items: Seq<BuildItem>) -> Seq<(Seq<char>, Seq<Seq<char>>, Seq<char>, u32)> {
    items.map_values(|it: BuildItem| item_view(it))
}

/// The views of stored directories: components and id.
pub open spec fn stored_view(stored: Seq<(Vec<String>, String)>) -> Seq<(Seq<Seq<char>>, Seq<char>)> {
    stored.map_values(|s: (Vec<String>, String)| (texts(s.0@), s.1@))
}

/// The views of directories.
pub open spec fn dirs_view(dirs: Seq<Vec<String>>) -> Seq<Seq<Seq<char>>> {
    dirs.map_values(|d: Vec<String>| texts(d@))
}

/// Deeper directories come first.
pub open spec fn deepest_first(ds: Seq<Seq<Seq<char>>>) -> bool {
    forall|i: int, j: int| 0 <= i < j < ds.len() ==> (#[trigger] ds[i]).len() >= (#[trigger] ds[j]).len()
}

/// Whether a directory is just above a path.
fn is_child(parts: &Vec<String>, dir: &Vec<String>) -> (r: bool)
    ensures
        r == child_of(texts(parts@), texts(dir@)),
{
    if parts.len() == 0 || parts.len() - 1 != dir.len() {
        return false;
    }
    parts_eq(dir, parts, dir.len())
}

/// The first `n` components.
fn prefix(parts: &Vec<String>, n: usize) -> (r: Vec<String>)
    requires
        n <= parts@.len(),
    ensures
        texts(r@) == texts(parts@).take(n as int),
{
    let mut r: Vec<String> = Vec::new();
    let mut i: usize = 0;
    while i < n
        invariant
            i <= n <= parts@.len(),
            texts(r@) == texts(parts@).take(i as int),
        decreases n - i,
    {
        let ghost before = texts(r@);
        r.push(copy_str(parts[i].as_str()));
        assert(texts(r@) =~= before.push(parts@[i as int]@));
        assert(texts(r@) =~= texts(parts@).take(i + 1));
        i += 1;
    }
    r
}

/// Adds a directory, once, keeping deeper ones first.
fn add_dir(dirs: &mut Vec<Vec<String>>, d: Vec<String>)
    requires
        deepest_first(dirs_view(old(dirs)@)),
        dirs_view(old(dirs)@).no_duplicates(),
    ensures
        deepest_first(dirs_view(final(dirs)@)),
        dirs_view(final(dirs)@).no_duplicates(),
        dirs_view(final(dirs)@).to_set() == dirs_view(old(dirs)@).to_set().insert(texts(d@)),
{
    let ghost dv = texts(d@);
    let ghost before = dirs_view(dirs@);
    let mut i: usize = 0;
    while i < dirs.len()
        invariant
            i <= dirs@.len(),
            dirs@ == old(dirs)@,
            before == dirs_view(dirs@),
            dv == texts(d@),
            deepest_first(before),
            before.no_duplicates(),
            forall|q: int| 0 <= q < i ==> #[trigger] before[q] != dv,
        decreases dirs@.len() - i,
    {
        if dirs[i].len() == d.len() && parts_eq(&dirs[i], &d, d.len()) {
            assert(texts(d@).take(d@.len() as int) =~= texts(d@));
            assert(before[i as int] == dv);
            assert(before.to_set() =~= before.to_set().insert(dv));
            return;
        }
        proof {
            if before[i as int] == dv {
                assert(texts(d@).take(d@.len() as int) =~= texts(d@));
            }
        }
        i += 1;
    }
    let mut pos: usize = 0;
    while pos < dirs.len() && dirs[pos].len() >= d.len()
        invariant
            pos <= dirs@.len(),
            dirs@ == old(dirs)@,
            before == dirs_view(dirs@),
            dv == texts(d@),
            forall|q: int| 0 <= q < pos ==> (#[trigger] before[q]).len() >= dv.len(),
        decreases dirs@.len() - pos,
    {
        pos += 1;
    }
    dirs.insert(pos, d);
    proof {
        let t = before.insert(pos as int, dv);
        assert(dirs_view(dirs@) =~= t);
        assert forall|a: int, b: int| 0 <= a < b < t.len() implies (#[trigger] t[a]).len() >= (#[trigger] t[b]).len() by {
            if b < pos {
            } else if b == pos {
            } else if a == pos {
                assert(t[b] == before[b - 1]);
                assert(before[pos as int].len() < dv.len());
            } else if a < pos {
                assert(t[b] == before[b - 1]);
            } else {
                assert(t[a] == before[a - 1] && t[b] == before[b - 1]);
            }
        }
        assert forall|a: int, b: int| 0 <= a < t.len() && 0 <= b < t.len() && a != b implies t[a] != t[b] by {
            if a == pos {
                if b < pos { assert(t[b] == before[b]); } else { assert(t[b] == before[b - 1]); }
            } else if b == pos {
                if a < pos { assert(t[a] == before[a]); } else { assert(t[a] == before[a - 1]); }
            } else {
                let a2 = if a < pos { a } else { a - 1 };
                let b2 = if b < pos { b } else { b - 1 };
                assert(t[a] == before[a2] && t[b] == before[b2]);
            }
        }
        assert forall|x: Seq<Seq<char>>| t.contains(x) <==> before.contains(x) || x == dv by {
            if t.contains(x) {
                let a = choose|a: int| 0 <= a < t.len() && t[a] == x;
                if a < pos { assert(before[a] == x); } else if a > pos { assert(before[a - 1] == x); }
            }
            if before.contains(x) {
                let a = choose|a: int| 0 <= a < before.len() && before[a] == x;
                if a < pos { assert(t[a] == x); } else { assert(t[a + 1] == x); }
            }
            if x == dv {
                assert(t[pos as int] == x);
            }
        }
        assert(t.to_set() =~= before.to_set().insert(dv));
    }
}

impl Tree {
    /// The directories the items need, each once, deeper ones first: every
    /// proper prefix of their components, the root among them.
    pub fn directories(items: &Vec<BuildItem>) -> (r: Vec<Vec<String>>)
        ensures
            dirs_view(r@).to_set() == directory_set(items_view(items@)),
            dirs_view(r@).no_duplicates(),
            deepest_first(dirs_view(r@)),
    {
        let ghost iv = items_view(items@);
        let mut dirs: Vec<Vec<String>> = Vec::new();
        let mut i: usize = 0;
        assert(dirs_view(dirs@).to_set() =~= Set::<Seq<Seq<char>>>::empty());
        assert(directory_set(iv.take(0)) =~= Set::<Seq<Seq<char>>>::empty());
        while i < items.len()
            invariant
                i <= items@.len(),
                iv == items_view(items@),
                deepest_first(dirs_view(dirs@)),
                dirs_view(dirs@).no_duplicates(),
                dirs_view(dirs@).to_set() == directory_set(iv.take(i as int)),
            decreases items@.len() - i,
        {
            let ghost base = directory_set(iv.take(i as int));
            let mut k: usize = 0;
            while k < items[i].parts.len()
                invariant
                    i < items@.len(),
                    k <= items@[i as int].parts@.len(),
                    iv == items_view(items@),
                    deepest_first(dirs_view(dirs@)),
                    dirs_view(dirs@).no_duplicates(),
                    dirs_view(dirs@).to_set() == base + Set::new(|d: Seq<Seq<char>>| exists|q: int| 0 <= q < k && d == #[trigger] iv[i as int].1.take(q)),
                decreases items@[i as int].parts@.len() - k,
            {
                let d = prefix(&items[i].parts, k);
                let ghost before = dirs_view(dirs@).to_set();
                add_dir(&mut dirs, d);
                proof {
                    assert(iv[i as int].1 == texts(items@[i as int].parts@));
                    let s0 = Set::new(|d: Seq<Seq<char>>| exists|q: int| 0 <= q < k && d == #[trigger] iv[i as int].1.take(q));
                    let s1 = Set::new(|d: Seq<Seq<char>>| exists|q: int| 0 <= q < k + 1 && d == #[trigger] iv[i as int].1.take(q));
                    assert forall|x: Seq<Seq<char>>| s1.contains(x) <==> s0.insert(iv[i as int].1.take(k as int)).contains(x) by {
                        if s1.contains(x) {
                            let q = choose|q: int| 0 <= q < k + 1 && x == #[trigger] iv[i as int].1.take(q);
                            if q < k { assert(s0.contains(x)); }
                        }
                        if s0.contains(x) {
                            let q = choose|q: int| 0 <= q < k && x == #[trigger] iv[i as int].1.take(q);
                            assert(s1.contains(x));
                        }
                        if x == iv[i as int].1.take(k as int) {
                            assert(s1.contains(x));
                        }
                    }
                    assert(s1 =~= s0.insert(iv[i as int].1.take(k as int)));
                    assert(dirs_view(dirs@).to_set() =~= base + s1);
                }
                k += 1;
            }
            proof {
                let s = Set::new(|d: Seq<Seq<char>>| exists|q: int| 0 <= q < iv[i as int].1.len() && d == #[trigger] iv[i as int].1.take(q));
                assert(iv[i as int].1.len() == items@[i as int].parts@.len());
                let t1 = iv.take(i + 1);
                let t0 = iv.take(i as int);
                assert forall|x: Seq<Seq<char>>| directory_set(t1).contains(x) <==> (base + s).contains(x) by {
                    if directory_set(t1).contains(x) {
                        let (a, q) = choose|a: int, q: int| 0 <= a < t1.len() && 0 <= q < t1[a].1.len() && x == #[trigger] t1[a].1.take(q);
                        if a < i {
                            assert(t0[a] == t1[a]);
                            assert(directory_set(t0).contains(x));
                        } else {
                            assert(t1[a] == iv[i as int]);
                            assert(s.contains(x));
                        }
                    }
                    if base.contains(x) {
                        let (a, q) = choose|a: int, q: int| 0 <= a < t0.len() && 0 <= q < t0[a].1.len() && x == #[trigger] t0[a].1.take(q);
                        assert(t1[a] == t0[a]);
                        assert(directory_set(t1).contains(x));
                    }
                    if s.contains(x) {
                        let q = choose|q: int| 0 <= q < iv[i as int].1.len() && x == #[trigger] iv[i as int].1.take(q);
                        assert(t1[i as int] == iv[i as int]);
                        assert(directory_set(t1).contains(x));
                    }
                }
                assert(directory_set(t1) =~= base + s);
            }
            i += 1;
        }
        assert(iv.take(iv.len() as int) =~= iv);
        dirs
    }

    /// The tree of directory `dir`: the items just below it as blobs, then
    /// the stored directories just below it as trees with their ids.
    pub fn directory_tree(dir: &Vec<String>, items: &Vec<BuildItem>, stored: &Vec<(Vec<String>, String)>) -> (t: Tree)
        ensures
            t.wf(),
            t.oid_view() is None,
            t@ == insert_all(Seq::empty(), file_children(texts(dir@), items_view(items@))
                + dir_children(texts(dir@), stored_view(stored@))),
    {
        let ghost d = texts(dir@);
        let ghost iv = items_view(items@);
        let ghost sv = stored_view(stored@);
        let mut t = Tree::new();
        let mut i: usize = 0;
        assert(iv.take(0) =~= Seq::<(Seq<char>, Seq<Seq<char>>, Seq<char>, u32)>::empty());
        while i < items.len()
            invariant
                i <= items@.len(),
                iv == items_view(items@),
                d == texts(dir@),
                t.wf(),
                t.oid_view() is None,
                t@ == insert_all(Seq::empty(), file_children(d, iv.take(i as int))),
            decreases items@.len() - i,
        {
            assert(iv.take(i + 1).drop_last() =~= iv.take(i as int));
            assert(iv.take(i + 1).last() == iv[i as int]);
            if is_child(&items[i].parts, dir) {
                let n = items[i].parts.len();
                let name = copy_str(items[i].parts[n - 1].as_str());
                let ghost x = (texts(items@[i as int].parts@).last(), EntryView::Blob(items@[i as int].oid@, items@[i as int].mode));
                proof {
                    lemma_insert_all_push(Seq::empty(), file_children(d, iv.take(i as int)), x);
                }
                t.insert_entry(name, TreeEntry::Blob(copy_str(items[i].oid.as_str()), items[i].mode));
            }
            i += 1;
        }
        assert(iv.take(iv.len() as int) =~= iv);
        let ghost files = file_children(d, iv);
        let mut j: usize = 0;
        assert(sv.take(0) =~= Seq::<(Seq<Seq<char>>, Seq<char>)>::empty());
        assert(files + dir_children(d, sv.take(0)) =~= files);
        while j < stored.len()
            invariant
                j <= stored@.len(),
                sv == stored_view(stored@),
                d == texts(dir@),
                t.wf(),
                t.oid_view() is None,
                t@ == insert_all(Seq::empty(), files + dir_children(d, sv.take(j as int))),
            decreases stored@.len() - j,
        {
            assert(sv.take(j + 1).drop_last() =~= sv.take(j as int));
            assert(sv.take(j + 1).last() == sv[j as int]);
            if is_child(&stored[j].0, dir) {
                let n = stored[j].0.len();
                let name = copy_str(stored[j].0[n - 1].as_str());
                let mut sub = Tree::new();
                sub.set_oid(copy_str(stored[j].1.as_str()));
                let ghost x = (texts(stored@[j as int].0@).last(), EntryView::Tree(Some(stored@[j as int].1@)));
                proof {
                    let dc = dir_children(d, sv.take(j as int));
                    assert((files + dc).push(x) =~= files + dc.push(x));
                    lemma_insert_all_push(Seq::empty(), files + dc, x);
                }
                t.insert_entry(name, TreeEntry::Tree(Box::new(sub)));
            }
            j += 1;
        }
        assert(sv.take(sv.len() as int) =~= sv);
        t
    }

    /// Stores the tree of each directory, in the order given, each holding
    /// the ids of the trees stored before it, and gives the root tree's id:
    /// that of the directory without components, or, when there are no
    /// directories, that of an empty tree, which is then stored.
    pub fn write_trees(database: &mut Database, items: &Vec<BuildItem>, dirs: &Vec<Vec<String>>) -> (root: String)
        ensures
            final(database).path_view() == old(database).path_view(),
            final(database).cache_view() == old(database).cache_view(),
            final(database).temp_chars_view() == old(database).temp_chars_view(),
            ({
                let empty = tree_bytes(Seq::empty());
                let empty_id = object_id("tree"@, empty);
                if dirs@.len() == 0 {
                    &&& root@ == empty_id
                    &&& final(database).writes_view() == old(database).writes_view().push(
                        (empty_id, object_path_of(old(database).path_view(), empty_id),
                        zlib_compressed(object_bytes("tree"@, empty))))
                } else {
                    &&& root@ == root_id(stored_trees(dirs_view(dirs@), items_view(items@)))
                    &&& final(database).writes_view() == old(database).writes_view()
                        + tree_writes(dirs_view(dirs@), items_view(items@), old(database).path_view())
                }
            }),
    {
        let ghost iv = items_view(items@);
        let ghost dv = dirs_view(dirs@);
        let ghost path = database.path_view();
        let ghost w0 = database.writes_view();
        if dirs.len() == 0 {
            let mut tree = Tree::new();
            return database.store(&mut tree).unwrap();
        }
        let mut stored: Vec<(Vec<String>, String)> = Vec::new();
        let mut root = String::new();
        let mut i: usize = 0;
        assert(dv.take(0) =~= Seq::<Seq<Seq<char>>>::empty());
        assert(stored_view(stored@) =~= Seq::<(Seq<Seq<char>>, Seq<char>)>::empty());
        assert(w0 + Seq::<(Seq<char>, Seq<char>, Seq<u8>)>::empty() =~= w0);
        while i < dirs.len()
            invariant
                i <= dirs@.len(),
                iv == items_view(items@),
                dv == dirs_view(dirs@),
                database.path_view() == path,
                database.cache_view() == old(database).cache_view(),
                database.temp_chars_view() == old(database).temp_chars_view(),
                w0 == old(database).writes_view(),
                path == old(database).path_view(),
                stored_view(stored@) == stored_trees(dv.take(i as int), iv),
                root@ == root_id(stored_trees(dv.take(i as int), iv)),
                database.writes_view() == w0 + tree_writes(dv.take(i as int), iv, path),
            decreases dirs@.len() - i,
        {
            let ghost prev = stored_trees(dv.take(i as int), iv);
            let ghost writes0 = database.writes_view();
            let dir = &dirs[i];
            let mut tree = Tree::directory_tree(dir, items, &stored);
            proof {
                assert(dv.take(i + 1).drop_last() =~= dv.take(i as int));
                assert(dv.take(i + 1).last() == texts(dir@));
                assert(tree@ == directory_view(texts(dir@), iv, prev));
            }
            let oid = database.store(&mut tree).unwrap();
            let copy = crate::text::copy_strings_from(dir.as_slice(), 0);
            assert(texts(dir@).skip(0) =~= texts(dir@));
            if dir.len() == 0 {
                root = oid.clone();
            }
            stored.push((copy, oid));
            proof {
                let entry = (texts(dir@), object_id("tree"@, tree_bytes(directory_view(texts(dir@), iv, prev))));
                assert(stored_view(stored@) =~= prev.push(entry));
                assert(stored_trees(dv.take(i + 1), iv) == prev.push(entry));
                assert(prev.push(entry).drop_last() =~= prev);
                assert(texts(dir@).len() == dir@.len());
                assert(database.writes_view() =~= w0 + tree_writes(dv.take(i + 1), iv, path));
            }
            i += 1;
        }
        assert(dv.take(dirs@.len() as int) =~= dv);
        root
    }
}

} // verus!
