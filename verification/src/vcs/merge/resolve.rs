//! How a three-way merge resolves one path from its base, left and right
//! versions: ids and modes are merged three ways, and what cannot be
//! merged is recorded as a conflict with a message.
use vstd::prelude::*;
use crate::text::{str_eq, copy_str, concat, push_str};
use crate::numeral::octal;
use crate::vcs::file_mode::{parse_mode, mode_is_directory};
use crate::vcs::database::entry::{DatabaseEntry, normalized_mode};
use crate::paths::path_parent;

verus! {

/// What a merge records of an entry: its path, id and mode text.
pub type EntryRec = (Seq<char>, Seq<char>, Seq<char>);

/// The record of an optional entry.
pub open spec fn rec(e: Option<DatabaseEntry>) -> Option<EntryRec> {
    match e {
        Some(x) => Some((x.name@, x.oid@, x.mode@)),
        None => None,
    }
}

/// The id of an optional record.
pub open spec fn rec_oid(r: Option<EntryRec>) -> Option<Seq<char>> {
    match r {
        Some(x) => Some(x.1),
        None => None,
    }
}

/// The mode of an optional record.
pub open spec fn rec_mode(r: Option<EntryRec>) -> Option<u32> {
    match r {
        Some(x) => Some(parse_mode(x.2)),
        None => None,
    }
}

/// A record that exists and is a directory.
pub open spec fn rec_is_dir(r: Option<EntryRec>) -> bool {
    match r {
        Some(x) => mode_is_directory(parse_mode(x.2)),
        None => false,
    }
}

/// The three-way merge of one value: the common value when both sides
/// agree, the changed side when only one side changed, nothing when both
/// changed differently (an absent value that both sides agree on also
/// gives nothing).
pub open spec fn merge3<T>(base: Option<T>, left: Option<T>, right: Option<T>) -> Option<T> {
    if left == right {
        left
    } else if left == base {
        right
    } else if right == base {
        left
    } else {
        None
    }
}

/// The value of an optional mode, the regular-file mode when absent.
pub open spec fn mode_or_regular(m: Option<u32>) -> u32 {
    match m {
        Some(x) => x,
        None => 0o100644u32,
    }
}

/// The three-way merge of modes: whether it is clean, and the mode.
pub open spec fn merged_modes(base: Option<u32>, left: Option<u32>, right: Option<u32>) -> (bool, u32) {
    if left == base || left == right {
        (true, mode_or_regular(right))
    } else if right == base {
        (true, mode_or_regular(left))
    } else if left is None {
        (right is None, mode_or_regular(right))
    } else {
        (false, mode_or_regular(left))
    }
}

/// The three-way merge of modes is clean exactly when one side kept the
/// base's mode or both sides agree; then it takes the side that changed (a
/// missing mode read as the regular-file mode), and two sides that agree
/// give their common mode. Whether it is clean does not depend on which side
/// is called left.
pub proof fn lemma_merged_modes(base: Option<u32>, left: Option<u32>, right: Option<u32>)
    ensures
        merged_modes(base, left, right).0 == (left == base || right == base || left == right),
        left == right ==> merged_modes(base, left, right) == (true, mode_or_regular(left)),
        left == base ==> merged_modes(base, left, right) == (true, mode_or_regular(right)),
        right == base ==> merged_modes(base, left, right) == (true, mode_or_regular(left)),
        merged_modes(base, left, right).0 == merged_modes(base, right, left).0,
{
}

/// Merging ids is the same whichever side is called left.
pub proof fn lemma_merge3_symmetric<T>(base: Option<T>, left: Option<T>, right: Option<T>)
    ensures
        merge3(base, left, right) == merge3(base, right, left),
{
}

/// A side that did not change gives way to the other; two sides that
/// agree give their common value.
pub proof fn lemma_merge3_one_side<T>(base: Option<T>, other: Option<T>)
    ensures
        merge3(base, base, other) == other,
        merge3(base, other, base) == other,
        merge3(base, other, other) == other,
{
}

/// A mode that one side left as it was gives way to the other side's,
/// cleanly.
pub proof fn lemma_merged_modes_one_side(base: Option<u32>, other: Option<u32>)
    ensures
        merged_modes(base, base, other) == (true, mode_or_regular(other)),
        merged_modes(base, other, base) == (true, mode_or_regular(other)),
{
}

/// The three-way merge of ids.
pub fn merge3_oid(base: Option<&str>, left: Option<&str>, right: Option<&str>) -> (r: Option<String>)
    ensures
        ({
            let v = |o: Option<&str>| match o { Some(s) => Some(s@), None => None };
            match merge3(v(base), v(left), v(right)) {
                Some(x) => r matches Some(s) && s@ == x,
                None => r is None,
            }
        }),
{
    if opt_eq(left, right) {
        return match left { Some(s) => Some(copy_str(s)), None => None };
    }
    if opt_eq(left, base) {
        return match right { Some(s) => Some(copy_str(s)), None => None };
    }
    if opt_eq(right, base) {
        return match left { Some(s) => Some(copy_str(s)), None => None };
    }
    None
}

/// Equality of optional texts.
fn opt_eq(a: Option<&str>, b: Option<&str>) -> (r: bool)
    ensures
        r == (match a { Some(s) => Some(s@), None => None::<Seq<char>> } == match b { Some(s) => Some(s@), None => None::<Seq<char>> }),
{
    match (a, b) {
        (Some(x), Some(y)) => str_eq(x, y),
        (None, None) => true,
        _ => false,
    }
}

/// The three-way merge of modes.
pub fn merge_modes(base: Option<u32>, left: Option<u32>, right: Option<u32>) -> (r: (bool, u32))
    ensures
        r == merged_modes(base, left, right),
{
    let reg: u32 = 0o100644;
    if left == base || left == right {
        (true, match right { Some(m) => m, None => reg })
    } else if right == base {
        (true, match left { Some(m) => m, None => reg })
    } else if left.is_none() {
        (right.is_none(), match right { Some(m) => m, None => reg })
    } else {
        (false, match left { Some(m) => m, None => reg })
    }
}

/// The message of a conflict at `path` (`log_conflict`): both sides
/// changed it (a content conflict, or add/add without a base); one side
/// deleted what the other modified; or a file stands where the other side
/// has a directory, and is kept under `rename`.
pub open spec fn conflict_log(path: Seq<char>, base: Option<EntryRec>, left: Option<EntryRec>, right: Option<EntryRec>,
    rename: Option<Seq<char>>, left_name: Seq<char>, right_name: Seq<char>) -> Option<Seq<char>> {
    if left is Some && right is Some {
        Some("CONFLICT ("@ + (if base is Some { "content"@ } else { "add/add"@ }) + "): Merge conflict in "@ + path)
    } else if base is Some && (left is Some || right is Some) {
        let deleted = if left is Some { right_name } else { left_name };
        let modified = if left is Some { left_name } else { right_name };
        Some("CONFLICT (modify/delete): "@ + path + " deleted in "@ + deleted + " and modified in "@ + modified
            + ". Version "@ + modified + " of "@ + path + " left in tree"@
            + (match rename { Some(r) => " at "@ + r, None => Seq::empty() }) + "."@)
    } else {
        match rename {
            Some(r) => Some("CONFLICT ("@ + (if left is Some { "file/directory"@ } else { "directory/file"@ })
                + "): There is a directory with name "@ + path + " in "@ + (if left is Some { right_name } else { left_name })
                + ". Adding "@ + path + " as "@ + r),
            None => None,
        }
    }
}

/// What resolving a path does: the messages it logs, whether the path is
/// a conflict (with its base, left and right versions), the clean change
/// it records (the new version against the base) or whether it drops one,
/// and a file it keeps under another name.
pub ghost struct PathOutcome {
    pub logs: Seq<Seq<char>>,
    pub conflict: bool,
    pub clean: Option<Option<EntryRec>>,
    pub remove_clean: bool,
    pub untracked: Option<(Seq<char>, EntryRec)>,
}

/// `path~branch`: where a file in the way of a directory is kept.
pub open spec fn renamed(path: Seq<char>, branch: Seq<char>) -> Seq<char> {
    path + "~"@ + branch
}

/// How a path is resolved (`same_path_conflict`), given, when both sides
/// changed a file differently, the outcome of merging its contents (clean
/// or not, and the merged id); `None` when that outcome is needed and
/// missing.
pub open spec fn resolve_path_spec(path: Seq<char>, base: Option<EntryRec>, left: Option<EntryRec>, right: Option<EntryRec>,
    left_name: Seq<char>, right_name: Seq<char>, content: Option<(bool, Seq<char>)>) -> Option<PathOutcome> {
    let left_dir = rec_is_dir(left);
    let right_dir = rec_is_dir(right);
    if (left_dir && right is Some && !right_dir) || (right_dir && left is Some && !left_dir) {
        let file = if left_dir { right } else { left };
        let branch = if left_dir { right_name } else { left_name };
        let first = "CONFLICT (file/directory): "@ + path + " is a file in one version and a directory in another."@;
        Some(PathOutcome {
            logs: match file {
                Some(_) => seq![first, "  Renaming file version to "@ + renamed(path, branch)],
                None => seq![first],
            },
            conflict: true,
            clean: None,
            remove_clean: true,
            untracked: match file {
                Some(f) => Some((renamed(path, branch), f)),
                None => None,
            },
        })
    } else if left == right {
        Some(PathOutcome {
            logs: Seq::empty(),
            conflict: false,
            clean: if left is Some && left != base { Some(left) } else { None },
            remove_clean: false,
            untracked: None,
        })
    } else {
        let oids = merge3(rec_oid(base), rec_oid(left), rec_oid(right));
        if !left_dir && !right_dir && oids is None && content is None {
            None
        } else {
            let auto = left is Some && right is Some && left != base && right != base && !left_dir && !right_dir;
            let modes = merged_modes(rec_mode(base), rec_mode(left), rec_mode(right));
            let (oid_ok, merged_oid) = match oids {
                Some(o) => (true, o),
                None => if left_dir || right_dir {
                    (false, match rec_oid(left) { Some(o) => o, None => Seq::empty() })
                } else {
                    content->0
                },
            };
            let merged: Option<EntryRec> = if (left is Some || right is Some) && merged_oid.len() > 0 {
                Some((path, merged_oid, normalized_mode(octal(modes.1 as nat))))
            } else {
                None
            };
            let conflict = !oid_ok || !modes.0;
            let rename = if left_dir && right is Some {
                Some(renamed(path, right_name))
            } else if right_dir && left is Some {
                Some(renamed(path, left_name))
            } else {
                None
            };
            let conflict_logs = if conflict {
                match conflict_log(path, base, left, right, rename, left_name, right_name) {
                    Some(m) => seq![m],
                    None => Seq::empty(),
                }
            } else {
                Seq::empty()
            };
            Some(PathOutcome {
                logs: (if auto { seq!["Auto-merging "@ + path] } else { Seq::empty() }) + conflict_logs,
                conflict,
                clean: if merged != base { Some(merged) } else { None },
                remove_clean: false,
                untracked: None,
            })
        }
    }
}

/// What resolving a path does (see `resolve_path_spec`).
#[derive(Debug)]
pub struct PathResolution {
    pub logs: Vec<String>,
    pub conflict: bool,
    pub clean: Option<Option<DatabaseEntry>>,
    pub remove_clean: bool,
    pub untracked: Option<(String, DatabaseEntry)>,
}

/// The view of a resolution.
pub open spec fn resolution_view(r: PathResolution) -> PathOutcome {
    PathOutcome {
        logs: r.logs@.map_values(|l: String| l@),
        conflict: r.conflict,
        clean: match r.clean {
            Some(c) => Some(rec(c)),
            None => None,
        },
        remove_clean: r.remove_clean,
        untracked: match r.untracked {
            Some((p, e)) => Some((p@, (e.name@, e.oid@, e.mode@))),
            None => None,
        },
    }
}

/// The view of a content merge's outcome.
pub open spec fn content_view(c: Option<(bool, String)>) -> Option<(bool, Seq<char>)> {
    match c {
        Some(x) => Some((x.0, x.1@)),
        None => None,
    }
}

/// A copy of an entry.
pub fn copy_entry(e: &DatabaseEntry) -> (c: DatabaseEntry)
    ensures
        c.name@ == e.name@ && c.oid@ == e.oid@ && c.mode@ == e.mode@,
{
    DatabaseEntry { name: copy_str(e.name.as_str()), oid: copy_str(e.oid.as_str()), mode: copy_str(e.mode.as_str()) }
}

/// A copy of an optional entry.
pub fn copy_opt(e: &Option<DatabaseEntry>) -> (c: Option<DatabaseEntry>)
    ensures
        rec(c) == rec(*e),
{
    match e {
        Some(x) => Some(copy_entry(x)),
        None => None,
    }
}

/// Whether two optional entries record the same.
pub fn rec_eq(a: &Option<DatabaseEntry>, b: &Option<DatabaseEntry>) -> (r: bool)
    ensures
        r == (rec(*a) == rec(*b)),
{
    match (a, b) {
        (Some(x), Some(y)) => str_eq(x.name.as_str(), y.name.as_str()) && str_eq(x.oid.as_str(), y.oid.as_str())
            && str_eq(x.mode.as_str(), y.mode.as_str()),
        (None, None) => true,
        _ => false,
    }
}

/// Whether an optional entry is a directory.
fn is_dir(e: &Option<DatabaseEntry>) -> (r: bool)
    ensures
        r == rec_is_dir(rec(*e)),
{
    match e {
        Some(x) => crate::vcs::file_mode::FileMode::is_directory(x.get_file_mode()),
        None => false,
    }
}

/// The mode of an optional entry.
fn mode_of(e: &Option<DatabaseEntry>) -> (r: Option<u32>)
    ensures
        r == rec_mode(rec(*e)),
{
    match e {
        Some(x) => Some(x.get_file_mode()),
        None => None,
    }
}

/// The id of an optional entry.
fn oid_of(e: &Option<DatabaseEntry>) -> (r: Option<&str>)
    ensures
        match r { Some(s) => Some(s@), None => None::<Seq<char>> } == rec_oid(rec(*e)),
{
    match e {
        Some(x) => Some(x.get_oid()),
        None => None,
    }
}

/// `path~branch`.
fn rename_of(path: &str, branch: &str) -> (r: String)
    ensures
        r@ == renamed(path@, branch@),
{
    let mut r = copy_str(path);
    push_str(&mut r, "~");
    push_str(&mut r, branch);
    r
}

/// The message of a conflict (see `conflict_log`).
pub fn conflict_message(path: &str, base: &Option<DatabaseEntry>, left: &Option<DatabaseEntry>, right: &Option<DatabaseEntry>,
    rename: Option<String>, left_name: &str, right_name: &str) -> (r: Option<String>)
    ensures
        match r { Some(m) => Some(m@), None => None::<Seq<char>> } == conflict_log(path@, rec(*base), rec(*left), rec(*right),
            match rename { Some(x) => Some(x@), None => None }, left_name@, right_name@),
{
    if left.is_some() && right.is_some() {
        let mut m = copy_str("CONFLICT (");
        push_str(&mut m, if base.is_some() { "content" } else { "add/add" });
        push_str(&mut m, "): Merge conflict in ");
        push_str(&mut m, path);
        Some(m)
    } else if base.is_some() && (left.is_some() || right.is_some()) {
        let deleted = if left.is_some() { right_name } else { left_name };
        let modified = if left.is_some() { left_name } else { right_name };
        let mut m = copy_str("CONFLICT (modify/delete): ");
        push_str(&mut m, path);
        push_str(&mut m, " deleted in ");
        push_str(&mut m, deleted);
        push_str(&mut m, " and modified in ");
        push_str(&mut m, modified);
        push_str(&mut m, ". Version ");
        push_str(&mut m, modified);
        push_str(&mut m, " of ");
        push_str(&mut m, path);
        push_str(&mut m, " left in tree");
        match &rename {
            Some(r) => {
                push_str(&mut m, " at ");
                push_str(&mut m, r.as_str());
            },
            None => {},
        }
        push_str(&mut m, ".");
        Some(m)
    } else {
        match rename {
            Some(r) => {
                let mut m = copy_str("CONFLICT (");
                push_str(&mut m, if left.is_some() { "file/directory" } else { "directory/file" });
                push_str(&mut m, "): There is a directory with name ");
                push_str(&mut m, path);
                push_str(&mut m, " in ");
                push_str(&mut m, if left.is_some() { right_name } else { left_name });
                push_str(&mut m, ". Adding ");
                push_str(&mut m, path);
                push_str(&mut m, " as ");
                push_str(&mut m, r.as_str());
                Some(m)
            },
            None => None,
        }
    }
}

/// Resolves a path (see `resolve_path_spec`); `None` when the contents of
/// a file that both sides changed must be merged first.
#[verifier::rlimit(40)]
#[verifier::spinoff_prover]
pub fn resolve_path(path: &str, base: Option<DatabaseEntry>, left: Option<DatabaseEntry>, right: Option<DatabaseEntry>,
    left_name: &str, right_name: &str, content: Option<(bool, String)>) -> (r: Option<PathResolution>)
    ensures
        match resolve_path_spec(path@, rec(base), rec(left), rec(right), left_name@, right_name@, content_view(content)) {
            Some(o) => r matches Some(res) && resolution_view(res) == o,
            None => r is None,
        },
{
    let ghost cv = content_view(content);
    let left_dir = is_dir(&left);
    let right_dir = is_dir(&right);
    if (left_dir && right.is_some() && !right_dir) || (right_dir && left.is_some() && !left_dir) {
        let mut logs: Vec<String> = Vec::new();
        let mut first = copy_str("CONFLICT (file/directory): ");
        push_str(&mut first, path);
        push_str(&mut first, " is a file in one version and a directory in another.");
        logs.push(first);
        let file = if left_dir { &right } else { &left };
        let branch = if left_dir { right_name } else { left_name };
        let untracked = match file {
            Some(f) => {
                let target = rename_of(path, branch);
                let mut m = copy_str("  Renaming file version to ");
                push_str(&mut m, target.as_str());
                logs.push(m);
                Some((target, copy_entry(f)))
            },
            None => None,
        };
        let res = PathResolution { logs, conflict: true, clean: None, remove_clean: true, untracked };
        proof {
            let o = resolve_path_spec(path@, rec(base), rec(left), rec(right), left_name@, right_name@, cv);
            assert(resolution_view(res).logs =~= o->0.logs);
        }
        return Some(res);
    }
    if rec_eq(&left, &right) {
        let clean = if left.is_some() && !rec_eq(&left, &base) { Some(copy_opt(&left)) } else { None };
        let res = PathResolution { logs: Vec::new(), conflict: false, clean, remove_clean: false, untracked: None };
        assert(resolution_view(res).logs =~= Seq::<Seq<char>>::empty());
        return Some(res);
    }
    let oids = merge3_oid(oid_of(&base), oid_of(&left), oid_of(&right));
    if !left_dir && !right_dir && oids.is_none() && content.is_none() {
        return None;
    }
    let auto = left.is_some() && right.is_some() && !rec_eq(&left, &base) && !rec_eq(&right, &base) && !left_dir && !right_dir;
    let modes = merge_modes(mode_of(&base), mode_of(&left), mode_of(&right));
    let (oid_ok, merged_oid): (bool, String) = match oids {
        Some(o) => (true, o),
        None => if left_dir || right_dir {
            (false, match oid_of(&left) { Some(o) => copy_str(o), None => String::new() })
        } else {
            match content {
                Some(c) => c,
                None => (false, String::new()),
            }
        },
    };
    let merged: Option<DatabaseEntry> = if (left.is_some() || right.is_some()) && !crate::text::str_is_empty(merged_oid.as_str()) {
        let mode_text = crate::vcs::file_mode::FileMode::to_octal_string(modes.1);
        Some(DatabaseEntry::new(copy_str(path), merged_oid, mode_text.as_str()))
    } else {
        None
    };
    let conflict = !oid_ok || !modes.0;
    let mut logs: Vec<String> = Vec::new();
    if auto {
        logs.push(concat("Auto-merging ", path));
    }
    let ghost auto_logs = logs@.map_values(|l: String| l@);
    if conflict {
        let rename = if left_dir && right.is_some() {
            Some(rename_of(path, right_name))
        } else if right_dir && left.is_some() {
            Some(rename_of(path, left_name))
        } else {
            None
        };
        match conflict_message(path, &base, &left, &right, rename, left_name, right_name) {
            Some(m) => {
                logs.push(m);
            },
            None => {},
        }
    }
    let clean = if !rec_eq(&merged, &base) { Some(merged) } else { None };
    let res = PathResolution { logs, conflict, clean, remove_clean: false, untracked: None };
    proof {
        let o = resolve_path_spec(path@, rec(base), rec(left), rec(right), left_name@, right_name@, cv);
        assert(auto_logs =~= (if auto { seq!["Auto-merging "@ + path@] } else { Seq::<Seq<char>>::empty() }));
        assert(resolution_view(res).logs =~= o->0.logs);
    }
    Some(res)
}

/// A change of a path between two trees: its old and new entries.
#[derive(Debug)]
pub struct DiffChange {
    pub path: String,
    pub old: Option<DatabaseEntry>,
    pub new: Option<DatabaseEntry>,
}

/// The parents of a path, nearest first, as repeated `Path::parent`
/// gives them, stopping at an empty one; `fuel` bounds the steps.
pub open spec fn parent_chain(p: Seq<char>, fuel: nat) -> Seq<Seq<char>>
    decreases fuel,
{
    if fuel == 0 {
        Seq::empty()
    } else {
        match path_parent(p) {
            None => Seq::empty(),
            Some(q) => if q.len() == 0 { Seq::empty() } else { seq![q] + parent_chain(q, (fuel - 1) as nat) },
        }
    }
}

/// The diff changes `q` into something (adds or modifies it).
pub open spec fn changed_in(diff: Seq<DiffChange>, q: Seq<char>) -> bool {
    exists|i: int| 0 <= i < diff.len() && diff[i].path@ == q && (#[trigger] diff[i]).new is Some
}

/// The first of `chain` that the diff changes into something.
pub open spec fn first_changed(chain: Seq<Seq<char>>, diff: Seq<DiffChange>) -> Option<Seq<char>>
    decreases chain.len(),
{
    if chain.len() == 0 {
        None
    } else if changed_in(diff, chain[0]) {
        Some(chain[0])
    } else {
        first_changed(chain.drop_first(), diff)
    }
}

/// Whether the diff changes `q` into something.
fn is_changed_in(diff: &Vec<DiffChange>, q: &str) -> (r: bool)
    ensures
        r == changed_in(diff@, q@),
{
    let mut i: usize = 0;
    while i < diff.len()
        invariant
            i <= diff@.len(),
            forall|j: int| 0 <= j < i ==> !(diff@[j].path@ == q@ && (#[trigger] diff@[j]).new is Some),
        decreases diff@.len() - i,
    {
        if str_eq(diff[i].path.as_str(), q) && diff[i].new.is_some() {
            assert(diff@[i as int].path@ == q@ && diff@[i as int].new is Some);
            return true;
        }
        i += 1;
    }
    false
}

/// The nearest parent directory of a file that the other side's diff
/// adds or modifies: where the file and a directory change conflict.
pub fn check_parent_dir_conflict(file_path: &str, other_diff: &Vec<DiffChange>) -> (r: Option<String>)
    ensures
        match r { Some(q) => Some(q@), None => None::<Seq<char>> } == first_changed(parent_chain(file_path@, (file_path@.len() + 1) as nat), other_diff@),
{
    let ghost fuel: nat = (file_path@.len() + 1) as nat;
    let ghost target = first_changed(parent_chain(file_path@, fuel), other_diff@);
    let mut current = copy_str(file_path);
    let ghost mut remaining: nat = fuel;
    loop
        invariant
            current@.len() + 1 <= remaining,
            fuel == (file_path@.len() + 1) as nat,
            target == first_changed(parent_chain(current@, remaining), other_diff@),
            target == first_changed(parent_chain(file_path@, fuel), other_diff@),
        decreases current@.len(),
    {
        assert(remaining >= 1);
        match crate::paths::parent_of(current.as_str()) {
            None => {
                assert(parent_chain(current@, remaining) =~= Seq::<Seq<char>>::empty());
                return None;
            },
            Some(parent) => {
                if crate::text::str_is_empty(parent.as_str()) {
                    assert(parent_chain(current@, remaining) =~= Seq::<Seq<char>>::empty());
                    return None;
                }
                let ghost chain = parent_chain(current@, remaining);
                assert(chain == seq![parent@] + parent_chain(parent@, (remaining - 1) as nat));
                assert(chain[0] == parent@);
                assert(chain.drop_first() =~= parent_chain(parent@, (remaining - 1) as nat));
                if is_changed_in(other_diff, parent.as_str()) {
                    return Some(parent);
                }
                proof {
                    remaining = (remaining - 1) as nat;
                }
                current = parent;
            },
        }
    }
}

/// The message logged when a file's change conflicts with a change of a
/// parent directory on the other side.
pub fn parent_dir_conflict_message(file_path: &str, parent: &str, branch: &str) -> (m: String)
    ensures
        m@ == "CONFLICT (directory/file): Modification of file '"@ + file_path@ + "' conflicts with modification of parent directory '"@
            + parent@ + "' in branch '"@ + branch@ + "'"@,
{
    let mut m = copy_str("CONFLICT (directory/file): Modification of file '");
    push_str(&mut m, file_path);
    push_str(&mut m, "' conflicts with modification of parent directory '");
    push_str(&mut m, parent);
    push_str(&mut m, "' in branch '");
    push_str(&mut m, branch);
    push_str(&mut m, "'");
    m
}

} // verus!
