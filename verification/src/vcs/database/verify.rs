//! Checking a stored commit: its header, its fields, and the entries of its
//! tree, read from the decompressed objects.
use vstd::prelude::*;
use crate::text::{copy_str, push_str, concat};
use crate::stdtext::{lossy_text, trim};
use crate::bytes::{first_index_of, lemma_first_index_of};
use crate::numeral::parse_radix_spec;
use crate::digest::hex_of;
use crate::errors::error::Error;
use crate::vcs::diff::diff::lines_of;
use crate::vcs::diff::myers::lines_view;

verus! {

/// What a check of a commit found.
pub struct CommitVerificationResult {
    pub commit_oid: String,
    pub tree_oid: String,
    pub parent_oid: Option<String>,
    pub author: String,
    pub committer: String,
    pub message: String,
    pub tree_entries: Vec<TreeEntry>,
}

/// An entry of a checked tree: its mode, name, id, kind (`blob` or
/// `tree`), and whether the database holds the object.
pub struct TreeEntry {
    pub mode: String,
    pub name: String,
    pub sha: String,
    pub entry_type: String,
    pub exists: bool,
}

/// The fields read from a commit's text, and whether its header's size
/// matched the content.
pub struct CommitFields {
    pub tree_oid: String,
    pub parent_oid: Option<String>,
    pub author: String,
    pub committer: String,
    pub message: String,
    pub size_matches: bool,
}

/// The fields gathered so far: tree, parent, author, committer, message,
/// and whether the message has begun.
pub type Scan = (Seq<char>, Option<Seq<char>>, Seq<char>, Seq<char>, Seq<char>, bool);

/// One line read into the fields: once the message has begun every line
/// joins it; an empty line begins it; else a line sets the field it names.
pub open spec fn scan_line(f: Scan, line: Seq<char>) -> Scan {
    if f.5 {
        (f.0, f.1, f.2, f.3, f.4 + line + "\n"@, true)
    } else if line.len() == 0 {
        (f.0, f.1, f.2, f.3, f.4, true)
    } else if "tree "@.is_prefix_of(line) {
        (line.skip(5), f.1, f.2, f.3, f.4, false)
    } else if "parent "@.is_prefix_of(line) {
        (f.0, Some(line.skip(7)), f.2, f.3, f.4, false)
    } else if "author "@.is_prefix_of(line) {
        (f.0, f.1, line.skip(7), f.3, f.4, false)
    } else if "committer "@.is_prefix_of(line) {
        (f.0, f.1, f.2, line.skip(10), f.4, false)
    } else {
        f
    }
}

/// The lines read into the fields, in order.
pub open spec fn scan_lines(lines: Seq<Seq<char>>) -> Scan
    decreases lines.len(),
{
    if lines.len() == 0 {
        (Seq::empty(), None, Seq::empty(), Seq::empty(), Seq::empty(), false)
    } else {
        scan_line(scan_lines(lines.drop_last()), lines.last())
    }
}

/// What a decompressed commit object gives: an error for a missing zero
/// byte, a header not naming a commit, a size that is no number, or a
/// commit without a tree; else its tree, parent, author, committer,
/// trimmed message, and whether the size matched.
pub open spec fn commit_check(data: Seq<u8>) -> Result<(Seq<char>, Option<Seq<char>>, Seq<char>, Seq<char>, Seq<char>, bool), Seq<char>> {
    match first_index_of(data, 0u8) {
        None => Err("Invalid object format: missing null byte"@),
        Some(k) => {
            let header = lossy_text(data.take(k));
            if !"commit "@.is_prefix_of(header) {
                Err("Invalid commit header: "@ + header)
            } else {
                match parse_radix_spec(header.skip(7), 10, usize::MAX as nat) {
                    None => Err("Invalid commit size in header"@),
                    Some(n) => {
                        let f = scan_lines(lines_of(lossy_text(data.skip(k + 1))));
                        if f.0.len() == 0 {
                            Err("Commit-ul nu conține o referință la tree"@)
                        } else {
                            Ok((f.0, f.1, f.2, f.3, trim(f.4), n == data.len() - k - 1))
                        }
                    },
                }
            }
        },
    }
}

/// An entry's kind by its mode: a mode starting with `100` is a blob.
pub open spec fn kind_of(mode: Seq<char>) -> Seq<char> {
    if "100"@.is_prefix_of(mode) { "blob"@ } else { "tree"@ }
}

/// A listed entry: mode, name, id and kind.
pub type Listed = (Seq<char>, Seq<char>, Seq<char>, Seq<char>);

/// The entries of a tree's content: each is a mode, a space, a name, a
/// zero byte and a twenty-byte id; an error names what is missing.
pub open spec fn listing(rest: Seq<u8>) -> Result<Seq<Listed>, Seq<char>>
    decreases rest.len(),
{
    if rest.len() == 0 {
        Ok(Seq::empty())
    } else {
        match first_index_of(rest, 32u8) {
            None => Err("Invalid tree entry: missing space"@),
            Some(s) => {
                let after = rest.skip(s + 1);
                match first_index_of(after, 0u8) {
                    None => Err("Invalid tree entry: missing null"@),
                    Some(z) => {
                        let tail = after.skip(z + 1);
                        if tail.len() < 20 {
                            Err("Invalid tree entry: truncated SHA-1"@)
                        } else {
                            let mode = lossy_text(rest.take(s));
                            let entry = (mode, lossy_text(after.take(z)), hex_of(tail.take(20)), kind_of(mode));
                            proof {
                                lemma_first_index_of(rest, 32u8);
                                lemma_first_index_of(after, 0u8);
                            }
                            match listing(tail.skip(20)) {
                                Ok(more) => Ok(seq![entry] + more),
                                Err(e) => Err(e),
                            }
                        }
                    },
                }
            },
        }
    }
}

/// What a decompressed tree object gives: an error for a missing zero byte
/// or a header not naming a tree, else the listing of its content.
pub open spec fn tree_check(data: Seq<u8>) -> Result<Seq<Listed>, Seq<char>> {
    match first_index_of(data, 0u8) {
        None => Err("Invalid tree format: missing null byte"@),
        Some(k) => {
            let header = lossy_text(data.take(k));
            if !"tree "@.is_prefix_of(header) {
                Err("Invalid tree header: "@ + header)
            } else {
                listing(data.skip(k + 1))
            }
        },
    }
}

/// The view of a checked entry (without whether it exists).
pub open spec fn listed_view(e: TreeEntry) -> Listed {
    (e.mode@, e.name@, e.sha@, e.entry_type@)
}

/// A generic error with a message.
fn fail<T>(m: String) -> (r: Result<T, Error>)
    ensures
        r matches Err(Error::Generic(x)) && x@ == m@,
{
    Err(Error::Generic(m))
}

/// Whether `p` begins `s`.
fn begins(s: &str, p: &str) -> (r: bool)
    ensures
        r == p@.is_prefix_of(s@),
{
    crate::text::str_starts_with(s, p)
}

/// What follows the first `n` characters.
fn after(s: &str, n: usize) -> (r: String)
    requires
        n <= s@.len(),
    ensures
        r@ == s@.skip(n as int),
{
    let cs = crate::text::chars_of(s);
    let rest = crate::text::slice_chars(cs.as_slice(), n, cs.len());
    assert(rest@ =~= s@.skip(n as int));
    crate::text::string_of(rest.as_slice())
}

/// Checks a commit's text (see `commit_check`).
pub fn check_commit(data: &[u8]) -> (r: Result<CommitFields, Error>)
    ensures
        match commit_check(data@) {
            Err(m) => r matches Err(Error::Generic(x)) && x@ == m,
            Ok(f) => r matches Ok(c) && c.tree_oid@ == f.0
                && (match c.parent_oid { Some(p) => Some(p@), None => None::<Seq<char>> }) == f.1
                && c.author@ == f.2 && c.committer@ == f.3 && c.message@ == f.4 && c.size_matches == f.5,
        },
{
    let dl = data.len();
    assert(data@.subrange(0, data@.len() as int) =~= data@);
    let k = match crate::bytes::find_byte(data, 0, 0u8) {
        Some(k) => k,
        None => {
            return fail(copy_str("Invalid object format: missing null byte"));
        },
    };
    assert(data@.subrange(0, data@.len() as int) =~= data@);
    let head_bytes = crate::bytes::slice_bytes(data, 0, k);
    let header = crate::stdtext::utf8_lossy(head_bytes.as_slice());
    assert(head_bytes@ =~= data@.take(k as int));
    proof {
        reveal_strlit("commit ");
    }
    if !begins(header.as_str(), "commit ") {
        return fail(concat("Invalid commit header: ", header.as_str()));
    }
    let size_text = after(header.as_str(), 7);
    let size_chars = crate::text::chars_of(size_text.as_str());
    let size = crate::numeral::parse_radix(size_chars.as_slice(), 10, usize::MAX as u64);
    let n = match size {
        Some(n) => n,
        None => {
            return fail(copy_str("Invalid commit size in header"));
        },
    };
    let body_bytes = crate::bytes::slice_bytes(data, k + 1, data.len());
    assert(body_bytes@ =~= data@.skip(k + 1));
    let body = crate::stdtext::utf8_lossy(body_bytes.as_slice());
    let lines = crate::vcs::diff::diff::split_lines(body.as_str());
    let ghost ls = lines_of(body@);
    let mut tree = String::new();
    let mut parent: Option<String> = None;
    let mut author = String::new();
    let mut committer = String::new();
    let mut message = String::new();
    let mut in_message = false;
    let mut i: usize = 0;
    assert(ls.take(0) =~= Seq::<Seq<char>>::empty());
    proof {
        reveal_strlit("tree ");
        reveal_strlit("parent ");
        reveal_strlit("author ");
        reveal_strlit("committer ");
    }
    while i < lines.len()
        invariant
            i <= lines@.len(),
            lines_view(lines@) == ls,
            scan_lines(ls.take(i as int)) == (tree@, match parent { Some(p) => Some(p@), None => None::<Seq<char>> },
                author@, committer@, message@, in_message),
        decreases lines@.len() - i,
    {
        let line = lines[i].as_str();
        proof {
            reveal_strlit("tree ");
            reveal_strlit("parent ");
            reveal_strlit("author ");
            reveal_strlit("committer ");
        }
        assert(ls[i as int] == line@);
        assert(ls.take(i + 1).drop_last() =~= ls.take(i as int));
        if in_message {
            push_str(&mut message, line);
            push_str(&mut message, "\n");
        } else if crate::text::str_is_empty(line) {
            in_message = true;
        } else if begins(line, "tree ") {
            tree = after(line, 5);
        } else if begins(line, "parent ") {
            parent = Some(after(line, 7));
        } else if begins(line, "author ") {
            author = after(line, 7);
        } else if begins(line, "committer ") {
            committer = after(line, 10);
        }
        i += 1;
    }
    assert(ls.take(ls.len() as int) =~= ls);
    let mc = crate::text::chars_of(message.as_str());
    let mt = crate::stdtext::trim_chars(mc.as_slice());
    let message = crate::text::string_of(mt.as_slice());
    if crate::text::str_is_empty(tree.as_str()) {
        return fail(copy_str("Commit-ul nu conține o referință la tree"));
    }
    let size_matches = n as usize == data.len() - k - 1;
    Ok(CommitFields { tree_oid: tree, parent_oid: parent, author, committer, message, size_matches })
}

/// Checks a tree's text (see `tree_check`); no entry is marked as existing
/// yet.
pub fn check_tree(data: &[u8]) -> (r: Result<Vec<TreeEntry>, Error>)
    ensures
        match tree_check(data@) {
            Err(m) => r matches Err(Error::Generic(x)) && x@ == m,
            Ok(es) => r matches Ok(v) && v@.map_values(|e: TreeEntry| listed_view(e)) == es
                && forall|j: int| 0 <= j < v@.len() ==> !(#[trigger] v@[j]).exists,
        },
{
    let dl = data.len();
    assert(data@.subrange(0, data@.len() as int) =~= data@);
    let k = match crate::bytes::find_byte(data, 0, 0u8) {
        Some(k) => k,
        None => {
            return fail(copy_str("Invalid tree format: missing null byte"));
        },
    };
    let head_bytes = crate::bytes::slice_bytes(data, 0, k);
    let header = crate::stdtext::utf8_lossy(head_bytes.as_slice());
    assert(head_bytes@ =~= data@.take(k as int));
    proof {
        reveal_strlit("tree ");
    }
    if !begins(header.as_str(), "tree ") {
        return fail(concat("Invalid tree header: ", header.as_str()));
    }
    let mut entries: Vec<TreeEntry> = Vec::new();
    let mut pos: usize = k + 1;
    let ghost whole = listing(data@.skip(k + 1));
    assert(data@.skip(k + 1) =~= data@.subrange(pos as int, data@.len() as int));
    proof {
        reveal_strlit("100");
    }
    assert(tree_check(data@) == whole);
    while pos < data.len()
        invariant
            k + 1 <= pos <= data@.len(),
            whole == listing(data@.skip(k + 1)),
            tree_check(data@) == whole,
            whole == match listing(data@.subrange(pos as int, data@.len() as int)) {
                Ok(more) => Ok(entries@.map_values(|e: TreeEntry| listed_view(e)) + more),
                Err(e) => Err::<Seq<Listed>, Seq<char>>(e),
            },
            forall|j: int| 0 <= j < entries@.len() ==> !(#[trigger] entries@[j]).exists,
        decreases data@.len() - pos,
    {
        let ghost rest = data@.subrange(pos as int, data@.len() as int);
        let sp = match crate::bytes::find_byte(data, pos, 32u8) {
            Some(s) => s,
            None => {
                return fail(copy_str("Invalid tree entry: missing space"));
            },
        };
        let mode_bytes = crate::bytes::slice_bytes(data, pos, sp);
        let mode = crate::stdtext::utf8_lossy(mode_bytes.as_slice());
        assert(mode_bytes@ =~= rest.take(sp - pos));
        let ghost after_space = rest.skip(sp - pos + 1);
        assert(after_space =~= data@.subrange(sp + 1, data@.len() as int));
        let z = match crate::bytes::find_byte(data, sp + 1, 0u8) {
            Some(z) => z,
            None => {
                return fail(copy_str("Invalid tree entry: missing null"));
            },
        };
        let name_bytes = crate::bytes::slice_bytes(data, sp + 1, z);
        let name = crate::stdtext::utf8_lossy(name_bytes.as_slice());
        assert(name_bytes@ =~= after_space.take(z - sp - 1));
        let ghost tail = after_space.skip(z - sp);
        assert(tail =~= data@.subrange(z + 1, data@.len() as int));
        if data.len() - (z + 1) < 20 {
            return fail(copy_str("Invalid tree entry: truncated SHA-1"));
        }
        let id_bytes = crate::bytes::slice_bytes(data, z + 1, z + 21);
        assert(id_bytes@ =~= tail.take(20));
        let sha = crate::digest::hex_encode(id_bytes.as_slice());
        proof {
            reveal_strlit("100");
        }
        let entry_type = if begins(mode.as_str(), "100") { copy_str("blob") } else { copy_str("tree") };
        let ghost before = entries@.map_values(|e: TreeEntry| listed_view(e));
        entries.push(TreeEntry { mode, name, sha, entry_type, exists: false });
        pos = z + 21;
        proof {
            assert(tail.skip(20) =~= data@.subrange(pos as int, data@.len() as int));
            assert(entries@.map_values(|e: TreeEntry| listed_view(e)) =~= before.push(listed_view(entries@.last())));
            match listing(data@.subrange(pos as int, data@.len() as int)) {
                Ok(more) => {
                    assert(before.push(listed_view(entries@.last())) + more =~= before + (seq![listed_view(entries@.last())] + more));
                },
                Err(_) => {},
            }
        }
    }
    assert(data@.subrange(pos as int, data@.len() as int) =~= Seq::<u8>::empty());
    assert(entries@.map_values(|e: TreeEntry| listed_view(e)) + Seq::<Listed>::empty() =~= entries@.map_values(|e: TreeEntry| listed_view(e)));
    Ok(entries)
}

/// Checks what a commit links to, in order: the tree must exist, then the
/// parent if there is one, then the commit must name an author.
pub fn check_links(fields: &CommitFields, tree_exists: bool, parent_exists: bool) -> (r: Result<(), Error>)
    ensures
        !tree_exists ==> (r matches Err(Error::Generic(m)) && m@ == "Tree-ul "@ + fields.tree_oid@ + " nu există"@),
        tree_exists && fields.parent_oid is Some && !parent_exists ==> (r matches Err(Error::Generic(m))
            && m@ == "Parent-ul "@ + fields.parent_oid->0@ + " nu există"@),
        tree_exists && (fields.parent_oid is None || parent_exists) && fields.author@.len() == 0 ==> (r matches Err(Error::Generic(m))
            && m@ == "Commit-ul nu conține informații despre autor"@),
        r is Ok <==> tree_exists && (fields.parent_oid is None || parent_exists) && fields.author@.len() > 0,
{
    if !tree_exists {
        let mut m = copy_str("Tree-ul ");
        push_str(&mut m, fields.tree_oid.as_str());
        push_str(&mut m, " nu există");
        return fail(m);
    }
    if let Some(p) = &fields.parent_oid {
        if !parent_exists {
            let mut m = copy_str("Parent-ul ");
            push_str(&mut m, p.as_str());
            push_str(&mut m, " nu există");
            return fail(m);
        }
    }
    if crate::text::str_is_empty(fields.author.as_str()) {
        return fail(copy_str("Commit-ul nu conține informații despre autor"));
    }
    Ok(())
}

/// The error when an object is not in the database.
pub fn missing_commit_error(oid: &str) -> (e: Error)
    ensures
        e matches Error::Generic(m) && m@ == "Commit-ul "@ + oid@ + " nu există"@,
{
    let mut m = copy_str("Commit-ul ");
    push_str(&mut m, oid);
    push_str(&mut m, " nu există");
    Error::Generic(m)
}

/// The result of a check that passed.
pub fn verification_result(oid: &str, fields: CommitFields, entries: Vec<TreeEntry>) -> (r: CommitVerificationResult)
    ensures
        r.commit_oid@ == oid@,
        r.tree_oid@ == fields.tree_oid@,
        r.parent_oid == fields.parent_oid,
        r.author@ == fields.author@,
        r.committer@ == fields.committer@,
        r.message@ == fields.message@,
        r.tree_entries@ == entries@,
{
    CommitVerificationResult {
        commit_oid: copy_str(oid),
        tree_oid: fields.tree_oid,
        parent_oid: fields.parent_oid,
        author: fields.author,
        committer: fields.committer,
        message: fields.message,
        tree_entries: entries,
    }
}

} // verus!
