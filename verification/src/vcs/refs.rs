//! References: HEAD, branches and metadata refs, where they are stored and
//! what they hold.
use vstd::prelude::*;
use crate::text::{copy_str, concat, push_str, str_eq, contains_seq};
use crate::stdtext::trim;
use crate::paths::joined;
use crate::errors::error::Error;

verus! {

/// What a reference holds: the path of another reference, or an object id.
#[derive(Debug, Clone)]
pub enum Reference {
    Symbolic(String),
    Direct(String),
}

/// A character that a branch name may not hold: a control character or
/// space, `*`, `:`, `?`, `[`, `\`, `^`, `~`, or delete.
pub open spec fn forbidden_in_branch(c: char) -> bool {
    (c as u32) <= 0x20 || c == '*' || c == ':' || c == '?' || c == '[' || c == '\\' || c == '^' || c == '~' || (c as u32) == 0x7f
}

/// What the pattern of invalid branch names matches: a name that starts
/// with `.` or `/`, ends with `/` or `.lock`, holds `/.`, `..` or `@{`, or
/// holds a forbidden character.
pub open spec fn invalid_branch_name(n: Seq<char>) -> bool {
    ||| (n.len() > 0 && n[0] == '.')
    ||| contains_seq(n, "/."@)
    ||| contains_seq(n, ".."@)
    ||| (n.len() > 0 && n[0] == '/')
    ||| (n.len() > 0 && n.last() == '/')
    ||| ".lock"@.is_suffix_of(n)
    ||| contains_seq(n, "@{"@)
    ||| exists|i: int| 0 <= i < n.len() && forbidden_in_branch(#[trigger] n[i])
}

/// Whether a character is one a branch name may not hold.
fn is_forbidden_in_branch(c: char) -> (r: bool)
    ensures
        r == forbidden_in_branch(c),
{
    (c as u32) <= 0x20 || c == '*' || c == ':' || c == '?' || c == '[' || c == '\\' || c == '^' || c == '~'
        || (c as u32) == 0x7f
}

/// Whether a name is one that branch names may not be.
fn is_invalid_branch_name(name: &str) -> (r: bool)
    ensures
        r == invalid_branch_name(name@),
{
    let n = crate::text::chars_of(name);
    let len = n.len();
    let starts_dot = len > 0 && n[0] == '.';
    let starts_slash = len > 0 && n[0] == '/';
    let ends_slash = len > 0 && n[len - 1] == '/';
    let lock = crate::text::chars_of(".lock");
    proof {
        reveal_strlit(".lock");
    }
    let ends_lock = len >= lock.len()
        && crate::text::chars_eq(crate::text::slice_chars(n.as_slice(), len - lock.len(), len).as_slice(), lock.as_slice());
    let holds_seq = crate::text::str_contains(name, "/.") || crate::text::str_contains(name, "..")
        || crate::text::str_contains(name, "@{");
    let mut forbidden = false;
    let mut i: usize = 0;
    while i < len
        invariant
            i <= len,
            len == n@.len(),
            n@ == name@,
            forbidden <==> exists|j: int| 0 <= j < i && forbidden_in_branch(#[trigger] n@[j]),
        decreases len - i,
    {
        if is_forbidden_in_branch(n[i]) {
            forbidden = true;
        }
        i += 1;
    }
    proof {
        if len >= 5 {
            assert(".lock"@.is_suffix_of(name@) <==> name@.subrange(len - 5, len as int) =~= ".lock"@);
        }
    }
    starts_dot || holds_seq || starts_slash || ends_slash || ends_lock || forbidden
}

/// A reference file to write: its path and content.
#[derive(Debug)]
pub struct RefWrite {
    pub path: String,
    pub content: String,
}

/// The value a reference file gives: its trimmed text, nothing when the
/// file is missing or unreadable.
pub open spec fn ref_value(file: Option<Option<String>>) -> Option<Seq<char>> {
    match file {
        Some(Some(c)) => Some(trim(c@)),
        _ => None,
    }
}

/// The value of the first existing candidate file.
pub open spec fn first_ref_value(files: Seq<Option<Option<String>>>) -> Option<Seq<char>>
    decreases files.len(),
{
    if files.len() == 0 {
        None
    } else if files[0] is Some {
        ref_value(files[0])
    } else {
        first_ref_value(files.drop_first())
    }
}

/// What `update_head(oid)` writes (the id and a newline) reads back through
/// `read_head` as the id, when the id is not empty and has no surrounding
/// whitespace; a missing HEAD file reads as nothing.
pub proof fn lemma_head_read_after_write(oid: Seq<char>, written: Seq<char>)
    requires
        oid.len() > 0,
        !crate::stdtext::whitespace(oid[0]),
        !crate::stdtext::whitespace(oid.last()),
        written == oid + "\n"@,
    ensures
        trim(written) == oid,
        ref_value(None) is None,
{
    reveal_strlit("\n");
    assert(written.len() == oid.len() + 1);
    assert(written[0] == oid[0]);
    assert(crate::stdtext::trim_start(written) == written);
    assert(crate::stdtext::whitespace(written.last()));
    assert(written.drop_last() =~= oid);
    assert(crate::stdtext::trim_end(oid) == oid);
}

/// The references of a repository directory.
pub struct Refs {
    pub pathname: String,
    pub refs_path: String,
    pub heads_path: String,
}

/// The value of a reference file.
fn value_of(file: &Option<Option<String>>) -> (r: Option<String>)
    ensures
        match r { Some(v) => Some(v@), None => None::<Seq<char>> } == ref_value(*file),
{
    match file {
        Some(Some(c)) => {
            let cs = crate::text::chars_of(c.as_str());
            let t = crate::stdtext::trim_chars(cs.as_slice());
            Some(crate::text::string_of(t.as_slice()))
        },
        _ => None,
    }
}

impl Refs {
    /// The references under a repository directory.
    pub fn new(pathname: &str) -> (r: Self)
        ensures
            r.pathname@ == pathname@,
            r.refs_path@ == joined(pathname@, "refs"@),
            r.heads_path@ == joined(joined(pathname@, "refs"@), "heads"@),
    {
        let refs_path = crate::paths::join_path(pathname, "refs");
        let heads_path = crate::paths::join_path(refs_path.as_str(), "heads");
        Refs { pathname: copy_str(pathname), refs_path, heads_path }
    }

    /// The path of HEAD.
    pub fn head_path(&self) -> (p: String)
        ensures
            p@ == joined(self.pathname@, "HEAD"@),
    {
        crate::paths::join_path(self.pathname.as_str(), "HEAD")
    }

    /// The value of HEAD, from its file: nothing when it is missing or
    /// unreadable, else its trimmed text.
    pub fn read_head(&self, head_file: Option<Option<String>>) -> (r: Result<Option<String>, Error>)
        ensures
            r matches Ok(v) && match v { Some(x) => Some(x@), None => None::<Seq<char>> } == ref_value(head_file),
    {
        Ok(value_of(&head_file))
    }

    /// The files a reference name may be stored in, in the order they are
    /// looked at: HEAD for `@` and `HEAD`; else the name under the
    /// repository directory, under `refs`, and under `refs/heads`.
    pub fn ref_paths(&self, name: &str) -> (r: Vec<String>)
        ensures
            crate::text::texts(r@) == if name@ == "@"@ || name@ == "HEAD"@ {
                seq![joined(self.pathname@, "HEAD"@)]
            } else {
                seq![joined(self.pathname@, name@), joined(self.refs_path@, name@), joined(self.heads_path@, name@)]
            },
    {
        let mut r: Vec<String> = Vec::new();
        if str_eq(name, "@") || str_eq(name, "HEAD") {
            r.push(self.head_path());
            assert(crate::text::texts(r@) =~= seq![joined(self.pathname@, "HEAD"@)]);
            return r;
        }
        r.push(crate::paths::join_path(self.pathname.as_str(), name));
        r.push(crate::paths::join_path(self.refs_path.as_str(), name));
        r.push(crate::paths::join_path(self.heads_path.as_str(), name));
        assert(crate::text::texts(r@) =~= seq![joined(self.pathname@, name@), joined(self.refs_path@, name@), joined(self.heads_path@, name@)]);
        r
    }

    /// The value of a reference, from its candidate files in order (each
    /// missing, unreadable, or with its text): the value of the first that
    /// exists.
    pub fn read_ref(&self, name: &str, files: &Vec<Option<Option<String>>>) -> (r: Result<Option<String>, Error>)
        ensures
            r matches Ok(v) && match v { Some(x) => Some(x@), None => None::<Seq<char>> } == first_ref_value(files@),
    {
        let mut i: usize = 0;
        assert(files@.skip(0) =~= files@);
        while i < files.len()
            invariant
                i <= files@.len(),
                first_ref_value(files@) == first_ref_value(files@.skip(i as int)),
            decreases files@.len() - i,
        {
            assert(files@.skip(i as int)[0] == files@[i as int]);
            if files[i].is_some() {
                return Ok(value_of(&files[i]));
            }
            assert(files@.skip(i as int).drop_first() =~= files@.skip(i + 1));
            i += 1;
        }
        assert(files@.skip(i as int) =~= Seq::<Option<Option<String>>>::empty());
        Ok(None)
    }

    /// The write that points HEAD at `oid`.
    pub fn update_head(&self, oid: &str) -> (w: RefWrite)
        ensures
            w.path@ == joined(self.pathname@, "HEAD"@),
            w.content@ == oid@ + "\n"@,
    {
        let mut content = copy_str(oid);
        push_str(&mut content, "\n");
        RefWrite { path: self.head_path(), content }
    }

    /// Whether a name can be a branch's: not empty, and not matched by the
    /// pattern of invalid names.
    pub fn is_valid_branch_name(name: &str) -> (r: bool)
        ensures
            r == (name@.len() > 0 && !invalid_branch_name(name@)),
    {
        if crate::text::str_is_empty(name) {
            return false;
        }
        !is_invalid_branch_name(name)
    }

    /// The path of a branch.
    pub fn branch_path(&self, name: &str) -> (p: String)
        ensures
            p@ == joined(self.heads_path@, name@),
    {
        crate::paths::join_path(self.heads_path.as_str(), name)
    }

    /// The write that creates a branch at `oid`; refused for an invalid
    /// name, and for a branch that exists (`exists`, whether its file does).
    pub fn create_branch(&self, branch_name: &str, oid: &str, exists: bool) -> (r: Result<RefWrite, Error>)
        ensures
            !(branch_name@.len() > 0 && !invalid_branch_name(branch_name@)) ==>
                (r matches Err(Error::Generic(m)) && m@ == "'"@ + branch_name@ + "' is not a valid branch name."@),
            (branch_name@.len() > 0 && !invalid_branch_name(branch_name@)) && exists ==>
                (r matches Err(Error::Generic(m)) && m@ == "A branch named '"@ + branch_name@ + "' already exists."@),
            (branch_name@.len() > 0 && !invalid_branch_name(branch_name@)) && !exists ==>
                (r matches Ok(w) && w.path@ == joined(self.heads_path@, branch_name@) && w.content@ == oid@ + "\n"@),
    {
        if !Self::is_valid_branch_name(branch_name) {
            let mut m = copy_str("'");
            push_str(&mut m, branch_name);
            push_str(&mut m, "' is not a valid branch name.");
            return Err(Error::Generic(m));
        }
        if exists {
            let mut m = copy_str("A branch named '");
            push_str(&mut m, branch_name);
            push_str(&mut m, "' already exists.");
            return Err(Error::Generic(m));
        }
        let mut content = copy_str(oid);
        push_str(&mut content, "\n");
        Ok(RefWrite { path: self.branch_path(branch_name), content })
    }
}

} // verus!
