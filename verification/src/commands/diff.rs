//! Showing differences between the working tree, the index and HEAD.
use vstd::prelude::*;
use crate::text::{texts, copy_str, push_str};
use crate::errors::error::Error;

verus! {

/// Shows what changed.
pub struct DiffCommand;

/// Each line behind a sign, on its own line.
pub open spec fn signed_lines(sign: Seq<char>, lines: Seq<Seq<char>>) -> Seq<char>
    decreases lines.len(),
{
    if lines.len() == 0 {
        Seq::empty()
    } else {
        signed_lines(sign, lines.drop_last()) + sign + lines.last() + "\n"@
    }
}

/// The first line of the diff of a path.
pub open spec fn diff_header(path: Seq<char>) -> Seq<char> {
    "diff --ash a/"@ + path + " b/"@ + path + "\n"@
}

/// The diff of a file that the working tree no longer has.
pub open spec fn deleted_text(path: Seq<char>, mode: Seq<char>, lines: Seq<Seq<char>>) -> Seq<char> {
    diff_header(path) + "deleted file mode "@ + mode + "\n--- a/"@ + path + "\n+++ /dev/null\n"@ + signed_lines("-"@, lines)
}

/// The diff of a file that HEAD does not have.
pub open spec fn added_text(path: Seq<char>, mode: Seq<char>, lines: Seq<Seq<char>>) -> Seq<char> {
    diff_header(path) + "new file mode "@ + mode + "\n--- /dev/null\n+++ b/"@ + path + "\n"@ + signed_lines("+"@, lines)
}

/// The diff of a file of HEAD that the index no longer has.
pub open spec fn unstaged_removal_text(path: Seq<char>, lines: Seq<Seq<char>>) -> Seq<char> {
    diff_header(path) + "deleted file\n--- a/"@ + path + "\n+++ /dev/null\n"@ + signed_lines("-"@, lines)
}

/// Appends each line behind a sign.
fn push_signed(s: &mut String, sign: &str, lines: &Vec<String>)
    ensures
        final(s)@ == old(s)@ + signed_lines(sign@, texts(lines@)),
{
    let mut i: usize = 0;
    assert(texts(lines@).take(0) =~= Seq::<Seq<char>>::empty());
    while i < lines.len()
        invariant
            i <= lines@.len(),
            s@ == old(s)@ + signed_lines(sign@, texts(lines@).take(i as int)),
        decreases lines@.len() - i,
    {
        push_str(s, sign);
        push_str(s, lines[i].as_str());
        push_str(s, "\n");
        assert(texts(lines@).take(i + 1).drop_last() =~= texts(lines@).take(i as int));
        i += 1;
    }
    assert(texts(lines@).take(lines@.len() as int) =~= texts(lines@));
}

/// The header line of the diff of a path.
fn header(path: &str) -> (s: String)
    ensures
        s@ == diff_header(path@),
{
    let mut s = copy_str("diff --ash a/");
    push_str(&mut s, path);
    push_str(&mut s, " b/");
    push_str(&mut s, path);
    push_str(&mut s, "\n");
    s
}

impl DiffCommand {
    /// The error when there is no repository here.
    pub fn no_repository_error() -> (e: Error)
        ensures
            e matches Error::Generic(m)
                && m@ == "fatal: not an ash repository (or any of the parent directories): .ash directory not found"@,
    {
        Error::Generic(copy_str("fatal: not an ash repository (or any of the parent directories): .ash directory not found"))
    }

    /// The error when HEAD names something other than a commit.
    pub fn head_not_commit_error() -> (e: Error)
        ensures
            e matches Error::Generic(m) && m@ == "HEAD is not a commit"@,
    {
        Error::Generic(copy_str("HEAD is not a commit"))
    }

    /// The diff of an indexed file missing from the working tree: every
    /// line of the indexed version removed.
    pub fn deleted_file(path: &str, mode: &str, lines: &Vec<String>) -> (s: String)
        ensures
            s@ == deleted_text(path@, mode@, texts(lines@)),
    {
        let mut s = header(path);
        push_str(&mut s, "deleted file mode ");
        push_str(&mut s, mode);
        push_str(&mut s, "\n--- a/");
        push_str(&mut s, path);
        push_str(&mut s, "\n+++ /dev/null\n");
        push_signed(&mut s, "-", lines);
        s
    }

    /// The diff of an indexed file that HEAD lacks: every line added.
    pub fn new_file(path: &str, mode: &str, lines: &Vec<String>) -> (s: String)
        ensures
            s@ == added_text(path@, mode@, texts(lines@)),
    {
        let mut s = header(path);
        push_str(&mut s, "new file mode ");
        push_str(&mut s, mode);
        push_str(&mut s, "\n--- /dev/null\n+++ b/");
        push_str(&mut s, path);
        push_str(&mut s, "\n");
        push_signed(&mut s, "+", lines);
        s
    }

    /// The diff of a file of HEAD removed from the index.
    pub fn removed_from_index(path: &str, lines: &Vec<String>) -> (s: String)
        ensures
            s@ == unstaged_removal_text(path@, texts(lines@)),
    {
        let mut s = header(path);
        push_str(&mut s, "deleted file\n--- a/");
        push_str(&mut s, path);
        push_str(&mut s, "\n+++ /dev/null\n");
        push_signed(&mut s, "-", lines);
        s
    }

    /// The header line of a changed file.
    pub fn changed_header(path: &str) -> (s: String)
        ensures
            s@ == diff_header(path@),
    {
        header(path)
    }

    /// What is printed for a path the index does not hold.
    pub fn unknown_path_line(path: &str, exists: bool) -> (s: String)
        ensures
            s@ == "error: path '"@ + path@ + (if exists { "' is untracked"@ } else { "' does not exist"@ }),
    {
        let mut s = copy_str("error: path '");
        push_str(&mut s, path);
        if exists {
            push_str(&mut s, "' is untracked");
        } else {
            push_str(&mut s, "' does not exist");
        }
        s
    }

    /// The files of HEAD that the comparison with the index uses, as this
    /// command collects them: under the root tree it lists one fixed entry,
    /// `src/commands/diff.rs` with the id `placeholder_oid`, and nothing
    /// under any other prefix.
    pub fn collect_files_from_tree(prefix: &str) -> (r: Vec<(String, String)>)
        ensures
            prefix@.len() == 0 ==> r@.len() == 1 && r@[0].0@ == "src/commands/diff.rs"@ && r@[0].1@ == "placeholder_oid"@,
            prefix@.len() > 0 ==> r@.len() == 0,
    {
        let mut r: Vec<(String, String)> = Vec::new();
        if crate::text::str_is_empty(prefix) {
            r.push((copy_str("src/commands/diff.rs"), copy_str("placeholder_oid")));
        }
        r
    }
}

} // verus!
