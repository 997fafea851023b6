//! Undoing a commit with a new one.
use vstd::prelude::*;
use crate::text::{texts, copy_str, push_str, concat, contains_seq};
use crate::stdtext::trim;
use crate::errors::error::{Error, error_message};

verus! {

/// Reverts a commit.
pub struct RevertCommand;

/// The message of the commit that reverts a commit.
pub open spec fn revert_message(title: Seq<char>, oid: Seq<char>) -> Seq<char> {
    "Revert \""@ + trim(title) + "\"\n\nThis reverts commit "@ + oid + "."@
}

/// The refusal for uncommitted changes: a heading and one indented line
/// per path.
pub open spec fn uncommitted_message(paths: Seq<Seq<char>>) -> Seq<char>
    decreases paths.len(),
{
    if paths.len() == 0 {
        "Cannot revert with uncommitted changes. Please commit or stash them first:\n"@
    } else {
        uncommitted_message(paths.drop_last()) + "  "@ + paths.last() + "\n"@
    }
}

/// The first seven characters of an id (all of a shorter one).
pub open spec fn short7(oid: Seq<char>) -> Seq<char> {
    oid.take(if oid.len() < 7 { oid.len() as int } else { 7 })
}

impl RevertCommand {
    /// The message of the commit that reverts the commit `oid` titled
    /// `title`.
    pub fn revert_commit_message(title: &str, oid: &str) -> (s: String)
        ensures
            s@ == revert_message(title@, oid@),
    {
        let tc = crate::text::chars_of(title);
        let t = crate::stdtext::trim_chars(tc.as_slice());
        let mut s = copy_str("Revert \"");
        crate::text::push_chars(&mut s, t.as_slice());
        push_str(&mut s, "\"\n\nThis reverts commit ");
        push_str(&mut s, oid);
        push_str(&mut s, ".");
        s
    }

    /// The name the reverted commit's parent goes by in the merge.
    pub fn parent_name(oid: &str) -> (s: String)
        ensures
            s@ == "parent of "@ + oid@,
    {
        concat("parent of ", oid)
    }

    /// The first seven characters of an id.
    pub fn short_oid(oid: &str) -> (s: String)
        ensures
            s@ == short7(oid@),
    {
        let cs = crate::text::chars_of(oid);
        let n: usize = if cs.len() < 7 { cs.len() } else { 7 };
        let part = crate::text::slice_chars(cs.as_slice(), 0, n);
        assert(part@ =~= oid@.take(n as int));
        crate::text::string_of(part.as_slice())
    }

    /// The refusal when the working tree has uncommitted changes; none
    /// when it has none.
    pub fn check_for_conflicts(changed_paths: &Vec<String>) -> (r: Result<(), Error>)
        ensures
            r is Ok <==> changed_paths@.len() == 0,
            r is Err ==> (r matches Err(Error::Generic(m)) && m@ == uncommitted_message(texts(changed_paths@))),
    {
        if changed_paths.len() == 0 {
            return Ok(());
        }
        let mut m = copy_str("Cannot revert with uncommitted changes. Please commit or stash them first:\n");
        let mut i: usize = 0;
        assert(texts(changed_paths@).take(0) =~= Seq::<Seq<char>>::empty());
        while i < changed_paths.len()
            invariant
                i <= changed_paths@.len(),
                m@ == uncommitted_message(texts(changed_paths@).take(i as int)),
            decreases changed_paths@.len() - i,
        {
            push_str(&mut m, "  ");
            push_str(&mut m, changed_paths[i].as_str());
            push_str(&mut m, "\n");
            assert(texts(changed_paths@).take(i + 1).drop_last() =~= texts(changed_paths@).take(i as int));
            i += 1;
        }
        assert(texts(changed_paths@).take(changed_paths@.len() as int) =~= texts(changed_paths@));
        Err(Error::Generic(m))
    }

    /// Whether a failed merge left conflicts to fix (its message asks for
    /// that), rather than failing outright.
    pub fn is_conflict_failure(e: &Error) -> (r: bool)
        ensures
            r == (contains_seq(error_message(*e), "Automatic merge failed"@) || contains_seq(error_message(*e), "fix conflicts"@)),
    {
        let m = e.to_message();
        crate::text::str_contains(m.as_str(), "Automatic merge failed") || crate::text::str_contains(m.as_str(), "fix conflicts")
    }

    /// The error when the repository has no commit yet.
    pub fn no_head_error() -> (e: Error)
        ensures
            e matches Error::Generic(m) && m@ == "No HEAD commit found"@,
    {
        Error::Generic(copy_str("No HEAD commit found"))
    }

    /// The error when the commit to revert has no parent.
    pub fn no_parent_error(oid: &str) -> (e: Error)
        ensures
            e matches Error::Generic(m) && m@ == "Cannot revert "@ + oid@ + " - it has no parent"@,
    {
        let mut m = copy_str("Cannot revert ");
        push_str(&mut m, oid);
        push_str(&mut m, " - it has no parent");
        Error::Generic(m)
    }

    /// The error when `--continue` or `--abort` finds no revert under way.
    pub fn not_in_progress_error() -> (e: Error)
        ensures
            e matches Error::Generic(m) && m@ == "No revert in progress"@,
    {
        Error::Generic(copy_str("No revert in progress"))
    }

    /// The error when `--continue` finds conflicts left.
    pub fn unresolved_error() -> (e: Error)
        ensures
            e matches Error::Generic(m) && m@ == "You must fix conflicts first"@,
    {
        Error::Generic(copy_str("You must fix conflicts first"))
    }

    /// Where HEAD goes back to on `--abort`: ORIG_HEAD's text, trimmed.
    pub fn orig_head_target(content: &str) -> (s: String)
        ensures
            s@ == trim(content@),
    {
        let cs = crate::text::chars_of(content);
        let t = crate::stdtext::trim_chars(cs.as_slice());
        crate::text::string_of(t.as_slice())
    }
}

} // verus!
