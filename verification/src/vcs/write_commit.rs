//! Writing a commit: where its message comes from, whether it is edited,
//! and how the commit is announced.
use vstd::prelude::*;
use crate::text::{copy_str, push_str, concat};
use crate::paths::joined;

verus! {

/// When the commit message is edited.
#[derive(Debug, Clone, Copy, PartialEq, Eq, Structural)]
pub enum EditOption {
    Auto,
    Always,
    Never,
}

/// How a commit is written: its message, or a file to read it from,
/// whether to edit it, whether to amend, and a commit whose message to reuse.
#[derive(Debug)]
pub struct WriteCommitOptions {
    pub message: Option<String>,
    pub file: Option<String>,
    pub edit: EditOption,
    pub amend: bool,
    pub reuse_message: Option<String>,
}

/// The text a commit message is edited in: the initial message and an
/// empty line, then the notes.
pub open spec fn editor_text(initial: Option<Seq<char>>, notes: Seq<char>) -> Seq<char> {
    (match initial { Some(m) => m + "\n"@ + "\n"@, None => Seq::empty() }) + crate::vcs::editor::note_text(notes)
}

impl WriteCommitOptions {
    /// The options that the environment sets: a message, a file to read it
    /// from, editing always (`1`) or never (`0`), amending when set, a
    /// message to reuse.
    pub fn from_settings(message: Option<String>, file: Option<String>, edit: Option<String>, amend: bool,
        reuse: Option<String>) -> (o: Self)
        ensures
            o.message == message,
            o.file == file,
            o.edit == match edit {
                Some(e) => if e@ == "1"@ { EditOption::Always } else if e@ == "0"@ { EditOption::Never } else { EditOption::Auto },
                None => EditOption::Auto,
            },
            o.amend == amend,
            o.reuse_message == reuse,
    {
        let edit_option = match &edit {
            Some(e) => if crate::text::str_eq(e.as_str(), "1") {
                EditOption::Always
            } else if crate::text::str_eq(e.as_str(), "0") {
                EditOption::Never
            } else {
                EditOption::Auto
            },
            None => EditOption::Auto,
        };
        WriteCommitOptions { message, file, edit: edit_option, amend, reuse_message: reuse }
    }

    /// The message given on the command line, with a line break.
    pub fn given_message(&self) -> (r: Option<String>)
        ensures
            match self.message {
                Some(m) => r matches Some(x) && x@ == m@ + "\n"@,
                None => r is None,
            },
    {
        match &self.message {
            Some(m) => {
                let mut x = copy_str(m.as_str());
                push_str(&mut x, "\n");
                Some(x)
            },
            None => None,
        }
    }

    /// Whether the message is edited: always when asked, or when there is
    /// no message yet.
    pub fn should_edit(&self, has_message: bool) -> (r: bool)
        ensures
            r == (self.edit == EditOption::Always || !has_message),
    {
        match self.edit {
            EditOption::Always => true,
            _ => !has_message,
        }
    }
}

/// The path of the file the message is edited in.
pub fn commit_message_path(root: &str) -> (p: String)
    ensures
        p@ == joined(joined(root@, ".ash"@), "COMMIT_EDITMSG"@),
{
    let ash = crate::paths::join_path(root, ".ash");
    crate::paths::join_path(ash.as_str(), "COMMIT_EDITMSG")
}

/// What the commit's announcement says of where it went: the branch (or
/// `detached HEAD`), `(root-commit)` for a first commit, and the id's
/// first seven characters.
pub fn commit_display_info(branch: Option<&str>, is_root: bool, oid: &str) -> (s: String)
    ensures
        s@ == (match branch { Some(b) => b@, None => "detached HEAD"@ })
            + (if is_root { " (root-commit)"@ } else { Seq::empty() })
            + " "@ + oid@.take(if oid@.len() < 7 { oid@.len() as int } else { 7 }),
{
    let mut s = match branch {
        Some(b) => copy_str(b),
        None => copy_str("detached HEAD"),
    };
    if is_root {
        push_str(&mut s, " (root-commit)");
    }
    push_str(&mut s, " ");
    let cs = crate::text::chars_of(oid);
    let n: usize = if cs.len() < 7 { cs.len() } else { 7 };
    let part = crate::text::slice_chars(cs.as_slice(), 0, n);
    assert(part@ =~= oid@.take(n as int));
    push_str(&mut s, crate::text::string_of(part.as_slice()).as_str());
    s
}

/// The editor text for a message: the initial message and an empty line,
/// then the notes; closed (the editor does not run) unless editing.
pub fn prepare_editor(path: String, command: Option<String>, initial: Option<&str>, notes: &str, edit: bool)
    -> (e: crate::vcs::editor::Editor)
    ensures
        e.content@ == editor_text(match initial { Some(m) => Some(m@), None => None }, notes@),
        e.closed == !edit,
        e.path@ == path@,
{
    let mut editor = crate::vcs::editor::Editor::new(path, command);
    proof {
        reveal_strlit("");
    }
    match initial {
        Some(m) => {
            editor.puts(m);
            assert(editor.content@ =~= m@ + "\n"@);
            editor.puts("");
            assert(""@.len() == 0);
            assert(editor.content@ =~= m@ + "\n"@ + "\n"@);
        },
        None => {},
    }
    editor.note(notes);
    if !edit {
        editor.close();
    }
    editor
}

} // verus!
