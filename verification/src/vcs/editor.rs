//! The text a commit message is edited in: what is written into it, how
//! the editor is invoked, and what is read back.
use vstd::prelude::*;
use crate::text::{texts, copy_str, push_str};
use crate::stdtext::{whitespace, trim};
use crate::errors::error::Error;
use crate::vcs::diff::diff::lines_of;

verus! {

/// The words that `shlex::split` makes of a command line, as a POSIX shell
/// would split it; `None` when the line is not well formed.
pub uninterp spec fn shell_words(s: Seq<char>) -> Option<Seq<Seq<char>>>;

/// Calls `shlex::split`.
#[verifier::external_body]
fn shlex_split(s: &str) -> (r: Option<Vec<String>>)
    ensures
        match r {
            Some(v) => shell_words(s@) == Some(texts(v@)),
            None => shell_words(s@) is None,
        },
{
    shlex::split(s)
}

/// A line holds nothing but whitespace (what `^\s*$` matches).
pub open spec fn blank(line: Seq<char>) -> bool {
    forall|i: int| 0 <= i < line.len() ==> whitespace(#[trigger] line[i])
}

/// The lines of a message that are not notes (do not start with `#`).
pub open spec fn message_lines(content: Seq<char>) -> Seq<Seq<char>> {
    lines_of(content).filter(|l: Seq<char>| !(l.len() > 0 && l[0] == '#'))
}

/// `lines` joined with line breaks.
pub open spec fn joined_lines(lines: Seq<Seq<char>>) -> Seq<char>
    decreases lines.len(),
{
    if lines.len() == 0 {
        Seq::empty()
    } else if lines.len() == 1 {
        lines[0]
    } else {
        joined_lines(lines.drop_last()) + "\n"@ + lines.last()
    }
}

/// What the edited text gives: nothing when every line that is not a
/// note is blank, else those lines joined, trimmed, and a line break.
pub open spec fn message_of(content: Seq<char>) -> Option<Seq<char>> {
    let lines = message_lines(content);
    if forall|i: int| 0 <= i < lines.len() ==> blank(#[trigger] lines[i]) {
        None
    } else {
        Some(trim(joined_lines(lines)) + "\n"@)
    }
}

/// The note lines of a text: each of its lines behind `# `.
pub open spec fn note_text(notes: Seq<char>) -> Seq<char>
    decreases lines_of(notes).len(),
{
    noted(lines_of(notes))
}

/// Each line behind `# `, with a line break.
pub open spec fn noted(lines: Seq<Seq<char>>) -> Seq<char>
    decreases lines.len(),
{
    if lines.len() == 0 {
        Seq::empty()
    } else {
        noted(lines.drop_last()) + "# "@ + lines.last() + "\n"@
    }
}

/// The text of a commit message being written, before the editor runs.
pub struct Editor {
    pub path: String,
    pub command: String,
    pub closed: bool,
    pub content: String,
}

impl Editor {
    /// The editor used when none is configured.
    pub const DEFAULT_EDITOR: &'static str = "vi";

    /// An empty text at `path`, edited with `command` (`vi` by default).
    pub fn new(path: String, command: Option<String>) -> (e: Self)
        ensures
            e.path@ == path@,
            e.command@ == match command { Some(c) => c@, None => "vi"@ },
            !e.closed,
            e.content@ == Seq::<char>::empty(),
    {
        let command = match command {
            Some(c) => c,
            None => copy_str("vi"),
        };
        Editor { path, command, closed: false, content: String::new() }
    }

    /// Writes a line, unless the text is closed.
    pub fn puts(&mut self, s: &str)
        ensures
            final(self).content@ == if old(self).closed { old(self).content@ } else { old(self).content@ + s@ + "\n"@ },
            final(self).closed == old(self).closed,
            final(self).path@ == old(self).path@,
            final(self).command@ == old(self).command@,
    {
        if self.closed {
            return;
        }
        push_str(&mut self.content, s);
        push_str(&mut self.content, "\n");
    }

    /// Writes each line of `s` as a note, unless the text is closed.
    pub fn note(&mut self, s: &str)
        ensures
            final(self).content@ == if old(self).closed { old(self).content@ } else { old(self).content@ + note_text(s@) },
            final(self).closed == old(self).closed,
            final(self).path@ == old(self).path@,
            final(self).command@ == old(self).command@,
    {
        if self.closed {
            return;
        }
        let lines = crate::vcs::diff::diff::split_lines(s);
        let mut i: usize = 0;
        let ghost base = self.content@;
        let ghost ls = lines_of(s@);
        while i < lines.len()
            invariant
                i <= lines@.len(),
                crate::vcs::diff::myers::lines_view(lines@) == ls,
                ls == lines_of(s@),
                self.content@ == base + noted(ls.take(i as int)),
                !self.closed,
                self.path@ == old(self).path@,
                self.command@ == old(self).command@,
            decreases lines@.len() - i,
        {
            push_str(&mut self.content, "# ");
            push_str(&mut self.content, lines[i].as_str());
            push_str(&mut self.content, "\n");
            assert(ls.take(i + 1).drop_last() =~= ls.take(i as int));
            assert(ls[i as int] == lines@[i as int]@);
            assert(ls.take(i + 1).last() == lines@[i as int]@);
            i += 1;
        }
        assert(ls.take(lines@.len() as int) =~= ls);
    }

    /// Closes the text: the editor will not run and nothing more is written.
    pub fn close(&mut self)
        ensures
            final(self).closed,
            final(self).content@ == old(self).content@,
            final(self).path@ == old(self).path@,
            final(self).command@ == old(self).command@,
    {
        self.closed = true;
    }

    /// The program and arguments that run the editor on the text: the
    /// words of the command, then the text's path.
    pub fn invocation(&self) -> (r: Result<(String, Vec<String>), Error>)
        ensures
            match shell_words(self.command@) {
                None => r matches Err(Error::Generic(m)) && m@ == "Invalid editor command"@,
                Some(w) => if w.len() == 0 {
                    r matches Err(Error::Generic(m)) && m@ == "Empty editor command"@
                } else {
                    r matches Ok((cmd, args)) && cmd@ == w[0] && texts(args@) == w.drop_first().push(self.path@)
                },
            },
    {
        match shlex_split(self.command.as_str()) {
            None => Err(Error::Generic(copy_str("Invalid editor command"))),
            Some(words) => {
                if words.len() == 0 {
                    return Err(Error::Generic(copy_str("Empty editor command")));
                }
                let cmd = copy_str(words[0].as_str());
                let mut args = crate::text::copy_strings_from(words.as_slice(), 1);
                let ghost before = texts(args@);
                args.push(copy_str(self.path.as_str()));
                assert(texts(args@) =~= before.push(self.path@));
                assert(texts(words@).skip(1) =~= texts(words@).drop_first());
                Ok((cmd, args))
            },
        }
    }

    /// What the edited text gives as a message.
    pub fn remove_notes(content: &str) -> (r: Option<String>)
        ensures
            match r { Some(m) => Some(m@), None => None::<Seq<char>> } == message_of(content@),
    {
        let lines = crate::vcs::diff::diff::split_lines(content);
        let ghost ls = lines_of(content@);
        let ghost pred = |l: Seq<char>| !(l.len() > 0 && l[0] == '#');
        let mut kept: Vec<String> = Vec::new();
        let mut i: usize = 0;
        assert(ls.take(0).filter(pred) =~= Seq::<Seq<char>>::empty()) by {
            reveal(Seq::filter);
        }
        while i < lines.len()
            invariant
                i <= lines@.len(),
                crate::vcs::diff::myers::lines_view(lines@) == ls,
                pred == (|l: Seq<char>| !(l.len() > 0 && l[0] == '#')),
                texts(kept@) == ls.take(i as int).filter(pred),
            decreases lines@.len() - i,
        {
            assert(ls[i as int] == lines@[i as int]@);
            assert(ls.take(i + 1).drop_last() =~= ls.take(i as int));
            assert(ls.take(i + 1).last() == lines@[i as int]@);
            proof {
                reveal(Seq::filter);
            }
            let cs = crate::text::chars_of(lines[i].as_str());
            if !(cs.len() > 0 && cs[0] == '#') {
                let ghost before = texts(kept@);
                kept.push(copy_str(lines[i].as_str()));
                assert(texts(kept@) =~= before.push(lines@[i as int]@));
            }
            i += 1;
        }
        assert(ls.take(lines@.len() as int) =~= ls);
        let ghost ml = message_lines(content@);
        assert(texts(kept@) == ml);
        let mut all_blank = true;
        let mut k: usize = 0;
        while k < kept.len()
            invariant
                k <= kept@.len(),
                texts(kept@) == ml,
                all_blank == forall|j: int| 0 <= j < k ==> blank(#[trigger] ml[j]),
            decreases kept@.len() - k,
        {
            let cs = crate::text::chars_of(kept[k].as_str());
            let mut b = true;
            let mut c: usize = 0;
            while c < cs.len()
                invariant
                    c <= cs@.len(),
                    b == forall|x: int| 0 <= x < c ==> whitespace(#[trigger] cs@[x]),
                decreases cs@.len() - c,
            {
                if !crate::stdtext::is_whitespace(cs[c]) {
                    b = false;
                }
                c += 1;
            }
            assert(ml[k as int] == cs@);
            if !b {
                all_blank = false;
            }
            k += 1;
        }
        if all_blank {
            return None;
        }
        let mut joined = String::new();
        let mut j: usize = 0;
        while j < kept.len()
            invariant
                j <= kept@.len(),
                joined@ == joined_lines(texts(kept@).take(j as int)),
            decreases kept@.len() - j,
        {
            if j > 0 {
                push_str(&mut joined, "\n");
            }
            push_str(&mut joined, kept[j].as_str());
            assert(texts(kept@).take(j + 1).drop_last() =~= texts(kept@).take(j as int));
            assert(texts(kept@).take(j + 1).last() == kept@[j as int]@);
            j += 1;
        }
        assert(texts(kept@).take(kept@.len() as int) =~= texts(kept@));
        let jc = crate::text::chars_of(joined.as_str());
        let t = crate::stdtext::trim_chars(jc.as_slice());
        let mut r = crate::text::string_of(t.as_slice());
        push_str(&mut r, "\n");
        Some(r)
    }
}

} // verus!
