//! The working tree: which paths its ignore file leaves out, which
//! indexed files a path covers, and the walks that list its files.
use vstd::prelude::*;
use crate::text::{texts, copy_str, push_str, str_eq, concat};
use crate::stdtext::trim;
use crate::errors::error::Error;
use crate::paths::{joined, path_relative};
use crate::vcs::diff::diff::{lines_of, split_lines};
use crate::vcs::diff::myers::lines_view;

verus! {

/// Whether `regex` compiles `re` and finds a match of it somewhere in
/// `text`; `None` when `re` is not a valid pattern.
pub uninterp spec fn regex_match(re: Seq<char>, text: Seq<char>) -> Option<bool>;

/// Calls `Regex::new`, then `Regex::is_match`.
#[verifier::external_body]
fn regex_is_match(re: &str, text: &str) -> (r: Option<bool>)
    ensures
        r == regex_match(re@, text@),
{
    match regex::Regex::new(re) {
        Ok(compiled) => Some(compiled.is_match(text)),
        Err(_) => None,
    }
}

/// A glob written as a regular expression: each `.` escaped, each `*`
/// standing for any run of characters.
pub open spec fn glob_body(p: Seq<char>) -> Seq<char>
    decreases p.len(),
{
    if p.len() == 0 {
        Seq::empty()
    } else {
        let c = p.last();
        glob_body(p.drop_last()) + (if c == '.' { "\\."@ } else if c == '*' { ".*"@ } else { seq![c] })
    }
}

/// The regular expression that matches a whole path against a glob.
pub open spec fn glob_regex(p: Seq<char>) -> Seq<char> {
    "^"@ + glob_body(p) + "$"@
}

/// Whether an ignore pattern covers a path: it is the path; or it ends in
/// `/` and the rest begins the path; or it holds `*` and, read as a glob,
/// matches the whole path.
pub open spec fn pattern_matches(path: Seq<char>, pattern: Seq<char>) -> bool {
    ||| path == pattern
    ||| (pattern.len() > 0 && pattern.last() == '/' && pattern.drop_last().is_prefix_of(path))
    ||| (pattern.contains('*') && regex_match(glob_regex(pattern), path) == Some(true))
}

/// The lines of an ignore file that are patterns: trimmed, neither empty
/// nor comments.
pub open spec fn ignore_lines(content: Seq<char>) -> Seq<Seq<char>> {
    lines_of(content).map_values(|l: Seq<char>| trim(l)).filter(|l: Seq<char>| l.len() > 0 && l[0] != '#')
}

/// The ignore patterns: `.ash` and `.ash/*` always, and the patterns of the
/// ignore file when there is one.
pub open spec fn ignore_set(content: Option<Seq<char>>) -> Set<Seq<char>> {
    let base = set![".ash"@, ".ash/*"@];
    match content {
        Some(c) => base + ignore_lines(c).to_set(),
        None => base,
    }
}

/// An indexed path lies at or under `prefix` (everything lies under the
/// empty prefix).
pub open spec fn covered(index_path: Seq<char>, prefix: Seq<char>) -> bool {
    index_path == prefix || prefix.len() == 0 || (prefix + "/"@).is_prefix_of(index_path)
}

/// The working tree at a root.
pub struct Workspace {
    pub root_path: String,
}

/// What a starting path names in the working tree.
#[derive(Debug, Clone, Copy, PartialEq, Eq, Structural)]
pub enum StartKind {
    Missing,
    File,
    Directory,
}

/// An item waiting in a walk: a path relative to the root, and whether it
/// is a directory still to be read.
pub type WalkItem = (String, bool);

/// A walk over the working tree that lists files depth first, leaving out
/// what the ignore patterns cover. The caller reads each directory that
/// `advance` hands out and gives its entries to `feed`.
pub struct FileWalk {
    pub patterns: Vec<String>,
    pub stack: Vec<WalkItem>,
    pub files: Vec<String>,
}

/// What listing from a path gives: the files found when the path is a
/// file; a walk and the indexed files expected under it when it is a
/// directory.
pub enum FromListing {
    Single(Vec<String>),
    Walk(FileWalk, Vec<String>),
}

/// What listing a single file gives: the file, unless a pattern covers it.
pub open spec fn single_listing(rel: Seq<char>, patterns: Set<Seq<char>>) -> Seq<Seq<char>> {
    if exists|q: Seq<char>| #[trigger] patterns.contains(q) && pattern_matches(rel, q) {
        Seq::empty()
    } else {
        seq![rel]
    }
}

/// A path below a directory: the entry name itself at the root.
pub open spec fn below(dir: Seq<char>, name: Seq<char>) -> Seq<char> {
    if dir.len() == 0 { name } else { joined(dir, name) }
}

/// Adds `p` to a list unless it holds it already.
fn add_unique(list: &mut Vec<String>, p: &str)
    requires
        texts(old(list)@).no_duplicates(),
    ensures
        texts(final(list)@).no_duplicates(),
        texts(final(list)@).to_set() == texts(old(list)@).to_set().insert(p@),
{
    let mut i: usize = 0;
    while i < list.len()
        invariant
            i <= list@.len(),
            list@ == old(list)@,
            texts(old(list)@).no_duplicates(),
            forall|j: int| 0 <= j < i ==> #[trigger] texts(list@)[j] != p@,
        decreases list@.len() - i,
    {
        if str_eq(list[i].as_str(), p) {
            assert(texts(list@)[i as int] == p@);
            assert(texts(list@).to_set() =~= texts(list@).to_set().insert(p@));
            return;
        }
        i += 1;
    }
    let ghost before = texts(list@);
    list.push(copy_str(p));
    proof {
        assert(texts(list@) =~= before.push(p@));
        before.lemma_push_to_set_commute(p@);
        assert forall|a: int, b: int| 0 <= a < before.len() + 1 && 0 <= b < before.len() + 1 && a != b
            implies before.push(p@)[a] != before.push(p@)[b] by {
            if a < before.len() && b < before.len() {
            } else if a < before.len() {
                assert(before.push(p@)[a] == before[a]);
            } else {
                assert(before.push(p@)[b] == before[b]);
            }
        }
    }
}

impl Workspace {
    /// The working tree at `root_path`.
    pub fn new(root_path: &str) -> (w: Self)
        ensures
            w.root_path@ == root_path@,
    {
        Workspace { root_path: copy_str(root_path) }
    }

    /// The ignore patterns, each once, from the text of the ignore file
    /// when there is one.
    pub fn ignore_patterns(content: Option<&str>) -> (r: Vec<String>)
        ensures
            texts(r@).to_set() == ignore_set(match content { Some(c) => Some(c@), None => None }),
            texts(r@).no_duplicates(),
    {
        let mut r: Vec<String> = Vec::new();
        add_unique(&mut r, ".ash");
        add_unique(&mut r, ".ash/*");
        let ghost base = texts(r@).to_set();
        assert(base =~= set![".ash"@, ".ash/*"@]) by {
            reveal_strlit(".ash");
            reveal_strlit(".ash/*");
        }
        match content {
            None => {
                return r;
            },
            Some(c) => {
                let lines = split_lines(c);
                let ghost trimmed = lines_of(c@).map_values(|l: Seq<char>| trim(l));
                let ghost pred = |l: Seq<char>| l.len() > 0 && l[0] != '#';
                let mut i: usize = 0;
                assert(trimmed.take(0).filter(pred) =~= Seq::<Seq<char>>::empty()) by {
                    reveal(Seq::filter);
                }
                assert(base + Seq::<Seq<char>>::empty().to_set() =~= base);
                while i < lines.len()
                    invariant
                        i <= lines@.len(),
                        lines_view(lines@) == lines_of(c@),
                        trimmed == lines_of(c@).map_values(|l: Seq<char>| trim(l)),
                        pred == (|l: Seq<char>| l.len() > 0 && l[0] != '#'),
                        texts(r@).no_duplicates(),
                        texts(r@).to_set() == base + trimmed.take(i as int).filter(pred).to_set(),
                    decreases lines@.len() - i,
                {
                    let chars = crate::text::chars_of(lines[i].as_str());
                    let t = crate::stdtext::trim_chars(chars.as_slice());
                    proof {
                        reveal(Seq::filter);
                        assert(lines_view(lines@)[i as int] == lines@[i as int]@);
                        assert(t@ == trimmed[i as int]);
                        assert(trimmed.take(i + 1).drop_last() =~= trimmed.take(i as int));
                        assert(trimmed.take(i + 1).last() == trimmed[i as int]);
                    }
                    let ghost f0 = trimmed.take(i as int).filter(pred);
                    if t.len() > 0 && t[0] != '#' {
                        let line = crate::text::string_of(t.as_slice());
                        let ghost before = texts(r@).to_set();
                        add_unique(&mut r, line.as_str());
                        proof {
                            assert(trimmed.take(i + 1).filter(pred) == f0.push(t@));
                            f0.lemma_push_to_set_commute(t@);
                            assert(texts(r@).to_set() =~= base + f0.push(t@).to_set());
                        }
                    } else {
                        assert(trimmed.take(i + 1).filter(pred) == f0);
                    }
                    i += 1;
                }
                assert(trimmed.take(trimmed.len() as int) =~= trimmed);
                return r;
            },
        }
    }

    /// Whether an ignore pattern covers a path (see `pattern_matches`).
    pub fn matches_pattern(path: &str, pattern: &str) -> (r: bool)
        ensures
            r == pattern_matches(path@, pattern@),
    {
        if str_eq(path, pattern) {
            return true;
        }
        let pc = crate::text::chars_of(pattern);
        if pc.len() > 0 && pc[pc.len() - 1] == '/' {
            let dir = crate::text::slice_chars(pc.as_slice(), 0, pc.len() - 1);
            let d = crate::text::string_of(dir.as_slice());
            assert(d@ == pattern@.drop_last());
            if crate::text::str_starts_with(path, d.as_str()) {
                return true;
            }
        }
        if crate::text::contains_char(pc.as_slice(), '*') {
            let re = Self::glob_to_regex(pc.as_slice());
            match regex_is_match(re.as_str(), path) {
                Some(m) => {
                    return m;
                },
                None => {},
            }
        }
        false
    }

    /// The regular expression of a glob (see `glob_regex`).
    fn glob_to_regex(p: &[char]) -> (r: String)
        ensures
            r@ == glob_regex(p@),
    {
        let mut r = copy_str("^");
        let mut i: usize = 0;
        proof {
            reveal_strlit("^");
            assert(p@.take(0) =~= Seq::<char>::empty());
        }
        while i < p.len()
            invariant
                i <= p@.len(),
                r@ == "^"@ + glob_body(p@.take(i as int)),
            decreases p@.len() - i,
        {
            let c = p[i];
            if c == '.' {
                push_str(&mut r, "\\.");
            } else if c == '*' {
                push_str(&mut r, ".*");
            } else {
                crate::text::push_char(&mut r, c);
            }
            proof {
                assert(p@.take(i + 1).drop_last() =~= p@.take(i as int));
                assert(p@.take(i + 1).last() == c);
            }
            i += 1;
        }
        assert(p@.take(p@.len() as int) =~= p@);
        push_str(&mut r, "$");
        r
    }

    /// Whether any of the patterns covers a path.
    pub fn matches_any_pattern(path: &str, patterns: &Vec<String>) -> (r: bool)
        ensures
            r == exists|k: int| 0 <= k < patterns@.len() && pattern_matches(path@, #[trigger] patterns@[k]@),
    {
        let mut k: usize = 0;
        while k < patterns.len()
            invariant
                k <= patterns@.len(),
                forall|j: int| 0 <= j < k ==> !pattern_matches(path@, #[trigger] patterns@[j]@),
            decreases patterns@.len() - k,
        {
            if Self::matches_pattern(path, patterns[k].as_str()) {
                return true;
            }
            k += 1;
        }
        false
    }

    /// The indexed paths at or under `prefix`, in the order given.
    pub fn expected_files(prefix: &str, index_paths: &Vec<String>) -> (r: Vec<String>)
        ensures
            texts(r@) == texts(index_paths@).filter(|p: Seq<char>| covered(p, prefix@)),
    {
        let ghost pred = |p: Seq<char>| covered(p, prefix@);
        let ghost all = texts(index_paths@);
        let under = concat(prefix, "/");
        let empty = crate::text::str_is_empty(prefix);
        let mut r: Vec<String> = Vec::new();
        let mut i: usize = 0;
        assert(all.take(0).filter(pred) =~= Seq::<Seq<char>>::empty()) by {
            reveal(Seq::filter);
        }
        while i < index_paths.len()
            invariant
                i <= index_paths@.len(),
                all == texts(index_paths@),
                pred == (|p: Seq<char>| covered(p, prefix@)),
                under@ == prefix@ + "/"@,
                empty == (prefix@.len() == 0),
                texts(r@) == all.take(i as int).filter(pred),
            decreases index_paths@.len() - i,
        {
            proof {
                reveal(Seq::filter);
                assert(all.take(i + 1).drop_last() =~= all.take(i as int));
                assert(all.take(i + 1).last() == index_paths@[i as int]@);
            }
            let p = index_paths[i].as_str();
            if str_eq(p, prefix) || empty || crate::text::str_starts_with(p, under.as_str()) {
                let ghost before = texts(r@);
                r.push(copy_str(p));
                assert(texts(r@) =~= before.push(p@));
            }
            i += 1;
        }
        assert(all.take(all.len() as int) =~= all);
        r
    }

    /// The error for a directory or file that could not be opened or
    /// examined: a refusal of permission names the operation and the path,
    /// else the failure itself.
    pub fn access_error(operation: &str, path: &str, permission_denied: bool, failure: Error) -> (e: Error)
        ensures
            permission_denied ==> (e matches Error::Generic(m) && m@ == operation@ + "('"@ + path@ + "'): Permission denied"@),
            !permission_denied ==> e == failure,
    {
        if permission_denied {
            let mut m = copy_str(operation);
            push_str(&mut m, "('");
            push_str(&mut m, path);
            push_str(&mut m, "'): Permission denied");
            Error::Generic(m)
        } else {
            failure
        }
    }

    /// The walk that lists every file of the tree that the ignore patterns
    /// do not cover, from the text of the ignore file when there is one.
    pub fn list_files(&self, ignore_content: Option<&str>) -> (w: FileWalk)
        ensures
            w.wf(),
            texts(w.patterns@).to_set() == ignore_set(match ignore_content { Some(c) => Some(c@), None => None }),
            w.stack@.len() == 1,
            w.stack@[0].0@ == Seq::<char>::empty() && w.stack@[0].1,
            w.files@.len() == 0,
    {
        let patterns = Self::ignore_patterns(ignore_content);
        let mut stack: Vec<WalkItem> = Vec::new();
        stack.push((String::new(), true));
        FileWalk { patterns, stack, files: Vec::new() }
    }

    /// Starts listing from a path (absolute, or relative to the root): an
    /// error when it does not exist or lies outside the root; the path
    /// itself, unless ignored, when it is a file; else a walk from it and
    /// the indexed paths expected under it.
    #[verifier::spinoff_prover]
    pub fn list_files_from(&self, start_path: &str, kind: StartKind, index_paths: &Vec<String>,
        ignore_content: Option<&str>) -> (r: Result<FromListing, Error>)
        ensures
            ({
                let abs = joined(self.root_path@, start_path@);
                let patterns = ignore_set(match ignore_content { Some(c) => Some(c@), None => None });
                match r {
                    Err(e) => if kind == StartKind::Missing {
                            (e matches Error::InvalidPath(m) && m@ == "Path '"@ + abs + "' does not exist"@)
                        } else {
                            path_relative(abs, self.root_path@) is None
                            && (e matches Error::InvalidPath(m) && m@ == "Cannot make '"@ + abs + "' relative to repository root"@)
                        },
                    Ok(FromListing::Single(found)) => kind == StartKind::File
                        && (path_relative(abs, self.root_path@) matches Some(rel)
                        && texts(found@) == single_listing(rel, patterns)),
                    Ok(FromListing::Walk(w, expected)) => kind == StartKind::Directory
                        && w.wf()
                        && texts(w.patterns@).to_set() == patterns
                        && w.stack@.len() == 1 && w.stack@[0].1
                        && w.files@.len() == 0
                        && (path_relative(abs, self.root_path@) matches Some(rel)
                        && w.stack@[0].0@ == rel
                        && texts(expected@) == texts(index_paths@).filter(|p: Seq<char>| covered(p, rel))),
                }
            }),
    {
        let abs = crate::paths::join_path(self.root_path.as_str(), start_path);
        if kind == StartKind::Missing {
            let mut m = copy_str("Path '");
            push_str(&mut m, abs.as_str());
            push_str(&mut m, "' does not exist");
            return Err(Error::InvalidPath(m));
        }
        let rel = match crate::paths::strip_path_prefix(abs.as_str(), self.root_path.as_str()) {
            Some(q) => q,
            None => {
                let mut m = copy_str("Cannot make '");
                push_str(&mut m, abs.as_str());
                push_str(&mut m, "' relative to repository root");
                return Err(Error::InvalidPath(m));
            },
        };
        let expected = Self::expected_files(rel.as_str(), index_paths);
        let patterns = Self::ignore_patterns(ignore_content);
        let ghost pset = ignore_set(match ignore_content { Some(c) => Some(c@), None => None });
        if kind == StartKind::File {
            let ignored = Self::matches_any_pattern(rel.as_str(), &patterns);
            proof {
                if ignored {
                    let k = choose|k: int| 0 <= k < patterns@.len() && pattern_matches(rel@, #[trigger] patterns@[k]@);
                    assert(texts(patterns@)[k] == patterns@[k]@);
                    assert(pset.contains(patterns@[k]@));
                    assert(exists|q: Seq<char>| #[trigger] pset.contains(q) && pattern_matches(rel@, q));
                } else {
                    assert forall|q: Seq<char>| #[trigger] pset.contains(q) implies !pattern_matches(rel@, q) by {
                        assert(texts(patterns@).to_set().contains(q));
                        let k = choose|k: int| 0 <= k < texts(patterns@).len() && texts(patterns@)[k] == q;
                        assert(patterns@[k]@ == q);
                    }
                }
            }
            let ghost rv = rel@;
            let mut found: Vec<String> = Vec::new();
            if !ignored {
                found.push(rel);
                assert(texts(found@) =~= seq![rv]);
            } else {
                assert(texts(found@) =~= Seq::<Seq<char>>::empty());
            }
            assert(texts(found@) == single_listing(rv, pset));
            return Ok(FromListing::Single(found));
        }
        let mut stack: Vec<WalkItem> = Vec::new();
        stack.push((rel, true));
        Ok(FromListing::Walk(FileWalk { patterns, stack, files: Vec::new() }, expected))
    }
}

impl FileWalk {
    /// Every pattern once.
    pub open spec fn wf(&self) -> bool {
        texts(self.patterns@).no_duplicates()
    }

    /// Whether any pattern of the walk covers a path.
    pub open spec fn ignores(&self, p: Seq<char>) -> bool {
        ignored_by(self.patterns@, p)
    }

    /// Takes the items on top of the stack: an ignored one is dropped, a
    /// file is listed, and the first directory to read is handed out;
    /// `None` when the walk is over.
    #[verifier::rlimit(60)]
    #[verifier::spinoff_prover]
    pub fn advance(&mut self) -> (r: Option<String>)
        requires
            old(self).wf(),
        ensures
            final(self).wf(),
            final(self).patterns@ == old(self).patterns@,
            ({
                let n = old(self).stack@.len() - final(self).stack@.len();
                let taken = old(self).stack@.subrange(final(self).stack@.len() as int, old(self).stack@.len() as int);
                &&& n >= 0
                &&& final(self).stack@ == old(self).stack@.subrange(0, final(self).stack@.len() as int)
                &&& texts(final(self).files@) == texts(old(self).files@) + listed(taken.reverse(), final(self).patterns@)
                &&& match r {
                    Some(d) => taken.len() > 0 && taken[0].0@ == d@ && taken[0].1 && !final(self).ignores(d@)
                        && forall|j: int| 1 <= j < taken.len() ==> !(#[trigger] taken[j]).1 || final(self).ignores(taken[j].0@),
                    None => final(self).stack@.len() == 0
                        && forall|j: int| 0 <= j < taken.len() ==> !(#[trigger] taken[j]).1 || final(self).ignores(taken[j].0@),
                }
            }),
    {
        let ghost s0 = self.stack@;
        let ghost f0 = texts(self.files@);
        loop
            invariant
                self.wf(),
                self.patterns@ == old(self).patterns@,
                s0 == old(self).stack@,
                f0 == texts(old(self).files@),
                self.stack@.len() <= s0.len(),
                self.stack@ == s0.subrange(0, self.stack@.len() as int),
                texts(self.files@) == f0 + listed(s0.subrange(self.stack@.len() as int, s0.len() as int).reverse(), self.patterns@),
                forall|j: int| self.stack@.len() <= j < s0.len() ==> !(#[trigger] s0[j]).1 || self.ignores(s0[j].0@),
            decreases self.stack@.len(),
        {
            let ghost len0 = self.stack@.len();
            match self.stack.pop() {
                None => {
                    return None;
                },
                Some(item) => {
                    let ghost taken0 = s0.subrange(len0 as int, s0.len() as int);
                    assert(s0[len0 - 1] == item);
                    assert(s0.subrange((len0 - 1) as int, s0.len() as int) =~= seq![item] + taken0);
                    assert((seq![item] + taken0).reverse() =~= taken0.reverse().push(item));
                    let ignored = Workspace::matches_any_pattern(item.0.as_str(), &self.patterns);
                    assert(ignored == self.ignores(item.0@));
                    let ghost before = texts(self.files@);
                    if ignored {
                        proof {
                            lemma_listed_push(taken0.reverse(), item, self.patterns@);
                        }
                    } else if item.1 {
                        proof {
                            lemma_listed_push(taken0.reverse(), item, self.patterns@);
                            let taken = s0.subrange(self.stack@.len() as int, s0.len() as int);
                            assert(taken =~= seq![item] + taken0);
                            assert forall|j: int| 1 <= j < taken.len() implies !(#[trigger] taken[j]).1 || self.ignores(taken[j].0@) by {
                                assert(taken[j] == s0[self.stack@.len() + j]);
                            }
                        }
                        return Some(item.0);
                    } else {
                        self.files.push(item.0);
                        proof {
                            lemma_listed_push(taken0.reverse(), item, self.patterns@);
                            assert(texts(self.files@) =~= before.push(item.0@));
                        }
                    }
                },
            }
        }
    }

    /// Gives the entries (names, and whether each is a directory) of the
    /// directory that `advance` handed out: they wait on the stack, the
    /// first on top; a failure to read the directory ends the walk with it.
    pub fn feed(&mut self, dir: &str, entries: Result<Vec<(String, bool)>, Error>) -> (r: Result<(), Error>)
        ensures
            final(self).patterns@ == old(self).patterns@,
            final(self).files@ == old(self).files@,
            entries is Err ==> final(self).stack@ == old(self).stack@,
            entries matches Err(e) ==> r == Err::<(), Error>(e),
            entries is Ok ==> r is Ok,
            entries matches Ok(es) ==> final(self).stack@.len() == old(self).stack@.len() + es@.len()
                && final(self).stack@.subrange(0, old(self).stack@.len() as int) == old(self).stack@
                && forall|j: int| 0 <= j < es@.len() ==> {
                    let item = #[trigger] final(self).stack@[final(self).stack@.len() - 1 - j];
                    item.0@ == below(dir@, es@[j].0@) && item.1 == es@[j].1
                },
    {
        match entries {
            Err(e) => Err(e),
            Ok(es) => {
                let ghost s0 = self.stack@;
                let mut k: usize = es.len();
                while k > 0
                    invariant
                        k <= es@.len(),
                        self.patterns@ == old(self).patterns@,
                        self.files@ == old(self).files@,
                        s0 == old(self).stack@,
                        self.stack@.len() == s0.len() + (es@.len() - k),
                        self.stack@.subrange(0, s0.len() as int) == s0,
                        forall|j: int| k <= j < es@.len() ==> {
                            let item = #[trigger] self.stack@[self.stack@.len() - 1 - (j - k)];
                            item.0@ == below(dir@, es@[j].0@) && item.1 == es@[j].1
                        },
                    decreases k,
                {
                    k -= 1;
                    let path = if crate::text::str_is_empty(dir) {
                        copy_str(es[k].0.as_str())
                    } else {
                        crate::paths::join_path(dir, es[k].0.as_str())
                    };
                    let ghost before = self.stack@;
                    self.stack.push((path, es[k].1));
                    proof {
                        assert(self.stack@.subrange(0, s0.len() as int) =~= before.subrange(0, s0.len() as int));
                        assert forall|j: int| k <= j < es@.len() implies {
                            let item = #[trigger] self.stack@[self.stack@.len() - 1 - (j - k)];
                            item.0@ == below(dir@, es@[j].0@) && item.1 == es@[j].1
                        } by {
                            if j > k {
                                assert(self.stack@[self.stack@.len() - 1 - (j - k)] == before[before.len() - 1 - (j - (k + 1))]);
                            }
                        }
                    }
                }
                assert forall|j: int| 0 <= j < es@.len() implies {
                    let item = #[trigger] self.stack@[self.stack@.len() - 1 - j];
                    item.0@ == below(dir@, es@[j].0@) && item.1 == es@[j].1
                } by {
                    assert(self.stack@[self.stack@.len() - 1 - (j - k)] == self.stack@[self.stack@.len() - 1 - j]);
                }
                Ok(())
            },
        }
    }

    /// The files that were expected and not listed, in the order expected.
    pub fn missing(&self, expected: &Vec<String>) -> (r: Vec<String>)
        ensures
            texts(r@) == texts(expected@).filter(|p: Seq<char>| !texts(self.files@).contains(p)),
    {
        let ghost pred = |p: Seq<char>| !texts(self.files@).contains(p);
        let ghost all = texts(expected@);
        let mut r: Vec<String> = Vec::new();
        let mut i: usize = 0;
        assert(all.take(0).filter(pred) =~= Seq::<Seq<char>>::empty()) by {
            reveal(Seq::filter);
        }
        while i < expected.len()
            invariant
                i <= expected@.len(),
                all == texts(expected@),
                pred == (|p: Seq<char>| !texts(self.files@).contains(p)),
                texts(r@) == all.take(i as int).filter(pred),
            decreases expected@.len() - i,
        {
            proof {
                reveal(Seq::filter);
                assert(all.take(i + 1).drop_last() =~= all.take(i as int));
                assert(all.take(i + 1).last() == expected@[i as int]@);
            }
            let mut found = false;
            let mut j: usize = 0;
            while j < self.files.len()
                invariant
                    j <= self.files@.len(),
                    i < expected@.len(),
                    found == exists|q: int| 0 <= q < j && #[trigger] texts(self.files@)[q] == expected@[i as int]@,
                decreases self.files@.len() - j,
            {
                if str_eq(self.files[j].as_str(), expected[i].as_str()) {
                    found = true;
                }
                assert(texts(self.files@)[j as int] == self.files@[j as int]@);
                j += 1;
            }
            if !found {
                let ghost before = texts(r@);
                r.push(copy_str(expected[i].as_str()));
                assert(texts(r@) =~= before.push(expected@[i as int]@));
            }
            i += 1;
        }
        assert(all.take(all.len() as int) =~= all);
        r
    }

    /// The files listed so far.
    pub fn into_files(self) -> (v: Vec<String>)
        ensures
            v@ == self.files@,
    {
        self.files
    }
}

/// Whether any of the patterns covers a path.
pub open spec fn ignored_by(patterns: Seq<String>, p: Seq<char>) -> bool {
    exists|k: int| 0 <= k < patterns.len() && pattern_matches(p, #[trigger] patterns[k]@)
}

/// The files among taken items, in the order taken: those that are not
/// directories and that no pattern covers.
pub open spec fn listed(items: Seq<WalkItem>, patterns: Seq<String>) -> Seq<Seq<char>>
    decreases items.len(),
{
    if items.len() == 0 {
        Seq::empty()
    } else {
        let rest = listed(items.drop_last(), patterns);
        let it = items.last();
        if !it.1 && !ignored_by(patterns, it.0@) { rest.push(it.0@) } else { rest }
    }
}

proof fn lemma_listed_push(items: Seq<WalkItem>, it: WalkItem, patterns: Seq<String>)
    ensures
        listed(items.push(it), patterns) == if !it.1 && !ignored_by(patterns, it.0@) {
            listed(items, patterns).push(it.0@)
        } else {
            listed(items, patterns)
        },
{
    assert(items.push(it).drop_last() =~= items);
}

} // verus!
