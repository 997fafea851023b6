//! Commit objects: a tree, its author, an optional parent and a message.
use vstd::prelude::*;
use vstd::utf8::{encode_utf8, decode_utf8, valid_utf8};
use crate::bytes::first_index_of;
use crate::vcs::database::author::{Author, author_line, author_groups, author_from_groups};
use crate::vcs::database::database::GitObject;
use crate::errors::error::Error;

verus! {

/// A commit and, once stored, its object id.
#[derive(Debug)]
pub struct Commit {
    oid: Option<String>,
    parent: Option<String>,
    tree: String,
    author: Author,
    message: String,
}

/// The text of a commit: `tree`, `author` and `committer` lines, a `parent`
/// line when there is a parent, an empty line and the message, joined by newlines.
pub open spec fn commit_text(tree: Seq<char>, author: Seq<char>, parent: Option<Seq<char>>, message: Seq<char>) -> Seq<char> {
    "tree "@ + tree + "\n"@ + "author "@ + author + "\n"@ + "committer "@ + author + "\n"@ + match parent {
        Some(p) => "parent "@ + p + "\n"@,
        None => Seq::empty(),
    } + "\n"@ + message
}

/// The header lines of a commit's bytes (each up to a newline) and the bytes
/// after the first empty line; `None` when no empty line ends the header.
pub open spec fn split_header(data: Seq<u8>) -> Option<(Seq<Seq<u8>>, Seq<u8>)>
    decreases data.len(),
{
    match first_index_of(data, 10u8) {
        None => None,
        Some(k) => if k == 0 {
            Some((Seq::empty(), data.skip(1)))
        } else {
            proof {
                crate::bytes::lemma_first_index_of(data, 10u8);
            }
            match split_header(data.skip(k + 1)) {
                None => None,
                Some(r) => Some((seq![data.take(k)] + r.0, r.1)),
            }
        },
    }
}

/// The value of the first header line that starts with `key` and a space.
pub open spec fn header_field(lines: Seq<Seq<u8>>, key: Seq<u8>) -> Option<Seq<u8>>
    decreases lines.len(),
{
    if lines.len() == 0 {
        None
    } else if key.len() < lines[0].len() && lines[0].take(key.len() as int) == key && lines[0][key.len() as int] == 32u8 {
        Some(lines[0].skip(key.len() as int + 1))
    } else {
        header_field(lines.drop_first(), key)
    }
}

/// Decoded text of optional bytes, `None` when absent; `Some(None)` when not UTF-8.
pub open spec fn decoded_field(v: Option<Seq<u8>>) -> Option<Option<Seq<char>>> {
    match v {
        None => None,
        Some(b) => if valid_utf8(b) {
            Some(Some(decode_utf8(b)))
        } else {
            Some(None)
        },
    }
}

/// What the bytes of a commit hold: its tree, author line, parent and message,
/// when the header ends with an empty line, has `tree` and `author` lines, and
/// every part read is UTF-8.
pub open spec fn commit_parts(data: Seq<u8>) -> Option<(Seq<char>, Seq<char>, Option<Seq<char>>, Seq<char>)> {
    match split_header(data) {
        None => None,
        Some((lines, msg)) => {
            let tree = decoded_field(header_field(lines, encode_utf8("tree"@)));
            let author = decoded_field(header_field(lines, encode_utf8("author"@)));
            let parent = decoded_field(header_field(lines, encode_utf8("parent"@)));
            match (tree, author) {
                (Some(Some(t)), Some(Some(a))) => if !(parent matches Some(None)) && valid_utf8(msg) {
                    Some((t, a, match parent {
                        Some(p) => p,
                        None => None,
                    }, decode_utf8(msg)))
                } else {
                    None
                },
                _ => None,
            }
        },
    }
}

/// The author that `Author::parse` reads from the author line of a commit's bytes.
pub open spec fn parsed_author(data: Seq<u8>) -> Option<(Seq<char>, Seq<char>, i64)> {
    match commit_parts(data) {
        Some(p) => match author_groups(p.1) {
            Some(g) => author_from_groups(g),
            None => None,
        },
        None => None,
    }
}

impl Commit {
    /// The commit's object id, once set.
    pub closed spec fn oid_view(&self) -> Option<Seq<char>> {
        match self.oid {
            Some(o) => Some(o@),
            None => None,
        }
    }

    /// The id of the parent commit.
    pub closed spec fn parent_view(&self) -> Option<Seq<char>> {
        match self.parent {
            Some(p) => Some(p@),
            None => None,
        }
    }

    /// The id of the commit's tree.
    pub closed spec fn tree_view(&self) -> Seq<char> {
        self.tree@
    }

    /// The commit's author.
    pub closed spec fn author_view(&self) -> Author {
        self.author
    }

    /// The commit's message.
    pub closed spec fn message_view(&self) -> Seq<char> {
        self.message@
    }

    /// The text of the commit.
    pub open spec fn text(&self) -> Seq<char> {
        commit_text(self.tree_view(), author_line(self.author_view().name@, self.author_view().email@,
            self.author_view().timestamp), self.parent_view(), self.message_view())
    }

    /// A commit without an id.
    pub fn new(parent: Option<String>, tree: String, author: Author, message: String) -> (c: Self)
        ensures
            c.oid_view() is None,
            c.parent_view() == (match parent {
                Some(p) => Some(p@),
                None => None,
            }),
            c.tree_view() == tree@,
            c.author_view() == author,
            c.message_view() == message@,
    {
        Commit { oid: None, parent, tree, author, message }
    }

    /// A copy of the commit.
    pub fn copy(&self) -> (c: Self)
        ensures
            c.oid_view() == self.oid_view(),
            c.parent_view() == self.parent_view(),
            c.tree_view() == self.tree_view(),
            c.author_view() == self.author_view(),
            c.message_view() == self.message_view(),
    {
        let oid = match &self.oid {
            Some(o) => Some(o.clone()),
            None => None,
        };
        let parent = match &self.parent {
            Some(p) => Some(p.clone()),
            None => None,
        };
        let author = Author {
            name: self.author.name.clone(),
            email: self.author.email.clone(),
            timestamp: self.author.timestamp,
        };
        Commit { oid, parent, tree: self.tree.clone(), author, message: self.message.clone() }
    }

    /// Records the commit's object id.
    pub fn set_oid(&mut self, oid: String)
        ensures
            final(self).oid_view() == Some(oid@),
            final(self).parent_view() == old(self).parent_view(),
            final(self).tree_view() == old(self).tree_view(),
            final(self).author_view() == old(self).author_view(),
            final(self).message_view() == old(self).message_view(),
    {
        self.oid = Some(oid);
    }

    /// The commit's object id, once set.
    pub fn get_oid(&self) -> (r: Option<&String>)
        ensures
            r matches Some(o) ==> self.oid_view() == Some(o@),
            r is None ==> self.oid_view() is None,
    {
        self.oid.as_ref()
    }

    /// The id of the parent commit.
    pub fn get_parent(&self) -> (r: Option<&String>)
        ensures
            r matches Some(p) ==> self.parent_view() == Some(p@),
            r is None ==> self.parent_view() is None,
    {
        self.parent.as_ref()
    }

    /// The id of the commit's tree.
    pub fn get_tree(&self) -> (r: &str)
        ensures
            r@ == self.tree_view(),
    {
        self.tree.as_str()
    }

    /// The commit's author.
    pub fn get_author(&self) -> (r: &Author)
        ensures
            *r == self.author_view(),
    {
        &self.author
    }

    /// The commit's message.
    pub fn get_message(&self) -> (r: &str)
        ensures
            r@ == self.message_view(),
    {
        self.message.as_str()
    }

    /// The commit's bytes: the UTF-8 encoding of its text.
    pub fn to_bytes(&self) -> (r: Vec<u8>)
        ensures
            r@ == encode_utf8(self.text()),
    {
        let a = self.author.to_line();
        let mut s = crate::text::concat("tree ", self.tree.as_str());
        crate::text::push_str(&mut s, "\n");
        crate::text::push_str(&mut s, "author ");
        crate::text::push_str(&mut s, a.as_str());
        crate::text::push_str(&mut s, "\n");
        crate::text::push_str(&mut s, "committer ");
        crate::text::push_str(&mut s, a.as_str());
        crate::text::push_str(&mut s, "\n");
        let ghost before_parent = s@;
        if let Some(p) = &self.parent {
            crate::text::push_str(&mut s, "parent ");
            crate::text::push_str(&mut s, p.as_str());
            crate::text::push_str(&mut s, "\n");
        }
        crate::text::push_str(&mut s, "\n");
        crate::text::push_str(&mut s, self.message.as_str());
        proof {
            let pl: Seq<char> = match self.parent_view() {
                Some(p) => "parent "@ + p + "\n"@,
                None => Seq::empty(),
            };
            assert(s@ =~= self.text());
        }
        crate::stdtext::utf8_bytes(s.as_str())
    }

    /// Reads a commit from its bytes; the author line is read by `Author::parse`.
    pub fn parse(data: &[u8]) -> (r: Result<Commit, Error>)
        ensures
            r is Ok <==> parsed_author(data@) is Some,
            r matches Ok(c) ==> {
                let parts = commit_parts(data@)->0;
                let a = parsed_author(data@)->0;
                &&& c.oid_view() is None
                &&& c.tree_view() == parts.0
                &&& c.parent_view() == parts.2
                &&& c.message_view() == parts.3
                &&& (c.author_view().name@, c.author_view().email@, c.author_view().timestamp) == a
            },
    {
        let n = data.len();
        let mut lines: Vec<Vec<u8>> = Vec::new();
        let mut pos: usize = 0;
        assert(data@.skip(0) =~= data@);
        let ghost result = split_header(data@);
        let mut msg_start: usize = 0;
        loop
            invariant_except_break
                n == data@.len(),
                pos <= data@.len(),
                result == split_header(data@),
                result is Some <==> split_header(data@.skip(pos as int)) is Some,
                result is Some ==> (result->0).0 == lines@.map_values(|l: Vec<u8>| l@) + (split_header(data@.skip(pos as int))->0).0,
                result is Some ==> (result->0).1 == (split_header(data@.skip(pos as int))->0).1,
            ensures
                n == data@.len(),
                msg_start <= data@.len(),
                result is Some,
                (result->0).0 == lines@.map_values(|l: Vec<u8>| l@),
                (result->0).1 == data@.skip(msg_start as int),
            decreases data@.len() - pos,
        {
            let ghost d = data@.skip(pos as int);
            assert(data@.subrange(pos as int, data@.len() as int) =~= d);
            let k = match crate::bytes::find_byte(data, pos, 10) {
                Some(k) => k,
                None => {
                    return Err(crate::errors::error::generic("Invalid commit format: missing empty line after header"));
                },
            };
            assert(pos <= k && k < data@.len());
            if k == pos {
                proof {
                    assert(d.skip(1) =~= data@.skip(pos + 1));
                    assert(lines@.map_values(|l: Vec<u8>| l@) + Seq::<Seq<u8>>::empty() =~= lines@.map_values(|l: Vec<u8>| l@));
                }
                msg_start = pos + 1;
                break;
            }
            let line = crate::bytes::slice_bytes(data, pos, k);
            proof {
                crate::bytes::lemma_first_index_of(d, 10u8);
                assert(line@ =~= d.take(k - pos));
                assert(d.skip(k - pos + 1) =~= data@.skip(k + 1));
                if split_header(data@.skip(k + 1)) is Some {
                    let rest = split_header(data@.skip(k + 1))->0;
                    assert(split_header(d) == Some((seq![line@] + rest.0, rest.1)));
                    assert(lines@.push(line).map_values(|l: Vec<u8>| l@) =~= lines@.map_values(|l: Vec<u8>| l@).push(line@));
                    assert(lines@.map_values(|l: Vec<u8>| l@) + (seq![line@] + rest.0)
                        =~= lines@.map_values(|l: Vec<u8>| l@).push(line@) + rest.0);
                }
            }
            lines.push(line);
            pos = k + 1;
        }
        let ghost views = lines@.map_values(|l: Vec<u8>| l@);
        proof {
            assert(data@.skip(msg_start as int) =~= data@.subrange(msg_start as int, data@.len() as int));
        }
        let tree_bytes = header_value(&lines, "tree");
        let author_bytes = header_value(&lines, "author");
        let parent_bytes = header_value(&lines, "parent");
        let tree = match tree_bytes {
            Some(b) => match crate::stdtext::utf8_to_string(b.as_slice()) {
                Some(t) => t,
                None => {
                    return Err(crate::errors::error::generic("Invalid UTF-8 in commit tree"));
                },
            },
            None => {
                return Err(crate::errors::error::generic("Invalid commit format: missing tree"));
            },
        };
        let author_text = match author_bytes {
            Some(b) => match crate::stdtext::utf8_to_string(b.as_slice()) {
                Some(t) => t,
                None => {
                    return Err(crate::errors::error::generic("Invalid UTF-8 in commit author"));
                },
            },
            None => {
                return Err(crate::errors::error::generic("Invalid commit format: missing author"));
            },
        };
        let parent = match parent_bytes {
            Some(b) => match crate::stdtext::utf8_to_string(b.as_slice()) {
                Some(t) => Some(t),
                None => {
                    return Err(crate::errors::error::generic("Invalid UTF-8 in commit parent"));
                },
            },
            None => None,
        };
        let msg_bytes = crate::bytes::slice_bytes(data, msg_start, data.len());
        let message = match crate::stdtext::utf8_to_string(msg_bytes.as_slice()) {
            Some(m) => m,
            None => {
                return Err(crate::errors::error::generic("Invalid UTF-8 in commit message"));
            },
        };
        let author = match Author::parse(author_text.as_str()) {
            Ok(a) => a,
            Err(e) => {
                return Err(Error::Generic(e));
            },
        };
        Ok(Commit { oid: None, parent, tree, author, message })
    }
}

/// The value of the first header line starting with `key` and a space.
fn header_value(lines: &Vec<Vec<u8>>, key: &str) -> (r: Option<Vec<u8>>)
    ensures
        r matches Some(v) ==> header_field(lines@.map_values(|l: Vec<u8>| l@), encode_utf8(key@)) == Some(v@),
        r is None ==> header_field(lines@.map_values(|l: Vec<u8>| l@), encode_utf8(key@)) is None,
{
    let k = crate::stdtext::utf8_bytes(key);
    let ghost all = lines@.map_values(|l: Vec<u8>| l@);
    let mut i: usize = 0;
    assert(all.skip(0) =~= all);
    while i < lines.len()
        invariant
            i <= lines@.len(),
            all == lines@.map_values(|l: Vec<u8>| l@),
            k@ == encode_utf8(key@),
            header_field(all, k@) == header_field(all.skip(i as int), k@),
        decreases lines@.len() - i,
    {
        let line = &lines[i];
        assert(all.skip(i as int)[0] == line@);
        if k.len() < line.len() && line[k.len()] == 32u8 {
            let prefix = crate::bytes::slice_bytes(line.as_slice(), 0, k.len());
            if bytes_eq(prefix.as_slice(), k.as_slice()) {
                proof {
                    assert(prefix@ =~= line@.take(k@.len() as int));
                }
                let v = crate::bytes::slice_bytes(line.as_slice(), k.len() + 1, line.len());
                assert(v@ =~= line@.skip(k@.len() as int + 1));
                return Some(v);
            }
            proof {
                assert(prefix@ =~= line@.take(k@.len() as int));
            }
        }
        assert(all.skip(i as int).drop_first() =~= all.skip(i + 1));
        i += 1;
    }
    None
}

/// Equality of two byte slices.
fn bytes_eq(a: &[u8], b: &[u8]) -> (r: bool)
    ensures
        r == (a@ == b@),
{
    if a.len() != b.len() {
        return false;
    }
    let mut i: usize = 0;
    while i < a.len()
        invariant
            a@.len() == b@.len(),
            i <= a@.len(),
            forall|j: int| 0 <= j < i ==> a@[j] == b@[j],
        decreases a@.len() - i,
    {
        if a[i] != b[i] {
            return false;
        }
        i += 1;
    }
    assert(a@ =~= b@);
    true
}

impl GitObject for Commit {
    open spec fn kind(&self) -> Seq<char> {
        "commit"@
    }

    open spec fn body(&self) -> Seq<u8> {
        encode_utf8(self.text())
    }

    open spec fn id(&self) -> Option<Seq<char>> {
        self.oid_view()
    }

    fn get_type(&self) -> (r: &str) {
        "commit"
    }

    fn to_bytes(&self) -> (r: Vec<u8>) {
        Commit::to_bytes(self)
    }

    fn set_oid(&mut self, oid: String) {
        Commit::set_oid(self, oid)
    }
}

} // verus!
