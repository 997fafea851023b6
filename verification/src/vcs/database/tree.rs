//! Tree objects: the entries of one directory, each stored as
//! `<mode> <name>\0<twenty-byte object id>`, in the order of their names.
use vstd::prelude::*;
use vstd::utf8::{encode_utf8, decode_utf8, valid_utf8};
use crate::numeral::{octal, decimal};
use crate::digest::{hex_of, hex_decoded, is_object_id};
use crate::bytes::first_index_of;
use crate::order::text_lt;
use crate::vcs::file_mode::{parse_mode, mode_is_directory};
use crate::errors::error::Error;
use crate::vcs::database::database::GitObject;

verus! {

/// Mode written for subtrees (that of directories).
pub const TREE_MODE: u32 = 0o040000;

/// What a name of a tree stands for: a blob with its id and mode, or a subtree.
#[derive(Debug)]
pub enum TreeEntry {
    Blob(String, u32),
    Tree(Box<Tree>),
}

/// A directory: its object id once stored, and its entries ordered by name.
#[derive(Debug)]
pub struct Tree {
    oid: Option<String>,
    entries: Vec<(String, TreeEntry)>,
}

/// What a tree records of an entry: a blob's id and mode, or a subtree's id.
pub ghost enum EntryView {
    Blob(Seq<char>, u32),
    Tree(Option<Seq<char>>),
}

/// The record of an entry.
pub open spec fn entry_view(e: TreeEntry) -> EntryView {
    match e {
        TreeEntry::Blob(oid, mode) => EntryView::Blob(oid@, mode),
        TreeEntry::Tree(t) => EntryView::Tree(t.oid_view()),
    }
}

/// Names strictly increase along the entries (so no name occurs twice).
pub open spec fn sorted(s: Seq<(Seq<char>, EntryView)>) -> bool {
    forall|i: int, j: int| 0 <= i < j < s.len() ==> text_lt(#[trigger] s[i].0, #[trigger] s[j].0)
}

/// The entries after setting `name` to `ev`: replaced where the name is,
/// else inserted before the first larger name.
pub open spec fn insert_sorted(s: Seq<(Seq<char>, EntryView)>, name: Seq<char>, ev: EntryView) -> Seq<(Seq<char>, EntryView)>
    decreases s.len(),
{
    if s.len() == 0 {
        seq![(name, ev)]
    } else if s[0].0 == name {
        seq![(name, ev)] + s.drop_first()
    } else if text_lt(name, s[0].0) {
        seq![(name, ev)] + s
    } else {
        seq![s[0]] + insert_sorted(s.drop_first(), name, ev)
    }
}

/// The entries after setting each of `raw`, in turn, into `base`.
pub open spec fn insert_all(base: Seq<(Seq<char>, EntryView)>, raw: Seq<(Seq<char>, EntryView)>) -> Seq<(Seq<char>, EntryView)>
    decreases raw.len(),
{
    if raw.len() == 0 {
        base
    } else {
        insert_all(insert_sorted(base, raw[0].0, raw[0].1), raw.drop_first())
    }
}

/// Twenty zero bytes.
pub open spec fn zero_id() -> Seq<u8> {
    Seq::new(20, |i: int| 0u8)
}

/// The twenty bytes written for an object id: its hexadecimal decoding cut or
/// padded with zeros to twenty bytes, or zeros when there is no id or it is not
/// hexadecimal.
pub open spec fn id_field(oid: Option<Seq<char>>) -> Seq<u8> {
    match oid {
        None => zero_id(),
        Some(o) => match hex_decoded(o) {
            None => zero_id(),
            Some(b) => if b.len() >= 20 {
                b.take(20)
            } else {
                b + Seq::new((20 - b.len()) as nat, |i: int| 0u8)
            },
        },
    }
}

/// The mode text of an entry: octal for blobs, the decimal numeral of the
/// directory mode for subtrees.
pub open spec fn mode_text(ev: EntryView) -> Seq<char> {
    match ev {
        EntryView::Blob(_, m) => octal(m as nat),
        EntryView::Tree(_) => decimal(TREE_MODE as nat),
    }
}

/// The id recorded for an entry.
pub open spec fn entry_id(ev: EntryView) -> Option<Seq<char>> {
    match ev {
        EntryView::Blob(o, _) => Some(o),
        EntryView::Tree(o) => o,
    }
}

/// The bytes of one entry.
pub open spec fn entry_bytes(name: Seq<char>, ev: EntryView) -> Seq<u8> {
    encode_utf8(mode_text(ev)) + seq![32u8] + encode_utf8(name) + seq![0u8] + id_field(entry_id(ev))
}

/// The bytes of a tree: its entries' bytes one after the other.
pub open spec fn tree_bytes(s: Seq<(Seq<char>, EntryView)>) -> Seq<u8>
    decreases s.len(),
{
    if s.len() == 0 {
        seq![]
    } else {
        tree_bytes(s.drop_last()) + entry_bytes(s.last().0, s.last().1)
    }
}

/// The entries that the bytes of a tree hold, in the order they come: each
/// is a mode text up to the first space, a name up to the next zero byte
/// (both UTF-8), and twenty bytes of id; a directory mode marks a subtree.
/// `None` when the bytes do not have that shape.
pub open spec fn parse_raw(data: Seq<u8>) -> Option<Seq<(Seq<char>, EntryView)>>
    decreases data.len(),
{
    if data.len() == 0 {
        Some(seq![])
    } else {
        match first_index_of(data, 32u8) {
            None => None,
            Some(sp) => {
                let rest = data.skip(sp + 1);
                if !valid_utf8(data.take(sp)) {
                    None
                } else {
                    match first_index_of(rest, 0u8) {
                        None => None,
                        Some(nl) => {
                            if !valid_utf8(rest.take(nl)) || nl + 21 > rest.len() {
                                None
                            } else {
                                proof {
                                    crate::bytes::lemma_first_index_of(data, 32u8);
                                    crate::bytes::lemma_first_index_of(rest, 0u8);
                                }
                                let mode = parse_mode(decode_utf8(data.take(sp)));
                                let oid = hex_of(rest.subrange(nl + 1, nl + 21));
                                let ev = if mode_is_directory(mode) {
                                    EntryView::Tree(Some(oid))
                                } else {
                                    EntryView::Blob(oid, mode)
                                };
                                match parse_raw(rest.skip(nl + 21)) {
                                    None => None,
                                    Some(t) => Some(seq![(decode_utf8(rest.take(nl)), ev)] + t),
                                }
                            }
                        },
                    }
                }
            },
        }
    }
}

impl View for Tree {
    type V = Seq<(Seq<char>, EntryView)>;

    open spec fn view(&self) -> Seq<(Seq<char>, EntryView)> {
        self.entries_view()
    }
}

impl Tree {
    /// The entries' names and records, in order.
    pub closed spec fn entries_view(&self) -> Seq<(Seq<char>, EntryView)> {
        self.entries@.map_values(|p: (String, TreeEntry)| (p.0@, entry_view(p.1)))
    }

    /// The tree's object id, once set.
    pub closed spec fn oid_view(&self) -> Option<Seq<char>> {
        match self.oid {
            Some(o) => Some(o@),
            None => None,
        }
    }

    /// Entries are ordered by name.
    pub open spec fn wf(&self) -> bool {
        sorted(self@)
    }

    /// An empty tree without an id.
    pub fn new() -> (t: Self)
        ensures
            t@ == Seq::<(Seq<char>, EntryView)>::empty(),
            t.oid_view() is None,
            t.wf(),
    {
        let t = Tree { oid: None, entries: Vec::new() };
        assert(t@ =~= Seq::<(Seq<char>, EntryView)>::empty());
        t
    }

    /// The entries, ordered by name.
    pub fn get_entries(&self) -> (r: &Vec<(String, TreeEntry)>)
        ensures
            r@.map_values(|p: (String, TreeEntry)| (p.0@, entry_view(p.1))) == self@,
    {
        &self.entries
    }

    /// The tree's object id, once set.
    pub fn get_oid(&self) -> (r: Option<&String>)
        ensures
            r matches Some(o) ==> self.oid_view() == Some(o@),
            r is None ==> self.oid_view() is None,
    {
        self.oid.as_ref()
    }

    /// Records the tree's object id.
    pub fn set_oid(&mut self, oid: String)
        ensures
            final(self).oid_view() == Some(oid@),
            final(self)@ == old(self)@,
    {
        self.oid = Some(oid);
    }

    /// A copy of the tree in which subtrees keep only their ids.
    pub fn shallow_copy(&self) -> (t: Tree)
        ensures
            t@ == self@,
            t.oid_view() == self.oid_view(),
    {
        let mut entries: Vec<(String, TreeEntry)> = Vec::new();
        let mut i: usize = 0;
        while i < self.entries.len()
            invariant
                i <= self.entries@.len(),
                entries@.map_values(|p: (String, TreeEntry)| (p.0@, entry_view(p.1))) == self@.take(i as int),
            decreases self.entries@.len() - i,
        {
            let (name, e) = &self.entries[i];
            let copy = match e {
                TreeEntry::Blob(o, m) => TreeEntry::Blob(o.clone(), *m),
                TreeEntry::Tree(sub) => {
                    let mut st = Tree::new();
                    match &sub.oid {
                        Some(o) => st.set_oid(o.clone()),
                        None => {},
                    }
                    TreeEntry::Tree(Box::new(st))
                },
            };
            assert(entry_view(copy) == entry_view(*e));
            let ghost prev = entries@;
            let n = name.clone();
            assert(self@[i as int] == (n@, entry_view(copy)));
            entries.push((n, copy));
            proof {
                assert(entries@.map_values(|p: (String, TreeEntry)| (p.0@, entry_view(p.1)))
                    =~= prev.map_values(|p: (String, TreeEntry)| (p.0@, entry_view(p.1))).push(self@[i as int]));
                assert(self@.take(i + 1) =~= self@.take(i as int).push(self@[i as int]));
            }
            i += 1;
        }
        let oid = match &self.oid {
            Some(o) => Some(o.clone()),
            None => None,
        };
        let t = Tree { oid, entries };
        assert(self@.take(self@.len() as int) =~= self@);
        assert(t@ =~= self@);
        t
    }

    /// Sets the entry of `name`, keeping the entries ordered.
    pub fn insert_entry(&mut self, name: String, entry: TreeEntry)
        requires
            old(self).wf(),
        ensures
            final(self)@ == insert_sorted(old(self)@, name@, entry_view(entry)),
            final(self).oid_view() == old(self).oid_view(),
            final(self).wf(),
    {
        let ghost s = self@;
        let ghost ev = entry_view(entry);
        proof {
            lemma_insert_sorted_sorted(s, name@, ev);
            assert(s.skip(0) =~= s);
            assert(s.take(0) =~= Seq::<(Seq<char>, EntryView)>::empty());
        }
        let mut i: usize = 0;
        while i < self.entries.len()
            invariant
                i <= self.entries@.len(),
                self@ == s,
                s == old(self)@,
                sorted(insert_sorted(s, name@, ev)),
                self.oid_view() == old(self).oid_view(),
                s.len() == self.entries@.len(),
                ev == entry_view(entry),
                insert_sorted(s, name@, ev) == s.take(i as int) + insert_sorted(s.skip(i as int), name@, ev),
            decreases self.entries@.len() - i,
        {
            let ghost rest = s.skip(i as int);
            assert(rest[0] == s[i as int]);
            assert(s[i as int].0 == self.entries@[i as int].0@);
            if crate::text::str_eq(self.entries[i].0.as_str(), name.as_str()) {
                let ghost before = self.entries@;
                self.entries.set(i, (name, entry));
                proof {
                    assert(rest.len() > 0 && rest[0].0 == name@);
                    assert(insert_sorted(rest, name@, ev) == seq![(name@, ev)] + rest.drop_first());
                    assert(self@ =~= s.take(i as int) + (seq![(name@, ev)] + rest.drop_first()));
                }
                return;
            }
            if crate::order::text_less(name.as_str(), self.entries[i].0.as_str()) {
                self.entries.insert(i, (name, entry));
                proof {
                    assert(self@ =~= s.take(i as int) + (seq![(name@, ev)] + rest));
                }
                return;
            }
            proof {
                assert(rest.drop_first() =~= s.skip(i + 1));
                assert(s.take(i + 1) =~= s.take(i as int) + seq![s[i as int]]);
                assert(insert_sorted(rest, name@, ev) == seq![rest[0]] + insert_sorted(s.skip(i + 1), name@, ev));
                assert(s.take(i as int) + (seq![rest[0]] + insert_sorted(s.skip(i + 1), name@, ev))
                    =~= s.take(i + 1) + insert_sorted(s.skip(i + 1), name@, ev));
            }
            i += 1;
        }
        self.entries.push((name, entry));
        proof {
            assert(s.skip(i as int) =~= Seq::<(Seq<char>, EntryView)>::empty());
            assert(s.take(i as int) =~= s);
            assert(self@ =~= s + seq![(name@, ev)]);
        }
    }

    /// The tree's bytes: each entry's mode text, a space, its name, a zero
    /// byte and its id as twenty bytes, in the order of the names.
    pub fn to_bytes(&self) -> (r: Vec<u8>)
        ensures
            r@ == tree_bytes(self@),
    {
        let mut result: Vec<u8> = Vec::new();
        let mut i: usize = 0;
        while i < self.entries.len()
            invariant
                i <= self.entries@.len(),
                result@ == tree_bytes(self@.take(i as int)),
            decreases self.entries@.len() - i,
        {
            let (name, entry) = &self.entries[i];
            let bytes = match entry {
                TreeEntry::Blob(oid, mode) => {
                    let m = crate::vcs::file_mode::FileMode::to_octal_string(*mode);
                    entry_record(m.as_str(), name.as_str(), Some(oid.as_str()))
                },
                TreeEntry::Tree(subtree) => {
                    let m = crate::numeral::format_decimal(TREE_MODE as u64);
                    match &subtree.oid {
                        Some(o) => entry_record(m.as_str(), name.as_str(), Some(o.as_str())),
                        None => entry_record(m.as_str(), name.as_str(), None),
                    }
                },
            };
            proof {
                let t = self@.take(i + 1);
                assert(t.drop_last() =~= self@.take(i as int));
                assert(t.last() == self@[i as int]);
            }
            crate::bytes::extend(&mut result, bytes.as_slice());
            i += 1;
        }
        assert(self@.take(self@.len() as int) =~= self@);
        result
    }

    /// Reads a tree from its bytes. Entries whose mode is a directory's
    /// become subtrees that carry only their id.
    pub fn parse(data: &[u8]) -> (r: Result<Tree, Error>)
        ensures
            r is Ok <==> parse_raw(data@) is Some,
            r matches Ok(t) ==> t.wf() && t.oid_view() is None
                && t@ == insert_all(Seq::empty(), parse_raw(data@)->0),
    {
        let mut tree = Tree::new();
        let mut pos: usize = 0;
        assert(data@.skip(0) =~= data@);
        while pos < data.len()
            invariant
                pos <= data@.len(),
                tree.wf(),
                tree.oid_view() is None,
                parse_raw(data@) is Some <==> parse_raw(data@.skip(pos as int)) is Some,
                parse_raw(data@) is Some ==> insert_all(Seq::empty(), parse_raw(data@)->0)
                    == insert_all(tree@, parse_raw(data@.skip(pos as int))->0),
            decreases data@.len() - pos,
        {
            let ghost d = data@.skip(pos as int);
            assert(data@.subrange(pos as int, data@.len() as int) =~= d);
            let sp = match crate::bytes::find_byte(data, pos, 32) {
                Some(k) => k,
                None => {
                    return Err(crate::errors::error::generic("Invalid tree format: missing space after mode"));
                },
            };
            let mode_bytes = crate::bytes::slice_bytes(data, pos, sp);
            assert(mode_bytes@ =~= d.take(sp - pos));
            let mode_str = match crate::stdtext::utf8_to_string(mode_bytes.as_slice()) {
                Some(s) => s,
                None => {
                    return Err(crate::errors::error::generic("Invalid UTF-8 in mode"));
                },
            };
            let mode = crate::vcs::file_mode::FileMode::parse(mode_str.as_str());
            let ghost rest = d.skip(sp - pos + 1);
            assert(data@.subrange(sp + 1, data@.len() as int) =~= rest);
            let nl = match crate::bytes::find_byte(data, sp + 1, 0) {
                Some(k) => k,
                None => {
                    return Err(crate::errors::error::generic("Invalid tree format: missing null terminator after name"));
                },
            };
            let name_bytes = crate::bytes::slice_bytes(data, sp + 1, nl);
            assert(name_bytes@ =~= rest.take(nl - sp - 1));
            let name = match crate::stdtext::utf8_to_string(name_bytes.as_slice()) {
                Some(s) => s,
                None => {
                    return Err(crate::errors::error::generic("Invalid UTF-8 in name"));
                },
            };
            if data.len() < 21 || nl > data.len() - 21 {
                return Err(crate::errors::error::generic("Invalid tree format: truncated SHA-1"));
            }
            let id_bytes = crate::bytes::slice_bytes(data, nl + 1, nl + 21);
            assert(id_bytes@ =~= rest.subrange(nl - sp - 1 + 1, nl - sp - 1 + 21));
            let oid = crate::digest::hex_encode(id_bytes.as_slice());
            let entry = if crate::vcs::file_mode::FileMode::is_directory(mode) {
                let mut subtree = Tree::new();
                subtree.set_oid(oid);
                TreeEntry::Tree(Box::new(subtree))
            } else {
                TreeEntry::Blob(oid, mode)
            };
            let ghost ev = entry_view(entry);
            let ghost raw_here = (name@, ev);
            proof {
                assert(rest.skip(nl - sp - 1 + 21) =~= data@.skip(nl + 21));
                if parse_raw(data@.skip(nl + 21)) is Some {
                    let t = parse_raw(data@.skip(nl + 21))->0;
                    assert(parse_raw(d) == Some(seq![raw_here] + t));
                    assert((seq![raw_here] + t).drop_first() =~= t);
                    assert((seq![raw_here] + t)[0] == raw_here);
                }
            }
            tree.insert_entry(name, entry);
            pos = nl + 21;
        }
        assert(data@.skip(pos as int) =~= Seq::<u8>::empty());
        Ok(tree)
    }
}

impl GitObject for Tree {
    open spec fn kind(&self) -> Seq<char> {
        "tree"@
    }

    open spec fn body(&self) -> Seq<u8> {
        tree_bytes(self@)
    }

    open spec fn id(&self) -> Option<Seq<char>> {
        self.oid_view()
    }

    fn get_type(&self) -> (r: &str) {
        "tree"
    }

    fn to_bytes(&self) -> (r: Vec<u8>) {
        Tree::to_bytes(self)
    }

    fn set_oid(&mut self, oid: String) {
        Tree::set_oid(self, oid)
    }
}

/// Bytes of one entry from its mode text, name and id.
fn entry_record(mode: &str, name: &str, oid: Option<&str>) -> (r: Vec<u8>)
    ensures
        r@ == encode_utf8(mode@) + seq![32u8] + encode_utf8(name@) + seq![0u8] + id_field(
            match oid {
                Some(o) => Some(o@),
                None => None,
            },
        ),
{
    let mut r = crate::stdtext::utf8_bytes(mode);
    r.push(32u8);
    let n = crate::stdtext::utf8_bytes(name);
    crate::bytes::extend(&mut r, n.as_slice());
    r.push(0u8);
    let id = id_bytes(oid);
    crate::bytes::extend(&mut r, id.as_slice());
    r
}

/// Twenty bytes of an id.
fn id_bytes(oid: Option<&str>) -> (r: Vec<u8>)
    ensures
        r@ == id_field(
            match oid {
                Some(o) => Some(o@),
                None => None,
            },
        ),
{
    let decoded = match oid {
        Some(o) => crate::digest::hex_decode(o),
        None => None,
    };
    let mut r: Vec<u8> = Vec::new();
    match decoded {
        Some(b) => {
            let mut i: usize = 0;
            while i < 20
                invariant
                    i <= 20,
                    r@.len() == i,
                    forall|k: int| 0 <= k < i ==> r@[k] == (if k < b@.len() { b@[k] } else { 0u8 }),
                decreases 20 - i,
            {
                if i < b.len() {
                    r.push(b[i]);
                } else {
                    r.push(0u8);
                }
                i += 1;
            }
            proof {
                let f = id_field(match oid { Some(o) => Some(o@), None => None });
                assert(f.len() == 20);
                assert forall|k: int| 0 <= k < 20 implies r@[k] == f[k] by {}
                assert(r@ =~= f);
            }
        },
        None => {
            let mut i: usize = 0;
            while i < 20
                invariant
                    i <= 20,
                    r@ == Seq::new(i as nat, |k: int| 0u8),
                decreases 20 - i,
            {
                r.push(0u8);
                i += 1;
                assert(r@ =~= Seq::new(i as nat, |k: int| 0u8));
            }
        },
    }
    r
}

/// Setting an entry into ordered entries keeps them ordered.
pub proof fn lemma_insert_sorted_sorted(s: Seq<(Seq<char>, EntryView)>, name: Seq<char>, ev: EntryView)
    requires
        sorted(s),
    ensures
        sorted(insert_sorted(s, name, ev)),
    decreases s.len(),
{
    let r = insert_sorted(s, name, ev);
    if s.len() == 0 {
    } else if s[0].0 == name {
        assert forall|i: int, j: int| 0 <= i < j < r.len() implies text_lt(#[trigger] r[i].0, #[trigger] r[j].0) by {
            assert(r[j] == s[j]);
            if i > 0 {
                assert(r[i] == s[i]);
            }
        }
    } else if text_lt(name, s[0].0) {
        assert forall|i: int, j: int| 0 <= i < j < r.len() implies text_lt(#[trigger] r[i].0, #[trigger] r[j].0) by {
            assert(r[j] == s[j - 1]);
            if i > 0 {
                assert(r[i] == s[i - 1]);
            } else if j > 1 {
                crate::order::lemma_text_lt_transitive(name, s[0].0, s[j - 1].0);
            }
        }
    } else {
        let t = s.drop_first();
        assert forall|i: int, j: int| 0 <= i < j < t.len() implies text_lt(#[trigger] t[i].0, #[trigger] t[j].0) by {
            assert(t[i] == s[i + 1] && t[j] == s[j + 1]);
        }
        lemma_insert_sorted_sorted(t, name, ev);
        crate::order::lemma_text_lt_total(name, s[0].0);
        assert forall|k: int| 0 <= k < t.len() implies text_lt(s[0].0, #[trigger] t[k].0) by {
            assert(t[k] == s[k + 1]);
        }
        lemma_insert_lower_bound(t, name, ev, s[0].0);
        let u = insert_sorted(t, name, ev);
        assert forall|i: int, j: int| 0 <= i < j < r.len() implies text_lt(#[trigger] r[i].0, #[trigger] r[j].0) by {
            assert(r[j] == u[j - 1]);
            if i > 0 {
                assert(r[i] == u[i - 1]);
            }
        }
    }
}

/// A text before `name` and before every entry is before every entry after setting `name`.
proof fn lemma_insert_lower_bound(s: Seq<(Seq<char>, EntryView)>, name: Seq<char>, ev: EntryView, x: Seq<char>)
    requires
        forall|k: int| 0 <= k < s.len() ==> text_lt(x, #[trigger] s[k].0),
        text_lt(x, name),
    ensures
        forall|k: int| 0 <= k < insert_sorted(s, name, ev).len() ==> text_lt(x, #[trigger] insert_sorted(s, name, ev)[k].0),
    decreases s.len(),
{
    let r = insert_sorted(s, name, ev);
    if s.len() == 0 {
    } else if s[0].0 == name {
        assert forall|k: int| 0 <= k < r.len() implies text_lt(x, #[trigger] r[k].0) by {
            if k > 0 {
                assert(r[k] == s[k]);
            }
        }
    } else if text_lt(name, s[0].0) {
        assert forall|k: int| 0 <= k < r.len() implies text_lt(x, #[trigger] r[k].0) by {
            if k > 0 {
                assert(r[k] == s[k - 1]);
            }
        }
    } else {
        let t = s.drop_first();
        assert forall|k: int| 0 <= k < t.len() implies text_lt(x, #[trigger] t[k].0) by {
            assert(t[k] == s[k + 1]);
        }
        lemma_insert_lower_bound(t, name, ev, x);
        let u = insert_sorted(t, name, ev);
        assert forall|k: int| 0 <= k < r.len() implies text_lt(x, #[trigger] r[k].0) by {
            if k > 0 {
                assert(r[k] == u[k - 1]);
            }
        }
    }
}

/// An entry that reads back as it was written: its name has no NUL
/// character; a blob has an object id and a mode that is no directory's and
/// whose octal text reads back as the mode; a subtree has an object id.
pub open spec fn round_trips(name: Seq<char>, ev: EntryView) -> bool {
    &&& forall|i: int| 0 <= i < name.len() ==> name[i] != '\0'
    &&& match ev {
        EntryView::Blob(o, m) => is_object_id(o) && !mode_is_directory(m) && parse_mode(octal(m as nat)) == m,
        EntryView::Tree(o) => o is Some && is_object_id(o->0),
    }
}

/// The bytes of entries split after the first entry.
proof fn lemma_tree_bytes_front(s: Seq<(Seq<char>, EntryView)>)
    requires
        s.len() > 0,
    ensures
        tree_bytes(s) == entry_bytes(s[0].0, s[0].1) + tree_bytes(s.drop_first()),
    decreases s.len(),
{
    if s.len() == 1 {
        assert(s.drop_last() =~= Seq::<(Seq<char>, EntryView)>::empty());
        assert(s.drop_first() =~= Seq::<(Seq<char>, EntryView)>::empty());
        assert(tree_bytes(s.drop_last()) =~= Seq::<u8>::empty());
        assert(s.last() == s[0]);
        assert(tree_bytes(s) =~= entry_bytes(s[0].0, s[0].1));
        assert(tree_bytes(s.drop_first()) =~= Seq::<u8>::empty());
    } else {
        lemma_tree_bytes_front(s.drop_last());
        assert(s.drop_last().drop_first() =~= s.drop_first().drop_last());
        assert(s.drop_first().last() == s.last());
        assert(s.drop_last()[0] == s[0]);
        let e0 = entry_bytes(s[0].0, s[0].1);
        let m = tree_bytes(s.drop_first().drop_last());
        let el = entry_bytes(s.last().0, s.last().1);
        assert((e0 + m) + el =~= e0 + (m + el));
    }
}

/// Mode texts are digits: ASCII, with no space, reading back as themselves.
proof fn lemma_mode_text_bytes(ev: EntryView)
    ensures
        mode_text(ev).len() > 0,
        crate::bytes::lacks_byte(encode_utf8(mode_text(ev)), 32u8),
        valid_utf8(encode_utf8(mode_text(ev))),
        decode_utf8(encode_utf8(mode_text(ev))) == mode_text(ev),
{
    let t = mode_text(ev);
    let radix: nat = match ev {
        EntryView::Blob(_, _) => 8,
        EntryView::Tree(_) => 10,
    };
    let n: nat = match ev {
        EntryView::Blob(_, m) => m as nat,
        EntryView::Tree(_) => TREE_MODE as nat,
    };
    crate::numeral::lemma_radix_digits(n, radix);
    assert(t == crate::numeral::radix_digits(n, radix));
    assert forall|i: int| 0 <= i < t.len() implies (#[trigger] t[i] as u32) < 128 by {
        assert(crate::numeral::is_radix_digit(t[i], radix));
    }
    crate::bytes::lemma_ascii_utf8(t);
    let b = encode_utf8(t);
    assert forall|i: int| 0 <= i < b.len() implies b[i] != 32u8 by {
        assert(crate::numeral::is_radix_digit(t[i], radix));
        assert(b[i] == (t[i] as u32) as u8);
    }
    vstd::utf8::encode_utf8_valid_utf8(t);
    vstd::utf8::encode_utf8_decode_utf8(t);
}

/// The octal text of a file mode between `0o100000` and `0o177777` reads back
/// as the mode; regular files, executables and symbolic links have such modes.
pub proof fn lemma_mode_round_trip(m: u32)
    requires
        0o100000 <= m < 0o200000,
    ensures
        parse_mode(octal(m as nat)) == m,
        !mode_is_directory(m),
{
    crate::vcs::file_mode::lemma_octal_mode_round_trip(m);
    assert(0o100000 <= m < 0o200000 ==> (m & 0o170000u32) != 0o040000u32) by (bit_vector);
}

/// The decimal text of the directory mode reads back as a directory mode.
proof fn lemma_tree_mode_round_trip()
    ensures
        parse_mode(decimal(TREE_MODE as nat)) == TREE_MODE,
        mode_is_directory(TREE_MODE),
{
    let t = decimal(TREE_MODE as nat);
    reveal_with_fuel(crate::numeral::radix_digits, 7);
    crate::numeral::lemma_radix_digits(TREE_MODE as nat, 10);
    assert(t.len() == 5);
    assert(crate::numeral::digit_value(t[0]) == 1);
    crate::vcs::file_mode::lemma_trim_digits(t, 10);
    assert(crate::numeral::digit_value(t[3]) == 8);
    assert(!crate::numeral::is_radix_digit(t[3], 8));
    crate::numeral::lemma_parse_radix_digits(TREE_MODE as nat, 10, crate::vcs::file_mode::u32_max());
    assert((0o040000u32 & 0o170000u32) == 0o040000u32) by (bit_vector);
}

/// Reading the bytes of an entry followed by more bytes gives the entry
/// followed by what those bytes hold.
proof fn lemma_entry_parses(name: Seq<char>, ev: EntryView, tail: Seq<u8>)
    requires
        round_trips(name, ev),
    ensures
        parse_raw(entry_bytes(name, ev) + tail) == match parse_raw(tail) {
            None => None,
            Some(t) => Some(seq![(name, ev)] + t),
        },
{
    let a = encode_utf8(mode_text(ev));
    let b = encode_utf8(name);
    let o = entry_id(ev)->0;
    let c = id_field(entry_id(ev));
    let data = entry_bytes(name, ev) + tail;
    lemma_mode_text_bytes(ev);
    crate::digest::lemma_object_id_decodes(o);
    assert(c =~= hex_decoded(o)->0);
    let after = seq![32u8] + b + seq![0u8] + c + tail;
    assert(data =~= a + after);
    crate::bytes::lemma_first_index_of_concat(a, after, 32u8);
    let sp = a.len() as int;
    assert(data.take(sp) =~= a);
    let rest = data.skip(sp + 1);
    assert(rest =~= b + (seq![0u8] + c + tail));
    crate::bytes::lemma_utf8_no_nul(name);
    crate::bytes::lemma_first_index_of_concat(b, seq![0u8] + c + tail, 0u8);
    let nl = b.len() as int;
    assert(rest.take(nl) =~= b);
    vstd::utf8::encode_utf8_valid_utf8(name);
    vstd::utf8::encode_utf8_decode_utf8(name);
    assert(rest.subrange(nl + 1, nl + 21) =~= c);
    assert(rest.skip(nl + 21) =~= tail);
    match ev {
        EntryView::Blob(_, m) => {},
        EntryView::Tree(_) => {
            lemma_tree_mode_round_trip();
        },
    }
    assert(data.len() > 0);
}

/// Bytes of ordered entries that round-trip read back as those entries.
proof fn lemma_parse_tree_bytes(s: Seq<(Seq<char>, EntryView)>)
    requires
        forall|i: int| 0 <= i < s.len() ==> round_trips(#[trigger] s[i].0, s[i].1),
    ensures
        parse_raw(tree_bytes(s)) == Some(s),
    decreases s.len(),
{
    if s.len() > 0 {
        let r = s.drop_first();
        assert forall|i: int| 0 <= i < r.len() implies round_trips(#[trigger] r[i].0, r[i].1) by {
            assert(r[i] == s[i + 1]);
            assert(round_trips(s[i + 1].0, s[i + 1].1));
        }
        lemma_parse_tree_bytes(r);
        lemma_tree_bytes_front(s);
        assert(round_trips(s[0].0, s[0].1));
        lemma_entry_parses(s[0].0, s[0].1, tree_bytes(r));
        assert(seq![(s[0].0, s[0].1)] + r =~= s);
    } else {
        assert(tree_bytes(s) =~= Seq::<u8>::empty());
        assert(s =~= Seq::<(Seq<char>, EntryView)>::empty());
    }
}

/// Setting a name larger than all names appends it.
proof fn lemma_insert_at_end(b: Seq<(Seq<char>, EntryView)>, name: Seq<char>, ev: EntryView)
    requires
        forall|k: int| 0 <= k < b.len() ==> text_lt(#[trigger] b[k].0, name),
    ensures
        insert_sorted(b, name, ev) == b.push((name, ev)),
    decreases b.len(),
{
    if b.len() > 0 {
        let r = b.drop_first();
        assert forall|k: int| 0 <= k < r.len() implies text_lt(#[trigger] r[k].0, name) by {
            assert(r[k] == b[k + 1]);
        }
        lemma_insert_at_end(r, name, ev);
        assert(text_lt(b[0].0, name));
        crate::order::lemma_text_lt_asymmetric(b[0].0, name);
        crate::order::lemma_text_lt_asymmetric(name, name);
        assert(seq![b[0]] + r.push((name, ev)) =~= b.push((name, ev)));
    } else {
        assert(seq![(name, ev)] =~= b.push((name, ev)));
    }
}

/// Setting ordered entries one by one after smaller ones appends them.
proof fn lemma_insert_all_sorted(base: Seq<(Seq<char>, EntryView)>, s: Seq<(Seq<char>, EntryView)>)
    requires
        sorted(base + s),
    ensures
        insert_all(base, s) == base + s,
    decreases s.len(),
{
    if s.len() > 0 {
        let all = base + s;
        assert forall|k: int| 0 <= k < base.len() implies text_lt(#[trigger] base[k].0, s[0].0) by {
            assert(all[k] == base[k] && all[base.len() as int] == s[0]);
        }
        lemma_insert_at_end(base, s[0].0, s[0].1);
        assert(base.push((s[0].0, s[0].1)) + s.drop_first() =~= all);
        lemma_insert_all_sorted(base.push((s[0].0, s[0].1)), s.drop_first());
    } else {
        assert(base + s =~= base);
    }
}

/// A tree read back from its bytes has the entries it was written with, when
/// each of them round-trips.
pub proof fn lemma_tree_round_trip(entries: Seq<(Seq<char>, EntryView)>)
    requires
        sorted(entries),
        forall|i: int| 0 <= i < entries.len() ==> round_trips(#[trigger] entries[i].0, entries[i].1),
    ensures
        parse_raw(tree_bytes(entries)) == Some(entries),
        insert_all(Seq::empty(), parse_raw(tree_bytes(entries))->0) == entries,
{
    lemma_parse_tree_bytes(entries);
    assert(Seq::<(Seq<char>, EntryView)>::empty() + entries =~= entries);
    lemma_insert_all_sorted(Seq::empty(), entries);
}

} // verus!
