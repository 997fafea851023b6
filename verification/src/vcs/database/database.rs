//! The object database: objects are stored under the SHA-1 of their
//! serialized form, `<type> <size>\0<content>`, compressed with zlib.
use vstd::prelude::*;
use vstd::utf8::{encode_utf8, decode_utf8, valid_utf8};
use crate::numeral::{decimal, parse_radix_spec};
use crate::digest::{hex_of, sha1_digest};
use crate::bytes::first_index_of;
use crate::text::split_char;
use crate::compression::{zlib_compressed, zlib_decompressed};
use crate::vcs::blob::Blob;
use crate::vcs::database::tree::{Tree, EntryView, parse_raw, insert_all};
use crate::vcs::database::commit::{Commit, commit_parts};
use crate::vcs::database::author::{Author, author_groups, author_from_groups};
use crate::errors::error::Error;

verus! {

/// An object that the database can store.
pub trait GitObject {
    /// The object's type name.
    spec fn kind(&self) -> Seq<char>;

    /// The object's content.
    spec fn body(&self) -> Seq<u8>;

    /// The object's id, once set.
    spec fn id(&self) -> Option<Seq<char>>;

    /// The type name.
    fn get_type(&self) -> (r: &str)
        ensures
            r@ == self.kind(),
    ;

    /// The content.
    fn to_bytes(&self) -> (r: Vec<u8>)
        ensures
            r@ == self.body(),
    ;

    /// Records the object's id.
    fn set_oid(&mut self, oid: String)
        ensures
            final(self).id() == Some(oid@),
            final(self).kind() == old(self).kind(),
            final(self).body() == old(self).body(),
    ;
}

/// Serialized form of an object: `<type> <size>\0` and its content.
pub open spec fn object_bytes(kind: Seq<char>, body: Seq<u8>) -> Seq<u8> {
    encode_utf8(kind + seq![' '] + decimal(body.len()) + seq!['\0']) + body
}

/// The id of an object: the lowercase hexadecimal SHA-1 of its serialized form.
pub open spec fn object_id(kind: Seq<char>, body: Seq<u8>) -> Seq<char> {
    hex_of(sha1_digest(object_bytes(kind, body)))
}

/// The type name and content of serialized bytes: a UTF-8 header up to the
/// first zero byte, made of a type name, one space and the decimal size of
/// the rest, which must match.
pub open spec fn split_object(data: Seq<u8>) -> Option<(Seq<char>, Seq<u8>)> {
    match first_index_of(data, 0u8) {
        None => None,
        Some(k) => {
            let parts = split_char(decode_utf8(data.take(k)), ' ');
            if !valid_utf8(data.take(k)) || parts.len() != 2 {
                None
            } else {
                match parse_radix_spec(parts[1], 10, usize::MAX as nat) {
                    Some(n) => if n == data.len() - k - 1 {
                        Some((parts[0], data.skip(k + 1)))
                    } else {
                        None
                    },
                    None => None,
                }
            }
        },
    }
}

/// What the database records of an object.
pub ghost enum ObjectView {
    Blob(Seq<u8>),
    Tree(Seq<(Seq<char>, EntryView)>),
    Commit(Seq<char>, Option<Seq<char>>, Seq<char>, (Seq<char>, Seq<char>, i64)),
}

/// A loaded object.
#[derive(Debug)]
pub enum StoredObject {
    Blob(Blob),
    Tree(Tree),
    Commit(Commit),
}

/// The record of a loaded object.
pub open spec fn stored_view(o: StoredObject) -> ObjectView {
    match o {
        StoredObject::Blob(b) => ObjectView::Blob(b.data_view()),
        StoredObject::Tree(t) => ObjectView::Tree(t@),
        StoredObject::Commit(c) => ObjectView::Commit(c.tree_view(), c.parent_view(), c.message_view(),
            (c.author_view().name@, c.author_view().email@, c.author_view().timestamp)),
    }
}

/// The id a loaded object carries.
pub open spec fn stored_id(o: StoredObject) -> Option<Seq<char>> {
    match o {
        StoredObject::Blob(b) => b.oid_view(),
        StoredObject::Tree(t) => t.oid_view(),
        StoredObject::Commit(c) => c.oid_view(),
    }
}

/// The object that serialized bytes hold: a blob, a tree or a commit whose
/// content reads as one.
pub open spec fn decode_object(data: Seq<u8>) -> Option<ObjectView> {
    match split_object(data) {
        None => None,
        Some((kind, body)) => if kind == "blob"@ {
            Some(ObjectView::Blob(body))
        } else if kind == "tree"@ {
            match parse_raw(body) {
                Some(raw) => Some(ObjectView::Tree(insert_all(Seq::empty(), raw))),
                None => None,
            }
        } else if kind == "commit"@ {
            match commit_parts(body) {
                Some(p) => match author_groups(p.1) {
                    Some(g) => match author_from_groups(g) {
                        Some(a) => Some(ObjectView::Commit(p.0, p.2, p.3, a)),
                        None => None,
                    },
                    None => None,
                },
                None => None,
            }
        } else {
            None
        },
    }
}

/// The record cached under an id: the first entry for it.
pub open spec fn cache_lookup(cache: Seq<(Seq<char>, ObjectView)>, oid: Seq<char>) -> Option<ObjectView>
    decreases cache.len(),
{
    if cache.len() == 0 {
        None
    } else if cache[0].0 == oid {
        Some(cache[0].1)
    } else {
        cache_lookup(cache.drop_first(), oid)
    }
}

/// The view of optional bytes.
pub open spec fn bytes_of(file: Option<Vec<u8>>) -> Option<Seq<u8>> {
    match file {
        Some(f) => Some(f@),
        None => None,
    }
}

/// What loading `oid` gives: the record cached for it, else the object that
/// its file's decompressed bytes hold.
pub open spec fn load_result(cache: Seq<(Seq<char>, ObjectView)>, oid: Seq<char>, file: Option<Seq<u8>>) -> Option<ObjectView> {
    match cache_lookup(cache, oid) {
        Some(v) => Some(v),
        None => match file {
            Some(f) => match zlib_decompressed(f) {
                Some(d) => decode_object(d),
                None => None,
            },
            None => None,
        },
    }
}

/// A compressed object waiting to be written at its path.
#[derive(Debug)]
pub struct ObjectWrite {
    pub oid: String,
    pub path: String,
    pub compressed: Vec<u8>,
}

/// A write is made when no object file is at its path yet and no earlier
/// write of the batch goes to the same path: an object file that exists is
/// never written again.
pub open spec fn write_needed(writes: Seq<ObjectWrite>, present: Seq<bool>, k: int) -> bool {
    &&& !present[k]
    &&& forall|j: int| 0 <= j < k ==> writes[j].path@ != writes[k].path@
}

/// The positions, in order, of the writes to make, given for each write
/// whether a file is already at its path.
pub fn writes_to_make(writes: &Vec<ObjectWrite>, present: &Vec<bool>) -> (r: Vec<usize>)
    requires
        writes@.len() == present@.len(),
    ensures
        forall|q: int| 0 <= q < r@.len() ==> (#[trigger] r@[q]) < writes@.len()
            && write_needed(writes@, present@, r@[q] as int),
        forall|q: int, u: int| 0 <= q < u < r@.len() ==> r@[q] < r@[u],
        forall|k: int| 0 <= k < writes@.len() && write_needed(writes@, present@, k) ==>
            exists|q: int| 0 <= q < r@.len() && r@[q] == k,
{
    let mut r: Vec<usize> = Vec::new();
    let mut k: usize = 0;
    while k < writes.len()
        invariant
            k <= writes@.len(),
            writes@.len() == present@.len(),
            forall|q: int| 0 <= q < r@.len() ==> (#[trigger] r@[q]) < k
                && write_needed(writes@, present@, r@[q] as int),
            forall|q: int, u: int| 0 <= q < u < r@.len() ==> r@[q] < r@[u],
            forall|x: int| 0 <= x < k && write_needed(writes@, present@, x) ==>
                exists|q: int| 0 <= q < r@.len() && r@[q] == x,
        decreases writes@.len() - k,
    {
        let mut earlier = false;
        let mut j: usize = 0;
        while j < k
            invariant
                j <= k,
                k < writes@.len(),
                earlier <==> exists|x: int| 0 <= x < j && writes@[x].path@ == writes@[k as int].path@,
            decreases k - j,
        {
            if crate::text::str_eq(writes[j].path.as_str(), writes[k].path.as_str()) {
                earlier = true;
            }
            j += 1;
        }
        let ghost before = r@;
        if !present[k] && !earlier {
            r.push(k);
            assert(r@[r@.len() - 1] == k);
        }
        proof {
            assert forall|x: int| 0 <= x < k + 1 && write_needed(writes@, present@, x) implies
                exists|q: int| 0 <= q < r@.len() && r@[q] == x by {
                if x == k as int {
                    assert(r@[r@.len() - 1] == k);
                } else {
                    let q = choose|q: int| 0 <= q < before.len() && before[q] == x;
                    assert(r@[q] == before[q]);
                }
            }
        }
        k += 1;
    }
    r
}

/// The characters of temporary file names: `a`-`z`, `A`-`Z` and `0`-`9`.
pub open spec fn temp_alphabet() -> Seq<char> {
    "abcdefghijklmnopqrstuvwxyzABCDEFGHIJKLMNOPQRSTUVWXYZ0123456789"@
}

/// The path of an object: the first two characters of its id name a
/// directory, the rest the file.
pub open spec fn object_path_of(root: Seq<char>, oid: Seq<char>) -> Seq<char> {
    root + seq!['/'] + oid.take(2) + seq!['/'] + oid.skip(2)
}

/// Objects stored under `pathname`, those loaded so far, and the writes that
/// storing has asked for.
pub struct Database {
    pub pathname: String,
    temp_chars: Vec<char>,
    objects: Vec<(String, StoredObject)>,
    writes: Vec<ObjectWrite>,
}

/// Picks one of the characters with `rand::seq::SliceRandom::choose` on the
/// thread's generator; the result is one of them.
#[verifier::external_body]
fn choose_char(chars: &[char]) -> (c: char)
    requires
        chars@.len() > 0,
    ensures
        chars@.contains(c),
{
    let mut rng = rand::thread_rng();
    match rand::seq::SliceRandom::choose(chars, &mut rng) {
        Some(c) => *c,
        None => chars[0],
    }
}

impl Database {
    /// What has been loaded: ids and records, oldest first.
    pub closed spec fn cache_view(&self) -> Seq<(Seq<char>, ObjectView)> {
        self.objects@.map_values(|p: (String, StoredObject)| (p.0@, stored_view(p.1)))
    }

    /// The writes asked for, as (id, path, compressed bytes).
    pub closed spec fn writes_view(&self) -> Seq<(Seq<char>, Seq<char>, Seq<u8>)> {
        self.writes@.map_values(|w: ObjectWrite| (w.oid@, w.path@, w.compressed@))
    }

    /// The directory objects are stored under.
    pub closed spec fn path_view(&self) -> Seq<char> {
        self.pathname@
    }

    /// The characters temporary names are made of.
    pub closed spec fn temp_chars_view(&self) -> Seq<char> {
        self.temp_chars@
    }

    /// An empty database rooted at `pathname`.
    pub fn new(pathname: String) -> (d: Self)
        ensures
            d.path_view() == pathname@,
            d.cache_view().len() == 0,
            d.writes_view().len() == 0,
            d.temp_chars_view() == temp_alphabet(),
    {
        let temp_chars = crate::text::chars_of("abcdefghijklmnopqrstuvwxyzABCDEFGHIJKLMNOPQRSTUVWXYZ0123456789");
        let d = Database { pathname, temp_chars, objects: Vec::new(), writes: Vec::new() };
        assert(d.cache_view() =~= Seq::<(Seq<char>, ObjectView)>::empty());
        assert(d.writes_view() =~= Seq::<(Seq<char>, Seq<char>, Seq<u8>)>::empty());
        d
    }

    /// The path of an object's file.
    pub fn object_path(&self, oid: &str) -> (p: String)
        requires
            oid@.len() >= 2,
        ensures
            p@ == object_path_of(self.path_view(), oid@),
    {
        let cs = crate::text::chars_of(oid);
        let dir = crate::text::slice_chars(cs.as_slice(), 0, 2);
        let file = crate::text::slice_chars(cs.as_slice(), 2, cs.len());
        let mut p = crate::text::concat(self.pathname.as_str(), "/");
        crate::text::push_chars(&mut p, dir.as_slice());
        crate::text::push_char(&mut p, '/');
        crate::text::push_chars(&mut p, file.as_slice());
        proof {
            reveal_strlit("/");
            assert(p@ =~= object_path_of(self.pathname@, oid@));
        }
        p
    }

    /// The serialized form of an object: `<type> <size>\0` and its content.
    pub fn serialize_object<O: GitObject>(&self, object: &O) -> (r: Result<Vec<u8>, Error>)
        ensures
            r matches Ok(v) && v@ == object_bytes(object.kind(), object.body()),
    {
        let content = object.to_bytes();
        let kind = object.get_type();
        let size = crate::numeral::format_decimal(content.len() as u64);
        let mut header = crate::text::concat(kind, " ");
        crate::text::push_str(&mut header, size.as_str());
        crate::text::push_char(&mut header, '\0');
        let mut full = crate::stdtext::utf8_bytes(header.as_str());
        crate::bytes::extend(&mut full, content.as_slice());
        proof {
            reveal_strlit(" ");
            assert(header@ =~= object.kind() + seq![' '] + decimal(content@.len()) + seq!['\0']);
        }
        Ok(full)
    }

    /// The lowercase hexadecimal SHA-1 of some bytes.
    pub fn hash_content(&self, content: &[u8]) -> (h: String)
        ensures
            h@ == hex_of(sha1_digest(content@)),
            h@.len() == 40,
    {
        crate::digest::sha1_hex(content)
    }

    /// The id an object would be stored under.
    pub fn hash_object<O: GitObject>(&self, object: &O) -> (r: Result<String, Error>)
        ensures
            r matches Ok(h) && h@ == object_id(object.kind(), object.body()),
    {
        let content = match self.serialize_object(object) {
            Ok(c) => c,
            Err(e) => {
                return Err(e);
            },
        };
        Ok(self.hash_content(content.as_slice()))
    }

    /// The id of a blob holding `data`, without building the blob.
    pub fn hash_file_data(&self, data: &[u8]) -> (h: String)
        ensures
            h@ == object_id("blob"@, data@),
    {
        let size = crate::numeral::format_decimal(data.len() as u64);
        let mut header = crate::text::concat("blob ", size.as_str());
        crate::text::push_char(&mut header, '\0');
        let mut full = crate::stdtext::utf8_bytes(header.as_str());
        crate::bytes::extend(&mut full, data);
        proof {
            reveal_strlit("blob ");
            reveal_strlit("blob");
            assert(header@ =~= "blob"@ + seq![' '] + decimal(data@.len()) + seq!['\0']);
        }
        self.hash_content(full.as_slice())
    }

    /// Stores an object: gives it its id and asks for its compressed
    /// serialized form to be written at its path.
    pub fn store<O: GitObject>(&mut self, object: &mut O) -> (r: Result<String, Error>)
        ensures
            r matches Ok(oid) && {
                let bytes = object_bytes(old(object).kind(), old(object).body());
                &&& oid@ == object_id(old(object).kind(), old(object).body())
                &&& crate::digest::is_object_id(oid@)
                &&& final(object).id() == Some(oid@)
                &&& final(object).kind() == old(object).kind()
                &&& final(object).body() == old(object).body()
                &&& final(self).writes_view() == old(self).writes_view().push(
                    (oid@, object_path_of(old(self).path_view(), oid@), zlib_compressed(bytes)))
                &&& zlib_decompressed(zlib_compressed(bytes)) == Some(bytes)
            },
            final(self).path_view() == old(self).path_view(),
            final(self).cache_view() == old(self).cache_view(),
            final(self).temp_chars_view() == old(self).temp_chars_view(),
    {
        let content = match self.serialize_object(&*object) {
            Ok(c) => c,
            Err(e) => {
                return Err(e);
            },
        };
        let oid = self.hash_content(content.as_slice());
        proof {
            crate::digest::lemma_hex_of_lower(sha1_digest(content@));
        }
        let path = self.object_path(oid.as_str());
        let compressed = crate::compression::compress(content.as_slice());
        let ghost before = self.writes@;
        self.writes.push(ObjectWrite { oid: oid.clone(), path, compressed });
        proof {
            assert(self.writes_view() =~= old(self).writes_view().push(
                (oid@, object_path_of(old(self).path_view(), oid@), zlib_compressed(content@))));
        }
        object.set_oid(oid.clone());
        Ok(oid)
    }

    /// Hands over the writes asked for so far, leaving none.
    pub fn take_writes(&mut self) -> (w: Vec<ObjectWrite>)
        ensures
            w@.map_values(|x: ObjectWrite| (x.oid@, x.path@, x.compressed@)) == old(self).writes_view(),
            final(self).writes_view().len() == 0,
            final(self).cache_view() == old(self).cache_view(),
            final(self).path_view() == old(self).path_view(),
    {
        let mut w: Vec<ObjectWrite> = Vec::new();
        std::mem::swap(&mut w, &mut self.writes);
        assert(self.writes_view() =~= Seq::<(Seq<char>, Seq<char>, Seq<u8>)>::empty());
        w
    }

    /// A temporary file name: `tmp_obj_` and six characters picked at random
    /// from letters and digits.
    pub fn generate_temp_name(&self) -> (name: String)
        requires
            self.temp_chars_view().len() > 0,
        ensures
            name@.len() == 14,
            name@.take(8) == "tmp_obj_"@,
            forall|i: int| 8 <= i < 14 ==> self.temp_chars_view().contains(#[trigger] name@[i]),
    {
        let mut name = String::new();
        crate::text::push_str(&mut name, "tmp_obj_");
        proof {
            reveal_strlit("tmp_obj_");
        }
        let mut k: usize = 0;
        while k < 6
            invariant
                k <= 6,
                self.temp_chars_view().len() > 0,
                name@.len() == 8 + k,
                name@.take(8) == "tmp_obj_"@,
                forall|i: int| 8 <= i < 8 + k ==> self.temp_chars_view().contains(#[trigger] name@[i]),
            decreases 6 - k,
        {
            let c = choose_char(self.temp_chars.as_slice());
            let ghost prev = name@;
            crate::text::push_char(&mut name, c);
            assert(name@.take(8) =~= prev.take(8));
            k += 1;
        }
        name
    }

    /// Loads an object: from what was loaded before, else from the bytes of
    /// its file (`None` when there is no file), which are decompressed and read.
    pub fn load(&mut self, oid: &str, file: Option<Vec<u8>>) -> (r: Result<StoredObject, Error>)
        ensures
            final(self).path_view() == old(self).path_view(),
            final(self).writes_view() == old(self).writes_view(),
            final(self).temp_chars_view() == old(self).temp_chars_view(),
            ({
                let res = load_result(old(self).cache_view(), oid@, bytes_of(file));
                &&& r is Ok <==> res is Some
                &&& r matches Ok(o) ==> stored_view(o) == res->0
                &&& (cache_lookup(old(self).cache_view(), oid@) is None && r is Ok ==> stored_id(r->Ok_0) == Some(oid@)
                    && final(self).cache_view() == old(self).cache_view().push((oid@, res->0)))
                &&& (cache_lookup(old(self).cache_view(), oid@) is Some || r is Err ==> final(self).cache_view() == old(self).cache_view())
            }),
    {
        let ghost cache = self.cache_view();
        let mut i: usize = 0;
        assert(cache.skip(0) =~= cache);
        while i < self.objects.len()
            invariant
                i <= self.objects@.len(),
                cache == self.cache_view(),
                cache_lookup(cache, oid@) == cache_lookup(cache.skip(i as int), oid@),
            decreases self.objects@.len() - i,
        {
            assert(cache.skip(i as int)[0] == cache[i as int]);
            if crate::text::str_eq(self.objects[i].0.as_str(), oid) {
                return Ok(copy_object(&self.objects[i].1));
            }
            assert(cache.skip(i as int).drop_first() =~= cache.skip(i + 1));
            i += 1;
        }
        let compressed = match file {
            Some(f) => f,
            None => {
                return Err(Error::Generic(crate::text::concat("Object not found: ", oid)));
            },
        };
        let data = match crate::compression::decompress(compressed.as_slice()) {
            Some(d) => d,
            None => {
                return Err(Error::IO(crate::text::concat("corrupt deflate stream in object ", oid)));
            },
        };
        let object = match read_object(data.as_slice()) {
            Ok(o) => with_id(o, oid),
            Err(e) => {
                return Err(e);
            },
        };
        let copy = copy_object(&object);
        let ghost before = self.objects@;
        self.objects.push((oid.to_string(), object));
        proof {
            assert(self.cache_view() =~= old(self).cache_view().push((oid@, decode_object(data@)->0)));
        }
        Ok(copy)
    }
}

/// A loaded object given its id.
fn with_id(o: StoredObject, oid: &str) -> (r: StoredObject)
    ensures
        stored_view(r) == stored_view(o),
        stored_id(r) == Some(oid@),
{
    match o {
        StoredObject::Blob(b) => {
            let mut b = b;
            b.set_oid(oid.to_string());
            StoredObject::Blob(b)
        },
        StoredObject::Tree(t) => {
            let mut t = t;
            t.set_oid(oid.to_string());
            StoredObject::Tree(t)
        },
        StoredObject::Commit(c) => {
            let mut c = c;
            c.set_oid(oid.to_string());
            StoredObject::Commit(c)
        },
    }
}

/// A copy of a loaded object, with the same record and id.
fn copy_object(o: &StoredObject) -> (c: StoredObject)
    ensures
        stored_view(c) == stored_view(*o),
        stored_id(c) == stored_id(*o),
{
    match o {
        StoredObject::Blob(b) => StoredObject::Blob(b.copy()),
        StoredObject::Tree(t) => StoredObject::Tree(t.shallow_copy()),
        StoredObject::Commit(c) => StoredObject::Commit(c.copy()),
    }
}

/// Reads serialized bytes as a blob, a tree or a commit.
fn read_object(data: &[u8]) -> (r: Result<StoredObject, Error>)
    ensures
        r is Ok <==> decode_object(data@) is Some,
        r matches Ok(o) ==> stored_view(o) == decode_object(data@)->0,
{
    assert(data@.subrange(0, data@.len() as int) =~= data@);
    let null_pos = match crate::bytes::find_byte(data, 0, 0) {
        Some(k) => k,
        None => {
            return Err(crate::errors::error::generic("Invalid object format: missing null byte"));
        },
    };
    let header_bytes = crate::bytes::slice_bytes(data, 0, null_pos);
    assert(header_bytes@ =~= data@.take(null_pos as int));
    let header = match crate::stdtext::utf8_to_string(header_bytes.as_slice()) {
        Some(h) => h,
        None => {
            return Err(crate::errors::error::generic("Invalid header encoding"));
        },
    };
    let hc = crate::text::chars_of(header.as_str());
    let parts = crate::text::split_on(hc.as_slice(), ' ');
    if parts.len() != 2 {
        return Err(Error::Generic(crate::text::concat("Invalid header format: ", header.as_str())));
    }
    let size = match crate::numeral::parse_radix(parts[1].as_slice(), 10, usize::MAX as u64) {
        Some(n) => n,
        None => {
            let shown = crate::text::string_of(parts[1].as_slice());
            return Err(Error::Generic(crate::text::concat("Invalid size in header: ", shown.as_str())));
        },
    };
    if size != (data.len() - null_pos - 1) as u64 {
        return Err(crate::errors::error::generic("Size mismatch between header and content"));
    }
    let content = crate::bytes::slice_bytes(data, null_pos + 1, data.len());
    assert(content@ =~= data@.skip(null_pos + 1));
    let kind = crate::text::string_of(parts[0].as_slice());
    if crate::text::str_eq(kind.as_str(), "blob") {
        Ok(StoredObject::Blob(Blob::parse(content.as_slice())))
    } else if crate::text::str_eq(kind.as_str(), "tree") {
        match Tree::parse(content.as_slice()) {
            Ok(t) => Ok(StoredObject::Tree(t)),
            Err(e) => Err(e),
        }
    } else if crate::text::str_eq(kind.as_str(), "commit") {
        match Commit::parse(content.as_slice()) {
            Ok(c) => Ok(StoredObject::Commit(c)),
            Err(e) => Err(e),
        }
    } else {
        Err(Error::Generic(crate::text::concat("Unknown object type: ", kind.as_str())))
    }
}

/// Reading the serialized form of a named object gives back its type name
/// and content.
pub proof fn lemma_object_round_trip(kind: Seq<char>, body: Seq<u8>)
    requires
        kind.len() > 0,
        !kind.contains(' '),
        !kind.contains('\0'),
        body.len() <= usize::MAX,
    ensures
        split_object(object_bytes(kind, body)) == Some((kind, body)),
{
    let n = decimal(body.len());
    crate::numeral::lemma_radix_digits(body.len(), 10);
    let header = kind + seq![' '] + n;
    assert(!header.contains('\0')) by {
        if header.contains('\0') {
            let k = choose|k: int| 0 <= k < header.len() && header[k] == '\0';
            if k < kind.len() {
                assert(kind[k] == '\0');
            } else if k > kind.len() {
                assert(crate::numeral::is_radix_digit(n[k - kind.len() - 1], 10));
            }
        }
    }
    assert(kind + seq![' '] + n + seq!['\0'] =~= header + seq!['\0']);
    crate::bytes::lemma_utf8_concat(header, seq!['\0']);
    crate::bytes::lemma_utf8_lacks(header, '\0');
    assert(('\0' as u32) == 0);
    let hb = encode_utf8(header);
    let zb = encode_utf8(seq!['\0']);
    assert(zb =~= seq![0u8]) by {
        crate::bytes::lemma_ascii_utf8(seq!['\0']);
    }
    let data = object_bytes(kind, body);
    assert(data =~= hb + (seq![0u8] + body));
    crate::bytes::lemma_first_index_of_concat(hb, seq![0u8] + body, 0u8);
    assert(data.take(hb.len() as int) =~= hb);
    vstd::utf8::encode_utf8_valid_utf8(header);
    vstd::utf8::encode_utf8_decode_utf8(header);
    crate::text::lemma_split_char_concat(kind, n, ' ');
    crate::text::lemma_split_char_none(kind, ' ');
    assert(!n.contains(' ')) by {
        if n.contains(' ') {
            let k = choose|k: int| 0 <= k < n.len() && n[k] == ' ';
            assert(crate::numeral::is_radix_digit(n[k], 10));
        }
    }
    crate::text::lemma_split_char_none(n, ' ');
    crate::numeral::lemma_parse_radix_digits(body.len(), 10, usize::MAX as nat);
    assert(data.skip(hb.len() as int + 1) =~= body);
}

/// A record added at the end of the cache is found under its id unless an
/// earlier record for that id is there.
pub proof fn lemma_cache_lookup_push(cache: Seq<(Seq<char>, ObjectView)>, entry: (Seq<char>, ObjectView), oid: Seq<char>)
    ensures
        cache_lookup(cache.push(entry), oid) == (match cache_lookup(cache, oid) {
            Some(v) => Some(v),
            None => if entry.0 == oid { Some(entry.1) } else { None },
        }),
    decreases cache.len(),
{
    if cache.len() > 0 {
        assert(cache.push(entry)[0] == cache[0]);
        assert(cache.push(entry).drop_first() =~= cache.drop_first().push(entry));
        lemma_cache_lookup_push(cache.drop_first(), entry, oid);
    } else {
        let rest = Seq::<(Seq<char>, ObjectView)>::empty();
        assert(cache.push(entry).drop_first() =~= rest);
        assert(cache_lookup(rest, oid) is None);
        assert(cache.push(entry)[0] == entry);
    }
}

/// Reading back a stored blob. When its id is not cached, loading it from the
/// file that storing asked to write (the compressed serialized blob) gives the
/// blob's content; after that load has cached it, every later load of the id
/// gives the same content, whatever file is handed in.
pub proof fn lemma_load_after_store(
    cache: Seq<(Seq<char>, ObjectView)>,
    oid: Seq<char>,
    data: Seq<u8>,
    later: Option<Seq<u8>>,
)
    requires
        cache_lookup(cache, oid) is None,
        data.len() <= usize::MAX,
        zlib_decompressed(zlib_compressed(object_bytes("blob"@, data))) == Some(object_bytes("blob"@, data)),
    ensures
        load_result(cache, oid, Some(zlib_compressed(object_bytes("blob"@, data)))) == Some(ObjectView::Blob(data)),
        load_result(cache.push((oid, ObjectView::Blob(data))), oid, later) == Some(ObjectView::Blob(data)),
{
    reveal_strlit("blob");
    assert(!"blob"@.contains(' '));
    assert(!"blob"@.contains('\0'));
    lemma_object_round_trip("blob"@, data);
    lemma_cache_lookup_push(cache, (oid, ObjectView::Blob(data)), oid);
}

} // verus!
