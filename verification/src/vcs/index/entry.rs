//! Entries of the index: a file's stat data, object id, flags and path.
use vstd::prelude::*;
use vstd::utf8::{encode_utf8, decode_utf8, valid_utf8};
use crate::numeral::octal;
use crate::digest::hex_of;
use crate::bytes::first_index_of;
use crate::paths::{path_parent, path_file_name};
use crate::errors::error::Error;

verus! {

/// Mode of regular files.
pub const REGULAR_MODE: u32 = 0o100644;
/// Mode of executable files.
pub const EXECUTABLE_MODE: u32 = 0o100755;
/// Largest path length kept in the flags.
pub const MAX_PATH_SIZE: u16 = 0xfff;

/// What the index keeps of a file's metadata: permission bits, creation and
/// modification times (seconds and nanoseconds) and size.
#[derive(Debug, Clone, Copy)]
pub struct FileStat {
    pub permissions: u32,
    pub ctime: u64,
    pub ctime_nsec: u32,
    pub mtime: u64,
    pub mtime_nsec: u32,
    pub size: u64,
}

/// An index entry.
#[derive(Debug)]
pub struct Entry {
    pub ctime: u32,
    pub ctime_nsec: u32,
    pub mtime: u32,
    pub mtime_nsec: u32,
    pub dev: u32,
    pub ino: u32,
    pub mode: u32,
    pub uid: u32,
    pub gid: u32,
    pub size: u32,
    pub oid: String,
    pub flags: u16,
    pub path: String,
    pub stage: u8,
}

/// Big-endian bytes of a 32-bit number.
pub open spec fn be32(v: u32) -> Seq<u8> {
    seq![(v / 0x100_0000) as u8, ((v / 0x1_0000) % 0x100) as u8, ((v / 0x100) % 0x100) as u8, (v % 0x100) as u8]
}

/// Big-endian bytes of a 16-bit number.
pub open spec fn be16(v: u16) -> Seq<u8> {
    seq![(v / 0x100) as u8, (v % 0x100) as u8]
}

/// The 32-bit number of four big-endian bytes at `i`.
pub open spec fn read_be32(d: Seq<u8>, i: int) -> u32 {
    (d[i] * 0x100_0000 + d[i + 1] * 0x1_0000 + d[i + 2] * 0x100 + d[i + 3]) as u32
}

/// The 16-bit number of two big-endian bytes at `i`.
pub open spec fn read_be16(d: Seq<u8>, i: int) -> u16 {
    (d[i] * 0x100 + d[i + 1]) as u16
}

/// Zero bytes after `n` bytes up to the next multiple of eight.
pub open spec fn padding(n: nat) -> Seq<u8> {
    Seq::new(((8 - n % 8) % 8) as nat, |i: int| 0u8)
}

/// The bytes of an entry: ten big-endian numbers, the id's text, the flags,
/// the path, a zero byte, and zeros up to a multiple of eight bytes.
pub open spec fn entry_bytes(e: Entry) -> Seq<u8> {
    let fixed = be32(e.ctime) + be32(e.ctime_nsec) + be32(e.mtime) + be32(e.mtime_nsec) + be32(e.dev)
        + be32(e.ino) + be32(e.mode) + be32(e.uid) + be32(e.gid) + be32(e.size);
    let body = fixed + encode_utf8(e.oid@) + be16(e.flags) + encode_utf8(e.path@) + seq![0u8];
    body + padding(body.len())
}

/// What an entry read from bytes holds: ten numbers, an id from twenty
/// bytes, the flags, and a UTF-8 path up to the first zero byte after them.
pub open spec fn parsed_entry(d: Seq<u8>) -> Option<(Seq<u32>, Seq<char>, u16, Seq<char>)> {
    if d.len() < 62 {
        None
    } else {
        match first_index_of(d.skip(62), 0u8) {
            None => None,
            Some(k) => if !valid_utf8(d.subrange(62, 62 + k)) {
                None
            } else {
                Some((Seq::new(10, |i: int| read_be32(d, 4 * i)), hex_of(d.subrange(40, 60)), read_be16(d, 60),
                    decode_utf8(d.subrange(62, 62 + k))))
            },
        }
    }
}

/// The parents of a path, outermost first, as repeated `Path::parent` gives
/// them, leaving out empty ones; `fuel` bounds the steps.
pub open spec fn parents_of(p: Seq<char>, fuel: nat) -> Seq<Seq<char>>
    decreases fuel,
{
    if fuel == 0 {
        Seq::empty()
    } else {
        match path_parent(p) {
            None => Seq::empty(),
            Some(q) => parents_of(q, (fuel - 1) as nat) + if q.len() > 0 { seq![q] } else { Seq::empty() },
        }
    }
}

/// Appends a number's big-endian bytes.
fn push_be32(v: &mut Vec<u8>, x: u32)
    ensures
        final(v)@ == old(v)@ + be32(x),
{
    v.push((x / 0x100_0000) as u8);
    v.push(((x / 0x1_0000) % 0x100) as u8);
    v.push(((x / 0x100) % 0x100) as u8);
    v.push((x % 0x100) as u8);
    assert(v@ =~= old(v)@ + be32(x));
}

/// Reads four big-endian bytes.
fn get_be32(d: &[u8], i: usize) -> (x: u32)
    requires
        i + 4 <= d@.len(),
    ensures
        x == read_be32(d@, i as int),
{
    (d[i] as u32) * 0x100_0000 + (d[i + 1] as u32) * 0x1_0000 + (d[i + 2] as u32) * 0x100 + (d[i + 3] as u32)
}

impl Entry {
    /// The entry of a file at `pathname` with id `oid`: executable when some
    /// execute bit is set, times and size cut to 32 bits, the path's byte
    /// length (at most `0xfff`) as flags.
    pub fn create(pathname: &str, oid: &str, stat: &FileStat) -> (e: Self)
        ensures
            e.path@ == pathname@,
            e.oid@ == oid@,
            e.mode == (if stat.permissions & 0o111 != 0 { EXECUTABLE_MODE } else { REGULAR_MODE }),
            e.flags as int == (if encode_utf8(pathname@).len() < 0xfff { encode_utf8(pathname@).len() as int } else { 0xfff }),
            e.ctime == stat.ctime as u32,
            e.ctime_nsec == stat.ctime_nsec,
            e.mtime == stat.mtime as u32,
            e.mtime_nsec == stat.mtime_nsec,
            e.size == stat.size as u32,
            e.dev == 0 && e.ino == 0 && e.uid == 0 && e.gid == 0 && e.stage == 0,
    {
        let mode = if stat.permissions & 0o111 != 0 { EXECUTABLE_MODE } else { REGULAR_MODE };
        let bytes = crate::stdtext::utf8_bytes(pathname);
        let flags: u16 = if bytes.len() < 0xfff { bytes.len() as u16 } else { MAX_PATH_SIZE };
        Entry {
            ctime: stat.ctime as u32,
            ctime_nsec: stat.ctime_nsec,
            mtime: stat.mtime as u32,
            mtime_nsec: stat.mtime_nsec,
            dev: 0,
            ino: 0,
            mode,
            uid: 0,
            gid: 0,
            size: stat.size as u32,
            oid: oid.to_string(),
            flags,
            path: pathname.to_string(),
            stage: 0,
        }
    }

    /// The entry's bytes.
    pub fn to_bytes(&self) -> (r: Vec<u8>)
        ensures
            r@ == entry_bytes(*self),
    {
        let mut result: Vec<u8> = Vec::new();
        push_be32(&mut result, self.ctime);
        push_be32(&mut result, self.ctime_nsec);
        push_be32(&mut result, self.mtime);
        push_be32(&mut result, self.mtime_nsec);
        push_be32(&mut result, self.dev);
        push_be32(&mut result, self.ino);
        push_be32(&mut result, self.mode);
        push_be32(&mut result, self.uid);
        push_be32(&mut result, self.gid);
        push_be32(&mut result, self.size);
        let oid_bytes = crate::stdtext::utf8_bytes(self.oid.as_str());
        crate::bytes::extend(&mut result, oid_bytes.as_slice());
        result.push((self.flags / 0x100) as u8);
        result.push((self.flags % 0x100) as u8);
        let path_bytes = crate::stdtext::utf8_bytes(self.path.as_str());
        crate::bytes::extend(&mut result, path_bytes.as_slice());
        result.push(0u8);
        let ghost body = result@;
        proof {
            assert(body =~= (be32(self.ctime) + be32(self.ctime_nsec) + be32(self.mtime) + be32(self.mtime_nsec)
                + be32(self.dev) + be32(self.ino) + be32(self.mode) + be32(self.uid) + be32(self.gid) + be32(self.size))
                + encode_utf8(self.oid@) + be16(self.flags) + encode_utf8(self.path@) + seq![0u8]);
        }
        let pad: usize = (8 - result.len() % 8) % 8;
        let mut k: usize = 0;
        while k < pad
            invariant
                k <= pad,
                pad == (8 - body.len() % 8) % 8,
                result@ == body + Seq::new(k as nat, |i: int| 0u8),
            decreases pad - k,
        {
            result.push(0u8);
            k += 1;
            assert(result@ =~= body + Seq::new(k as nat, |i: int| 0u8));
        }
        assert(result@ =~= body + padding(body.len()));
        result
    }

    /// The directories above the entry's path, outermost first.
    pub fn parent_directories(&self) -> (dirs: Vec<String>)
        ensures
            crate::text::texts(dirs@) == parents_of(self.path@, self.path@.len() + 1),
    {
        let mut rev: Vec<String> = Vec::new();
        let mut current = self.path.clone();
        let ghost fuel: nat = (self.path@.len() + 1) as nat;
        let ghost mut remaining: nat = fuel;
        assert(crate::text::texts(rev@).reverse() =~= Seq::<Seq<char>>::empty());
        loop
            invariant_except_break
                current@.len() + 1 <= remaining,
                remaining <= fuel,
                parents_of(self.path@, fuel) == parents_of(current@, remaining) + crate::text::texts(rev@).reverse(),
            ensures
                parents_of(self.path@, fuel) == crate::text::texts(rev@).reverse(),
            decreases current@.len(),
        {
            match crate::paths::parent_of(current.as_str()) {
                None => {
                    assert(parents_of(current@, remaining) =~= Seq::<Seq<char>>::empty());
                    assert(Seq::<Seq<char>>::empty() + crate::text::texts(rev@).reverse() =~= crate::text::texts(rev@).reverse());
                    break;
                },
                Some(parent) => {
                    let ghost before = crate::text::texts(rev@);
                    let ghost next: nat = (remaining - 1) as nat;
                    if !crate::text::str_is_empty(parent.as_str()) {
                        rev.push(parent.clone());
                        proof {
                            assert(crate::text::texts(rev@) =~= before.push(parent@));
                            assert(before.push(parent@).reverse() =~= seq![parent@] + before.reverse());
                            assert(parents_of(current@, remaining) == parents_of(parent@, next) + seq![parent@]);
                            assert(parents_of(parent@, next) + seq![parent@] + before.reverse()
                                =~= parents_of(parent@, next) + (seq![parent@] + before.reverse()));
                        }
                    } else {
                        proof {
                            assert(parents_of(current@, remaining) == parents_of(parent@, next) + Seq::<Seq<char>>::empty());
                            assert(parents_of(parent@, next) + Seq::<Seq<char>>::empty() =~= parents_of(parent@, next));
                        }
                    }
                    proof {
                        remaining = next;
                    }
                    current = parent;
                },
            }
        }
        let mut dirs: Vec<String> = Vec::new();
        let mut i: usize = rev.len();
        while i > 0
            invariant
                i <= rev@.len(),
                crate::text::texts(dirs@) == crate::text::texts(rev@).reverse().take(rev@.len() - i),
            decreases i,
        {
            i -= 1;
            let ghost before = crate::text::texts(dirs@);
            let d = rev[i].clone();
            assert(d@ == rev@[i as int]@);
            dirs.push(d);
            proof {
                let t = crate::text::texts(rev@);
                assert(t.reverse()[rev@.len() - 1 - i] == t[i as int]);
                assert(crate::text::texts(dirs@) =~= before.push(t[i as int]));
                assert(t.reverse().take(rev@.len() - i) =~= t.reverse().take(rev@.len() - i - 1).push(t.reverse()[rev@.len() - 1 - i]));
            }
        }
        assert(crate::text::texts(rev@).reverse().take(rev@.len() as int) =~= crate::text::texts(rev@).reverse());
        dirs
    }

    /// The final component of the entry's path, empty when there is none.
    pub fn basename(&self) -> (s: String)
        ensures
            s@ == match path_file_name(self.path@) {
                Some(n) => n,
                None => Seq::empty(),
            },
    {
        match crate::paths::file_name_of(self.path.as_str()) {
            Some(n) => n,
            None => String::new(),
        }
    }

    /// The mode in octal.
    pub fn mode_octal(&self) -> (s: String)
        ensures
            s@ == octal(self.mode as nat),
    {
        crate::numeral::format_octal(self.mode as u64)
    }

    /// Reads an entry: ten big-endian numbers, a twenty-byte id, the flags,
    /// and a UTF-8 path ended by a zero byte.
    pub fn parse(data: &[u8]) -> (r: Result<Entry, Error>)
        ensures
            r is Ok <==> parsed_entry(data@) is Some,
            r matches Ok(e) ==> {
                let p = parsed_entry(data@)->0;
                &&& seq![e.ctime, e.ctime_nsec, e.mtime, e.mtime_nsec, e.dev, e.ino, e.mode, e.uid, e.gid, e.size] == p.0
                &&& e.oid@ == p.1
                &&& e.flags == p.2
                &&& e.path@ == p.3
                &&& e.stage == 0
            },
    {
        if data.len() < 62 {
            return Err(crate::errors::error::generic("Entry data too short"));
        }
        let ctime = get_be32(data, 0);
        let ctime_nsec = get_be32(data, 4);
        let mtime = get_be32(data, 8);
        let mtime_nsec = get_be32(data, 12);
        let dev = get_be32(data, 16);
        let ino = get_be32(data, 20);
        let mode = get_be32(data, 24);
        let uid = get_be32(data, 28);
        let gid = get_be32(data, 32);
        let size = get_be32(data, 36);
        let id_bytes = crate::bytes::slice_bytes(data, 40, 60);
        let oid = crate::digest::hex_encode(id_bytes.as_slice());
        let flags: u16 = ((data[60] as u32) * 0x100 + (data[61] as u32)) as u16;
        assert(data@.subrange(62, data@.len() as int) =~= data@.skip(62));
        let path_end = match crate::bytes::find_byte(data, 62, 0) {
            Some(k) => k,
            None => {
                return Err(crate::errors::error::generic("No null terminator for path"));
            },
        };
        let path_bytes = crate::bytes::slice_bytes(data, 62, path_end);
        let path = match crate::stdtext::utf8_to_string(path_bytes.as_slice()) {
            Some(s) => s,
            None => {
                return Err(crate::errors::error::generic("Invalid UTF-8 in path"));
            },
        };
        let e = Entry { ctime, ctime_nsec, mtime, mtime_nsec, dev, ino, mode, uid, gid, size, oid, flags, path, stage: 0 };
        proof {
            let p = parsed_entry(data@)->0;
            assert(seq![e.ctime, e.ctime_nsec, e.mtime, e.mtime_nsec, e.dev, e.ino, e.mode, e.uid, e.gid, e.size] =~= p.0);
        }
        Ok(e)
    }

    /// The entry's path.
    pub fn get_path(&self) -> (r: &str)
        ensures
            r@ == self.path@,
    {
        self.path.as_str()
    }
}

} // verus!
