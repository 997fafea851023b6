//! Sprint metadata kept alongside sprint branches.
use vstd::prelude::*;
use crate::numeral::{decimal, parse_radix_spec, lemma_parse_radix_digits};
use crate::text::{split_char, lemma_split_char_concat, lemma_split_char_none};
use crate::stdtext::lowercase;
use crate::errors::error::Error;
use crate::vcs::refs::Reference;
use crate::text::without_prefix;
use crate::vcs::blob::Blob;
use crate::vcs::database::database::{Database, GitObject, StoredObject, ObjectView, object_id, object_bytes,
    object_path_of, cache_lookup, load_result};
use crate::compression::{zlib_compressed, zlib_decompressed};
use vstd::utf8::{encode_utf8, valid_utf8, decode_utf8};

verus! {

/// Seconds in a day.
pub const SECONDS_PER_DAY: u64 = 86400;

/// A sprint's name, start time (seconds since the epoch) and length in days.
#[derive(Debug, Clone)]
pub struct SprintMetadata {
    pub name: String,
    pub start_timestamp: u64,
    pub duration_days: u32,
}

/// End of a sprint: its start plus its length in seconds.
pub open spec fn end_of(start: u64, days: u32) -> int {
    start + days * 86400
}

/// `s` with every space replaced by a dash.
pub open spec fn dashed(s: Seq<char>) -> Seq<char> {
    s.map_values(|c: char| if c == ' ' { '-' } else { c })
}

/// Branch name of a sprint: `sprint-` and the lowercase of its dashed name.
pub open spec fn sprint_branch_name(name: Seq<char>) -> Seq<char> {
    "sprint-"@ + lowercase(dashed(name))
}

/// Text form of sprint metadata: `SPRINT:<name>:<start>:<days>`.
pub open spec fn encoded(name: Seq<char>, start: u64, days: u32) -> Seq<char> {
    "SPRINT"@ + seq![':'] + name + seq![':'] + decimal(start as nat) + seq![':'] + decimal(days as nat)
}

/// What `SprintMetadata::decode` reads: the `:`-separated pieces must number
/// at least four, the first being `SPRINT`; the second is the name, the third
/// a `u64` start and the fourth a `u32` length.
pub open spec fn decoded(s: Seq<char>) -> Option<(Seq<char>, u64, u32)> {
    let parts = split_char(s, ':');
    if parts.len() >= 4 && parts[0] == "SPRINT"@ {
        match (parse_radix_spec(parts[2], 10, 0xffff_ffff_ffff_ffffnat),
               parse_radix_spec(parts[3], 10, 0xffff_ffffnat)) {
            (Some(start), Some(days)) => Some((parts[1], start as u64, days as u32)),
            _ => None,
        }
    } else {
        None
    }
}

/// Replaces every space of `s` with a dash.
pub fn replace_spaces(s: &str) -> (r: String)
    ensures
        r@ == dashed(s@),
{
    let cs = crate::text::chars_of(s);
    let mut out: Vec<char> = Vec::new();
    let mut i: usize = 0;
    while i < cs.len()
        invariant
            i <= cs@.len(),
            cs@ == s@,
            out@ == dashed(cs@.take(i as int)),
        decreases cs@.len() - i,
    {
        if cs[i] == ' ' {
            out.push('-');
        } else {
            out.push(cs[i]);
        }
        i += 1;
        assert(out@ =~= dashed(cs@.take(i as int)));
    }
    assert(cs@.take(cs@.len() as int) =~= cs@);
    crate::text::string_of(out.as_slice())
}

impl SprintMetadata {
    /// Metadata of a sprint starting now.
    pub fn new(name: String, duration_days: u32) -> (m: Self)
        ensures
            m.name@ == name@,
            m.duration_days == duration_days,
    {
        let now = crate::clock::now_secs();
        Self::new_at(name, duration_days, now)
    }

    /// Metadata of a sprint starting at `now`.
    pub fn new_at(name: String, duration_days: u32, now: u64) -> (m: Self)
        ensures
            m.name@ == name@,
            m.duration_days == duration_days,
            m.start_timestamp == now,
    {
        SprintMetadata { name, start_timestamp: now, duration_days }
    }

    /// When the sprint ends.
    pub fn end_timestamp(&self) -> (t: u64)
        requires
            end_of(self.start_timestamp, self.duration_days) <= u64::MAX,
        ensures
            t == end_of(self.start_timestamp, self.duration_days),
    {
        self.start_timestamp + (self.duration_days as u64 * SECONDS_PER_DAY)
    }

    /// The sprint has not ended at time `now`.
    pub open spec fn active_at(&self, now: u64) -> bool {
        now <= end_of(self.start_timestamp, self.duration_days)
    }

    /// Whether the sprint has not ended yet: whether it is active at the
    /// time the clock reads (which is not known here).
    pub fn is_active(&self) -> (r: bool)
        requires
            end_of(self.start_timestamp, self.duration_days) <= u64::MAX,
        ensures
            exists|now: u64| r == #[trigger] self.active_at(now),
            end_of(self.start_timestamp, self.duration_days) == u64::MAX ==> r,
    {
        let now = crate::clock::now_secs();
        let r = self.is_active_at(now);
        assert(r == self.active_at(now));
        r
    }

    /// Whether the sprint has not ended at time `now`.
    pub fn is_active_at(&self, now: u64) -> (r: bool)
        requires
            end_of(self.start_timestamp, self.duration_days) <= u64::MAX,
        ensures
            r == (now <= end_of(self.start_timestamp, self.duration_days)),
    {
        now <= self.end_timestamp()
    }

    /// A timestamp as `YYYY-MM-DD HH:MM`.
    pub fn format_date(timestamp: u64) -> (s: String)
        ensures
            s@ == crate::clock::formatted_minute(timestamp),
    {
        crate::clock::format_minute(timestamp)
    }

    /// The sprint's branch name.
    pub fn to_branch_name(&self) -> (s: String)
        ensures
            s@ == sprint_branch_name(self.name@),
    {
        let d = replace_spaces(self.name.as_str());
        let l = crate::stdtext::to_lowercase(d.as_str());
        crate::text::concat("sprint-", l.as_str())
    }

    /// The metadata as text.
    pub fn encode(&self) -> (s: String)
        ensures
            s@ == encoded(self.name@, self.start_timestamp, self.duration_days),
    {
        let mut s = String::new();
        crate::text::push_str(&mut s, "SPRINT:");
        crate::text::push_str(&mut s, self.name.as_str());
        crate::text::push_char(&mut s, ':');
        let st = crate::numeral::format_decimal(self.start_timestamp);
        crate::text::push_str(&mut s, st.as_str());
        crate::text::push_char(&mut s, ':');
        let dd = crate::numeral::format_decimal(self.duration_days as u64);
        crate::text::push_str(&mut s, dd.as_str());
        proof {
            reveal_strlit("SPRINT:");
            reveal_strlit("SPRINT");
            assert("SPRINT:"@ =~= "SPRINT"@ + seq![':']);
        }
        assert(s@ =~= encoded(self.name@, self.start_timestamp, self.duration_days));
        s
    }

    /// Reads metadata from its text form.
    pub fn decode(encoded: &str) -> (r: Option<Self>)
        ensures
            r matches Some(m) ==> decoded(encoded@) == Some((m.name@, m.start_timestamp, m.duration_days)),
            r is None ==> decoded(encoded@) is None,
    {
        let cs = crate::text::chars_of(encoded);
        let parts = crate::text::split_on(cs.as_slice(), ':');
        let tag = crate::text::chars_of("SPRINT");
        if parts.len() >= 4 && crate::text::chars_eq(parts[0].as_slice(), tag.as_slice()) {
            let name = crate::text::string_of(parts[1].as_slice());
            let start = crate::numeral::parse_radix(parts[2].as_slice(), 10, u64::MAX);
            let days = crate::numeral::parse_radix(parts[3].as_slice(), 10, 0xffff_ffff);
            match (start, days) {
                (Some(st), Some(d)) => Some(SprintMetadata {
                    name,
                    start_timestamp: st,
                    duration_days: d as u32,
                }),
                _ => None,
            }
        } else {
            None
        }
    }
}

/// Sprint metadata stored as an object (`store_sprint_metadata` stores the
/// bytes of its text form) reads back from that object's bytes
/// (`get_sprint_metadata`) as the same metadata, when its name holds no `:`.
pub proof fn lemma_stored_metadata_round_trip(name: Seq<char>, start: u64, days: u32)
    requires
        !name.contains(':'),
    ensures
        stored_metadata(encode_utf8(encoded(name, start, days))) == Some((name, start, days)),
{
    lemma_decode_encode(name, start, days);
    vstd::utf8::encode_utf8_valid_utf8(encoded(name, start, days));
    vstd::utf8::encode_utf8_decode_utf8(encoded(name, start, days));
}

/// Sprint metadata read back through its reference. `store_sprint_metadata`
/// asks to write the blob's compressed serialized form at its id's path and
/// `<id>\n` in `refs/meta/<branch>`; reading that reference gives the id
/// (`read_ref` trims its text), loading the id from that file when it is not
/// cached gives the blob, and `get_sprint_metadata` reads from the blob the
/// same name, start and duration, when the name holds no `:`.
pub proof fn lemma_metadata_read_after_write(
    cache: Seq<(Seq<char>, ObjectView)>,
    name: Seq<char>,
    start: u64,
    days: u32,
    ref_text: Seq<char>,
)
    requires
        !name.contains(':'),
        crate::digest::is_object_id(object_id("blob"@, encode_utf8(encoded(name, start, days)))),
        ref_text == object_id("blob"@, encode_utf8(encoded(name, start, days))) + "\n"@,
        cache_lookup(cache, object_id("blob"@, encode_utf8(encoded(name, start, days)))) is None,
        encode_utf8(encoded(name, start, days)).len() <= usize::MAX,
        zlib_decompressed(zlib_compressed(object_bytes("blob"@, encode_utf8(encoded(name, start, days)))))
            == Some(object_bytes("blob"@, encode_utf8(encoded(name, start, days)))),
    ensures
        ({
            let body = encode_utf8(encoded(name, start, days));
            let oid = crate::stdtext::trim(ref_text);
            &&& oid == object_id("blob"@, body)
            &&& load_result(cache, oid, Some(zlib_compressed(object_bytes("blob"@, body))))
                == Some(ObjectView::Blob(body))
            &&& stored_metadata(body) == Some((name, start, days))
        }),
{
    let body = encode_utf8(encoded(name, start, days));
    let oid = object_id("blob"@, body);
    assert(!crate::stdtext::whitespace(oid[0]));
    assert(!crate::stdtext::whitespace(oid.last()));
    crate::vcs::refs::lemma_head_read_after_write(oid, ref_text);
    crate::vcs::database::database::lemma_load_after_store(cache, oid, body, None);
    lemma_stored_metadata_round_trip(name, start, days);
}

/// Reading back the text form of sprint metadata gives the metadata back,
/// when the name holds no `:`.
pub proof fn lemma_decode_encode(name: Seq<char>, start: u64, days: u32)
    requires
        !name.contains(':'),
    ensures
        decoded(encoded(name, start, days)) == Some((name, start, days)),
{
    reveal_strlit("SPRINT");
    let tag = "SPRINT"@;
    let ds = decimal(start as nat);
    let dd = decimal(days as nat);
    crate::numeral::lemma_radix_digits(start as nat, 10);
    crate::numeral::lemma_radix_digits(days as nat, 10);
    assert(!tag.contains(':')) by {
        if tag.contains(':') {
            let k = choose|k: int| 0 <= k < tag.len() && tag[k] == ':';
            assert(tag[k] != ':');
        }
    }
    assert(!ds.contains(':')) by {
        if ds.contains(':') {
            let k = choose|k: int| 0 <= k < ds.len() && ds[k] == ':';
            assert(crate::numeral::is_radix_digit(ds[k], 10));
        }
    }
    assert(!dd.contains(':')) by {
        if dd.contains(':') {
            let k = choose|k: int| 0 <= k < dd.len() && dd[k] == ':';
            assert(crate::numeral::is_radix_digit(dd[k], 10));
        }
    }
    lemma_split_char_none(tag, ':');
    lemma_split_char_none(name, ':');
    lemma_split_char_none(ds, ':');
    lemma_split_char_none(dd, ':');
    let s1 = tag + seq![':'] + name;
    lemma_split_char_concat(tag, name, ':');
    let s2 = s1 + seq![':'] + ds;
    lemma_split_char_concat(s1, ds, ':');
    let s3 = s2 + seq![':'] + dd;
    lemma_split_char_concat(s2, dd, ':');
    assert(s3 =~= encoded(name, start, days));
    let parts = split_char(s3, ':');
    assert(parts =~= seq![tag, name, ds, dd]);
    lemma_parse_radix_digits(start as nat, 10, 0xffff_ffff_ffff_ffffnat);
    lemma_parse_radix_digits(days as nat, 10, 0xffff_ffffnat);
}

/// Finds and lists sprint metadata of a repository.
pub struct BranchMetadataManager {
    pub repo_path: String,
}

impl BranchMetadataManager {
    /// A manager for the repository at `repo_path`.
    pub fn new(repo_path: &str) -> (m: Self)
        ensures
            m.repo_path@ == repo_path@,
    {
        BranchMetadataManager { repo_path: repo_path.to_string() }
    }

    /// The branch that HEAD names: a symbolic reference under `refs/heads/`
    /// gives the rest of its path, another symbolic reference its whole path;
    /// a detached HEAD is an error.
    pub fn get_current_branch(&self, head: &Reference) -> (r: Result<String, Error>)
        ensures
            match *head {
                Reference::Symbolic(path) => r matches Ok(b) && b@ == (
                    if "refs/heads/"@.is_prefix_of(path@) {
                        path@.subrange(11, path@.len() as int)
                    } else {
                        path@
                    }),
                Reference::Direct(_) => r matches Err(Error::Generic(m)) && m@ == "HEAD is in a detached state"@,
            },
    {
        match head {
            Reference::Symbolic(path) => {
                let cs = crate::text::chars_of(path.as_str());
                let prefix = crate::text::chars_of("refs/heads/");
                proof {
                    reveal_strlit("refs/heads/");
                }
                if crate::text::starts_with(cs.as_slice(), prefix.as_slice()) {
                    let rest = crate::text::slice_chars(cs.as_slice(), 11, cs.len());
                    Ok(crate::text::string_of(rest.as_slice()))
                } else {
                    Ok(path.clone())
                }
            },
            Reference::Direct(_) => Err(Error::Generic(crate::text::copy_str("HEAD is in a detached state"))),
        }
    }

    /// Stores the metadata of a sprint on `branch_name` as an object (a
    /// blob holding its text form) and says what to record: the reference
    /// `refs/meta/<branch>` naming the object, the sprint branch to create
    /// (the name with a `sprint-` prefix) and the commit HEAD names, where
    /// it starts. Without a commit at HEAD it fails with
    /// "HEAD reference not found".
    pub fn store_sprint_metadata(&self, database: &mut Database, branch_name: &str, metadata: &SprintMetadata,
        head: Option<String>) -> (r: Result<MetadataWrite, Error>)
        ensures
            ({
                let body = encode_utf8(encoded(metadata.name@, metadata.start_timestamp, metadata.duration_days));
                let oid = object_id("blob"@, body);
                &&& final(database).writes_view() == old(database).writes_view().push(
                    (oid, object_path_of(old(database).path_view(), oid), zlib_compressed(object_bytes("blob"@, body))))
                &&& final(database).path_view() == old(database).path_view()
                &&& final(database).cache_view() == old(database).cache_view()
                &&& match head {
                    None => r matches Err(Error::Generic(m)) && m@ == "HEAD reference not found"@,
                    Some(h) => r matches Ok(w) && {
                        &&& w.oid@ == oid
                        &&& crate::digest::is_object_id(oid)
                        &&& w.meta_ref@ == "refs/meta/"@ + branch_name@
                        &&& w.content@ == oid + "\n"@
                        &&& w.start_oid@ == h@
                        &&& w.sprint_branch@ == (if "sprint-"@.is_prefix_of(branch_name@) {
                            branch_name@
                        } else {
                            "sprint-"@ + branch_name@
                        })
                    },
                }
            }),
    {
        let text = metadata.encode();
        let bytes = crate::stdtext::utf8_bytes(text.as_str());
        let mut object = Blob::new(bytes);
        let oid = match database.store(&mut object) {
            Ok(o) => o,
            Err(e) => {
                return Err(e);
            },
        };
        let meta_ref = crate::text::concat("refs/meta/", branch_name);
        let sprint_branch = if crate::text::str_starts_with(branch_name, "sprint-") {
            branch_name.to_string()
        } else {
            crate::text::concat("sprint-", branch_name)
        };
        let start_oid = match head {
            Some(h) => h,
            None => {
                return Err(Error::Generic(crate::text::copy_str("HEAD reference not found")));
            },
        };
        let mut content = crate::text::copy_str(oid.as_str());
        crate::text::push_str(&mut content, "\n");
        Ok(MetadataWrite { meta_ref, content, sprint_branch, oid, start_oid })
    }

    /// The references that may hold the metadata of a branch's sprint, in
    /// the order they are tried: `refs/meta/<branch>`, then `refs/meta/sprint-<branch>`.
    pub fn metadata_refs(&self, branch_name: &str) -> (r: (String, String))
        ensures
            r.0@ == "refs/meta/"@ + branch_name@,
            r.1@ == "refs/meta/sprint-"@ + branch_name@,
    {
        (crate::text::concat("refs/meta/", branch_name), crate::text::concat("refs/meta/sprint-", branch_name))
    }

    /// Reads sprint metadata from the object a metadata reference names:
    /// none when the reference is missing, the load's error when the object
    /// cannot be read, and "Invalid metadata object type" when the object is
    /// not a blob holding sprint metadata.
    pub fn get_sprint_metadata(&self, loaded: Option<Result<StoredObject, Error>>) -> (r: Result<Option<SprintMetadata>, Error>)
        ensures
            match loaded {
                None => r matches Ok(None),
                Some(Err(e)) => r == Err::<Option<SprintMetadata>, Error>(e),
                Some(Ok(StoredObject::Blob(b))) => match stored_metadata(b.data_view()) {
                    Some(d) => r matches Ok(Some(m)) && (m.name@, m.start_timestamp, m.duration_days) == d,
                    None => r matches Err(Error::Generic(m)) && m@ == "Invalid metadata object type"@,
                },
                Some(Ok(_)) => r matches Err(Error::Generic(m)) && m@ == "Invalid metadata object type"@,
            },
    {
        match loaded {
            None => Ok(None),
            Some(Err(e)) => Err(e),
            Some(Ok(StoredObject::Blob(b))) => {
                let bytes = GitObject::to_bytes(&b);
                let decoded_meta = match crate::stdtext::utf8_to_string(bytes.as_slice()) {
                    Some(text) => SprintMetadata::decode(text.as_str()),
                    None => None,
                };
                match decoded_meta {
                    Some(m) => Ok(Some(m)),
                    None => Err(Error::Generic(crate::text::copy_str("Invalid metadata object type"))),
                }
            },
            Some(Ok(_)) => Err(Error::Generic(crate::text::copy_str("Invalid metadata object type"))),
        }
    }

    /// The sprint branches among references: symbolic references under
    /// `refs/heads/` whose branch starts with `sprint-` and is no task branch.
    pub fn get_all_sprint_branches(&self, refs: Vec<Reference>) -> (r: Result<Vec<String>, Error>)
        ensures
            r matches Ok(v) && crate::text::texts(v@) == sprint_branches(refs@),
    {
        let mut results: Vec<String> = Vec::new();
        let mut i: usize = 0;
        while i < refs.len()
            invariant
                i <= refs@.len(),
                crate::text::texts(results@) == sprint_branches(refs@.take(i as int)),
            decreases refs@.len() - i,
        {
            let ghost before = crate::text::texts(results@);
            proof {
                assert(refs@.take(i + 1).drop_last() =~= refs@.take(i as int));
                assert(refs@.take(i + 1).last() == refs@[i as int]);
            }
            match &refs[i] {
                Reference::Symbolic(path) => {
                    let name = crate::text::strip_prefix_or_keep(path.as_str(), "refs/heads/");
                    if crate::text::str_starts_with(name.as_str(), "sprint-") && !crate::text::str_contains(name.as_str(), "-task-") {
                        results.push(name);
                        assert(crate::text::texts(results@) =~= before.push(without_prefix(path@, "refs/heads/"@)));
                    }
                },
                Reference::Direct(_) => {},
            }
            i += 1;
        }
        assert(refs@.take(refs@.len() as int) =~= refs@);
        Ok(results)
    }

    /// The sprints that references lead to, newest start first: for each
    /// symbolic reference (with the metadata found for it), its branch
    /// (`refs/meta/sprint-` removed) and metadata; references without
    /// metadata are left out.
    pub fn get_all_sprints(&self, found: Vec<(Reference, Option<SprintMetadata>)>) -> (r: Result<Vec<(String, SprintMetadata)>, Error>)
        ensures
            r matches Ok(v) && sprint_views(v@) == sort_newest_first(found_sprints(found@)),
    {
        let mut results: Vec<(String, SprintMetadata)> = Vec::new();
        let mut i: usize = 0;
        let mut found = found;
        let ghost all = found@;
        let mut kept: Vec<(String, SprintMetadata)> = Vec::new();
        while i < found.len()
            invariant
                i <= found@.len(),
                found@ == all,
                sprint_views(kept@) == found_sprints(all.take(i as int)),
            decreases found@.len() - i,
        {
            proof {
                assert(all.take(i + 1).drop_last() =~= all.take(i as int));
                assert(all.take(i + 1).last() == all[i as int]);
            }
            let ghost before = sprint_views(kept@);
            match &found[i] {
                (Reference::Symbolic(path), Some(m)) => {
                    let name = crate::text::strip_prefix_or_keep(path.as_str(), "refs/meta/sprint-");
                    let copy = SprintMetadata { name: m.name.clone(), start_timestamp: m.start_timestamp, duration_days: m.duration_days };
                    kept.push((name, copy));
                    assert(sprint_views(kept@) =~= before.push((without_prefix(path@, "refs/meta/sprint-"@), m.name@, m.start_timestamp, m.duration_days)));
                },
                _ => {},
            }
            i += 1;
        }
        assert(all.take(all.len() as int) =~= all);
        let mut j: usize = 0;
        assert(sprint_views(results@) =~= sort_newest_first(found_sprints(all).take(0)));
        while j < kept.len()
            invariant
                j <= kept@.len(),
                sprint_views(kept@) == found_sprints(all),
                sprint_views(results@) == sort_newest_first(found_sprints(all).take(j as int)),
            decreases kept@.len() - j,
        {
            let item = &kept[j];
            let copy = (item.0.clone(), SprintMetadata { name: item.1.name.clone(), start_timestamp: item.1.start_timestamp, duration_days: item.1.duration_days });
            let ghost before = sprint_views(results@);
            let ghost x = sprint_views(kept@)[j as int];
            let mut k: usize = 0;
            assert(before.take(0) =~= Seq::<(Seq<char>, Seq<char>, u64, u32)>::empty());
            assert(before.skip(0) =~= before);
            while k < results.len() && results[k].1.start_timestamp >= copy.1.start_timestamp
                invariant
                    k <= results@.len(),
                    sprint_views(results@) == before,
                    insert_newest(before, x) == before.take(k as int) + insert_newest(before.skip(k as int), x),
                    x == (copy.0@, copy.1.name@, copy.1.start_timestamp, copy.1.duration_days),
                decreases results@.len() - k,
            {
                proof {
                    assert(before.skip(k as int)[0] == before[k as int]);
                    assert(before.skip(k as int).drop_first() =~= before.skip(k + 1));
                    assert(before.take(k + 1) =~= before.take(k as int).push(before[k as int]));
                    assert(before.take(k as int).push(before[k as int]) + insert_newest(before.skip(k + 1), x)
                        =~= before.take(k as int) + (seq![before[k as int]] + insert_newest(before.skip(k + 1), x)));
                }
                k += 1;
            }
            results.insert(k, copy);
            proof {
                if k < before.len() {
                    assert(before.skip(k as int)[0] == before[k as int]);
                }
                assert(sprint_views(results@) =~= before.take(k as int) + (seq![x] + before.skip(k as int)));
                let fs = found_sprints(all);
                assert(fs.take(j + 1).drop_last() =~= fs.take(j as int));
                assert(fs.take(j + 1).last() == x);
            }
            j += 1;
        }
        assert(found_sprints(all).take(kept@.len() as int) =~= found_sprints(all));
        Ok(results)
    }

    /// The active sprint: the current branch's own sprint when it is a sprint
    /// branch (no task branch) whose metadata `current` is active at `now`;
    /// else the first of the references under `refs/meta/sprint-` whose
    /// metadata is active, named by its branch.
    pub fn find_active_sprint(&self, current_branch: &str, current: Option<SprintMetadata>,
        found: Vec<(Reference, Option<SprintMetadata>)>, now: u64) -> (r: Result<Option<(String, SprintMetadata)>, Error>)
        requires
            current matches Some(m) ==> end_of(m.start_timestamp, m.duration_days) <= u64::MAX,
            forall|i: int| 0 <= i < found@.len() ==> end_fits((#[trigger] found@[i]).1),
        ensures
            r matches Ok(o) && match o {
                Some(p) => active_choice(current_branch@, current, found@, now) == Some((p.0@, p.1.name@, p.1.start_timestamp, p.1.duration_days)),
                None => active_choice(current_branch@, current, found@, now) is None,
            },
    {
        if crate::text::str_starts_with(current_branch, "sprint-") && !crate::text::str_contains(current_branch, "-task-") {
            match &current {
                Some(m) => {
                    if m.is_active_at(now) {
                        let name = crate::text::strip_prefix_or_keep(current_branch, "sprint-");
                        let copy = SprintMetadata { name: m.name.clone(), start_timestamp: m.start_timestamp, duration_days: m.duration_days };
                        return Ok(Some((name, copy)));
                    }
                },
                None => {},
            }
        }
        let mut i: usize = 0;
        assert(found@.skip(0) =~= found@);
        assert(active_choice(current_branch@, current, found@, now) == first_active(found@, now));
        while i < found.len()
            invariant
                i <= found@.len(),
                active_choice(current_branch@, current, found@, now) == first_active(found@, now),
                forall|j: int| 0 <= j < found@.len() ==> end_fits((#[trigger] found@[j]).1),
                first_active(found@, now) == first_active(found@.skip(i as int), now),
            decreases found@.len() - i,
        {
            proof {
                assert(found@.skip(i as int)[0] == found@[i as int]);
                assert(found@.skip(i as int).drop_first() =~= found@.skip(i + 1));
            }
            match &found[i] {
                (Reference::Symbolic(path), Some(m)) => {
                    if crate::text::str_starts_with(path.as_str(), "refs/meta/sprint-") && m.is_active_at(now) {
                        let name = crate::text::strip_prefix_or_keep(path.as_str(), "refs/meta/sprint-");
                        let copy = SprintMetadata { name: m.name.clone(), start_timestamp: m.start_timestamp, duration_days: m.duration_days };
                        return Ok(Some((name, copy)));
                    }
                },
                _ => {},
            }
            i += 1;
        }
        assert(found@.skip(i as int) =~= Seq::<(Reference, Option<SprintMetadata>)>::empty());
        Ok(None)
    }
}

/// The end of a sprint, if any, fits in a timestamp.
pub open spec fn end_fits(o: Option<SprintMetadata>) -> bool {
    match o {
        Some(m) => end_of(m.start_timestamp, m.duration_days) <= u64::MAX,
        None => true,
    }
}

/// What storing sprint metadata records: the reference naming the stored
/// object and the text written there, the sprint branch, the object's id,
/// and the commit the sprint branch starts at.
#[derive(Debug)]
pub struct MetadataWrite {
    pub meta_ref: String,
    pub content: String,
    pub sprint_branch: String,
    pub oid: String,
    pub start_oid: String,
}

/// The metadata a blob holds: its bytes as text, read as sprint metadata.
pub open spec fn stored_metadata(data: Seq<u8>) -> Option<(Seq<char>, u64, u32)> {
    if valid_utf8(data) { decoded(decode_utf8(data)) } else { None }
}

/// The sprint branches among references.
pub open spec fn sprint_branches(refs: Seq<Reference>) -> Seq<Seq<char>>
    decreases refs.len(),
{
    if refs.len() == 0 {
        Seq::empty()
    } else {
        let prev = sprint_branches(refs.drop_last());
        match refs.last() {
            Reference::Symbolic(path) => {
                let name = without_prefix(path@, "refs/heads/"@);
                if "sprint-"@.is_prefix_of(name) && !crate::text::contains_seq(name, "-task-"@) {
                    prev.push(name)
                } else {
                    prev
                }
            },
            Reference::Direct(_) => prev,
        }
    }
}

/// A sprint found under a reference: branch, name, start and length.
pub open spec fn sprint_views(v: Seq<(String, SprintMetadata)>) -> Seq<(Seq<char>, Seq<char>, u64, u32)> {
    v.map_values(|p: (String, SprintMetadata)| (p.0@, p.1.name@, p.1.start_timestamp, p.1.duration_days))
}

/// The sprints that references with metadata lead to, in order.
pub open spec fn found_sprints(found: Seq<(Reference, Option<SprintMetadata>)>) -> Seq<(Seq<char>, Seq<char>, u64, u32)>
    decreases found.len(),
{
    if found.len() == 0 {
        Seq::empty()
    } else {
        let prev = found_sprints(found.drop_last());
        match found.last() {
            (Reference::Symbolic(path), Some(m)) => prev.push(
                (without_prefix(path@, "refs/meta/sprint-"@), m.name@, m.start_timestamp, m.duration_days)),
            _ => prev,
        }
    }
}

/// Puts a sprint after those starting no earlier.
pub open spec fn insert_newest(s: Seq<(Seq<char>, Seq<char>, u64, u32)>, x: (Seq<char>, Seq<char>, u64, u32)) -> Seq<(Seq<char>, Seq<char>, u64, u32)>
    decreases s.len(),
{
    if s.len() == 0 {
        seq![x]
    } else if s[0].2 >= x.2 {
        seq![s[0]] + insert_newest(s.drop_first(), x)
    } else {
        seq![x] + s
    }
}

/// Sprints ordered by start, newest first, keeping the order of equal starts.
pub open spec fn sort_newest_first(s: Seq<(Seq<char>, Seq<char>, u64, u32)>) -> Seq<(Seq<char>, Seq<char>, u64, u32)>
    decreases s.len(),
{
    if s.len() == 0 {
        Seq::empty()
    } else {
        insert_newest(sort_newest_first(s.drop_last()), s.last())
    }
}

/// Sprints ordered by start, newest first.
pub open spec fn newest_first(s: Seq<(Seq<char>, Seq<char>, u64, u32)>) -> bool {
    forall|i: int, j: int| 0 <= i < j < s.len() ==> (#[trigger] s[i]).2 >= (#[trigger] s[j]).2
}

proof fn lemma_prepend_multiset(a: (Seq<char>, Seq<char>, u64, u32), t: Seq<(Seq<char>, Seq<char>, u64, u32)>)
    ensures
        (seq![a] + t).to_multiset() == t.to_multiset().insert(a),
{
    broadcast use vstd::multiset::group_multiset_axioms;
    let e = Seq::<(Seq<char>, Seq<char>, u64, u32)>::empty();
    vstd::seq_lib::to_multiset_len(e);
    vstd::multiset::lemma_multiset_empty_len(e.to_multiset());
    vstd::seq_lib::to_multiset_build(e, a);
    assert(e.push(a) =~= seq![a]);
    vstd::seq_lib::lemma_multiset_commutative(seq![a], t);
    assert((seq![a] + t).to_multiset() =~= t.to_multiset().insert(a));
}

proof fn lemma_insert_newest(s: Seq<(Seq<char>, Seq<char>, u64, u32)>, x: (Seq<char>, Seq<char>, u64, u32))
    requires
        newest_first(s),
    ensures
        newest_first(insert_newest(s, x)),
        insert_newest(s, x).to_multiset() == s.to_multiset().insert(x),
        insert_newest(s, x).len() == s.len() + 1,
        forall|k: int| 0 <= k < insert_newest(s, x).len() ==>
            (#[trigger] insert_newest(s, x)[k] == x || s.contains(insert_newest(s, x)[k])),
    decreases s.len(),
{
    broadcast use vstd::multiset::group_multiset_axioms;
    let r = insert_newest(s, x);
    if s.len() == 0 {
        assert(r =~= seq![x] + s);
        lemma_prepend_multiset(x, s);
    } else if s[0].2 >= x.2 {
        let t = s.drop_first();
        assert(newest_first(t)) by {
            assert forall|i: int, j: int| 0 <= i < j < t.len() implies (#[trigger] t[i]).2 >= (#[trigger] t[j]).2 by {
                assert(t[i] == s[i + 1] && t[j] == s[j + 1]);
            }
        }
        lemma_insert_newest(t, x);
        let u = insert_newest(t, x);
        assert(r == seq![s[0]] + u);
        assert forall|i: int, j: int| 0 <= i < j < r.len() implies (#[trigger] r[i]).2 >= (#[trigger] r[j]).2 by {
            if i == 0 {
                assert(r[j] == u[j - 1]);
                if u[j - 1] != x {
                    let k = choose|k: int| 0 <= k < t.len() && t[k] == u[j - 1];
                    assert(t[k] == s[k + 1]);
                    assert(s[0].2 >= s[k + 1].2);
                }
            } else {
                assert(r[i] == u[i - 1] && r[j] == u[j - 1]);
            }
        }
        assert forall|k: int| 0 <= k < r.len() implies (#[trigger] r[k] == x || s.contains(r[k])) by {
            if k == 0 {
                assert(s.contains(s[0]));
            } else {
                assert(r[k] == u[k - 1]);
                if u[k - 1] != x {
                    let q = choose|q: int| 0 <= q < t.len() && t[q] == u[k - 1];
                    assert(s[q + 1] == t[q]);
                }
            }
        }
        lemma_prepend_multiset(s[0], u);
        lemma_prepend_multiset(s[0], t);
        assert(seq![s[0]] + t =~= s);
        assert(r.to_multiset() =~= s.to_multiset().insert(x));
    } else {
        assert(r == seq![x] + s);
        assert forall|i: int, j: int| 0 <= i < j < r.len() implies (#[trigger] r[i]).2 >= (#[trigger] r[j]).2 by {
            if i == 0 {
                assert(r[j] == s[j - 1]);
                if j - 1 > 0 {
                    assert(s[0].2 >= s[j - 1].2);
                }
            } else {
                assert(r[i] == s[i - 1] && r[j] == s[j - 1]);
            }
        }
        assert forall|k: int| 0 <= k < r.len() implies (#[trigger] r[k] == x || s.contains(r[k])) by {
            if k > 0 {
                assert(r[k] == s[k - 1]);
            }
        }
        lemma_prepend_multiset(x, s);
    }
}

/// `sort_newest_first` orders sprints by start, newest first, and keeps
/// every sprint: its result is sorted and a permutation of its input.
pub proof fn lemma_sort_newest_first(s: Seq<(Seq<char>, Seq<char>, u64, u32)>)
    ensures
        newest_first(sort_newest_first(s)),
        sort_newest_first(s).to_multiset() == s.to_multiset(),
    decreases s.len(),
{
    broadcast use vstd::multiset::group_multiset_axioms;
    if s.len() == 0 {
        assert(sort_newest_first(s) =~= s);
    } else {
        lemma_sort_newest_first(s.drop_last());
        lemma_insert_newest(sort_newest_first(s.drop_last()), s.last());
        vstd::seq_lib::to_multiset_build(s.drop_last(), s.last());
        assert(s.drop_last().push(s.last()) =~= s);
    }
}

/// The first reference under `refs/meta/sprint-` with metadata active at `now`.
pub open spec fn first_active(found: Seq<(Reference, Option<SprintMetadata>)>, now: u64) -> Option<(Seq<char>, Seq<char>, u64, u32)>
    decreases found.len(),
{
    if found.len() == 0 {
        None
    } else {
        match found[0] {
            (Reference::Symbolic(path), Some(m)) => if "refs/meta/sprint-"@.is_prefix_of(path@)
                && now <= end_of(m.start_timestamp, m.duration_days) {
                Some((without_prefix(path@, "refs/meta/sprint-"@), m.name@, m.start_timestamp, m.duration_days))
            } else {
                first_active(found.drop_first(), now)
            },
            _ => first_active(found.drop_first(), now),
        }
    }
}

/// The active sprint chosen from the current branch and the references.
pub open spec fn active_choice(current_branch: Seq<char>, current: Option<SprintMetadata>,
    found: Seq<(Reference, Option<SprintMetadata>)>, now: u64) -> Option<(Seq<char>, Seq<char>, u64, u32)> {
    if "sprint-"@.is_prefix_of(current_branch) && !crate::text::contains_seq(current_branch, "-task-"@)
        && current is Some && now <= end_of(current->0.start_timestamp, current->0.duration_days) {
        Some((without_prefix(current_branch, "sprint-"@), current->0.name@, current->0.start_timestamp, current->0.duration_days))
    } else {
        first_active(found, now)
    }
}

} // verus!
