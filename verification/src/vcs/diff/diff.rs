//! Differences between a working file and its stored version.
use vstd::prelude::*;
use vstd::utf8::{valid_utf8, decode_utf8};
use crate::text::split_char;
use crate::stdtext::{trim, lossy_text};
use crate::vcs::diff::myers::{diff_text, is_edit_script, lines_view, kept, lcs};
use crate::vcs::database::database::{Database, ObjectView, cache_lookup, decode_object};
use crate::compression::zlib_decompressed;
use crate::digest::hex_of;
use crate::errors::error::Error;

verus! {

/// Largest file size that is diffed, in bytes (10 MiB).
pub const MAX_DIFF_SIZE: usize = 10485760;

/// A line without the carriage return that ends it, if any.
pub open spec fn strip_cr(line: Seq<char>) -> Seq<char> {
    if line.len() > 0 && line.last() == '\r' {
        line.drop_last()
    } else {
        line
    }
}

/// The lines of a text as `str::lines` gives them: split at each newline,
/// a carriage return before a newline dropped, no empty line after a final newline.
pub open spec fn lines_of(s: Seq<char>) -> Seq<Seq<char>> {
    let parts = split_char(s, '\n');
    let init = parts.drop_last().map_values(|p: Seq<char>| strip_cr(p));
    if parts.last().len() == 0 {
        init
    } else {
        init.push(parts.last())
    }
}

/// Splits a text into its lines.
pub fn split_lines(content: &str) -> (lines: Vec<String>)
    ensures
        lines_view(lines@) == lines_of(content@),
{
    let cs = crate::text::chars_of(content);
    let parts = crate::text::split_on(cs.as_slice(), '\n');
    proof {
        crate::text::lemma_split_char_len(content@, '\n');
    }
    let ghost pv = split_char(content@, '\n');
    let mut lines: Vec<String> = Vec::new();
    let mut i: usize = 0;
    while i < parts.len() - 1
        invariant
            parts@.len() == pv.len(),
            pv.len() >= 1,
            pv == split_char(content@, '\n'),
            forall|k: int| 0 <= k < parts@.len() ==> #[trigger] parts@[k]@ == pv[k],
            i < parts@.len(),
            lines_view(lines@) == pv.drop_last().take(i as int).map_values(|p: Seq<char>| strip_cr(p)),
        decreases parts@.len() - i,
    {
        let p = &parts[i];
        let line = if p.len() > 0 && p[p.len() - 1] == '\r' {
            crate::text::slice_chars(p.as_slice(), 0, p.len() - 1)
        } else {
            crate::text::slice_chars(p.as_slice(), 0, p.len())
        };
        let ghost before = lines@;
        lines.push(crate::text::string_of(line.as_slice()));
        proof {
            assert(parts@[i as int]@ == pv[i as int]);
            assert(line@ =~= strip_cr(pv[i as int]));
            assert(pv.drop_last()[i as int] == pv[i as int]);
            assert(lines_view(lines@) =~= lines_view(before).push(line@));
            assert(pv.drop_last().take(i + 1).map_values(|p: Seq<char>| strip_cr(p))
                =~= pv.drop_last().take(i as int).map_values(|p: Seq<char>| strip_cr(p)).push(strip_cr(pv[i as int])));
            assert(lines_view(lines@) =~= pv.drop_last().take(i + 1).map_values(|p: Seq<char>| strip_cr(p)));
        }
        i += 1;
    }
    let last = &parts[parts.len() - 1];
    assert(pv.drop_last().take(i as int) =~= pv.drop_last());
    if last.len() > 0 {
        let ghost before = lines@;
        lines.push(crate::text::string_of(last.as_slice()));
        proof {
            assert(last@ == pv.last());
            assert(lines_view(lines@) =~= lines_view(before).push(pv.last()));
        }
    } else {
        assert(last@ == pv.last());
    }
    lines
}

/// A file is binary when it holds a zero byte.
pub open spec fn is_binary(data: Seq<u8>) -> bool {
    exists|i: int| 0 <= i < data.len() && data[i] == 0
}

/// Whether some bytes hold a zero byte.
pub fn is_binary_content(data: &[u8]) -> (r: bool)
    ensures
        r == is_binary(data@),
{
    assert(data@.subrange(0, data@.len() as int) =~= data@);
    let r = crate::bytes::find_byte(data, 0, 0);
    proof {
        crate::bytes::lemma_first_index_of(data@, 0u8);
    }
    r.is_some()
}

/// The first seven characters of an id, or all of a shorter one.
pub open spec fn short_id(oid: Seq<char>) -> Seq<char> {
    if oid.len() >= 7 {
        oid.take(7)
    } else {
        oid
    }
}

/// The text shown for the differences from the stored lines to the working
/// ones, given the hunk text of a script between them: `Files are identical`
/// when that text is blank, else the git-style `index`, `---` and `+++` lines
/// and the text.
pub open spec fn compare_body(path: Seq<char>, oid: Seq<char>, working_id: Seq<char>, text: Seq<char>) -> Seq<char> {
    if trim(text).len() == 0 {
        "Files are identical"@
    } else {
        "index "@ + short_id(oid) + ".."@ + short_id(working_id) + " 100644\n"@ + "--- a/"@ + path + "\n"@
            + "+++ b/"@ + path + "\n"@ + text
    }
}

/// Splitting never gives more pieces than characters plus one.
proof fn lemma_split_char_bound(s: Seq<char>, sep: char)
    ensures
        split_char(s, sep).len() <= s.len() + 1,
    decreases s.len(),
{
    if s.len() > 0 {
        lemma_split_char_bound(s.drop_last(), sep);
        crate::text::lemma_split_char_len(s.drop_last(), sep);
        let prev = split_char(s.drop_last(), sep);
        if s.last() == sep {
            assert(split_char(s, sep) == prev.push(Seq::<char>::empty()));
        } else {
            assert(split_char(s, sep) == prev.update(prev.len() - 1, prev.last().push(s.last())));
        }
    }
}

/// A text has no more lines than characters plus one.
proof fn lemma_lines_bound(s: Seq<char>)
    ensures
        lines_of(s).len() <= s.len() + 1,
{
    lemma_split_char_bound(s, '\n');
    crate::text::lemma_split_char_len(s, '\n');
}

/// Compares a working file's bytes with the blob stored as `oid` (whose file
/// bytes, if any, are `stored`), as a unified diff from the stored lines to
/// the working ones with `context_lines` lines of context.
pub fn diff_with_database(
    database: &mut Database,
    file_path: &str,
    working_content: &[u8],
    oid: &str,
    stored: Option<Vec<u8>>,
    context_lines: usize,
) -> (r: Result<String, Error>)
    requires
        context_lines <= usize::MAX / 4,
    ensures
        ({
            let res = crate::vcs::database::database::load_result(old(database).cache_view(), oid@,
                crate::vcs::database::database::bytes_of(stored));
            &&& r is Ok <==> (res is Some && res->0 is Blob)
            &&& (r is Ok ==> {
                let s = r->Ok_0;
                let db = res->0->Blob_0;
                let working = working_content@;
                &&& (is_binary(working) || is_binary(db)) ==> s@ == "Binary files differ"@
                &&& (!is_binary(working) && !is_binary(db) && (working.len() > MAX_DIFF_SIZE || db.len() > MAX_DIFF_SIZE))
                    ==> s@ == "File too large for diff: maximum size is 10485760 bytes"@
                &&& (!is_binary(working) && !is_binary(db) && working.len() <= MAX_DIFF_SIZE && db.len() <= MAX_DIFF_SIZE)
                    ==> exists|edits: Seq<crate::vcs::diff::myers::Edit>|
                        #[trigger] is_edit_script(lines_of(lossy_text(db)), lines_of(lossy_text(working)), edits)
                        && kept(edits) == lcs(lines_of(lossy_text(db)), lines_of(lossy_text(working)), 0, 0)
                        && s@ == compare_body(file_path@, oid@, crate::vcs::database::database::object_id("blob"@, working),
                            diff_text(lines_of(lossy_text(db)), lines_of(lossy_text(working)), edits, context_lines as int))
                &&& (!is_binary(working) && !is_binary(db) && working.len() <= MAX_DIFF_SIZE && db.len() <= MAX_DIFF_SIZE
                    && lines_of(lossy_text(db)) == lines_of(lossy_text(working))) ==> s@ == "Files are identical"@
            })
        }),
{
    let object = match database.load(oid, stored) {
        Ok(o) => o,
        Err(e) => {
            return Err(e);
        },
    };
    let blob = match object {
        crate::vcs::database::database::StoredObject::Blob(b) => b,
        _ => {
            let mut m = crate::text::concat("Object ", oid);
            crate::text::push_str(&mut m, " is not a blob");
            return Err(Error::Generic(m));
        },
    };
    let db_content = crate::vcs::database::database::GitObject::to_bytes(&blob);
    if is_binary_content(working_content) || is_binary_content(db_content.as_slice()) {
        return Ok("Binary files differ".to_string());
    }
    if working_content.len() > MAX_DIFF_SIZE || db_content.len() > MAX_DIFF_SIZE {
        return Ok("File too large for diff: maximum size is 10485760 bytes".to_string());
    }
    let working_hash = database.hash_file_data(working_content);
    let working_text = crate::stdtext::utf8_lossy(working_content);
    let db_text = crate::stdtext::utf8_lossy(db_content.as_slice());
    let working_lines = split_lines(working_text.as_str());
    let db_lines = split_lines(db_text.as_str());
    proof {
        lemma_lines_bound(working_text@);
        lemma_lines_bound(db_text@);
        assert(lines_view(working_lines@).len() == working_lines@.len());
        assert(lines_view(db_lines@).len() == db_lines@.len());
    }
    let edits = crate::vcs::diff::myers::diff_lines(db_lines.as_slice(), working_lines.as_slice());
    proof {
        crate::vcs::diff::myers::lemma_edit_script_len(lines_view(db_lines@), lines_view(working_lines@), edits@);
    }
    let diff_content = crate::vcs::diff::myers::format_diff(db_lines.as_slice(), working_lines.as_slice(),
        edits.as_slice(), context_lines);
    proof {
        if lines_view(db_lines@) == lines_view(working_lines@) {
            crate::vcs::diff::myers::lemma_same_lines_no_diff(lines_view(db_lines@), context_lines as int);
            assert(diff_content@ == Seq::<char>::empty());
            assert(trim(diff_content@) =~= Seq::<char>::empty());
        }
    }
    let dc = crate::text::chars_of(diff_content.as_str());
    let trimmed = crate::stdtext::trim_chars(dc.as_slice());
    if trimmed.len() == 0 {
        return Ok("Files are identical".to_string());
    }
    let fc = crate::text::chars_of(oid);
    let short_oid = if fc.len() >= 7 { crate::text::slice_chars(fc.as_slice(), 0, 7) } else { fc };
    let hc = crate::text::chars_of(working_hash.as_str());
    let short_hash = if hc.len() >= 7 { crate::text::slice_chars(hc.as_slice(), 0, 7) } else { hc };
    let mut result = String::new();
    crate::text::push_str(&mut result, "index ");
    crate::text::push_chars(&mut result, short_oid.as_slice());
    crate::text::push_str(&mut result, "..");
    crate::text::push_chars(&mut result, short_hash.as_slice());
    crate::text::push_str(&mut result, " 100644\n");
    crate::text::push_str(&mut result, "--- a/");
    crate::text::push_str(&mut result, file_path);
    crate::text::push_str(&mut result, "\n");
    crate::text::push_str(&mut result, "+++ b/");
    crate::text::push_str(&mut result, file_path);
    crate::text::push_str(&mut result, "\n");
    crate::text::push_str(&mut result, diff_content.as_str());
    proof {
        assert(short_oid@ == short_id(oid@));
        assert(result@ =~= compare_body(file_path@, oid@,
            crate::vcs::database::database::object_id("blob"@, working_content@), diff_content@));
    }
    Ok(result)
}

} // verus!
