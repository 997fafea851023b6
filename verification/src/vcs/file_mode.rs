//! File modes as stored in trees and in the index.
use vstd::prelude::*;
use crate::numeral::{parse_radix_spec, octal};
use crate::stdtext::trim;

verus! {

/// Namespace for the file-mode constants and operations.
pub struct FileMode;

/// Largest `u32`.
pub open spec fn u32_max() -> nat {
    0xffff_ffffnat
}

/// The mode that `FileMode::parse` reads from `s`: after trimming, an
/// octal numeral behind a `0` or `0o` prefix; else `40000`, the octal text
/// of the directory mode, as that mode; else an octal numeral of at least
/// six digits starting with `1`; else a decimal numeral; else the
/// regular-file mode.
pub open spec fn parse_mode(s: Seq<char>) -> u32 {
    let t = trim(s);
    let prefixed = if t.len() > 0 && t[0] == '0' {
        let start: int = if t.len() >= 2 && t[1] == 'o' { 2 } else { 1 };
        parse_radix_spec(t.subrange(start, t.len() as int), 8, u32_max())
    } else {
        None
    };
    if prefixed is Some {
        prefixed->0 as u32
    } else if t == "40000"@ {
        0o040000u32
    } else if t.len() >= 6 && t[0] == '1' && parse_radix_spec(t, 8, u32_max()) is Some {
        parse_radix_spec(t, 8, u32_max())->0 as u32
    } else if parse_radix_spec(t, 10, u32_max()) is Some {
        parse_radix_spec(t, 10, u32_max())->0 as u32
    } else {
        0o100644u32
    }
}

/// The type bits of a mode mark a directory.
pub open spec fn mode_is_directory(mode: u32) -> bool {
    (mode & 0o170000u32) == 0o040000u32
}

/// Some execute bit is set.
pub open spec fn mode_is_executable(mode: u32) -> bool {
    (mode & 0o111u32) != 0
}

/// Two modes agree on their type and permission bits.
pub open spec fn modes_equivalent(a: u32, b: u32) -> bool {
    (a & 0o170777u32) == (b & 0o170777u32)
}

/// Digit strings have no surrounding whitespace.
pub proof fn lemma_trim_digits(t: Seq<char>, radix: nat)
    requires
        t.len() > 0,
        radix <= 10,
        crate::numeral::all_radix_digits(t, radix),
    ensures
        trim(t) == t,
{
    assert(crate::numeral::is_radix_digit(t[0], radix));
    assert(crate::numeral::is_radix_digit(t.last(), radix));
    assert(crate::stdtext::trim_start(t) == t);
}

/// The octal text of the directory mode, and of any mode from `0o100000`
/// to `0o177777` (files, executables, symbolic links), reads back as the mode.
pub proof fn lemma_octal_mode_round_trip(m: u32)
    requires
        m == 0o040000 || 0o100000 <= m < 0o200000,
    ensures
        parse_mode(octal(m as nat)) == m,
{
    let t = octal(m as nat);
    crate::numeral::lemma_radix_digits(m as nat, 8);
    crate::numeral::lemma_parse_radix_digits(m as nat, 8, u32_max());
    lemma_trim_digits(t, 8);
    crate::numeral::lemma_leading_digit(m as nat, 8);
    reveal_with_fuel(crate::numeral::radix_digits, 7);
    reveal_strlit("40000");
    if m == 0o040000 {
        assert(t.len() == 5);
        assert(crate::numeral::digit_value(t[0]) == 4);
        assert(crate::numeral::digit_value(t[1]) == 0);
        assert(crate::numeral::digit_value(t[4]) == 0);
        assert(t =~= "40000"@);
    } else {
        assert(t.len() == 6);
        assert(crate::numeral::digit_value(t[0]) == 1);
        assert(t[0] == '1');
        assert(t != "40000"@);
    }
}

/// The four named modes read back from their octal texts.
pub proof fn lemma_named_modes_round_trip()
    ensures
        parse_mode(octal(FileMode::DIRECTORY as nat)) == FileMode::DIRECTORY,
        parse_mode(octal(FileMode::REGULAR as nat)) == FileMode::REGULAR,
        parse_mode(octal(FileMode::EXECUTABLE as nat)) == FileMode::EXECUTABLE,
        parse_mode(octal(FileMode::SYMLINK as nat)) == FileMode::SYMLINK,
        mode_is_directory(parse_mode(octal(FileMode::DIRECTORY as nat))),
{
    lemma_octal_mode_round_trip(FileMode::DIRECTORY);
    lemma_octal_mode_round_trip(FileMode::REGULAR);
    lemma_octal_mode_round_trip(FileMode::EXECUTABLE);
    lemma_octal_mode_round_trip(FileMode::SYMLINK);
    assert((0o040000u32 & 0o170000u32) == 0o040000u32) by (bit_vector);
}

impl FileMode {
    /// Mode of directories.
    pub const DIRECTORY: u32 = 0o040000;
    /// Mode of regular files.
    pub const REGULAR: u32 = 0o100644;
    /// Mode of executable files.
    pub const EXECUTABLE: u32 = 0o100755;
    /// Mode of symbolic links.
    pub const SYMLINK: u32 = 0o120000;

    /// Reads a mode from its textual form (octal or decimal).
    pub fn parse(mode_str: &str) -> (mode: u32)
        ensures
            mode == parse_mode(mode_str@),
    {
        let chars = crate::text::chars_of(mode_str);
        let t = crate::stdtext::trim_chars(chars.as_slice());
        if t.len() > 0 && t[0] == '0' {
            let start: usize = if t.len() >= 2 && t[1] == 'o' { 2 } else { 1 };
            let rest = crate::text::slice_chars(t.as_slice(), start, t.len());
            if let Some(v) = crate::numeral::parse_radix(rest.as_slice(), 8, 0xffff_ffff) {
                return v as u32;
            }
        }
        let dir = crate::text::chars_of("40000");
        if crate::text::chars_eq(t.as_slice(), dir.as_slice()) {
            return Self::DIRECTORY;
        }
        if t.len() >= 6 && t[0] == '1' {
            if let Some(v) = crate::numeral::parse_radix(t.as_slice(), 8, 0xffff_ffff) {
                return v as u32;
            }
        }
        match crate::numeral::parse_radix(t.as_slice(), 10, 0xffff_ffff) {
            Some(v) => v as u32,
            None => Self::REGULAR,
        }
    }

    /// The octal numeral of a mode (`{:o}`).
    pub fn to_octal_string(mode: u32) -> (s: String)
        ensures
            s@ == octal(mode as nat),
    {
        crate::numeral::format_octal(mode as u64)
    }

    /// Whether two modes agree on type and permission bits.
    pub fn are_equivalent(mode1: u32, mode2: u32) -> (r: bool)
        ensures
            r == modes_equivalent(mode1, mode2),
    {
        let mask: u32 = 0o170777;
        (mode1 & mask) == (mode2 & mask)
    }

    /// Whether a mode denotes a directory.
    pub fn is_directory(mode: u32) -> (r: bool)
        ensures
            r == mode_is_directory(mode),
    {
        (mode & 0o170000) == Self::DIRECTORY
    }

    /// Whether a mode has an execute bit set.
    pub fn is_executable(mode: u32) -> (r: bool)
        ensures
            r == mode_is_executable(mode),
    {
        (mode & 0o111) != 0
    }

    /// The mode recorded for a file of the workspace: directory, executable
    /// file when some execute bit is set, else regular file.
    pub fn from_metadata(is_dir: bool, permissions: u32) -> (mode: u32)
        ensures
            mode == if is_dir {
                0o040000u32
            } else if mode_is_executable(permissions) {
                0o100755u32
            } else {
                0o100644u32
            },
    {
        if is_dir {
            return Self::DIRECTORY;
        }
        if (permissions & 0o111) != 0 {
            return Self::EXECUTABLE;
        }
        Self::REGULAR
    }
}

} // verus!
