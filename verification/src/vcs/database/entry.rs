//! Entries of trees as read from and written to the object database.
use vstd::prelude::*;
use crate::numeral::octal;
use crate::vcs::file_mode::{FileMode, parse_mode};

verus! {

/// A path, object id and normalized octal mode.
#[derive(Debug, Clone)]
pub struct DatabaseEntry {
    pub name: String,
    pub oid: String,
    pub mode: String,
}

impl PartialEq for DatabaseEntry {
    fn eq(&self, other: &Self) -> (r: bool) {
        self.name == other.name && self.oid == other.oid && self.mode == other.mode
    }
}

impl vstd::std_specs::cmp::PartialEqSpecImpl for DatabaseEntry {
    open spec fn obeys_eq_spec() -> bool {
        true
    }

    open spec fn eq_spec(&self, other: &Self) -> bool {
        self.name@ == other.name@ && self.oid@ == other.oid@ && self.mode@ == other.mode@
    }
}

/// The normalized form of a mode text: octal numeral of the parsed mode.
pub open spec fn normalized_mode(mode: Seq<char>) -> Seq<char> {
    octal(parse_mode(mode) as nat)
}

impl DatabaseEntry {
    /// An entry whose mode text is normalized to the octal numeral of its parsed mode.
    pub fn new(name: String, oid: String, mode: &str) -> (e: Self)
        ensures
            e.name@ == name@,
            e.oid@ == oid@,
            e.mode@ == normalized_mode(mode@),
    {
        let file_mode = FileMode::parse(mode);
        DatabaseEntry { name, oid, mode: FileMode::to_octal_string(file_mode) }
    }

    /// The entry's path.
    pub fn get_name(&self) -> (r: &str)
        ensures
            r@ == self.name@,
    {
        self.name.as_str()
    }

    /// The entry's object id.
    pub fn get_oid(&self) -> (r: &str)
        ensures
            r@ == self.oid@,
    {
        self.oid.as_str()
    }

    /// The entry's mode text.
    pub fn get_mode(&self) -> (r: &str)
        ensures
            r@ == self.mode@,
    {
        self.mode.as_str()
    }

    /// The entry's mode as a number.
    pub fn get_file_mode(&self) -> (m: u32)
        ensures
            m == parse_mode(self.mode@),
    {
        FileMode::parse(self.mode.as_str())
    }
}

} // verus!
