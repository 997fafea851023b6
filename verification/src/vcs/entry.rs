//! A named tree entry with its object id and textual mode.
use vstd::prelude::*;

verus! {

/// A tree entry: name, object id and mode text.
#[derive(Debug, Clone)]
pub struct Entry {
    pub name: String,
    pub oid: String,
    pub mode: String,
}

impl Entry {
    /// An entry with the given name, id and mode text.
    pub fn new(name: String, oid: String, mode: &str) -> (e: Self)
        ensures
            e.name@ == name@,
            e.oid@ == oid@,
            e.mode@ == mode@,
    {
        Entry { name, oid, mode: mode.to_string() }
    }

    /// The entry's name.
    pub fn get_name(&self) -> (r: &str)
        ensures
            r@ == self.name@,
    {
        self.name.as_str()
    }

    /// The entry's object id.
    pub fn get_oid(&self) -> (r: &str)
        ensures
            r@ == self.oid@,
    {
        self.oid.as_str()
    }

    /// The entry's mode text.
    pub fn get_mode(&self) -> (r: &str)
        ensures
            r@ == self.mode@,
    {
        self.mode.as_str()
    }
}

} // verus!
