//! Blob objects: file contents.
use vstd::prelude::*;
use crate::vcs::database::database::GitObject;

verus! {

/// A file's contents and, once stored, its object id.
#[derive(Debug, Clone)]
pub struct Blob {
    oid: Option<String>,
    data: Vec<u8>,
}

impl Blob {
    /// The blob's contents.
    pub closed spec fn data_view(&self) -> Seq<u8> {
        self.data@
    }

    /// The blob's object id, once set.
    pub closed spec fn oid_view(&self) -> Option<Seq<char>> {
        match self.oid {
            Some(o) => Some(o@),
            None => None,
        }
    }

    /// A blob of `data` without an id.
    pub fn new(data: Vec<u8>) -> (b: Self)
        ensures
            b.data_view() == data@,
            b.oid_view() is None,
    {
        Blob { oid: None, data }
    }

    /// A blob read from an object's contents.
    pub fn parse(data: &[u8]) -> (b: Self)
        ensures
            b.data_view() == data@,
            b.oid_view() is None,
    {
        let mut v: Vec<u8> = Vec::new();
        crate::bytes::extend(&mut v, data);
        assert(v@ =~= data@);
        Blob { oid: None, data: v }
    }

    /// A copy of the blob.
    pub fn copy(&self) -> (b: Self)
        ensures
            b.data_view() == self.data_view(),
            b.oid_view() == self.oid_view(),
    {
        let mut v: Vec<u8> = Vec::new();
        crate::bytes::extend(&mut v, self.data.as_slice());
        assert(v@ =~= self.data@);
        let oid = match &self.oid {
            Some(o) => Some(o.clone()),
            None => None,
        };
        Blob { oid, data: v }
    }

    /// Records the blob's object id.
    pub fn set_oid(&mut self, oid: String)
        ensures
            final(self).oid_view() == Some(oid@),
            final(self).data_view() == old(self).data_view(),
    {
        self.oid = Some(oid);
    }

    /// The blob's object id, once set.
    pub fn get_oid(&self) -> (r: Option<&String>)
        ensures
            r matches Some(o) ==> self.oid_view() == Some(o@),
            r is None ==> self.oid_view() is None,
    {
        self.oid.as_ref()
    }
}

impl GitObject for Blob {
    open spec fn kind(&self) -> Seq<char> {
        "blob"@
    }

    open spec fn body(&self) -> Seq<u8> {
        self.data_view()
    }

    open spec fn id(&self) -> Option<Seq<char>> {
        self.oid_view()
    }

    fn get_type(&self) -> (r: &str) {
        "blob"
    }

    fn to_bytes(&self) -> (r: Vec<u8>) {
        let mut v: Vec<u8> = Vec::new();
        crate::bytes::extend(&mut v, self.data.as_slice());
        assert(v@ =~= self.data@);
        v
    }

    fn set_oid(&mut self, oid: String) {
        Blob::set_oid(self, oid)
    }
}

} // verus!
