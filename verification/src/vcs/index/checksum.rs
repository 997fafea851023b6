//! The SHA-1 checksum that ends the index file.
use vstd::prelude::*;
use crate::digest::sha1_digest;
use crate::errors::error::Error;

verus! {

/// Size of the checksum, in bytes.
pub const CHECKSUM_SIZE: usize = 20;

/// A running checksum over the bytes given so far.
pub struct Checksum {
    data: Vec<u8>,
}

impl Checksum {
    /// The bytes given so far.
    pub closed spec fn seen(&self) -> Seq<u8> {
        self.data@
    }

    /// A checksum over no bytes.
    pub fn new() -> (c: Self)
        ensures
            c.seen().len() == 0,
    {
        Checksum { data: Vec::new() }
    }

    /// Adds bytes.
    pub fn update(&mut self, data: &[u8])
        ensures
            final(self).seen() == old(self).seen() + data@,
    {
        crate::bytes::extend(&mut self.data, data);
    }

    /// Accepts the checksum stored on disk when it is the SHA-1 of the bytes.
    pub fn verify(&self, expected: &[u8]) -> (r: Result<(), Error>)
        ensures
            r is Ok <==> expected@ == sha1_digest(self.seen()),
    {
        let digest = crate::digest::sha1_bytes(self.data.as_slice());
        let mut same = expected.len() == digest.len();
        let mut i: usize = 0;
        while same && i < digest.len()
            invariant
                i <= digest@.len(),
                same ==> expected@.len() == digest@.len(),
                same ==> forall|j: int| 0 <= j < i ==> expected@[j] == digest@[j],
                !same ==> expected@ != digest@,
            decreases digest@.len() - i,
        {
            if expected[i] != digest[i] {
                same = false;
            }
            i += 1;
        }
        if !same {
            return Err(crate::errors::error::generic("Checksum does not match value stored on disk"));
        }
        assert(expected@ =~= digest@);
        Ok(())
    }

    /// The SHA-1 of the bytes given so far.
    pub fn finalize(&self) -> (d: Vec<u8>)
        ensures
            d@ == sha1_digest(self.seen()),
    {
        crate::digest::sha1_bytes(self.data.as_slice())
    }
}

} // verus!
