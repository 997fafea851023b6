//! Stand-in file metadata for index operations that have no file to stat.
use vstd::prelude::*;

verus! {

/// A type that has default metadata.
pub trait MetadataExt: Sized {
    fn default() -> Self;
}

/// File metadata with default values: an empty regular file, modified and
/// created when it was made (seconds since the epoch).
#[derive(Debug, Clone)]
pub struct DefaultMetadata {
    pub size: u64,
    pub modified: u64,
    pub created: u64,
    pub is_dir: bool,
    pub is_file: bool,
}

impl DefaultMetadata {
    /// Default metadata stamped with the current time.
    pub fn new() -> (m: Self)
        ensures
            m.size == 0,
            m.modified == m.created,
            !m.is_dir,
            m.is_file,
    {
        let now = crate::clock::now_secs();
        DefaultMetadata { size: 0, modified: now, created: now, is_dir: false, is_file: true }
    }
}

impl Default for DefaultMetadata {
    fn default() -> (m: Self)
        ensures
            m.size == 0,
            m.modified == m.created,
            !m.is_dir,
            m.is_file,
    {
        Self::new()
    }
}

/// Default metadata for index operations.
pub fn default_metadata() -> (m: DefaultMetadata)
    ensures
        m.size == 0,
        m.modified == m.created,
        !m.is_dir,
        m.is_file,
{
    DefaultMetadata::new()
}

} // verus!
