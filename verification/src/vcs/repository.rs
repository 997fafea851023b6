//! A repository on disk: its root and where its directory goes.
use vstd::prelude::*;
use crate::text::{copy_str, push_str};
use crate::paths::joined;
use crate::errors::error::Error;

pub mod repository;
pub mod migration;

verus! {

/// A repository, by the canonical path of its root.
pub struct Repository {
    pub path: String,
}

impl Repository {
    /// The repository rooted at a canonical path.
    pub fn new(canonical_path: &str) -> (r: Self)
        ensures
            r.path@ == canonical_path@,
    {
        Repository { path: copy_str(canonical_path) }
    }

    /// The error when the root path cannot be resolved.
    pub fn resolution_error(path: &str, cause: &str) -> (e: Error)
        ensures
            e matches Error::PathResolution(m) && m@ == "Failed to resolve path '"@ + path@ + "': "@ + cause@,
    {
        let mut m = copy_str("Failed to resolve path '");
        push_str(&mut m, path);
        push_str(&mut m, "': ");
        push_str(&mut m, cause);
        Error::PathResolution(m)
    }

    /// The repository's own directory, to be created: `.ash` under the root.
    pub fn create_git_directory(&self) -> (p: String)
        ensures
            p@ == joined(self.path@, ".ash"@),
    {
        crate::paths::join_path(self.path.as_str(), ".ash")
    }

    /// The error when a directory cannot be created.
    pub fn directory_error(path: &str, cause: &str) -> (e: Error)
        ensures
            e matches Error::DirectoryCreation(m) && m@ == "Failed to create directory '"@ + path@ + "': "@ + cause@,
    {
        let mut m = copy_str("Failed to create directory '");
        push_str(&mut m, path);
        push_str(&mut m, "': ");
        push_str(&mut m, cause);
        Error::DirectoryCreation(m)
    }
}

} // verus!
