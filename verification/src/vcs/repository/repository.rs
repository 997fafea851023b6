//! A repository with its object database and references.
use vstd::prelude::*;
use crate::text::copy_str;
use crate::paths::joined;
use crate::vcs::database::database::Database;
use crate::vcs::refs::Refs;

verus! {

/// A repository: its root, its object database and its references.
pub struct Repository {
    pub path: String,
    pub database: Database,
    pub refs: Refs,
}

impl Repository {
    /// The repository rooted at a canonical path: objects under
    /// `.ash/objects`, references under `.ash`.
    pub fn new(canonical_path: &str) -> (r: Self)
        ensures
            r.path@ == canonical_path@,
            r.database.path_view() == joined(joined(canonical_path@, ".ash"@), "objects"@),
            r.refs.pathname@ == joined(canonical_path@, ".ash"@),
    {
        let git_path = crate::paths::join_path(canonical_path, ".ash");
        let db_path = crate::paths::join_path(git_path.as_str(), "objects");
        Repository {
            path: copy_str(canonical_path),
            database: Database::new(db_path),
            refs: Refs::new(git_path.as_str()),
        }
    }

    /// The repository's own directory, to be created: `.ash` under the root.
    pub fn create_git_directory(&self) -> (p: String)
        ensures
            p@ == joined(self.path@, ".ash"@),
    {
        crate::paths::join_path(self.path.as_str(), ".ash")
    }
}

} // verus!
