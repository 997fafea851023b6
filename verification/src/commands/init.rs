//! Setting up a new repository.
use vstd::prelude::*;
use crate::text::{copy_str, push_str};
use crate::paths::joined;

verus! {

/// Creates a repository.
pub struct InitCommand;

impl InitCommand {
    /// The directories made inside the repository's directory: `objects`
    /// and `refs`.
    pub fn subdirectories(git_path: &str) -> (r: Vec<String>)
        ensures
            r@.len() == 2,
            r@[0]@ == joined(git_path@, "objects"@),
            r@[1]@ == joined(git_path@, "refs"@),
    {
        let mut r: Vec<String> = Vec::new();
        r.push(crate::paths::join_path(git_path, "objects"));
        r.push(crate::paths::join_path(git_path, "refs"));
        r
    }

    /// What is printed once the repository exists.
    pub fn initialized_message(git_path: &str) -> (s: String)
        ensures
            s@ == "Initialized empty Ash repository in "@ + git_path@,
    {
        let mut s = copy_str("Initialized empty Ash repository in ");
        push_str(&mut s, git_path);
        s
    }
}

} // verus!
