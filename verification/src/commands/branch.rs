//! Creating a branch.
use vstd::prelude::*;
use crate::text::{copy_str, push_str};
use crate::errors::error::Error;

verus! {

/// Creates a branch at a commit.
pub struct BranchCommand;

/// The first eight characters of an id (all of a shorter one).
pub open spec fn short(oid: Seq<char>) -> Seq<char> {
    oid.take(if oid.len() < 8 { oid.len() as int } else { 8 })
}

impl BranchCommand {
    /// A branch needs a name.
    pub fn check_name(branch_name: &str) -> (r: Result<(), Error>)
        ensures
            r is Ok <==> branch_name@.len() > 0,
            r is Err ==> (r matches Err(Error::Generic(m)) && m@ == "Branch name is required"@),
    {
        if crate::text::str_is_empty(branch_name) {
            return Err(Error::Generic(copy_str("Branch name is required")));
        }
        Ok(())
    }

    /// The error when there is no repository here.
    pub fn no_repository_error() -> (e: Error)
        ensures
            e matches Error::Generic(m) && m@ == "Not an ash repository (or any of the parent directories): .ash directory not found"@,
    {
        Error::Generic(copy_str("Not an ash repository (or any of the parent directories): .ash directory not found"))
    }

    /// The start point: the revision given, else what HEAD holds; an error
    /// when neither is there.
    pub fn start_oid(resolved: Option<String>, head: Option<String>) -> (r: Result<String, Error>)
        ensures
            resolved is Some ==> r == Ok::<String, Error>(resolved->0),
            resolved is None && head is Some ==> r == Ok::<String, Error>(head->0),
            resolved is None && head is None ==> (r matches Err(Error::Generic(m))
                && m@ == "Failed to resolve HEAD - repository may be empty"@),
    {
        match resolved {
            Some(oid) => Ok(oid),
            None => match head {
                Some(oid) => Ok(oid),
                None => Err(Error::Generic(copy_str("Failed to resolve HEAD - repository may be empty"))),
            },
        }
    }

    /// What is printed once the branch exists.
    pub fn created_message(branch_name: &str, start_oid: &str) -> (s: String)
        ensures
            s@ == "Created branch '"@ + branch_name@ + "' at "@ + short(start_oid@),
    {
        let mut s = copy_str("Created branch '");
        push_str(&mut s, branch_name);
        push_str(&mut s, "' at ");
        let o = crate::commands::merge::MergeCommand::short_oid(start_oid);
        push_str(&mut s, o.as_str());
        s
    }
}

} // verus!
