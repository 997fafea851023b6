//! Moving the working tree, the index and HEAD to another commit.
use vstd::prelude::*;
use crate::text::{texts, copy_str, push_str, concat};
use crate::errors::error::Error;
use crate::commands::branch::short;

verus! {

/// Checks out a commit.
pub struct CheckoutCommand;

/// Each conflict message behind `error: `, then `Aborting`.
pub open spec fn failure_lines(errors: Seq<Seq<char>>) -> Seq<Seq<char>> {
    errors.map_values(|m: Seq<char>| "error: "@ + m).push("Aborting"@)
}

impl CheckoutCommand {
    /// What is printed once HEAD points at the target.
    pub fn switched_message(target_oid: &str) -> (s: String)
        ensures
            s@ == "Switched to commit "@ + short(target_oid@),
    {
        let o = crate::commands::merge::MergeCommand::short_oid(target_oid);
        concat("Switched to commit ", o.as_str())
    }

    /// The lines printed when the migration is refused.
    pub fn failure_report(errors: &Vec<String>) -> (r: Vec<String>)
        ensures
            texts(r@) == failure_lines(texts(errors@)),
    {
        let mut r: Vec<String> = Vec::new();
        let mut i: usize = 0;
        while i < errors.len()
            invariant
                i <= errors@.len(),
                texts(r@) == texts(errors@).take(i as int).map_values(|m: Seq<char>| "error: "@ + m),
            decreases errors@.len() - i,
        {
            let ghost before = texts(r@);
            r.push(concat("error: ", errors[i].as_str()));
            assert(texts(r@) =~= before.push("error: "@ + errors@[i as int]@));
            assert(texts(errors@).take(i + 1) =~= texts(errors@).take(i as int).push(errors@[i as int]@));
            assert(texts(r@) =~= texts(errors@).take(i + 1).map_values(|m: Seq<char>| "error: "@ + m));
            i += 1;
        }
        assert(texts(errors@).take(errors@.len() as int) =~= texts(errors@));
        let ghost before = texts(r@);
        r.push(copy_str("Aborting"));
        assert(texts(r@) =~= before.push("Aborting"@));
        r
    }

    /// The error a refused checkout ends with.
    pub fn conflicts_error() -> (e: Error)
        ensures
            e matches Error::Generic(m) && m@ == "Checkout failed due to conflicts"@,
    {
        Error::Generic(copy_str("Checkout failed due to conflicts"))
    }
}

} // verus!
