//! What a merge starts from: the names and ids of its two sides and their
//! merge bases.
use vstd::prelude::*;
use crate::text::{texts, copy_str, concat, push_str, str_eq};
use crate::errors::error::Error;

verus! {

/// The two sides of a merge and their bases.
pub trait MergeInputs {
    /// The name of the side merged into.
    fn left_name(&self) -> String;

    /// The name of the side merged in.
    fn right_name(&self) -> String;

    /// The id of the side merged into.
    fn left_oid(&self) -> String;

    /// The id of the side merged in.
    fn right_oid(&self) -> String;

    /// The ids of the merge bases.
    fn base_oids(&self) -> Vec<String>;
}

/// The inputs of a merge of two revisions.
#[derive(Debug)]
pub struct Inputs {
    pub left_name: String,
    pub right_name: String,
    pub left_oid: String,
    pub right_oid: String,
    pub base_oids: Vec<String>,
}

/// A copy of a list of strings.
fn copy_strings(v: &Vec<String>) -> (r: Vec<String>)
    ensures
        texts(r@) == texts(v@),
{
    let r = crate::text::copy_strings_from(v.as_slice(), 0);
    assert(texts(v@).skip(0) =~= texts(v@));
    r
}

/// Whether a list of ids is exactly one id.
fn is_only(v: &Vec<String>, oid: &str) -> (r: bool)
    ensures
        r == (texts(v@) == seq![oid@]),
{
    if v.len() != 1 {
        proof {
            if texts(v@) == seq![oid@] {
                assert(texts(v@).len() == 1);
            }
        }
        return false;
    }
    let same = str_eq(v[0].as_str(), oid);
    proof {
        if same {
            assert(texts(v@) =~= seq![oid@]);
        } else if texts(v@) == seq![oid@] {
            assert(texts(v@)[0] == oid@);
        }
    }
    same
}

impl Inputs {
    /// Inputs from resolved ids and bases.
    pub fn new(left_name: String, right_name: String, left_oid: String, right_oid: String, base_oids: Vec<String>) -> (i: Self)
        ensures
            i.left_name@ == left_name@ && i.right_name@ == right_name@,
            i.left_oid@ == left_oid@ && i.right_oid@ == right_oid@,
            texts(i.base_oids@) == texts(base_oids@),
    {
        Inputs { left_name, right_name, left_oid, right_oid, base_oids }
    }

    /// Inputs from the resolved ids of both sides and a finished merge-base
    /// search: the bases are the common ancestors the search kept.
    pub fn from_search(left_name: String, right_name: String, left_oid: String, right_oid: String,
        bases: &crate::vcs::merge::bases::Bases) -> (i: Self)
        ensures
            i.left_name@ == left_name@ && i.right_name@ == right_name@,
            i.left_oid@ == left_oid@ && i.right_oid@ == right_oid@,
            texts(i.base_oids@) == bases.commits_view().filter(|o: Seq<char>| !bases.redundant_view().contains(o)),
    {
        let base_oids = bases.result();
        Inputs { left_name, right_name, left_oid, right_oid, base_oids }
    }

    /// The right side is merged already: its commit is the only base.
    pub fn already_merged(&self) -> (r: bool)
        ensures
            r == (texts(self.base_oids@) == seq![self.right_oid@]),
    {
        is_only(&self.base_oids, self.right_oid.as_str())
    }

    /// The merge can fast-forward: the left commit is the only base.
    pub fn is_fast_forward(&self) -> (r: bool)
        ensures
            r == (texts(self.base_oids@) == seq![self.left_oid@]),
    {
        is_only(&self.base_oids, self.left_oid.as_str())
    }

    /// The branch reference a revision may name.
    pub fn branch_ref(rev: &str) -> (r: String)
        ensures
            r@ == "refs/heads/"@ + rev@,
    {
        concat("refs/heads/", rev)
    }

    /// The id a revision names: what it reads as a reference, else as a
    /// branch, else itself when an object has that id; an error otherwise.
    pub fn resolve_rev(rev: &str, as_ref: Option<String>, as_branch: Option<String>, object_exists: bool) -> (r: Result<String, Error>)
        ensures
            match as_ref {
                Some(o) => r matches Ok(x) && x@ == o@,
                None => match as_branch {
                    Some(o) => r matches Ok(x) && x@ == o@,
                    None => if object_exists {
                        r matches Ok(x) && x@ == rev@
                    } else {
                        r matches Err(Error::Generic(m)) && m@ == "Not a valid revision: '"@ + rev@ + "'"@
                    },
                },
            },
    {
        if let Some(o) = as_ref {
            return Ok(o);
        }
        if let Some(o) = as_branch {
            return Ok(o);
        }
        if object_exists {
            return Ok(copy_str(rev));
        }
        let mut m = copy_str("Not a valid revision: '");
        push_str(&mut m, rev);
        push_str(&mut m, "'");
        Err(Error::Generic(m))
    }
}

impl MergeInputs for Inputs {
    fn left_name(&self) -> (r: String)
        ensures
            r@ == self.left_name@,
    {
        self.left_name.clone()
    }

    fn right_name(&self) -> (r: String)
        ensures
            r@ == self.right_name@,
    {
        self.right_name.clone()
    }

    fn left_oid(&self) -> (r: String)
        ensures
            r@ == self.left_oid@,
    {
        self.left_oid.clone()
    }

    fn right_oid(&self) -> (r: String)
        ensures
            r@ == self.right_oid@,
    {
        self.right_oid.clone()
    }

    fn base_oids(&self) -> (r: Vec<String>)
        ensures
            texts(r@) == texts(self.base_oids@),
    {
        copy_strings(&self.base_oids)
    }
}

/// The inputs of a cherry-pick: a merge whose base is the picked commit's parent.
#[derive(Debug)]
pub struct CherryPick {
    pub left_name: String,
    pub right_name: String,
    pub left_oid: String,
    pub right_oid: String,
    pub base_oids: Vec<String>,
}

impl CherryPick {
    /// The inputs of a cherry-pick.
    pub fn new(left_name: String, right_name: String, left_oid: String, right_oid: String, base_oids: Vec<String>) -> (c: Self)
        ensures
            c.left_name@ == left_name@ && c.right_name@ == right_name@,
            c.left_oid@ == left_oid@ && c.right_oid@ == right_oid@,
            texts(c.base_oids@) == texts(base_oids@),
    {
        CherryPick { left_name, right_name, left_oid, right_oid, base_oids }
    }
}

impl MergeInputs for CherryPick {
    fn left_name(&self) -> (r: String)
        ensures
            r@ == self.left_name@,
    {
        self.left_name.clone()
    }

    fn right_name(&self) -> (r: String)
        ensures
            r@ == self.right_name@,
    {
        self.right_name.clone()
    }

    fn left_oid(&self) -> (r: String)
        ensures
            r@ == self.left_oid@,
    {
        self.left_oid.clone()
    }

    fn right_oid(&self) -> (r: String)
        ensures
            r@ == self.right_oid@,
    {
        self.right_oid.clone()
    }

    fn base_oids(&self) -> (r: Vec<String>)
        ensures
            texts(r@) == texts(self.base_oids@),
    {
        copy_strings(&self.base_oids)
    }
}

} // verus!
