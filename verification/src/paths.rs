//! Path components, as `std::path::Path` reads them.
use vstd::prelude::*;

verus! {

/// The parent that `Path::parent` gives for a path: the path without its
/// final component, `None` for a root or an empty path.
pub uninterp spec fn path_parent(p: Seq<char>) -> Option<Seq<char>>;

/// The final component that `Path::file_name` gives, `None` when the path
/// ends in `..` or has no final component.
pub uninterp spec fn path_file_name(p: Seq<char>) -> Option<Seq<char>>;

/// Whether `Path::starts_with` finds `base` at the start of `p`: its
/// components are the first components of `p`.
pub uninterp spec fn path_prefixed(p: Seq<char>, base: Seq<char>) -> bool;

/// Calls `Path::starts_with`.
#[verifier::external_body]
pub fn path_starts_with(p: &str, base: &str) -> (r: bool)
    ensures
        r == path_prefixed(p@, base@),
{
    std::path::Path::new(p).starts_with(base)
}

/// Calls `Path::parent`; a parent is shorter than its path.
#[verifier::external_body]
pub fn parent_of(p: &str) -> (r: Option<String>)
    ensures
        r is Some <==> path_parent(p@) is Some,
        r matches Some(q) ==> q@ == path_parent(p@)->0 && q@.len() < p@.len(),
{
    match std::path::Path::new(p).parent() {
        Some(q) => Some(q.to_string_lossy().to_string()),
        None => None,
    }
}

/// Calls `Path::file_name`.
#[verifier::external_body]
pub fn file_name_of(p: &str) -> (r: Option<String>)
    ensures
        r is Some <==> path_file_name(p@) is Some,
        r matches Some(q) ==> q@ == path_file_name(p@)->0,
{
    match std::path::Path::new(p).file_name() {
        Some(q) => Some(q.to_string_lossy().to_string()),
        None => None,
    }
}

/// The path that `Path::join` gives on Unix: `b` when it is absolute or
/// `a` is empty, else `a` and `b` with one separator between them.
pub open spec fn joined(a: Seq<char>, b: Seq<char>) -> Seq<char> {
    if a.len() == 0 || (b.len() > 0 && b[0] == '/') {
        b
    } else if a.last() == '/' {
        a + b
    } else {
        a + seq!['/'] + b
    }
}

/// Joins two paths as `Path::join` does on Unix.
pub fn join_path(a: &str, b: &str) -> (r: String)
    ensures
        r@ == joined(a@, b@),
{
    let ac = crate::text::chars_of(a);
    let bc = crate::text::chars_of(b);
    if ac.len() == 0 || (bc.len() > 0 && bc[0] == '/') {
        return crate::text::copy_str(b);
    }
    let mut r = crate::text::copy_str(a);
    if ac[ac.len() - 1] != '/' {
        crate::text::push_char(&mut r, '/');
    }
    crate::text::push_str(&mut r, b);
    proof {
        if a@.last() == '/' {
            assert(r@ =~= a@ + b@);
        } else {
            assert(r@ =~= a@ + seq!['/'] + b@);
        }
    }
    r
}

/// What `Path::strip_prefix` leaves of `p` after the components of `base`;
/// `None` when `base` is not a prefix of `p`.
pub uninterp spec fn path_relative(p: Seq<char>, base: Seq<char>) -> Option<Seq<char>>;

/// Calls `Path::strip_prefix`.
#[verifier::external_body]
pub fn strip_path_prefix(p: &str, base: &str) -> (r: Option<String>)
    ensures
        match r {
            Some(q) => path_relative(p@, base@) == Some(q@),
            None => path_relative(p@, base@) is None,
        },
{
    match std::path::Path::new(p).strip_prefix(base) {
        Ok(q) => Some(q.to_string_lossy().to_string()),
        Err(_) => None,
    }
}

} // verus!
