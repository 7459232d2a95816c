//! Path arithmetic on strings, through `std::path`.
use std::path::Path;
use vstd::prelude::*;

verus! {

/// A path joined onto a directory the way `std::path::Path::join` does.
pub uninterp spec fn joined_path(dir: Seq<char>, rel: Seq<char>) -> Seq<char>;

/// The last component of a path as `std::path::Path::file_name` gives it,
/// or the empty string where there is none.
pub uninterp spec fn path_file_name(path: Seq<char>) -> Seq<char>;

/// Relies on `std::path::Path::join`: resolves `rel` against `dir`.
#[verifier::external_body]
pub(crate) fn join_path(dir: &str, rel: &str) -> (r: String)
    ensures
        r@ == joined_path(dir@, rel@),
{
    Path::new(dir).join(rel).to_string_lossy().into_owned()
}

/// Relies on `std::path::Path::file_name`: the final component of `path`.
#[verifier::external_body]
pub(crate) fn file_name_of(path: &str) -> (r: String)
    ensures
        r@ == path_file_name(path@),
{
    Path::new(path).file_name().unwrap_or_default().to_string_lossy().into_owned()
}

} // verus!
