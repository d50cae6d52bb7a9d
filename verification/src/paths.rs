//! File-system paths, held as strings, and the few `std::path` operations that
//! the loader needs.
use vstd::prelude::*;
use std::path::Path;

verus! {

/// The parent of a path: the path without its final component, if it has one.
pub uninterp spec fn path_parent(p: Seq<char>) -> Option<Seq<char>>;

/// A path joined onto a base path.
pub uninterp spec fn path_join(base: Seq<char>, rel: Seq<char>) -> Seq<char>;

/// The extension of the final component of a path, if it has one.
pub uninterp spec fn path_extension(p: Seq<char>) -> Option<Seq<char>>;

/// `Path::parent`.
#[verifier::external_body]
pub(crate) fn parent_of(p: &str) -> (r: Option<String>)
    ensures
        match r {
            Some(q) => path_parent(p@) == Some(q@),
            None => path_parent(p@) is None,
        },
{
    Path::new(p).parent().map(|q| q.to_string_lossy().into_owned())
}

/// `Path::join`.
#[verifier::external_body]
pub(crate) fn join(base: &str, rel: &str) -> (r: String)
    ensures
        r@ == path_join(base@, rel@),
{
    Path::new(base).join(rel).to_string_lossy().into_owned()
}

/// `Path::extension`.
#[verifier::external_body]
pub(crate) fn extension_of(p: &str) -> (r: Option<String>)
    ensures
        match r {
            Some(e) => path_extension(p@) == Some(e@),
            None => path_extension(p@) is None,
        },
{
    Path::new(p).extension().map(|e| e.to_string_lossy().into_owned())
}

/// The directory that a file's relative paths are resolved against: its
/// parent, or `.` when it has none.
pub open spec fn base_dir(p: Seq<char>) -> Seq<char> {
    match path_parent(p) {
        Some(d) => d,
        None => "."@,
    }
}

pub fn base_dir_of(p: &str) -> (r: String)
    ensures
        r@ == base_dir(p@),
{
    match parent_of(p) {
        Some(d) => d,
        None => String::from_str("."),
    }
}

} // verus!
