//! Path components, as `std::path::Path` reads them from a path string.
//!
//! `Path` splits components at the separators of the platform the library
//! is built for; the names below stand for what it gives there.

use vstd::prelude::*;

verus! {

/// What `Path::file_name` gives for the path text `p` (the last component,
/// `None` when the path ends in `..` or has no component).
pub uninterp spec fn file_name_of(p: Seq<char>) -> Option<Seq<char>>;

/// What `Path::file_stem` gives for the path text `p` (the file name without
/// its last extension).
pub uninterp spec fn file_stem_of(p: Seq<char>) -> Option<Seq<char>>;

/// What `Path::extension` gives for the path text `p` (the part of the file
/// name after its last `.`, when there is one not at the start).
pub uninterp spec fn extension_of(p: Seq<char>) -> Option<Seq<char>>;

/// `std::path::Path::new(p).file_name()` as a string. Components of a `&str`
/// path are valid UTF-8, so the conversion to `&str` never fails.
#[verifier::external_body]
pub(crate) fn path_file_name(p: &str) -> (r: Option<String>)
    ensures
        r matches Some(s) ==> file_name_of(p@) == Some(s@),
        r is None ==> file_name_of(p@) is None,
{
    std::path::Path::new(p).file_name().and_then(|n| n.to_str()).map(|n| n.to_string())
}

/// `std::path::Path::new(p).file_stem()` as a string.
#[verifier::external_body]
pub(crate) fn path_file_stem(p: &str) -> (r: Option<String>)
    ensures
        r matches Some(s) ==> file_stem_of(p@) == Some(s@),
        r is None ==> file_stem_of(p@) is None,
{
    std::path::Path::new(p).file_stem().and_then(|n| n.to_str()).map(|n| n.to_string())
}

/// `std::path::Path::new(p).extension()` as a string.
#[verifier::external_body]
pub(crate) fn path_extension(p: &str) -> (r: Option<String>)
    ensures
        r matches Some(s) ==> extension_of(p@) == Some(s@),
        r is None ==> extension_of(p@) is None,
{
    std::path::Path::new(p).extension().and_then(|n| n.to_str()).map(|n| n.to_string())
}

} // verus!
