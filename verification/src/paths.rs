//! File-system paths as text. Joining and taking the extension are left to
//! the standard library's `Path`, which knows the platform's separators; the
//! library names their results and reasons about the names.

use std::path::Path;
use vstd::prelude::*;

verus! {

/// The path that `Path::join` gives for `name` adjoined to `directory`, on
/// the platform the library is built for.
pub uninterp spec fn joined_path(directory: Seq<char>, name: Seq<char>) -> Seq<char>;

/// The extension that `Path::extension` finds in `path`, on the platform the
/// library is built for: the part of the final component after its last dot,
/// if it has one.
pub uninterp spec fn path_extension(path: Seq<char>) -> Option<Seq<char>>;

/// Calls `Path::join`. The contract only names the result: the joined path
/// is a function of the two texts.
#[verifier::external_body]
pub(crate) fn join_path(directory: &str, name: &str) -> (joined: String)
    ensures
        joined@ == joined_path(directory@, name@),
{
    Path::new(directory).join(name).to_string_lossy().into_owned()
}

/// Calls `Path::extension`. The contract only names the result: whether
/// there is an extension, and which, is a function of the path's text.
#[verifier::external_body]
pub(crate) fn extension_of(path: &str) -> (extension: Option<String>)
    ensures
        extension is Some <==> path_extension(path@) is Some,
        extension matches Some(e) ==> path_extension(path@) == Some(e@),
{
    Path::new(path).extension().map(|e| e.to_string_lossy().into_owned())
}

} // verus!
