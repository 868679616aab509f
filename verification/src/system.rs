//! What this library asks of the file system.
//!
//! Nothing here is proved: each function hands a question to code outside this
//! library, and what is written of it is taken on trust.

use vstd::prelude::*;

verus! {

/// The error of a file-system operation.
#[verifier::external_type_specification]
#[verifier::external_body]
pub struct ExIoError(std::io::Error);

/// Asks `same_file::is_same_file` whether two paths lead to one file.
///
/// The answer depends on what the file system holds at the moment of the call,
/// so nothing is claimed of it: not which answer comes, and not that a second
/// call gives the same one. The call opens both paths for reading; it gives an
/// error where either cannot be opened, and waits where a path names a pipe
/// that nobody writes to.
#[verifier::external_body]
pub(crate) fn is_same_file(first: &str, second: &str) -> (outcome: Result<bool, std::io::Error>) {
    same_file::is_same_file(first, second)
}

/// Asks `std::path::Path::is_relative` whether a path depends on the current
/// directory.
///
/// What counts as absolute differs between systems, so nothing is claimed of
/// the answer.
#[verifier::external_body]
pub(crate) fn path_is_relative(path: &str) -> (relative: bool) {
    std::path::Path::new(path).is_relative()
}

/// Asks `std::path::Path::exists` whether a path leads to anything.
///
/// The answer is the file system's, at the moment of the call; nothing is
/// claimed of it.
#[verifier::external_body]
pub(crate) fn path_exists(path: &str) -> (exists: bool) {
    std::path::Path::new(path).exists()
}

/// Asks `std::path::Path::is_dir` whether a path leads to a directory.
///
/// The answer is the file system's, at the moment of the call; nothing is
/// claimed of it.
#[verifier::external_body]
pub(crate) fn path_is_dir(path: &str) -> (is_directory: bool) {
    std::path::Path::new(path).is_dir()
}

/// Asks `std::path::Path::file_name` for the last component of a path, if the
/// path has one.
///
/// How a path falls into components differs between systems, so nothing is
/// claimed of the answer.
#[verifier::external_body]
pub(crate) fn path_file_name(path: &str) -> (name: Option<String>) {
    match std::path::Path::new(path).file_name() {
        Some(name) => Some(name.to_string_lossy().into_owned()),
        None => None,
    }
}

} // verus!
