//! Normalization of paths against the file system.
use vstd::prelude::*;
use normpath::PathExt;
use std::io::ErrorKind;
use std::path::Path;

verus! {

/// Why a path could not be normalized.
#[derive(Debug, Clone, PartialEq, Eq)]
pub enum Error {
    /// Nothing exists at the path.
    NotFound,
    /// Any other failure of the file system, with its message.
    Failed(String),
}

/// Whether `path` can name nothing on any disk: it is empty, or it holds
/// the character NUL.
pub open spec fn names_nothing(path: Seq<char>) -> bool {
    path.len() == 0 || path.contains('\0')
}

/// Calls `normpath::PathExt::normalize` on `path` and hands back the
/// normalized path as text.
///
/// The outcome depends on what is on disk. Believed of normpath, whatever is
/// on disk: it refuses an empty path and a path that holds NUL. A failure
/// whose kind is `NotFound` is told apart from the others.
#[verifier::external_body]
fn normalize_on_disk(path: &str) -> (res: Result<String, Error>)
    ensures
        names_nothing(path@) ==> res is Err,
{
    match Path::new(path).normalize() {
        Ok(normal) => Ok(normal.into_path_buf().to_string_lossy().into_owned()),
        Err(e) if e.kind() == ErrorKind::NotFound => Err(Error::NotFound),
        Err(e) => Err(Error::Failed(e.to_string())),
    }
}

/// The absolute, normalized form of a path that exists on disk.
///
/// Fails with `NotFound` where nothing exists at the path, and with `Failed`
/// where the file system refuses for another reason. Which of the three it
/// is depends on what is on disk, but for a path that can name nothing:
/// that one fails on every disk.
pub fn normalize_sync(path: &str) -> (res: Result<String, Error>)
    ensures
        names_nothing(path@) ==> res is Err,
{
    normalize_on_disk(path)
}

} // verus!
