//! The backend that keeps the document in one local file.

use std::path::PathBuf;
use vstd::prelude::*;

verus! {

/// `std::path::PathBuf`, which is carried through and never looked into.
#[verifier::external_type_specification]
#[verifier::external_body]
pub struct ExPathBuf(PathBuf);

/// Where the file backend keeps the document: one fixed local path.
pub struct FileStorage {
    pub path: PathBuf,
}

impl FileStorage {
    /// The file backend at the path that `path` converts into.
    pub fn new<P>(path: P) -> (r: Self) where P: Into<PathBuf>
        ensures
            call_ensures(<P as Into<PathBuf>>::into, (path,), r.path),
    {
        FileStorage { path: path.into() }
    }
}

} // verus!
