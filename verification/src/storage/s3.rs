//! The backend that keeps the document as one object of a bucket.

use crate::error::StoreError;
use vstd::prelude::*;
use vstd::string::*;

verus! {

/// `s3::Bucket`, which is carried through and never looked into.
#[verifier::external_type_specification]
#[verifier::external_body]
pub struct ExBucket(s3::Bucket);

/// The key under which the document lies in its bucket.
pub open spec fn object_key() -> Seq<char> {
    "storage.json"@
}

/// The status `status` says that the request was fulfilled.
pub open spec fn is_success(status: u16) -> bool {
    200 <= status < 300
}

/// What a save comes to that the bucket answered with `status`: it has
/// succeeded where the status says so, and has failed in every other case.
pub open spec fn write_result(status: u16) -> Result<(), StoreError> {
    if is_success(status) {
        Ok(())
    } else {
        Err(StoreError::IOError)
    }
}

/// What a load comes to that the bucket answered with `status`: the document
/// is there where the status says that the request was fulfilled, it is
/// missing where the status is 404, and the load has failed in every other
/// case.
pub open spec fn load_result(status: u16) -> Result<(), StoreError> {
    if is_success(status) {
        Ok(())
    } else if status == 404 {
        Err(StoreError::NotFound)
    } else {
        Err(StoreError::IOError)
    }
}

/// Where the object backend keeps the document: one fixed key in one
/// bucket.
pub struct S3Storage {
    pub bucket: s3::Bucket,
    pub filename: String,
}

impl S3Storage {
    /// The object backend on `bucket`, with the document under
    /// `storage.json`.
    pub fn new(bucket: s3::Bucket) -> (r: Self)
        ensures
            r.bucket == bucket,
            r.filename@ == object_key(),
    {
        S3Storage { bucket, filename: "storage.json".to_owned() }
    }

    /// What a save comes to that the bucket answered with `status`.
    pub fn write_outcome(status: u16) -> (r: Result<(), StoreError>)
        ensures
            r == write_result(status),
    {
        if 200 <= status && status < 300 {
            Ok(())
        } else {
            Err(StoreError::IOError)
        }
    }

    /// What a load comes to that the bucket answered with `status`.
    pub fn load_outcome(status: u16) -> (r: Result<(), StoreError>)
        ensures
            r == load_result(status),
    {
        if 200 <= status && status < 300 {
            Ok(())
        } else if status == 404 {
            Err(StoreError::NotFound)
        } else {
            Err(StoreError::IOError)
        }
    }
}

} // verus!
