//! The ways in which the store and its backends fail.

use vstd::prelude::*;

verus! {

/// Why an operation of the store or of a backend failed.
#[derive(Debug, PartialEq, Eq)]
pub enum StoreError {
    /// The persisted object or key is missing.
    NotFound,
    /// The disk or the transport failed.
    IOError,
    /// The persisted document or a fetched payload is malformed.
    DeserializeError,
    /// A backend chain, a season or a time could not be read from its text.
    ConfigError,
    /// Both replicas of a replicated backend failed.
    BothFailed { primary: Box<StoreError>, secondary: Box<StoreError> },
}

} // verus!
