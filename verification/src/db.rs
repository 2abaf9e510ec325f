//! The cache of compiled documents: its records, their identifiers, and the
//! store that holds them.
pub mod models;
pub mod repositories;
pub mod uuid;

use vstd::prelude::*;

verus! {

/// Why an operation of the store failed.
#[derive(Debug, Clone, PartialEq, Eq)]
pub enum Error {
    /// No record has the key.
    NotFound,
    /// The store could not be reached.
    ConnectionError,
    /// The store refused the operation; with its message.
    OtherDbError(String),
}

} // verus!
