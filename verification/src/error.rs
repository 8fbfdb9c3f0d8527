//! The error kinds of the storage layer, and the ownership-return result
//! shape of every mutating operation: on success the caller gets the new
//! storage instance, on failure it gets the original, semantically unmodified
//! one back alongside the error, so a failed step is observably a no-op.
use vstd::prelude::*;

verus! {

/// Ghost counterpart of `StorageError`.
pub enum ErrorV {
    TableNotFound(Seq<char>),
    RenamingColumnNotFound,
    AddingColumnAlreadyExists(Seq<char>),
    DroppingColumnNotFound(Seq<char>),
    DefaultValueRequired(Seq<char>),
    StorageFailure,
}

/// What a mutating or alter operation can fail with.  `StorageFailure` wraps
/// a keyed backend's failure to decode a stored blob; every other kind names
/// the table or column that the operation could not apply to.
#[derive(Debug, PartialEq)]
pub enum StorageError {
    TableNotFound(String),
    RenamingColumnNotFound,
    AddingColumnAlreadyExists(String),
    DroppingColumnNotFound(String),
    DefaultValueRequired(String),
    StorageFailure,
}

impl View for StorageError {
    type V = ErrorV;

    open spec fn view(&self) -> ErrorV {
        match self {
            StorageError::TableNotFound(t) => ErrorV::TableNotFound(t@),
            StorageError::RenamingColumnNotFound => ErrorV::RenamingColumnNotFound,
            StorageError::AddingColumnAlreadyExists(c) => ErrorV::AddingColumnAlreadyExists(c@),
            StorageError::DroppingColumnNotFound(c) => ErrorV::DroppingColumnNotFound(c@),
            StorageError::DefaultValueRequired(c) => ErrorV::DefaultValueRequired(c@),
            StorageError::StorageFailure => ErrorV::StorageFailure,
        }
    }
}

/// The result of a mutating operation: a new storage instance with the
/// success value, or the original instance with the error.
pub type MutResult<S, V> = Result<(S, V), (S, StorageError)>;

} // verus!
