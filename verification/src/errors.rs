//! The error taxonomy of the store.

use vstd::prelude::*;

verus! {

/// Why opening (and, when needed, migrating) the database failed.
#[derive(Clone, Copy, PartialEq, Eq, Structural, Debug)]
pub enum OpenError {
    /// The persistent engine could not be acquired at all.
    EngineUnavailable,
    /// A schema creation step could not be applied, for instance because
    /// a uniqueness constraint conflicts with records already present.
    MigrationFailed,
}

/// A classified failure of one operation against a store.
#[derive(Clone, Copy, PartialEq, Eq, Structural, Debug)]
pub enum StoreError {
    /// The uniqueness constraint rejected the record.
    AlreadyExists,
    /// The requested store is absent from the open transaction.
    NotFound,
    /// An engine-level failure.
    Io,
}

/// Why a whole transactional call failed.
#[derive(Clone, Copy, PartialEq, Eq, Structural, Debug)]
pub enum TransactionError {
    /// A requested store is not declared in the schema.
    UnknownStore,
    /// The transaction itself could not be opened.
    OpenFailed,
    /// The unit of work failed and all its writes were discarded.
    Aborted(StoreError),
}

/// Why one stored record could not be converted into a consumable form.
/// Such a failure is recovered locally during a bulk read: the record is
/// dropped from the result and the rest of the read goes on.
#[derive(Clone, Copy, PartialEq, Eq, Structural, Debug)]
pub enum ConversionError {
    /// The record cannot be interpreted as a binary payload.
    NotBinary,
    /// A display reference could not be produced for the payload.
    ReferenceCreationFailed,
    /// The payload is not valid text.
    NotText,
}

} // verus!
