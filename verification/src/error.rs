//! Errors of the object store, and of what is built on it.
use vstd::prelude::*;

verus! {

/// What kind of failure the object store reported.
#[derive(Clone, Copy, Debug, PartialEq, Eq, Structural)]
pub enum StoreErrorKind {
    /// There is no object at the path.
    NotFound,
    /// The object is the one that the caller already holds.
    NotModified,
    /// There is an object at the path already.
    AlreadyExists,
    /// The object is not the version that was to be replaced.
    Precondition,
    /// Any other failure.
    Other,
}

/// A failure that the object store reported, with its cause.
#[derive(Clone, Debug)]
pub struct StoreError<E> {
    pub kind: StoreErrorKind,
    pub source: E,
}

/// Why an operation on a versioned object failed.
#[derive(Clone, Debug)]
pub enum TransactionalObjectError<E> {
    /// The version to write is there already, or lies at or below the boundary.
    ObjectVersionExists,
    /// The store holds something that is not what it should be.
    InvalidObjectState,
    /// The caller's codec failed.
    CallbackError(E),
    /// The object store failed.
    ObjectStoreError(StoreError<E>),
}

} // verus!
