use vstd::prelude::*;

verus! {

/// Why a request against the record was refused.
#[derive(Debug, Clone, Copy, PartialEq, Eq, Structural)]
pub enum MerkleError {
    /// The caller did not sign the request.
    MissingRequiredSignature,
    /// A reference of the request is not the one expected: the allocation
    /// collaborator, the derived storage address, or a storage location that
    /// cannot be written.
    InvalidArgument,
    /// The storage location already holds data.
    AddressConflict,
    /// The record has not been created yet.
    NotInitialized,
    /// The leaf region is full.
    CapacityExceeded,
    /// The stored bytes do not follow the record layout.
    SerializationError,
}

} // verus!
