//! Error taxonomy of the ledger service.
//!
//! Every failure is returned as a typed value; validation failures mean
//! "discard this transmission", while `IncompleteTransmissions`,
//! `Shutdown` and `StorageError` signal conditions that halt or delay
//! block production.

use vstd::prelude::*;

verus! {

/// A typed failure of the ledger service.
#[derive(Clone, Copy, PartialEq, Eq, Structural, Debug)]
pub enum LedgerError {
    /// A lookup keyed by the carried identifier found no entity.
    NotFound(u64),
    /// A payload's computed identity differs from the claimed one.
    IdentityMismatch,
    /// A transmission's kind differs from the kind its identifier claims.
    TypeMismatch,
    /// The payload bytes are malformed and could not be decoded.
    CodecError,
    /// A solution's own commitment differs from the claimed commitment.
    ClaimMismatch,
    /// A cryptographic or structural check of the content failed.
    VerificationFailed,
    /// A fee-settlement transaction arrived from the network; those are
    /// synthesized only during block production.
    UnexpectedFeeTransaction,
    /// A sub-DAG certificate references a transmission that was not
    /// supplied alongside it.
    IncompleteTransmissions,
    /// No stored committee is applicable to the requested round.
    RoundTooOld,
    /// The commit path refused to run because teardown has begun.
    Shutdown,
    /// An opaque failure of the storage collaborator.
    StorageError,
}

} // verus!
