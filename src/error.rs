use vstd::prelude::*;

verus! {

/// Every way an operation of the registry can fail.
#[derive(Clone, Copy, Debug, PartialEq, Eq, Structural)]
pub enum ServiceError {
    /// The entity claims a creation time later than the current time.
    FutureTimestamp,
    /// The signing identity is not a peer id with an inlined public key.
    MalformedIdentity,
    /// The signature does not verify over the entity's canonical bytes.
    InvalidSignature,
    /// The weight answer failed or is about a peer other than the asserted owner.
    Unauthorized,
    /// No key is registered under the given key id.
    KeyNotFound,
    /// No host record of the caller exists under the given key id.
    HostValueNotFound,
    /// The records of a batch do not share one key id.
    RecordsKeyMismatch,
    /// A value did not come from where the operation requires it to come from.
    ProvenanceCheckFailed,
    /// The result handed on from a previous operation is not a single stored record.
    InvalidUpstreamResult,
}

} // verus!
