use vstd::prelude::*;
use sha2::Digest;
use std::str::FromStr;
use crate::error::ServiceError;

verus! {

/// The SHA-256 digest of a byte string.
pub uninterp spec fn sha256_of(bytes: Seq<u8>) -> Seq<u8>;

/// Whether a peer-id string decodes to a public key that is inlined in it.
pub uninterp spec fn peer_key_decodes(peer_id: Seq<char>) -> bool;

/// Whether the key inlined in `peer_id` accepts `signature` over `message`.
pub uninterp spec fn signature_accepted(peer_id: Seq<char>, message: Seq<u8>, signature: Seq<u8>) -> bool;

/// Why a signature check failed.
#[derive(Clone, Copy, Debug, PartialEq, Eq, Structural)]
pub enum SignatureFault {
    MalformedIdentity,
    InvalidSignature,
}

/// Relies on sha2's `Sha256::digest`: a 32-byte digest that depends on the input alone.
#[verifier::external_body]
pub(crate) fn sha256(bytes: &Vec<u8>) -> (r: Vec<u8>)
    ensures
        r@ == sha256_of(bytes@),
        r@.len() == 32,
{
    sha2::Sha256::digest(bytes.as_slice()).to_vec()
}

/// Relies on libp2p-core's `PeerId::from_str` and fluence-keypair's
/// `PublicKey::try_from(PeerId)` to recover the key inlined in a peer id, then on
/// `Signature::from_bytes` and `PublicKey::verify` to check the signature with it.
#[verifier::external_body]
pub(crate) fn check_peer_signature(
    peer_id: &str,
    message: &Vec<u8>,
    signature: &Vec<u8>,
) -> (r: Result<(), SignatureFault>)
    ensures
        r matches Err(SignatureFault::MalformedIdentity) <==> !peer_key_decodes(peer_id@),
        r is Ok <==> (peer_key_decodes(peer_id@) && signature_accepted(peer_id@, message@, signature@)),
{
    let peer = libp2p_core::PeerId::from_str(peer_id).map_err(|_| SignatureFault::MalformedIdentity)?;
    let pk = fluence_keypair::PublicKey::try_from(peer).map_err(|_| SignatureFault::MalformedIdentity)?;
    let sig = fluence_keypair::Signature::from_bytes(pk.get_key_format(), signature.clone());
    pk.verify(message.as_slice(), &sig).map_err(|_| SignatureFault::InvalidSignature)
}

/// What checking `signature` over `message` against the identity `peer_id` yields.
pub open spec fn signature_outcome(peer_id: Seq<char>, message: Seq<u8>, signature: Seq<u8>) -> Result<
    (),
    ServiceError,
> {
    if !peer_key_decodes(peer_id) {
        Err(ServiceError::MalformedIdentity)
    } else if signature_accepted(peer_id, message, signature) {
        Ok(())
    } else {
        Err(ServiceError::InvalidSignature)
    }
}

/// Checks `signature` over `message` against the key inlined in `peer_id`.
pub fn verify_peer_signature(peer_id: &String, message: &Vec<u8>, signature: &Vec<u8>) -> (r: Result<
    (),
    ServiceError,
>)
    ensures
        r == signature_outcome(peer_id@, message@, signature@),
{
    match check_peer_signature(peer_id.as_str(), message, signature) {
        Ok(()) => Ok(()),
        Err(SignatureFault::MalformedIdentity) => Err(ServiceError::MalformedIdentity),
        Err(SignatureFault::InvalidSignature) => Err(ServiceError::InvalidSignature),
    }
}

} // verus!
