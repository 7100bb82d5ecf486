use vstd::prelude::*;
use crate::codec::{append_str, append_u64, le64, utf8};
use crate::crypto::{sha256, sha256_of, signature_outcome, verify_peer_signature};
use crate::error::ServiceError;

verus! {

/// The claim that the name `key` belongs to the peer `peer_id`.
#[derive(Debug)]
pub struct Key {
    pub key_id: String,
    pub key: String,
    pub peer_id: String,
    pub timestamp_created: u64,
    pub signature: Vec<u8>,
    pub timestamp_published: u64,
    pub pinned: bool,
    pub weight: u32,
}

/// The mathematical value of a [`Key`].
pub ghost struct KeyView {
    pub key_id: Seq<char>,
    pub key: Seq<char>,
    pub peer_id: Seq<char>,
    pub timestamp_created: u64,
    pub signature: Seq<u8>,
    pub timestamp_published: u64,
    pub pinned: bool,
    pub weight: u32,
}

impl View for Key {
    type V = KeyView;

    open spec fn view(&self) -> KeyView {
        KeyView {
            key_id: self.key_id@,
            key: self.key@,
            peer_id: self.peer_id@,
            timestamp_created: self.timestamp_created,
            signature: self.signature@,
            timestamp_published: self.timestamp_published,
            pinned: self.pinned,
            weight: self.weight,
        }
    }
}

/// The storage identifier of the name `key` owned by `peer_id`: the two concatenated.
pub open spec fn key_id_of(key: Seq<char>, peer_id: Seq<char>) -> Seq<char> {
    key + peer_id
}

/// The bytes a key owner signs: the name, the owner and the creation time.
pub open spec fn key_signable(key: Seq<char>, peer_id: Seq<char>, timestamp_created: u64) -> Seq<u8> {
    utf8(key) + utf8(peer_id) + le64(timestamp_created)
}

/// The digest a key owner signs.
pub open spec fn key_digest(key: Seq<char>, peer_id: Seq<char>, timestamp_created: u64) -> Seq<u8> {
    sha256_of(key_signable(key, peer_id, timestamp_created))
}

impl KeyView {
    /// The key id is the one derived from the name and the owner.
    pub open spec fn wf(self) -> bool {
        self.key_id == key_id_of(self.key, self.peer_id)
    }

    /// What checking the owner's signature yields.
    pub open spec fn signature_check(self) -> Result<(), ServiceError> {
        signature_outcome(
            self.peer_id,
            key_digest(self.key, self.peer_id, self.timestamp_created),
            self.signature,
        )
    }

    /// What verifying the key at time `now` yields.
    pub open spec fn verification(self, now: u64) -> Result<(), ServiceError> {
        if self.timestamp_created > now {
            Err(ServiceError::FutureTimestamp)
        } else {
            self.signature_check()
        }
    }
}

impl Key {
    /// Builds a key; its key id is derived from `key` and `peer_id`.
    pub fn new(
        key: String,
        peer_id: String,
        timestamp_created: u64,
        signature: Vec<u8>,
        timestamp_published: u64,
        pinned: bool,
        weight: u32,
    ) -> (r: Self)
        ensures
            r@ == (KeyView {
                key_id: key_id_of(key@, peer_id@),
                key: key@,
                peer_id: peer_id@,
                timestamp_created,
                signature: signature@,
                timestamp_published,
                pinned,
                weight,
            }),
            r@.wf(),
    {
        let key_id = Self::get_key_id(key.as_str(), peer_id.as_str());
        Key {
            key_id,
            key,
            peer_id,
            timestamp_created,
            signature,
            timestamp_published,
            pinned,
            weight,
        }
    }

    /// The key id of the name `key` owned by `peer_id`.
    pub fn get_key_id(key: &str, peer_id: &str) -> (r: String)
        ensures
            r@ == key_id_of(key@, peer_id@),
    {
        let mut r = key.to_owned();
        r.append(peer_id);
        r
    }

    /// The digest the owner signs for the given name, owner and creation time.
    pub fn signature_bytes(key: String, peer_id: String, timestamp_created: u64) -> (r: Vec<u8>)
        ensures
            r@ == key_digest(key@, peer_id@, timestamp_created),
    {
        let mut metadata: Vec<u8> = Vec::new();
        append_str(&mut metadata, &key);
        append_str(&mut metadata, &peer_id);
        append_u64(&mut metadata, timestamp_created);
        sha256(&metadata)
    }

    /// Rejects a key created after `current_timestamp_sec`, then checks its signature.
    pub fn verify(&self, current_timestamp_sec: u64) -> (r: Result<(), ServiceError>)
        ensures
            r == self@.verification(current_timestamp_sec),
    {
        if self.timestamp_created > current_timestamp_sec {
            return Err(ServiceError::FutureTimestamp);
        }
        self.verify_signature()
    }

    /// Checks the owner's signature over the key's name, owner and creation time.
    pub fn verify_signature(&self) -> (r: Result<(), ServiceError>)
        ensures
            r == self@.signature_check(),
    {
        let bytes = Self::signature_bytes(self.key.clone(), self.peer_id.clone(), self.timestamp_created);
        verify_peer_signature(&self.peer_id, &bytes, &self.signature)
    }
}

} // verus!
