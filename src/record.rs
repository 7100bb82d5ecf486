use vstd::prelude::*;
use vstd::bytes::lemma_auto_spec_u64_to_from_le_bytes;
use crate::codec::{append_str, append_strs, append_u64, le64, utf8, utf8_all};
use crate::crypto::{sha256, sha256_of, signature_outcome, verify_peer_signature};
use crate::error::ServiceError;

verus! {

/// One peer's value under a key.
///
/// `peer_id` owns the storage slot; `set_by` authored and signed the value. They
/// differ when a host keeps a value on behalf of another peer.
#[derive(Debug)]
pub struct Record {
    pub key_id: String,
    pub value: String,
    pub peer_id: String,
    pub set_by: String,
    pub relay_id: Vec<String>,
    pub service_id: Vec<String>,
    pub timestamp_created: u64,
    pub signature: Vec<u8>,
    pub weight: u32,
}

/// The mathematical value of a [`Record`].
pub ghost struct RecordView {
    pub key_id: Seq<char>,
    pub value: Seq<char>,
    pub peer_id: Seq<char>,
    pub set_by: Seq<char>,
    pub relay_id: Seq<Seq<char>>,
    pub service_id: Seq<Seq<char>>,
    pub timestamp_created: u64,
    pub signature: Seq<u8>,
    pub weight: u32,
}

/// The views of a list of strings.
pub open spec fn strs_view(v: Seq<String>) -> Seq<Seq<char>> {
    v.map_values(|s: String| s@)
}

impl View for Record {
    type V = RecordView;

    open spec fn view(&self) -> RecordView {
        RecordView {
            key_id: self.key_id@,
            value: self.value@,
            peer_id: self.peer_id@,
            set_by: self.set_by@,
            relay_id: strs_view(self.relay_id@),
            service_id: strs_view(self.service_id@),
            timestamp_created: self.timestamp_created,
            signature: self.signature@,
            weight: self.weight,
        }
    }
}

/// The views of a list of records.
pub open spec fn records_view(v: Seq<Record>) -> Seq<RecordView> {
    v.map_values(|r: Record| r@)
}

/// The bytes the author of a record signs: every field but the signature and the
/// weight, strings as UTF-8 and the time as eight little-endian bytes, in this order.
pub open spec fn record_signable(
    key_id: Seq<char>,
    value: Seq<char>,
    peer_id: Seq<char>,
    set_by: Seq<char>,
    relay_id: Seq<Seq<char>>,
    service_id: Seq<Seq<char>>,
    timestamp_created: u64,
) -> Seq<u8> {
    utf8(key_id) + utf8(value) + utf8(peer_id) + utf8(set_by) + utf8_all(relay_id) + utf8_all(
        service_id,
    ) + le64(timestamp_created)
}

impl RecordView {
    /// The digest the author of this record signs.
    pub open spec fn digest(self) -> Seq<u8> {
        sha256_of(
            record_signable(
                self.key_id,
                self.value,
                self.peer_id,
                self.set_by,
                self.relay_id,
                self.service_id,
                self.timestamp_created,
            ),
        )
    }

    /// What checking the author's signature yields; the author is `set_by`.
    pub open spec fn signature_check(self) -> Result<(), ServiceError> {
        signature_outcome(self.set_by, self.digest(), self.signature)
    }

    /// What verifying the record at time `now` yields.
    pub open spec fn verification(self, now: u64) -> Result<(), ServiceError> {
        if self.timestamp_created > now {
            Err(ServiceError::FutureTimestamp)
        } else {
            self.signature_check()
        }
    }
}

/// A record created after the current time fails verification with `FutureTimestamp`,
/// whatever its signature.
pub proof fn lemma_future_record_rejected(r: RecordView, now: u64)
    requires
        r.timestamp_created > now,
    ensures
        r.verification(now) == Err::<(), ServiceError>(ServiceError::FutureTimestamp),
{
}

/// Replacing a middle part of a byte string by a different part of the same length
/// changes the byte string.
proof fn lemma_middle_differs(a: Seq<u8>, x: Seq<u8>, y: Seq<u8>, b: Seq<u8>)
    requires
        x.len() == y.len(),
        x != y,
    ensures
        a + x + b != a + y + b,
{
    if a + x + b == a + y + b {
        assert((a + x + b).subrange(a.len() as int, (a.len() + x.len()) as int) =~= x);
        assert((a + y + b).subrange(a.len() as int, (a.len() + y.len()) as int) =~= y);
    }
}

/// Tampering with a signed record after signing changes the bytes its signature covers:
/// a different creation time, or value or relay bytes changed in place (as a bit flip
/// does), each give different signed bytes.
pub proof fn lemma_tamper_changes_signed_bytes(r: RecordView, t: RecordView)
    requires
        t.key_id == r.key_id,
        t.peer_id == r.peer_id,
        t.set_by == r.set_by,
        t.service_id == r.service_id,
        ({
            ||| (t.value == r.value && t.relay_id == r.relay_id && t.timestamp_created
                != r.timestamp_created)
            ||| (utf8(t.value).len() == utf8(r.value).len() && utf8(t.value) != utf8(r.value)
                && t.relay_id == r.relay_id && t.timestamp_created == r.timestamp_created)
            ||| (t.value == r.value && utf8_all(t.relay_id).len() == utf8_all(r.relay_id).len()
                && utf8_all(t.relay_id) != utf8_all(r.relay_id) && t.timestamp_created
                == r.timestamp_created)
        }),
    ensures
        record_signable(
            t.key_id,
            t.value,
            t.peer_id,
            t.set_by,
            t.relay_id,
            t.service_id,
            t.timestamp_created,
        ) != record_signable(
            r.key_id,
            r.value,
            r.peer_id,
            r.set_by,
            r.relay_id,
            r.service_id,
            r.timestamp_created,
        ),
{
    let k = utf8(r.key_id);
    let p = utf8(r.peer_id) + utf8(r.set_by);
    let sv = utf8_all(r.service_id);
    if t.timestamp_created != r.timestamp_created {
        lemma_auto_spec_u64_to_from_le_bytes();
        let a = k + utf8(r.value) + p + utf8_all(r.relay_id) + sv;
        assert(le64(t.timestamp_created) != le64(r.timestamp_created));
        lemma_middle_differs(a, le64(t.timestamp_created), le64(r.timestamp_created), Seq::empty());
        assert(a + le64(t.timestamp_created) + Seq::<u8>::empty() =~= a + le64(t.timestamp_created));
        assert(a + le64(r.timestamp_created) + Seq::<u8>::empty() =~= a + le64(r.timestamp_created));
        assert(a + le64(t.timestamp_created) =~= record_signable(
            t.key_id,
            t.value,
            t.peer_id,
            t.set_by,
            t.relay_id,
            t.service_id,
            t.timestamp_created,
        ));
        assert(a + le64(r.timestamp_created) =~= record_signable(
            r.key_id,
            r.value,
            r.peer_id,
            r.set_by,
            r.relay_id,
            r.service_id,
            r.timestamp_created,
        ));
    } else if t.value != r.value {
        let b = p + utf8_all(r.relay_id) + sv + le64(r.timestamp_created);
        lemma_middle_differs(k, utf8(t.value), utf8(r.value), b);
        assert(k + utf8(t.value) + b =~= record_signable(
            t.key_id,
            t.value,
            t.peer_id,
            t.set_by,
            t.relay_id,
            t.service_id,
            t.timestamp_created,
        ));
        assert(k + utf8(r.value) + b =~= record_signable(
            r.key_id,
            r.value,
            r.peer_id,
            r.set_by,
            r.relay_id,
            r.service_id,
            r.timestamp_created,
        ));
    } else {
        let a = k + utf8(r.value) + p;
        let b = sv + le64(r.timestamp_created);
        lemma_middle_differs(a, utf8_all(t.relay_id), utf8_all(r.relay_id), b);
        assert(a + utf8_all(t.relay_id) + b =~= record_signable(
            t.key_id,
            t.value,
            t.peer_id,
            t.set_by,
            t.relay_id,
            t.service_id,
            t.timestamp_created,
        ));
        assert(a + utf8_all(r.relay_id) + b =~= record_signable(
            r.key_id,
            r.value,
            r.peer_id,
            r.set_by,
            r.relay_id,
            r.service_id,
            r.timestamp_created,
        ));
    }
}

/// Copies a list of strings.
pub fn clone_strs(v: &Vec<String>) -> (r: Vec<String>)
    ensures
        strs_view(r@) == strs_view(v@),
{
    let mut r: Vec<String> = Vec::new();
    let mut i: usize = 0;
    while i < v.len()
        invariant
            i <= v@.len(),
            r@.len() == i,
            forall|j: int| 0 <= j < i ==> #[trigger] r@[j]@ == v@[j]@,
        decreases v@.len() - i,
    {
        let s = v[i].clone();
        r.push(s);
        i = i + 1;
    }
    assert(strs_view(r@) =~= strs_view(v@));
    r
}

impl Record {
    /// A copy of the record.
    pub fn duplicate(&self) -> (r: Record)
        ensures
            r@ == self@,
    {
        Record {
            key_id: self.key_id.clone(),
            value: self.value.clone(),
            peer_id: self.peer_id.clone(),
            set_by: self.set_by.clone(),
            relay_id: clone_strs(&self.relay_id),
            service_id: clone_strs(&self.service_id),
            timestamp_created: self.timestamp_created,
            signature: self.signature.clone(),
            weight: self.weight,
        }
    }

    /// The digest the author signs for the given record fields.
    pub fn signature_bytes(
        key_id: String,
        value: String,
        peer_id: String,
        set_by: String,
        relay_id: Vec<String>,
        service_id: Vec<String>,
        timestamp_created: u64,
    ) -> (r: Vec<u8>)
        ensures
            r@ == sha256_of(
                record_signable(
                    key_id@,
                    value@,
                    peer_id@,
                    set_by@,
                    strs_view(relay_id@),
                    strs_view(service_id@),
                    timestamp_created,
                ),
            ),
    {
        let mut metadata: Vec<u8> = Vec::new();
        append_str(&mut metadata, &key_id);
        append_str(&mut metadata, &value);
        append_str(&mut metadata, &peer_id);
        append_str(&mut metadata, &set_by);
        append_strs(&mut metadata, &relay_id);
        append_strs(&mut metadata, &service_id);
        append_u64(&mut metadata, timestamp_created);
        sha256(&metadata)
    }

    /// Rejects a record created after `current_timestamp_sec`, then checks its signature.
    pub fn verify(&self, current_timestamp_sec: u64) -> (r: Result<(), ServiceError>)
        ensures
            r == self@.verification(current_timestamp_sec),
    {
        if self.timestamp_created > current_timestamp_sec {
            return Err(ServiceError::FutureTimestamp);
        }
        self.verify_signature()
    }

    /// Checks the author's signature over the record's canonical bytes.
    pub fn verify_signature(&self) -> (r: Result<(), ServiceError>)
        ensures
            r == self@.signature_check(),
    {
        let bytes = Self::signature_bytes(
            self.key_id.clone(),
            self.value.clone(),
            self.peer_id.clone(),
            self.set_by.clone(),
            clone_strs(&self.relay_id),
            clone_strs(&self.service_id),
            self.timestamp_created,
        );
        verify_peer_signature(&self.set_by, &bytes, &self.signature)
    }
}

} // verus!
