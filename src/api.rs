use vstd::prelude::*;
use crate::auth::{check_weight_peer_id, WeightResult};
use crate::crypto::sha256_of;
use crate::error::ServiceError;
use crate::key::{key_id_of, Key, KeyView};
use crate::merge::{has_peer, is_merge_of, wins_in};
use crate::record::{record_signable, records_view, strs_view, Record, RecordView};
use crate::storage::{
    has_key, has_slot, keys_touched, records_for, slot_index, upsert, upsert_all, upsert_count,
    RecordStore,
    StoreView,
};

verus! {

/// Who is calling: the peer that started the call and the node that serves it.
///
/// The host vouches for both, and for the provenance of the weight answers passed in.
pub struct CallContext {
    pub init_peer_id: String,
    pub host_id: String,
}

/// The outcome of [`put_host_record`] as it is handed on to [`propagate_host_record`].
pub struct PutHostRecordResult {
    pub success: bool,
    pub error: String,
    pub value: Vec<Record>,
}

/// The record built from the given fields.
pub open spec fn record_of(
    key_id: Seq<char>,
    value: Seq<char>,
    peer_id: Seq<char>,
    set_by: Seq<char>,
    relay_id: Seq<String>,
    service_id: Seq<String>,
    timestamp_created: u64,
    signature: Seq<u8>,
    weight: u32,
) -> RecordView {
    RecordView {
        key_id,
        value,
        peer_id,
        set_by,
        relay_id: strs_view(relay_id),
        service_id: strs_view(service_id),
        timestamp_created,
        signature,
        weight,
    }
}

/// What a write of `rec`, authorized by `weight` for `owner`, yields on a store `s` at
/// time `now`: the first failing check, or success.
pub open spec fn write_outcome(
    s: StoreView,
    owner: Seq<char>,
    weight: WeightResult,
    rec: RecordView,
    now: u64,
) -> Result<(), ServiceError> {
    if !weight.authorizes(owner) {
        Err(ServiceError::Unauthorized)
    } else if rec.verification(now) is Err {
        rec.verification(now)
    } else if !has_key(s.keys, rec.key_id) {
        Err(ServiceError::KeyNotFound)
    } else {
        Ok(())
    }
}

/// The first failure among the records of a batch for `key_id` at time `now`: a failed
/// verification or a record under another key id.
pub open spec fn batch_outcome(s: Seq<RecordView>, key_id: Seq<char>, now: u64) -> Result<
    (),
    ServiceError,
>
    decreases s.len(),
{
    if s.len() == 0 {
        Ok(())
    } else {
        match batch_outcome(s.drop_last(), key_id, now) {
            Err(e) => Err(e),
            Ok(()) => if s.last().verification(now) is Err {
                s.last().verification(now)
            } else if s.last().key_id != key_id {
                Err(ServiceError::RecordsKeyMismatch)
            } else {
                Ok(())
            },
        }
    }
}

/// A weight answer about a peer other than the record's owner never authorizes a
/// write, whatever weight it carries.
pub proof fn lemma_foreign_weight_rejected(
    s: StoreView,
    owner: Seq<char>,
    weight: WeightResult,
    rec: RecordView,
    now: u64,
)
    requires
        weight.peer_id@ != owner,
    ensures
        write_outcome(s, owner, weight, rec, now) == Err::<(), ServiceError>(ServiceError::Unauthorized),
{
}

/// A merge of a single record is that record.
proof fn lemma_merge_single(m: Seq<RecordView>, rec: RecordView)
    requires
        is_merge_of(m, seq![rec]),
    ensures
        m == seq![rec],
{
    assert(seq![rec][0] == rec);
    assert(has_peer(m, seq![rec][0].peer_id));
    let k = choose|k: int| 0 <= k < m.len() && #[trigger] m[k].peer_id == seq![rec][0].peer_id;
    assert forall|j: int| 0 <= j < m.len() implies #[trigger] m[j] == rec by {
        assert(wins_in(m[j], seq![rec]));
    }
    if m.len() > 1 {
        let other = if k == 0 { 1int } else { 0int };
        assert(m[other] == rec && m[k] == rec);
    }
    assert(m =~= seq![rec]);
}

/// The digest the caller signs to publish a record of its own under `key_id`.
pub fn get_record_bytes(
    ctx: &CallContext,
    key_id: String,
    value: String,
    relay_id: Vec<String>,
    service_id: Vec<String>,
    timestamp_created: u64,
) -> (r: Vec<u8>)
    ensures
        r@ == sha256_of(
            record_signable(
                key_id@,
                value@,
                ctx.init_peer_id@,
                ctx.init_peer_id@,
                strs_view(relay_id@),
                strs_view(service_id@),
                timestamp_created,
            ),
        ),
{
    Record::signature_bytes(
        key_id,
        value,
        ctx.init_peer_id.clone(),
        ctx.init_peer_id.clone(),
        relay_id,
        service_id,
        timestamp_created,
    )
}

/// The digest the caller signs to have the serving node host a record under `key_id`.
pub fn get_host_record_bytes(
    ctx: &CallContext,
    key_id: String,
    value: String,
    relay_id: Vec<String>,
    service_id: Vec<String>,
    timestamp_created: u64,
) -> (r: Vec<u8>)
    ensures
        r@ == sha256_of(
            record_signable(
                key_id@,
                value@,
                ctx.host_id@,
                ctx.init_peer_id@,
                strs_view(relay_id@),
                strs_view(service_id@),
                timestamp_created,
            ),
        ),
{
    Record::signature_bytes(
        key_id,
        value,
        ctx.host_id.clone(),
        ctx.init_peer_id.clone(),
        relay_id,
        service_id,
        timestamp_created,
    )
}

/// Registers the caller's claim on the name `key` and returns its key id. A key id that
/// is already registered keeps its first key.
pub fn register_key(
    store: &mut RecordStore,
    ctx: &CallContext,
    key: String,
    timestamp_created: u64,
    signature: Vec<u8>,
    pinned: bool,
    weight: &WeightResult,
    current_timestamp_sec: u64,
) -> (r: Result<String, ServiceError>)
    requires
        old(store).wf(),
    ensures
        final(store).wf(),
        ({
            let kv = KeyView {
                key_id: key_id_of(key@, ctx.init_peer_id@),
                key: key@,
                peer_id: ctx.init_peer_id@,
                timestamp_created,
                signature: signature@,
                timestamp_published: current_timestamp_sec,
                pinned,
                weight: weight.weight,
            };
            if !weight.authorizes(ctx.init_peer_id@) {
                r == Err::<String, ServiceError>(ServiceError::Unauthorized) && final(store)@ == old(
                    store,
                )@
            } else if kv.verification(current_timestamp_sec) is Err {
                r == Err::<String, ServiceError>(
                    kv.verification(current_timestamp_sec)->Err_0,
                ) && final(store)@ == old(store)@
            } else {
                &&& r matches Ok(id) && id@ == kv.key_id
                &&& final(store)@.records == old(store)@.records
                &&& final(store)@.keys == if has_key(old(store)@.keys, kv.key_id) {
                    old(store)@.keys
                } else {
                    old(store)@.keys.push(kv)
                }
            }
        }),
{
    check_weight_peer_id(&ctx.init_peer_id, weight)?;
    let k = Key::new(
        key,
        ctx.init_peer_id.clone(),
        timestamp_created,
        signature,
        current_timestamp_sec,
        pinned,
        weight.weight,
    );
    k.verify(current_timestamp_sec)?;
    let key_id = k.key_id.clone();
    let _ = store.insert_key(k);
    Ok(key_id)
}

/// Publishes the caller's own value under `key_id`, folded into the caller's slot.
pub fn put_record(
    store: &mut RecordStore,
    ctx: &CallContext,
    key_id: String,
    value: String,
    relay_id: Vec<String>,
    service_id: Vec<String>,
    timestamp_created: u64,
    signature: Vec<u8>,
    weight: &WeightResult,
    current_timestamp_sec: u64,
) -> (r: Result<(), ServiceError>)
    requires
        old(store).wf(),
    ensures
        final(store).wf(),
        ({
            let rv = record_of(
                key_id@,
                value@,
                ctx.init_peer_id@,
                ctx.init_peer_id@,
                relay_id@,
                service_id@,
                timestamp_created,
                signature@,
                weight.weight,
            );
            &&& r == write_outcome(old(store)@, ctx.init_peer_id@, *weight, rv, current_timestamp_sec)
            &&& final(store)@.keys == old(store)@.keys
            &&& final(store)@.records == if r is Ok {
                upsert(old(store)@.records, rv)
            } else {
                old(store)@.records
            }
        }),
{
    check_weight_peer_id(&ctx.init_peer_id, weight)?;
    let record = Record {
        key_id,
        value,
        peer_id: ctx.init_peer_id.clone(),
        set_by: ctx.init_peer_id.clone(),
        relay_id,
        service_id,
        timestamp_created,
        signature,
        weight: weight.weight,
    };
    record.verify(current_timestamp_sec)?;
    store.check_key_existence(&record.key_id)?;
    let _ = store.update_record(record);
    Ok(())
}

/// Has the serving node host the caller's value under `key_id`, in the node's slot, and
/// returns the record that was written.
pub fn put_host_record(
    store: &mut RecordStore,
    ctx: &CallContext,
    key_id: String,
    value: String,
    relay_id: Vec<String>,
    service_id: Vec<String>,
    timestamp_created: u64,
    signature: Vec<u8>,
    weight: &WeightResult,
    current_timestamp_sec: u64,
) -> (r: Result<Record, ServiceError>)
    requires
        old(store).wf(),
    ensures
        final(store).wf(),
        ({
            let rv = record_of(
                key_id@,
                value@,
                ctx.host_id@,
                ctx.init_peer_id@,
                relay_id@,
                service_id@,
                timestamp_created,
                signature@,
                weight.weight,
            );
            let out = write_outcome(old(store)@, ctx.init_peer_id@, *weight, rv, current_timestamp_sec);
            &&& out is Ok ==> (r matches Ok(rec) && rec@ == rv)
            &&& out is Err ==> r == Err::<Record, ServiceError>(out->Err_0)
            &&& final(store)@.keys == old(store)@.keys
            &&& final(store)@.records == if out is Ok {
                upsert(old(store)@.records, rv)
            } else {
                old(store)@.records
            }
        }),
{
    check_weight_peer_id(&ctx.init_peer_id, weight)?;
    let record = Record {
        key_id,
        value,
        peer_id: ctx.host_id.clone(),
        set_by: ctx.init_peer_id.clone(),
        relay_id,
        service_id,
        timestamp_created,
        signature,
        weight: weight.weight,
    };
    record.verify(current_timestamp_sec)?;
    store.check_key_existence(&record.key_id)?;
    let written = record.duplicate();
    let _ = store.update_record(record);
    Ok(written)
}

/// What propagating the hosted record `rec` to this node, with a weight answer for its
/// hosting peer, yields on a store `s` at time `now`.
pub open spec fn propagate_outcome(
    s: StoreView,
    caller: Seq<char>,
    weight: WeightResult,
    rec: RecordView,
    now: u64,
) -> Result<(), ServiceError> {
    if rec.verification(now) is Err {
        rec.verification(now)
    } else if rec.set_by != caller {
        Err(ServiceError::ProvenanceCheckFailed)
    } else if !weight.authorizes(rec.peer_id) {
        Err(ServiceError::Unauthorized)
    } else if !has_key(s.keys, rec.key_id) {
        Err(ServiceError::KeyNotFound)
    } else {
        Ok(())
    }
}

/// Replicates a record that the caller had a host store ([`put_host_record`]) into this
/// node's store, with the weight taken from a fresh answer for the hosting peer.
pub fn propagate_host_record(
    store: &mut RecordStore,
    ctx: &CallContext,
    set_host_value: &PutHostRecordResult,
    current_timestamp_sec: u64,
    weight: &WeightResult,
) -> (r: Result<(), ServiceError>)
    requires
        old(store).wf(),
    ensures
        final(store).wf(),
        !set_host_value.success || set_host_value.value@.len() != 1 ==> r == Err::<
            (),
            ServiceError,
        >(ServiceError::InvalidUpstreamResult) && final(store)@ == old(store)@,
        set_host_value.success && set_host_value.value@.len() == 1 ==> ({
            let rec = set_host_value.value@[0]@;
            let stored = RecordView { weight: weight.weight, ..rec };
            let out = propagate_outcome(old(store)@, ctx.init_peer_id@, *weight, rec, current_timestamp_sec);
            &&& r == out
            &&& out is Err ==> final(store)@ == old(store)@
            &&& out is Ok ==> final(store)@.keys == keys_touched(
                old(store)@.keys,
                rec.key_id,
                current_timestamp_sec,
            ) && final(store)@.records == upsert(old(store)@.records, stored)
        }),
{
    if !set_host_value.success || set_host_value.value.len() != 1 {
        return Err(ServiceError::InvalidUpstreamResult);
    }
    let mut record = set_host_value.value[0].duplicate();
    record.verify(current_timestamp_sec)?;
    if record.set_by != ctx.init_peer_id {
        return Err(ServiceError::ProvenanceCheckFailed);
    }
    check_weight_peer_id(&record.peer_id, weight)?;
    record.weight = weight.weight;
    store.check_key_existence(&record.key_id)?;
    let key_id = record.key_id.clone();
    let _ = store.update_key_timestamp(&key_id, current_timestamp_sec);
    let ghost rv = record@;
    let mut batch: Vec<Record> = Vec::new();
    batch.push(record);
    assert(records_view(batch@) =~= seq![rv]);
    let ghost mid = store@.records;
    let cnt = store.merge_and_update_records(key_id, batch);
    proof {
        let m = choose|m: Seq<RecordView>|
            is_merge_of(m, seq![rv]) && store@.records == upsert_all(mid, m) && cnt == upsert_count(
                mid,
                m,
            );
        lemma_merge_single(m, rv);
        assert(m.drop_last() =~= Seq::<RecordView>::empty());
        assert(m.last() == rv);
        assert(store@.records == upsert(mid, rv));
    }
    Ok(())
}

/// Returns the records stored under `key_id` and marks the key as just seen.
pub fn get_records(store: &mut RecordStore, key_id: String, current_timestamp_sec: u64) -> (r: Result<
    Vec<Record>,
    ServiceError,
>)
    requires
        old(store).wf(),
    ensures
        final(store).wf(),
        !has_key(old(store)@.keys, key_id@) ==> r == Err::<Vec<Record>, ServiceError>(
            ServiceError::KeyNotFound,
        ) && final(store)@ == old(store)@,
        has_key(old(store)@.keys, key_id@) ==> (r matches Ok(v) && records_view(v@) == records_for(
            old(store)@.records,
            key_id@,
        )) && final(store)@.keys == keys_touched(old(store)@.keys, key_id@, current_timestamp_sec)
            && final(store)@.records == old(store)@.records,
{
    store.check_key_existence(&key_id)?;
    let _ = store.update_key_timestamp(&key_id, current_timestamp_sec);
    Ok(store.get_records(&key_id))
}

/// Merges a batch of records for one key into the store (last write wins) and returns how
/// many slots changed. Every record is verified before any is merged.
pub fn republish_records(
    store: &mut RecordStore,
    records: Vec<Record>,
    weights: Vec<WeightResult>,
    current_timestamp_sec: u64,
) -> (r: Result<usize, ServiceError>)
    requires
        old(store).wf(),
    ensures
        final(store).wf(),
        records@.len() == 0 ==> r == Ok::<usize, ServiceError>(0) && final(store)@ == old(store)@,
        records@.len() > 0 ==> ({
            let batch = records_view(records@);
            let key_id = batch[0].key_id;
            let out = batch_outcome(batch, key_id, current_timestamp_sec);
            &&& out is Err ==> r == Err::<usize, ServiceError>(out->Err_0) && final(store)@ == old(
                store,
            )@
            &&& out is Ok && !has_key(old(store)@.keys, key_id) ==> r == Err::<usize, ServiceError>(
                ServiceError::KeyNotFound,
            ) && final(store)@ == old(store)@
            &&& out is Ok && has_key(old(store)@.keys, key_id) ==> r is Ok && final(store)@.keys
                == keys_touched(old(store)@.keys, key_id, current_timestamp_sec) && exists|
                m: Seq<RecordView>,
            |
                is_merge_of(m, batch) && final(store)@.records == upsert_all(old(store)@.records, m)
        }),
{
    if records.len() == 0 {
        return Ok(0);
    }
    let key_id = records[0].key_id.clone();
    let ghost batch = records_view(records@);
    let mut i: usize = 0;
    while i < records.len()
        invariant
            store.wf(),
            store@ == old(store)@,
            0 < records@.len(),
            i <= records@.len(),
            batch == records_view(records@),
            key_id@ == batch[0].key_id,
            batch_outcome(batch.subrange(0, i as int), key_id@, current_timestamp_sec) is Ok,
        decreases records@.len() - i,
    {
        let ghost prefix = batch.subrange(0, i + 1);
        assert(prefix.drop_last() =~= batch.subrange(0, i as int));
        assert(prefix.last() == records@[i as int]@);
        if let Err(e) = records[i].verify(current_timestamp_sec) {
            proof {
                lemma_batch_outcome_prefix(batch, i + 1, key_id@, current_timestamp_sec);
            }
            return Err(e);
        }
        if records[i].key_id != key_id {
            proof {
                lemma_batch_outcome_prefix(batch, i + 1, key_id@, current_timestamp_sec);
            }
            return Err(ServiceError::RecordsKeyMismatch);
        }
        i = i + 1;
    }
    assert(batch.subrange(0, batch.len() as int) =~= batch);
    store.check_key_existence(&key_id)?;
    let _ = store.update_key_timestamp(&key_id, current_timestamp_sec);
    Ok(store.merge_and_update_records(key_id, records))
}

/// A failure in a prefix of a batch is the failure of the whole batch.
proof fn lemma_batch_outcome_prefix(s: Seq<RecordView>, n: int, key_id: Seq<char>, now: u64)
    requires
        0 <= n <= s.len(),
        batch_outcome(s.subrange(0, n), key_id, now) is Err,
    ensures
        batch_outcome(s, key_id, now) == batch_outcome(s.subrange(0, n), key_id, now),
    decreases s.len() - n,
{
    if n < s.len() {
        let t = s.subrange(0, n + 1);
        assert(t.drop_last() =~= s.subrange(0, n));
        assert(s.subrange(0, n + 1).subrange(0, n) =~= s.subrange(0, n));
        lemma_batch_outcome_prefix(s, n + 1, key_id, now);
    } else {
        assert(s.subrange(0, n) =~= s);
    }
}

/// Removes the record that the serving node hosts for the caller under `key_id`.
pub fn clear_host_record(
    store: &mut RecordStore,
    ctx: &CallContext,
    key_id: String,
    current_timestamp_sec: u64,
) -> (r: Result<(), ServiceError>)
    requires
        old(store).wf(),
    ensures
        final(store).wf(),
        !has_key(old(store)@.keys, key_id@) ==> r == Err::<(), ServiceError>(
            ServiceError::KeyNotFound,
        ) && final(store)@ == old(store)@,
        has_key(old(store)@.keys, key_id@) ==> ({
            let recs = old(store)@.records;
            let found = has_slot(recs, key_id@, ctx.host_id@) && recs[slot_index(
                recs,
                key_id@,
                ctx.host_id@,
            )].set_by == ctx.init_peer_id@;
            &&& final(store)@.keys == keys_touched(old(store)@.keys, key_id@, current_timestamp_sec)
            &&& found ==> r is Ok && final(store)@.records == recs.remove(
                slot_index(recs, key_id@, ctx.host_id@),
            )
            &&& !found ==> r == Err::<(), ServiceError>(ServiceError::HostValueNotFound)
                && final(store)@.records == recs
        }),
{
    store.check_key_existence(&key_id)?;
    let _ = store.update_key_timestamp(&key_id, current_timestamp_sec);
    if store.delete_record(&key_id, &ctx.host_id, &ctx.init_peer_id) {
        Ok(())
    } else {
        Err(ServiceError::HostValueNotFound)
    }
}

} // verus!
