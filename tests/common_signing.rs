use fluence_keypair::KeyPair;
use registry::api::{
    clear_host_record, get_host_record_bytes, get_record_bytes, get_records, propagate_host_record,
    put_host_record, put_record, register_key, republish_records, CallContext, PutHostRecordResult,
};
use registry::auth::{check_weight_peer_id, WeightResult};
use registry::error::ServiceError;
use registry::key::Key;
use registry::merge::{merge_records, merge_two};
use registry::record::Record;
use registry::storage::RecordStore;
use sha2::Digest;

fn peer(kp: &KeyPair) -> String {
    kp.get_peer_id().to_base58()
}

fn sign(kp: &KeyPair, digest: &[u8]) -> Vec<u8> {
    kp.sign(digest).unwrap().to_vec().to_vec()
}

fn weight_for(peer_id: &str, weight: u32) -> WeightResult {
    WeightResult { success: true, weight, peer_id: peer_id.to_string(), error: String::new() }
}

fn ctx(init: &str, host: &str) -> CallContext {
    CallContext { init_peer_id: init.to_string(), host_id: host.to_string() }
}

fn signed_record(kp: &KeyPair, key_id: &str, value: &str, ts: u64, weight: u32) -> Record {
    let p = peer(kp);
    let digest = Record::signature_bytes(
        key_id.to_string(),
        value.to_string(),
        p.clone(),
        p.clone(),
        vec!["relay".to_string()],
        vec!["svc".to_string()],
        ts,
    );
    Record {
        key_id: key_id.to_string(),
        value: value.to_string(),
        peer_id: p.clone(),
        set_by: p,
        relay_id: vec!["relay".to_string()],
        service_id: vec!["svc".to_string()],
        timestamp_created: ts,
        signature: sign(kp, &digest),
        weight,
    }
}

fn plain_record(peer_id: &str, value: &str, ts: u64, weight: u32, sig: Vec<u8>) -> Record {
    Record {
        key_id: "k".to_string(),
        value: value.to_string(),
        peer_id: peer_id.to_string(),
        set_by: peer_id.to_string(),
        relay_id: vec![],
        service_id: vec![],
        timestamp_created: ts,
        signature: sig,
        weight,
    }
}

fn values_of(records: &[Record]) -> Vec<(String, String)> {
    let mut v: Vec<(String, String)> =
        records.iter().map(|r| (r.peer_id.clone(), r.value.clone())).collect();
    v.sort();
    v
}

fn store_with_key(kp: &KeyPair, name: &str, now: u64) -> (RecordStore, String) {
    let mut store = RecordStore::new();
    let p = peer(kp);
    let digest = Key::signature_bytes(name.to_string(), p.clone(), now);
    let key_id = register_key(
        &mut store,
        &ctx(&p, "host"),
        name.to_string(),
        now,
        sign(kp, &digest),
        false,
        &weight_for(&p, 1),
        now,
    )
    .unwrap();
    (store, key_id)
}

#[test]
fn key_id_is_name_then_peer() {
    assert_eq!(Key::get_key_id("ab", "c"), "abc");
    assert_eq!(Key::get_key_id("a", "bc"), "abc");
    let k = Key::new("alice".to_string(), "P1".to_string(), 3, vec![1], 4, true, 9);
    assert_eq!(k.key_id, "aliceP1");
    assert_eq!(k.timestamp_published, 4);
    assert!(k.pinned);
}

#[test]
fn key_digest_is_sha256_of_fields() {
    let d = Key::signature_bytes("alice".to_string(), "P1".to_string(), 258);
    let mut bytes = b"aliceP1".to_vec();
    bytes.extend(258u64.to_le_bytes());
    assert_eq!(d, sha2::Sha256::digest(&bytes).to_vec());
    assert_eq!(d.len(), 32);
}

#[test]
fn record_digest_is_sha256_of_fields() {
    let d = Record::signature_bytes(
        "k".to_string(),
        "v".to_string(),
        "p".to_string(),
        "s".to_string(),
        vec!["r1".to_string(), "r2".to_string()],
        vec!["x".to_string()],
        7,
    );
    let mut bytes = b"kvpsr1r2x".to_vec();
    bytes.extend(7u64.to_le_bytes());
    assert_eq!(d, sha2::Sha256::digest(&bytes).to_vec());
}

#[test]
fn record_bytes_for_self_and_host() {
    let c = ctx("me", "node");
    let own = get_record_bytes(&c, "k".into(), "v".into(), vec![], vec![], 1);
    let hosted = get_host_record_bytes(&c, "k".into(), "v".into(), vec![], vec![], 1);
    assert_eq!(
        own,
        Record::signature_bytes("k".into(), "v".into(), "me".into(), "me".into(), vec![], vec![], 1)
    );
    assert_eq!(
        hosted,
        Record::signature_bytes("k".into(), "v".into(), "node".into(), "me".into(), vec![], vec![], 1)
    );
    assert_ne!(own, hosted);
}

#[test]
fn key_verify_accepts_signed_key() {
    let kp = KeyPair::generate_ed25519();
    let p = peer(&kp);
    let d = Key::signature_bytes("alice".to_string(), p.clone(), 10);
    let k = Key::new("alice".to_string(), p, 10, sign(&kp, &d), 10, false, 1);
    assert_eq!(k.verify(10), Ok(()));
    assert_eq!(k.verify(9), Err(ServiceError::FutureTimestamp));
}

#[test]
fn key_verify_rejects_wrong_signer_and_bad_identity() {
    let kp = KeyPair::generate_ed25519();
    let other = KeyPair::generate_ed25519();
    let p = peer(&kp);
    let d = Key::signature_bytes("alice".to_string(), p.clone(), 10);
    let k = Key::new("alice".to_string(), p, 10, sign(&other, &d), 10, false, 1);
    assert_eq!(k.verify(10), Err(ServiceError::InvalidSignature));
    let bad = Key::new("alice".to_string(), "not a peer id".to_string(), 10, vec![1, 2], 10, false, 1);
    assert_eq!(bad.verify(10), Err(ServiceError::MalformedIdentity));
}

#[test]
fn record_verify_accepts_and_rejects_future() {
    let kp = KeyPair::generate_ed25519();
    let r = signed_record(&kp, "k", "v", 50, 1);
    assert_eq!(r.verify(50), Ok(()));
    assert_eq!(r.verify(100), Ok(()));
    assert_eq!(r.verify(49), Err(ServiceError::FutureTimestamp));
}

#[test]
fn record_tampering_breaks_signature() {
    let kp = KeyPair::generate_ed25519();
    let mut r = signed_record(&kp, "k", "value", 50, 1);
    r.value = "valuf".to_string();
    assert_eq!(r.verify(60), Err(ServiceError::InvalidSignature));
    let mut r = signed_record(&kp, "k", "value", 50, 1);
    r.relay_id = vec!["relaz".to_string()];
    assert_eq!(r.verify(60), Err(ServiceError::InvalidSignature));
    let mut r = signed_record(&kp, "k", "value", 50, 1);
    r.timestamp_created = 50 ^ 1;
    assert_eq!(r.verify(60), Err(ServiceError::InvalidSignature));
}

#[test]
fn merge_keeps_latest_timestamp() {
    let a = plain_record("p", "old", 100, 1, vec![1]);
    let b = plain_record("p", "new", 200, 1, vec![1]);
    let m = merge_records(vec![a.duplicate(), b.duplicate()]);
    assert_eq!(values_of(&m), vec![("p".to_string(), "new".to_string())]);
    let m = merge_records(vec![b, a]);
    assert_eq!(values_of(&m), vec![("p".to_string(), "new".to_string())]);
}

#[test]
fn merge_breaks_ties_by_weight_then_signature() {
    let a = plain_record("p", "w5", 100, 5, vec![1]);
    let b = plain_record("p", "w7", 100, 7, vec![1]);
    let m = merge_records(vec![b.duplicate(), a.duplicate()]);
    assert_eq!(m[0].value, "w7");
    let m = merge_records(vec![a, b]);
    assert_eq!(m[0].value, "w7");
    let c = plain_record("p", "low", 100, 5, vec![1, 2, 3]);
    let d = plain_record("p", "high", 100, 5, vec![1, 3]);
    let e = plain_record("p", "prefix", 100, 5, vec![1, 2]);
    let m = merge_records(vec![c.duplicate(), d.duplicate(), e.duplicate()]);
    assert_eq!(m[0].value, "high");
    let m = merge_records(vec![e, d, c]);
    assert_eq!(m[0].value, "high");
}

#[test]
fn merge_keeps_one_record_per_peer() {
    let m = merge_records(vec![
        plain_record("p", "a", 1, 1, vec![1]),
        plain_record("q", "b", 1, 1, vec![1]),
        plain_record("p", "c", 2, 1, vec![1]),
    ]);
    assert_eq!(
        values_of(&m),
        vec![("p".to_string(), "c".to_string()), ("q".to_string(), "b".to_string())]
    );
    assert!(merge_records(vec![]).is_empty());
}

#[test]
fn merge_is_order_independent() {
    let recs = || {
        vec![
            plain_record("p", "a", 1, 1, vec![1]),
            plain_record("q", "b", 3, 1, vec![1]),
            plain_record("p", "c", 2, 1, vec![1]),
            plain_record("q", "d", 3, 2, vec![1]),
            plain_record("r", "e", 3, 2, vec![9]),
        ]
    };
    let expected = values_of(&merge_records(recs()));
    let mut rev = recs();
    rev.reverse();
    assert_eq!(values_of(&merge_records(rev)), expected);
    let mut rot = recs();
    rot.rotate_left(2);
    assert_eq!(values_of(&merge_records(rot)), expected);
    let (left, right) = {
        let mut all = recs();
        let right = all.split_off(2);
        (all, right)
    };
    assert_eq!(values_of(&merge_two(right, left).unwrap()), expected);
}

#[test]
fn merge_with_itself_is_unchanged() {
    let s = || vec![plain_record("p", "a", 1, 1, vec![1]), plain_record("q", "b", 2, 3, vec![4])];
    let m = merge_two(s(), s()).unwrap();
    assert_eq!(values_of(&m), values_of(&s()));
}

#[test]
fn weight_claim_for_other_peer_is_rejected() {
    assert_eq!(check_weight_peer_id(&"p".to_string(), &weight_for("p", 3)), Ok(()));
    assert_eq!(
        check_weight_peer_id(&"p".to_string(), &weight_for("q", 3)),
        Err(ServiceError::Unauthorized)
    );
    let mut failed = weight_for("p", 3);
    failed.success = false;
    assert_eq!(check_weight_peer_id(&"p".to_string(), &failed), Err(ServiceError::Unauthorized));
}

#[test]
fn end_to_end_last_write_wins() {
    let kp = KeyPair::generate_ed25519();
    let p = peer(&kp);
    let (mut store, key_id) = store_with_key(&kp, "alice", 1);
    assert_eq!(key_id, format!("alice{}", p));
    let c = ctx(&p, "host");
    let put = |store: &mut RecordStore, value: &str, ts: u64| {
        let d = get_record_bytes(&c, key_id.clone(), value.to_string(), vec![], vec![], ts);
        put_record(store, &c, key_id.clone(), value.to_string(), vec![], vec![], ts, sign(&kp, &d), &weight_for(&p, 1), 100)
    };
    assert_eq!(put(&mut store, "v1", 10), Ok(()));
    let got = get_records(&mut store, key_id.clone(), 100).unwrap();
    assert_eq!(got.len(), 1);
    assert_eq!((got[0].value.as_str(), got[0].timestamp_created), ("v1", 10));
    assert_eq!(put(&mut store, "v0", 5), Ok(()));
    let got = get_records(&mut store, key_id.clone(), 100).unwrap();
    assert_eq!(got.len(), 1);
    assert_eq!((got[0].value.as_str(), got[0].timestamp_created), ("v1", 10));
    assert_eq!(put(&mut store, "v2", 20), Ok(()));
    let got = get_records(&mut store, key_id.clone(), 100).unwrap();
    assert_eq!(got.len(), 1);
    assert_eq!((got[0].value.as_str(), got[0].timestamp_created), ("v2", 20));
}

#[test]
fn put_record_errors() {
    let kp = KeyPair::generate_ed25519();
    let p = peer(&kp);
    let (mut store, key_id) = store_with_key(&kp, "alice", 1);
    let c = ctx(&p, "host");
    let d = get_record_bytes(&c, "missing".into(), "v".into(), vec![], vec![], 10);
    assert_eq!(
        put_record(&mut store, &c, "missing".into(), "v".into(), vec![], vec![], 10, sign(&kp, &d), &weight_for(&p, 1), 100),
        Err(ServiceError::KeyNotFound)
    );
    let d = get_record_bytes(&c, key_id.clone(), "v".into(), vec![], vec![], 10);
    assert_eq!(
        put_record(&mut store, &c, key_id.clone(), "v".into(), vec![], vec![], 10, sign(&kp, &d), &weight_for("other", 1), 100),
        Err(ServiceError::Unauthorized)
    );
    assert_eq!(
        put_record(&mut store, &c, key_id.clone(), "v".into(), vec![], vec![], 10, sign(&kp, &d), &weight_for(&p, 1), 5),
        Err(ServiceError::FutureTimestamp)
    );
    assert_eq!(
        put_record(&mut store, &c, key_id.clone(), "w".into(), vec![], vec![], 10, sign(&kp, &d), &weight_for(&p, 1), 100),
        Err(ServiceError::InvalidSignature)
    );
    assert!(get_records(&mut store, key_id, 100).unwrap().is_empty());
    assert_eq!(get_records(&mut store, "nope".into(), 100).err(), Some(ServiceError::KeyNotFound));
}

#[test]
fn register_key_errors() {
    let kp = KeyPair::generate_ed25519();
    let p = peer(&kp);
    let mut store = RecordStore::new();
    let d = Key::signature_bytes("alice".to_string(), p.clone(), 10);
    let c = ctx(&p, "host");
    assert_eq!(
        register_key(&mut store, &c, "alice".into(), 10, sign(&kp, &d), false, &weight_for(&p, 1), 9),
        Err(ServiceError::FutureTimestamp)
    );
    assert_eq!(
        register_key(&mut store, &c, "alice".into(), 10, sign(&kp, &d), false, &weight_for("x", 1), 10),
        Err(ServiceError::Unauthorized)
    );
    assert!(!store.key_exists(&format!("alice{}", p)));
    assert!(register_key(&mut store, &c, "alice".into(), 10, sign(&kp, &d), false, &weight_for(&p, 1), 10).is_ok());
    assert!(store.key_exists(&format!("alice{}", p)));
}

#[test]
fn host_records_and_deletion_scope() {
    let owner = KeyPair::generate_ed25519();
    let writer = KeyPair::generate_ed25519();
    let host = KeyPair::generate_ed25519();
    let (mut store, key_id) = store_with_key(&owner, "alice", 1);
    let w = peer(&writer);
    let h = peer(&host);
    let c = ctx(&w, &h);
    let d = get_host_record_bytes(&c, key_id.clone(), "hosted".into(), vec![], vec![], 10);
    let rec = put_host_record(&mut store, &c, key_id.clone(), "hosted".into(), vec![], vec![], 10, sign(&writer, &d), &weight_for(&w, 2), 100).unwrap();
    assert_eq!((rec.peer_id.as_str(), rec.set_by.as_str()), (h.as_str(), w.as_str()));
    assert_eq!(get_records(&mut store, key_id.clone(), 100).unwrap().len(), 1);

    let stranger = ctx("someone else", &h);
    assert_eq!(
        clear_host_record(&mut store, &stranger, key_id.clone(), 100),
        Err(ServiceError::HostValueNotFound)
    );
    assert_eq!(get_records(&mut store, key_id.clone(), 100).unwrap().len(), 1);
    assert!(!store.delete_record(&key_id, &h, &"someone else".to_string()));
    assert_eq!(clear_host_record(&mut store, &c, key_id.clone(), 100), Ok(()));
    assert!(get_records(&mut store, key_id.clone(), 100).unwrap().is_empty());
    assert_eq!(
        clear_host_record(&mut store, &c, key_id, 100),
        Err(ServiceError::HostValueNotFound)
    );
}

#[test]
fn propagate_host_record_paths() {
    let owner = KeyPair::generate_ed25519();
    let writer = KeyPair::generate_ed25519();
    let host = KeyPair::generate_ed25519();
    let (mut source, key_id) = store_with_key(&owner, "alice", 1);
    let w = peer(&writer);
    let h = peer(&host);
    let c = ctx(&w, &h);
    let d = get_host_record_bytes(&c, key_id.clone(), "hosted".into(), vec![], vec![], 10);
    let rec = put_host_record(&mut source, &c, key_id.clone(), "hosted".into(), vec![], vec![], 10, sign(&writer, &d), &weight_for(&w, 2), 100).unwrap();

    let bad = PutHostRecordResult { success: false, error: "x".into(), value: vec![] };
    assert_eq!(
        propagate_host_record(&mut source, &c, &bad, 100, &weight_for(&h, 4)),
        Err(ServiceError::InvalidUpstreamResult)
    );
    let good = PutHostRecordResult { success: true, error: String::new(), value: vec![rec] };
    let (mut replica, _) = store_with_key(&owner, "alice", 1);
    assert_eq!(
        propagate_host_record(&mut replica, &ctx("intruder", &h), &good, 100, &weight_for(&h, 4)),
        Err(ServiceError::ProvenanceCheckFailed)
    );
    assert_eq!(
        propagate_host_record(&mut replica, &c, &good, 100, &weight_for(&w, 4)),
        Err(ServiceError::Unauthorized)
    );
    assert_eq!(propagate_host_record(&mut replica, &c, &good, 100, &weight_for(&h, 4)), Ok(()));
    let got = get_records(&mut replica, key_id, 100).unwrap();
    assert_eq!(got.len(), 1);
    assert_eq!((got[0].value.as_str(), got[0].weight), ("hosted", 4));
}

#[test]
fn republish_records_paths() {
    let owner = KeyPair::generate_ed25519();
    let a = KeyPair::generate_ed25519();
    let b = KeyPair::generate_ed25519();
    let (mut store, key_id) = store_with_key(&owner, "alice", 1);
    assert_eq!(republish_records(&mut store, vec![], vec![], 100), Ok(0));
    let batch = vec![
        signed_record(&a, &key_id, "a1", 10, 1),
        signed_record(&b, &key_id, "b1", 10, 1),
        signed_record(&a, &key_id, "a2", 20, 1),
    ];
    assert_eq!(republish_records(&mut store, batch, vec![], 100), Ok(2));
    let got = get_records(&mut store, key_id.clone(), 100).unwrap();
    let mut values: Vec<String> = got.iter().map(|r| r.value.clone()).collect();
    values.sort();
    assert_eq!(values, vec!["a2".to_string(), "b1".to_string()]);
    assert_eq!(
        republish_records(&mut store, vec![signed_record(&a, &key_id, "a2", 20, 1)], vec![], 100),
        Ok(0)
    );
    assert_eq!(
        republish_records(&mut store, vec![signed_record(&a, &key_id, "a3", 30, 1), signed_record(&b, "other", "b", 30, 1)], vec![], 100),
        Err(ServiceError::RecordsKeyMismatch)
    );
    assert_eq!(
        republish_records(&mut store, vec![signed_record(&a, &key_id, "a3", 300, 1)], vec![], 100),
        Err(ServiceError::FutureTimestamp)
    );
    assert_eq!(
        republish_records(&mut store, vec![signed_record(&a, "nokey", "a3", 30, 1)], vec![], 100),
        Err(ServiceError::KeyNotFound)
    );
    let got = get_records(&mut store, key_id, 100).unwrap();
    assert_eq!(got.len(), 2);
}
