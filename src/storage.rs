use vstd::prelude::*;
use crate::error::ServiceError;
use crate::key::{Key, KeyView};
use crate::merge::{beats, is_merge_of, merge_records, outranks};
use crate::record::{records_view, Record, RecordView};

verus! {

/// The keys and records of the registry.
///
/// Records are kept in slots: at most one record for each pair of key id and owning peer.
pub struct RecordStore {
    keys: Vec<Key>,
    records: Vec<Record>,
}

/// The mathematical value of a [`RecordStore`].
pub ghost struct StoreView {
    pub keys: Seq<KeyView>,
    pub records: Seq<RecordView>,
}

impl View for RecordStore {
    type V = StoreView;

    closed spec fn view(&self) -> StoreView {
        StoreView {
            keys: self.keys@.map_values(|k: Key| k@),
            records: records_view(self.records@),
        }
    }
}

/// Some key of `keys` has the key id `key_id`.
pub open spec fn has_key(keys: Seq<KeyView>, key_id: Seq<char>) -> bool {
    exists|i: int| 0 <= i < keys.len() && #[trigger] keys[i].key_id == key_id
}

/// `r` fills the slot of key id `key_id` and owner `peer_id`.
pub open spec fn in_slot(r: RecordView, key_id: Seq<char>, peer_id: Seq<char>) -> bool {
    r.key_id == key_id && r.peer_id == peer_id
}

/// Some record of `s` fills the slot of `key_id` and `peer_id`.
pub open spec fn has_slot(s: Seq<RecordView>, key_id: Seq<char>, peer_id: Seq<char>) -> bool {
    exists|j: int| 0 <= j < s.len() && in_slot(#[trigger] s[j], key_id, peer_id)
}

/// The position of the record that fills the slot of `key_id` and `peer_id`.
pub open spec fn slot_index(s: Seq<RecordView>, key_id: Seq<char>, peer_id: Seq<char>) -> int {
    choose|j: int| 0 <= j < s.len() && in_slot(#[trigger] s[j], key_id, peer_id)
}

/// No two records of `s` fill the same slot.
pub open spec fn slots_unique(s: Seq<RecordView>) -> bool {
    forall|i: int, j: int|
        0 <= i < s.len() && 0 <= j < s.len() && i != j && #[trigger] s[i].key_id
            == #[trigger] s[j].key_id ==> s[i].peer_id != s[j].peer_id
}

/// No two keys of `keys` share a key id.
pub open spec fn key_ids_unique(keys: Seq<KeyView>) -> bool {
    forall|i: int, j: int|
        0 <= i < keys.len() && 0 <= j < keys.len() && i != j ==> #[trigger] keys[i].key_id
            != #[trigger] keys[j].key_id
}

/// The records of `s` that belong to `key_id`, in stored order.
pub open spec fn records_for(s: Seq<RecordView>, key_id: Seq<char>) -> Seq<RecordView>
    decreases s.len(),
{
    if s.len() == 0 {
        Seq::empty()
    } else {
        let rest = records_for(s.drop_last(), key_id);
        if s.last().key_id == key_id {
            rest.push(s.last())
        } else {
            rest
        }
    }
}

/// Whether folding `rec` into `s` changes its slot: the slot is empty or `rec` beats
/// the record in it.
pub open spec fn upsert_changes(s: Seq<RecordView>, rec: RecordView) -> bool {
    !has_slot(s, rec.key_id, rec.peer_id) || outranks(
        rec,
        s[slot_index(s, rec.key_id, rec.peer_id)],
    )
}

/// `s` with `rec` folded into its slot: stored if the slot is empty, put in place of the
/// slot's record if it beats it, dropped otherwise.
pub open spec fn upsert(s: Seq<RecordView>, rec: RecordView) -> Seq<RecordView> {
    if !has_slot(s, rec.key_id, rec.peer_id) {
        s.push(rec)
    } else if upsert_changes(s, rec) {
        s.update(slot_index(s, rec.key_id, rec.peer_id), rec)
    } else {
        s
    }
}

/// `s` with every record of `ws` folded in, in order.
pub open spec fn upsert_all(s: Seq<RecordView>, ws: Seq<RecordView>) -> Seq<RecordView>
    decreases ws.len(),
{
    if ws.len() == 0 {
        s
    } else {
        upsert(upsert_all(s, ws.drop_last()), ws.last())
    }
}

/// How many of the records of `ws`, folded in order into `s`, change their slot.
pub open spec fn upsert_count(s: Seq<RecordView>, ws: Seq<RecordView>) -> nat
    decreases ws.len(),
{
    if ws.len() == 0 {
        0
    } else {
        let before = upsert_all(s, ws.drop_last());
        upsert_count(s, ws.drop_last()) + if upsert_changes(before, ws.last()) {
            1nat
        } else {
            0nat
        }
    }
}

/// The keys with key id `key_id` have their publication time set to `t`.
pub open spec fn keys_touched(keys: Seq<KeyView>, key_id: Seq<char>, t: u64) -> Seq<KeyView> {
    keys.map_values(
        |k: KeyView|
            if k.key_id == key_id {
                KeyView { timestamp_published: t, ..k }
            } else {
                k
            },
    )
}

proof fn lemma_slot_index(s: Seq<RecordView>, j: int)
    requires
        slots_unique(s),
        0 <= j < s.len(),
    ensures
        has_slot(s, s[j].key_id, s[j].peer_id),
        slot_index(s, s[j].key_id, s[j].peer_id) == j,
{
    assert(in_slot(s[j], s[j].key_id, s[j].peer_id));
    let k = slot_index(s, s[j].key_id, s[j].peer_id);
    assert(s[k].key_id == s[j].key_id);
}

impl RecordStore {
    /// The store's invariant: key ids are unique and each slot holds at most one record.
    pub closed spec fn wf(&self) -> bool {
        &&& key_ids_unique(self@.keys)
        &&& slots_unique(self@.records)
    }

    /// An empty store.
    pub fn new() -> (r: Self)
        ensures
            r.wf(),
            r@.keys == Seq::<KeyView>::empty(),
            r@.records == Seq::<RecordView>::empty(),
    {
        let r = RecordStore { keys: Vec::new(), records: Vec::new() };
        assert(r@.keys =~= Seq::<KeyView>::empty());
        assert(r@.records =~= Seq::<RecordView>::empty());
        r
    }

    fn find_key(&self, key_id: &String) -> (r: Option<usize>)
        ensures
            match r {
                Some(i) => i < self@.keys.len() && self@.keys[i as int].key_id == key_id@,
                None => !has_key(self@.keys, key_id@),
            },
    {
        let mut i: usize = 0;
        while i < self.keys.len()
            invariant
                i <= self.keys@.len(),
                forall|k: int| 0 <= k < i ==> #[trigger] self.keys@[k]@.key_id != key_id@,
            decreases self.keys@.len() - i,
        {
            if self.keys[i].key_id == *key_id {
                return Some(i);
            }
            i = i + 1;
        }
        assert forall|k: int| 0 <= k < self@.keys.len() implies #[trigger] self@.keys[k].key_id
            != key_id@ by {
            assert(self@.keys[k] == self.keys@[k]@);
        }
        None
    }

    /// Whether a key is registered under `key_id`.
    pub fn key_exists(&self, key_id: &String) -> (r: bool)
        ensures
            r == has_key(self@.keys, key_id@),
    {
        self.find_key(key_id).is_some()
    }

    /// Fails with `KeyNotFound` unless a key is registered under `key_id`.
    pub fn check_key_existence(&self, key_id: &String) -> (r: Result<(), ServiceError>)
        ensures
            r is Ok <==> has_key(self@.keys, key_id@),
            r is Err ==> r == Err::<(), ServiceError>(ServiceError::KeyNotFound),
    {
        if self.key_exists(key_id) {
            Ok(())
        } else {
            Err(ServiceError::KeyNotFound)
        }
    }

    /// Stores `key` unless a key with its key id is already registered; says whether it did.
    pub fn insert_key(&mut self, key: Key) -> (r: bool)
        requires
            old(self).wf(),
        ensures
            final(self).wf(),
            r == !has_key(old(self)@.keys, key@.key_id),
            final(self)@.keys == if r {
                old(self)@.keys.push(key@)
            } else {
                old(self)@.keys
            },
            final(self)@.records == old(self)@.records,
    {
        if self.find_key(&key.key_id).is_some() {
            return false;
        }
        let ghost k = key@;
        self.keys.push(key);
        assert(self@.keys =~= old(self)@.keys.push(k));
        assert(key_ids_unique(self@.keys)) by {
            assert forall|i: int, j: int|
                0 <= i < self@.keys.len() && 0 <= j < self@.keys.len() && i != j implies #[trigger] self@.keys[i].key_id
                != #[trigger] self@.keys[j].key_id by {
                if i < old(self)@.keys.len() && j < old(self)@.keys.len() {
                    assert(self@.keys[i] == old(self)@.keys[i]);
                    assert(self@.keys[j] == old(self)@.keys[j]);
                } else if i < old(self)@.keys.len() {
                    assert(self@.keys[i] == old(self)@.keys[i]);
                } else if j < old(self)@.keys.len() {
                    assert(self@.keys[j] == old(self)@.keys[j]);
                }
            }
        }
        true
    }

    /// Sets the publication time of the key registered under `key_id` to `t`; fails with
    /// `KeyNotFound` if there is none.
    pub fn update_key_timestamp(&mut self, key_id: &String, t: u64) -> (r: Result<(), ServiceError>)
        requires
            old(self).wf(),
        ensures
            final(self).wf(),
            r is Ok <==> has_key(old(self)@.keys, key_id@),
            r is Err ==> r == Err::<(), ServiceError>(ServiceError::KeyNotFound),
            final(self)@.keys == keys_touched(old(self)@.keys, key_id@, t),
            final(self)@.records == old(self)@.records,
    {
        match self.find_key(key_id) {
            None => {
                assert(keys_touched(self@.keys, key_id@, t) =~= self@.keys);
                Err(ServiceError::KeyNotFound)
            },
            Some(i) => {
                let ghost before = self@.keys;
                self.keys[i].timestamp_published = t;
                assert(self@.keys =~= keys_touched(before, key_id@, t)) by {
                    assert forall|j: int| 0 <= j < before.len() && j != i implies before[j].key_id
                        != key_id@ by {
                        assert(before[j].key_id != before[i as int].key_id);
                    }
                }
                Ok(())
            },
        }
    }

    /// The records stored under `key_id`.
    pub fn get_records(&self, key_id: &String) -> (r: Vec<Record>)
        ensures
            records_view(r@) == records_for(self@.records, key_id@),
    {
        let mut r: Vec<Record> = Vec::new();
        let mut i: usize = 0;
        while i < self.records.len()
            invariant
                i <= self.records@.len(),
                records_view(r@) == records_for(self@.records.subrange(0, i as int), key_id@),
            decreases self.records@.len() - i,
        {
            let ghost prefix = self@.records.subrange(0, i + 1);
            assert(prefix.drop_last() =~= self@.records.subrange(0, i as int));
            assert(prefix.last() == self.records@[i as int]@);
            if self.records[i].key_id == *key_id {
                let rec = self.records[i].duplicate();
                r.push(rec);
                assert(records_view(r@) =~= records_for(prefix, key_id@));
            }
            i = i + 1;
        }
        assert(self@.records.subrange(0, self.records@.len() as int) =~= self@.records);
        r
    }

    fn find_slot(&self, key_id: &String, peer_id: &String) -> (r: Option<usize>)
        requires
            self.wf(),
        ensures
            match r {
                Some(j) => j < self@.records.len() && has_slot(self@.records, key_id@, peer_id@)
                    && slot_index(self@.records, key_id@, peer_id@) == j,
                None => !has_slot(self@.records, key_id@, peer_id@),
            },
    {
        let mut j: usize = 0;
        while j < self.records.len()
            invariant
                self.wf(),
                j <= self.records@.len(),
                forall|k: int| 0 <= k < j ==> !in_slot(#[trigger] self@.records[k], key_id@, peer_id@),
            decreases self.records@.len() - j,
        {
            if self.records[j].key_id == *key_id && self.records[j].peer_id == *peer_id {
                proof {
                    lemma_slot_index(self@.records, j as int);
                }
                return Some(j);
            }
            j = j + 1;
        }
        None
    }

    /// Folds `record` into its slot (a one-to-one merge) and returns the record that
    /// fills the slot afterwards.
    pub fn update_record(&mut self, record: Record) -> (r: Record)
        requires
            old(self).wf(),
        ensures
            final(self).wf(),
            final(self)@.records == upsert(old(self)@.records, record@),
            final(self)@.keys == old(self)@.keys,
            r@ == final(self)@.records[slot_index(final(self)@.records, record@.key_id, record@.peer_id)],
            has_slot(final(self)@.records, record@.key_id, record@.peer_id),
    {
        self.upsert_one(record).0
    }

    fn upsert_one(&mut self, record: Record) -> (r: (Record, bool))
        requires
            old(self).wf(),
        ensures
            final(self).wf(),
            final(self)@.records == upsert(old(self)@.records, record@),
            final(self)@.keys == old(self)@.keys,
            r.1 == upsert_changes(old(self)@.records, record@),
            r.0@ == final(self)@.records[slot_index(final(self)@.records, record@.key_id, record@.peer_id)],
            has_slot(final(self)@.records, record@.key_id, record@.peer_id),
    {
        let ghost rv = record@;
        let ghost before = self@.records;
        match self.find_slot(&record.key_id, &record.peer_id) {
            Some(j) => {
                if beats(&record, &self.records[j]) {
                    let stored = record.duplicate();
                    self.records[j] = record;
                    proof {
                        assert(self@.records =~= before.update(j as int, rv));
                        assert(slots_unique(self@.records)) by {
                            assert forall|a: int, b: int|
                                0 <= a < self@.records.len() && 0 <= b < self@.records.len() && a != b
                                    && #[trigger] self@.records[a].key_id == #[trigger] self@.records[b].key_id
                                    implies self@.records[a].peer_id != self@.records[b].peer_id by {
                                assert(before[a].key_id == self@.records[a].key_id);
                                assert(before[b].key_id == self@.records[b].key_id);
                                assert(before[a].peer_id == self@.records[a].peer_id);
                                assert(before[b].peer_id == self@.records[b].peer_id);
                            }
                        }
                        lemma_slot_index(self@.records, j as int);
                    }
                    (stored, true)
                } else {
                    let stored = self.records[j].duplicate();
                    proof {
                        lemma_slot_index(self@.records, j as int);
                    }
                    (stored, false)
                }
            },
            None => {
                let stored = record.duplicate();
                self.records.push(record);
                proof {
                    assert(self@.records =~= before.push(rv));
                    let n = before.len() as int;
                    assert(self@.records[n] == rv);
                    assert(slots_unique(self@.records)) by {
                        assert forall|a: int, b: int|
                            0 <= a < self@.records.len() && 0 <= b < self@.records.len() && a != b
                                && #[trigger] self@.records[a].key_id == #[trigger] self@.records[b].key_id
                                implies self@.records[a].peer_id != self@.records[b].peer_id by {
                            if a < n && b < n {
                                assert(before[a] == self@.records[a]);
                                assert(before[b] == self@.records[b]);
                            } else if a < n {
                                assert(before[a] == self@.records[a]);
                                assert(!in_slot(before[a], rv.key_id, rv.peer_id));
                            } else if b < n {
                                assert(before[b] == self@.records[b]);
                                assert(!in_slot(before[b], rv.key_id, rv.peer_id));
                            }
                        }
                    }
                    lemma_slot_index(self@.records, n);
                }
                (stored, true)
            },
        }
    }

    /// Merges `records` (all under `key_id`) into the store: the batch is reduced to one
    /// winner for each peer, each winner is folded into its slot, and the number of
    /// slots that changed is returned.
    pub fn merge_and_update_records(&mut self, key_id: String, records: Vec<Record>) -> (r: usize)
        requires
            old(self).wf(),
        ensures
            final(self).wf(),
            final(self)@.keys == old(self)@.keys,
            exists|m: Seq<RecordView>|
                is_merge_of(m, records_view(records@)) && final(self)@.records == upsert_all(
                    old(self)@.records,
                    m,
                ) && r == upsert_count(old(self)@.records, m),
    {
        let ghost input = records_view(records@);
        let merged = merge_records(records);
        let ghost m = records_view(merged@);
        let ghost start = self@.records;
        let mut count: usize = 0;
        let mut i: usize = 0;
        let n = merged.len();
        while i < n
            invariant
                n == m.len(),
                m == records_view(merged@),
                self.wf(),
                self@.keys == old(self)@.keys,
                i <= m.len(),
                self@.records == upsert_all(start, m.subrange(0, i as int)),
                count == upsert_count(start, m.subrange(0, i as int)),
                count <= i,
            decreases m.len() - i,
        {
            let ghost prefix = m.subrange(0, i + 1);
            assert(prefix.drop_last() =~= m.subrange(0, i as int));
            let rec = merged[i].duplicate();
            assert(rec@ == m[i as int]);
            assert(prefix.last() == m[i as int]);
            let (_, changed) = self.upsert_one(rec);
            if changed {
                count = count + 1;
            }
            i = i + 1;
        }
        assert(m.subrange(0, m.len() as int) =~= m);
        count
    }

    /// Removes the record in the slot of `key_id` and `peer_id` if its author is
    /// `set_by`; says whether it did.
    pub fn delete_record(&mut self, key_id: &String, peer_id: &String, set_by: &String) -> (r: bool)
        requires
            old(self).wf(),
        ensures
            final(self).wf(),
            final(self)@.keys == old(self)@.keys,
            r == (has_slot(old(self)@.records, key_id@, peer_id@) && old(self)@.records[slot_index(
                old(self)@.records,
                key_id@,
                peer_id@,
            )].set_by == set_by@),
            final(self)@.records == if r {
                old(self)@.records.remove(slot_index(old(self)@.records, key_id@, peer_id@))
            } else {
                old(self)@.records
            },
    {
        match self.find_slot(key_id, peer_id) {
            None => false,
            Some(j) => {
                if self.records[j].set_by == *set_by {
                    let ghost before = self@.records;
                    let _ = self.records.remove(j);
                    assert(self@.records =~= before.remove(j as int));
                    assert(slots_unique(self@.records)) by {
                        assert forall|a: int, b: int|
                            0 <= a < self@.records.len() && 0 <= b < self@.records.len() && a != b
                                && #[trigger] self@.records[a].key_id == #[trigger] self@.records[b].key_id
                                implies self@.records[a].peer_id != self@.records[b].peer_id by {
                            let a2 = if a < j { a } else { a + 1 };
                            let b2 = if b < j { b } else { b + 1 };
                            assert(self@.records[a] == before[a2]);
                            assert(self@.records[b] == before[b2]);
                        }
                    }
                    true
                } else {
                    false
                }
            },
        }
    }
}

} // verus!
