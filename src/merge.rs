use vstd::prelude::*;
use vstd::seq_lib::group_to_multiset_ensures;
use crate::error::ServiceError;
use crate::order::{
    bytes_greater, bytes_gt, lemma_bytes_gt_irreflexive, lemma_bytes_gt_total,
    lemma_bytes_gt_transitive,
};
use crate::record::{records_view, Record, RecordView};

verus! {

/// Whether `a` beats `b` for one peer's slot: a later creation time wins, then a
/// greater weight, then the lexicographically greater signature.
pub open spec fn outranks(a: RecordView, b: RecordView) -> bool {
    ||| a.timestamp_created > b.timestamp_created
    ||| (a.timestamp_created == b.timestamp_created && a.weight > b.weight)
    ||| (a.timestamp_created == b.timestamp_created && a.weight == b.weight && bytes_gt(
        a.signature,
        b.signature,
    ))
}

/// Whether `a` and `b` tie on every criterion of [`outranks`].
pub open spec fn same_rank(a: RecordView, b: RecordView) -> bool {
    a.timestamp_created == b.timestamp_created && a.weight == b.weight && a.signature
        == b.signature
}

/// No two records of `m` belong to the same peer.
pub open spec fn distinct_peers(m: Seq<RecordView>) -> bool {
    forall|i: int, j: int|
        0 <= i < m.len() && 0 <= j < m.len() && i != j ==> #[trigger] m[i].peer_id
            != #[trigger] m[j].peer_id
}

/// Two records of one peer in `s` that tie on rank are the same record.
pub open spec fn rank_distinct(s: Seq<RecordView>) -> bool {
    forall|i: int, j: int|
        0 <= i < s.len() && 0 <= j < s.len() && #[trigger] s[i].peer_id == #[trigger] s[j].peer_id
            && same_rank(s[i], s[j]) ==> s[i] == s[j]
}

/// `w` is in `s` and no record of `s` for the same peer beats it.
pub open spec fn wins_in(w: RecordView, s: Seq<RecordView>) -> bool {
    &&& s.contains(w)
    &&& forall|i: int|
        0 <= i < s.len() && #[trigger] s[i].peer_id == w.peer_id ==> !outranks(s[i], w)
}

/// Some record of `m` belongs to the peer `peer_id`.
pub open spec fn has_peer(m: Seq<RecordView>, peer_id: Seq<char>) -> bool {
    exists|k: int| 0 <= k < m.len() && #[trigger] m[k].peer_id == peer_id
}

/// `m` is a last-write-wins merge of `s`: one winner for each peer that has a record in `s`.
pub open spec fn is_merge_of(m: Seq<RecordView>, s: Seq<RecordView>) -> bool {
    &&& distinct_peers(m)
    &&& forall|k: int| 0 <= k < m.len() ==> wins_in(#[trigger] m[k], s)
    &&& forall|i: int| 0 <= i < s.len() ==> #[trigger] has_peer(m, s[i].peer_id)
}

/// No record beats itself.
pub proof fn lemma_outranks_irreflexive(a: RecordView)
    ensures
        !outranks(a, a),
{
    lemma_bytes_gt_irreflexive(a.signature, 0);
}

/// Beating is transitive.
pub proof fn lemma_outranks_transitive(a: RecordView, b: RecordView, c: RecordView)
    requires
        outranks(a, b),
        outranks(b, c),
    ensures
        outranks(a, c),
{
    if a.timestamp_created == c.timestamp_created && a.weight == c.weight {
        lemma_bytes_gt_transitive(a.signature, b.signature, c.signature, 0);
    }
}

/// Of two records, one beats the other unless they tie on rank.
pub proof fn lemma_outranks_total(a: RecordView, b: RecordView)
    requires
        !outranks(a, b),
        !outranks(b, a),
    ensures
        same_rank(a, b),
{
    assert(a.signature.subrange(0, 0) =~= b.signature.subrange(0, 0));
    lemma_bytes_gt_total(a.signature, b.signature, 0);
}

/// The index in `m` of the record owned by `peer_id`, if there is one.
pub fn find_peer(m: &Vec<Record>, peer_id: &String) -> (r: Option<usize>)
    ensures
        match r {
            Some(j) => j < m@.len() && m@[j as int]@.peer_id == peer_id@,
            None => forall|k: int| 0 <= k < m@.len() ==> #[trigger] m@[k]@.peer_id != peer_id@,
        },
{
    let mut j: usize = 0;
    while j < m.len()
        invariant
            j <= m@.len(),
            forall|k: int| 0 <= k < j ==> #[trigger] m@[k]@.peer_id != peer_id@,
        decreases m@.len() - j,
    {
        if m[j].peer_id == *peer_id {
            return Some(j);
        }
        j = j + 1;
    }
    None
}

/// Whether `a` beats `b` for one peer's slot.
pub fn beats(a: &Record, b: &Record) -> (r: bool)
    ensures
        r == outranks(a@, b@),
{
    if a.timestamp_created != b.timestamp_created {
        a.timestamp_created > b.timestamp_created
    } else if a.weight != b.weight {
        a.weight > b.weight
    } else {
        bytes_greater(&a.signature, &b.signature)
    }
}

/// Merges records into one winner for each owning peer (last write wins).
pub fn merge_records(records: Vec<Record>) -> (r: Vec<Record>)
    ensures
        is_merge_of(records_view(r@), records_view(records@)),
{
    let ghost input = records_view(records@);
    let mut result: Vec<Record> = Vec::new();
    let mut i: usize = 0;
    while i < records.len()
        invariant
            i <= records@.len(),
            input == records_view(records@),
            is_merge_of(records_view(result@), input.subrange(0, i as int)),
        decreases records@.len() - i,
    {
        let ghost s = input.subrange(0, i as int);
        let ghost s2 = input.subrange(0, i + 1);
        let ghost m = records_view(result@);
        let ghost rv = records@[i as int]@;
        assert(s2 =~= s.push(rv));
        assert(s2[i as int] == rv);
        let rec = records[i].duplicate();
        match find_peer(&result, &rec.peer_id) {
            Some(j) => {
                if beats(&rec, &result[j]) {
                    result[j] = rec;
                    proof {
                        let m2 = records_view(result@);
                        assert(m2 =~= m.update(j as int, rv));
                        assert forall|q: int|
                            0 <= q < s2.len() && #[trigger] s2[q].peer_id == rv.peer_id implies !outranks(
                            s2[q],
                            rv,
                        ) by {
                            if q < i {
                                assert(s[q] == s2[q]);
                                assert(wins_in(m[j as int], s));
                                if outranks(s2[q], rv) {
                                    lemma_outranks_transitive(s2[q], rv, m[j as int]);
                                }
                            } else {
                                lemma_outranks_irreflexive(rv);
                            }
                        }
                        assert(s2.contains(rv)) by {
                            assert(s2[i as int] == rv);
                        }
                        assert forall|k: int| 0 <= k < m2.len() implies wins_in(#[trigger] m2[k], s2) by {
                            if k != j {
                                assert(m2[k] == m[k]);
                                assert(wins_in(m[k], s));
                                let x = choose|x: int| 0 <= x < s.len() && s[x] == m[k];
                                assert(s2[x] == m[k]);
                                assert(m[k].peer_id != m[j as int].peer_id);
                            }
                        }
                        assert forall|x: int| 0 <= x < s2.len() implies has_peer(m2, s2[x].peer_id) by {
                            if x < i {
                                assert(s2[x] == s[x]);
                                assert(has_peer(m, s[x].peer_id));
                                let k = choose|k: int| 0 <= k < m.len() && #[trigger] m[k].peer_id == s[x].peer_id;
                                assert(m2[k].peer_id == m[k].peer_id);
                            } else {
                                assert(m2[j as int].peer_id == s2[x].peer_id);
                            }
                        }
                        assert(distinct_peers(m2)) by {
                            assert forall|a: int, b: int|
                                0 <= a < m2.len() && 0 <= b < m2.len() && a != b implies #[trigger] m2[a].peer_id
                                != #[trigger] m2[b].peer_id by {
                                assert(m[a].peer_id == m2[a].peer_id);
                                assert(m[b].peer_id == m2[b].peer_id);
                            }
                        }
                        assert(is_merge_of(m2, s2));
                    }
                } else {
                    proof {
                        assert forall|k: int| 0 <= k < m.len() implies wins_in(#[trigger] m[k], s2) by {
                            assert(wins_in(m[k], s));
                            let x = choose|x: int| 0 <= x < s.len() && s[x] == m[k];
                            assert(s2[x] == m[k]);
                            assert forall|q: int|
                                0 <= q < s2.len() && #[trigger] s2[q].peer_id == m[k].peer_id implies !outranks(
                                s2[q],
                                m[k],
                            ) by {
                                if q < i {
                                    assert(s2[q] == s[q]);
                                } else if k != j {
                                    assert(m[k].peer_id != m[j as int].peer_id);
                                }
                            }
                        }
                        assert forall|x: int| 0 <= x < s2.len() implies has_peer(m, s2[x].peer_id) by {
                            if x < i {
                                assert(s2[x] == s[x]);
                                assert(has_peer(m, s[x].peer_id));
                                let k = choose|k: int| 0 <= k < m.len() && #[trigger] m[k].peer_id == s[x].peer_id;
                            } else {
                                assert(m[j as int].peer_id == s2[x].peer_id);
                            }
                        }
                        assert(is_merge_of(m, s2));
                    }
                }
            },
            None => {
                result.push(rec);
                proof {
                    let m2 = records_view(result@);
                    assert(m2 =~= m.push(rv));
                    assert forall|q: int|
                        0 <= q < s2.len() && #[trigger] s2[q].peer_id == rv.peer_id implies !outranks(
                        s2[q],
                        rv,
                    ) by {
                        if q < i {
                            assert(s[q] == s2[q]);
                            assert(has_peer(m, s[q].peer_id));
                            let k = choose|k: int| 0 <= k < m.len() && #[trigger] m[k].peer_id == s[q].peer_id;
                            assert(result@[k]@.peer_id == m[k].peer_id);
                        } else {
                            lemma_outranks_irreflexive(rv);
                        }
                    }
                    assert forall|k: int| 0 <= k < m2.len() implies wins_in(#[trigger] m2[k], s2) by {
                        if k < m.len() {
                            assert(m2[k] == m[k]);
                            assert(wins_in(m[k], s));
                            let x = choose|x: int| 0 <= x < s.len() && s[x] == m[k];
                            assert(s2[x] == m[k]);
                        } else {
                            assert(m2[k] == rv);
                            assert(s2[i as int] == rv);
                        }
                    }
                    assert forall|x: int| 0 <= x < s2.len() implies has_peer(m2, s2[x].peer_id) by {
                        if x < i {
                            assert(s2[x] == s[x]);
                            assert(has_peer(m, s[x].peer_id));
                                let k = choose|k: int| 0 <= k < m.len() && #[trigger] m[k].peer_id == s[x].peer_id;
                            assert(m2[k].peer_id == m[k].peer_id);
                        } else {
                            assert(m2[m.len() as int].peer_id == s2[x].peer_id);
                        }
                    }
                    assert forall|a: int, b: int|
                        0 <= a < m2.len() && 0 <= b < m2.len() && a != b implies #[trigger] m2[a].peer_id
                        != #[trigger] m2[b].peer_id by {
                        if a < m.len() && b < m.len() {
                            assert(m2[a] == m[a] && m2[b] == m[b]);
                        } else if a < m.len() {
                            assert(m2[b] == rv);
                            assert(m2[a] == m[a]);
                            assert(result@[a]@.peer_id == m[a].peer_id);
                        } else if b < m.len() {
                            assert(m2[a] == rv);
                            assert(m2[b] == m[b]);
                            assert(result@[b]@.peer_id == m[b].peer_id);
                        }
                    }
                    assert(distinct_peers(m2));
                    assert(forall|k: int| 0 <= k < m2.len() ==> wins_in(#[trigger] m2[k], s2));
                    assert(is_merge_of(m2, s2));
                }
            },
        }
        i = i + 1;
    }
    assert(input.subrange(0, records@.len() as int) =~= input);
    result
}

/// Merges the records of `a` and `b` as one batch; merging never fails.
pub fn merge_two(a: Vec<Record>, b: Vec<Record>) -> (r: Result<Vec<Record>, ServiceError>)
    ensures
        r matches Ok(m) && is_merge_of(records_view(m@), records_view(a@) + records_view(b@)),
{
    let mut all = a;
    let mut rest = b;
    all.append(&mut rest);
    assert(records_view(all@) =~= records_view(a@) + records_view(b@));
    Ok(merge_records(all))
}

/// Determinism: two orderings of the same multiset of records merge to the same set of
/// winners, given that records of one peer that tie on creation time, weight and
/// signature are identical.
pub proof fn lemma_merge_deterministic(
    a: Seq<RecordView>,
    b: Seq<RecordView>,
    ma: Seq<RecordView>,
    mb: Seq<RecordView>,
)
    requires
        a.to_multiset() == b.to_multiset(),
        rank_distinct(a),
        is_merge_of(ma, a),
        is_merge_of(mb, b),
    ensures
        ma.to_set() == mb.to_set(),
{
    broadcast use group_to_multiset_ensures;

    assert forall|x: RecordView| a.contains(x) <==> b.contains(x) by {
        assert(a.contains(x) <==> a.to_multiset().count(x) > 0);
        assert(b.contains(x) <==> b.to_multiset().count(x) > 0);
    }
    assert forall|x: RecordView| ma.contains(x) implies mb.contains(x) by {
        lemma_winner_shared(a, b, ma, mb, x);
    }
    assert forall|x: RecordView| mb.contains(x) implies ma.contains(x) by {
        assert forall|i: int, j: int|
            0 <= i < b.len() && 0 <= j < b.len() && #[trigger] b[i].peer_id == #[trigger] b[j].peer_id
                && same_rank(b[i], b[j]) implies b[i] == b[j] by {
            assert(a.contains(b[i]) && a.contains(b[j]));
            let p = choose|p: int| 0 <= p < a.len() && a[p] == b[i];
            let q = choose|q: int| 0 <= q < a.len() && a[q] == b[j];
            assert(a[p].peer_id == a[q].peer_id);
        }
        lemma_winner_shared(b, a, mb, ma, x);
    }
    assert(ma.to_set() =~= mb.to_set());
}

/// A winner of a merge of `a` is also the winner of a merge of `b` when both hold the
/// same records.
proof fn lemma_winner_shared(
    a: Seq<RecordView>,
    b: Seq<RecordView>,
    ma: Seq<RecordView>,
    mb: Seq<RecordView>,
    x: RecordView,
)
    requires
        forall|y: RecordView| a.contains(y) <==> b.contains(y),
        rank_distinct(a),
        is_merge_of(ma, a),
        is_merge_of(mb, b),
        ma.contains(x),
    ensures
        mb.contains(x),
{
    let i = choose|i: int| 0 <= i < ma.len() && ma[i] == x;
    assert(wins_in(ma[i], a));
    assert(b.contains(x));
    let bi = choose|bi: int| 0 <= bi < b.len() && b[bi] == x;
    assert(has_peer(mb, b[bi].peer_id));
    let k = choose|k: int| 0 <= k < mb.len() && #[trigger] mb[k].peer_id == b[bi].peer_id;
    let y = mb[k];
    assert(wins_in(mb[k], b));
    assert(a.contains(y));
    let p = choose|p: int| 0 <= p < a.len() && a[p] == y;
    let q = choose|q: int| 0 <= q < a.len() && a[q] == x;
    assert(b[bi] == x);
    assert(!outranks(a[p], x));
    assert(!outranks(b[bi], y));
    lemma_outranks_total(x, y);
    assert(a[p].peer_id == a[q].peer_id);
    assert(x == y);
}

/// Idempotence: merging a record set that holds one record per peer with itself
/// yields that same set.
pub proof fn lemma_merge_idempotent(s: Seq<RecordView>, m: Seq<RecordView>)
    requires
        distinct_peers(s),
        is_merge_of(m, s + s),
    ensures
        m.to_set() == s.to_set(),
{
    let ss = s + s;
    assert forall|x: RecordView| m.contains(x) implies s.contains(x) by {
        let k = choose|k: int| 0 <= k < m.len() && m[k] == x;
        assert(wins_in(m[k], ss));
        let i = choose|i: int| 0 <= i < ss.len() && ss[i] == x;
        if i < s.len() {
            assert(s[i] == x);
        } else {
            assert(s[i - s.len()] == x);
        }
    }
    assert forall|x: RecordView| s.contains(x) implies m.contains(x) by {
        let i = choose|i: int| 0 <= i < s.len() && s[i] == x;
        assert(ss[i] == x);
        assert(has_peer(m, ss[i].peer_id));
        let k = choose|k: int| 0 <= k < m.len() && #[trigger] m[k].peer_id == ss[i].peer_id;
        assert(wins_in(m[k], ss));
        let j = choose|j: int| 0 <= j < ss.len() && ss[j] == m[k];
        let j2 = if j < s.len() { j } else { j - s.len() };
        assert(s[j2] == m[k]);
        assert(s[j2].peer_id == s[i].peer_id);
        assert(j2 == i);
    }
    assert(m.to_set() =~= s.to_set());
}

} // verus!
