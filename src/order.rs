use vstd::prelude::*;

verus! {

/// Whether `a` comes after `b` in lexicographic byte order, comparing from position `i`.
pub open spec fn bytes_gt_from(a: Seq<u8>, b: Seq<u8>, i: int) -> bool
    decreases a.len() - i,
{
    if i >= b.len() {
        i < a.len()
    } else if i >= a.len() {
        false
    } else if a[i] != b[i] {
        a[i] > b[i]
    } else {
        bytes_gt_from(a, b, i + 1)
    }
}

/// Whether `a` comes after `b` in lexicographic byte order (a proper prefix comes first).
pub open spec fn bytes_gt(a: Seq<u8>, b: Seq<u8>) -> bool {
    bytes_gt_from(a, b, 0)
}

/// No byte string comes after itself.
pub proof fn lemma_bytes_gt_irreflexive(a: Seq<u8>, i: int)
    requires
        0 <= i,
    ensures
        !bytes_gt_from(a, a, i),
    decreases a.len() - i,
{
    if i < a.len() {
        lemma_bytes_gt_irreflexive(a, i + 1);
    }
}

/// The byte order is transitive.
pub proof fn lemma_bytes_gt_transitive(a: Seq<u8>, b: Seq<u8>, c: Seq<u8>, i: int)
    requires
        0 <= i,
        bytes_gt_from(a, b, i),
        bytes_gt_from(b, c, i),
    ensures
        bytes_gt_from(a, c, i),
    decreases a.len() - i,
{
    if i < a.len() && i < b.len() && i < c.len() && a[i] == b[i] && b[i] == c[i] {
        lemma_bytes_gt_transitive(a, b, c, i + 1);
    }
}

/// Of two different byte strings, one comes after the other.
pub proof fn lemma_bytes_gt_total(a: Seq<u8>, b: Seq<u8>, i: int)
    requires
        0 <= i <= a.len(),
        i <= b.len(),
        a.subrange(0, i) == b.subrange(0, i),
        !bytes_gt_from(a, b, i),
        !bytes_gt_from(b, a, i),
    ensures
        a == b,
    decreases a.len() - i,
{
    if i >= b.len() || i >= a.len() {
        assert(a.len() == i && b.len() == i);
        assert(a =~= a.subrange(0, i));
        assert(b =~= b.subrange(0, i));
    } else {
        assert(a[i] == b[i]);
        assert(a.subrange(0, i + 1) =~= a.subrange(0, i).push(a[i]));
        assert(b.subrange(0, i + 1) =~= b.subrange(0, i).push(b[i]));
        lemma_bytes_gt_total(a, b, i + 1);
    }
}

/// Whether `a` comes after `b` in lexicographic byte order.
pub fn bytes_greater(a: &Vec<u8>, b: &Vec<u8>) -> (r: bool)
    ensures
        r == bytes_gt(a@, b@),
{
    let mut i: usize = 0;
    while i < a.len() && i < b.len() && a[i] == b[i]
        invariant
            i <= a@.len(),
            i <= b@.len(),
            bytes_gt(a@, b@) == bytes_gt_from(a@, b@, i as int),
        decreases a@.len() - i,
    {
        i = i + 1;
    }
    if i >= b.len() {
        i < a.len()
    } else if i >= a.len() {
        false
    } else {
        a[i] > b[i]
    }
}

} // verus!
