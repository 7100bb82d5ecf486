use vstd::prelude::*;
use vstd::bytes::{spec_u64_to_le_bytes, u64_to_le_bytes};
use vstd::utf8::encode_utf8;

verus! {

/// The UTF-8 bytes of a string.
pub open spec fn utf8(s: Seq<char>) -> Seq<u8> {
    encode_utf8(s)
}

/// The UTF-8 bytes of a list of strings, concatenated without delimiters.
pub open spec fn utf8_all(ss: Seq<Seq<char>>) -> Seq<u8>
    decreases ss.len(),
{
    if ss.len() == 0 {
        Seq::empty()
    } else {
        utf8_all(ss.drop_last()) + utf8(ss.last())
    }
}

/// The eight little-endian bytes of an integer.
pub open spec fn le64(x: u64) -> Seq<u8> {
    spec_u64_to_le_bytes(x)
}

/// Appends the bytes of `src` to `out`.
pub fn append_bytes(out: &mut Vec<u8>, src: &[u8])
    ensures
        final(out)@ == old(out)@ + src@,
{
    let ghost start = out@;
    let mut i: usize = 0;
    while i < src.len()
        invariant
            i <= src@.len(),
            out@ == start + src@.subrange(0, i as int),
        decreases src@.len() - i,
    {
        out.push(src[i]);
        i = i + 1;
        assert(out@ =~= start + src@.subrange(0, i as int));
    }
    assert(src@.subrange(0, src@.len() as int) =~= src@);
}

/// Appends the UTF-8 bytes of `s` to `out`.
pub fn append_str(out: &mut Vec<u8>, s: &String)
    ensures
        final(out)@ == old(out)@ + utf8(s@),
{
    append_bytes(out, s.as_str().as_bytes());
}

/// Appends the UTF-8 bytes of every string of `ss`, in order, to `out`.
pub fn append_strs(out: &mut Vec<u8>, ss: &Vec<String>)
    ensures
        final(out)@ == old(out)@ + utf8_all(ss@.map_values(|s: String| s@)),
{
    let ghost start = out@;
    let ghost views = ss@.map_values(|s: String| s@);
    let mut i: usize = 0;
    while i < ss.len()
        invariant
            i <= ss@.len(),
            views == ss@.map_values(|s: String| s@),
            out@ == start + utf8_all(views.subrange(0, i as int)),
        decreases ss@.len() - i,
    {
        append_str(out, &ss[i]);
        proof {
            let next = views.subrange(0, i + 1);
            assert(next.drop_last() =~= views.subrange(0, i as int));
            assert(next.last() == ss@[i as int]@);
        }
        i = i + 1;
        assert(out@ =~= start + utf8_all(views.subrange(0, i as int)));
    }
    assert(views.subrange(0, ss@.len() as int) =~= views);
}

/// Appends the eight little-endian bytes of `x` to `out`.
pub fn append_u64(out: &mut Vec<u8>, x: u64)
    ensures
        final(out)@ == old(out)@ + le64(x),
{
    let b = u64_to_le_bytes(x);
    append_bytes(out, b.as_slice());
}

} // verus!
