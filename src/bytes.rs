use vstd::prelude::*;

verus! {

/// Appends `src[start..end]` to `out`.
pub fn append_range(out: &mut Vec<u8>, src: &[u8], start: usize, end: usize)
    requires
        start <= end <= src@.len(),
    ensures
        final(out)@ == old(out)@ + src@.subrange(start as int, end as int),
{
    let mut i: usize = start;
    while i < end
        invariant
            start <= i <= end <= src@.len(),
            out@ == old(out)@ + src@.subrange(start as int, i as int),
        decreases end - i,
    {
        out.push(src[i]);
        i = i + 1;
        assert(out@ == old(out)@ + src@.subrange(start as int, i as int));
    }
}

/// Whether `key` equals `src[start..]`.
pub fn equals_tail(key: &[u8], src: &[u8], start: usize) -> (r: bool)
    requires
        start <= src@.len(),
    ensures
        r == (key@ == src@.subrange(start as int, src@.len() as int)),
{
    if key.len() != src.len() - start {
        return false;
    }
    let klen = key.len();
    let slen = src.len();
    let mut i: usize = 0;
    while i < klen
        invariant
            klen == key@.len(),
            slen == src@.len(),
            start + klen == slen,
            i <= key@.len(),
            forall|k: int| 0 <= k < i ==> key@[k] == src@[start + k],
        decreases key@.len() - i,
    {
        if key[i] != src[start + i] {
            return false;
        }
        i = i + 1;
    }
    assert(key@ =~= src@.subrange(start as int, src@.len() as int));
    true
}

} // verus!
