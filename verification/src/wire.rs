//! Verified helpers for moving bytes between queues, vectors and slices.

use std::collections::VecDeque;
use vstd::prelude::*;

verus! {

/// Remove the first `n` bytes of `buf` and return them in order.
pub fn pop_bytes(buf: &mut VecDeque<u8>, n: usize) -> (r: Vec<u8>)
    requires
        n <= old(buf)@.len(),
    ensures
        r@ == old(buf)@.take(n as int),
        final(buf)@ == old(buf)@.skip(n as int),
{
    let mut r: Vec<u8> = Vec::new();
    let mut i: usize = 0;
    while i < n
        invariant
            i <= n,
            n <= old(buf)@.len(),
            r@ == old(buf)@.take(i as int),
            buf@ == old(buf)@.skip(i as int),
        decreases n - i,
    {
        proof {
            assert(old(buf)@.skip(i as int).len() > 0);
            assert(old(buf)@.skip(i as int)[0] == old(buf)@[i as int]);
        }
        let b = buf.pop_front().unwrap();
        r.push(b);
        i = i + 1;
        proof {
            assert(r@ =~= old(buf)@.take(i as int));
            assert(buf@ =~= old(buf)@.skip(i as int));
        }
    }
    r
}

/// Append all of `data` to the back of `buf`.
pub fn push_bytes(buf: &mut VecDeque<u8>, data: &[u8])
    ensures
        final(buf)@ == old(buf)@ + data@,
{
    let mut i: usize = 0;
    while i < data.len()
        invariant
            i <= data@.len(),
            buf@ == old(buf)@ + data@.take(i as int),
        decreases data@.len() - i,
    {
        buf.push_back(data[i]);
        i = i + 1;
        proof {
            assert(buf@ =~= old(buf)@ + data@.take(i as int));
        }
    }
    proof {
        assert(buf@ =~= old(buf)@ + data@);
    }
}

/// Copy a 16-byte slice into an array, for keys and IVs.
pub fn to_array_16(data: &[u8]) -> (r: [u8; 16])
    requires
        data@.len() == 16,
    ensures
        r@ == data@,
{
    let mut arr = [0u8; 16];
    let mut i: usize = 0;
    while i < 16
        invariant
            i <= 16,
            data@.len() == 16,
            forall|j: int| 0 <= j < i ==> arr@[j] == data@[j],
        decreases 16 - i,
    {
        arr[i] = data[i];
        i = i + 1;
    }
    proof {
        assert(arr@ =~= data@);
    }
    arr
}

/// Copy `data[start..start + len]` into a fresh vector.
pub fn sub_bytes(data: &[u8], start: usize, len: usize) -> (r: Vec<u8>)
    requires
        start + len <= data@.len(),
    ensures
        r@ == data@.subrange(start as int, start + len),
{
    let dlen: usize = data.len();
    let mut r: Vec<u8> = Vec::new();
    let mut i: usize = 0;
    while i < len
        invariant
            i <= len,
            start + len <= dlen,
            dlen == data@.len(),
            r@ == data@.subrange(start as int, start + i),
        decreases len - i,
    {
        r.push(data[start + i]);
        i = i + 1;
        proof {
            assert(r@ =~= data@.subrange(start as int, start + i));
        }
    }
    r
}

} // verus!
