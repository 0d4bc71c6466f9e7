//! Small executable helpers over byte ranges of a line buffer.

use vstd::prelude::*;

verus! {

/// Copies `buf[start .. start + len]` into an owned vector.
pub fn copy_range(buf: &Vec<u8>, start: usize, len: usize) -> (r: Vec<u8>)
    requires
        start + len <= buf@.len(),
    ensures
        r@ == buf@.subrange(start as int, start as int + len as int),
{
    let bn = buf.len();
    let mut r: Vec<u8> = Vec::new();
    let mut k: usize = 0;
    while k < len
        invariant
            start + len <= bn,
            bn == buf@.len(),
            k <= len,
            r@.len() == k as int,
            forall|j: int| 0 <= j < k ==> r@[j] == buf@[start + j],
        decreases len - k,
    {
        r.push(buf[start + k]);
        k += 1;
    }
    proof {
        assert(r@ =~= buf@.subrange(start as int, start as int + len as int));
    }
    r
}

/// Whether two owned byte strings hold the same bytes.
pub fn vec_eq(a: &Vec<u8>, b: &Vec<u8>) -> (r: bool)
    ensures
        r == (a@ == b@),
{
    if a.len() != b.len() {
        return false;
    }
    let n = a.len();
    let mut k: usize = 0;
    while k < n
        invariant
            n == a@.len(),
            n == b@.len(),
            k <= n,
            forall|j: int| 0 <= j < k ==> a@[j] == b@[j],
        decreases n - k,
    {
        if a[k] != b[k] {
            return false;
        }
        k += 1;
    }
    proof {
        assert(a@ =~= b@);
    }
    true
}

} // verus!
