//! Copying and comparing runs of bytes.

use vstd::prelude::*;

verus! {

/// Whether `a` and `b` hold the same bytes.
pub(crate) fn same_bytes(a: &[u8], b: &[u8]) -> (same: bool)
    ensures
        same == (a@ == b@),
{
    if a.len() != b.len() {
        return false;
    }
    let mut k: usize = 0;
    while k < a.len()
        invariant
            k <= a@.len(),
            a@.len() == b@.len(),
            a@.subrange(0, k as int) == b@.subrange(0, k as int),
        decreases a@.len() - k,
    {
        if a[k] != b[k] {
            return false;
        }
        assert(a@.subrange(0, k + 1) =~= a@.subrange(0, k as int).push(a@[k as int]));
        assert(b@.subrange(0, k + 1) =~= b@.subrange(0, k as int).push(b@[k as int]));
        k += 1;
    }
    assert(a@ =~= a@.subrange(0, k as int));
    assert(b@ =~= b@.subrange(0, k as int));
    true
}

/// Writes `src` over the bytes of `dst` that start at offset `at`.
pub(crate) fn copy_to(dst: &mut [u8], at: usize, src: &[u8])
    requires
        at + src@.len() <= old(dst)@.len(),
    ensures
        final(dst)@ == old(dst)@.subrange(0, at as int) + src@ + old(dst)@.subrange(
            at + src@.len(),
            old(dst)@.len() as int,
        ),
{
    let n = src.len();
    let total = dst.len();
    let mut k: usize = 0;
    while k < n
        invariant
            k <= n,
            n == src@.len(),
            total == dst@.len(),
            total == old(dst)@.len(),
            at + n <= total,
            dst@ == old(dst)@.subrange(0, at as int) + src@.subrange(0, k as int) + old(
                dst,
            )@.subrange(at + k, total as int),
        decreases n - k,
    {
        dst[at + k] = src[k];
        k += 1;
    }
    assert(src@.subrange(0, n as int) =~= src@);
}

/// Fills `dst` with the bytes of `src` that start at offset `at`.
pub(crate) fn copy_from(dst: &mut [u8], src: &[u8], at: usize)
    requires
        at + old(dst)@.len() <= src@.len(),
    ensures
        final(dst)@ == src@.subrange(at as int, at + old(dst)@.len()),
{
    let n = dst.len();
    let total = src.len();
    let mut k: usize = 0;
    while k < n
        invariant
            k <= n,
            n == dst@.len(),
            total == src@.len(),
            at + n <= total,
            dst@.subrange(0, k as int) == src@.subrange(at as int, at + k),
        decreases n - k,
    {
        dst[k] = src[at + k];
        assert(dst@.subrange(0, k + 1) =~= src@.subrange(at as int, at + k + 1));
        k += 1;
    }
    assert(dst@ =~= dst@.subrange(0, n as int));
}

} // verus!
