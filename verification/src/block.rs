//! Block arithmetic: archives are made of 512-byte blocks, and whatever is
//! shorter is filled up with zero bytes.

use vstd::prelude::*;

verus! {

/// `n` zero bytes.
pub open spec fn zeros(n: nat) -> Seq<u8> {
    Seq::new(n, |i: int| 0u8)
}

/// Number of zero bytes that bring a run of `n` bytes up to the next block
/// boundary; none when `n` already is a multiple of the block size.
pub open spec fn padding_len(n: nat) -> nat {
    ((512 - n % 512) % 512) as nat
}

/// `data` followed by the zero bytes that fill its last block.
pub open spec fn padded(data: Seq<u8>) -> Seq<u8> {
    data + zeros(padding_len(data.len()))
}

/// A padded run ends on a block boundary, the padding is shorter than a block,
/// and it is empty exactly for runs that are aligned already.
pub proof fn lemma_padding_aligns(n: nat)
    ensures
        (n + padding_len(n)) % 512 == 0,
        padding_len(n) < 512,
        padding_len(n) == 0 <==> n % 512 == 0,
{
}

/// Computes [`padding_len`].
pub fn padding_for(n: u64) -> (k: usize)
    ensures
        k == padding_len(n as nat),
        k < 512,
{
    let rest: u64 = n % 512;
    if rest == 0 {
        0
    } else {
        (512 - rest) as usize
    }
}

/// Writes `k` zero bytes into `dst`, starting at index `at`.
pub fn fill_zeros(dst: &mut [u8], at: usize, k: usize)
    requires
        at + k <= old(dst)@.len(),
    ensures
        final(dst)@ == old(dst)@.take(at as int) + zeros(k as nat) + old(dst)@.skip(at + k),
{
    let len: usize = dst.len();
    let mut j: usize = 0;
    while j < k
        invariant
            j <= k,
            at + k <= len,
            dst@.len() == len,
            old(dst)@.len() == len,
            dst@ == old(dst)@.take(at as int) + zeros(j as nat) + old(dst)@.skip(at + j),
        decreases k - j,
    {
        dst[at + j] = 0u8;
        j += 1;
        assert(dst@ =~= old(dst)@.take(at as int) + zeros(j as nat) + old(dst)@.skip(at + j));
    }
}

/// Copies `src[from..from + k]` into `dst`, starting at index `at`.
pub fn copy_bytes(dst: &mut [u8], at: usize, src: &[u8], from: usize, k: usize)
    requires
        at + k <= old(dst)@.len(),
        from + k <= src@.len(),
    ensures
        final(dst)@ == old(dst)@.take(at as int) + src@.subrange(from as int, from + k)
            + old(dst)@.skip(at + k),
{
    let len: usize = dst.len();
    let src_len: usize = src.len();
    let mut j: usize = 0;
    while j < k
        invariant
            j <= k,
            at + k <= len,
            from + k <= src_len,
            src@.len() == src_len,
            dst@.len() == len,
            old(dst)@.len() == len,
            dst@ == old(dst)@.take(at as int) + src@.subrange(from as int, from + j)
                + old(dst)@.skip(at + j),
        decreases k - j,
    {
        dst[at + j] = src[from + j];
        j += 1;
        assert(dst@ =~= old(dst)@.take(at as int) + src@.subrange(from as int, from + j)
            + old(dst)@.skip(at + j));
    }
}

/// Appends `k` zero bytes to `v`.
pub fn push_zeros(v: &mut Vec<u8>, k: usize)
    ensures
        final(v)@ == old(v)@ + zeros(k as nat),
{
    let mut j: usize = 0;
    while j < k
        invariant
            j <= k,
            v@ == old(v)@ + zeros(j as nat),
        decreases k - j,
    {
        v.push(0u8);
        j += 1;
        assert(v@ =~= old(v)@ + zeros(j as nat));
    }
}

/// Appends all of `src` to `v`.
pub fn push_all(v: &mut Vec<u8>, src: &[u8])
    ensures
        final(v)@ == old(v)@ + src@,
{
    let mut j: usize = 0;
    while j < src.len()
        invariant
            j <= src@.len(),
            v@ == old(v)@ + src@.take(j as int),
        decreases src@.len() - j,
    {
        v.push(src[j]);
        j += 1;
        assert(v@ =~= old(v)@ + src@.take(j as int));
    }
    assert(src@.take(src@.len() as int) =~= src@);
}

} // verus!
