//! Little-endian layout of the values that system calls store in user
//! memory.

use vstd::prelude::*;

verus! {

/// The `n` low bytes of `x`, lowest first.
pub open spec fn le_bytes(x: nat, n: nat) -> Seq<u8>
    decreases n,
{
    if n == 0 {
        Seq::empty()
    } else {
        seq![(x % 256) as u8] + le_bytes(x / 256, (n - 1) as nat)
    }
}

/// The words of `s` in order, each as four bytes, lowest first.
pub open spec fn le_words(s: Seq<u32>) -> Seq<u8>
    decreases s.len(),
{
    if s.len() == 0 {
        Seq::empty()
    } else {
        le_words(s.drop_last()) + le_bytes(s.last() as nat, 4)
    }
}

/// The number whose 32 low bits are the two's complement of `v`.
pub open spec fn twos_complement(v: i32) -> nat {
    if v >= 0 {
        v as nat
    } else {
        (v + 0x1_0000_0000) as nat
    }
}

/// `le_bytes(x, n)` has `n` bytes.
pub proof fn lemma_le_bytes_len(x: nat, n: nat)
    ensures
        le_bytes(x, n).len() == n,
    decreases n,
{
    if n > 0 {
        lemma_le_bytes_len(x / 256, (n - 1) as nat);
    }
}

/// `le_words(s)` has four bytes for each word.
pub proof fn lemma_le_words_len(s: Seq<u32>)
    ensures
        le_words(s).len() == 4 * s.len(),
    decreases s.len(),
{
    if s.len() > 0 {
        lemma_le_words_len(s.drop_last());
        lemma_le_bytes_len(s.last() as nat, 4);
    }
}

/// Appends the `n` low bytes of `x` to `buf`, lowest first.
pub fn put_le(buf: &mut Vec<u8>, x: u64, n: usize)
    ensures
        final(buf)@ == old(buf)@ + le_bytes(x as nat, n as nat),
{
    let mut v: u64 = x;
    let mut k: usize = 0;
    assert(buf@ + le_bytes(v as nat, n as nat) =~= old(buf)@ + le_bytes(x as nat, n as nat));
    while k < n
        invariant
            k <= n,
            buf@ + le_bytes(v as nat, (n - k) as nat) == old(buf)@ + le_bytes(x as nat, n as nat),
        decreases n - k,
    {
        let ghost prev = buf@;
        buf.push((v % 256) as u8);
        assert(buf@ + le_bytes((v / 256) as nat, (n - k - 1) as nat) =~= prev + le_bytes(
            v as nat,
            (n - k) as nat,
        ));
        v = v / 256;
        k = k + 1;
    }
    assert(buf@ + le_bytes(v as nat, 0) =~= buf@);
}

/// Appends the words of `words` to `buf`, each as four bytes, lowest first.
pub fn put_words(buf: &mut Vec<u8>, words: &[u32])
    ensures
        final(buf)@ == old(buf)@ + le_words(words@),
{
    let mut i: usize = 0;
    assert(words@.subrange(0, 0) =~= Seq::<u32>::empty());
    assert(buf@ =~= old(buf)@ + le_words(words@.subrange(0, 0)));
    while i < words.len()
        invariant
            i <= words.len(),
            buf@ == old(buf)@ + le_words(words@.subrange(0, i as int)),
        decreases words.len() - i,
    {
        let ghost prev = buf@;
        put_le(buf, words[i] as u64, 4);
        proof {
            let s = words@.subrange(0, i + 1);
            assert(s.drop_last() =~= words@.subrange(0, i as int));
            assert(s.last() == words@[i as int]);
            assert(buf@ =~= old(buf)@ + le_words(s));
        }
        i = i + 1;
    }
    assert(words@.subrange(0, words@.len() as int) =~= words@);
}

/// Bits of `v` as an unsigned number.
pub fn to_twos_complement(v: i32) -> (u: u64)
    ensures
        u == twos_complement(v),
        u <= u32::MAX,
{
    if v >= 0 {
        v as u64
    } else {
        (v as i64 + 0x1_0000_0000) as u64
    }
}

} // verus!
