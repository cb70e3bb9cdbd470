//! Random numbers from words of 32 bits. Drawing the words is left to the caller.

use crate::config::le4;
use vstd::prelude::*;

verus! {

/// A number of 64 bits from its upper and its lower half.
pub fn join_words(high: u32, low: u32) -> (r: u64)
    ensures
        r == high * 0x1_0000_0000 + low,
{
    high as u64 * 0x1_0000_0000 + low as u64
}

/// How many words are needed for `n` bytes.
pub fn words_for(n: usize) -> (r: usize)
    ensures
        4 * r >= n,
        4 * r < n + 4,
{
    if n % 4 == 0 {
        n / 4
    } else {
        n / 4 + 1
    }
}

/// Fills `dest` with the bytes of `words`, the lowest byte of each first.
pub fn fill_bytes(dest: &mut [u8], words: &[u32])
    requires
        old(dest)@.len() <= 4 * words@.len(),
    ensures
        final(dest)@.len() == old(dest)@.len(),
        forall|i: int|
            0 <= i < final(dest)@.len() ==> #[trigger] final(dest)@[i] == le4(words@[i / 4])[i % 4],
{
    let mut i: usize = 0;
    while i < dest.len()
        invariant
            i <= dest@.len(),
            dest@.len() == old(dest)@.len(),
            dest@.len() <= 4 * words@.len(),
            forall|j: int| 0 <= j < i ==> #[trigger] dest@[j] == le4(words@[j / 4])[j % 4],
        decreases dest@.len() - i,
    {
        let w: u32 = words[i / 4];
        let b: u8 = if i % 4 == 0 {
            (w % 0x100) as u8
        } else if i % 4 == 1 {
            (w / 0x100 % 0x100) as u8
        } else if i % 4 == 2 {
            (w / 0x1_0000 % 0x100) as u8
        } else {
            (w / 0x100_0000) as u8
        };
        dest[i] = b;
        i = i + 1;
    }
}

} // verus!
