//! The Internet checksum.

use super::bytes::u16_at;
use vstd::prelude::*;

verus! {

/// The sum of the 16-bit words of `bytes`. An odd byte at the end counts as the
/// high half of a word.
pub open spec fn word_sum(bytes: Seq<u8>) -> nat
    decreases bytes.len(),
{
    if bytes.len() == 0 {
        0
    } else if bytes.len() == 1 {
        (bytes[0] * 256) as nat
    } else {
        (u16_at(bytes, 0) + word_sum(bytes.skip(2))) as nat
    }
}

/// A sum of 16-bit words in ones' complement: carries are added back in.
pub open spec fn ones_complement(sum: nat) -> nat {
    if sum == 0 {
        0
    } else {
        ((sum - 1) % 65535 + 1) as nat
    }
}

/// The checksum of data whose words add up to `sum`.
pub open spec fn internet_checksum(sum: nat) -> int {
    65535 - ones_complement(sum)
}

/// Data whose words add up to `sum`, its checksum among them, is intact if the
/// ones' complement sum has all bits set.
pub open spec fn sum_is_intact(sum: nat) -> bool {
    ones_complement(sum) == 65535
}

/// The words of an even number of bytes and of what follows add up.
pub proof fn lemma_word_sum_add(a: Seq<u8>, b: Seq<u8>)
    requires
        a.len() % 2 == 0,
    ensures
        word_sum(a + b) == word_sum(a) + word_sum(b),
    decreases a.len(),
{
    if a.len() == 0 {
        assert(a + b =~= b);
    } else {
        assert((a + b).skip(2) =~= a.skip(2) + b);
        lemma_word_sum_add(a.skip(2), b);
    }
}

/// The sum of two bytes is the word they make.
pub proof fn lemma_word_sum_pair(bytes: Seq<u8>)
    requires
        bytes.len() == 2,
    ensures
        word_sum(bytes) == u16_at(bytes, 0),
{
    reveal_with_fuel(word_sum, 2);
    assert(bytes.skip(2).len() == 0);
}

/// Adding the checksum of some data to its sum makes the sum intact.
pub proof fn lemma_checksum_is_intact(sum: nat)
    ensures
        sum_is_intact((sum + internet_checksum(sum)) as nat),
        0 <= internet_checksum(sum) <= 65535,
{
    if sum > 0 {
        let q = (sum - 1) / 65535;
        let r = (sum - 1) % 65535;
        assert(sum - 1 == q * 65535 + r);
        let total = sum + internet_checksum(sum);
        assert(total == q * 65535 + 65535);
        assert((total - 1) % 65535 == 65534) by (nonlinear_arith)
            requires
                total == q * 65535 + 65535,
        ;
    }
}

/// The sum of the 16-bit words of `bytes`.
pub fn sum_words(bytes: &[u8]) -> (sum: u64)
    requires
        bytes@.len() <= 0xffff_ffff,
    ensures
        sum == word_sum(bytes@),
        sum <= 0xffff * 0x1_0000_0000,
{
    let mut sum: u64 = 0;
    let mut index: usize = 0;
    assert(bytes@.skip(0) =~= bytes@);
    while index < bytes.len() && bytes.len() - index >= 2
        invariant
            bytes@.len() <= 0xffff_ffff,
            index <= bytes@.len(),
            sum + word_sum(bytes@.skip(index as int)) == word_sum(bytes@),
            sum <= 0xffff * index,
        decreases bytes@.len() - index,
    {
        let word: u64 = bytes[index] as u64 * 256 + bytes[index + 1] as u64;
        assert(bytes@.skip(index as int).skip(2) =~= bytes@.skip(index + 2));
        sum = sum + word;
        index += 2;
    }
    if index < bytes.len() {
        assert(bytes@.skip(index as int).len() == 1);
        sum = sum + bytes[index] as u64 * 256;
    } else {
        assert(bytes@.skip(index as int).len() == 0);
    }
    sum
}

/// The checksum of data whose words add up to `sum`.
pub fn checksum_of(sum: u64) -> (checksum: u16)
    ensures
        checksum == internet_checksum(sum as nat),
{
    if sum == 0 {
        65535
    } else {
        (65535 - ((sum - 1) % 65535 + 1)) as u16
    }
}

} // verus!
