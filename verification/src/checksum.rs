//! The Internet checksum: the ones' complement of the ones' complement sum of a
//! byte string's 16-bit big-endian words, a trailing odd byte counting as the
//! high byte of a last word.

use vstd::arithmetic::div_mod::{lemma_fundamental_div_mod, lemma_mod_multiples_vanish};
use vstd::prelude::*;
use crate::wire::be_bytes;

verus! {

/// The sum of the 16-bit big-endian words of a byte string of even length.
pub open spec fn pair_sum(bytes: Seq<u8>) -> nat
    decreases bytes.len(),
{
    if bytes.len() < 2 {
        0
    } else {
        pair_sum(bytes.take(bytes.len() - 2)) + bytes[bytes.len() - 2] as nat * 256
            + bytes[bytes.len() - 1] as nat
    }
}

/// The sum of the 16-bit big-endian words of a byte string; an odd last byte is
/// the high byte of a word whose low byte is zero.
pub open spec fn word_sum(bytes: Seq<u8>) -> nat {
    if bytes.len() % 2 == 0 {
        pair_sum(bytes)
    } else {
        pair_sum(bytes.drop_last()) + bytes.last() as nat * 256
    }
}

/// A sum with the carries above sixteen bits added back in until none is left.
pub open spec fn fold16(sum: nat) -> nat
    decreases sum,
{
    if sum < 0x1_0000 {
        sum
    } else {
        fold16(sum / 0x1_0000 + sum % 0x1_0000)
    }
}

/// The Internet checksum of a byte string.
pub open spec fn checksum_of(bytes: Seq<u8>) -> u16 {
    (0xFFFF - fold16(word_sum(bytes))) as u16
}

/// Whether a byte string that holds its own checksum verifies: its folded sum
/// is sixteen one bits.
pub open spec fn checksum_holds(bytes: Seq<u8>) -> bool {
    fold16(word_sum(bytes)) == 0xFFFF
}

/// A folded sum fits sixteen bits; it is zero only for the sum zero, and else
/// the sum's remainder modulo 65535 with 65535 in place of zero.
pub proof fn lemma_fold16_value(sum: nat)
    ensures
        fold16(sum) <= 0xFFFF,
        sum == 0 ==> fold16(sum) == 0,
        sum > 0 ==> fold16(sum) == (sum - 1) % 0xFFFF + 1,
    decreases sum,
{
    if sum >= 0x1_0000 {
        let q = sum / 0x1_0000;
        let r = sum % 0x1_0000;
        lemma_fundamental_div_mod(sum as int, 0x1_0000);
        lemma_fold16_value(q + r);
        assert(sum - 1 == 0xFFFF * q + (q + r - 1));
        lemma_mod_multiples_vanish(q as int, q + r - 1, 0xFFFF);
    }
}

/// A sum and the complement of its folded value together fold to sixteen one
/// bits: data that carries its own checksum verifies.
pub proof fn lemma_fold16_with_complement(sum: nat, check: nat)
    requires
        check == 0xFFFF - fold16(sum),
    ensures
        fold16(sum + check) == 0xFFFF,
{
    lemma_fold16_value(sum);
    let total = sum + check;
    lemma_fold16_value(total);
    if sum > 0 {
        let k = (sum - 1) / 0xFFFF;
        lemma_fundamental_div_mod(sum - 1, 0xFFFF);
        assert(total - 1 == 0xFFFF * k + 0xFFFE);
        lemma_mod_multiples_vanish(k, 0xFFFE, 0xFFFF);
    }
}

/// The words of two strings of even length add up over their concatenation.
pub proof fn lemma_pair_sum_concat(a: Seq<u8>, b: Seq<u8>)
    requires
        a.len() % 2 == 0,
        b.len() % 2 == 0,
    ensures
        pair_sum(a + b) == pair_sum(a) + pair_sum(b),
    decreases b.len(),
{
    if b.len() < 2 {
        assert(a + b =~= a);
    } else {
        let whole = a + b;
        let shorter = b.take(b.len() - 2);
        assert(whole.take(whole.len() - 2) =~= a + shorter);
        lemma_pair_sum_concat(a, shorter);
    }
}

/// The words of a string of even length and of any string behind it add up
/// over their concatenation.
pub proof fn lemma_word_sum_concat(a: Seq<u8>, b: Seq<u8>)
    requires
        a.len() % 2 == 0,
    ensures
        word_sum(a + b) == pair_sum(a) + word_sum(b),
{
    if b.len() % 2 == 0 {
        lemma_pair_sum_concat(a, b);
    } else {
        assert((a + b).drop_last() =~= a + b.drop_last());
        lemma_pair_sum_concat(a, b.drop_last());
    }
}

/// A 16-bit value encoded in two bytes is one word, and counts as itself.
pub proof fn lemma_pair_sum_word(value: nat)
    requires
        value <= 0xFFFF,
    ensures
        pair_sum(be_bytes(value, 2)) == value,
{
    reveal_with_fuel(be_bytes, 3);
    reveal_with_fuel(pair_sum, 2);
    let word = be_bytes(value, 2);
    assert(word.len() == 2);
    assert(word.take(0).len() == 0);
}

/// The Internet checksum of `bytes`.
pub fn internet_checksum(bytes: &[u8]) -> (checksum: u16)
    ensures
        checksum == checksum_of(bytes@),
{
    let total: usize = bytes.len();
    let even: usize = total - total % 2;
    let mut sum: u128 = 0;
    let mut i: usize = 0;
    while i < even
        invariant
            i <= even <= total == bytes@.len(),
            i % 2 == 0,
            even % 2 == 0,
            sum as nat == pair_sum(bytes@.take(i as int)),
            sum <= i * 0x8000,
        decreases even - i,
    {
        assert(bytes@.take(i + 2).take(i as int) =~= bytes@.take(i as int));
        sum = sum + bytes[i] as u128 * 256 + bytes[i + 1] as u128;
        i += 2;
    }
    if total % 2 == 1 {
        assert(bytes@.drop_last() =~= bytes@.take(even as int));
        sum = sum + bytes[total - 1] as u128 * 256;
    } else {
        assert(bytes@.take(even as int) =~= bytes@);
    }
    assert(sum as nat == word_sum(bytes@));
    let ghost whole: nat = sum as nat;
    while sum >= 0x1_0000
        invariant
            fold16(sum as nat) == fold16(whole),
        decreases sum,
    {
        sum = sum / 0x1_0000 + sum % 0x1_0000;
    }
    (0xFFFF - sum) as u16
}

/// Whether `bytes`, which hold their own checksum, verify.
pub fn verify_checksum(bytes: &[u8]) -> (holds: bool)
    ensures
        holds == checksum_holds(bytes@),
{
    proof {
        lemma_fold16_value(word_sum(bytes@));
    }
    internet_checksum(bytes) == 0
}

} // verus!
