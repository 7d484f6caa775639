//! Big-endian encoding of unsigned integers into fixed-width byte strings.
//!
//! Every multi-byte header field travels most significant byte first. The two
//! spec functions [`be_bytes`] and [`be_value`] define that encoding and its
//! inverse; [`put_be`] and [`get_be`] are their executable counterparts.

use vstd::prelude::*;

verus! {

/// The number of values that `width` bytes can tell apart: 256 to the power `width`.
pub open spec fn limit(width: nat) -> nat
    decreases width,
{
    if width == 0 {
        1
    } else {
        256 * limit((width - 1) as nat)
    }
}

/// The `width`-byte big-endian encoding of `value`. Only the low `width` bytes of
/// `value` are encoded, so the result always has length `width`.
pub open spec fn be_bytes(value: nat, width: nat) -> Seq<u8>
    decreases width,
{
    if width == 0 {
        Seq::empty()
    } else {
        be_bytes(value / 256, (width - 1) as nat).push((value % 256) as u8)
    }
}

/// The number that a big-endian byte string denotes.
pub open spec fn be_value(bytes: Seq<u8>) -> nat
    decreases bytes.len(),
{
    if bytes.len() == 0 {
        0
    } else {
        be_value(bytes.drop_last()) * 256 + bytes.last() as nat
    }
}

/// The limits of the widths that header fields use.
pub proof fn lemma_limit_values()
    ensures
        limit(0) == 1,
        limit(1) == 0x100,
        limit(2) == 0x1_0000,
        limit(3) == 0x100_0000,
        limit(4) == 0x1_0000_0000,
        limit(5) == 0x100_0000_0000,
        limit(6) == 0x1_0000_0000_0000,
        limit(7) == 0x100_0000_0000_0000,
        limit(8) == 0x1_0000_0000_0000_0000,
{
    reveal_with_fuel(limit, 9);
}

/// An encoding has exactly the requested width.
pub proof fn lemma_be_bytes_len(value: nat, width: nat)
    ensures
        be_bytes(value, width).len() == width,
    decreases width,
{
    if width > 0 {
        lemma_be_bytes_len(value / 256, (width - 1) as nat);
    }
}

/// A byte string denotes a number below the limit of its length.
pub proof fn lemma_be_value_bound(bytes: Seq<u8>)
    ensures
        be_value(bytes) < limit(bytes.len()),
    decreases bytes.len(),
{
    if bytes.len() > 0 {
        lemma_be_value_bound(bytes.drop_last());
    }
}

/// Decoding an encoding gives the value back, provided the value fits the width.
pub proof fn lemma_be_value_of_bytes(value: nat, width: nat)
    requires
        value < limit(width),
    ensures
        be_value(be_bytes(value, width)) == value,
    decreases width,
{
    if width > 0 {
        let rest = be_bytes(value / 256, (width - 1) as nat);
        lemma_be_value_of_bytes(value / 256, (width - 1) as nat);
        assert(be_bytes(value, width).drop_last() =~= rest);
    }
}

/// Encoding what a byte string denotes, at the string's own length, gives the
/// string back.
pub proof fn lemma_be_bytes_of_value(bytes: Seq<u8>)
    ensures
        be_bytes(be_value(bytes), bytes.len()) == bytes,
    decreases bytes.len(),
{
    if bytes.len() > 0 {
        let head = bytes.drop_last();
        lemma_be_bytes_of_value(head);
        assert(be_value(bytes) / 256 == be_value(head));
        assert(be_value(bytes) % 256 == bytes.last() as nat);
        assert(be_bytes(be_value(bytes), bytes.len()) =~= bytes);
    }
}

/// One byte encodes a value's low eight bits, and denotes itself.
pub proof fn lemma_be_single(value: nat, byte: u8)
    ensures
        be_bytes(value, 1) == seq![(value % 256) as u8],
        be_value(seq![byte]) == byte as nat,
{
    reveal_with_fuel(be_bytes, 2);
    reveal_with_fuel(be_value, 2);
    assert(be_bytes(value, 1) =~= seq![(value % 256) as u8]);
    assert(seq![byte].drop_last() =~= Seq::<u8>::empty());
}

/// Appends the `width`-byte big-endian encoding of `value` to `out`.
pub(crate) fn put_be(out: &mut Vec<u8>, value: u64, width: usize)
    requires
        width <= 8,
    ensures
        final(out)@ == old(out)@ + be_bytes(value as nat, width as nat),
    decreases width,
{
    if width > 0 {
        put_be(out, value / 256, (width - 1) as usize);
        out.push((value % 256) as u8);
        assert(out@ =~= old(out)@ + be_bytes(value as nat, width as nat));
    } else {
        assert(out@ =~= old(out)@ + be_bytes(value as nat, width as nat));
    }
}

/// Reads the number that the `width` bytes of `bytes` from `start` on denote.
pub(crate) fn get_be(bytes: &[u8], start: usize, width: usize) -> (value: u64)
    requires
        width <= 8,
        start + width <= bytes@.len(),
    ensures
        value as nat == be_value(bytes@.subrange(start as int, start + width)),
{
    let total: usize = bytes.len();
    let mut value: u64 = 0;
    let mut i: usize = 0;
    while i < width
        invariant
            i <= width <= 8,
            start + width <= bytes@.len() == total,
            value as nat == be_value(bytes@.subrange(start as int, start + i)),
        decreases width - i,
    {
        let ghost read = bytes@.subrange(start as int, start + i);
        let ghost next = bytes@.subrange(start as int, start + i + 1);
        proof {
            lemma_be_value_bound(read);
            lemma_limit_values();
            reveal_with_fuel(limit, 9);
            assert(next.drop_last() =~= read);
        }
        value = value * 256 + bytes[start + i] as u64;
        i += 1;
    }
    value
}

} // verus!
