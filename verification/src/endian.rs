//! Fixed-width little-endian integers, the building block of the wire format.

use vstd::prelude::*;

verus! {

/// 256 to the power `digits`: the number of values that `digits` bytes can hold.
pub open spec fn radix(digits: nat) -> nat
    decreases digits,
{
    if digits == 0 {
        1
    } else {
        256 * radix((digits - 1) as nat)
    }
}

/// The `width` low-order base-256 digits of `value`, least significant first.
pub open spec fn le_bytes(value: nat, width: nat) -> Seq<u8>
    decreases width,
{
    if width == 0 {
        Seq::empty()
    } else {
        seq![(value % 256) as u8] + le_bytes(value / 256, (width - 1) as nat)
    }
}

/// The number whose base-256 digits, least significant first, are `bytes`.
pub open spec fn le_value(bytes: Seq<u8>) -> nat
    decreases bytes.len(),
{
    if bytes.len() == 0 {
        0
    } else {
        bytes[0] as nat + 256 * le_value(bytes.skip(1))
    }
}

/// More digits hold more values.
pub proof fn lemma_radix_monotonic(small: nat, large: nat)
    requires
        small <= large,
    ensures
        1 <= radix(small) <= radix(large),
    decreases large,
{
    if large == 0 {
    } else if small == large {
        lemma_radix_monotonic((small - 1) as nat, (large - 1) as nat);
    } else {
        lemma_radix_monotonic(small, (large - 1) as nat);
    }
}

/// Four bytes hold exactly the `u32` values and eight bytes exactly the `u64` values.
pub proof fn lemma_radix_values()
    ensures
        radix(4) == 0x1_0000_0000,
        radix(7) == 0x100_0000_0000_0000,
        radix(8) == 0x1_0000_0000_0000_0000,
{
    reveal_with_fuel(radix, 9);
}

/// An encoding is as long as the width asked for.
pub proof fn lemma_le_bytes_len(value: nat, width: nat)
    ensures
        le_bytes(value, width).len() == width,
    decreases width,
{
    if width > 0 {
        lemma_le_bytes_len(value / 256, (width - 1) as nat);
    }
}

/// The value of a byte string is below the radix of its length.
pub proof fn lemma_le_value_bound(bytes: Seq<u8>)
    ensures
        le_value(bytes) < radix(bytes.len()),
    decreases bytes.len(),
{
    if bytes.len() > 0 {
        lemma_le_value_bound(bytes.skip(1));
    }
}

/// Decoding undoes encoding for every value that fits in the width.
pub proof fn lemma_le_value_of_bytes(value: nat, width: nat)
    requires
        value < radix(width),
    ensures
        le_value(le_bytes(value, width)) == value,
    decreases width,
{
    if width > 0 {
        let rest = le_bytes(value / 256, (width - 1) as nat);
        let whole = le_bytes(value, width);
        lemma_le_value_of_bytes(value / 256, (width - 1) as nat);
        assert(whole.skip(1) =~= rest);
        assert(whole[0] == (value % 256) as u8);
    }
}

/// Encoding undoes decoding: a byte string is the only encoding of its value
/// at its length.
pub proof fn lemma_le_bytes_of_value(bytes: Seq<u8>)
    ensures
        le_bytes(le_value(bytes), bytes.len()) == bytes,
    decreases bytes.len(),
{
    if bytes.len() > 0 {
        lemma_le_bytes_of_value(bytes.skip(1));
        let value = le_value(bytes);
        assert(value % 256 == bytes[0] as nat);
        assert(value / 256 == le_value(bytes.skip(1)));
        assert(le_bytes(value, bytes.len()) =~= bytes);
    } else {
        assert(le_bytes(le_value(bytes), bytes.len()) =~= bytes);
    }
}

/// Appends the `width`-byte little-endian form of `value` to `out`.
pub fn put_uint(out: &mut Vec<u8>, value: u64, width: usize)
    ensures
        final(out)@ == old(out)@ + le_bytes(value as nat, width as nat),
{
    let mut rest: u64 = value;
    let mut written: usize = 0;
    while written < width
        invariant
            written <= width,
            out@ + le_bytes(rest as nat, (width - written) as nat) == old(out)@ + le_bytes(
                value as nat,
                width as nat,
            ),
        decreases width - written,
    {
        let ghost before = out@;
        let digit: u8 = (rest % 256) as u8;
        out.push(digit);
        proof {
            let tail = le_bytes((rest / 256) as nat, (width - written - 1) as nat);
            assert(le_bytes(rest as nat, (width - written) as nat) == seq![digit] + tail);
            assert(before.push(digit) + tail =~= before + (seq![digit] + tail));
        }
        rest = rest / 256;
        written += 1;
    }
    assert(out@ + Seq::<u8>::empty() =~= out@);
}

/// Reads the `width` bytes of `bytes` that start at `at` as a little-endian number.
pub fn get_uint(bytes: &[u8], at: usize, width: usize) -> (value: u64)
    requires
        width <= 8,
        at + width <= bytes@.len(),
    ensures
        value as nat == le_value(bytes@.subrange(at as int, at + width)),
{
    let ghost field = bytes@.subrange(at as int, at + width);
    let total: usize = bytes.len();
    let mut value: u64 = 0;
    let mut left: usize = width;
    assert(field.skip(width as int) =~= Seq::<u8>::empty());
    while left > 0
        invariant
            left <= width <= 8,
            at + width <= total == bytes@.len(),
            field == bytes@.subrange(at as int, at + width),
            value as nat == le_value(field.skip(left as int)),
        decreases left,
    {
        proof {
            let seen = field.skip(left as int);
            let next = field.skip(left - 1);
            lemma_le_value_bound(seen);
            lemma_radix_monotonic(seen.len(), 7);
            lemma_radix_values();
            assert(next.skip(1) =~= seen);
            assert(next[0] == bytes@[at + left - 1]);
        }
        left -= 1;
        value = value * 256 + bytes[at + left] as u64;
    }
    assert(field.skip(0) =~= field);
    value
}

} // verus!
