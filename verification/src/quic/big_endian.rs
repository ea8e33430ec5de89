//! Unsigned integers as fixed-width big-endian byte strings.

use vstd::prelude::*;

verus! {

/// `256` to the power of `width`: the number of values that `width` bytes hold.
pub open spec fn byte_range(width: nat) -> nat
    decreases width,
{
    if width == 0 {
        1
    } else {
        256 * byte_range((width - 1) as nat)
    }
}

/// The low `width` bytes of `value`, most significant first.
pub open spec fn be_bytes(value: nat, width: nat) -> Seq<u8>
    decreases width,
{
    if width == 0 {
        Seq::empty()
    } else {
        be_bytes(value / 256, (width - 1) as nat).push((value % 256) as u8)
    }
}

/// The number whose big-endian bytes are `bytes`.
pub open spec fn be_value(bytes: Seq<u8>) -> nat
    decreases bytes.len(),
{
    if bytes.len() == 0 {
        0
    } else {
        be_value(bytes.drop_last()) * 256 + bytes.last() as nat
    }
}

pub proof fn lemma_be_bytes_len(value: nat, width: nat)
    ensures
        be_bytes(value, width).len() == width,
    decreases width,
{
    if width > 0 {
        lemma_be_bytes_len(value / 256, (width - 1) as nat);
    }
}

/// `width` bytes never encode more than `byte_range(width) - 1`.
pub proof fn lemma_be_value_bound(bytes: Seq<u8>)
    ensures
        be_value(bytes) < byte_range(bytes.len()),
    decreases bytes.len(),
{
    if bytes.len() > 0 {
        lemma_be_value_bound(bytes.drop_last());
    }
}

/// Reading back what was written gives the value, if it fits.
pub proof fn lemma_be_round_trip(value: nat, width: nat)
    requires
        value < byte_range(width),
    ensures
        be_value(be_bytes(value, width)) == value,
    decreases width,
{
    if width > 0 {
        let w1 = (width - 1) as nat;
        lemma_be_round_trip(value / 256, w1);
        let bytes = be_bytes(value, width);
        assert(bytes.drop_last() =~= be_bytes(value / 256, w1));
    }
}

/// Writing back what was read gives the bytes.
pub proof fn lemma_be_value_inverse(bytes: Seq<u8>)
    ensures
        be_bytes(be_value(bytes), bytes.len()) == bytes,
    decreases bytes.len(),
{
    if bytes.len() > 0 {
        lemma_be_value_inverse(bytes.drop_last());
        let v = be_value(bytes);
        assert(v / 256 == be_value(bytes.drop_last()));
        assert(v % 256 == bytes.last() as nat);
        assert(bytes =~= bytes.drop_last().push(bytes.last()));
    } else {
        assert(bytes =~= Seq::empty());
    }
}

/// Appends the low `width` bytes of `value` to `out`, most significant first.
pub fn put_be(out: &mut Vec<u8>, value: u128, width: usize)
    ensures
        final(out)@ == old(out)@ + be_bytes(value as nat, width as nat),
    decreases width,
{
    if width > 0 {
        put_be(out, value / 256, width - 1);
        out.push((value % 256) as u8);
        assert(out@ =~= old(out)@ + be_bytes(value as nat, width as nat));
    } else {
        assert(out@ =~= old(out)@ + be_bytes(value as nat, width as nat));
    }
}

/// The number that `bytes[from..to]` encode.
pub fn get_be(bytes: &[u8], from: usize, to: usize) -> (value: u128)
    requires
        from <= to <= bytes@.len(),
        to - from <= 16,
    ensures
        value == be_value(bytes@.subrange(from as int, to as int)),
{
    let mut value: u128 = 0;
    let mut next: usize = from;
    assert(bytes@.subrange(from as int, from as int) =~= Seq::empty());
    while next < to
        invariant
            from <= next <= to <= bytes@.len(),
            to - from <= 16,
            value == be_value(bytes@.subrange(from as int, next as int)),
        decreases to - next,
    {
        let ghost done = bytes@.subrange(from as int, next as int);
        let ghost more = bytes@.subrange(from as int, next + 1);
        proof {
            lemma_be_value_bound(done);
            reveal_with_fuel(byte_range, 17);
            assert(more.drop_last() =~= done);
            lemma_be_value_bound(more);
            assert(be_value(more) == be_value(done) * 256 + bytes@[next as int]);
        }
        value = value * 256 + bytes[next] as u128;
        next += 1;
    }
    value
}

/// The first byte is the most significant one: byte `i` of `width` is the digit
/// of `value` to the base 256 that has `width - 1 - i` digits behind it.
pub proof fn bytes_are_digits(value: nat, width: nat, i: int)
    requires
        0 <= i < width,
    ensures
        be_bytes(value, width).len() == width,
        be_bytes(value, width)[i] == (value as int / vstd::arithmetic::power::pow(
            256,
            (width - 1 - i) as nat,
        )) % 256,
    decreases width,
{
    lemma_be_bytes_len(value, width);
    let shorter = (width - 1) as nat;
    lemma_be_bytes_len(value / 256, shorter);
    if i == width - 1 {
        reveal(vstd::arithmetic::power::pow);
        assert(value as int / 1 == value);
    } else {
        bytes_are_digits(value / 256, shorter, i);
        let rest = vstd::arithmetic::power::pow(256, (width - 2 - i) as nat);
        vstd::arithmetic::power::lemma_pow_positive(256, (width - 2 - i) as nat);
        reveal_with_fuel(vstd::arithmetic::power::pow, 2);
        assert(vstd::arithmetic::power::pow(256, (width - 1 - i) as nat) == 256 * rest);
        vstd::arithmetic::div_mod::lemma_div_denominator(value as int, 256, rest);
    }
}

/// A byte behind the others is worth itself, and those in front of it are worth
/// 256 times as much as before.
pub proof fn value_grows_by_digits(bytes: Seq<u8>, last: u8)
    ensures
        be_value(Seq::<u8>::empty()) == 0,
        be_value(bytes.push(last)) == 256 * be_value(bytes) + last,
{
    assert(bytes.push(last).drop_last() =~= bytes);
}

} // verus!
