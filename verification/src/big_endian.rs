//! Fixed-width integers in network byte order.

use vstd::arithmetic::div_mod::lemma_div_denominator;
use vstd::arithmetic::power::{lemma_pow_positive, pow};
use vstd::prelude::*;

verus! {

/// The low `width` bytes of `value`, most significant first.
pub open spec fn be_bytes(value: nat, width: nat) -> Seq<u8>
    decreases width,
{
    if width == 0 {
        Seq::empty()
    } else {
        be_bytes(value / 256, (width - 1) as nat).push((value % 256) as u8)
    }
}

/// The number that `bytes` spell, most significant first.
pub open spec fn be_value(bytes: Seq<u8>) -> nat
    decreases bytes.len(),
{
    if bytes.len() == 0 {
        0
    } else {
        be_value(bytes.drop_last()) * 256 + bytes.last() as nat
    }
}

/// `be_bytes` is as long as it is asked to be.
pub broadcast proof fn lemma_be_bytes_len(value: nat, width: nat)
    ensures
        #[trigger] be_bytes(value, width).len() == width,
    decreases width,
{
    if width > 0 {
        lemma_be_bytes_len(value / 256, (width - 1) as nat);
    }
}

/// A number that fits in `width` bytes is spelt by its own bytes.
pub proof fn law_be_value_of_bytes(value: nat, width: nat)
    requires
        value < pow(256, width),
    ensures
        be_value(be_bytes(value, width)) == value,
    decreases width,
{
    reveal(pow);
    if width > 0 {
        let below = (width - 1) as nat;
        assert(pow(256, width) == 256 * pow(256, below));
        law_be_value_of_bytes(value / 256, below);
        assert(be_bytes(value, width).drop_last() == be_bytes(value / 256, below));
    }
}

/// Bytes are the spelling of the number that they spell, and that number fits
/// in as many bytes as there are.
pub proof fn law_be_bytes_of_value(bytes: Seq<u8>)
    ensures
        be_bytes(be_value(bytes), bytes.len()) == bytes,
        be_value(bytes) < pow(256, bytes.len()),
    decreases bytes.len(),
{
    reveal(pow);
    if bytes.len() > 0 {
        let front = bytes.drop_last();
        law_be_bytes_of_value(front);
        assert(pow(256, bytes.len()) == 256 * pow(256, front.len()));
        assert(be_value(bytes) / 256 == be_value(front));
        assert(be_value(bytes) % 256 == bytes.last());
        assert(front.push(bytes.last()) == bytes);
    } else {
        assert(be_bytes(be_value(bytes), bytes.len()) == bytes);
    }
}

/// The bytes of a number are its digits to the base 256, most significant
/// first.
pub proof fn law_be_bytes_are_digits(value: nat, width: nat)
    ensures
        be_bytes(value, width).len() == width,
        forall|i: int|
            0 <= i < width ==> #[trigger] be_bytes(value, width)[i] == (value as int / pow(
                256,
                (width - 1 - i) as nat,
            )) % 256,
    decreases width,
{
    lemma_be_bytes_len(value, width);
    if width > 0 {
        let bytes = be_bytes(value, width);
        let below = (width - 1) as nat;
        let high = be_bytes(value / 256, below);
        law_be_bytes_are_digits(value / 256, below);
        reveal(pow);
        assert forall|i: int| 0 <= i < width implies #[trigger] bytes[i] == (value as int / pow(
            256,
            (width - 1 - i) as nat,
        )) % 256 by {
            if i < below {
                let scale = pow(256, (below - 1 - i) as nat);
                assert(bytes[i] == high[i]);
                assert(pow(256, (width - 1 - i) as nat) == 256 * scale);
                lemma_pow_positive(256, (below - 1 - i) as nat);
                lemma_div_denominator(value as int, 256, scale);
                assert(value as int / pow(256, (width - 1 - i) as nat) == (value / 256) as int
                    / scale);
            } else {
                assert(pow(256, (width - 1 - i) as nat) == 1);
                assert(value as int / 1 == value);
            }
        }
    }
}

/// The digits to the base 256 of the number that bytes spell are the bytes,
/// most significant first, and it has no others.
pub proof fn law_be_value_has_digits(bytes: Seq<u8>)
    ensures
        be_value(bytes) < pow(256, bytes.len()),
        forall|i: int|
            0 <= i < bytes.len() ==> (be_value(bytes) as int / pow(
                256,
                (bytes.len() - 1 - i) as nat,
            )) % 256 == #[trigger] bytes[i],
{
    law_be_bytes_of_value(bytes);
    law_be_bytes_are_digits(be_value(bytes), bytes.len());
    let spelt = be_bytes(be_value(bytes), bytes.len());
    assert forall|i: int| 0 <= i < bytes.len() implies (be_value(bytes) as int / pow(
        256,
        (bytes.len() - 1 - i) as nat,
    )) % 256 == #[trigger] bytes[i] by {
        assert(spelt[i] == bytes[i]);
    }
}

} // verus!
