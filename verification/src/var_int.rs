//! VarInts: numbers in little-endian groups of seven bits, each in a byte
//! whose high bit says that another group follows.

use bytes::{Bytes, BytesMut};
use vstd::arithmetic::div_mod::lemma_div_denominator;
use vstd::arithmetic::power::{lemma_pow_positive, pow};
use vstd::prelude::*;

use crate::buffer::{advance, as_slice, can_hold, content, put_u8, room, written};
use crate::error::PacketError;

verus! {

/// The most bytes that a VarInt takes.
pub const MAX_GROUPS: u32 = 5;

pub(crate) const SEGMENT_BITS: u8 = 0x7F;

pub(crate) const CONTINUE_BIT: u8 = 0x80;

/// The shortest VarInt for `value`.
pub open spec fn var_int_bytes(value: nat) -> Seq<u8>
    decreases value,
{
    if value < 128 {
        seq![value as u8]
    } else {
        seq![(value % 128 + 128) as u8] + var_int_bytes(value / 128)
    }
}

/// Reads a VarInt of at most `limit` groups off the front of `bytes`: the
/// number that the groups spell, or why there is none, and what is left.
pub open spec fn var_int_scan(bytes: Seq<u8>, limit: nat) -> (Result<nat, PacketError>, Seq<u8>)
    decreases limit,
{
    if bytes.len() == 0 {
        (Err(PacketError::VarIntTruncated), bytes)
    } else if bytes[0] < 128 {
        (Ok(bytes[0] as nat), bytes.skip(1))
    } else if limit <= 1 {
        (Err(PacketError::VarIntTooBig), bytes.skip(1))
    } else {
        let (high, rest) = var_int_scan(bytes.skip(1), (limit - 1) as nat);
        match high {
            Ok(high) => (Ok((bytes[0] - 128 + 128 * high) as nat), rest),
            Err(error) => (Err(error), rest),
        }
    }
}

/// The number that the VarInt at the front of `bytes` stands for: the low 32
/// bits of what its groups spell.
pub open spec fn var_int_value(bytes: Seq<u8>) -> Result<u32, PacketError> {
    match var_int_scan(bytes, MAX_GROUPS as nat).0 {
        Ok(value) => Ok((value % 0x1_0000_0000) as u32),
        Err(error) => Err(error),
    }
}

/// What is left of `bytes` once a VarInt has been read, or found missing.
pub open spec fn var_int_rest(bytes: Seq<u8>) -> Seq<u8> {
    var_int_scan(bytes, MAX_GROUPS as nat).1
}

/// A VarInt for a 32-bit number takes one to five bytes.
pub proof fn law_var_int_len(value: u32)
    ensures
        1 <= var_int_bytes(value as nat).len() <= MAX_GROUPS,
{
    reveal_with_fuel(var_int_bytes, 6);
}

/// Appends `value` as a VarInt and returns the number of bytes that it took.
pub fn write_var_int(value: u32, buf: &mut BytesMut) -> (size: Result<u8, PacketError>)
    requires
        can_hold(*old(buf), written(*old(buf)).len() + MAX_GROUPS as nat),
    ensures
        size == Ok::<u8, PacketError>(var_int_bytes(value as nat).len() as u8),
        room(*final(buf)) == room(*old(buf)),
        written(*final(buf)) == written(*old(buf)) + var_int_bytes(value as nat),
{
    let mut val: u32 = value;
    let mut size: u8 = 0;
    let ghost before = written(*buf);
    let ghost whole = var_int_bytes(value as nat);
    proof {
        law_var_int_len(value);
    }
    loop
        invariant_except_break
            whole.len() <= MAX_GROUPS,
            can_hold(*buf, before.len() + MAX_GROUPS as nat),
            room(*buf) == room(*old(buf)),
            before + whole == written(*buf) + var_int_bytes(val as nat),
            written(*buf).len() == before.len() + size,
            size + var_int_bytes(val as nat).len() == whole.len(),
        ensures
            room(*buf) == room(*old(buf)),
            before + whole == written(*buf),
            size == whole.len(),
        decreases val,
    {
        let low: u8 = (val & (SEGMENT_BITS as u32)) as u8;
        proof {
            assert(val & 0x7F == val % 128) by (bit_vector);
            assert(val & !0x7Fu32 == 0 <==> val < 128) by (bit_vector);
            assert(val >> 7 == val / 128) by (bit_vector);
        }
        if (val & !(SEGMENT_BITS as u32)) == 0 {
            put_u8(buf, low);
            size = size + 1;
            assert(before + whole == written(*buf));
            break;
        }
        assert(low < 128 ==> low | 0x80 == low + 128) by (bit_vector);
        put_u8(buf, low | CONTINUE_BIT);
        size = size + 1;
        val = val >> 7;
        assert(written(*buf) + var_int_bytes(val as nat) == before + whole);
    }
    Ok(size)
}

/// Whether `position` is where a group can start, `scale` the weight of that
/// place, and `value` a number that lies below it.
pub(crate) open spec fn below_group(value: u32, position: u32, scale: int) -> bool {
    &&& value < scale
    &&& {
        ||| position == 0 && scale == 1
        ||| position == 7 && scale == 0x80
        ||| position == 14 && scale == 0x4000
        ||| position == 21 && scale == 0x20_0000
        ||| position == 28 && scale == 0x1000_0000
    }
}

/// Putting a seven-bit group above `value` adds it at that place, less what
/// falls off a 32-bit number.
pub(crate) proof fn lemma_place_group(value: u32, group: u32, position: u32, scale: int)
    requires
        group < 128,
        below_group(value, position, scale),
    ensures
        value | (group << position) == (value + group * scale) % 0x1_0000_0000,
        position < 28 ==> value + group * scale < scale * 128 <= 0x1000_0000,
{
    if position == 0 {
        assert(value | (group << 0) == value + group) by (bit_vector)
            requires
                value < 1,
                group < 128,
        ;
    } else if position == 7 {
        assert(value | (group << 7) == value + group * 0x80) by (bit_vector)
            requires
                value < 0x80,
                group < 128,
        ;
    } else if position == 14 {
        assert(value | (group << 14) == value + group * 0x4000) by (bit_vector)
            requires
                value < 0x4000,
                group < 128,
        ;
    } else if position == 21 {
        assert(value | (group << 21) == value + group * 0x20_0000) by (bit_vector)
            requires
                value < 0x20_0000,
                group < 128,
        ;
    } else {
        assert(value | (group << 28) == (value + group * 0x1000_0000) % 0x1_0000_0000)
            by (bit_vector)
            requires
                value < 0x1000_0000,
                group < 128,
        ;
    }
}

/// The bits of a VarInt byte.
pub(crate) proof fn lemma_group_of_byte(byte: u8)
    ensures
        byte & 0x7F == byte % 128,
        byte & 0x80 == 0 <==> byte < 128,
{
    assert(byte & 0x7F == byte % 128) by (bit_vector);
    assert(byte & 0x80 == 0 <==> byte < 128) by (bit_vector);
}

/// What a scan comes to when the groups in front of it spell `value` and it
/// starts at the place of weight `scale`.
spec fn continued(
    value: int,
    scale: int,
    scan: (Result<nat, PacketError>, Seq<u8>),
) -> (Result<nat, PacketError>, Seq<u8>) {
    match scan.0 {
        Ok(high) => (Ok((value + high * scale) as nat), scan.1),
        Err(error) => (Err(error), scan.1),
    }
}

/// A scan that is continued past its first group.
proof fn lemma_continue_past_group(value: int, scale: int, bytes: Seq<u8>, limit: nat)
    requires
        bytes.len() > 0,
        bytes[0] >= 128,
        limit > 1,
    ensures
        continued(value, scale, var_int_scan(bytes, limit)) == continued(
            value + (bytes[0] - 128) * scale,
            scale * 128,
            var_int_scan(bytes.skip(1), (limit - 1) as nat),
        ),
{
    if let Ok(high) = var_int_scan(bytes.skip(1), (limit - 1) as nat).0 {
        let group = bytes[0] - 128;
        assert((group + 128 * high) * scale == group * scale + high * (scale * 128))
            by (nonlinear_arith);
    }
}

/// Takes a VarInt off the front of `buf`.
pub fn read_var_int(buf: &mut Bytes) -> (value: Result<u32, PacketError>)
    ensures
        value == var_int_value(content(*old(buf))),
        content(*final(buf)) == var_int_rest(content(*old(buf))),
{
    let mut value: u32 = 0;
    let mut position: u32 = 0;
    let ghost before = content(*buf);
    let ghost mut scale: int = 1;
    let ghost mut limit: nat = MAX_GROUPS as nat;
    loop
        invariant_except_break
            before == content(*old(buf)),
            below_group(value, position, scale),
            position + 7 * limit == 35,
            var_int_scan(before, MAX_GROUPS as nat) == continued(
                value as int,
                scale,
                var_int_scan(content(*buf), limit),
            ),
        ensures
            Ok::<u32, PacketError>(value) == var_int_value(before),
            content(*buf) == var_int_rest(before),
        decreases limit,
    {
        if buf.is_empty() {
            return Err(PacketError::VarIntTruncated);
        }
        let current_byte: u8 = as_slice(buf)[0];
        let ghost here = content(*buf);
        advance(buf, 1);
        proof {
            lemma_group_of_byte(current_byte);
            lemma_place_group(value, (current_byte % 128) as u32, position, scale);
        }
        let ghost lower = value;
        value = value | (((current_byte & SEGMENT_BITS) as u32) << position);
        if (current_byte & CONTINUE_BIT) == 0 {
            break;
        }
        position = position + 7;
        if position >= 32 {
            return Err(PacketError::VarIntTooBig);
        }
        proof {
            lemma_continue_past_group(lower as int, scale, here, limit);
            scale = scale * 128;
            limit = (limit - 1) as nat;
        }
    }
    Ok(value)
}

/// Reading back what was written, whatever follows it, gives the number again
/// and leaves what follows.
pub proof fn law_var_int_round_trip(value: u32, rest: Seq<u8>)
    ensures
        var_int_value(var_int_bytes(value as nat) + rest) == Ok::<u32, PacketError>(value),
        var_int_rest(var_int_bytes(value as nat) + rest) == rest,
{
    assert(value < pow(128, 5)) by {
        reveal_with_fuel(pow, 6);
    }
    lemma_scan_of_bytes(value as nat, rest, MAX_GROUPS as nat);
}

/// A scan that may take enough groups gives back any number.
proof fn lemma_scan_of_bytes(value: nat, rest: Seq<u8>, limit: nat)
    requires
        1 <= limit,
        value < pow(128, limit),
    ensures
        var_int_scan(var_int_bytes(value) + rest, limit) == (Ok::<nat, PacketError>(value), rest),
    decreases limit,
{
    reveal(pow);
    let bytes = var_int_bytes(value) + rest;
    if value < 128 {
        assert(bytes.skip(1) == rest);
    } else {
        let below = (limit - 1) as nat;
        assert(pow(128, limit) == 128 * pow(128, below));
        assert(below >= 1) by {
            assert(pow(128, 0) == 1);
        }
        lemma_scan_of_bytes(value / 128, rest, below);
        assert(bytes.skip(1) == var_int_bytes(value / 128) + rest);
    }
}

/// The groups of a VarInt are the digits of the number to the base 128, least
/// significant first: each byte is its digit, plus 128 where another follows.
/// There are as many as the number has digits, and one for zero.
pub proof fn law_var_int_digits(value: nat)
    ensures
        forall|i: int|
            0 <= i < var_int_bytes(value).len() ==> #[trigger] var_int_bytes(value)[i] == (
            value as int / pow(128, i as nat)) % 128 + if i < var_int_bytes(value).len() - 1 {
                128int
            } else {
                0int
            },
        var_int_bytes(value).len() >= 1,
        value < pow(128, var_int_bytes(value).len()),
        var_int_bytes(value).len() > 1 ==> value >= pow(
            128,
            (var_int_bytes(value).len() - 1) as nat,
        ),
    decreases value,
{
    let bytes = var_int_bytes(value);
    reveal_with_fuel(pow, 2);
    if value >= 128 {
        let high = var_int_bytes(value / 128);
        law_var_int_digits(value / 128);
        assert(pow(128, bytes.len()) == 128 * pow(128, high.len()));
        assert(high.len() > 1 ==> pow(128, high.len()) == 128 * pow(128, (high.len() - 1) as nat));
        assert forall|i: int| 0 <= i < bytes.len() implies #[trigger] bytes[i] == (value as int
            / pow(128, i as nat)) % 128 + if i < bytes.len() - 1 {
            128int
        } else {
            0int
        } by {
            if i > 0 {
                let below = pow(128, (i - 1) as nat);
                assert(bytes[i] == high[i - 1]);
                assert(pow(128, i as nat) == 128 * below);
                lemma_pow_positive(128, (i - 1) as nat);
                lemma_div_denominator(value as int, 128, below);
                assert(value as int / pow(128, i as nat) == (value / 128) as int / below);
            } else {
                assert(pow(128, i as nat) == 1);
                assert(value as int / 1 == value);
            }
        }
    }
}

/// What a read gives, by the bytes: the seven low bits of each byte up to the
/// first that is below 128 are digits to the base 128, least significant
/// first, of which the number keeps 32 bits, and exactly these bytes are taken
/// off. Five bytes that all announce another one are taken off and refused. A
/// buffer that ends before that, where every byte announces another one, is
/// used up and refused.
pub proof fn law_var_int_read(bytes: Seq<u8>)
    ensures
        bytes.len() >= 1 && bytes[0] < 128 ==> {
            &&& var_int_value(bytes) == Ok::<u32, PacketError>(bytes[0] as u32)
            &&& var_int_rest(bytes) == bytes.skip(1)
        },
        bytes.len() >= 2 && bytes[0] >= 128 && bytes[1] < 128 ==> {
            &&& var_int_value(bytes) == Ok::<u32, PacketError>(
                (bytes[0] % 128 + 0x80 * bytes[1]) as u32,
            )
            &&& var_int_rest(bytes) == bytes.skip(2)
        },
        bytes.len() >= 3 && bytes[0] >= 128 && bytes[1] >= 128 && bytes[2] < 128 ==> {
            &&& var_int_value(bytes) == Ok::<u32, PacketError>(
                (bytes[0] % 128 + 0x80 * (bytes[1] % 128) + 0x4000 * bytes[2]) as u32,
            )
            &&& var_int_rest(bytes) == bytes.skip(3)
        },
        bytes.len() >= 4 && bytes[0] >= 128 && bytes[1] >= 128 && bytes[2] >= 128 && bytes[3]
            < 128 ==> {
            &&& var_int_value(bytes) == Ok::<u32, PacketError>(
                (bytes[0] % 128 + 0x80 * (bytes[1] % 128) + 0x4000 * (bytes[2] % 128) + 0x20_0000
                    * bytes[3]) as u32,
            )
            &&& var_int_rest(bytes) == bytes.skip(4)
        },
        bytes.len() >= 5 && bytes[0] >= 128 && bytes[1] >= 128 && bytes[2] >= 128 && bytes[3]
            >= 128 && bytes[4] < 128 ==> {
            &&& var_int_value(bytes) == Ok::<u32, PacketError>(
                ((bytes[0] % 128 + 0x80 * (bytes[1] % 128) + 0x4000 * (bytes[2] % 128) + 0x20_0000
                    * (bytes[3] % 128) + 0x1000_0000 * bytes[4]) % 0x1_0000_0000) as u32,
            )
            &&& var_int_rest(bytes) == bytes.skip(5)
        },
        bytes.len() >= 5 && bytes[0] >= 128 && bytes[1] >= 128 && bytes[2] >= 128 && bytes[3]
            >= 128 && bytes[4] >= 128 ==> {
            &&& var_int_value(bytes) == Err::<u32, PacketError>(PacketError::VarIntTooBig)
            &&& var_int_rest(bytes) == bytes.skip(5)
        },
        bytes.len() < 5 && (forall|i: int| 0 <= i < bytes.len() ==> #[trigger] bytes[i] >= 128)
            ==> {
            &&& var_int_value(bytes) == Err::<u32, PacketError>(PacketError::VarIntTruncated)
            &&& var_int_rest(bytes) == Seq::<u8>::empty()
        },
{
    lemma_scan_step(bytes, 0, 5);
    if bytes.len() >= 1 && bytes[0] >= 128 {
        lemma_scan_step(bytes, 1, 4);
        if bytes.len() >= 2 && bytes[1] >= 128 {
            lemma_scan_step(bytes, 2, 3);
            if bytes.len() >= 3 && bytes[2] >= 128 {
                lemma_scan_step(bytes, 3, 2);
                if bytes.len() >= 4 && bytes[3] >= 128 {
                    lemma_scan_step(bytes, 4, 1);
                }
            }
        }
    }
    assert(bytes.skip(0) == bytes);
}

/// A scan that has come to the byte at `at`.
proof fn lemma_scan_step(bytes: Seq<u8>, at: int, limit: nat)
    requires
        0 <= at <= bytes.len(),
        limit >= 1,
    ensures
        var_int_scan(bytes.skip(at), limit) == if at == bytes.len() {
            (Err::<nat, PacketError>(PacketError::VarIntTruncated), Seq::empty())
        } else if bytes[at] < 128 {
            (Ok(bytes[at] as nat), bytes.skip(at + 1))
        } else if limit == 1 {
            (Err(PacketError::VarIntTooBig), bytes.skip(at + 1))
        } else {
            let (high, rest) = var_int_scan(bytes.skip(at + 1), (limit - 1) as nat);
            match high {
                Ok(high) => (Ok((bytes[at] % 128 + 128 * high) as nat), rest),
                Err(error) => (Err(error), rest),
            }
        },
{
    if at < bytes.len() {
        assert(bytes.skip(at).skip(1) == bytes.skip(at + 1));
    } else {
        assert(bytes.skip(at) == Seq::<u8>::empty());
    }
}

/// Every byte of a VarInt but the last announces another one.
pub proof fn law_var_int_continuation(value: nat)
    ensures
        forall|i: int|
            0 <= i < var_int_bytes(value).len() ==> (#[trigger] var_int_bytes(value)[i] >= 128
                <==> i < var_int_bytes(value).len() - 1),
    decreases value,
{
    if value >= 128 {
        law_var_int_continuation(value / 128);
        lemma_bytes_len_monotone(value / 128, value / 128);
        assert forall|i: int| 0 <= i < var_int_bytes(value).len() implies (
        #[trigger] var_int_bytes(value)[i] >= 128 <==> i < var_int_bytes(value).len() - 1) by {
            if i > 0 {
                assert(var_int_bytes(value)[i] == var_int_bytes(value / 128)[i - 1]);
            }
        }
    }
}

/// A read takes a front part of at most five bytes off, and at least one byte
/// where it succeeds.
pub proof fn law_var_int_takes_front(bytes: Seq<u8>)
    ensures
        ({
            let rest = var_int_rest(bytes);
            let taken = bytes.len() - rest.len();
            &&& 0 <= taken <= MAX_GROUPS
            &&& rest == bytes.skip(taken)
            &&& var_int_value(bytes) is Ok ==> taken >= 1
        }),
{
    lemma_scan_takes_front(bytes, MAX_GROUPS as nat);
}

proof fn lemma_scan_takes_front(bytes: Seq<u8>, limit: nat)
    requires
        1 <= limit,
    ensures
        ({
            let (value, rest) = var_int_scan(bytes, limit);
            let taken = bytes.len() - rest.len();
            &&& 0 <= taken <= limit
            &&& rest == bytes.skip(taken)
            &&& value is Ok ==> taken >= 1
        }),
    decreases limit,
{
    if bytes.len() > 0 && bytes[0] >= 128 && limit > 1 {
        lemma_scan_takes_front(bytes.skip(1), (limit - 1) as nat);
        let rest = var_int_scan(bytes, limit).1;
        assert(rest == bytes.skip(bytes.len() - rest.len()));
    } else if bytes.len() == 0 {
        assert(bytes == bytes.skip(0));
    }
}

/// A read that succeeds does not depend on the bytes behind the VarInt.
pub proof fn law_var_int_no_lookahead(bytes: Seq<u8>, more: Seq<u8>)
    requires
        var_int_value(bytes) is Ok,
    ensures
        var_int_value(bytes + more) == var_int_value(bytes),
        var_int_rest(bytes + more) == var_int_rest(bytes) + more,
{
    lemma_scan_no_lookahead(bytes, more, MAX_GROUPS as nat);
}

proof fn lemma_scan_no_lookahead(bytes: Seq<u8>, more: Seq<u8>, limit: nat)
    requires
        var_int_scan(bytes, limit).0 is Ok,
    ensures
        var_int_scan(bytes + more, limit) == (
            var_int_scan(bytes, limit).0,
            var_int_scan(bytes, limit).1 + more,
        ),
    decreases limit,
{
    assert((bytes + more).skip(1) == bytes.skip(1) + more);
    if bytes[0] >= 128 {
        lemma_scan_no_lookahead(bytes.skip(1), more, (limit - 1) as nat);
    }
}

/// No VarInt for a number is shorter than the one that is written for it.
pub proof fn law_var_int_shortest(bytes: Seq<u8>, value: u32)
    requires
        var_int_value(bytes) == Ok::<u32, PacketError>(value),
    ensures
        var_int_bytes(value as nat).len() <= bytes.len() - var_int_rest(bytes).len(),
{
    lemma_scan_shortest(bytes, MAX_GROUPS as nat);
    let spelt = var_int_scan(bytes, MAX_GROUPS as nat).0->Ok_0;
    lemma_bytes_len_monotone(value as nat, spelt);
}

proof fn lemma_scan_shortest(bytes: Seq<u8>, limit: nat)
    requires
        var_int_scan(bytes, limit).0 is Ok,
    ensures
        var_int_bytes(var_int_scan(bytes, limit).0->Ok_0).len() <= bytes.len() - var_int_scan(
            bytes,
            limit,
        ).1.len(),
    decreases limit,
{
    if bytes[0] >= 128 {
        lemma_scan_shortest(bytes.skip(1), (limit - 1) as nat);
        let high = var_int_scan(bytes.skip(1), (limit - 1) as nat).0->Ok_0;
        let value = var_int_scan(bytes, limit).0->Ok_0;
        if value >= 128 {
            assert(value / 128 == high);
        }
    }
}

proof fn lemma_bytes_len_monotone(small: nat, large: nat)
    requires
        small <= large,
    ensures
        1 <= var_int_bytes(small).len() <= var_int_bytes(large).len(),
    decreases large,
{
    if large >= 128 {
        if small >= 128 {
            lemma_bytes_len_monotone(small / 128, large / 128);
        } else {
            lemma_bytes_len_monotone(large / 128, large / 128);
        }
    }
}

} // verus!
