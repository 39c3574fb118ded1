//! The fields that packets are made of.

use bytes::{Bytes, BytesMut};
use uuid::Uuid;
use vstd::arithmetic::power::pow;
use vstd::prelude::*;
use vstd::utf8::{
    decode_utf8, decode_utf8_encode_utf8, encode_utf8, encode_utf8_decode_utf8,
    encode_utf8_valid_utf8, valid_utf8,
};

use crate::big_endian::{
    be_bytes, be_value, law_be_bytes_are_digits, law_be_bytes_of_value, law_be_value_has_digits,
    law_be_value_of_bytes, lemma_be_bytes_len,
};
use crate::buffer::{advance, as_slice, can_hold, content, put_slice, room, written};
use crate::error::PacketError;
use crate::var_int::{
    law_var_int_len, law_var_int_round_trip, law_var_int_takes_front, read_var_int, var_int_bytes,
    var_int_rest, var_int_value, write_var_int, MAX_GROUPS,
};

verus! {

/// A player's UUID: its upper and its lower 64 bits.
#[derive(Debug, Clone, Copy, PartialEq, Eq, Structural)]
pub struct PlayerUuid {
    pub high: u64,
    pub low: u64,
}

/// The text that `String::from_utf8_lossy` makes of bytes that are not UTF-8.
pub uninterp spec fn utf8_lossy(bytes: Seq<u8>) -> Seq<char>;

/// `String::from_utf8_lossy` decodes UTF-8. Bytes that are not UTF-8 it
/// patches with replacement characters; of the text that it then gives, this
/// says only that it depends on the bytes alone.
#[verifier::external_body]
fn from_utf8_lossy(bytes: &[u8]) -> (text: String)
    ensures
        text@ == (if valid_utf8(bytes@) {
            decode_utf8(bytes@)
        } else {
            utf8_lossy(bytes@)
        }),
{
    String::from_utf8_lossy(bytes).into_owned()
}

/// `Uuid::from_bytes` takes a UUID from its sixteen bytes, and
/// `Uuid::as_u64_pair` gives its upper and lower 64 bits, each of which eight
/// of the bytes spell, most significant first.
#[verifier::external_body]
fn uuid_halves(bytes: [u8; 16]) -> (halves: (u64, u64))
    ensures
        halves.0 == be_value(bytes@.take(8)),
        halves.1 == be_value(bytes@.skip(8)),
{
    Uuid::from_bytes(bytes).as_u64_pair()
}

/// The text that bytes are read as.
pub open spec fn text_of(bytes: Seq<u8>) -> Seq<char> {
    if valid_utf8(bytes) {
        decode_utf8(bytes)
    } else {
        utf8_lossy(bytes)
    }
}

/// The bytes of a UUID.
pub open spec fn uuid_bytes(uuid: PlayerUuid) -> Seq<u8> {
    be_bytes(uuid.high as nat, 8) + be_bytes(uuid.low as nat, 8)
}

/// A string on the wire: the length of its UTF-8, of which a VarInt keeps 32
/// bits, and the UTF-8 itself.
pub open spec fn string_bytes(text: Seq<char>) -> Seq<u8> {
    var_int_bytes(encode_utf8(text).len() % 0x1_0000_0000) + encode_utf8(text)
}

/// Reads a two-byte number off the front of `bytes`: the number, or why there
/// is none, and what is left.
pub open spec fn short_at(bytes: Seq<u8>) -> (Result<u16, PacketError>, Seq<u8>) {
    if bytes.len() < 2 {
        (Err(PacketError::ShortTruncated), bytes)
    } else {
        (Ok(be_value(bytes.take(2)) as u16), bytes.skip(2))
    }
}

/// Reads a string off the front of `bytes`: its text, or why there is none,
/// and what is left.
pub open spec fn string_at(bytes: Seq<u8>) -> (Result<Seq<char>, PacketError>, Seq<u8>) {
    let rest = var_int_rest(bytes);
    match var_int_value(bytes) {
        Err(error) => (Err(error), rest),
        Ok(len) => if rest.len() < len {
            (Err(PacketError::StringTruncated), rest)
        } else {
            (Ok(text_of(rest.take(len as int))), rest.skip(len as int))
        },
    }
}

/// Reads a UUID off the front of `bytes`: the UUID, or why there is none, and
/// what is left.
pub open spec fn uuid_at(bytes: Seq<u8>) -> (Result<PlayerUuid, PacketError>, Seq<u8>) {
    if bytes.len() < 16 {
        (Err(PacketError::UuidTruncated), bytes)
    } else {
        let high = be_value(bytes.take(8)) as u64;
        let low = be_value(bytes.subrange(8, 16)) as u64;
        (Ok(PlayerUuid { high, low }), bytes.skip(16))
    }
}

/// Takes a two-byte number off the front of `buf`, most significant byte
/// first.
pub fn read_unsigned_short(buf: &mut Bytes) -> (value: Result<u16, PacketError>)
    ensures
        (value, content(*final(buf))) == short_at(content(*old(buf))),
{
    if buf.len() < 2 {
        return Err(PacketError::ShortTruncated);
    }
    let front = buf.split_to(2);
    let bytes = as_slice(&front);
    proof {
        reveal_with_fuel(be_value, 3);
        assert(bytes@.drop_last().drop_last().len() == 0);
    }
    Ok((bytes[0] as u16) * 256 + bytes[1] as u16)
}

/// Takes a string off the front of `buf`.
pub fn read_string(buf: &mut Bytes) -> (text: Result<String, PacketError>)
    ensures
        text matches Ok(text) ==> string_at(content(*old(buf))).0 == Ok::<Seq<char>, PacketError>(
            text@,
        ),
        text matches Err(error) ==> string_at(content(*old(buf))).0 == Err::<
            Seq<char>,
            PacketError,
        >(error),
        content(*final(buf)) == string_at(content(*old(buf))).1,
{
    let len: usize = match read_var_int(buf) {
        Ok(len) => len as usize,
        Err(error) => return Err(error),
    };
    if buf.len() < len {
        return Err(PacketError::StringTruncated);
    }
    let front = buf.split_to(len);
    Ok(from_utf8_lossy(as_slice(&front)))
}

/// Takes a UUID off the front of `buf`.
pub fn read_uuid(buf: &mut Bytes) -> (uuid: Result<PlayerUuid, PacketError>)
    ensures
        (uuid, content(*final(buf))) == uuid_at(content(*old(buf))),
{
    if buf.len() < 16 {
        return Err(PacketError::UuidTruncated);
    }
    let front = as_slice(buf);
    let bytes: [u8; 16] = [
        front[0],
        front[1],
        front[2],
        front[3],
        front[4],
        front[5],
        front[6],
        front[7],
        front[8],
        front[9],
        front[10],
        front[11],
        front[12],
        front[13],
        front[14],
        front[15],
    ];
    assert(bytes@ == content(*buf).take(16));
    assert(bytes@.take(8) == content(*buf).take(8));
    assert(bytes@.skip(8) == content(*buf).subrange(8, 16));
    advance(buf, 16);
    let (high, low) = uuid_halves(bytes);
    Ok(PlayerUuid { high, low })
}

/// Appends a string.
pub fn write_string(text: &str, buf: &mut BytesMut) -> (done: Result<(), PacketError>)
    requires
        can_hold(*old(buf), written(*old(buf)).len() + MAX_GROUPS as nat + encode_utf8(text@).len()),
    ensures
        done == Ok::<(), PacketError>(()),
        room(*final(buf)) == room(*old(buf)),
        written(*final(buf)) == written(*old(buf)) + string_bytes(text@),
{
    let bytes = text.as_bytes();
    let len: u64 = bytes.len() as u64;
    assert(len as u32 == len % 0x1_0000_0000) by (bit_vector);
    let ghost before = written(*buf);
    proof {
        law_var_int_len(len as u32);
    }
    match write_var_int(len as u32, buf) {
        Ok(_) => {},
        Err(error) => return Err(error),
    }
    put_slice(buf, bytes);
    assert(written(*buf) == before + string_bytes(text@));
    Ok(())
}

/// A two-byte number is read back from its bytes, whatever follows.
pub proof fn law_short_round_trip(value: u16, rest: Seq<u8>)
    ensures
        short_at(be_bytes(value as nat, 2) + rest) == (Ok::<u16, PacketError>(value), rest),
{
    let bytes = be_bytes(value as nat, 2);
    lemma_be_bytes_len(value as nat, 2);
    assert(value < pow(256, 2)) by {
        reveal_with_fuel(pow, 3);
    }
    law_be_value_of_bytes(value as nat, 2);
    assert((bytes + rest).take(2) == bytes);
    assert((bytes + rest).skip(2) == rest);
}

/// A string is read back from its bytes, whatever follows, as long as its
/// UTF-8 is short enough for its length to be written down.
pub proof fn law_string_round_trip(text: Seq<char>, rest: Seq<u8>)
    requires
        encode_utf8(text).len() < 0x1_0000_0000,
    ensures
        string_at(string_bytes(text) + rest) == (Ok::<Seq<char>, PacketError>(text), rest),
{
    let utf8 = encode_utf8(text);
    let len = utf8.len() as u32;
    law_var_int_round_trip(len, utf8 + rest);
    assert(string_bytes(text) + rest == var_int_bytes(len as nat) + (utf8 + rest));
    assert((utf8 + rest).take(len as int) == utf8);
    assert((utf8 + rest).skip(len as int) == rest);
    encode_utf8_valid_utf8(text);
    encode_utf8_decode_utf8(text);
}

/// A UUID is read back from its bytes, whatever follows.
pub proof fn law_uuid_round_trip(uuid: PlayerUuid, rest: Seq<u8>)
    ensures
        uuid_at(uuid_bytes(uuid) + rest) == (Ok::<PlayerUuid, PacketError>(uuid), rest),
{
    let high = be_bytes(uuid.high as nat, 8);
    let low = be_bytes(uuid.low as nat, 8);
    lemma_be_bytes_len(uuid.high as nat, 8);
    lemma_be_bytes_len(uuid.low as nat, 8);
    lemma_u64_fits();
    law_be_value_of_bytes(uuid.high as nat, 8);
    law_be_value_of_bytes(uuid.low as nat, 8);
    let bytes = uuid_bytes(uuid) + rest;
    assert(bytes.take(8) == high);
    assert(bytes.subrange(8, 16) == low);
    assert(bytes.skip(16) == rest);
}

/// The bytes of a UUID that was read are the bytes that it was read from.
pub proof fn law_uuid_keeps_bytes(bytes: Seq<u8>)
    requires
        bytes.len() >= 16,
    ensures
        uuid_at(bytes).0 matches Ok(uuid) && uuid_bytes(uuid) == bytes.take(16),
{
    lemma_u64_fits();
    law_be_bytes_of_value(bytes.take(8));
    law_be_bytes_of_value(bytes.subrange(8, 16));
    assert(bytes.take(8) + bytes.subrange(8, 16) == bytes.take(16));
}

proof fn lemma_u64_fits()
    ensures
        pow(256, 8) == 0x1_0000_0000_0000_0000,
{
    reveal_with_fuel(pow, 9);
}

/// Whatever comes of it, reading a field only takes bytes off the front.
pub proof fn law_fields_take_front(bytes: Seq<u8>)
    ensures
        short_at(bytes).1.len() <= bytes.len(),
        short_at(bytes).1 == bytes.skip(bytes.len() - short_at(bytes).1.len()),
        string_at(bytes).1.len() <= bytes.len(),
        string_at(bytes).1 == bytes.skip(bytes.len() - string_at(bytes).1.len()),
        uuid_at(bytes).1.len() <= bytes.len(),
        uuid_at(bytes).1 == bytes.skip(bytes.len() - uuid_at(bytes).1.len()),
{
    law_var_int_takes_front(bytes);
    assert(bytes == bytes.skip(0));
    assert(string_at(bytes).1 == bytes.skip(bytes.len() - string_at(bytes).1.len()));
}

/// A two-byte number is 256 times the first byte plus the second, and takes
/// these two bytes off; fewer than two are left alone and refused.
pub proof fn law_short_read(bytes: Seq<u8>)
    ensures
        bytes.len() >= 2 ==> short_at(bytes) == (
            Ok::<u16, PacketError>((256 * bytes[0] + bytes[1]) as u16),
            bytes.skip(2),
        ),
        bytes.len() < 2 ==> short_at(bytes) == (
            Err::<u16, PacketError>(PacketError::ShortTruncated),
            bytes,
        ),
{
    if bytes.len() >= 2 {
        reveal_with_fuel(be_value, 3);
        assert(bytes.take(2).drop_last().drop_last().len() == 0);
    }
}

/// The length in front of a string counts the bytes that follow it, no more
/// and no fewer: these are taken off with it and are the UTF-8 of the text.
/// A string whose length cannot be read, or that is longer than what is left,
/// is refused, and no more than the length is taken off.
pub proof fn law_string_read(bytes: Seq<u8>)
    ensures
        var_int_value(bytes) matches Ok(len) ==> {
            let behind = var_int_rest(bytes);
            if behind.len() < len {
                string_at(bytes) == (
                    Err::<Seq<char>, PacketError>(PacketError::StringTruncated),
                    behind,
                )
            } else {
                &&& string_at(bytes).1 == behind.skip(len as int)
                &&& string_at(bytes).0 matches Ok(text) && {
                    &&& valid_utf8(behind.take(len as int)) ==> encode_utf8(text) == behind.take(
                        len as int,
                    )
                    &&& !valid_utf8(behind.take(len as int)) ==> text == utf8_lossy(
                        behind.take(len as int),
                    )
                }
            }
        },
        var_int_value(bytes) matches Err(error) ==> string_at(bytes) == (
            Err::<Seq<char>, PacketError>(error),
            var_int_rest(bytes),
        ),
{
    if let Ok(len) = var_int_value(bytes) {
        let behind = var_int_rest(bytes);
        if behind.len() >= len && valid_utf8(behind.take(len as int)) {
            decode_utf8_encode_utf8(behind.take(len as int));
        }
    }
}

/// What stands in front of a written string is the number of bytes of its
/// UTF-8, in as few bytes as it takes, and what follows is that UTF-8. Of a
/// number too large for 32 bits, the low 32 bits are written.
pub proof fn law_string_write(text: Seq<char>)
    ensures
        ({
            let len = (encode_utf8(text).len() % 0x1_0000_0000) as u32;
            &&& var_int_value(string_bytes(text)) == Ok::<u32, PacketError>(len)
            &&& var_int_rest(string_bytes(text)) == encode_utf8(text)
            &&& string_bytes(text) == var_int_bytes(len as nat) + encode_utf8(text)
        }),
{
    law_var_int_round_trip((encode_utf8(text).len() % 0x1_0000_0000) as u32, encode_utf8(text));
}

/// A UUID is read from sixteen bytes, which are the digits to the base 256 of
/// its upper and then of its lower half, most significant first. Fewer are
/// left alone and refused.
pub proof fn law_uuid_read(bytes: Seq<u8>)
    ensures
        bytes.len() < 16 ==> uuid_at(bytes) == (
            Err::<PlayerUuid, PacketError>(PacketError::UuidTruncated),
            bytes,
        ),
        bytes.len() >= 16 ==> {
            &&& uuid_at(bytes).1 == bytes.skip(16)
            &&& uuid_at(bytes).0 matches Ok(uuid) && forall|i: int|
                0 <= i < 8 ==> {
                    &&& (uuid.high as int / #[trigger] pow(256, (7 - i) as nat)) % 256 == bytes[i]
                    &&& (uuid.low as int / pow(256, (7 - i) as nat)) % 256 == bytes[8 + i]
                }
        },
{
    if bytes.len() >= 16 {
        let high = bytes.take(8);
        let low = bytes.subrange(8, 16);
        let uuid = uuid_at(bytes).0->Ok_0;
        lemma_u64_fits();
        law_be_value_has_digits(high);
        law_be_value_has_digits(low);
        assert forall|i: int| 0 <= i < 8 implies {
            &&& (uuid.high as int / #[trigger] pow(256, (7 - i) as nat)) % 256 == bytes[i]
            &&& (uuid.low as int / pow(256, (7 - i) as nat)) % 256 == bytes[8 + i]
        } by {
            assert(high[i] == bytes[i]);
            assert(low[i] == bytes[8 + i]);
        }
    }
}

/// A UUID is written as the digits to the base 256 of its upper and then of
/// its lower half, most significant first.
pub proof fn law_uuid_write(uuid: PlayerUuid)
    ensures
        uuid_bytes(uuid).len() == 16,
        forall|i: int|
            0 <= i < 8 ==> {
                &&& uuid_bytes(uuid)[i] == (uuid.high as int / #[trigger] pow(256, (7 - i) as nat))
                    % 256
                &&& uuid_bytes(uuid)[8 + i] == (uuid.low as int / pow(256, (7 - i) as nat)) % 256
            },
{
    let high = be_bytes(uuid.high as nat, 8);
    let low = be_bytes(uuid.low as nat, 8);
    law_be_bytes_are_digits(uuid.high as nat, 8);
    law_be_bytes_are_digits(uuid.low as nat, 8);
    assert forall|i: int| 0 <= i < 8 implies {
        &&& uuid_bytes(uuid)[i] == (uuid.high as int / #[trigger] pow(256, (7 - i) as nat)) % 256
        &&& uuid_bytes(uuid)[8 + i] == (uuid.low as int / pow(256, (7 - i) as nat)) % 256
    } by {
        assert(uuid_bytes(uuid)[i] == high[i]);
        assert(uuid_bytes(uuid)[8 + i] == low[i]);
    }
}

} // verus!
