//! The byte buffers that packets are read from and written to.
//!
//! `Bytes` and `BytesMut` come from the `bytes` crate. What they hold is named
//! by `content` and `written`, the room that a `BytesMut` was made with by
//! `room`, and the operations that the protocol uses are described over these
//! names. These descriptions are believed, not
//! proved.

use bytes::{Buf, BufMut, Bytes, BytesMut};
use vstd::prelude::*;

use crate::big_endian::{be_bytes, be_value};

verus! {

/// `bytes::Bytes`, a cheaply sliceable, immutable run of bytes.
#[verifier::external_type_specification]
#[verifier::external_body]
pub struct ExBytes(Bytes);

/// `bytes::BytesMut`, a growing run of bytes.
#[verifier::external_type_specification]
#[verifier::external_body]
pub struct ExBytesMut(BytesMut);

/// The bytes that a `Bytes` still holds, first to last.
pub uninterp spec fn content(buf: Bytes) -> Seq<u8>;

/// The bytes that have been written to a `BytesMut`, first to last.
pub uninterp spec fn written(buf: BytesMut) -> Seq<u8>;

/// The room that a `BytesMut` was made with, less what has been split off or
/// advanced over since. It takes that many bytes before it has to grow.
pub uninterp spec fn room(buf: BytesMut) -> nat;

/// Whether a `BytesMut` can come to hold `len` bytes without its allocation
/// overflowing: it was made with room for them, or it can grow to that size.
///
/// No allocation may pass `isize::MAX` bytes. A `BytesMut` that has to grow
/// asks for less than four times what it will then hold, at the most for what
/// lies in front of an advanced view and for room to grow again, or for a
/// small fixed size.
pub open spec fn can_hold(buf: BytesMut, len: nat) -> bool {
    len <= room(buf) || 4 * len <= isize::MAX
}

/// A buffer can hold what it has room for, and what is no more than a quarter
/// of the largest allocation.
pub proof fn law_what_can_be_held(buf: BytesMut, len: nat)
    ensures
        can_hold(buf, len) <==> len <= room(buf) || 4 * len <= isize::MAX,
{
}

/// `Bytes::new` gives an empty buffer.
pub assume_specification[ Bytes::new ]() -> (buf: Bytes)
    ensures
        content(buf) == Seq::<u8>::empty(),
;

/// `Bytes::len` counts the bytes held.
pub assume_specification[ Bytes::len ](buf: &Bytes) -> (len: usize)
    ensures
        len == content(*buf).len(),
;

/// `Bytes::is_empty` tells whether nothing is held.
pub assume_specification[ Bytes::is_empty ](buf: &Bytes) -> (empty: bool)
    ensures
        empty == (content(*buf).len() == 0),
;

/// `Bytes::split_to` takes the first `at` bytes off and returns them. It
/// panics when there are fewer.
pub assume_specification[ Bytes::split_to ](buf: &mut Bytes, at: usize) -> (front: Bytes)
    requires
        at <= content(*old(buf)).len(),
    ensures
        content(front) == content(*old(buf)).take(at as int),
        content(*final(buf)) == content(*old(buf)).skip(at as int),
;

/// `Deref::deref` of `Bytes` shows the bytes held as a slice.
#[verifier::external_body]
pub(crate) fn as_slice(buf: &Bytes) -> (slice: &[u8])
    ensures
        slice@ == content(*buf),
{
    &buf[..]
}

/// `Buf::advance` of `Bytes` drops the first `count` bytes. It panics when
/// there are fewer.
#[verifier::external_body]
pub(crate) fn advance(buf: &mut Bytes, count: usize)
    requires
        count <= content(*old(buf)).len(),
    ensures
        content(*final(buf)) == content(*old(buf)).skip(count as int),
{
    buf.advance(count)
}

/// `Buf::get_u64` of `Bytes` takes eight bytes off the front and returns the
/// number that they spell, most significant first. It panics when there are
/// fewer.
#[verifier::external_body]
pub(crate) fn get_u64(buf: &mut Bytes) -> (value: u64)
    requires
        content(*old(buf)).len() >= 8,
    ensures
        value == be_value(content(*old(buf)).take(8)),
        content(*final(buf)) == content(*old(buf)).skip(8),
{
    buf.get_u64()
}

/// `BytesMut::new` gives an empty buffer.
pub assume_specification[ BytesMut::new ]() -> (buf: BytesMut)
    ensures
        room(buf) == 0,
        written(buf) == Seq::<u8>::empty(),
;

/// `BytesMut::with_capacity` gives an empty buffer, with room set aside. It
/// panics when no allocation of that size can exist.
pub assume_specification[ BytesMut::with_capacity ](capacity: usize) -> (buf: BytesMut)
    requires
        capacity <= isize::MAX,
    ensures
        room(buf) == capacity,
        written(buf) == Seq::<u8>::empty(),
;

/// `BytesMut::len` counts the bytes written.
pub assume_specification[ BytesMut::len ](buf: &BytesMut) -> (len: usize)
    ensures
        len == written(*buf).len(),
;

/// `BytesMut::resize` cuts the buffer to `new_len` bytes, or fills it up to
/// `new_len` with `value`.
pub assume_specification[ BytesMut::resize ](buf: &mut BytesMut, new_len: usize, value: u8)
    requires
        can_hold(*old(buf), new_len as nat),
    ensures
        room(*final(buf)) == room(*old(buf)),
        written(*final(buf)) == Seq::new(
            new_len as nat,
            |i: int|
                if i < written(*old(buf)).len() {
                    written(*old(buf))[i]
                } else {
                    value
                },
        ),
;

/// `BytesMut::extend_from_slice` appends `extend`.
pub assume_specification[ BytesMut::extend_from_slice ](buf: &mut BytesMut, extend: &[u8])
    requires
        can_hold(*old(buf), written(*old(buf)).len() + extend@.len()),
    ensures
        room(*final(buf)) == room(*old(buf)),
        written(*final(buf)) == written(*old(buf)) + extend@,
;

/// `BytesMut::freeze` makes what was written readable.
pub assume_specification[ BytesMut::freeze ](buf: BytesMut) -> (frozen: Bytes)
    ensures
        content(frozen) == written(buf),
;

/// `Deref::deref` of `BytesMut` shows the bytes written as a slice.
#[verifier::external_body]
pub(crate) fn written_slice(buf: &BytesMut) -> (slice: &[u8])
    ensures
        slice@ == written(*buf),
{
    &buf[..]
}

/// `BufMut::put_slice` of `BytesMut` appends `bytes`.
#[verifier::external_body]
pub(crate) fn put_slice(buf: &mut BytesMut, bytes: &[u8])
    requires
        can_hold(*old(buf), written(*old(buf)).len() + bytes@.len()),
    ensures
        room(*final(buf)) == room(*old(buf)),
        written(*final(buf)) == written(*old(buf)) + bytes@,
{
    buf.put_slice(bytes)
}

/// `BufMut::put_u8` of `BytesMut` appends one byte.
#[verifier::external_body]
pub(crate) fn put_u8(buf: &mut BytesMut, value: u8)
    requires
        can_hold(*old(buf), written(*old(buf)).len() + 1),
    ensures
        room(*final(buf)) == room(*old(buf)),
        written(*final(buf)) == written(*old(buf)).push(value),
{
    buf.put_u8(value)
}

/// `BufMut::put_i8` of `BytesMut` appends one byte, in two's complement.
#[verifier::external_body]
pub(crate) fn put_i8(buf: &mut BytesMut, value: i8)
    requires
        can_hold(*old(buf), written(*old(buf)).len() + 1),
    ensures
        room(*final(buf)) == room(*old(buf)),
        written(*final(buf)) == written(*old(buf)).push((value as int % 0x100) as u8),
{
    buf.put_i8(value)
}

/// `BufMut::put_u32` of `BytesMut` appends four bytes, most significant first.
#[verifier::external_body]
pub(crate) fn put_u32(buf: &mut BytesMut, value: u32)
    requires
        can_hold(*old(buf), written(*old(buf)).len() + 4),
    ensures
        room(*final(buf)) == room(*old(buf)),
        written(*final(buf)) == written(*old(buf)) + be_bytes(value as nat, 4),
{
    buf.put_u32(value)
}

/// `BufMut::put_i32` of `BytesMut` appends four bytes, most significant first,
/// in two's complement.
#[verifier::external_body]
pub(crate) fn put_i32(buf: &mut BytesMut, value: i32)
    requires
        can_hold(*old(buf), written(*old(buf)).len() + 4),
    ensures
        room(*final(buf)) == room(*old(buf)),
        written(*final(buf)) == written(*old(buf)) + be_bytes(
            (value as int % 0x1_0000_0000) as nat,
            4,
        ),
{
    buf.put_i32(value)
}

/// `BufMut::put_u64` of `BytesMut` appends eight bytes, most significant
/// first.
#[verifier::external_body]
pub(crate) fn put_u64(buf: &mut BytesMut, value: u64)
    requires
        can_hold(*old(buf), written(*old(buf)).len() + 8),
    ensures
        room(*final(buf)) == room(*old(buf)),
        written(*final(buf)) == written(*old(buf)) + be_bytes(value as nat, 8),
{
    buf.put_u64(value)
}

/// `BufMut::put_i64` of `BytesMut` appends eight bytes, most significant
/// first, in two's complement.
#[verifier::external_body]
pub(crate) fn put_i64(buf: &mut BytesMut, value: i64)
    requires
        can_hold(*old(buf), written(*old(buf)).len() + 8),
    ensures
        room(*final(buf)) == room(*old(buf)),
        written(*final(buf)) == written(*old(buf)) + be_bytes(
            (value as int % 0x1_0000_0000_0000_0000) as nat,
            8,
        ),
{
    buf.put_i64(value)
}

} // verus!
