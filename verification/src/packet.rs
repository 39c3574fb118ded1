//! Packets: a length, an identifier and a payload.

use bytes::{Bytes, BytesMut};
use vstd::prelude::*;

use crate::buffer::{as_slice, content, written, written_slice};
use crate::error::PacketError;
use crate::packet_length::{law_packet_length_is_var_int, length_run, no_groups};
use crate::var_int::{
    law_var_int_len, law_var_int_round_trip, read_var_int, var_int_bytes, var_int_rest,
    var_int_value, write_var_int, MAX_GROUPS,
};

verus! {

/// A packet on the wire: the length of what follows, of which a VarInt keeps
/// 32 bits, then the identifier, then the payload.
pub open spec fn packet_bytes(protocol: u32, payload: Seq<u8>) -> Seq<u8> {
    let id = var_int_bytes(protocol as nat);
    var_int_bytes((id.len() + payload.len()) % 0x1_0000_0000) + id + payload
}

/// A packet takes at most ten bytes more than its payload.
pub proof fn law_packet_len(protocol: u32, payload: Seq<u8>)
    ensures
        payload.len() + 2 <= packet_bytes(protocol, payload).len() <= payload.len() + 2
            * MAX_GROUPS,
{
    let id = var_int_bytes(protocol as nat);
    law_var_int_len(protocol);
    law_var_int_len(((id.len() + payload.len()) % 0x1_0000_0000) as u32);
}

/// The length in front of a packet counts the bytes that follow it, and these
/// are the identifier and the payload. Both numbers take as few bytes as they
/// can. Of a length too large for 32 bits, the low 32 bits are written.
pub proof fn law_packet_layout(protocol: u32, payload: Seq<u8>)
    ensures
        ({
            let packet = packet_bytes(protocol, payload);
            let body = var_int_rest(packet);
            &&& var_int_value(packet) == Ok::<u32, PacketError>(
                (body.len() % 0x1_0000_0000) as u32,
            )
            &&& var_int_value(body) == Ok::<u32, PacketError>(protocol)
            &&& var_int_rest(body) == payload
            &&& body == var_int_bytes(protocol as nat) + payload
            &&& packet == var_int_bytes(body.len() % 0x1_0000_0000) + body
        }),
{
    let body = var_int_bytes(protocol as nat) + payload;
    let len = (body.len() % 0x1_0000_0000) as u32;
    assert(packet_bytes(protocol, payload) == var_int_bytes(len as nat) + body);
    law_var_int_round_trip(len, body);
    law_var_int_round_trip(protocol, payload);
}

/// A packet of up to 127 bytes, with an identifier below 128, is one byte for
/// its length, one for its identifier, and its payload.
pub proof fn law_short_packet(protocol: u32, payload: Seq<u8>)
    requires
        protocol < 128,
        payload.len() < 127,
    ensures
        packet_bytes(protocol, payload) == seq![(payload.len() + 1) as u8, protocol as u8]
            + payload,
{
    assert(var_int_bytes(protocol as nat) == seq![protocol as u8]);
    assert(packet_bytes(protocol, payload) == seq![(payload.len() + 1) as u8, protocol as u8]
        + payload);
}

/// Frames the packet `protocol` with the payload `buf`.
pub fn encode_packet(protocol: u32, buf: &Bytes) -> (packet: Result<BytesMut, PacketError>)
    requires
        packet_bytes(protocol, content(*buf)).len() <= isize::MAX,
    ensures
        packet matches Ok(packet) && written(packet) == packet_bytes(protocol, content(*buf)),
{
    let mut packet_buf = BytesMut::new();
    let mut prot_buf = BytesMut::new();
    let ghost id = var_int_bytes(protocol as nat);
    proof {
        law_var_int_len(protocol);
    }
    let prot_len: u8 = match write_var_int(protocol, &mut prot_buf) {
        Ok(len) => len,
        Err(error) => return Err(error),
    };
    assert(written(prot_buf) == id);
    let len: u64 = (buf.len() + prot_len as usize) as u64;
    assert(len as u32 == len % 0x1_0000_0000) by (bit_vector);
    proof {
        law_var_int_len(len as u32);
    }
    match write_var_int(len as u32, &mut packet_buf) {
        Ok(_) => {},
        Err(error) => return Err(error),
    }
    let mut combined = BytesMut::with_capacity(packet_buf.len() + prot_buf.len() + buf.len());
    combined.extend_from_slice(written_slice(&packet_buf));
    combined.extend_from_slice(written_slice(&prot_buf));
    combined.extend_from_slice(as_slice(buf));
    assert(written(combined) == packet_bytes(protocol, content(*buf)));
    Ok(combined)
}

/// Makes room for a packet of `packet_length` bytes.
pub fn packet_buffer(packet_length: u32) -> (buffer: BytesMut)
    requires
        packet_length <= isize::MAX,
    ensures
        written(buffer) == Seq::new(packet_length as nat, |i: int| 0u8),
{
    let mut buffer = BytesMut::with_capacity(packet_length as usize);
    buffer.resize(packet_length as usize, 0);
    assert(written(buffer) == Seq::new(packet_length as nat, |i: int| 0u8));
    buffer
}

/// Splits a packet that has come in, its length already taken off, into its
/// identifier and its payload.
pub fn decode_packet(buffer: BytesMut) -> (packet: Result<(u32, Bytes), PacketError>)
    ensures
        packet matches Ok((id, payload)) ==> {
            &&& var_int_value(written(buffer)) == Ok::<u32, PacketError>(id)
            &&& content(payload) == var_int_rest(written(buffer))
        },
        packet matches Err(error) ==> var_int_value(written(buffer)) == Err::<u32, PacketError>(
            error,
        ),
{
    let mut bytes = buffer.freeze();
    match read_var_int(&mut bytes) {
        Ok(packet_id) => Ok((packet_id, bytes)),
        Err(error) => Err(error),
    }
}

/// A reader that takes the length from a stream, then as many bytes, and
/// splits them, gets the identifier and the payload that were framed, and
/// finds the stream where the packet ends. The length has to be one that can
/// be written down.
pub proof fn law_packet_round_trip(protocol: u32, payload: Seq<u8>, rest: Seq<u8>)
    requires
        var_int_bytes(protocol as nat).len() + payload.len() < 0x1_0000_0000,
    ensures
        length_run(no_groups(), packet_bytes(protocol, payload) + rest) matches Some(
            (Ok(length), after),
        ) && {
            &&& length == var_int_bytes(protocol as nat).len() + payload.len()
            &&& after.len() >= length
            &&& var_int_value(after.take(length as int)) == Ok::<u32, PacketError>(protocol)
            &&& var_int_rest(after.take(length as int)) == payload
            &&& after.skip(length as int) == rest
        },
{
    let id = var_int_bytes(protocol as nat);
    let body = id + payload;
    let stream = packet_bytes(protocol, payload) + rest;
    assert(stream == var_int_bytes(body.len()) + (body + rest));
    law_var_int_round_trip(body.len() as u32, body + rest);
    law_packet_length_is_var_int(stream);
    assert((body + rest).take(body.len() as int) == body);
    assert((body + rest).skip(body.len() as int) == rest);
    law_var_int_round_trip(protocol, payload);
}

} // verus!
