//! How calls relate: what one function is given back of what another one made,
//! and what a call leads to whatever it is given.
//!
//! Each law speaks of calls that have been made. A parameter that is changed in
//! place stands inside `old` for itself before the call, and inside `final` for
//! itself after it.

use std::time::Instant;

use bytes::{Bytes, BytesMut};
use vstd::arithmetic::power::pow;
use vstd::prelude::*;
use vstd::utf8::encode_utf8;

use crate::big_endian::{
    be_bytes, be_value, law_be_bytes_of_value, law_be_value_of_bytes, lemma_be_bytes_len,
};
use crate::buffer::{content, written};
use crate::connection::{handle_connection, law_all_written, law_login_is_confirmed};
use crate::error::PacketError;
use crate::fields::{
    law_short_read, law_string_round_trip, law_string_write, law_uuid_keeps_bytes, law_uuid_write,
    read_string, read_unsigned_short, read_uuid, string_bytes, uuid_bytes, write_string, PlayerUuid,
};
use crate::keep_alive::{
    clock_reading, drawn_from, elapsed_reading, freshly_seeded, handle_keep_alive,
    lemma_request_frame, next_keep_alive, KeepAliveState,
};
use crate::login::{
    handle_handshake, handle_login_client, handshake_state, law_handshake_round_trip,
    law_login_round_trip, law_login_success_payload, login_state, login_success,
    login_success_payload, HandshakePacket,
};
use crate::loops::{
    keep_alive_step, monitor_step, KeepAliveAction, KeepAliveEvent, MonitorAction,
};
use crate::packet::{
    decode_packet, encode_packet, law_packet_layout, packet_buffer, packet_bytes,
};
use crate::packet_length::{law_length_byte_by_byte, PacketLengthReader};
use crate::play::{
    handle_play_login, handle_play_packet, handle_player_position, lemma_payload_lens, PlayPacket,
};
use crate::state::{CurrentState, State};
use crate::var_int::{
    law_var_int_len, law_var_int_round_trip, read_var_int, var_int_bytes, var_int_rest,
    var_int_value, write_var_int,
};

verus! {

/// A VarInt that was written is read back, whatever stands in front of it and
/// follows it, and the size that writing it reports is the number of bytes
/// that reading it takes.
pub proof fn law_var_int_exchange(
    value: u32,
    out: &mut BytesMut,
    size: Result<u8, PacketError>,
    buf: &mut Bytes,
    read: Result<u32, PacketError>,
    rest: Seq<u8>,
)
    requires
        call_ensures(write_var_int, (value, out), size),
        call_ensures(read_var_int, (buf,), read),
        written(*final(out)) + rest == written(*old(out)) + content(*old(buf)),
    ensures
        read == Ok::<u32, PacketError>(value),
        content(*final(buf)) == rest,
        size matches Ok(size) && size == content(*old(buf)).len() - rest.len(),
{
    let bytes = content(*old(buf));
    law_var_int_len(value);
    lemma_behind(written(*old(out)), bytes, var_int_bytes(value as nat), rest);
    law_var_int_round_trip(value, rest);
}

/// If `front` followed by `left` is `front` followed by `middle` and `rest`,
/// then `left` is `middle` and `rest`.
proof fn lemma_behind(front: Seq<u8>, left: Seq<u8>, middle: Seq<u8>, rest: Seq<u8>)
    requires
        front + middle + rest == front + left,
    ensures
        left == middle + rest,
{
    assert((front + left).skip(front.len() as int) == left);
    assert((front + middle + rest).skip(front.len() as int) == middle + rest);
}

/// A string that was written is read back, whatever stands in front of it and
/// follows it. The last bytes written are its UTF-8, and what stands in front
/// of these is their number.
pub proof fn law_string_exchange(
    text: &str,
    out: &mut BytesMut,
    done: Result<(), PacketError>,
    buf: &mut Bytes,
    read: Result<String, PacketError>,
    rest: Seq<u8>,
)
    requires
        encode_utf8(text@).len() < 0x1_0000_0000,
        call_ensures(write_string, (text, out), done),
        call_ensures(read_string, (buf,), read),
        written(*final(out)) + rest == written(*old(out)) + content(*old(buf)),
    ensures
        read matches Ok(read) && read@ == text@,
        content(*final(buf)) == rest,
        var_int_value(content(*old(buf))) == Ok::<u32, PacketError>(
            encode_utf8(text@).len() as u32,
        ),
        var_int_rest(content(*old(buf))) == encode_utf8(text@) + rest,
{
    let utf8 = encode_utf8(text@);
    lemma_behind(written(*old(out)), content(*old(buf)), string_bytes(text@), rest);
    law_string_round_trip(text@, rest);
    law_string_write(text@);
    assert(content(*old(buf)) == var_int_bytes(utf8.len()) + (utf8 + rest));
    law_var_int_round_trip(utf8.len() as u32, utf8 + rest);
}

/// The length in front of a packet that was framed is the number of bytes that
/// follow it, and these, taken apart, are the identifier and the payload that
/// were framed.
pub proof fn law_packet_exchange(
    protocol: u32,
    payload: Bytes,
    packet: Result<BytesMut, PacketError>,
    body: BytesMut,
    taken: Result<(u32, Bytes), PacketError>,
)
    requires
        call_ensures(encode_packet, (protocol, &payload), packet),
        packet matches Ok(packet) ==> written(body) == var_int_rest(written(packet)),
        call_ensures(decode_packet, (body,), taken),
    ensures
        packet matches Ok(packet) && var_int_value(written(packet)) == Ok::<u32, PacketError>(
            (written(body).len() % 0x1_0000_0000) as u32,
        ),
        taken matches Ok((id, rest)) && id == protocol && content(rest) == content(payload),
{
    law_packet_layout(protocol, content(payload));
}

/// A reader of lengths that is given a packet byte by byte has the length after
/// the first byte below 128, and it is the one that was framed: here for
/// packets whose length takes one byte, and for those whose length takes two.
pub proof fn law_length_exchange(
    protocol: u32,
    payload: Bytes,
    packet: Result<BytesMut, PacketError>,
    fresh: PacketLengthReader,
    reader: &mut PacketLengthReader,
    first: Result<Option<u32>, PacketError>,
    later: &mut PacketLengthReader,
    second: Result<Option<u32>, PacketError>,
)
    requires
        content(payload).len() < 0x3000,
        call_ensures(encode_packet, (protocol, &payload), packet),
        call_ensures(PacketLengthReader::new, (), fresh),
        old(reader)@ == fresh@,
        old(later)@ == final(reader)@,
        packet matches Ok(packet) ==> {
            &&& call_ensures(PacketLengthReader::push, (reader, written(packet)[0]), first)
            &&& call_ensures(PacketLengthReader::push, (later, written(packet)[1]), second)
        },
    ensures
        packet matches Ok(packet) && {
            let length = var_int_rest(written(packet)).len();
            &&& length < 128 ==> first == Ok::<Option<u32>, PacketError>(Some(length as u32))
            &&& length >= 128 ==> {
                &&& first == Ok::<Option<u32>, PacketError>(None)
                &&& second == Ok::<Option<u32>, PacketError>(Some(length as u32))
            }
        },
{
    let bytes = packet_bytes(protocol, content(payload));
    let length = var_int_rest(bytes).len();
    law_packet_layout(protocol, content(payload));
    law_var_int_len(protocol);
    law_length_byte_by_byte(bytes[0], bytes[1], 0, 0, 0);
    reveal_with_fuel(var_int_bytes, 3);
    assert(bytes[0] == var_int_bytes(length)[0]);
    assert(length >= 128 ==> bytes[1] == var_int_bytes(length)[1]);
}

/// The room that is made for a packet is as long as the length says.
pub proof fn law_room_for_a_packet(packet_length: u32, buffer: BytesMut)
    requires
        packet_length <= isize::MAX,
        call_ensures(packet_buffer, (packet_length,), buffer),
    ensures
        written(buffer).len() == packet_length,
        forall|i: int| 0 <= i < packet_length ==> #[trigger] written(buffer)[i] == 0,
{
}

/// A handshake of a client is read as it was meant, whatever its server's
/// address is and however long.
pub proof fn law_handshake_exchange(
    protocol_version: u32,
    server_address: Seq<char>,
    server_port: u16,
    next_state: State,
    buf: &mut Bytes,
    read: Result<HandshakePacket, PacketError>,
    rest: Seq<u8>,
)
    requires
        encode_utf8(server_address).len() < 0x1_0000_0000,
        next_state == State::Status || next_state == State::Login,
        content(*old(buf)) == var_int_bytes(protocol_version as nat) + string_bytes(server_address)
            + be_bytes(server_port as nat, 2) + seq![
            if next_state == State::Status {
                1u8
            } else {
                2u8
            },
        ] + rest,
        call_ensures(handle_handshake, (buf,), read),
    ensures
        read matches Ok(handshake) && {
            &&& handshake.protocol_version == protocol_version
            &&& handshake.server_address@ == server_address
            &&& handshake.server_port == server_port
            &&& handshake.next_state == next_state
        },
        content(*final(buf)) == rest,
{
    let number: u32 = if next_state == State::Status {
        1
    } else {
        2
    };
    assert(var_int_bytes(number as nat) == seq![number as u8]);
    law_handshake_round_trip(protocol_version, server_address, server_port, number, rest);
}

/// What a handshake leads to is the state that it asks for, and what is wrong
/// with one ends it, whichever of the two functions takes it.
pub proof fn law_handshake_leads_where_it_asks(
    buf: &mut Bytes,
    read: Result<HandshakePacket, PacketError>,
    other: &mut Bytes,
    state: Result<State, PacketError>,
)
    requires
        content(*old(buf)) == content(*old(other)),
        call_ensures(handle_handshake, (buf,), read),
        call_ensures(handshake_state, (other,), state),
    ensures
        state == match read {
            Ok(handshake) => Ok::<State, PacketError>(handshake.next_state),
            Err(error) => Err(error),
        },
        content(*final(other)) == content(*final(buf)),
{
}

/// A player who asks to log in gets the confirmation that is made for their
/// name and UUID, and goes on to the configuration, unless the name takes more
/// than `isize::MAX - 32` bytes.
pub proof fn law_login_state_confirms(
    name: Seq<char>,
    uuid: PlayerUuid,
    buf: &mut Bytes,
    step: Result<Option<(State, BytesMut)>, PacketError>,
    rest: Seq<u8>,
)
    requires
        encode_utf8(name).len() < 0x1_0000_0000,
        encode_utf8(name).len() <= isize::MAX - 32,
        content(*old(buf)) == string_bytes(name) + uuid_bytes(uuid) + rest,
        call_ensures(login_state, (buf,), step),
    ensures
        step matches Ok(Some((state, packet))) && {
            &&& state == State::Config
            &&& written(packet) == packet_bytes(
                2,
                uuid_bytes(uuid) + string_bytes(name) + seq![0u8],
            )
        },
        content(*final(buf)) == rest,
{
    let payload = login_success_payload(name, uuid);
    law_login_round_trip(name, uuid, rest);
    law_login_success_payload(name, uuid);
    assert(payload == payload.take(16) + payload.skip(16));
    assert(payload == uuid_bytes(uuid) + string_bytes(name) + seq![0u8]);
}

/// A login request that was read is confirmed to the player by the packet 2,
/// which holds the sixteen bytes of the UUID as they came, the name as it was
/// read, and nothing more but a zero.
pub proof fn law_login_exchange(
    name: &str,
    uuid: PlayerUuid,
    buf: &mut Bytes,
    read: Result<(String, PlayerUuid), PacketError>,
    packet: Result<BytesMut, PacketError>,
    body: BytesMut,
    taken: Result<(u32, Bytes), PacketError>,
)
    requires
        encode_utf8(name@).len() < 0x1_0000_0000,
        content(*old(buf)) == string_bytes(name@) + uuid_bytes(uuid),
        call_ensures(handle_login_client, (buf,), read),
        call_ensures(login_success, (name, uuid), packet),
        packet matches Ok(packet) ==> written(body) == var_int_rest(written(packet)),
        call_ensures(decode_packet, (body,), taken),
    ensures
        read matches Ok((player, id)) && player@ == name@ && id == uuid,
        packet is Ok,
        taken matches Ok((id, payload)) && {
            &&& id == 2
            &&& content(payload) == uuid_bytes(uuid) + string_bytes(name@) + seq![0u8]
        },
{
    let payload = login_success_payload(name@, uuid);
    assert(content(*old(buf)) == string_bytes(name@) + uuid_bytes(uuid) + Seq::<u8>::empty());
    law_login_round_trip(name@, uuid, Seq::empty());
    law_login_success_payload(name@, uuid);
    law_packet_layout(2, payload);
    assert(payload == payload.take(16) + payload.skip(16));
}

/// In the login state every request that can be read is confirmed and leads to
/// the configuration, whoever the player is, unless the name takes more than
/// `isize::MAX - 32` bytes. The UUID that comes back is the one that was sent.
pub proof fn law_login_goes_on(
    current_state: &mut CurrentState,
    buf: &mut Bytes,
    packets: Result<Option<Vec<BytesMut>>, PacketError>,
    name: Seq<char>,
    uuid: PlayerUuid,
)
    requires
        old(current_state)@ == State::Login,
        encode_utf8(name).len() < 0x1_0000_0000,
        encode_utf8(name).len() <= isize::MAX - 32,
        content(*old(buf)) == string_bytes(name) + uuid_bytes(uuid),
        call_ensures(handle_connection, (current_state, buf), packets),
    ensures
        final(current_state)@ == State::Config,
        packets matches Ok(Some(packets)) && {
            &&& packets@.len() == 2
            &&& written(packets@[0]) == packet_bytes(
                2,
                uuid_bytes(uuid) + string_bytes(name) + seq![0u8],
            )
            &&& written(packets@[1]) == seq![1u8, 3u8]
        },
{
    let bytes = content(*old(buf));
    assert(bytes == string_bytes(name) + uuid_bytes(uuid) + Seq::<u8>::empty());
    law_login_round_trip(name, uuid, Seq::empty());
    law_string_round_trip(name, uuid_bytes(uuid));
    law_uuid_write(uuid);
    assert(uuid_bytes(uuid).take(16) == uuid_bytes(uuid));
    law_login_is_confirmed(bytes);
    if let Ok(Some(packets)) = packets {
        law_all_written(packets@);
    }
}

/// In the configuration state any packet, be it empty, leads to the play state
/// and is left as it is; two connections there are answered alike, whatever
/// each of them received.
pub proof fn law_configuration_looks_at_nothing(
    one_state: &mut CurrentState,
    one_buf: &mut Bytes,
    one: Result<Option<Vec<BytesMut>>, PacketError>,
    two_state: &mut CurrentState,
    two_buf: &mut Bytes,
    two: Result<Option<Vec<BytesMut>>, PacketError>,
)
    requires
        old(one_state)@ == State::Config,
        old(two_state)@ == State::Config,
        call_ensures(handle_connection, (one_state, one_buf), one),
        call_ensures(handle_connection, (two_state, two_buf), two),
    ensures
        final(one_state)@ == State::Play,
        content(*final(one_buf)) == content(*old(one_buf)),
        one matches Ok(Some(one)) && two matches Ok(Some(two)) && {
            &&& one@.len() == 2
            &&& two@.len() == 2
            &&& written(one@[0]) == written(two@[0])
            &&& written(one@[1]) == written(two@[1])
        },
{
}

/// After a request the client is accepted if it sends back the eight bytes
/// that the request ends with, and refused if it sends any others, and a
/// refusal changes nothing. Either way the number asked for stays the same.
pub proof fn law_keep_alive_exchange(
    state: &mut KeepAliveState,
    request: Result<(u64, BytesMut), PacketError>,
    buf: &mut Bytes,
    later: &mut KeepAliveState,
    accepted: Result<(), PacketError>,
)
    requires
        call_ensures(next_keep_alive, (state,), request),
        old(later).current_id() == final(state).current_id(),
        content(*old(buf)).len() >= 8,
        call_ensures(handle_keep_alive, (buf, later), accepted),
    ensures
        request matches Ok((id, packet)) && {
            &&& written(packet).len() == 10
            &&& accepted is Ok <==> content(*old(buf)).take(8) == written(packet).skip(2)
        },
        accepted matches Err(error) ==> {
            &&& error == PacketError::KeepAliveMismatch
            &&& *final(later) == *old(later)
        },
        final(later).current_id() == old(later).current_id(),
        content(*final(buf)) == content(*old(buf)).skip(8),
{
    let (id, packet) = request->Ok_0;
    let answer = content(*old(buf)).take(8);
    lemma_request_frame(id);
    lemma_be_bytes_len(id as nat, 8);
    assert(written(packet).skip(2) == be_bytes(id as nat, 8));
    law_be_bytes_of_value(answer);
    assert(id < pow(256, 8)) by {
        reveal_with_fuel(pow, 9);
    }
    law_be_value_of_bytes(id as nat, 8);
}

/// The number that was noted last is the one that is asked for, and a
/// connection is alive for 30 seconds after an answer and no longer.
pub proof fn law_noted_numbers_and_times(
    state: &mut KeepAliveState,
    value: u64,
    id: u64,
    elapsed_nanos: u128,
    alive: bool,
)
    requires
        call_ensures(KeepAliveState::set, (state, value), ()),
        call_ensures(KeepAliveState::get_current, (&*final(state),), id),
        call_ensures(KeepAliveState::is_alive_after, (elapsed_nanos,), alive),
    ensures
        id == value,
        final(state).last_response() == old(state).last_response(),
        alive <==> elapsed_nanos < 30_000_000_000,
{
}

/// An answer counts exactly if it is the number last sent. It then moves the
/// time of the last answer to when it came; otherwise nothing changes.
pub proof fn law_acknowledgement(
    state: &mut KeepAliveState,
    client_id: u64,
    now: Instant,
    accepted: Result<(), PacketError>,
)
    requires
        call_ensures(KeepAliveState::acknowledge, (state, client_id, now), accepted),
    ensures
        accepted is Ok <==> client_id == old(state).current_id(),
        accepted is Ok ==> final(state).last_response() == now,
        accepted matches Err(error) ==> {
            &&& error == PacketError::KeepAliveMismatch
            &&& *final(state) == *old(state)
        },
        final(state).current_id() == old(state).current_id(),
        final(state).generator() == old(state).generator(),
{
}

/// In the play state the packet 0x1A, and no other, is taken for an answer to
/// a request. Any other is left alone, and leaves the keep-alives alone.
pub proof fn law_play_packets(
    prot: u32,
    buf: &mut Bytes,
    state: &mut KeepAliveState,
    packet: Result<PlayPacket, PacketError>,
)
    requires
        prot == 0x1A ==> content(*old(buf)).len() >= 8,
        call_ensures(handle_play_packet, (prot, buf, state), packet),
    ensures
        prot != 0x1A ==> {
            &&& packet == Ok::<PlayPacket, PacketError>(PlayPacket::Unrecognized(prot))
            &&& *final(state) == *old(state)
            &&& *final(buf) == *old(buf)
        },
        prot == 0x1A ==> {
            &&& packet == Ok::<PlayPacket, PacketError>(PlayPacket::KeepAlive) <==> be_value(
                content(*old(buf)).take(8),
            ) == old(state).current_id()
            &&& packet is Err ==> {
                &&& packet == Err::<PlayPacket, PacketError>(PacketError::KeepAliveMismatch)
                &&& *final(state) == *old(state)
            }
            &&& final(state).current_id() == old(state).current_id()
            &&& final(state).generator() == old(state).generator()
        },
{
}

/// The loop that sends keep-alives goes on after every request that was sent,
/// whatever number it carried: it waits for 15 seconds and makes another one.
pub proof fn law_keep_alives_go_on(
    state: &mut KeepAliveState,
    first: Result<KeepAliveAction, PacketError>,
    later: &mut KeepAliveState,
    second: Result<KeepAliveAction, PacketError>,
)
    requires
        call_ensures(keep_alive_step, (state, KeepAliveEvent::Sent), first),
        call_ensures(keep_alive_step, (later, KeepAliveEvent::Waited), second),
    ensures
        first == Ok::<KeepAliveAction, PacketError>(KeepAliveAction::Wait(15)),
        *final(state) == *old(state),
        second matches Ok(KeepAliveAction::Send(id, _)) && final(later).current_id() == id,
{
}

/// The loop that watches for silence waits before it first looks. A look ends
/// it exactly if the clock shows 30 seconds or more since the last answer, and
/// otherwise makes it wait for 5 seconds again.
pub proof fn law_watch_goes_on(
    state: KeepAliveState,
    first: MonitorAction,
    second: MonitorAction,
    alive: bool,
)
    requires
        call_ensures(monitor_step, (&state, false), first),
        call_ensures(monitor_step, (&state, true), second),
        call_ensures(KeepAliveState::is_connection_alive, (&state,), alive),
    ensures
        first == MonitorAction::Wait(5),
        exists|nanos: u128| #[trigger]
            elapsed_reading(state.last_response(), nanos) && second == if nanos < 30_000_000_000 {
                MonitorAction::Wait(5)
            } else {
                MonitorAction::Stop
            },
        exists|nanos: u128| #[trigger]
            elapsed_reading(state.last_response(), nanos) && alive == (nanos < 30_000_000_000),
{
}

/// A connection starts with nothing sent, at the time that the clock shows.
/// Drawing a number takes it from the generator and does not note it as sent;
/// an answer is noted at the time that the clock shows.
pub proof fn law_numbers_and_times_come_from_outside(
    fresh: KeepAliveState,
    state: &mut KeepAliveState,
    id: u64,
    other: &mut KeepAliveState,
)
    requires
        call_ensures(KeepAliveState::new, (), fresh),
        call_ensures(KeepAliveState::generate_id, (state,), id),
        call_ensures(KeepAliveState::update_last_response, (other,), ()),
    ensures
        fresh.current_id() == 0,
        clock_reading(fresh.last_response()),
        freshly_seeded(fresh.generator()),
        drawn_from(old(state).generator(), id),
        final(state).current_id() == old(state).current_id(),
        final(state).last_response() == old(state).last_response(),
        clock_reading(final(other).last_response()),
        final(other).current_id() == old(other).current_id(),
        final(other).generator() == old(other).generator(),
{
}

/// What puts a player into the world, and what puts it at its place, is
/// appended whatever a buffer holds: what is there stays, and what comes is
/// the same for every player.
pub proof fn law_players_start_alike(
    one: &mut BytesMut,
    one_done: Result<(), PacketError>,
    two: &mut BytesMut,
    two_done: Result<(), PacketError>,
    three: &mut BytesMut,
    three_done: Result<(), PacketError>,
    four: &mut BytesMut,
    four_done: Result<(), PacketError>,
)
    requires
        call_ensures(handle_play_login, (one,), one_done),
        call_ensures(handle_play_login, (two,), two_done),
        call_ensures(handle_player_position, (three,), three_done),
        call_ensures(handle_player_position, (four,), four_done),
    ensures
        one_done is Ok && two_done is Ok && three_done is Ok && four_done is Ok,
        written(*final(one)).len() == written(*old(one)).len() + 108,
        written(*final(one)).take(written(*old(one)).len() as int) == written(*old(one)),
        written(*final(one)).skip(written(*old(one)).len() as int) == written(*final(two)).skip(
            written(*old(two)).len() as int,
        ),
        written(*final(three)).len() == written(*old(three)).len() + 62,
        written(*final(three)).take(written(*old(three)).len() as int) == written(*old(three)),
        written(*final(three)).skip(written(*old(three)).len() as int) == written(
            *final(four),
        ).skip(written(*old(four)).len() as int),
{
    lemma_payload_lens();
}

/// Sixteen bytes that are read as a UUID are the ones that it is written as,
/// and two bytes that are read as a number are the ones that spell it.
pub proof fn law_fixed_fields_keep_their_bytes(
    buf: &mut Bytes,
    uuid: Result<PlayerUuid, PacketError>,
    other: &mut Bytes,
    short: Result<u16, PacketError>,
)
    requires
        call_ensures(read_uuid, (buf,), uuid),
        call_ensures(read_unsigned_short, (other,), short),
    ensures
        uuid is Ok <==> content(*old(buf)).len() >= 16,
        uuid matches Ok(uuid) ==> content(*old(buf)) == uuid_bytes(uuid) + content(*final(buf)),
        uuid is Err ==> content(*final(buf)) == content(*old(buf)),
        short is Ok <==> content(*old(other)).len() >= 2,
        short matches Ok(short) ==> content(*old(other)) == seq![
            (short / 256) as u8,
            (short % 256) as u8,
        ] + content(*final(other)),
        short is Err ==> content(*final(other)) == content(*old(other)),
{
    if uuid is Ok {
        law_uuid_keeps_bytes(content(*old(buf)));
    }
    law_short_read(content(*old(other)));
}

} // verus!
