//! The packets that bring a player in: handshake, login and configuration.

use bytes::{Bytes, BytesMut};
use vstd::prelude::*;
use vstd::utf8::encode_utf8;

use crate::big_endian::{be_bytes, lemma_be_bytes_len};
use crate::buffer::{content, put_u64, written};
use crate::error::PacketError;
use crate::fields::{
    law_short_round_trip, law_string_round_trip, law_uuid_keeps_bytes, law_uuid_round_trip,
    law_uuid_write,
    read_string, read_unsigned_short, read_uuid, short_at, string_at, string_bytes, uuid_at,
    uuid_bytes, write_string, PlayerUuid,
};
use crate::packet::{encode_packet, law_packet_len, law_short_packet, packet_bytes};
use crate::state::State;
use crate::var_int::{
    law_var_int_len, law_var_int_round_trip, read_var_int, var_int_bytes, var_int_rest,
    var_int_value, write_var_int,
};

verus! {

/// The packet that tells a client that it is logged in.
pub const LOGIN_SUCCESS: u32 = 0x02;

/// The packet that ends the configuration.
pub const FINISH_CONFIGURATION: u32 = 3;

/// The first packet of a client.
#[derive(Debug)]
pub struct HandshakePacket {
    pub protocol_version: u32,
    pub server_address: String,
    pub server_port: u16,
    pub next_state: State,
}

/// What a handshake says.
pub struct Handshake {
    pub protocol_version: u32,
    pub server_address: Seq<char>,
    pub server_port: u16,
    pub next_state: State,
}

impl View for HandshakePacket {
    type V = Handshake;

    open spec fn view(&self) -> Handshake {
        Handshake {
            protocol_version: self.protocol_version,
            server_address: self.server_address@,
            server_port: self.server_port,
            next_state: self.next_state,
        }
    }
}

/// The state that a handshake asks for by number.
pub open spec fn requested_state(value: u32) -> Result<State, PacketError> {
    if value == 1 {
        Ok(State::Status)
    } else if value == 2 {
        Ok(State::Login)
    } else {
        Err(PacketError::InvalidState(value))
    }
}

/// Reads a handshake off the front of `bytes`: a VarInt, a string, a two-byte
/// number and a VarInt, in this order. The first of them that cannot be read
/// ends it.
pub open spec fn handshake_at(bytes: Seq<u8>) -> (Result<Handshake, PacketError>, Seq<u8>) {
    let behind_version = var_int_rest(bytes);
    let (server_address, behind_address) = string_at(behind_version);
    let (server_port, behind_port) = short_at(behind_address);
    let end = var_int_rest(behind_port);
    match var_int_value(bytes) {
        Err(error) => (Err(error), behind_version),
        Ok(protocol_version) => match server_address {
            Err(error) => (Err(error), behind_address),
            Ok(server_address) => match server_port {
                Err(error) => (Err(error), behind_port),
                Ok(server_port) => match var_int_value(behind_port) {
                    Err(error) => (Err(error), end),
                    Ok(value) => match requested_state(value) {
                        Err(error) => (Err(error), end),
                        Ok(next_state) => (
                            Ok(
                                Handshake {
                                    protocol_version,
                                    server_address,
                                    server_port,
                                    next_state,
                                },
                            ),
                            end,
                        ),
                    },
                },
            },
        },
    }
}

/// Reads a login request off the front of `bytes`: a name and a UUID.
pub open spec fn login_at(bytes: Seq<u8>) -> (
    Result<(Seq<char>, PlayerUuid), PacketError>,
    Seq<u8>,
) {
    let (name, behind_name) = string_at(bytes);
    let (uuid, end) = uuid_at(behind_name);
    match name {
        Err(error) => (Err(error), behind_name),
        Ok(name) => match uuid {
            Err(error) => (Err(error), end),
            Ok(uuid) => (Ok((name, uuid)), end),
        },
    }
}

/// The payload that confirms a login: the UUID, the name and an empty list of
/// properties.
pub open spec fn login_success_payload(name: Seq<char>, uuid: PlayerUuid) -> Seq<u8> {
    uuid_bytes(uuid) + string_bytes(name) + var_int_bytes(0)
}

/// Whether the confirmation for a player of this name can be held: it takes at
/// most 32 bytes more than the name.
pub open spec fn can_confirm(name: Seq<char>) -> bool {
    encode_utf8(name).len() + 32 <= isize::MAX
}

/// Takes a handshake off the front of `buf`.
pub fn handle_handshake(buf: &mut Bytes) -> (handshake: Result<HandshakePacket, PacketError>)
    ensures
        handshake matches Ok(packet) ==> handshake_at(content(*old(buf))).0 == Ok::<
            Handshake,
            PacketError,
        >(packet@),
        handshake matches Err(error) ==> handshake_at(content(*old(buf))).0 == Err::<
            Handshake,
            PacketError,
        >(error),
        content(*final(buf)) == handshake_at(content(*old(buf))).1,
{
    let protocol_version: u32 = match read_var_int(buf) {
        Ok(value) => value,
        Err(error) => return Err(error),
    };
    let server_address = match read_string(buf) {
        Ok(value) => value,
        Err(error) => return Err(error),
    };
    let server_port: u16 = match read_unsigned_short(buf) {
        Ok(value) => value,
        Err(error) => return Err(error),
    };
    let next_state_value: u32 = match read_var_int(buf) {
        Ok(value) => value,
        Err(error) => return Err(error),
    };
    let next_state = match next_state_value {
        1 => State::Status,
        2 => State::Login,
        _ => return Err(PacketError::InvalidState(next_state_value)),
    };
    Ok(HandshakePacket { protocol_version, server_address, server_port, next_state })
}

/// Takes a login request off the front of `buf`.
pub fn handle_login_client(buf: &mut Bytes) -> (login: Result<(String, PlayerUuid), PacketError>)
    ensures
        login matches Ok((name, uuid)) ==> login_at(content(*old(buf))).0 == Ok::<
            (Seq<char>, PlayerUuid),
            PacketError,
        >((name@, uuid)),
        login matches Err(error) ==> login_at(content(*old(buf))).0 == Err::<
            (Seq<char>, PlayerUuid),
            PacketError,
        >(error),
        content(*final(buf)) == login_at(content(*old(buf))).1,
{
    let name = match read_string(buf) {
        Ok(name) => name,
        Err(error) => return Err(error),
    };
    let uuid = match read_uuid(buf) {
        Ok(uuid) => uuid,
        Err(error) => return Err(error),
    };
    Ok((name, uuid))
}

/// The confirmation of a login is little longer than the name.
proof fn lemma_login_success_len(name: Seq<char>, uuid: PlayerUuid)
    ensures
        login_success_payload(name, uuid).len() <= encode_utf8(name).len() + 22,
{
    lemma_be_bytes_len(uuid.high as nat, 8);
    lemma_be_bytes_len(uuid.low as nat, 8);
    law_var_int_len((encode_utf8(name).len() % 0x1_0000_0000) as u32);
}

/// Frames the packet that confirms a login.
pub fn login_success(name: &str, uuid: PlayerUuid) -> (packet: Result<BytesMut, PacketError>)
    requires
        can_confirm(name@),
    ensures
        packet matches Ok(packet) && written(packet) == packet_bytes(
            LOGIN_SUCCESS,
            login_success_payload(name@, uuid),
        ),
{
    proof {
        lemma_login_success_len(name@, uuid);
        law_packet_len(LOGIN_SUCCESS, login_success_payload(name@, uuid));
        lemma_be_bytes_len(uuid.high as nat, 8);
        lemma_be_bytes_len(uuid.low as nat, 8);
    }
    let mut buf = BytesMut::with_capacity(name.as_bytes().len() + 32);
    put_u64(&mut buf, uuid.high);
    put_u64(&mut buf, uuid.low);
    match write_string(name, &mut buf) {
        Ok(_) => {},
        Err(error) => return Err(error),
    }
    match write_var_int(0, &mut buf) {
        Ok(_) => {},
        Err(error) => return Err(error),
    }
    assert(written(buf) == login_success_payload(name@, uuid));
    encode_packet(LOGIN_SUCCESS, &buf.freeze())
}

/// Answers the packet that a client sends first: the state that it asks for.
pub fn handshake_state(buf: &mut Bytes) -> (state: Result<State, PacketError>)
    ensures
        state == match handshake_at(content(*old(buf))).0 {
            Ok(handshake) => Ok::<State, PacketError>(handshake.next_state),
            Err(error) => Err(error),
        },
        content(*final(buf)) == handshake_at(content(*old(buf))).1,
{
    match handle_handshake(buf) {
        Ok(handshake_packet) => Ok(handshake_packet.next_state),
        Err(error) => Err(error),
    }
}

/// Answers a login request: the state that follows, and the packet that
/// confirms the login. `None` says that this packet cannot be held.
pub fn login_state(buf: &mut Bytes) -> (step: Result<Option<(State, BytesMut)>, PacketError>)
    ensures
        match login_at(content(*old(buf))).0 {
            Err(error) => step == Err::<Option<(State, BytesMut)>, PacketError>(error),
            Ok((name, uuid)) => if can_confirm(name) {
                step matches Ok(Some((state, packet))) && {
                    &&& state == State::Config
                    &&& written(packet) == packet_bytes(
                        LOGIN_SUCCESS,
                        login_success_payload(name, uuid),
                    )
                }
            } else {
                step == Ok::<Option<(State, BytesMut)>, PacketError>(None)
            },
        },
        step is Ok <==> login_at(content(*old(buf))).0 is Ok,
        login_at(content(*old(buf))).0 matches Ok((name, _)) ==> (step matches Ok(Some(_)) <==>
            encode_utf8(name).len() <= isize::MAX - 32),
        content(*final(buf)) == login_at(content(*old(buf))).1,
{
    let (name, uuid) = match handle_login_client(buf) {
        Ok(login) => login,
        Err(error) => return Err(error),
    };
    let len: usize = name.as_str().as_bytes().len();
    if len > isize::MAX as usize - 32 {
        return Ok(None);
    }
    match login_success(name.as_str(), uuid) {
        Ok(packet) => Ok(Some((State::Config, packet))),
        Err(error) => Err(error),
    }
}

/// Frames the packet that ends the configuration. The client's answer to it
/// leads to `State::Play`.
pub fn config_state() -> (packet: Result<BytesMut, PacketError>)
    ensures
        packet matches Ok(packet) && written(packet) == packet_bytes(
            FINISH_CONFIGURATION,
            Seq::empty(),
        ),
{
    let payload = Bytes::new();
    proof {
        law_packet_len(FINISH_CONFIGURATION, content(payload));
    }
    encode_packet(FINISH_CONFIGURATION, &payload)
}

/// A handshake is read back from its fields, whatever follows, and refused
/// exactly when it asks for a state other than status and login.
pub proof fn law_handshake_round_trip(
    protocol_version: u32,
    server_address: Seq<char>,
    server_port: u16,
    next_state: u32,
    rest: Seq<u8>,
)
    requires
        encode_utf8(server_address).len() < 0x1_0000_0000,
    ensures
        handshake_at(
            var_int_bytes(protocol_version as nat) + string_bytes(server_address) + be_bytes(
                server_port as nat,
                2,
            ) + var_int_bytes(next_state as nat) + rest,
        ) == (
            match requested_state(next_state) {
                Ok(next_state) => Ok::<Handshake, PacketError>(
                    Handshake { protocol_version, server_address, server_port, next_state },
                ),
                Err(error) => Err(error),
            },
            rest,
        ),
{
    let version = var_int_bytes(protocol_version as nat);
    let address = string_bytes(server_address);
    let port = be_bytes(server_port as nat, 2);
    let state = var_int_bytes(next_state as nat);
    let bytes = version + address + port + state + rest;
    assert(bytes == version + (address + (port + (state + rest))));
    law_var_int_round_trip(protocol_version, address + (port + (state + rest)));
    law_string_round_trip(server_address, port + (state + rest));
    law_short_round_trip(server_port, state + rest);
    law_var_int_round_trip(next_state, rest);
}

/// A login request is read back from its fields, whatever follows.
pub proof fn law_login_round_trip(name: Seq<char>, uuid: PlayerUuid, rest: Seq<u8>)
    requires
        encode_utf8(name).len() < 0x1_0000_0000,
    ensures
        login_at(string_bytes(name) + uuid_bytes(uuid) + rest) == (
            Ok::<(Seq<char>, PlayerUuid), PacketError>((name, uuid)),
            rest,
        ),
{
    let bytes = string_bytes(name) + uuid_bytes(uuid) + rest;
    assert(bytes == string_bytes(name) + (uuid_bytes(uuid) + rest));
    law_string_round_trip(name, uuid_bytes(uuid) + rest);
    law_uuid_round_trip(uuid, rest);
}

/// The confirmation of a login gives the client back the very bytes of the
/// UUID that it sent, followed by the name that was read.
pub proof fn law_login_success_echoes(bytes: Seq<u8>)
    requires
        login_at(bytes).0 is Ok,
    ensures
        login_at(bytes).0 matches Ok((name, uuid)) && login_success_payload(name, uuid)
            == string_at(bytes).1.take(16) + string_bytes(name) + seq![0u8],
{
    law_uuid_keeps_bytes(string_at(bytes).1);
}

/// Every player whose name leaves room for the 32 bytes around it can be
/// confirmed, and no other.
pub proof fn law_names_that_can_be_confirmed(name: Seq<char>)
    ensures
        can_confirm(name) <==> encode_utf8(name).len() <= isize::MAX - 32,
{
}

/// A handshake asks for the status by 1 and for the login by 2. Every other
/// number is refused, and the refusal names it.
pub proof fn law_requested_states(value: u32)
    ensures
        requested_state(value) == Ok::<State, PacketError>(State::Status) <==> value == 1,
        requested_state(value) == Ok::<State, PacketError>(State::Login) <==> value == 2,
        value != 1 && value != 2 ==> requested_state(value) == Err::<State, PacketError>(
            PacketError::InvalidState(value),
        ),
{
}

/// A handshake is accepted exactly if its four fields can be read one behind
/// the other and the last of them is 1 or 2. It then holds what the fields
/// hold, and ends where the last of them does. Otherwise the error is that of
/// the first field that fails, and nothing behind that field is taken off.
pub proof fn law_handshake_read(bytes: Seq<u8>)
    ensures
        ({
            let version = var_int_value(bytes);
            let (address, behind_address) = string_at(var_int_rest(bytes));
            let (port, behind_port) = short_at(behind_address);
            let state = var_int_value(behind_port);
            let (read, rest) = handshake_at(bytes);
            &&& read is Ok <==> {
                &&& version is Ok
                &&& address is Ok
                &&& port is Ok
                &&& state matches Ok(number) && (number == 1 || number == 2)
            }
            &&& read matches Ok(handshake) ==> {
                &&& version == Ok::<u32, PacketError>(handshake.protocol_version)
                &&& address == Ok::<Seq<char>, PacketError>(handshake.server_address)
                &&& port == Ok::<u16, PacketError>(handshake.server_port)
                &&& state == Ok::<u32, PacketError>(1) ==> handshake.next_state == State::Status
                &&& state == Ok::<u32, PacketError>(2) ==> handshake.next_state == State::Login
                &&& rest == var_int_rest(behind_port)
            }
            &&& version matches Err(error) ==> read == Err::<Handshake, PacketError>(error)
                && rest == var_int_rest(bytes)
            &&& version is Ok ==> (address matches Err(error) ==> read == Err::<
                Handshake,
                PacketError,
            >(error) && rest == behind_address)
            &&& version is Ok && address is Ok ==> (port matches Err(error) ==> read == Err::<
                Handshake,
                PacketError,
            >(error) && rest == behind_port)
            &&& version is Ok && address is Ok && port is Ok ==> (state matches Err(error) ==> read
                == Err::<Handshake, PacketError>(error) && rest == var_int_rest(behind_port))
            &&& version is Ok && address is Ok && port is Ok ==> (state matches Ok(number) ==> (
            number != 1 && number != 2 ==> read == Err::<Handshake, PacketError>(
                PacketError::InvalidState(number),
            ) && rest == var_int_rest(behind_port)))
        }),
{
}

/// A login request is accepted exactly if a string and a UUID behind it can be
/// read. They are the name and the UUID of the player. Otherwise the error is
/// that of the first that fails.
pub proof fn law_login_read(bytes: Seq<u8>)
    ensures
        ({
            let (name, behind_name) = string_at(bytes);
            let (uuid, end) = uuid_at(behind_name);
            let (read, rest) = login_at(bytes);
            &&& read is Ok <==> name is Ok && uuid is Ok
            &&& read matches Ok((player, id)) ==> {
                &&& name == Ok::<Seq<char>, PacketError>(player)
                &&& uuid == Ok::<PlayerUuid, PacketError>(id)
                &&& rest == end
            }
            &&& name matches Err(error) ==> read == Err::<(Seq<char>, PlayerUuid), PacketError>(
                error,
            ) && rest == behind_name
            &&& name is Ok ==> (uuid matches Err(error) ==> read == Err::<
                (Seq<char>, PlayerUuid),
                PacketError,
            >(error) && rest == behind_name)
        }),
{
}

/// A login is confirmed by the UUID of the player, the name, with the length
/// of its UTF-8 in front, and a zero, whatever the name is.
pub proof fn law_login_success_payload(name: Seq<char>, uuid: PlayerUuid)
    ensures
        ({
            let payload = login_success_payload(name, uuid);
            &&& payload.take(16) == uuid_bytes(uuid)
            &&& payload.skip(16) == string_bytes(name) + seq![0u8]
        }),
{
    law_uuid_write(uuid);
}

/// The packet that confirms a login, byte by byte, for every name of up to 108
/// bytes of UTF-8: its length, its identifier 2, the UUID, the length of the
/// name, the name, and a zero.
pub proof fn law_login_success_frame(name: Seq<char>, uuid: PlayerUuid)
    requires
        encode_utf8(name).len() <= 108,
    ensures
        packet_bytes(LOGIN_SUCCESS, login_success_payload(name, uuid)) == seq![
            (encode_utf8(name).len() + 19) as u8,
            2u8,
        ] + uuid_bytes(uuid) + seq![encode_utf8(name).len() as u8] + encode_utf8(name) + seq![0u8],
{
    let utf8 = encode_utf8(name);
    let payload = login_success_payload(name, uuid);
    law_uuid_write(uuid);
    assert(var_int_bytes(utf8.len()) == seq![utf8.len() as u8]);
    assert(payload == uuid_bytes(uuid) + seq![utf8.len() as u8] + utf8 + seq![0u8]);
    law_short_packet(LOGIN_SUCCESS, payload);
    assert(packet_bytes(LOGIN_SUCCESS, payload) == seq![(utf8.len() + 19) as u8, 2u8] + uuid_bytes(
        uuid,
    ) + seq![utf8.len() as u8] + utf8 + seq![0u8]);
}

} // verus!
