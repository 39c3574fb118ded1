//! The packets of the play state.

use bytes::{Bytes, BytesMut};
use vstd::prelude::*;
use vstd::utf8::is_ascii_chars_encode_utf8;

use crate::big_endian::{be_bytes, be_value, lemma_be_bytes_len};
use crate::buffer::{
    can_hold, content, put_i32, put_i64, put_i8, put_u32, put_u64, put_u8, room, written,
};
use crate::error::PacketError;
use crate::fields::{string_bytes, write_string};
use crate::keep_alive::{
    answer_to, clock_reading, handle_keep_alive, KeepAliveState, KEEP_ALIVE_ANSWER,
};
use crate::packet::{encode_packet, law_packet_len, packet_bytes};
use crate::var_int::{var_int_bytes, write_var_int, MAX_GROUPS};

verus! {

/// The packet that puts a player into a world.
pub const PLAY_LOGIN: u32 = 0x2C;

/// The packet that puts a player at a place.
pub const PLAYER_POSITION: u32 = 0x42;

/// Milliseconds to wait before looking again for a packet that is not there.
pub const READ_RETRY_MILLIS: u64 = 50;

/// Bytes of room that suffice for either payload.
pub const PAYLOAD_ROOM: usize = 128;

/// The binary64 pattern of 0.
pub const ZERO_F64: u64 = 0;

/// The binary64 pattern of 64.
pub const SIXTY_FOUR_F64: u64 = 0x4050_0000_0000_0000;

/// The binary32 pattern of the number nearest to a tenth.
pub const TENTH_F32: u32 = 0x3DCC_CCCD;

/// Strings on the wire, one behind the other.
pub open spec fn strings_bytes(texts: Seq<&str>) -> Seq<u8>
    decreases texts.len(),
{
    if texts.len() == 0 {
        Seq::empty()
    } else {
        strings_bytes(texts.drop_last()) + string_bytes(texts.last()@)
    }
}

/// The dimensions of the server.
pub open spec fn dimensions() -> Seq<&'static str> {
    seq!["minecraft:overworld", "minecraft:the_nether", "minecraft:the_end"]
}

/// The world, as a player first hears of it: entity 1, not hardcore, and the
/// dimensions.
pub open spec fn world_bytes() -> Seq<u8> {
    be_bytes(1, 4) + seq![0u8] + var_int_bytes(3) + strings_bytes(dimensions())
}

/// The settings of the server: one player, view distance 3, simulation
/// distance 3, full debug info, respawn screen, unlimited crafting.
pub open spec fn settings_bytes() -> Seq<u8> {
    var_int_bytes(1) + var_int_bytes(3) + var_int_bytes(3) + seq![0u8, 1u8, 0u8]
}

/// Where and how a player starts.
pub open spec fn spawn_bytes() -> Seq<u8> {
    // the dimension, by type and by name
    var_int_bytes(0) + string_bytes("minecraft:overworld"@)
    // hashed seed, in two's complement
    + be_bytes((-2039017012206836916int % 0x1_0000_0000_0000_0000) as nat, 8)
    // creative, no mode before (-1), debug world, flat, no death location
    + seq![1u8, 255u8, 1u8, 1u8, 0u8]
    // portal cooldown, sea level, no secure chat
    + var_int_bytes(5) + var_int_bytes(63) + seq![0u8]
}

/// The payload that puts a player into the world.
pub open spec fn play_login_payload() -> Seq<u8> {
    world_bytes() + settings_bytes() + spawn_bytes()
}

/// The payload that puts a player at the place where everybody starts:
/// teleport 324 to (0, 64, 0), at rest, looking a tenth of a degree off in
/// both angles, without flags.
pub open spec fn player_position_payload() -> Seq<u8> {
    var_int_bytes(324) + be_bytes(ZERO_F64 as nat, 8) + be_bytes(SIXTY_FOUR_F64 as nat, 8)
        + be_bytes(ZERO_F64 as nat, 8) + be_bytes(ZERO_F64 as nat, 8) + be_bytes(
        ZERO_F64 as nat,
        8,
    ) + be_bytes(ZERO_F64 as nat, 8) + be_bytes(TENTH_F32 as nat, 4) + be_bytes(
        TENTH_F32 as nat,
        4,
    ) + be_bytes(0, 4)
}

/// Appends the payload that puts a player at the place where everybody
/// starts. Coordinates, velocities and angles are written as the bit patterns
/// of floating-point numbers.
pub fn handle_player_position(buf: &mut BytesMut) -> (done: Result<(), PacketError>)
    requires
        can_hold(*old(buf), written(*old(buf)).len() + PAYLOAD_ROOM as nat),
    ensures
        done == Ok::<(), PacketError>(()),
        room(*final(buf)) == room(*old(buf)),
        written(*final(buf)) == written(*old(buf)) + player_position_payload(),
{
    broadcast use lemma_be_bytes_len;

    let teleport_id: u32 = 324;
    let x_pos: u64 = ZERO_F64;
    let y_pos: u64 = SIXTY_FOUR_F64;
    let z_pos: u64 = ZERO_F64;
    let vel_x: u64 = ZERO_F64;
    let vel_y: u64 = ZERO_F64;
    let vel_z: u64 = ZERO_F64;
    let yaw: u32 = TENTH_F32;
    let pitch: u32 = TENTH_F32;
    let ghost before = written(*buf);
    proof {
        lemma_payload_lens();
    }
    let _ = write_var_int(teleport_id, buf);
    put_u64(buf, x_pos);
    put_u64(buf, y_pos);
    put_u64(buf, z_pos);
    put_u64(buf, vel_x);
    put_u64(buf, vel_y);
    put_u64(buf, vel_z);
    put_u32(buf, yaw);
    put_u32(buf, pitch);
    put_i32(buf, 0x00000000);
    assert(written(*buf) == before + player_position_payload());
    Ok(())
}

/// Appends strings, one behind the other.
fn write_strings(texts: &Vec<&'static str>, buf: &mut BytesMut)
    requires
        can_hold(*old(buf), written(*old(buf)).len() + strings_bytes(texts@).len() + MAX_GROUPS as nat),
    ensures
        room(*final(buf)) == room(*old(buf)),
        written(*final(buf)) == written(*old(buf)) + strings_bytes(texts@),
{
    let ghost before = written(*buf);
    assert(texts@.take(0) == Seq::<&str>::empty());
    for i in 0..texts.len()
        invariant
            can_hold(*buf, before.len() + strings_bytes(texts@).len() + MAX_GROUPS as nat),
            room(*buf) == room(*old(buf)),
            written(*buf) == before + strings_bytes(texts@.take(i as int)),
    {
        assert(texts@.take(i + 1).drop_last() == texts@.take(i as int));
        proof {
            lemma_strings_len_monotone(texts@, i + 1);
        }
        let ghost so_far = strings_bytes(texts@.take(i as int));
        let _ = write_string(texts[i], buf);
        assert(written(*buf) == before + (so_far + string_bytes(texts@[i as int]@)));
    }
    assert(texts@.take(texts@.len() as int) == texts@);
}

proof fn lemma_strings_len_monotone(texts: Seq<&str>, count: int)
    requires
        0 <= count <= texts.len(),
    ensures
        strings_bytes(texts.take(count)).len() <= strings_bytes(texts).len(),
    decreases texts.len(),
{
    if count < texts.len() {
        lemma_strings_len_monotone(texts.drop_last(), count);
        assert(texts.drop_last().take(count) == texts.take(count));
    } else {
        assert(texts.take(count) == texts);
    }
}

/// Appends what a player first hears of the world.
fn write_world(buf: &mut BytesMut)
    requires
        can_hold(*old(buf), written(*old(buf)).len() + PAYLOAD_ROOM as nat),
    ensures
        room(*final(buf)) == room(*old(buf)),
        written(*final(buf)) == written(*old(buf)) + world_bytes(),
{
    broadcast use lemma_be_bytes_len;

    let entity_id: i32 = 1;
    let is_hardcore = false;
    let dimension_names: Vec<&'static str> = vec![
        "minecraft:overworld",
        "minecraft:the_nether",
        "minecraft:the_end",
    ];
    assert(dimension_names@ == dimensions());
    let len_array_dim_names: u32 = dimension_names.len() as u32;

    let ghost before = written(*buf);
    proof {
        lemma_part_lens();
    }
    put_i32(buf, entity_id);
    put_u8(buf, is_hardcore as u8);
    let _ = write_var_int(len_array_dim_names, buf);
    write_strings(&dimension_names, buf);
    assert(written(*buf) == before + world_bytes());
}

/// Appends the settings of the server.
fn write_settings(buf: &mut BytesMut)
    requires
        can_hold(*old(buf), written(*old(buf)).len() + 16),
    ensures
        room(*final(buf)) == room(*old(buf)),
        written(*final(buf)) == written(*old(buf)) + settings_bytes(),
{
    let max_players: u32 = 1;
    let view_distance: u32 = 3;
    let simulation_distance: u32 = 3;
    let reduced_debug_info = false;
    let respawn_screen = true;
    let do_limited_crafting = false;

    let ghost before = written(*buf);
    proof {
        lemma_part_lens();
    }
    let _ = write_var_int(max_players, buf);
    let _ = write_var_int(view_distance, buf);
    let _ = write_var_int(simulation_distance, buf);
    put_u8(buf, reduced_debug_info as u8);
    put_u8(buf, respawn_screen as u8);
    put_u8(buf, do_limited_crafting as u8);
    assert(written(*buf) == before + settings_bytes());
}

/// Appends where and how a player starts.
fn write_spawn(buf: &mut BytesMut)
    requires
        can_hold(*old(buf), written(*old(buf)).len() + 48),
    ensures
        room(*final(buf)) == room(*old(buf)),
        written(*final(buf)) == written(*old(buf)) + spawn_bytes(),
{
    broadcast use lemma_be_bytes_len;

    let dimension_type: u32 = 0;
    let dimension_name = "minecraft:overworld";
    let hashed_seed: i64 = -2039017012206836916;
    let game_mode: u8 = 1;
    let previous_game_mode: i8 = -1;
    let is_debug = true;
    let is_flat = true;
    let has_death_location = false;
    let portal_cooldown: u32 = 5;
    let sea_level: u32 = 63;
    let enforces_secure_chat = false;

    let ghost before = written(*buf);
    proof {
        lemma_part_lens();
    }
    let _ = write_var_int(dimension_type, buf);
    let _ = write_string(dimension_name, buf);
    put_i64(buf, hashed_seed);
    put_u8(buf, game_mode);
    put_i8(buf, previous_game_mode);
    put_u8(buf, is_debug as u8);
    put_u8(buf, is_flat as u8);
    put_u8(buf, has_death_location as u8);
    let _ = write_var_int(portal_cooldown, buf);
    let _ = write_var_int(sea_level, buf);
    put_u8(buf, enforces_secure_chat as u8);
    assert(written(*buf) == before + spawn_bytes());
}

/// Appends the payload that puts a player into the world.
pub fn handle_play_login(buf: &mut BytesMut) -> (done: Result<(), PacketError>)
    requires
        can_hold(*old(buf), written(*old(buf)).len() + PAYLOAD_ROOM as nat),
    ensures
        done == Ok::<(), PacketError>(()),
        room(*final(buf)) == room(*old(buf)),
        written(*final(buf)) == written(*old(buf)) + play_login_payload(),
{
    let ghost before = written(*buf);
    proof {
        lemma_part_lens();
    }
    write_world(buf);
    write_settings(buf);
    write_spawn(buf);
    assert(written(*buf) == before + play_login_payload());
    Ok(())
}

/// The payload that puts a player into the world takes 108 bytes, the one
/// that puts it at its place 62.
pub proof fn lemma_payload_lens()
    ensures
        play_login_payload().len() == 108,
        player_position_payload().len() == 62,
{
    broadcast use lemma_be_bytes_len;

    lemma_part_lens();
    reveal_with_fuel(var_int_bytes, 2);
}

/// The lengths of the parts of the payload that puts a player into the world.
proof fn lemma_part_lens()
    ensures
        strings_bytes(dimensions()).len() == 59,
        string_bytes("minecraft:overworld"@).len() == 20,
        world_bytes().len() == 65,
        settings_bytes().len() == 6,
        spawn_bytes().len() == 37,
{
    broadcast use lemma_be_bytes_len;

    lemma_dimension_lens();
    let names = dimensions();
    reveal_with_fuel(strings_bytes, 4);
    assert(names.drop_last().drop_last().drop_last().len() == 0);
    reveal_with_fuel(var_int_bytes, 2);
}

/// The lengths of the names of the dimensions on the wire.
proof fn lemma_dimension_lens()
    ensures
        string_bytes("minecraft:overworld"@).len() == 20,
        string_bytes("minecraft:the_nether"@).len() == 21,
        string_bytes("minecraft:the_end"@).len() == 18,
{
    reveal_strlit("minecraft:overworld");
    reveal_strlit("minecraft:the_nether");
    reveal_strlit("minecraft:the_end");
    is_ascii_chars_encode_utf8("minecraft:overworld"@);
    is_ascii_chars_encode_utf8("minecraft:the_nether"@);
    is_ascii_chars_encode_utf8("minecraft:the_end"@);
}

/// Frames the two packets that a player gets on entering the play state, in
/// the order in which they are sent.
pub fn play_state() -> (packets: Result<(BytesMut, BytesMut), PacketError>)
    ensures
        packets matches Ok((login, position)) && {
            &&& written(login) == packet_bytes(PLAY_LOGIN, play_login_payload())
            &&& written(position) == packet_bytes(PLAYER_POSITION, player_position_payload())
        },
{
    proof {
        lemma_payload_lens();
        law_packet_len(PLAY_LOGIN, play_login_payload());
        law_packet_len(PLAYER_POSITION, player_position_payload());
    }
    let mut buf = BytesMut::new();
    let _ = handle_play_login(&mut buf);
    assert(written(buf) == play_login_payload());
    let login = match encode_packet(PLAY_LOGIN, &buf.freeze()) {
        Ok(packet) => packet,
        Err(error) => return Err(error),
    };
    let mut buf = BytesMut::new();
    match handle_player_position(&mut buf) {
        Ok(_) => {},
        Err(error) => return Err(error),
    }
    assert(written(buf) == player_position_payload());
    let position = match encode_packet(PLAYER_POSITION, &buf.freeze()) {
        Ok(packet) => packet,
        Err(error) => return Err(error),
    };
    Ok((login, position))
}

/// What a packet in the play state was.
#[derive(Debug, Clone, Copy, PartialEq, Eq, Structural)]
pub enum PlayPacket {
    /// A keep-alive answer with the right number.
    KeepAlive,
    /// A packet that the server does not know, by its identifier.
    Unrecognized(u32),
}

/// Takes a packet that came in the play state. Keep-alive answers are checked;
/// every other packet is left alone.
pub fn handle_play_packet(
    prot: u32,
    buf: &mut Bytes,
    keep_alive_state: &mut KeepAliveState,
) -> (packet: Result<PlayPacket, PacketError>)
    requires
        prot == KEEP_ALIVE_ANSWER ==> content(*old(buf)).len() >= 8,
    ensures
        prot == KEEP_ALIVE_ANSWER ==> {
            &&& packet == match answer_to(
                old(keep_alive_state).current_id(),
                be_value(content(*old(buf)).take(8)),
            ) {
                Ok(_) => Ok::<PlayPacket, PacketError>(PlayPacket::KeepAlive),
                Err(error) => Err(error),
            }
            &&& packet is Err ==> *final(keep_alive_state) == *old(keep_alive_state)
            &&& packet is Ok ==> clock_reading(final(keep_alive_state).last_response())
            &&& final(keep_alive_state).current_id() == old(keep_alive_state).current_id()
            &&& final(keep_alive_state).generator() == old(keep_alive_state).generator()
            &&& content(*final(buf)) == content(*old(buf)).skip(8)
        },
        prot != KEEP_ALIVE_ANSWER ==> {
            &&& packet == Ok::<PlayPacket, PacketError>(PlayPacket::Unrecognized(prot))
            &&& *final(keep_alive_state) == *old(keep_alive_state)
            &&& *final(buf) == *old(buf)
        },
{
    if prot == KEEP_ALIVE_ANSWER {
        match handle_keep_alive(buf, keep_alive_state) {
            Ok(_) => Ok(PlayPacket::KeepAlive),
            Err(error) => Err(error),
        }
    } else {
        Ok(PlayPacket::Unrecognized(prot))
    }
}

} // verus!
