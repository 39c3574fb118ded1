//! A connection from the first packet to the play state.

use bytes::{Bytes, BytesMut};
use vstd::prelude::*;
use vstd::utf8::encode_utf8;

use crate::buffer::{content, written};
use crate::error::PacketError;
use crate::fields::{string_at, string_bytes};
use crate::login::{
    can_confirm, config_state, handshake_at, handshake_state, law_login_success_echoes, login_at,
    login_state, login_success_payload, FINISH_CONFIGURATION, LOGIN_SUCCESS,
};
use crate::packet::{law_short_packet, packet_bytes};
use crate::play::{
    lemma_payload_lens, play_login_payload, play_state, player_position_payload, PLAYER_POSITION,
    PLAY_LOGIN,
};
use crate::state::{CurrentState, State};

verus! {

/// Whether a connection in this state is still on its way to the play state.
pub open spec fn is_entering(state: State) -> bool {
    state == State::HandShake || state == State::Login || state == State::Config
}

/// The state that a packet leads to.
pub open spec fn state_after(state: State) -> State {
    match state {
        State::HandShake => State::Login,
        State::Login => State::Config,
        State::Config => State::Play,
        other => other,
    }
}

/// The packets that answer a packet with the payload `bytes`, in the order in
/// which they are sent, or why the connection ends there.
///
/// A handshake is read and leads to the login whatever state it asks for. A
/// login request is confirmed, and the configuration ended at once. Whatever
/// answers that brings the player into the world.
pub open spec fn answers(state: State, bytes: Seq<u8>) -> Result<Seq<Seq<u8>>, PacketError> {
    match state {
        State::HandShake => match handshake_at(bytes).0 {
            Ok(_) => Ok(seq![]),
            Err(error) => Err(error),
        },
        State::Login => match login_at(bytes).0 {
            Ok((name, uuid)) => Ok(
                seq![
                    packet_bytes(LOGIN_SUCCESS, login_success_payload(name, uuid)),
                    packet_bytes(FINISH_CONFIGURATION, Seq::empty()),
                ],
            ),
            Err(error) => Err(error),
        },
        State::Config => Ok(
            seq![
                packet_bytes(PLAY_LOGIN, play_login_payload()),
                packet_bytes(PLAYER_POSITION, player_position_payload()),
            ],
        ),
        _ => Ok(seq![]),
    }
}

/// What is left of `bytes` once the packet has been read.
pub open spec fn unread(state: State, bytes: Seq<u8>) -> Seq<u8> {
    match state {
        State::HandShake => handshake_at(bytes).1,
        State::Login => login_at(bytes).1,
        _ => bytes,
    }
}

/// Whether the packets that answer `bytes` can be held.
pub open spec fn can_answer(state: State, bytes: Seq<u8>) -> bool {
    state == State::Login ==> (login_at(bytes).0 matches Ok((name, _)) ==> can_confirm(name))
}

/// What is in each of several buffers.
pub open spec fn all_written(packets: Seq<BytesMut>) -> Seq<Seq<u8>> {
    packets.map_values(|packet: BytesMut| written(packet))
}

/// Takes the next packet of a connection that is on its way to the play state:
/// moves the connection on and returns the packets to send before the next one
/// is read. `None` says that these cannot be held; the connection then stays
/// where it is, as it does on an error.
#[verifier::rlimit(40)]
pub fn handle_connection(current_state: &mut CurrentState, buf: &mut Bytes) -> (packets: Result<
    Option<Vec<BytesMut>>,
    PacketError,
>)
    requires
        is_entering(old(current_state)@),
    ensures
        match answers(old(current_state)@, content(*old(buf))) {
            Err(error) => {
                &&& packets == Err::<Option<Vec<BytesMut>>, PacketError>(error)
                &&& final(current_state)@ == old(current_state)@
            },
            Ok(frames) => if can_answer(old(current_state)@, content(*old(buf))) {
                &&& packets matches Ok(Some(packets)) && all_written(packets@) == frames
                &&& final(current_state)@ == state_after(old(current_state)@)
            } else {
                &&& packets == Ok::<Option<Vec<BytesMut>>, PacketError>(None)
                &&& final(current_state)@ == old(current_state)@
            },
        },
        packets == Ok::<Option<Vec<BytesMut>>, PacketError>(None) ==> {
            &&& old(current_state)@ == State::Login
            &&& login_at(content(*old(buf))).0 matches Ok((name, _)) && encode_utf8(name).len()
                > isize::MAX - 32
        },
        old(current_state)@ == State::HandShake ==> {
            &&& packets is Ok <==> handshake_at(content(*old(buf))).0 is Ok
            &&& packets matches Ok(packets) ==> {
                &&& packets matches Some(packets) && packets@.len() == 0
                &&& final(current_state)@ == State::Login
            }
        },
        old(current_state)@ == State::Login ==> {
            &&& packets is Ok <==> login_at(content(*old(buf))).0 is Ok
            &&& packets matches Ok(Some(packets)) ==> {
                &&& packets@.len() == 2
                &&& final(current_state)@ == State::Config
            }
        },
        old(current_state)@ == State::Config ==> {
            &&& packets matches Ok(Some(packets)) && {
                &&& packets@.len() == 2
                &&& written(packets@[0]) == packet_bytes(0x2C, play_login_payload())
                &&& written(packets@[1]) == packet_bytes(0x42, player_position_payload())
            }
            &&& final(current_state)@ == State::Play
        },
        content(*final(buf)) == unread(old(current_state)@, content(*old(buf))),
{
    let mut packets: Vec<BytesMut> = Vec::new();
    match current_state.get_state() {
        State::HandShake => {
            match handshake_state(buf) {
                Ok(_) => {},
                Err(error) => return Err(error),
            }
            current_state.set_state(State::Login);
        },
        State::Login => {
            let (next_state, success) = match login_state(buf) {
                Ok(Some(step)) => step,
                Ok(None) => return Ok(None),
                Err(error) => return Err(error),
            };
            let finish = match config_state() {
                Ok(packet) => packet,
                Err(error) => return Err(error),
            };
            packets.push(success);
            packets.push(finish);
            current_state.set_state(next_state);
        },
        _ => {
            let (login, position) = match play_state() {
                Ok(packets) => packets,
                Err(error) => return Err(error),
            };
            packets.push(login);
            packets.push(position);
            current_state.set_state(State::Play);
        },
    }
    assert(answers(old(current_state)@, content(*old(buf))) matches Ok(frames) && all_written(
        packets@,
    ) == frames);
    Ok(Some(packets))
}

/// What each of several buffers holds, one by one.
pub proof fn law_all_written(packets: Seq<BytesMut>)
    ensures
        all_written(packets).len() == packets.len(),
        forall|i: int|
            0 <= i < packets.len() ==> #[trigger] all_written(packets)[i] == written(packets[i]),
{
}

/// Answers are withheld only where the confirmation of a login would not fit:
/// in the login state, for a request that can be read and whose name takes
/// more than `isize::MAX - 32` bytes of UTF-8. In every other state, and for
/// every other request, whatever the packet holds, they are given.
pub proof fn law_answers_are_withheld_only_for_room(state: State, bytes: Seq<u8>)
    ensures
        !can_answer(state, bytes) <==> {
            &&& state == State::Login
            &&& login_at(bytes).0 matches Ok((name, _)) && encode_utf8(name).len() > isize::MAX - 32
        },
{
}

/// A connection is taken from its handshake to the login, from there to the
/// configuration, and from there to the play state, and in each of these
/// states it takes a packet.
pub proof fn law_states_in_order()
    ensures
        is_entering(State::HandShake) && state_after(State::HandShake) == State::Login,
        is_entering(State::Login) && state_after(State::Login) == State::Config,
        is_entering(State::Config) && state_after(State::Config) == State::Play,
{
}

/// A handshake is answered by nothing, whichever state it asks for, and ends
/// the connection exactly if it cannot be read.
pub proof fn law_handshake_is_silent(bytes: Seq<u8>)
    ensures
        can_answer(State::HandShake, bytes),
        answers(State::HandShake, bytes) is Ok <==> handshake_at(bytes).0 is Ok,
        answers(State::HandShake, bytes) matches Ok(frames) ==> frames.len() == 0,
        handshake_at(bytes).0 matches Err(error) ==> answers(State::HandShake, bytes) == Err::<
            Seq<Seq<u8>>,
            PacketError,
        >(error),
        unread(State::HandShake, bytes) == handshake_at(bytes).1,
{
}

/// A login request is answered by the packet 2, which repeats the UUID and the
/// name that were sent, and the packet 3, which is empty, whoever the player
/// is. It ends the connection exactly if it cannot be read.
pub proof fn law_login_is_confirmed(bytes: Seq<u8>)
    ensures
        login_at(bytes).0 matches Ok((name, uuid)) ==> {
            &&& answers(State::Login, bytes) matches Ok(frames) && {
                &&& frames.len() == 2
                &&& frames[0] == packet_bytes(
                    2,
                    string_at(bytes).1.take(16) + string_bytes(name) + seq![0u8],
                )
                &&& frames[1] == seq![1u8, 3u8]
            }
            &&& encode_utf8(name).len() <= isize::MAX - 32 ==> can_answer(State::Login, bytes)
        },
        login_at(bytes).0 matches Err(error) ==> answers(State::Login, bytes) == Err::<
            Seq<Seq<u8>>,
            PacketError,
        >(error),
        unread(State::Login, bytes) == login_at(bytes).1,
{
    if login_at(bytes).0 is Ok {
        law_login_success_echoes(bytes);
        law_short_packet(FINISH_CONFIGURATION, Seq::empty());
        assert(seq![1u8, 3u8] + Seq::<u8>::empty() == seq![1u8, 3u8]);
    }
}

/// Whatever answers the end of the configuration, be it empty, brings the
/// player into the world: it is answered by the packets 0x2C and 0x42, in this
/// order, and nothing of it is looked at.
pub proof fn law_any_answer_ends_configuration(bytes: Seq<u8>)
    ensures
        can_answer(State::Config, bytes),
        answers(State::Config, bytes) matches Ok(frames) && {
            &&& frames.len() == 2
            &&& frames[0] == seq![109u8, 0x2Cu8] + play_login_payload()
            &&& frames[1] == seq![63u8, 0x42u8] + player_position_payload()
        },
        unread(State::Config, bytes) == bytes,
{
    lemma_payload_lens();
    law_short_packet(PLAY_LOGIN, play_login_payload());
    law_short_packet(PLAYER_POSITION, player_position_payload());
}

/// The state that a connection in `state` is in after `received`, and all that
/// it was sent meanwhile, or why it ended.
pub open spec fn conversation(state: State, received: Seq<Seq<u8>>) -> Result<
    (State, Seq<Seq<u8>>),
    PacketError,
>
    decreases received.len(),
{
    if received.len() == 0 {
        Ok((state, Seq::empty()))
    } else {
        match answers(state, received[0]) {
            Err(error) => Err(error),
            Ok(first) => match conversation(state_after(state), received.skip(1)) {
                Err(error) => Err(error),
                Ok((end, more)) => Ok((end, first + more)),
            },
        }
    }
}

/// Three packets bring a connection into the play state: a handshake, a login
/// request, and anything. A client whose handshake and login request can be
/// read gets its confirmation, the end of the configuration, the world and its
/// place, in this order; another gets the error of the first packet that
/// cannot be read.
pub proof fn law_three_packets_to_play(handshake: Seq<u8>, login: Seq<u8>, answer: Seq<u8>)
    ensures
        conversation(State::HandShake, seq![handshake, login, answer]) == match handshake_at(
            handshake,
        ).0 {
            Err(error) => Err::<(State, Seq<Seq<u8>>), PacketError>(error),
            Ok(_) => match login_at(login).0 {
                Err(error) => Err(error),
                Ok((name, uuid)) => Ok(
                    (
                        State::Play,
                        seq![
                            packet_bytes(LOGIN_SUCCESS, login_success_payload(name, uuid)),
                            packet_bytes(FINISH_CONFIGURATION, Seq::empty()),
                            packet_bytes(PLAY_LOGIN, play_login_payload()),
                            packet_bytes(PLAYER_POSITION, player_position_payload()),
                        ],
                    ),
                ),
            },
        },
{
    let received = seq![handshake, login, answer];
    reveal_with_fuel(conversation, 4);
    assert(received.skip(1) == seq![login, answer]);
    assert(received.skip(1).skip(1) == seq![answer]);
    assert(received.skip(1).skip(1).skip(1) == Seq::<Seq<u8>>::empty());
    if let Ok((_, sent)) = conversation(State::HandShake, received) {
        if let Ok((name, uuid)) = login_at(login).0 {
            assert(sent == seq![
                packet_bytes(LOGIN_SUCCESS, login_success_payload(name, uuid)),
                packet_bytes(FINISH_CONFIGURATION, Seq::empty()),
                packet_bytes(PLAY_LOGIN, play_login_payload()),
                packet_bytes(PLAYER_POSITION, player_position_payload()),
            ]);
        }
    }
}

/// How far a connection has come, and how many packets it has been sent,
/// depends on nothing but the number of packets that it has sent itself: as
/// long as it has not ended, it is sent nothing before its login request has
/// been read, and is in the play state from its third packet on.
pub proof fn law_progress_by_count(received: Seq<Seq<u8>>)
    ensures
        conversation(State::HandShake, received) matches Ok((state, sent)) ==> {
            &&& state == if received.len() == 0 {
                State::HandShake
            } else if received.len() == 1 {
                State::Login
            } else if received.len() == 2 {
                State::Config
            } else {
                State::Play
            }
            &&& sent.len() == if received.len() <= 1 {
                0nat
            } else if received.len() == 2 {
                2nat
            } else {
                4nat
            }
        },
{
    reveal_with_fuel(conversation, 4);
    if received.len() >= 3 {
        lemma_play_stays(received.skip(1).skip(1).skip(1));
    }
}

/// A connection in the play state stays there.
proof fn lemma_play_stays(received: Seq<Seq<u8>>)
    ensures
        conversation(State::Play, received) == Ok::<(State, Seq<Seq<u8>>), PacketError>(
            (State::Play, Seq::empty()),
        ),
    decreases received.len(),
{
    if received.len() > 0 {
        lemma_play_stays(received.skip(1));
        assert(Seq::<Seq<u8>>::empty() + Seq::<Seq<u8>>::empty() == Seq::<Seq<u8>>::empty());
    }
}

} // verus!
