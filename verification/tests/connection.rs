use bytes::{Bytes, BytesMut};
use minecraft_server::connection::handle_connection;
use minecraft_server::error::PacketError;
use minecraft_server::state::{CurrentState, State};

const HANDSHAKE: &[u8] = b"\x81\x06\x09localhost\x63\xDD\x02";

const LOGIN: &[u8] = b"\x04Alex0123456789abcdef";

fn receive(current: &mut CurrentState, bytes: &'static [u8]) -> Vec<BytesMut> {
    handle_connection(current, &mut Bytes::from_static(bytes)).unwrap().unwrap()
}

#[test]
fn three_packets_lead_to_play() {
    let mut current = CurrentState::new(State::HandShake);

    assert!(receive(&mut current, HANDSHAKE).is_empty());
    assert_eq!(current.get_state(), State::Login);

    let packets = receive(&mut current, LOGIN);
    assert_eq!(packets.len(), 2);
    assert_eq!(&packets[0][..], b"\x17\x020123456789abcdef\x04Alex\x00");
    assert_eq!(&packets[1][..], &[0x01, 0x03]);
    assert_eq!(current.get_state(), State::Config);

    let packets = receive(&mut current, b"anything");
    assert_eq!(packets.len(), 2);
    assert_eq!(&packets[0][..2], &[109, 0x2C]);
    assert_eq!(&packets[1][..2], &[63, 0x42]);
    assert_eq!(current.get_state(), State::Play);
}

#[test]
fn status_handshake_goes_on_to_login() {
    let mut current = CurrentState::new(State::HandShake);
    assert!(receive(&mut current, b"\x00\x00\x00\x00\x01").is_empty());
    assert_eq!(current.get_state(), State::Login);
}

#[test]
fn errors_leave_the_connection_where_it_is() {
    let mut current = CurrentState::new(State::HandShake);
    assert_eq!(
        handle_connection(&mut current, &mut Bytes::from_static(b"\x00\x00\x00\x00\x03")),
        Err(PacketError::InvalidState(3))
    );
    assert_eq!(current.get_state(), State::HandShake);

    let mut current = CurrentState::new(State::Login);
    assert_eq!(
        handle_connection(&mut current, &mut Bytes::from_static(b"\x04Alex")),
        Err(PacketError::UuidTruncated)
    );
    assert_eq!(current.get_state(), State::Login);
}

#[test]
fn what_is_not_needed_stays_in_the_buffer() {
    let mut current = CurrentState::new(State::HandShake);
    let mut buf = Bytes::from_static(b"\x00\x00\x00\x00\x02more");
    assert!(handle_connection(&mut current, &mut buf).is_ok());
    assert_eq!(&buf[..], b"more");
    current.set_state(State::Config);
    assert!(handle_connection(&mut current, &mut buf).is_ok());
    assert_eq!(&buf[..], b"more");
}

#[test]
fn states_are_set_and_numbered() {
    let mut current = CurrentState::new(State::Transfer);
    assert_eq!(current.get_state(), State::Transfer);
    current.set_state(State::Status);
    assert_eq!(current.get_state(), State::Status);
    let states = [
        State::HandShake,
        State::Status,
        State::Login,
        State::Transfer,
        State::Play,
        State::Config,
    ];
    for (number, state) in states.iter().enumerate() {
        assert_eq!(*state as usize, number);
    }
}
