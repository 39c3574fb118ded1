use bytes::{BufMut, Bytes, BytesMut};
use minecraft_server::error::PacketError;
use minecraft_server::fields::{write_string, PlayerUuid};
use minecraft_server::login::{
    config_state, handle_handshake, handle_login_client, handshake_state, login_state,
    login_success,
};
use minecraft_server::state::State;
use minecraft_server::var_int::write_var_int;

fn handshake(next_state: u32) -> BytesMut {
    let mut buf = BytesMut::new();
    write_var_int(769, &mut buf).unwrap();
    write_string("localhost", &mut buf).unwrap();
    buf.put_u16(25565);
    write_var_int(next_state, &mut buf).unwrap();
    buf
}

const UUID: PlayerUuid = PlayerUuid { high: 0x0102030405060708, low: 0xF1F2F3F4F5F6F7F8 };

const UUID_BYTES: [u8; 16] = [
    0x01, 0x02, 0x03, 0x04, 0x05, 0x06, 0x07, 0x08, 0xF1, 0xF2, 0xF3, 0xF4, 0xF5, 0xF6, 0xF7, 0xF8,
];

fn login_request() -> BytesMut {
    let mut buf = BytesMut::new();
    write_string("Steve", &mut buf).unwrap();
    buf.put_slice(&UUID_BYTES);
    buf
}

fn steve_confirmed() -> Vec<u8> {
    let mut expected = vec![0x18, 0x02];
    expected.extend_from_slice(&UUID_BYTES);
    expected.extend_from_slice(b"\x05Steve\x00");
    expected
}

#[test]
fn reads_handshake() {
    let mut raw = handshake(2);
    raw.put_slice(b"rest");
    let mut buf = raw.freeze();
    let packet = handle_handshake(&mut buf).unwrap();
    assert_eq!(packet.protocol_version, 769);
    assert_eq!(packet.server_address, "localhost");
    assert_eq!(packet.server_port, 25565);
    assert_eq!(packet.next_state, State::Login);
    assert_eq!(&buf[..], b"rest");
}

#[test]
fn handshake_leads_to_status_or_login() {
    assert_eq!(handshake_state(&mut handshake(1).freeze()), Ok(State::Status));
    assert_eq!(handshake_state(&mut handshake(2).freeze()), Ok(State::Login));
    for other in [0, 3, 4, 300, u32::MAX] {
        assert_eq!(
            handshake_state(&mut handshake(other).freeze()),
            Err(PacketError::InvalidState(other))
        );
    }
}

#[test]
fn handshake_cut_anywhere_is_refused() {
    let whole = handshake(2).freeze();
    for len in 0..whole.len() {
        let expected = match len {
            0 | 1 => PacketError::VarIntTruncated,
            2 => PacketError::VarIntTruncated,
            3..=11 => PacketError::StringTruncated,
            12 | 13 => PacketError::ShortTruncated,
            _ => PacketError::VarIntTruncated,
        };
        assert_eq!(handshake_state(&mut whole.slice(..len)), Err(expected));
    }
}

#[test]
fn reads_login_request() {
    let mut buf = login_request().freeze();
    assert_eq!(handle_login_client(&mut buf), Ok((String::from("Steve"), UUID)));
    assert!(buf.is_empty());
}

#[test]
fn login_request_cut_short_is_refused() {
    let whole = login_request().freeze();
    assert_eq!(
        handle_login_client(&mut whole.slice(..5)),
        Err(PacketError::StringTruncated)
    );
    assert_eq!(
        handle_login_client(&mut whole.slice(..21)),
        Err(PacketError::UuidTruncated)
    );
}

#[test]
fn confirms_login() {
    assert_eq!(&login_success("Steve", UUID).unwrap()[..], &steve_confirmed()[..]);
}

#[test]
fn login_leads_to_configuration() {
    let mut buf = login_request().freeze();
    let (state, packet) = login_state(&mut buf).unwrap().unwrap();
    assert_eq!(state, State::Config);
    assert_eq!(&packet[..], &steve_confirmed()[..]);
    assert_eq!(login_state(&mut Bytes::new()), Err(PacketError::VarIntTruncated));
}

#[test]
fn confirmation_repeats_the_patched_name() {
    let mut buf = BytesMut::from(&[0x01u8, 0xFF][..]);
    buf.put_slice(&UUID_BYTES);
    let (_, packet) = login_state(&mut buf.freeze()).unwrap().unwrap();
    assert_eq!(&packet[18..], &[0x03, 0xEF, 0xBF, 0xBD, 0x00]);
}

#[test]
fn configuration_ends_with_an_empty_packet() {
    assert_eq!(&config_state().unwrap()[..], &[0x01, 0x03]);
}
