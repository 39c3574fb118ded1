use std::time::Instant;

use bytes::{BufMut, Bytes, BytesMut};
use minecraft_server::error::PacketError;
use minecraft_server::keep_alive::KeepAliveState;
use minecraft_server::play::{
    handle_play_login, handle_play_packet, handle_player_position, play_state, PlayPacket,
};

fn expected_play_login() -> Vec<u8> {
    let mut bytes: Vec<u8> = vec![0, 0, 0, 1, 0, 3];
    bytes.extend_from_slice(b"\x13minecraft:overworld");
    bytes.extend_from_slice(b"\x14minecraft:the_nether");
    bytes.extend_from_slice(b"\x11minecraft:the_end");
    bytes.extend_from_slice(&[1, 3, 3, 0, 1, 0, 0]);
    bytes.extend_from_slice(b"\x13minecraft:overworld");
    bytes.extend_from_slice(&(-2039017012206836916i64).to_be_bytes());
    bytes.extend_from_slice(&[1, 0xFF, 1, 1, 0, 5, 63, 0]);
    bytes
}

fn expected_position() -> BytesMut {
    let mut bytes = BytesMut::new();
    bytes.put_slice(&[0xC4, 0x02]);
    for number in [0.0f64, 64.0, 0.0, 0.0, 0.0, 0.0] {
        bytes.put_f64(number);
    }
    bytes.put_f32(0.1);
    bytes.put_f32(0.1);
    bytes.put_i32(0);
    bytes
}

#[test]
fn play_login_payload_is_exact() {
    let mut buf = BytesMut::new();
    assert_eq!(handle_play_login(&mut buf), Ok(()));
    assert_eq!(buf.len(), 108);
    assert_eq!(&buf[..], &expected_play_login()[..]);
}

#[test]
fn position_payload_is_exact() {
    let mut buf = BytesMut::from(&b"x"[..]);
    assert_eq!(handle_player_position(&mut buf), Ok(()));
    assert_eq!(buf.len(), 63);
    assert_eq!(&buf[1..], &expected_position()[..]);
}

#[test]
fn play_state_starts_with_two_packets() {
    let (login, position) = play_state().unwrap();
    assert_eq!(&login[..2], &[109, 0x2C]);
    assert_eq!(&login[2..], &expected_play_login()[..]);
    assert_eq!(&position[..2], &[63, 0x42]);
    assert_eq!(&position[2..], &expected_position()[..]);
}

#[test]
fn play_packets_are_told_apart() {
    let mut state = KeepAliveState::new();
    state.set(5);
    let mut buf = Bytes::from_static(&[0, 0, 0, 0, 0, 0, 0, 5, 1]);
    assert_eq!(handle_play_packet(0x1A, &mut buf, &mut state), Ok(PlayPacket::KeepAlive));
    assert_eq!(&buf[..], &[1]);

    let mut wrong = Bytes::from_static(&[0, 0, 0, 0, 0, 0, 0, 6]);
    assert_eq!(
        handle_play_packet(0x1A, &mut wrong, &mut state),
        Err(PacketError::KeepAliveMismatch)
    );

    let mut other = Bytes::from_static(&[0, 0]);
    assert_eq!(
        handle_play_packet(0x1B, &mut other, &mut state),
        Ok(PlayPacket::Unrecognized(0x1B))
    );
    assert_eq!(other.len(), 2);
    assert_eq!(state.get_current(), 5);
}

#[test]
fn accepted_answer_in_play_keeps_the_connection_alive() {
    let long_ago = match Instant::now().checked_sub(std::time::Duration::from_secs(31)) {
        Some(long_ago) => long_ago,
        None => return,
    };
    let mut state = KeepAliveState::new();
    state.record_response(long_ago);
    assert!(!state.is_connection_alive());
    let mut buf = Bytes::from_static(&[0; 8]);
    assert_eq!(handle_play_packet(0x1A, &mut buf, &mut state), Ok(PlayPacket::KeepAlive));
    assert!(state.is_connection_alive());
}
