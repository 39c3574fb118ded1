use std::time::{Duration, Instant};

use bytes::Bytes;
use minecraft_server::error::PacketError;
use minecraft_server::keep_alive::{
    handle_keep_alive, keep_alive_packet, next_keep_alive, KeepAliveState,
};
use rand::rngs::StdRng;
use rand::{Rng, SeedableRng};

#[test]
fn new_state_has_sent_nothing() {
    let state = KeepAliveState::new();
    assert_eq!(state.get_current(), 0);
    assert!(state.is_connection_alive());
}

#[test]
fn set_and_get() {
    let mut state = KeepAliveState::new();
    state.set(u64::MAX);
    assert_eq!(state.get_current(), u64::MAX);
}

#[test]
fn alive_for_thirty_seconds() {
    assert!(KeepAliveState::is_alive_after(0));
    assert!(KeepAliveState::is_alive_after(29_999_999_999));
    assert!(!KeepAliveState::is_alive_after(30_000_000_000));
    assert!(!KeepAliveState::is_alive_after(u128::MAX));
}

#[test]
fn silence_is_noticed_and_an_answer_ends_it() {
    let long_ago = match Instant::now().checked_sub(Duration::from_secs(30)) {
        Some(long_ago) => long_ago,
        None => return,
    };
    let mut state = KeepAliveState::starting_at(long_ago, StdRng::seed_from_u64(1));
    assert!(!state.is_connection_alive());
    state.update_last_response();
    assert!(state.is_connection_alive());
    state.record_response(long_ago);
    assert!(!state.is_connection_alive());
}

#[test]
fn identifiers_come_from_the_generator() {
    let mut one = KeepAliveState::starting_at(Instant::now(), StdRng::seed_from_u64(7));
    let mut two = KeepAliveState::starting_at(Instant::now(), StdRng::seed_from_u64(7));
    let first = one.generate_id();
    assert_eq!(first, two.generate_id());
    assert_ne!(first, one.generate_id());
    assert_eq!(one.get_current(), 0);
    let mut fresh = KeepAliveState::new();
    assert_ne!(fresh.generate_id(), KeepAliveState::new().generate_id());
}

#[test]
fn request_carries_the_identifier() {
    let packet = keep_alive_packet(0x0102030405060708).unwrap();
    assert_eq!(&packet[..], &[0x09, 0x27, 1, 2, 3, 4, 5, 6, 7, 8]);
}

#[test]
fn echo_of_a_request_is_accepted() {
    let mut state = KeepAliveState::new();
    for _ in 0..10 {
        let (id, packet) = next_keep_alive(&mut state).unwrap();
        assert_eq!(state.get_current(), id);
        assert_eq!(&packet[..2], &[0x09, 0x27]);
        assert_eq!(&packet[2..], &id.to_be_bytes());
        let mut echo = packet.freeze().slice(2..);
        assert_eq!(handle_keep_alive(&mut echo, &mut state), Ok(()));
        assert!(echo.is_empty());
    }
}

#[test]
fn other_answers_are_refused_and_change_nothing() {
    let long_ago = match Instant::now().checked_sub(Duration::from_secs(31)) {
        Some(long_ago) => long_ago,
        None => return,
    };
    let mut state = KeepAliveState::starting_at(long_ago, StdRng::seed_from_u64(1));
    state.set(9);
    let mut answer = Bytes::from_static(&[0, 0, 0, 0, 0, 0, 0, 8, 7]);
    assert_eq!(
        handle_keep_alive(&mut answer, &mut state),
        Err(PacketError::KeepAliveMismatch)
    );
    assert_eq!(&answer[..], &[7]);
    assert_eq!(state.get_current(), 9);
    assert!(!state.is_connection_alive());
    assert_eq!(
        state.acknowledge(10, Instant::now()),
        Err(PacketError::KeepAliveMismatch)
    );
    assert!(!state.is_connection_alive());
    assert_eq!(state.acknowledge(9, Instant::now()), Ok(()));
    assert!(state.is_connection_alive());
}

#[test]
fn requests_in_turn_carry_the_numbers_of_the_generator() {
    let mut numbers = StdRng::seed_from_u64(11);
    let mut state = KeepAliveState::starting_at(Instant::now(), StdRng::seed_from_u64(11));
    let mut stream: Vec<u8> = Vec::new();
    for count in 1..=5 {
        let (id, packet) = next_keep_alive(&mut state).unwrap();
        let expected: u64 = numbers.gen();
        assert_eq!(id, expected);
        assert_eq!(state.get_current(), id);
        stream.extend_from_slice(&packet);
        assert_eq!(stream.len(), 10 * count);
        let last = &stream[10 * (count - 1)..];
        assert_eq!(&last[..2], &[0x09, 0x27]);
        assert_eq!(&last[2..], &id.to_be_bytes());
        let mut echo = Bytes::copy_from_slice(&last[2..]);
        assert_eq!(handle_keep_alive(&mut echo, &mut state), Ok(()));
        assert_eq!(state.get_current(), id);
    }
}
