use std::time::{Duration, Instant};

use minecraft_server::keep_alive::KeepAliveState;
use minecraft_server::loops::{
    keep_alive_step, monitor_step, KeepAliveAction, KeepAliveEvent, MonitorAction,
};
use rand::rngs::StdRng;
use rand::{Rng, SeedableRng};

fn seeded_state(start: Instant) -> KeepAliveState {
    KeepAliveState::starting_at(start, StdRng::seed_from_u64(3))
}

#[test]
fn requests_are_fifteen_seconds_apart() {
    let mut numbers = StdRng::seed_from_u64(3);
    let mut state = seeded_state(Instant::now());
    let mut event = KeepAliveEvent::Started;
    let mut seconds: u64 = 0;
    for count in 1..=4 {
        match keep_alive_step(&mut state, event) {
            Ok(KeepAliveAction::Wait(secs)) => seconds += secs,
            other => panic!("expected a wait, got {:?}", other),
        }
        assert_eq!(seconds, 15 * count);
        match keep_alive_step(&mut state, KeepAliveEvent::Waited) {
            Ok(KeepAliveAction::Send(id, packet)) => {
                let expected: u64 = numbers.gen();
                assert_eq!(id, expected);
                assert_eq!(state.get_current(), id);
                assert_eq!(&packet[..2], &[0x09, 0x27]);
                assert_eq!(&packet[2..], &id.to_be_bytes());
            }
            other => panic!("expected a request, got {:?}", other),
        }
        event = KeepAliveEvent::Sent;
    }
}

#[test]
fn nothing_follows_a_request_that_cannot_be_sent() {
    let mut state = seeded_state(Instant::now());
    state.set(8);
    match keep_alive_step(&mut state, KeepAliveEvent::SendFailed) {
        Ok(KeepAliveAction::Stop) => {}
        other => panic!("expected the end, got {:?}", other),
    }
    assert_eq!(state.get_current(), 8);
}

#[test]
fn monitor_waits_while_answers_come() {
    let state = seeded_state(Instant::now());
    assert_eq!(monitor_step(&state, false), MonitorAction::Wait(5));
    assert_eq!(monitor_step(&state, true), MonitorAction::Wait(5));
}

#[test]
fn monitor_stops_at_silence_but_waits_first() {
    let long_ago = match Instant::now().checked_sub(Duration::from_secs(30)) {
        Some(long_ago) => long_ago,
        None => return,
    };
    let mut state = seeded_state(long_ago);
    assert_eq!(monitor_step(&state, false), MonitorAction::Wait(5));
    assert_eq!(monitor_step(&state, true), MonitorAction::Stop);
    state.update_last_response();
    assert_eq!(monitor_step(&state, true), MonitorAction::Wait(5));
}
