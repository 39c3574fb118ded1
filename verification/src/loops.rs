//! What runs beside a player's packets: the loop that sends keep-alives and
//! the loop that watches for silence. Each is a step from what has happened to
//! what is to be done next; waiting and sending are up to the caller.

use bytes::BytesMut;
use rand::rngs::StdRng;
use vstd::prelude::*;

use crate::big_endian::{be_bytes, lemma_be_bytes_len};
use crate::buffer::written;
use crate::error::PacketError;
use crate::keep_alive::{
    draw, drawn_from, elapsed_reading, made_in_turn, next_keep_alive, requested, KeepAliveState,
    Request, KEEP_ALIVE_REQUEST, MONITOR_INTERVAL_SECS, REQUEST_INTERVAL_SECS,
    RESPONSE_TIMEOUT_NANOS,
};
use crate::packet::law_short_packet;

verus! {

/// What has happened to the loop that sends keep-alives.
#[derive(Debug, Clone, Copy, PartialEq, Eq, Structural)]
pub enum KeepAliveEvent {
    /// It has been started.
    Started,
    /// The wait that it asked for is over.
    Waited,
    /// The packet that it handed out has been sent.
    Sent,
    /// The packet that it handed out could not be sent.
    SendFailed,
}

/// What the loop that sends keep-alives asks for.
#[derive(Debug)]
pub enum KeepAliveAction {
    /// Wait for so many seconds.
    Wait(u64),
    /// Send this packet, which carries this number.
    Send(u64, BytesMut),
    /// Do nothing more.
    Stop,
}

/// What the loop that watches for silence asks for.
#[derive(Debug, Clone, Copy, PartialEq, Eq, Structural)]
pub enum MonitorAction {
    /// Wait for so many seconds.
    Wait(u64),
    /// Do nothing more: the connection is dead.
    Stop,
}

/// Whether `action` is the answer to `event` of a state that was `before` and
/// is `after`.
pub open spec fn keep_alive_turn(
    before: KeepAliveState,
    event: KeepAliveEvent,
    action: KeepAliveAction,
    after: KeepAliveState,
) -> bool {
    match event {
        KeepAliveEvent::Started | KeepAliveEvent::Sent => {
            &&& action == KeepAliveAction::Wait(REQUEST_INTERVAL_SECS)
            &&& after == before
        },
        KeepAliveEvent::Waited => action matches KeepAliveAction::Send(id, packet) && requested(
            before,
            after,
            id,
            written(packet),
        ),
        KeepAliveEvent::SendFailed => {
            &&& action == KeepAliveAction::Stop
            &&& after == before
        },
    }
}

/// Whether `action` is the answer of the loop that watches for silence, at its
/// start or after a wait. After a wait it looks at the clock.
pub open spec fn monitor_turn(state: KeepAliveState, waited: bool, action: MonitorAction) -> bool {
    if waited {
        exists|nanos: u128| #[trigger]
            elapsed_reading(state.last_response(), nanos) && action == (if nanos
                < RESPONSE_TIMEOUT_NANOS {
                MonitorAction::Wait(MONITOR_INTERVAL_SECS)
            } else {
                MonitorAction::Stop
            })
    } else {
        action == MonitorAction::Wait(MONITOR_INTERVAL_SECS)
    }
}

/// Takes the loop that sends keep-alives one step on: it waits, hands out a
/// request, waits again once that has been sent, and stops at the first one
/// that cannot be sent.
pub fn keep_alive_step(keep_alive_state: &mut KeepAliveState, event: KeepAliveEvent) -> (action:
    Result<KeepAliveAction, PacketError>)
    ensures
        action matches Ok(action) && keep_alive_turn(
            *old(keep_alive_state),
            event,
            action,
            *final(keep_alive_state),
        ),
        event == KeepAliveEvent::Started || event == KeepAliveEvent::Sent ==> {
            &&& action == Ok::<KeepAliveAction, PacketError>(KeepAliveAction::Wait(15))
            &&& *final(keep_alive_state) == *old(keep_alive_state)
        },
        event == KeepAliveEvent::SendFailed ==> {
            &&& action == Ok::<KeepAliveAction, PacketError>(KeepAliveAction::Stop)
            &&& *final(keep_alive_state) == *old(keep_alive_state)
        },
        event == KeepAliveEvent::Waited ==> (action matches Ok(KeepAliveAction::Send(id, _))
            && exists|rng: &mut StdRng| #[trigger]
            draw(rng, id) && *rng == old(keep_alive_state).generator() && *final(rng) == final(
                keep_alive_state
            ).generator()),
{
    match event {
        KeepAliveEvent::Started | KeepAliveEvent::Sent => Ok(
            KeepAliveAction::Wait(REQUEST_INTERVAL_SECS),
        ),
        KeepAliveEvent::Waited => match next_keep_alive(keep_alive_state) {
            Ok((id, packet)) => Ok(KeepAliveAction::Send(id, packet)),
            Err(error) => Err(error),
        },
        KeepAliveEvent::SendFailed => Ok(KeepAliveAction::Stop),
    }
}

/// Takes the loop that watches for silence one step on: it waits, looks
/// whether the connection is alive, and stops as soon as it is not.
pub fn monitor_step(keep_alive_state: &KeepAliveState, waited: bool) -> (action: MonitorAction)
    ensures
        monitor_turn(*keep_alive_state, waited, action),
        !waited ==> action == MonitorAction::Wait(5),
        waited ==> exists|nanos: u128| #[trigger]
            elapsed_reading(keep_alive_state.last_response(), nanos) && action == (if nanos
                < 30_000_000_000 {
                MonitorAction::Wait(5)
            } else {
                MonitorAction::Stop
            }),
{
    if waited && !keep_alive_state.is_connection_alive() {
        MonitorAction::Stop
    } else {
        MonitorAction::Wait(MONITOR_INTERVAL_SECS)
    }
}

/// One step of the loop that sends keep-alives.
pub struct KeepAliveTurn {
    pub before: KeepAliveState,
    pub event: KeepAliveEvent,
    pub action: KeepAliveAction,
    pub after: KeepAliveState,
}

/// Whether `event` can come of doing what `action` asks for.
pub open spec fn comes_of(event: KeepAliveEvent, action: KeepAliveAction) -> bool {
    match action {
        KeepAliveAction::Wait(_) => event == KeepAliveEvent::Waited,
        KeepAliveAction::Send(_, _) => event == KeepAliveEvent::Sent || event
            == KeepAliveEvent::SendFailed,
        KeepAliveAction::Stop => false,
    }
}

/// Whether `turns` are the steps of a loop that sends keep-alives, from its
/// start on, with nobody else setting the number or drawing from the generator
/// in between.
pub open spec fn keep_alive_loop(turns: Seq<KeepAliveTurn>) -> bool {
    &&& turns.len() > 0 ==> turns[0].event == KeepAliveEvent::Started
    &&& forall|i: int|
        0 <= i < turns.len() ==> {
            let turn = #[trigger] turns[i];
            keep_alive_turn(turn.before, turn.event, turn.action, turn.after)
        }
    &&& forall|i: int, j: int|
        0 <= i && j == i + 1 && j < turns.len() ==> {
            &&& comes_of((#[trigger] turns[j]).event, (#[trigger] turns[i]).action)
            &&& turns[j].before.current_id() == turns[i].after.current_id()
            &&& turns[j].before.generator() == turns[i].after.generator()
        }
}

/// The seconds that the first `count` steps ask to wait.
pub open spec fn seconds_waited(turns: Seq<KeepAliveTurn>, count: nat) -> nat
    decreases count,
{
    if count == 0 {
        0
    } else {
        seconds_waited(turns, (count - 1) as nat) + match turns[count - 1].action {
            KeepAliveAction::Wait(secs) => secs as nat,
            _ => 0,
        }
    }
}

/// The number of requests that the first `count` steps hand out.
pub open spec fn requests_made(turns: Seq<KeepAliveTurn>, count: nat) -> nat
    decreases count,
{
    if count == 0 {
        0
    } else {
        requests_made(turns, (count - 1) as nat) + if turns[count
            - 1].action is Send {
            1nat
        } else {
            0nat
        }
    }
}

/// The requests that a loop hands out, one at every other step.
pub open spec fn requests_of(turns: Seq<KeepAliveTurn>) -> Seq<Request> {
    Seq::new(
        turns.len() / 2,
        |k: int|
            Request {
                before: turns[2 * k + 1].before,
                after: turns[2 * k + 1].after,
                id: turns[2 * k + 1].action->Send_0,
                frame: written(turns[2 * k + 1].action->Send_1),
            },
    )
}

/// Waiting and handing out take turns.
proof fn lemma_turns_alternate(turns: Seq<KeepAliveTurn>, i: int)
    requires
        keep_alive_loop(turns),
        0 <= i < turns.len(),
    ensures
        (turns[i].action is Send) == (i % 2 == 1),
        (turns[i].event == KeepAliveEvent::Waited) == (i % 2 == 1),
        seconds_waited(turns, i as nat) == REQUEST_INTERVAL_SECS * ((i + 1) / 2),
        requests_made(turns, i as nat) == i / 2,
    decreases i,
{
    let turn = turns[i];
    assert(keep_alive_turn(turn.before, turn.event, turn.action, turn.after));
    if i > 0 {
        lemma_turns_alternate(turns, i - 1);
        let last = turns[i - 1];
        assert(comes_of(turn.event, last.action));
        assert(keep_alive_turn(last.before, last.event, last.action, last.after));
    }
}

/// What the loop that sends keep-alives asks for, whatever its state: 15
/// seconds at its start and after every request that was sent, a request after
/// every wait, and nothing more after a request that could not be sent, and
/// only then. The state changes only where a request is made, which notes the
/// number that it draws and puts on the wire.
pub proof fn law_every_event_has_its_action(
    before: KeepAliveState,
    event: KeepAliveEvent,
    action: KeepAliveAction,
    after: KeepAliveState,
)
    requires
        keep_alive_turn(before, event, action, after),
    ensures
        event == KeepAliveEvent::Started || event == KeepAliveEvent::Sent <==> action
            == KeepAliveAction::Wait(15),
        event == KeepAliveEvent::SendFailed <==> action == KeepAliveAction::Stop,
        event == KeepAliveEvent::Waited <==> action is Send,
        event != KeepAliveEvent::Waited ==> after == before,
        action matches KeepAliveAction::Send(id, packet) ==> {
            &&& drawn_from(before.generator(), id)
            &&& after.current_id() == id
            &&& after.last_response() == before.last_response()
            &&& written(packet) == seq![9u8, 0x27u8] + be_bytes(id as nat, 8)
        },
{
    if let KeepAliveAction::Send(id, packet) = action {
        lemma_be_bytes_len(id as nat, 8);
        law_short_packet(KEEP_ALIVE_REQUEST, be_bytes(id as nat, 8));
    }
}

/// What the loop that watches for silence asks for: 5 seconds at its start,
/// and after a wait either 5 seconds more or nothing more, the latter exactly
/// if the clock shows 30 seconds or more since the last answer.
pub proof fn law_watch_goes_by_the_clock(
    state: KeepAliveState,
    waited: bool,
    action: MonitorAction,
)
    requires
        monitor_turn(state, waited, action),
    ensures
        action == MonitorAction::Wait(5) || action == MonitorAction::Stop,
        !waited ==> action == MonitorAction::Wait(5),
        waited ==> exists|nanos: u128| #[trigger]
            elapsed_reading(state.last_response(), nanos) && (action == MonitorAction::Stop <==>
                nanos >= 30_000_000_000),
{
}

/// The loop that sends keep-alives ends only at a request that could not be
/// sent: every step that asks for nothing more is taken there, and after every
/// request that was sent the loop waits for 15 seconds.
pub proof fn law_loop_ends_only_at_failure(turns: Seq<KeepAliveTurn>)
    requires
        keep_alive_loop(turns),
    ensures
        forall|i: int|
            0 <= i < turns.len() && (#[trigger] turns[i]).action == KeepAliveAction::Stop
                ==> turns[i].event == KeepAliveEvent::SendFailed,
        forall|i: int|
            0 <= i < turns.len() && ((#[trigger] turns[i]).event == KeepAliveEvent::Started
                || turns[i].event == KeepAliveEvent::Sent) ==> turns[i].action
                == KeepAliveAction::Wait(15),
        forall|i: int|
            0 <= i < turns.len() && (#[trigger] turns[i]).event == KeepAliveEvent::Waited
                ==> turns[i].action is Send,
{
    assert forall|i: int| 0 <= i < turns.len() implies {
        let turn = #[trigger] turns[i];
        keep_alive_turn(turn.before, turn.event, turn.action, turn.after)
    } by {}
}

/// The steps of the loop fit together: a wait is followed by its end, a
/// request by having been sent or not, and an end by nothing. Any such steps,
/// from the start on, are a loop.
pub proof fn law_loops_are_made_of_turns(turns: Seq<KeepAliveTurn>, next: KeepAliveTurn)
    requires
        keep_alive_turn(next.before, next.event, next.action, next.after),
    ensures
        turns.len() == 0 && next.event == KeepAliveEvent::Started ==> keep_alive_loop(
            turns.push(next),
        ),
        turns.len() > 0 && keep_alive_loop(turns) && next.before == turns.last().after && ({
            ||| turns.last().action is Wait && next.event == KeepAliveEvent::Waited
            ||| turns.last().action is Send && next.event == KeepAliveEvent::Sent
            ||| turns.last().action is Send && next.event == KeepAliveEvent::SendFailed
        }) ==> keep_alive_loop(turns.push(next)),
{
}

/// Requests are one interval apart, the first of them one interval after the
/// start: before any request is handed out, the loop has asked to wait for one
/// interval for it and one for each request before it. Nothing follows a
/// request that could not be sent.
pub proof fn law_requests_are_paced(turns: Seq<KeepAliveTurn>)
    requires
        keep_alive_loop(turns),
    ensures
        forall|i: int|
            0 <= i < turns.len() && (#[trigger] turns[i]).action is Send ==> seconds_waited(
                turns,
                i as nat,
            ) == REQUEST_INTERVAL_SECS * (requests_made(turns, i as nat) + 1),
        forall|i: int|
            0 <= i < turns.len() && (#[trigger] turns[i]).event == KeepAliveEvent::SendFailed ==> {
                &&& turns[i].action == KeepAliveAction::Stop
                &&& i == turns.len() - 1
            },
{
    assert forall|i: int|
        0 <= i < turns.len() && (#[trigger] turns[i]).action is Send implies seconds_waited(
        turns,
        i as nat,
    ) == REQUEST_INTERVAL_SECS * (requests_made(turns, i as nat) + 1) by {
        lemma_turns_alternate(turns, i);
    }
    assert forall|i: int|
        0 <= i < turns.len() && (#[trigger] turns[i]).event == KeepAliveEvent::SendFailed implies {
        &&& turns[i].action == KeepAliveAction::Stop
        &&& i == turns.len() - 1
    } by {
        let turn = turns[i];
        assert(keep_alive_turn(turn.before, turn.event, turn.action, turn.after));
        if i < turns.len() - 1 {
            assert(comes_of(turns[i + 1].event, turns[i].action));
        }
    }
}

/// The requests of a loop are made in turn, so what holds of such requests,
/// and of what they put on the wire, holds of the loop.
pub proof fn law_loop_requests_in_turn(turns: Seq<KeepAliveTurn>)
    requires
        keep_alive_loop(turns),
    ensures
        made_in_turn(requests_of(turns)),
        forall|i: int|
            0 <= i < turns.len() && (#[trigger] turns[i]).action is Send ==> {
                &&& requests_of(turns)[i / 2].before == turns[i].before
                &&& requests_of(turns)[i / 2].after == turns[i].after
                &&& turns[i].action == KeepAliveAction::Send(
                    requests_of(turns)[i / 2].id,
                    turns[i].action->Send_1,
                )
                &&& requests_of(turns)[i / 2].frame == written(turns[i].action->Send_1)
            },
{
    let requests = requests_of(turns);
    assert forall|k: int| 0 <= k < requests.len() implies {
        let request = #[trigger] requests[k];
        requested(request.before, request.after, request.id, request.frame)
    } by {
        let turn = turns[2 * k + 1];
        lemma_turns_alternate(turns, 2 * k + 1);
        assert(keep_alive_turn(turn.before, turn.event, turn.action, turn.after));
    }
    assert forall|k: int, l: int| 0 <= k && l == k + 1 && l < requests.len() implies {
        &&& (#[trigger] requests[l]).before.current_id() == (
        #[trigger] requests[k]).after.current_id()
        &&& requests[l].before.generator() == requests[k].after.generator()
    } by {
        let between = turns[2 * k + 2];
        lemma_turns_alternate(turns, 2 * k + 2);
        assert(keep_alive_turn(between.before, between.event, between.action, between.after));
        assert(comes_of(between.event, turns[2 * k + 1].action));
        assert(comes_of(turns[2 * k + 3].event, between.action));
    }
    assert forall|i: int| 0 <= i < turns.len() && (#[trigger] turns[i]).action is Send implies {
        &&& requests[i / 2].before == turns[i].before
        &&& requests[i / 2].after == turns[i].after
        &&& turns[i].action == KeepAliveAction::Send(requests[i / 2].id, turns[i].action->Send_1)
        &&& requests[i / 2].frame == written(turns[i].action->Send_1)
    } by {
        lemma_turns_alternate(turns, i);
        assert(2 * (i / 2) + 1 == i);
    }
}

/// One step of the loop that watches for silence.
pub struct MonitorTurn {
    pub state: KeepAliveState,
    pub waited: bool,
    pub action: MonitorAction,
}

/// Whether `turns` are the steps of a loop that watches for silence, from its
/// start on. Between steps the state may change in any way.
pub open spec fn monitor_loop(turns: Seq<MonitorTurn>) -> bool {
    &&& forall|i: int|
        0 <= i < turns.len() ==> {
            let turn = #[trigger] turns[i];
            &&& turn.waited == (i > 0)
            &&& monitor_turn(turn.state, turn.waited, turn.action)
        }
    &&& forall|i: int|
        0 <= i < turns.len() - 1 ==> (#[trigger] turns[i]).action is Wait
}

/// The watch ends at the first look that finds the last answer too old, and
/// not before: it waits one interval before every look, every look but the
/// last finds the answer recent enough, and a look stops it exactly if it does
/// not.
pub proof fn law_monitor_ends_at_silence(turns: Seq<MonitorTurn>)
    requires
        monitor_loop(turns),
    ensures
        forall|i: int|
            0 <= i < turns.len() ==> {
                let turn = #[trigger] turns[i];
                ||| turn.action == MonitorAction::Wait(MONITOR_INTERVAL_SECS)
                ||| turn.action == MonitorAction::Stop && 0 < i == turns.len() - 1
            },
        forall|i: int|
            0 < i < turns.len() ==> {
                let turn = #[trigger] turns[i];
                exists|nanos: u128| #[trigger]
                    elapsed_reading(turn.state.last_response(), nanos) && (turn.action
                        == MonitorAction::Stop <==> nanos >= RESPONSE_TIMEOUT_NANOS)
            },
{
    assert forall|i: int| 0 < i < turns.len() implies {
        let turn = #[trigger] turns[i];
        exists|nanos: u128| #[trigger]
            elapsed_reading(turn.state.last_response(), nanos) && (turn.action
                == MonitorAction::Stop <==> nanos >= RESPONSE_TIMEOUT_NANOS)
    } by {
        assert(monitor_turn(turns[i].state, turns[i].waited, turns[i].action));
    }
}

} // verus!
