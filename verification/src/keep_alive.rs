//! Keep-alives: the server sends a number now and then, the client has to send
//! it back, and a connection without an answer for too long counts as dead.

use std::time::Instant;

use bytes::{Bytes, BytesMut};
use rand::rngs::StdRng;
use rand::{Rng, SeedableRng};
use vstd::arithmetic::power::pow;
use vstd::prelude::*;

use crate::big_endian::{
    be_bytes, be_value, law_be_bytes_are_digits, law_be_value_of_bytes, lemma_be_bytes_len,
};
use crate::buffer::{content, get_u64, put_u64, written};
use crate::error::PacketError;
use crate::packet::{encode_packet, law_packet_len, packet_bytes};
use crate::var_int::var_int_bytes;

verus! {

/// The packet that asks a client for a sign of life.
pub const KEEP_ALIVE_REQUEST: u32 = 0x27;

/// The packet that answers it.
pub const KEEP_ALIVE_ANSWER: u32 = 0x1A;

/// Seconds from one request to the next.
pub const REQUEST_INTERVAL_SECS: u64 = 15;

/// Seconds from one look at a connection to the next.
pub const MONITOR_INTERVAL_SECS: u64 = 5;

/// Nanoseconds without an answer after which a connection is dead.
pub const RESPONSE_TIMEOUT_NANOS: u128 = 30_000_000_000;

/// `std::time::Instant`, a point in time.
#[verifier::external_type_specification]
#[verifier::external_body]
pub struct ExInstant(Instant);

/// `rand::rngs::StdRng`, a random number generator.
#[verifier::external_type_specification]
#[verifier::external_body]
pub struct ExStdRng(StdRng);

/// `Instant::now` reads the clock. Nothing is claimed of what it shows.
#[verifier::external_body]
fn clock_now() -> Instant {
    Instant::now()
}

/// `Instant::elapsed` reads the clock against an earlier time. Nothing is
/// claimed of the nanoseconds that have passed.
#[verifier::external_body]
fn nanos_since(earlier: &Instant) -> u128 {
    earlier.elapsed().as_nanos()
}

/// `SeedableRng::from_entropy` of `StdRng` seeds a generator from the
/// operating system, and panics where that offers no entropy. Nothing is
/// claimed of the generator.
#[verifier::external_body]
fn seeded_generator() -> StdRng {
    StdRng::from_entropy()
}

/// `Rng::gen` of `StdRng` draws a random number. Nothing is claimed of the
/// number.
#[verifier::external_body]
fn random_u64(rng: &mut StdRng) -> u64 {
    rng.gen()
}

/// Whether `now` is what a reading of the clock gave.
pub closed spec fn clock_reading(now: Instant) -> bool {
    call_ensures(clock_now, (), now)
}

/// Whether `nanos` is what a reading of the clock against `earlier` gave.
pub closed spec fn elapsed_reading(earlier: Instant, nanos: u128) -> bool {
    call_ensures(nanos_since, (&earlier,), nanos)
}

/// Whether `rng` is a generator that was seeded by the operating system.
pub closed spec fn freshly_seeded(rng: StdRng) -> bool {
    call_ensures(seeded_generator, (), rng)
}

/// Whether `id` is what a draw from the generator behind `rng` gave.
pub closed spec fn draw(rng: &mut StdRng, id: u64) -> bool {
    call_ensures(random_u64, (rng,), id)
}

/// Whether `id` is what a draw from the generator `rng` gave.
pub open spec fn drawn_from(rng: StdRng, id: u64) -> bool {
    exists|drawing: &mut StdRng| #[trigger] draw(drawing, id) && *drawing == rng
}

/// Times, spans of time, generators and numbers come from outside: a time is
/// one that the clock gave, a span one that the clock gave against the earlier
/// time, a generator one that the operating system seeded, and a number one
/// that the generator gave.
proof fn law_readings_come_from_outside(
    now: Instant,
    earlier: Instant,
    nanos: u128,
    rng: StdRng,
)
    ensures
        clock_reading(now) <==> call_ensures(clock_now, (), now),
        elapsed_reading(earlier, nanos) <==> call_ensures(nanos_since, (&earlier,), nanos),
        freshly_seeded(rng) <==> call_ensures(seeded_generator, (), rng),
        forall|drawing: &mut StdRng, id: u64| #[trigger]
            draw(drawing, id) <==> call_ensures(random_u64, (drawing,), id),
        forall|id: u64| #[trigger]
            drawn_from(rng, id) ==> exists|drawing: &mut StdRng| #[trigger]
                draw(drawing, id) && *drawing == rng,
{
}

/// What a connection keeps for its keep-alives: the number last sent, the time
/// of the last answer, and where new numbers come from.
#[derive(Debug)]
pub struct KeepAliveState {
    current_keep_alive_id: u64,
    last_response_time: Instant,
    rng: StdRng,
}

impl KeepAliveState {
    /// The number last sent.
    pub closed spec fn current_id(&self) -> u64 {
        self.current_keep_alive_id
    }

    /// The time of the last answer.
    pub closed spec fn last_response(&self) -> Instant {
        self.last_response_time
    }

    /// Where new numbers come from.
    pub closed spec fn generator(&self) -> StdRng {
        self.rng
    }

    /// A state that has sent nothing yet, as of `now`.
    pub fn starting_at(now: Instant, rng: StdRng) -> (state: Self)
        ensures
            state.current_id() == 0,
            state.last_response() == now,
            state.generator() == rng,
    {
        Self { current_keep_alive_id: 0, last_response_time: now, rng }
    }

    /// A state that has sent nothing yet, as of the current time, with a
    /// freshly seeded generator. Panics if the operating system offers no
    /// entropy to seed it with.
    pub fn new() -> (state: Self)
        ensures
            state.current_id() == 0,
            clock_reading(state.last_response()),
            freshly_seeded(state.generator()),
    {
        Self::starting_at(clock_now(), seeded_generator())
    }

    /// Returns the number last sent.
    pub fn get_current(&self) -> (id: u64)
        ensures
            id == self.current_id(),
    {
        self.current_keep_alive_id
    }

    /// Notes that `value` is being sent.
    pub fn set(&mut self, value: u64)
        ensures
            final(self).current_id() == value,
            final(self).last_response() == old(self).last_response(),
            final(self).generator() == old(self).generator(),
    {
        self.current_keep_alive_id = value;
    }

    /// Notes that an answer came at `now`.
    pub fn record_response(&mut self, now: Instant)
        ensures
            final(self).last_response() == now,
            final(self).current_id() == old(self).current_id(),
            final(self).generator() == old(self).generator(),
    {
        self.last_response_time = now;
    }

    /// Notes that an answer came just now.
    pub fn update_last_response(&mut self)
        ensures
            clock_reading(final(self).last_response()),
            final(self).current_id() == old(self).current_id(),
            final(self).generator() == old(self).generator(),
    {
        self.record_response(clock_now());
    }

    /// Tells whether a connection whose last answer is `elapsed_nanos` old is
    /// alive.
    pub fn is_alive_after(elapsed_nanos: u128) -> (alive: bool)
        ensures
            alive == (elapsed_nanos < RESPONSE_TIMEOUT_NANOS),
    {
        elapsed_nanos < RESPONSE_TIMEOUT_NANOS
    }

    /// Tells whether the last answer is recent enough, by the clock.
    pub fn is_connection_alive(&self) -> (alive: bool)
        ensures
            exists|nanos: u128| #[trigger]
                elapsed_reading(self.last_response(), nanos) && alive == (nanos
                    < RESPONSE_TIMEOUT_NANOS),
    {
        let nanos: u128 = nanos_since(&self.last_response_time);
        assert(elapsed_reading(self.last_response(), nanos));
        Self::is_alive_after(nanos)
    }

    /// Draws a number to send next.
    pub fn generate_id(&mut self) -> (id: u64)
        ensures
            exists|rng: &mut StdRng| #[trigger]
                draw(rng, id) && *rng == old(self).generator()
                    && *final(rng) == final(self).generator(),
            final(self).current_id() == old(self).current_id(),
            final(self).last_response() == old(self).last_response(),
    {
        let id: u64 = random_u64(&mut self.rng);
        assert(forall|rng: &mut StdRng| #[trigger]
            call_ensures(random_u64, (rng,), id) ==> draw(rng, id));
        id
    }

    /// Takes the answer `client_id` that came at `now`: it counts if it is the
    /// number last sent, and changes nothing otherwise.
    pub fn acknowledge(&mut self, client_id: u64, now: Instant) -> (accepted: Result<
        (),
        PacketError,
    >)
        ensures
            accepted == answer_to(old(self).current_id(), client_id as nat),
            accepted is Err ==> *final(self) == *old(self),
            accepted is Ok ==> {
                &&& final(self).last_response() == now
                &&& final(self).current_id() == old(self).current_id()
                &&& final(self).generator() == old(self).generator()
            },
    {
        if client_id != self.get_current() {
            return Err(PacketError::KeepAliveMismatch);
        }
        self.record_response(now);
        Ok(())
    }
}

/// What becomes of the answer `client_id` when `server_id` was last sent.
pub open spec fn answer_to(server_id: u64, client_id: nat) -> Result<(), PacketError> {
    if client_id == server_id {
        Ok(())
    } else {
        Err(PacketError::KeepAliveMismatch)
    }
}

/// Takes a keep-alive answer off the front of `buf`. A number other than the
/// one last sent is refused and changes nothing.
pub fn handle_keep_alive(buf: &mut Bytes, keep_alive_state: &mut KeepAliveState) -> (accepted:
    Result<(), PacketError>)
    requires
        content(*old(buf)).len() >= 8,
    ensures
        accepted == answer_to(
            old(keep_alive_state).current_id(),
            be_value(content(*old(buf)).take(8)),
        ),
        accepted is Err ==> *final(keep_alive_state) == *old(keep_alive_state),
        accepted is Ok ==> clock_reading(final(keep_alive_state).last_response()),
        final(keep_alive_state).current_id() == old(keep_alive_state).current_id(),
        final(keep_alive_state).generator() == old(keep_alive_state).generator(),
        content(*final(buf)) == content(*old(buf)).skip(8),
{
    let client_id: u64 = get_u64(buf);
    keep_alive_state.acknowledge(client_id, clock_now())
}

/// Frames the request that carries `id`.
pub fn keep_alive_packet(id: u64) -> (packet: Result<BytesMut, PacketError>)
    ensures
        packet matches Ok(packet) && written(packet) == packet_bytes(
            KEEP_ALIVE_REQUEST,
            be_bytes(id as nat, 8),
        ),
{
    let mut buf = BytesMut::new();
    put_u64(&mut buf, id);
    proof {
        lemma_be_bytes_len(id as nat, 8);
        assert(written(buf) == be_bytes(id as nat, 8));
        law_packet_len(KEEP_ALIVE_REQUEST, be_bytes(id as nat, 8));
    }
    encode_packet(KEEP_ALIVE_REQUEST, &buf.freeze())
}

/// Whether a request that carries `id` and is framed as `frame` was made by a
/// state that was `before` and is `after`: the number is fresh from the
/// generator and is already noted as sent.
pub open spec fn requested(
    before: KeepAliveState,
    after: KeepAliveState,
    id: u64,
    frame: Seq<u8>,
) -> bool {
    &&& drawn_from(before.generator(), id)
    &&& after.current_id() == id
    &&& after.last_response() == before.last_response()
    &&& frame == packet_bytes(KEEP_ALIVE_REQUEST, be_bytes(id as nat, 8))
}

/// Draws a number, notes it as sent, and frames the request that carries it.
pub fn next_keep_alive(keep_alive_state: &mut KeepAliveState) -> (request: Result<
    (u64, BytesMut),
    PacketError,
>)
    ensures
        request matches Ok((id, packet)) && requested(
            *old(keep_alive_state),
            *final(keep_alive_state),
            id,
            written(packet),
        ),
        request matches Ok((id, _)) && exists|rng: &mut StdRng| #[trigger]
            draw(rng, id) && *rng == old(keep_alive_state).generator()
                && *final(rng) == final(keep_alive_state).generator(),
{
    let id: u64 = keep_alive_state.generate_id();
    keep_alive_state.set(id);
    match keep_alive_packet(id) {
        Ok(packet) => Ok((id, packet)),
        Err(error) => Err(error),
    }
}

/// An answer is accepted exactly if it is the number last sent.
pub proof fn law_only_the_noted_number_is_accepted(server_id: u64, client_id: nat)
    ensures
        answer_to(server_id, client_id) == Ok::<(), PacketError>(()) <==> client_id == server_id,
        client_id != server_id ==> answer_to(server_id, client_id) == Err::<(), PacketError>(
            PacketError::KeepAliveMismatch,
        ),
{
}

/// A client that sends back the payload of the request is accepted, and one
/// that sends back any other number is refused.
pub proof fn law_keep_alive_echo(server_id: u64, client_id: u64, rest: Seq<u8>)
    ensures
        answer_to(server_id, be_value((be_bytes(client_id as nat, 8) + rest).take(8)))
            == if client_id == server_id {
            Ok::<(), PacketError>(())
        } else {
            Err(PacketError::KeepAliveMismatch)
        },
{
    let payload = be_bytes(client_id as nat, 8);
    lemma_be_bytes_len(client_id as nat, 8);
    assert((payload + rest).take(8) == payload);
    assert(client_id < pow(256, 8)) by {
        reveal_with_fuel(pow, 9);
    }
    law_be_value_of_bytes(client_id as nat, 8);
}

/// A request carries a number that was drawn from the generator for it, that
/// very number is the one noted as sent, and asking does not count as an
/// answer. On the wire it is nine bytes behind their length: the identifier
/// 0x27 and the digits of the number to the base 256, most significant first.
pub proof fn law_request_carries_the_noted_number(
    before: KeepAliveState,
    after: KeepAliveState,
    id: u64,
    frame: Seq<u8>,
)
    requires
        requested(before, after, id, frame),
    ensures
        drawn_from(before.generator(), id),
        after.current_id() == id,
        after.last_response() == before.last_response(),
        frame.len() == 10,
        frame[0] == 9,
        frame[1] == 0x27,
        forall|i: int|
            0 <= i < 8 ==> frame[2 + i] == (id as int / #[trigger] pow(256, (7 - i) as nat)) % 256,
{
    let payload = be_bytes(id as nat, 8);
    lemma_request_frame(id);
    law_be_bytes_are_digits(id as nat, 8);
    assert forall|i: int| 0 <= i < 8 implies frame[2 + i] == (id as int / #[trigger] pow(
        256,
        (7 - i) as nat,
    )) % 256 by {
        assert(frame[2 + i] == payload[i]);
    }
}

/// One request: the state before and after it was made, its number and its
/// frame.
pub struct Request {
    pub before: KeepAliveState,
    pub after: KeepAliveState,
    pub id: u64,
    pub frame: Seq<u8>,
}

/// Whether requests were made one after the other, with nobody else setting
/// the number or drawing from the generator in between.
pub open spec fn made_in_turn(requests: Seq<Request>) -> bool {
    &&& forall|i: int|
        0 <= i < requests.len() ==> {
            let request = #[trigger] requests[i];
            requested(request.before, request.after, request.id, request.frame)
        }
    &&& forall|i: int, j: int|
        0 <= i && j == i + 1 && j < requests.len() ==> {
            &&& (#[trigger] requests[j]).before.current_id() == (
            #[trigger] requests[i]).after.current_id()
            &&& requests[j].before.generator() == requests[i].after.generator()
        }
}

/// All that requests put on the wire.
pub open spec fn sent_bytes(requests: Seq<Request>) -> Seq<u8>
    decreases requests.len(),
{
    if requests.len() == 0 {
        Seq::empty()
    } else {
        sent_bytes(requests.drop_last()) + requests.last().frame
    }
}

/// Keep-alives put nothing on the wire but packets of ten bytes, one for each
/// request. Each carries a number fresh from the generator, which is noted
/// when its packet is made and stays noted until the next request.
pub proof fn law_keep_alive_stream(requests: Seq<Request>)
    requires
        made_in_turn(requests),
    ensures
        sent_bytes(requests).len() == 10 * requests.len(),
        forall|i: int|
            0 <= i < requests.len() ==> {
                let request = #[trigger] requests[i];
                &&& sent_bytes(requests).subrange(10 * i, 10 * i + 10) == seq![0x09u8, 0x27u8]
                    + be_bytes(request.id as nat, 8)
                &&& drawn_from(request.before.generator(), request.id)
                &&& request.after.current_id() == request.id
            },
        forall|i: int, j: int|
            0 <= i && j == i + 1 && j < requests.len() ==> {
                &&& (#[trigger] requests[j]).before.current_id() == (#[trigger] requests[i]).id
                &&& requests[j].before.generator() == requests[i].after.generator()
            },
    decreases requests.len(),
{
    if requests.len() > 0 {
        let earlier = requests.drop_last();
        let last = requests.last();
        assert forall|i: int| 0 <= i < earlier.len() implies {
            let request = #[trigger] earlier[i];
            requested(request.before, request.after, request.id, request.frame)
        } by {
            assert(earlier[i] == requests[i]);
        }
        assert forall|i: int, j: int| 0 <= i && j == i + 1 && j < earlier.len() implies {
            &&& (#[trigger] earlier[j]).before.current_id() == (
            #[trigger] earlier[i]).after.current_id()
            &&& earlier[j].before.generator() == earlier[i].after.generator()
        } by {
            assert(earlier[i] == requests[i] && earlier[j] == requests[j]);
        }
        law_keep_alive_stream(earlier);
        assert(requests[requests.len() - 1] == last);
        lemma_request_frame(last.id);
        let sent = sent_bytes(requests);
        assert forall|i: int| 0 <= i < requests.len() implies {
            let request = #[trigger] requests[i];
            sent.subrange(10 * i, 10 * i + 10) == seq![0x09u8, 0x27u8] + be_bytes(
                request.id as nat,
                8,
            )
        } by {
            if i < earlier.len() {
                assert(earlier[i] == requests[i]);
                assert(sent.subrange(10 * i, 10 * i + 10) == sent_bytes(earlier).subrange(
                    10 * i,
                    10 * i + 10,
                ));
            } else {
                assert(sent.subrange(10 * i, 10 * i + 10) == last.frame);
            }
        }
    }
}

/// A request on the wire.
pub(crate) proof fn lemma_request_frame(id: u64)
    ensures
        packet_bytes(KEEP_ALIVE_REQUEST, be_bytes(id as nat, 8)) == seq![0x09u8, 0x27u8]
            + be_bytes(id as nat, 8),
        packet_bytes(KEEP_ALIVE_REQUEST, be_bytes(id as nat, 8)).len() == 10,
{
    lemma_be_bytes_len(id as nat, 8);
    assert(var_int_bytes(KEEP_ALIVE_REQUEST as nat) == seq![0x27u8]);
    assert(var_int_bytes(9) == seq![0x09u8]);
    assert(packet_bytes(KEEP_ALIVE_REQUEST, be_bytes(id as nat, 8)) == seq![0x09u8, 0x27u8]
        + be_bytes(id as nat, 8));
}

} // verus!
