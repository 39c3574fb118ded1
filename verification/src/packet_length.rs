//! The length in front of a packet, read from a stream one byte at a time.

use vstd::arithmetic::power::pow;
use vstd::prelude::*;

use crate::error::PacketError;
use crate::var_int::{
    below_group, lemma_group_of_byte, lemma_place_group, var_int_rest, var_int_scan, var_int_value,
    CONTINUE_BIT, SEGMENT_BITS,
};

verus! {

/// The groups of a length that have come in: how many, and the number that
/// they spell.
pub struct PartialLength {
    pub count: nat,
    pub low: nat,
}

/// Before the first byte.
pub open spec fn no_groups() -> PartialLength {
    PartialLength { count: 0, low: 0 }
}

/// What the next byte makes of a partial length: the groups then held, and
/// the length if it is complete, nothing if more has to come, or an error.
pub open spec fn length_step(partial: PartialLength, byte: u8) -> (
    PartialLength,
    Result<Option<u32>, PacketError>,
) {
    let scale = pow(128, partial.count);
    if byte < 128 {
        (partial, Ok(Some(((partial.low + byte * scale) % 0x1_0000_0000) as u32)))
    } else if partial.count >= 4 {
        (partial, Err(PacketError::PacketLengthTooBig))
    } else {
        (
            PartialLength {
                count: partial.count + 1,
                low: (partial.low + (byte - 128) * scale) as nat,
            },
            Ok(None),
        )
    }
}

/// Feeds `bytes` to a partial length until it is complete or refused: the
/// outcome and the bytes that were not needed, or `None` if `bytes` run out.
pub open spec fn length_run(partial: PartialLength, bytes: Seq<u8>) -> Option<
    (Result<u32, PacketError>, Seq<u8>),
>
    decreases bytes.len(),
{
    if bytes.len() == 0 {
        None
    } else {
        let (next, outcome) = length_step(partial, bytes[0]);
        match outcome {
            Ok(Some(length)) => Some((Ok(length), bytes.skip(1))),
            Ok(None) => length_run(next, bytes.skip(1)),
            Err(error) => Some((Err(error), bytes.skip(1))),
        }
    }
}

/// Collects the bytes of a packet's length.
#[derive(Debug)]
pub struct PacketLengthReader {
    value: u32,
    position: u32,
}

impl View for PacketLengthReader {
    type V = PartialLength;

    closed spec fn view(&self) -> PartialLength {
        PartialLength { count: self.position as nat / 7, low: self.value as nat }
    }
}

impl PacketLengthReader {
    #[verifier::type_invariant]
    spec fn well_formed(self) -> bool {
        below_group(self.value, self.position, pow(128, self@.count))
    }

    /// Starts on a new packet.
    pub fn new() -> (reader: Self)
        ensures
            reader@ == no_groups(),
    {
        proof {
            lemma_scales();
        }
        PacketLengthReader { value: 0, position: 0 }
    }

    /// Takes the next byte of the stream. Returns the length once its last
    /// byte is in, and `None` while more has to come.
    pub fn push(&mut self, byte: u8) -> (length: Result<Option<u32>, PacketError>)
        ensures
            (final(self)@, length) == length_step(old(self)@, byte),
    {
        proof {
            use_type_invariant(&*self);
            lemma_group_of_byte(byte);
            lemma_scales();
            lemma_place_group(
                self.value,
                (byte % 128) as u32,
                self.position,
                pow(128, self@.count),
            );
        }
        let value: u32 = self.value | (((byte & SEGMENT_BITS) as u32) << self.position);
        if (byte & CONTINUE_BIT) == 0 {
            return Ok(Some(value));
        }
        let position: u32 = self.position + 7;
        if position >= 32 {
            return Err(PacketError::PacketLengthTooBig);
        }
        *self = PacketLengthReader { value, position };
        Ok(None)
    }
}

proof fn lemma_scales()
    ensures
        pow(128, 0) == 1,
        pow(128, 1) == 0x80,
        pow(128, 2) == 0x4000,
        pow(128, 3) == 0x20_0000,
        pow(128, 4) == 0x1000_0000,
{
    reveal_with_fuel(pow, 5);
}

/// What each byte of a stream makes of a length, from the first byte on: a
/// byte below 128 completes it, the seven low bits of all bytes so far being
/// its digits to the base 128, least significant first, of which the length
/// keeps 32 bits; a fifth byte that announces another one is refused; any other
/// byte asks for more.
pub proof fn law_length_byte_by_byte(first: u8, second: u8, third: u8, fourth: u8, fifth: u8)
    ensures
        ({
            let (after_1, length_1) = length_step(no_groups(), first);
            let (after_2, length_2) = length_step(after_1, second);
            let (after_3, length_3) = length_step(after_2, third);
            let (after_4, length_4) = length_step(after_3, fourth);
            let (_, length_5) = length_step(after_4, fifth);
            let sum_2 = first % 128 + 0x80 * (second % 128);
            let sum_3 = sum_2 + 0x4000 * (third % 128);
            let sum_4 = sum_3 + 0x20_0000 * (fourth % 128);
            let sum_5 = sum_4 + 0x1000_0000 * (fifth % 128);
            &&& length_1 == if first < 128 {
                Ok::<Option<u32>, PacketError>(Some(first as u32))
            } else {
                Ok(None)
            }
            &&& first >= 128 ==> length_2 == if second < 128 {
                Ok::<Option<u32>, PacketError>(Some(sum_2 as u32))
            } else {
                Ok(None)
            }
            &&& first >= 128 && second >= 128 ==> length_3 == if third < 128 {
                Ok::<Option<u32>, PacketError>(Some(sum_3 as u32))
            } else {
                Ok(None)
            }
            &&& first >= 128 && second >= 128 && third >= 128 ==> length_4 == if fourth < 128 {
                Ok::<Option<u32>, PacketError>(Some(sum_4 as u32))
            } else {
                Ok(None)
            }
            &&& first >= 128 && second >= 128 && third >= 128 && fourth >= 128 ==> length_5
                == if fifth < 128 {
                Ok::<Option<u32>, PacketError>(Some((sum_5 % 0x1_0000_0000) as u32))
            } else {
                Err(PacketError::PacketLengthTooBig)
            }
        }),
{
    lemma_scales();
}

/// The length in front of a packet is a VarInt: a stream gives the length that
/// reading a VarInt from a buffer of the same bytes gives, asks for more
/// exactly where the buffer would end too early, and is refused exactly where
/// the VarInt is too big.
pub proof fn law_packet_length_is_var_int(bytes: Seq<u8>)
    ensures
        length_run(no_groups(), bytes) == match var_int_value(bytes) {
            Ok(length) => Some((Ok::<u32, PacketError>(length), var_int_rest(bytes))),
            Err(PacketError::VarIntTruncated) => None,
            Err(_) => Some((Err(PacketError::PacketLengthTooBig), var_int_rest(bytes))),
        },
{
    reveal(pow);
    lemma_run_is_scan(no_groups(), bytes);
}

proof fn lemma_run_is_scan(partial: PartialLength, bytes: Seq<u8>)
    requires
        partial.count <= 4,
    ensures
        ({
            let scan = var_int_scan(bytes, (5 - partial.count) as nat);
            length_run(partial, bytes) == match scan.0 {
                Ok(high) => Some(
                    (
                        Ok::<u32, PacketError>(
                            ((partial.low + high * pow(128, partial.count)) % 0x1_0000_0000)
                                as u32,
                        ),
                        scan.1,
                    ),
                ),
                Err(PacketError::VarIntTruncated) => None,
                Err(_) => Some((Err(PacketError::PacketLengthTooBig), scan.1)),
            }
        }),
    decreases bytes.len(),
{
    if bytes.len() > 0 && bytes[0] >= 128 && partial.count < 4 {
        let next = length_step(partial, bytes[0]).0;
        let scale = pow(128, partial.count);
        lemma_scales();
        assert(pow(128, next.count) == 128 * scale);
        lemma_run_is_scan(next, bytes.skip(1));
        if let Ok(high) = var_int_scan(bytes.skip(1), (5 - next.count) as nat).0 {
            let group = bytes[0] - 128;
            assert((group + 128 * high) * scale == group * scale + high * (128 * scale))
                by (nonlinear_arith);
        }
    }
}

} // verus!
