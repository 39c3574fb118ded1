//! What can be wrong with a packet.

use vstd::arithmetic::div_mod::lemma_div_denominator;
use vstd::arithmetic::power::{lemma_pow_positive, pow};
use vstd::prelude::*;
use vstd::string::StringExecFns;

verus! {

/// Why a packet was refused.
#[derive(Debug, Clone, Copy, PartialEq, Eq, Structural)]
pub enum PacketError {
    /// The buffer ended inside a VarInt.
    VarIntTruncated,
    /// A VarInt went on past its fifth byte.
    VarIntTooBig,
    /// The VarInt in front of a packet went on past its fifth byte.
    PacketLengthTooBig,
    /// The buffer ended inside a two-byte number.
    ShortTruncated,
    /// The buffer ended inside a string.
    StringTruncated,
    /// The buffer ended inside a UUID.
    UuidTruncated,
    /// A handshake asked for a state that it cannot lead to.
    InvalidState(u32),
    /// A keep-alive answer did not carry the identifier last sent.
    KeepAliveMismatch,
}

/// The two families of errors: bad data, and too little of it.
#[derive(Debug, Clone, Copy, PartialEq, Eq, Structural)]
pub enum PacketErrorKind {
    InvalidData,
    UnexpectedEof,
}

/// The character for a decimal digit.
pub open spec fn digit(value: nat) -> char {
    ('0' as nat + value) as char
}

/// `value` in decimal, without leading zeros.
pub open spec fn decimal(value: nat) -> Seq<char>
    decreases value,
{
    if value < 10 {
        seq![digit(value)]
    } else {
        decimal(value / 10).push(digit(value % 10))
    }
}

/// The text of one decimal digit.
fn digit_text(value: u32) -> (text: &'static str)
    requires
        value < 10,
    ensures
        text@ == seq![digit(value as nat)],
{
    proof {
        reveal_strlit("0");
        reveal_strlit("1");
        reveal_strlit("2");
        reveal_strlit("3");
        reveal_strlit("4");
        reveal_strlit("5");
        reveal_strlit("6");
        reveal_strlit("7");
        reveal_strlit("8");
        reveal_strlit("9");
    }
    match value {
        0 => "0",
        1 => "1",
        2 => "2",
        3 => "3",
        4 => "4",
        5 => "5",
        6 => "6",
        7 => "7",
        8 => "8",
        _ => "9",
    }
}

/// Writes `value` in decimal.
fn decimal_text(value: u32) -> (text: String)
    ensures
        text@ == decimal(value as nat),
    decreases value,
{
    if value < 10 {
        digit_text(value).to_string()
    } else {
        let mut text = decimal_text(value / 10);
        text.append(digit_text(value % 10));
        assert(text@ == decimal(value as nat / 10).push(digit(value as nat % 10)));
        text
    }
}

/// A number is written with its digits to the base ten, most significant
/// first, as many as it has, and one for zero. The digits are the characters
/// from `0` to `9`.
pub proof fn law_decimal_digits(value: nat)
    ensures
        forall|i: int|
            0 <= i < decimal(value).len() ==> #[trigger] decimal(value)[i] as int == 48 + (
            value as int / pow(10, (decimal(value).len() - 1 - i) as nat)) % 10,
        decimal(value).len() >= 1,
        value < pow(10, decimal(value).len()),
        decimal(value).len() > 1 ==> value >= pow(10, (decimal(value).len() - 1) as nat),
    decreases value,
{
    let text = decimal(value);
    reveal_with_fuel(pow, 2);
    if value >= 10 {
        let high = decimal(value / 10);
        law_decimal_digits(value / 10);
        assert(pow(10, text.len()) == 10 * pow(10, high.len()));
        assert(high.len() > 1 ==> pow(10, high.len()) == 10 * pow(10, (high.len() - 1) as nat));
        assert forall|i: int| 0 <= i < text.len() implies #[trigger] text[i] as int == 48 + (
        value as int / pow(10, (text.len() - 1 - i) as nat)) % 10 by {
            if i < high.len() {
                let scale = pow(10, (high.len() - 1 - i) as nat);
                assert(text[i] == high[i]);
                assert(pow(10, (text.len() - 1 - i) as nat) == 10 * scale);
                lemma_pow_positive(10, (high.len() - 1 - i) as nat);
                lemma_div_denominator(value as int, 10, scale);
                assert(value as int / pow(10, (text.len() - 1 - i) as nat) == (value / 10) as int
                    / scale);
            } else {
                assert(pow(10, (text.len() - 1 - i) as nat) == 1);
                assert(value as int / 1 == value);
            }
        }
    } else {
        assert(pow(10, (text.len() - 1) as nat) == 1);
        assert(value as int / 1 == value);
    }
}

/// The refusal of a state names the number of that state, whichever it is.
pub proof fn law_refused_state_is_named(value: u32)
    ensures
        PacketError::InvalidState(value).text() == "Invalid state value: "@ + decimal(
            value as nat,
        ),
        PacketError::InvalidState(value).kind_of() == PacketErrorKind::InvalidData,
{
}

impl PacketError {
    /// The family that an error belongs to.
    pub open spec fn kind_of(self) -> PacketErrorKind {
        match self {
            PacketError::ShortTruncated
            | PacketError::StringTruncated
            | PacketError::UuidTruncated => PacketErrorKind::UnexpectedEof,
            _ => PacketErrorKind::InvalidData,
        }
    }

    /// The text that describes an error.
    pub open spec fn text(self) -> Seq<char> {
        match self {
            PacketError::VarIntTruncated => "Buffer empty while reading VarInt"@,
            PacketError::VarIntTooBig => "VarInt is too big"@,
            PacketError::PacketLengthTooBig => "VarInt too big"@,
            PacketError::ShortTruncated => "buffer too short"@,
            PacketError::StringTruncated => "Buffer too short"@,
            PacketError::UuidTruncated => "Incomplete UUID"@,
            PacketError::InvalidState(value) => "Invalid state value: "@ + decimal(value as nat),
            PacketError::KeepAliveMismatch => "Keep-alive ID mismatch"@,
        }
    }

    /// Returns the family that this error belongs to.
    pub fn kind(&self) -> (kind: PacketErrorKind)
        ensures
            kind == self.kind_of(),
    {
        match self {
            PacketError::ShortTruncated
            | PacketError::StringTruncated
            | PacketError::UuidTruncated => PacketErrorKind::UnexpectedEof,
            _ => PacketErrorKind::InvalidData,
        }
    }

    /// Describes this error.
    pub fn message(&self) -> (message: String)
        ensures
            message@ == self.text(),
    {
        match self {
            PacketError::VarIntTruncated => "Buffer empty while reading VarInt".to_string(),
            PacketError::VarIntTooBig => "VarInt is too big".to_string(),
            PacketError::PacketLengthTooBig => "VarInt too big".to_string(),
            PacketError::ShortTruncated => "buffer too short".to_string(),
            PacketError::StringTruncated => "Buffer too short".to_string(),
            PacketError::UuidTruncated => "Incomplete UUID".to_string(),
            PacketError::InvalidState(value) => {
                let mut message = "Invalid state value: ".to_string();
                message.append(decimal_text(*value).as_str());
                message
            },
            PacketError::KeepAliveMismatch => "Keep-alive ID mismatch".to_string(),
        }
    }
}

} // verus!
