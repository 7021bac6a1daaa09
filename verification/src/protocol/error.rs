//! What can go wrong while reading packets.

use vstd::prelude::*;
use vstd::string::StringExecFns;

use crate::net::{hex_text, push_hex_text};
use crate::text::{
    decimal, decimal_text, glue3, glue5, hex_digit, integer_text, integer_to_text,
};

verus! {

/// A reason for which bytes are not the packet that was expected.
#[derive(Debug, Clone, Copy, PartialEq, Eq)]
pub enum Error {
    /// Not an error in the usual sense: the caller must read more bytes and
    /// retry. Never log this as a failure.
    Incomplete,
    /// The VarInt is longer than five bytes.
    VarIntTooLong,
    /// A string is longer than its field allows.
    StringTooLong { max: usize, actual: usize },
    /// A length prefix is below zero.
    NegativeLength(i32),
    /// A string field is not UTF-8.
    InvalidUtf8,
    /// A packet is longer than the caller accepts.
    PacketTooLarge { max: usize, actual: usize },
    /// Another packet was expected here.
    UnexpectedPacket { expected: i32, actual: i32 },
    /// The handshake asks for a state that does not exist.
    UnknownNextState(i32),
    /// The first bytes cannot start a Minecraft handshake. Usually a port
    /// scanner, an HTTP probe or a misconfigured client.
    NotMinecraft,
}

/// Short, log-friendly category used as a metrics label.
#[derive(Debug, Clone, Copy, PartialEq, Eq)]
pub struct Kind(pub &'static str);

/// The category of each error.
pub open spec fn kind_label(error: Error) -> Seq<char> {
    match error {
        Error::Incomplete => "incomplete"@,
        Error::VarIntTooLong => "varint_too_long"@,
        Error::StringTooLong { .. } => "string_too_long"@,
        Error::NegativeLength(_) => "negative_length"@,
        Error::InvalidUtf8 => "invalid_utf8"@,
        Error::PacketTooLarge { .. } => "packet_too_large"@,
        Error::UnexpectedPacket { .. } => "unexpected_packet"@,
        Error::UnknownNextState(_) => "unknown_next_state"@,
        Error::NotMinecraft => "not_minecraft"@,
    }
}

/// A packet id as it is written in messages: the 32 bits in hexadecimal, with at
/// least two digits.
pub open spec fn id_text(id: i32) -> Seq<char> {
    let bits: nat = if id < 0 {
        (id + 0x1_0000_0000) as nat
    } else {
        id as nat
    };
    if bits < 16 {
        "0x0"@ + hex_text(bits)
    } else {
        "0x"@ + hex_text(bits)
    }
}

fn id_to_text(id: i32) -> (text: String)
    ensures
        text@ == id_text(id),
{
    let bits: u32 = if id < 0 {
        (id as i64 + 0x1_0000_0000) as u32
    } else {
        id as u32
    };
    let mut text = String::new();
    if bits < 16 {
        text.append("0x0");
    } else {
        text.append("0x");
    }
    push_hex_text(&mut text, bits);
    assert(text@ =~= id_text(id));
    text
}

/// An error in words.
pub open spec fn error_words(error: Error) -> Seq<char> {
    match error {
        Error::Incomplete => "need more bytes"@,
        Error::VarIntTooLong => "VarInt is longer than 5 bytes"@,
        Error::StringTooLong { max, actual } => "string too long: "@ + decimal(actual as nat)
            + " > "@ + decimal(max as nat) + ""@,
        Error::NegativeLength(length) => "negative length prefix: "@ + integer_text(length as int)
            + ""@,
        Error::InvalidUtf8 => "invalid UTF-8 in string field"@,
        Error::PacketTooLarge { max, actual } => "packet of "@ + decimal(actual as nat)
            + " bytes exceeds the "@ + decimal(max as nat) + " byte limit"@,
        Error::UnexpectedPacket { expected, actual } => "expected packet id "@ + id_text(expected)
            + ", got "@ + id_text(actual) + ""@,
        Error::UnknownNextState(state) => "unknown next_state "@ + integer_text(state as int)
            + " in handshake"@,
        Error::NotMinecraft => "not a Minecraft handshake"@,
    }
}

impl Error {
    /// The error in words.
    pub fn to_text(&self) -> (text: String)
        ensures
            text@ == error_words(*self),
    {
        match self {
            Error::Incomplete => "need more bytes".to_owned(),
            Error::VarIntTooLong => "VarInt is longer than 5 bytes".to_owned(),
            Error::StringTooLong { max, actual } => glue5(
                "string too long: ",
                decimal_text(*actual as u128).as_str(),
                " > ",
                decimal_text(*max as u128).as_str(),
                "",
            ),
            Error::NegativeLength(length) => glue3(
                "negative length prefix: ",
                integer_to_text(*length as i128).as_str(),
                "",
            ),
            Error::InvalidUtf8 => "invalid UTF-8 in string field".to_owned(),
            Error::PacketTooLarge { max, actual } => glue5(
                "packet of ",
                decimal_text(*actual as u128).as_str(),
                " bytes exceeds the ",
                decimal_text(*max as u128).as_str(),
                " byte limit",
            ),
            Error::UnexpectedPacket { expected, actual } => glue5(
                "expected packet id ",
                id_to_text(*expected).as_str(),
                ", got ",
                id_to_text(*actual).as_str(),
                "",
            ),
            Error::UnknownNextState(state) => glue3(
                "unknown next_state ",
                integer_to_text(*state as i128).as_str(),
                " in handshake",
            ),
            Error::NotMinecraft => "not a Minecraft handshake".to_owned(),
        }
    }

    /// True when more data could still turn this into a successful parse.
    pub fn is_incomplete(&self) -> (yes: bool)
        ensures
            yes == (*self is Incomplete),
    {
        matches!(self, Error::Incomplete)
    }

    /// The category of this error, for a metrics label.
    pub fn kind(&self) -> (kind: Kind)
        ensures
            kind.0@ == kind_label(*self),
    {
        Kind(
            match self {
                Error::Incomplete => "incomplete",
                Error::VarIntTooLong => "varint_too_long",
                Error::StringTooLong { .. } => "string_too_long",
                Error::NegativeLength(_) => "negative_length",
                Error::InvalidUtf8 => "invalid_utf8",
                Error::PacketTooLarge { .. } => "packet_too_large",
                Error::UnexpectedPacket { .. } => "unexpected_packet",
                Error::UnknownNextState(_) => "unknown_next_state",
                Error::NotMinecraft => "not_minecraft",
            },
        )
    }
}

/// Every error is counted under its own label.
pub proof fn errors_have_their_labels(max: usize, actual: usize, n: i32, m: i32)
    ensures
        kind_label(Error::Incomplete) == "incomplete"@,
        kind_label(Error::VarIntTooLong) == "varint_too_long"@,
        kind_label(Error::StringTooLong { max, actual }) == "string_too_long"@,
        kind_label(Error::NegativeLength(n)) == "negative_length"@,
        kind_label(Error::InvalidUtf8) == "invalid_utf8"@,
        kind_label(Error::PacketTooLarge { max, actual }) == "packet_too_large"@,
        kind_label(Error::UnexpectedPacket { expected: n, actual: m }) == "unexpected_packet"@,
        kind_label(Error::UnknownNextState(n)) == "unknown_next_state"@,
        kind_label(Error::NotMinecraft) == "not_minecraft"@,
{
}

/// A packet id is written in hexadecimal behind `0x`: two digits for a small one,
/// and all 32 bits of a negative one.
pub proof fn packet_ids_are_written_in_hexadecimal(id: i32)
    ensures
        0 <= id < 16 ==> id_text(id) == seq!['0', 'x', '0', hex_digit(id as nat)],
        id >= 16 ==> id_text(id) == seq!['0', 'x'] + hex_text(id as nat),
        id < 0 ==> id_text(id) == seq!['0', 'x'] + hex_text((id + 0x1_0000_0000) as nat),
{
    reveal_strlit("0x0");
    reveal_strlit("0x");
    assert("0x"@ =~= seq!['0', 'x']);
    if 0 <= id < 16 {
        assert(id_text(id) =~= seq!['0', 'x', '0', hex_digit(id as nat)]);
    }
}

/// Every error is told in its own words, with the numbers that it carries.
pub proof fn errors_are_told_apart(max: usize, actual: usize, n: i32, m: i32)
    ensures
        error_words(Error::Incomplete) == "need more bytes"@,
        error_words(Error::VarIntTooLong) == "VarInt is longer than 5 bytes"@,
        error_words(Error::StringTooLong { max, actual }) == "string too long: "@ + decimal(
            actual as nat,
        ) + " > "@ + decimal(max as nat),
        error_words(Error::NegativeLength(n)) == "negative length prefix: "@ + integer_text(
            n as int,
        ),
        error_words(Error::InvalidUtf8) == "invalid UTF-8 in string field"@,
        error_words(Error::PacketTooLarge { max, actual }) == "packet of "@ + decimal(
            actual as nat,
        ) + " bytes exceeds the "@ + decimal(max as nat) + " byte limit"@,
        error_words(Error::UnexpectedPacket { expected: n, actual: m }) == "expected packet id "@
            + id_text(n) + ", got "@ + id_text(m),
        error_words(Error::UnknownNextState(n)) == "unknown next_state "@ + integer_text(n as int)
            + " in handshake"@,
        error_words(Error::NotMinecraft) == "not a Minecraft handshake"@,
{
    reveal_strlit("");
    assert(""@ =~= Seq::<char>::empty());
    assert("string too long: "@ + decimal(actual as nat) + " > "@ + decimal(max as nat) + ""@
        =~= "string too long: "@ + decimal(actual as nat) + " > "@ + decimal(max as nat));
    assert("negative length prefix: "@ + integer_text(n as int) + ""@
        =~= "negative length prefix: "@ + integer_text(n as int));
    assert("expected packet id "@ + id_text(n) + ", got "@ + id_text(m) + ""@
        =~= "expected packet id "@ + id_text(n) + ", got "@ + id_text(m));
}

} // verus!
