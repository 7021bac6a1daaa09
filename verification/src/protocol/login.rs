//! Login start (for the player name in logs) and login disconnect (so the
//! gateway can tell a player *why* it will not connect them).

use vstd::arithmetic::power::{lemma_pow_adds, pow};
use vstd::prelude::*;

use crate::bytes::{be_bytes, be_round_trip, be_value, lemma_pow256_values};
use crate::json::{parsed, print_json, printed, readable, Json, READ_DEPTH};
use crate::protocol::error::Error;
use crate::protocol::frame::{encode_packet, packet_bytes, Frame, Packet};
use crate::net::{hex_digit_value, hex_value};
use crate::protocol::wire::{
    lemma_utf8_len, string_at, string_bytes, string_round_trip, Writer,
};
use crate::text::{hex, hex_digit, push_chars, push_hex, sub_chars, to_chars};

verus! {

/// Packet id of login start.
pub const LOGIN_START_ID: i32 = 0x00;

/// Packet id of the disconnect packet in the login state.
pub const LOGIN_DISCONNECT_ID: i32 = 0x00;

/// Protocol limit for a player name.
pub const MAX_NAME_CHARS: usize = 16;

/// Who is logging in.
#[derive(Debug, Clone, PartialEq, Eq)]
pub struct LoginStart {
    /// The player's name.
    pub name: String,
    /// Sent by 1.19.3+ clients. It is client-asserted and unauthenticated:
    /// useful for logs, never for authorisation.
    pub uuid: Option<u128>,
}

/// What decoding a packet as login start gives: the name, and the id where
/// sixteen bytes of it follow.
pub open spec fn login_start_of(packet: Packet) -> Result<(Seq<char>, Option<u128>), Error> {
    if packet.id != LOGIN_START_ID {
        Err(Error::UnexpectedPacket { expected: LOGIN_START_ID, actual: packet.id })
    } else {
        let (name, used) = string_at(packet.body, MAX_NAME_CHARS as nat);
        let rest = packet.body.skip(used as int);
        match name {
            Err(error) => Err(error),
            Ok(name) => Ok(
                (
                    name,
                    if rest.len() >= 16 {
                        Some(be_value(rest.take(16)) as u128)
                    } else {
                        None
                    },
                ),
            ),
        }
    }
}

/// An id in its usual form, `8-4-4-4-12` hexadecimal digits.
pub open spec fn uuid_text(uuid: u128) -> Seq<char> {
    let h = hex(uuid as nat, 32);
    h.subrange(0, 8) + seq!['-'] + h.subrange(8, 12) + seq!['-'] + h.subrange(12, 16) + seq!['-']
        + h.subrange(16, 20) + seq!['-'] + h.subrange(20, 32)
}

impl LoginStart {
    /// Decodes a packet as login start.
    ///
    /// The layout after the name changed repeatedly between 1.19 and 1.20.2.
    /// Anything that cannot be read is simply not reported.
    pub fn decode(frame: &Frame<'_>) -> (r: Result<Self, Error>)
        ensures
            match login_start_of(frame.packet()) {
                Ok((name, uuid)) => r is Ok && r->Ok_0.name@ == name && r->Ok_0.uuid == uuid,
                Err(error) => r is Err && r->Err_0 == error,
            },
    {
        match frame.expect_id(LOGIN_START_ID) {
            Ok(()) => {},
            Err(error) => return Err(error),
        }
        let mut r = frame.reader();
        let name = match r.string(MAX_NAME_CHARS) {
            Ok(name) => name,
            Err(error) => return Err(error),
        };
        let uuid = match r.uuid() {
            Ok(uuid) => Some(uuid),
            Err(_) => None,
        };
        Ok(Self { name, uuid })
    }

    /// The id as text, where the client sent one.
    pub fn uuid_string(&self) -> (text: Option<String>)
        ensures
            match self.uuid {
                Some(uuid) => text is Some && text->Some_0@ == uuid_text(uuid),
                None => text is None,
            },
    {
        match self.uuid {
            Some(uuid) => {
                let mut digits = String::new();
                push_hex(&mut digits, uuid, 32);
                let h = to_chars(digits.as_str());
                proof {
                    lemma_hex_len(uuid as nat, 32);
                    assert(h@ =~= hex(uuid as nat, 32));
                }
                let mut text = String::new();
                push_chars(&mut text, sub_chars(h.as_slice(), 0, 8));
                text.push('-');
                push_chars(&mut text, sub_chars(h.as_slice(), 8, 12));
                text.push('-');
                push_chars(&mut text, sub_chars(h.as_slice(), 12, 16));
                text.push('-');
                push_chars(&mut text, sub_chars(h.as_slice(), 16, 20));
                text.push('-');
                push_chars(&mut text, sub_chars(h.as_slice(), 20, 32));
                assert(text@ =~= uuid_text(uuid));
                Some(text)
            },
            None => None,
        }
    }
}

proof fn lemma_hex_len(n: nat, len: nat)
    ensures
        hex(n, len).len() == len,
    decreases len,
{
    if len > 0 {
        lemma_hex_len(n / 16, (len - 1) as nat);
    }
}

/// The disconnect packet that carries a JSON text.
pub open spec fn disconnect_bytes(reason: Seq<char>) -> Seq<u8> {
    packet_bytes(LOGIN_DISCONNECT_ID, string_bytes(reason))
}

/// Disconnect packet for the login state, carrying a chat component.
pub fn encode_disconnect(reason: &Json) -> (packet: Vec<u8>)
    ensures
        packet@ == disconnect_bytes(printed(reason.value())),
        readable(reason.value(), READ_DEPTH as nat) ==> parsed(printed(reason.value())) == Some(
            reason.value(),
        ),
{
    encode_login_disconnect(print_json(reason).as_str())
}

/// A login-state disconnect carrying a JSON chat component. The login state
/// uses JSON text in every protocol version, unlike later states.
pub fn encode_login_disconnect(reason_json: &str) -> (packet: Vec<u8>)
    ensures
        packet@ == disconnect_bytes(reason_json@),
{
    let mut w = Writer::new();
    w.string(reason_json);
    assert(w@ =~= string_bytes(reason_json@));
    encode_packet(LOGIN_DISCONNECT_ID, w.as_slice())
}

proof fn lemma_hex_digits(n: nat, len: nat)
    requires
        n < pow(16, len),
    ensures
        hex(n, len).len() == len,
        hex_value(hex(n, len)) == Some(n),
        forall|i: int|
            0 <= i < len ==> '0' <= #[trigger] hex(n, len)[i] <= '9' || 'a' <= hex(n, len)[i]
                <= 'f',
    decreases len,
{
    reveal(pow);
    let s = hex(n, len);
    if len > 0 {
        assert(n / 16 < pow(16, (len - 1) as nat)) by (nonlinear_arith)
            requires
                n < 16 * pow(16, (len - 1) as nat),
        ;
        lemma_hex_digits(n / 16, (len - 1) as nat);
        let before = hex(n / 16, (len - 1) as nat);
        assert(s.drop_last() =~= before);
        let d = n % 16;
        let c = hex_digit(d);
        assert(d < 10 ==> c as u32 == 48 + d);
        assert(d >= 10 ==> c as u32 == 87 + d);
        assert(hex_digit_value(c) == Some(d));
        assert forall|i: int| 0 <= i < len implies '0' <= #[trigger] s[i] <= '9' || 'a' <= s[i]
            <= 'f' by {
            if i < len - 1 {
                assert(s[i] == before[i]);
            }
        }
    }
}

/// An id is written in 32 lower-case hexadecimal digits that spell it, with
/// dashes behind the eighth, the twelfth, the sixteenth and the twentieth.
pub proof fn ids_are_spelled_by_their_digits(uuid: u128)
    ensures
        ({
            let s = uuid_text(uuid);
            let digits = s.subrange(0, 8) + s.subrange(9, 13) + s.subrange(14, 18) + s.subrange(
                19,
                23,
            ) + s.subrange(24, 36);
            &&& s.len() == 36
            &&& s[8] == '-' && s[13] == '-' && s[18] == '-' && s[23] == '-'
            &&& hex_value(digits) == Some(uuid as nat)
            &&& forall|i: int|
                0 <= i < 32 ==> '0' <= #[trigger] digits[i] <= '9' || 'a' <= digits[i] <= 'f'
        }),
{
    assert(pow(16, 32) == 0x1_0000_0000_0000_0000_0000_0000_0000_0000) by {
        lemma_pow_adds(16, 16, 16);
        lemma_pow_adds(16, 8, 8);
        lemma_pow_adds(16, 4, 4);
        reveal_with_fuel(pow, 5);
        assert(pow(16, 4) == 0x1_0000);
        assert(pow(16, 8) == 0x1_0000int * 0x1_0000);
        assert(pow(16, 16) == 0x1_0000_0000int * 0x1_0000_0000);
        assert(pow(16, 32) == 0x1_0000_0000_0000_0000int * 0x1_0000_0000_0000_0000);
    }
    lemma_hex_digits(uuid as nat, 32);
    let h = hex(uuid as nat, 32);
    let s = uuid_text(uuid);
    let digits = s.subrange(0, 8) + s.subrange(9, 13) + s.subrange(14, 18) + s.subrange(19, 23)
        + s.subrange(24, 36);
    assert(digits =~= h);
}

/// A login carries the player's name, and an id where sixteen bytes of it follow;
/// with fewer there is none. Other packets are no login.
pub proof fn logins_carry_name_and_id(name: Seq<char>, uuid: u128, rest: Seq<u8>, id: i32, len: nat)
    requires
        name.len() <= 16,
    ensures
        login_start_of(
            Packet {
                id: 0,
                body: string_bytes(name) + (be_bytes(uuid as nat, 16) + rest),
                total_len: len,
            },
        ) == Ok::<(Seq<char>, Option<u128>), Error>((name, Some(uuid))),
        rest.len() < 16 ==> login_start_of(
            Packet { id: 0, body: string_bytes(name) + rest, total_len: len },
        ) == Ok::<(Seq<char>, Option<u128>), Error>((name, None)),
        id != 0 ==> login_start_of(Packet { id, body: rest, total_len: len }) == Err::<
            (Seq<char>, Option<u128>),
            Error,
        >(Error::UnexpectedPacket { expected: 0, actual: id }),
        LOGIN_DISCONNECT_ID == 0,
{
    let spelled = be_bytes(uuid as nat, 16);
    lemma_utf8_len(name);
    lemma_pow256_values();
    be_round_trip(uuid as nat, 16);
    string_round_trip(name, 16, spelled + rest);
    string_round_trip(name, 16, rest);
    let used = string_bytes(name).len() as int;
    assert((string_bytes(name) + (spelled + rest)).skip(used) =~= spelled + rest);
    assert((spelled + rest).take(16) =~= spelled);
    assert((string_bytes(name) + rest).skip(used) =~= rest);
}

} // verus!
