//! The handshake, the first packet of every modern connection.

use vstd::prelude::*;
use vstd::string::StrSliceExecFns;
use vstd::utf8::encode_utf8;

use crate::bytes::{
    be_bytes, be_round_trip, be_value, is_prefix, lemma_be_bytes_len, lemma_pow256_values,
};
use crate::protocol::error::Error;
use crate::protocol::frame::{
    encode_packet, packet_at, packet_bytes, packet_round_trip, Frame, Packet, MAX_PACKET_SIZE,
};
use crate::protocol::varint::{varint_at, varint_bytes, varint_round_trip};
use crate::protocol::wire::{
    lemma_utf8_len, string_at, string_bytes, string_round_trip, Reader, Writer,
};
use crate::text::{
    chars_start_with, find, find_char, from_chars, lemma_find, lemma_find_is, lemma_lower_char,
    lower, lower_char, sub_chars, to_chars, to_lower, trim_end_of, trim_end_of_chars,
};

verus! {

/// Packet id of the handshake, the only packet in the handshaking state.
pub const HANDSHAKE_ID: i32 = 0x00;

/// Protocol limit for the server address field.
pub const MAX_ADDRESS_CHARS: usize = 255;

/// What the client wants to do next.
#[derive(Debug, Clone, Copy, PartialEq, Eq, Structural)]
pub enum NextState {
    /// Server list ping.
    Status,
    /// Normal join.
    Login,
    /// Server-initiated transfer, 1.20.5+. Routed exactly like `Login`.
    Transfer,
}

/// The state that each number on the wire stands for.
pub open spec fn next_state(value: i32) -> Result<NextState, Error> {
    if value == 1 {
        Ok(NextState::Status)
    } else if value == 2 {
        Ok(NextState::Login)
    } else if value == 3 {
        Ok(NextState::Transfer)
    } else {
        Err(Error::UnknownNextState(value))
    }
}

impl NextState {
    /// The number on the wire.
    pub open spec fn number(self) -> i32 {
        match self {
            NextState::Status => 1,
            NextState::Login => 2,
            NextState::Transfer => 3,
        }
    }

    /// The state that `value` stands for.
    pub fn from_i32(value: i32) -> (r: Result<Self, Error>)
        ensures
            r == next_state(value),
    {
        match value {
            1 => Ok(NextState::Status),
            2 => Ok(NextState::Login),
            3 => Ok(NextState::Transfer),
            other => Err(Error::UnknownNextState(other)),
        }
    }

    /// The number on the wire.
    pub fn as_i32(self) -> (value: i32)
        ensures
            value == self.number(),
    {
        match self {
            NextState::Status => 1,
            NextState::Login => 2,
            NextState::Transfer => 3,
        }
    }

    /// Both login and transfer end up connected to a backend.
    pub fn is_join(self) -> (yes: bool)
        ensures
            yes == !(self is Status),
    {
        matches!(self, NextState::Login | NextState::Transfer)
    }

    /// The name of the state.
    pub fn as_str(self) -> (name: &'static str)
        ensures
            name@ == match self {
                NextState::Status => "status"@,
                NextState::Login => "login"@,
                NextState::Transfer => "transfer"@,
            },
    {
        match self {
            NextState::Status => "status",
            NextState::Login => "login",
            NextState::Transfer => "transfer",
        }
    }
}

/// Every state is read back from its number.
pub proof fn next_state_round_trip(state: NextState)
    ensures
        next_state(state.number()) == Ok::<NextState, Error>(state),
{
}

/// A decoded handshake.
#[derive(Debug, Clone, PartialEq, Eq)]
pub struct Handshake {
    /// The protocol version that the client speaks.
    pub protocol_version: i32,
    /// The address field exactly as the client sent it, including any `\0`
    /// separated extra data. Use [`Handshake::hostname`] for routing.
    pub server_address: String,
    /// The port that the client connected to.
    pub server_port: u16,
    /// What the client wants to do next.
    pub next_state: NextState,
}

/// A handshake as a value.
pub ghost struct HandshakeFields {
    pub protocol_version: i32,
    pub server_address: Seq<char>,
    pub server_port: u16,
    pub next_state: NextState,
}

impl View for Handshake {
    type V = HandshakeFields;

    open spec fn view(&self) -> HandshakeFields {
        HandshakeFields {
            protocol_version: self.protocol_version,
            server_address: self.server_address@,
            server_port: self.server_port,
            next_state: self.next_state,
        }
    }
}

/// What reading the fields of a handshake from `bytes` gives, and how many
/// bytes that consumes.
pub open spec fn handshake_at(bytes: Seq<u8>) -> (Result<HandshakeFields, Error>, nat) {
    match varint_at(bytes) {
        Err(error) => (Err(error), 0),
        Ok((protocol_version, n0)) => {
            let (address, n1) = string_at(bytes.skip(n0 as int), MAX_ADDRESS_CHARS as nat);
            let at_port = bytes.skip(n0 as int).skip(n1 as int);
            match address {
                Err(error) => (Err(error), n0 + n1),
                Ok(server_address) => if at_port.len() < 2 {
                    (Err(Error::Incomplete), n0 + n1)
                } else {
                    match varint_at(at_port.skip(2)) {
                        Err(error) => (Err(error), n0 + n1 + 2),
                        Ok((state, n2)) => match next_state(state) {
                            Err(error) => (Err(error), n0 + n1 + 2 + n2),
                            Ok(next_state) => (
                                Ok(
                                    HandshakeFields {
                                        protocol_version,
                                        server_address,
                                        server_port: be_value(at_port.take(2)) as u16,
                                        next_state,
                                    },
                                ),
                                n0 + n1 + 2 + n2,
                            ),
                        },
                    }
                },
            }
        },
    }
}

/// What decoding a packet as a handshake gives.
pub open spec fn handshake_of(packet: Packet) -> Result<HandshakeFields, Error> {
    if packet.id == HANDSHAKE_ID {
        handshake_at(packet.body).0
    } else {
        Err(Error::UnexpectedPacket { expected: HANDSHAKE_ID, actual: packet.id })
    }
}

/// The body of a handshake packet.
pub open spec fn handshake_body(fields: HandshakeFields) -> Seq<u8> {
    varint_bytes(fields.protocol_version) + string_bytes(fields.server_address) + be_bytes(
        fields.server_port as nat,
        2,
    ) + varint_bytes(fields.next_state.number())
}

/// The packet of a handshake.
pub open spec fn handshake_bytes(fields: HandshakeFields) -> Seq<u8> {
    packet_bytes(HANDSHAKE_ID, handshake_body(fields))
}

/// The host that an address field asks for: what stands before the first `\0`,
/// without dots at the end, in lower case.
pub open spec fn routing_host(address: Seq<char>) -> Seq<char> {
    lower(trim_end_of(address.take(find(address, '\0') as int), '.'))
}

/// What stands behind the first `\0` of an address field.
pub open spec fn appended_data(address: Seq<char>) -> Option<Seq<char>> {
    if find(address, '\0') < address.len() {
        Some(address.skip(find(address, '\0') as int + 1))
    } else {
        None
    }
}

/// Whether an address field carries a modloader marker.
pub open spec fn has_modloader_marker(address: Seq<char>) -> bool {
    match appended_data(address) {
        Some(extra) => {
            let extra = trim_end_of(extra, '\0');
            is_prefix("FML"@, extra) || is_prefix("FORGE"@, extra)
        },
        None => false,
    }
}

impl Handshake {
    /// Decodes a packet as a handshake.
    pub fn decode(frame: &Frame<'_>) -> (r: Result<Self, Error>)
        ensures
            match handshake_of(frame.packet()) {
                Ok(fields) => r is Ok && r->Ok_0@ == fields,
                Err(error) => r is Err && r->Err_0 == error,
            },
    {
        match frame.expect_id(HANDSHAKE_ID) {
            Ok(()) => {},
            Err(error) => return Err(error),
        }
        let mut r = frame.reader();
        Self::decode_body(&mut r)
    }

    /// Reads the fields of a handshake.
    pub fn decode_body(r: &mut Reader<'_>) -> (result: Result<Self, Error>)
        requires
            old(r).wf(),
        ensures
            match handshake_at(old(r).unread()).0 {
                Ok(fields) => result is Ok && result->Ok_0@ == fields,
                Err(error) => result is Err && result->Err_0 == error,
            },
            old(r).moved(final(r), handshake_at(old(r).unread()).1),
    {
        let ghost bytes = r.unread();
        let ghost start = r.at();
        proof {
            assert(bytes.skip(0) =~= bytes);
        }
        let protocol_version: i32 = match r.varint() {
            Ok(value) => value,
            Err(error) => return Err(error),
        };
        let ghost n0 = varint_at(bytes)->Ok_0.1;
        let ghost at_address = r.unread();
        let ghost n1 = string_at(at_address, MAX_ADDRESS_CHARS as nat).1;
        let address = r.string(MAX_ADDRESS_CHARS);
        proof {
            assert(r.unread() =~= bytes.skip((n0 + n1) as int));
        }
        let server_address: String = match address {
            Ok(value) => value,
            Err(error) => return Err(error),
        };
        let ghost at_port = r.unread();
        let server_port: u16 = match r.u16() {
            Ok(value) => value,
            Err(error) => return Err(error),
        };
        proof {
            assert(r.unread() =~= bytes.skip((n0 + n1 + 2) as int));
        }
        let state: i32 = match r.varint() {
            Ok(value) => value,
            Err(error) => return Err(error),
        };
        proof {
            let n2 = varint_at(at_port.skip(2))->Ok_0.1;
            assert(r.unread() =~= bytes.skip((n0 + n1 + 2 + n2) as int));
        }
        let next_state = match NextState::from_i32(state) {
            Ok(value) => value,
            Err(error) => return Err(error),
        };
        Ok(Self { protocol_version, server_address, server_port, next_state })
    }

    /// The packet of this handshake.
    pub fn encode(&self) -> (packet: Vec<u8>)
        ensures
            packet@ == handshake_bytes(self@),
    {
        let mut w = Writer::new();
        w.varint(self.protocol_version);
        w.string(self.server_address.as_str());
        w.u16(self.server_port);
        w.varint(self.next_state.as_i32());
        assert(w@ =~= handshake_body(self@));
        encode_packet(HANDSHAKE_ID, w.as_slice())
    }

    /// The hostname the client actually typed, normalised for routing.
    ///
    /// Three things have to be stripped, and all three show up in the wild:
    ///
    /// * Forge and NeoForge append a marker (`\0FML\0`, `\0FML2\0`, `\0FML3\0`)
    /// * BungeeCord-style forwarding appends `\0ip\0uuid\0properties`
    /// * SRV resolution can leave a fully-qualified trailing dot
    ///
    /// Routing on the raw field would silently break every modded client.
    pub fn hostname(&self) -> (host: String)
        ensures
            host@ == routing_host(self.server_address@),
    {
        let address = to_chars(self.server_address.as_str());
        let end: usize = find_char(address.as_slice(), '\0');
        let host = sub_chars(address.as_slice(), 0, end);
        assert(host@ =~= address@.take(end as int));
        let host = trim_end_of_chars(host, '.');
        from_chars(to_lower(host).as_slice())
    }

    /// Everything after the first `\0`, if the client appended anything.
    pub fn extra_data(&self) -> (extra: Option<&str>)
        ensures
            match appended_data(self.server_address@) {
                Some(data) => extra is Some && extra->Some_0@ == data,
                None => extra is None,
            },
    {
        let address = to_chars(self.server_address.as_str());
        let at: usize = find_char(address.as_slice(), '\0');
        if at < address.len() {
            let extra = self.server_address.as_str().substring_char(at + 1, address.len());
            assert(extra@ =~= self.server_address@.skip(at + 1));
            Some(extra)
        } else {
            None
        }
    }

    /// True when the address carries a Forge/NeoForge modloader marker.
    pub fn is_modded_handshake(&self) -> (yes: bool)
        ensures
            yes == has_modloader_marker(self.server_address@),
    {
        match self.extra_data() {
            Some(extra) => {
                let extra = to_chars(extra);
                let extra = trim_end_of_chars(extra.as_slice(), '\0');
                chars_start_with(extra, to_chars("FML").as_slice()) || chars_start_with(
                    extra,
                    to_chars("FORGE").as_slice(),
                )
            },
            None => false,
        }
    }

    /// Best-effort version name for logs only. An unknown protocol number is
    /// never an error: the gateway forwards it regardless.
    pub fn version_name(&self) -> (name: Option<&'static str>)
        ensures
            match release_name(self.protocol_version) {
                Some(label) => name is Some && name->Some_0@ == label,
                None => name is None,
            },
    {
        version_name(self.protocol_version)
    }
}

/// The release that speaks a protocol number, as far as it is listed.
pub open spec fn release_name(protocol: i32) -> Option<Seq<char>> {
    if protocol == 4 {
        Some("1.7.2-1.7.5"@)
    } else if protocol == 5 {
        Some("1.7.6-1.7.10"@)
    } else if protocol == 47 {
        Some("1.8.x"@)
    } else if 107 <= protocol <= 110 {
        Some("1.9.x"@)
    } else if protocol == 210 {
        Some("1.10.x"@)
    } else if protocol == 315 || protocol == 316 {
        Some("1.11.x"@)
    } else if protocol == 335 || protocol == 338 || protocol == 340 {
        Some("1.12.x"@)
    } else if protocol == 393 || protocol == 401 || protocol == 404 {
        Some("1.13.x"@)
    } else if protocol == 477 || protocol == 480 || protocol == 485 || protocol == 490 || protocol
        == 498 {
        Some("1.14.x"@)
    } else if protocol == 573 || protocol == 575 || protocol == 578 {
        Some("1.15.x"@)
    } else if protocol == 735 || protocol == 736 || protocol == 751 || protocol == 753 || protocol
        == 754 {
        Some("1.16.x"@)
    } else if protocol == 755 || protocol == 756 {
        Some("1.17.x"@)
    } else if protocol == 757 || protocol == 758 {
        Some("1.18.x"@)
    } else if 759 <= protocol <= 762 {
        Some("1.19.x"@)
    } else if 763 <= protocol <= 766 {
        Some("1.20.x"@)
    } else if 767 <= protocol <= 773 {
        Some("1.21.x"@)
    } else {
        None
    }
}

/// Display-only mapping of protocol numbers to release names.
///
/// Deliberately incomplete: new versions simply log as `protocol=<n>` and are
/// proxied like any other.
pub fn version_name(protocol: i32) -> (name: Option<&'static str>)
    ensures
        match release_name(protocol) {
            Some(label) => name is Some && name->Some_0@ == label,
            None => name is None,
        },
{
    match protocol {
        4 => Some("1.7.2-1.7.5"),
        5 => Some("1.7.6-1.7.10"),
        47 => Some("1.8.x"),
        107..=110 => Some("1.9.x"),
        210 => Some("1.10.x"),
        315 | 316 => Some("1.11.x"),
        335 | 338 | 340 => Some("1.12.x"),
        393 | 401 | 404 => Some("1.13.x"),
        477 | 480 | 485 | 490 | 498 => Some("1.14.x"),
        573 | 575 | 578 => Some("1.15.x"),
        735 | 736 | 751 | 753 | 754 => Some("1.16.x"),
        755 | 756 => Some("1.17.x"),
        757 | 758 => Some("1.18.x"),
        759..=762 => Some("1.19.x"),
        763..=766 => Some("1.20.x"),
        767..=773 => Some("1.21.x"),
        _ => None,
    }
}

/// The fields of a handshake are read back from its body, whatever follows.
pub proof fn handshake_body_round_trip(fields: HandshakeFields, rest: Seq<u8>)
    requires
        fields.server_address.len() <= MAX_ADDRESS_CHARS,
    ensures
        handshake_at(handshake_body(fields) + rest) == (
            Ok::<HandshakeFields, Error>(fields),
            handshake_body(fields).len(),
        ),
{
    let version = varint_bytes(fields.protocol_version);
    let address = string_bytes(fields.server_address);
    let port = be_bytes(fields.server_port as nat, 2);
    let state = varint_bytes(fields.next_state.number());
    let bytes = handshake_body(fields) + rest;
    lemma_utf8_len(fields.server_address);
    lemma_pow256_values();
    be_round_trip(fields.server_port as nat, 2);
    assert(bytes =~= version + (address + (port + (state + rest))));
    varint_round_trip(fields.protocol_version, address + (port + (state + rest)));
    assert(bytes.skip(version.len() as int) =~= address + (port + (state + rest)));
    string_round_trip(fields.server_address, MAX_ADDRESS_CHARS as nat, port + (state + rest));
    let at_port = bytes.skip(version.len() as int).skip(address.len() as int);
    assert(at_port =~= port + (state + rest));
    assert(at_port.take(2) =~= port);
    assert(at_port.skip(2) =~= state + rest);
    varint_round_trip(fields.next_state.number(), rest);
    next_state_round_trip(fields.next_state);
}

/// A handshake that was encoded is decoded to the same fields, whatever the
/// client sends behind it, and encoding it again gives the same bytes.
pub proof fn handshake_round_trip(fields: HandshakeFields, rest: Seq<u8>)
    requires
        fields.server_address.len() <= MAX_ADDRESS_CHARS,
    ensures
        packet_at(handshake_bytes(fields) + rest, MAX_PACKET_SIZE as nat) is Ok,
        handshake_of(
            packet_at(handshake_bytes(fields) + rest, MAX_PACKET_SIZE as nat)->Ok_0,
        ) == Ok::<HandshakeFields, Error>(fields),
        (handshake_bytes(fields) + rest).take(
            packet_at(handshake_bytes(fields) + rest, MAX_PACKET_SIZE as nat)->Ok_0.total_len as int,
        ) == handshake_bytes(fields),
{
    let body = handshake_body(fields);
    lemma_utf8_len(fields.server_address);
    varint_round_trip(fields.protocol_version, Seq::empty());
    varint_round_trip(fields.next_state.number(), Seq::empty());
    varint_round_trip(HANDSHAKE_ID, Seq::empty());
    varint_round_trip(encode_utf8(fields.server_address).len() as i32, Seq::empty());
    lemma_be_bytes_len(fields.server_port as nat, 2);
    packet_round_trip(HANDSHAKE_ID, body, rest, MAX_PACKET_SIZE as nat);
    handshake_body_round_trip(fields, Seq::empty());
    assert(body + Seq::<u8>::empty() =~= body);
    assert((handshake_bytes(fields) + rest).take(handshake_bytes(fields).len() as int)
        =~= handshake_bytes(fields));
}

/// Whatever a modloader or a proxy appends behind a `\0` does not change where
/// a client is routed, and comes back as the extra data.
pub proof fn appended_data_does_not_route(host: Seq<char>, extra: Seq<char>)
    requires
        !host.contains('\0'),
    ensures
        routing_host(host + seq!['\0'] + extra) == routing_host(host),
        appended_data(host + seq!['\0'] + extra) == Some(extra),
        appended_data(host) == None::<Seq<char>>,
{
    let address = host + seq!['\0'] + extra;
    assert(address[host.len() as int] == '\0');
    assert forall|i: int| 0 <= i < host.len() implies address[i] != '\0' by {
        assert(host[i] == address[i]);
        assert(host.contains(host[i]));
    }
    lemma_find_is(address, '\0', host.len() as int);
    lemma_find_is(host, '\0', host.len() as int);
    assert(address.take(host.len() as int) =~= host);
    assert(host.take(host.len() as int) =~= host);
    assert(address.skip(host.len() as int + 1) =~= extra);
}

/// A fully qualified name routes like the same name without the final dot.
pub proof fn trailing_dot_does_not_route(host: Seq<char>)
    requires
        !host.contains('\0'),
    ensures
        routing_host(host.push('.')) == routing_host(host),
{
    let dotted = host.push('.');
    assert forall|i: int| 0 <= i < host.len() implies host[i] != '\0' by {
        assert(host.contains(host[i]));
    }
    lemma_find_is(host, '\0', host.len() as int);
    lemma_find_is(dotted, '\0', dotted.len() as int);
    assert(host.take(host.len() as int) =~= host);
    assert(dotted.take(dotted.len() as int) =~= dotted);
    assert(dotted.drop_last() =~= host);
}

/// The case of the letters that a client typed does not change the routing.
pub proof fn case_does_not_route(a: Seq<char>, b: Seq<char>)
    requires
        lower(a) == lower(b),
    ensures
        routing_host(a) == routing_host(b),
{
    assert(a.len() == lower(a).len() && b.len() == lower(b).len());
    assert forall|i: int| 0 <= i < a.len() implies (a[i] == '\0') == (b[i] == '\0') by {
        assert(lower(a)[i] == lower_char(a[i]) && lower(b)[i] == lower_char(b[i]));
        lemma_lower_char(a[i]);
        lemma_lower_char(b[i]);
    }
    lemma_find(a, '\0');
    lemma_find(b, '\0');
    lemma_find_is(b, '\0', find(a, '\0') as int);
    let x = a.take(find(a, '\0') as int);
    let y = b.take(find(b, '\0') as int);
    assert(lower(x) =~= lower(a).take(x.len() as int));
    assert(lower(y) =~= lower(b).take(y.len() as int));
    lemma_trim_keeps_case(x, y);
}

proof fn lemma_trim_keeps_case(x: Seq<char>, y: Seq<char>)
    requires
        lower(x) == lower(y),
    ensures
        lower(trim_end_of(x, '.')) == lower(trim_end_of(y, '.')),
    decreases x.len(),
{
    assert(x.len() == lower(x).len() && y.len() == lower(y).len());
    if x.len() > 0 {
        assert(lower(x).last() == lower_char(x.last()) && lower(y).last() == lower_char(y.last()));
        lemma_lower_char(x.last());
        lemma_lower_char(y.last());
        assert(lower(x.drop_last()) =~= lower(x).drop_last());
        assert(lower(y.drop_last()) =~= lower(y).drop_last());
        if x.last() == '.' {
            lemma_trim_keeps_case(x.drop_last(), y.drop_last());
        }
    }
}

/// One asks for the status, two for a login and three for a transfer; no other
/// number is a state.
pub proof fn states_have_their_numbers(value: i32)
    ensures
        next_state(1) == Ok::<NextState, Error>(NextState::Status),
        next_state(2) == Ok::<NextState, Error>(NextState::Login),
        next_state(3) == Ok::<NextState, Error>(NextState::Transfer),
        value < 1 || value > 3 ==> next_state(value) == Err::<NextState, Error>(
            Error::UnknownNextState(value),
        ),
        NextState::Status.number() == 1,
        NextState::Login.number() == 2,
        NextState::Transfer.number() == 3,
        HANDSHAKE_ID == 0,
{
}

/// On the wire the protocol version comes first, then the address, the port and
/// the state.
pub proof fn handshakes_have_their_fields_in_order(
    version: i32,
    address: Seq<char>,
    port: u16,
    state: NextState,
)
    ensures
        handshake_body(
            HandshakeFields {
                protocol_version: version,
                server_address: address,
                server_port: port,
                next_state: state,
            },
        ) == varint_bytes(version) + string_bytes(address) + seq![
            (port / 256) as u8,
            (port % 256) as u8,
        ] + varint_bytes(
            match state {
                NextState::Status => 1,
                NextState::Login => 2,
                NextState::Transfer => 3,
            },
        ),
        MAX_ADDRESS_CHARS == 255,
{
    let n = port as nat;
    assert(be_bytes(n / 256 / 256, 0) =~= Seq::<u8>::empty());
    assert(be_bytes(n / 256, 1) =~= seq![(n / 256 % 256) as u8]);
    assert(be_bytes(n, 2) =~= seq![(port / 256) as u8, (port % 256) as u8]);
}

/// Only a handshake packet is read as one.
pub proof fn other_packets_are_no_handshake(packet: Packet)
    ensures
        packet.id != 0 ==> handshake_of(packet) == Err::<HandshakeFields, Error>(
            Error::UnexpectedPacket { expected: 0, actual: packet.id },
        ),
        packet.id == 0 ==> handshake_of(packet) == handshake_at(packet.body).0,
{
}

/// A host without dots at its end is routed as it was typed, in lower case.
pub proof fn plain_hosts_are_routed_as_typed(host: Seq<char>)
    requires
        !host.contains('\0'),
        host.len() > 0 ==> host.last() != '.',
    ensures
        routing_host(host) == lower(host),
        appended_data(host) is None,
        !has_modloader_marker(host),
{
    assert forall|i: int| 0 <= i < host.len() implies host[i] != '\0' by {
        assert(host.contains(host[i]));
    }
    lemma_find_is(host, '\0', host.len() as int);
    assert(host.take(host.len() as int) =~= host);
}

/// A client is a modded one exactly where the data behind the host begins with
/// `FML` or `FORGE`, whatever follows the word.
pub proof fn modded_clients_say_so(host: Seq<char>, extra: Seq<char>)
    requires
        !host.contains('\0'),
    ensures
        appended_data(host + seq!['\0'] + extra) == Some(extra),
        has_modloader_marker(host + seq!['\0'] + extra) == (extra.len() >= 3 && extra.take(3)
            == seq!['F', 'M', 'L'] || extra.len() >= 5 && extra.take(5) == seq![
            'F',
            'O',
            'R',
            'G',
            'E',
        ]),
{
    let address = host + seq!['\0'] + extra;
    assert forall|i: int| 0 <= i < host.len() implies address[i] != '\0' by {
        assert(host.contains(host[i]));
        assert(address[i] == host[i]);
    }
    lemma_find_is(address, '\0', host.len() as int);
    assert(address.skip(host.len() as int + 1) =~= extra);
    reveal_strlit("FML");
    reveal_strlit("FORGE");
    assert("FML"@ =~= seq!['F', 'M', 'L']);
    assert("FORGE"@ =~= seq!['F', 'O', 'R', 'G', 'E']);
    lemma_words_survive_trimming(extra, "FML"@);
    lemma_words_survive_trimming(extra, "FORGE"@);
}

proof fn lemma_words_survive_trimming(s: Seq<char>, word: Seq<char>)
    requires
        word.len() > 0,
        forall|i: int| 0 <= i < word.len() ==> #[trigger] word[i] != '\0',
    ensures
        is_prefix(word, trim_end_of(s, '\0')) == (s.len() >= word.len() && s.take(
            word.len() as int,
        ) == word),
    decreases s.len(),
{
    let n = word.len() as int;
    if s.len() > 0 && s.last() == '\0' {
        lemma_words_survive_trimming(s.drop_last(), word);
        if s.len() >= n && s.take(n) == word {
            assert(s.len() > n) by {
                if s.len() == n {
                    assert(s.take(n)[n - 1] == s.last());
                    assert(word[n - 1] != '\0');
                }
            }
            assert(s.drop_last().take(n) =~= s.take(n));
        } else if s.drop_last().len() >= n {
            assert(s.drop_last().take(n) =~= s.take(n));
        }
    }
}

/// The releases that speak the listed protocol numbers.
pub proof fn releases_speak_their_protocols(p: i32)
    ensures
        release_name(4) == Some("1.7.2-1.7.5"@),
        release_name(5) == Some("1.7.6-1.7.10"@),
        release_name(47) == Some("1.8.x"@),
        107 <= p <= 110 ==> release_name(p) == Some("1.9.x"@),
        release_name(210) == Some("1.10.x"@),
        p == 315 || p == 316 ==> release_name(p) == Some("1.11.x"@),
        p == 335 || p == 338 || p == 340 ==> release_name(p) == Some("1.12.x"@),
        p == 393 || p == 401 || p == 404 ==> release_name(p) == Some("1.13.x"@),
        p == 477 || p == 480 || p == 485 || p == 490 || p == 498 ==> release_name(p) == Some(
            "1.14.x"@,
        ),
        p == 573 || p == 575 || p == 578 ==> release_name(p) == Some("1.15.x"@),
        p == 735 || p == 736 || p == 751 || p == 753 || p == 754 ==> release_name(p) == Some(
            "1.16.x"@,
        ),
        p == 755 || p == 756 ==> release_name(p) == Some("1.17.x"@),
        p == 757 || p == 758 ==> release_name(p) == Some("1.18.x"@),
        759 <= p <= 762 ==> release_name(p) == Some("1.19.x"@),
        763 <= p <= 766 ==> release_name(p) == Some("1.20.x"@),
        767 <= p <= 773 ==> release_name(p) == Some("1.21.x"@),
        p < 4 || p > 773 || 5 < p < 47 || 47 < p < 107 || 110 < p < 210 || 210 < p < 315
            ==> release_name(p) is None,
{
}

} // verus!
