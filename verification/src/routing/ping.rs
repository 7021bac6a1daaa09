//! Client side of the status ping, used by health checks.
//!
//! A TCP connect only proves something is listening. A status ping proves the
//! server is actually answering Minecraft, and hands back its player counts and
//! version as a bonus.

use vstd::prelude::*;
use vstd::utf8::encode_utf8;

use crate::bytes::push_all;
use crate::json::{parse_json, parsed, Json, JsonValue, NumberValue};
use crate::protocol::error::Error;
use crate::protocol::frame::{
    decode_frame_limited, encode_packet, packet_at, packet_bytes, packet_round_trip,
};
use crate::protocol::handshake::{
    handshake_bytes, HandshakeFields, NextState, HANDSHAKE_ID,
};
use crate::protocol::status::STATUS_REQUEST_ID;
use crate::protocol::varint::{signed32, to_signed32, varint_bytes, varint_round_trip};
use crate::protocol::wire::{
    lemma_utf8_len, string_at, string_bytes, string_round_trip, Reader, Writer,
};
use crate::routing::registry::{SnapshotValue, StatusSnapshot};
use crate::time::Duration;

verus! {

/// Backend status responses carry favicons and player samples, so they get a
/// larger budget than anything we accept from a client.
pub const MAX_STATUS_RESPONSE: usize = 256 * 1024;

/// Protocol number sent by the probe.
///
/// `-1` is the conventional "not a real client" value. Servers answer status
/// pings regardless of it, and it keeps version-gating plugins from treating
/// the health check as a player trying to join with the wrong client.
pub const PROBE_PROTOCOL: i32 = -1;

/// The handshake that the probe sends.
pub open spec fn probe_handshake(host: Seq<char>, port: u16) -> HandshakeFields {
    HandshakeFields {
        protocol_version: PROBE_PROTOCOL,
        server_address: host,
        server_port: port,
        next_state: NextState::Status,
    }
}

/// What the probe sends: a handshake and a status request.
pub open spec fn probe_bytes(host: Seq<char>, port: u16) -> Seq<u8> {
    handshake_bytes(probe_handshake(host, port)) + packet_bytes(STATUS_REQUEST_ID, Seq::empty())
}

/// What the probe sends: a handshake and a status request.
pub fn probe_request(host: &str, port: u16) -> (request: Vec<u8>)
    ensures
        request@ == probe_bytes(host@, port),
{
    let mut w = Writer::new();
    w.varint(PROBE_PROTOCOL);
    w.string(host);
    w.u16(port);
    w.varint(NextState::Status.as_i32());
    assert(w@ =~= crate::protocol::handshake::handshake_body(probe_handshake(host@, port)));
    let mut request = encode_packet(HANDSHAKE_ID, w.as_slice());
    let none: Vec<u8> = Vec::new();
    assert(none@ =~= Seq::<u8>::empty());
    let status = encode_packet(STATUS_REQUEST_ID, none.as_slice());
    push_all(&mut request, status.as_slice());
    request
}

/// Why a status response cannot be used.
#[derive(Debug, Clone, Copy, PartialEq, Eq)]
pub enum StatusError {
    /// The packet is malformed.
    Packet(Error),
    /// The string in the packet is malformed.
    Field(Error),
    /// The string is not JSON.
    NotJson,
    /// The response is too large to wait for its end.
    TooLarge,
}

/// A member of a member.
pub open spec fn nested(value: JsonValue, outer: Seq<char>, inner: Seq<char>) -> Option<JsonValue> {
    match value.member(outer) {
        Some(value) => value.member(inner),
        None => None,
    }
}

/// A whole number in a document, or zero.
pub open spec fn number_at(value: JsonValue, outer: Seq<char>, inner: Seq<char>) -> i64 {
    match nested(value, outer, inner) {
        Some(value) => match value.whole() {
            Some(n) => n,
            None => 0,
        },
        None => 0,
    }
}

/// A text in a document, or `unknown`.
pub open spec fn text_at(value: JsonValue, outer: Seq<char>, inner: Seq<char>) -> Seq<char> {
    match nested(value, outer, inner) {
        Some(JsonValue::Text(text)) => text,
        _ => "unknown"@,
    }
}

/// The low 32 bits of a number, as an `i32`.
pub open spec fn low_bits(n: i64) -> i32 {
    signed32((n as int % 0x1_0000_0000) as nat)
}

/// What a status document says of a backend. What it leaves out counts as zero,
/// or as unknown.
pub open spec fn snapshot_value(value: JsonValue) -> SnapshotValue {
    SnapshotValue {
        online: number_at(value, "players"@, "online"@),
        max: number_at(value, "players"@, "max"@),
        version: text_at(value, "version"@, "name"@),
        protocol: low_bits(number_at(value, "version"@, "protocol"@)),
        latency: Duration { secs: 0, nanos: 0 },
    }
}

fn get_nested<'a>(json: &'a Json, outer: &str, inner: &str) -> (found: Option<&'a Json>)
    ensures
        match nested(json.value(), outer@, inner@) {
            Some(value) => found is Some && found->Some_0.value() == value,
            None => found is None,
        },
{
    match json.get(outer) {
        Some(json) => json.get(inner),
        None => None,
    }
}

fn get_number(json: &Json, outer: &str, inner: &str) -> (n: i64)
    ensures
        n == number_at(json.value(), outer@, inner@),
{
    match get_nested(json, outer, inner) {
        Some(json) => match json.as_i64() {
            Some(n) => n,
            None => 0,
        },
        None => 0,
    }
}

fn get_text(json: &Json, outer: &str, inner: &str) -> (text: String)
    ensures
        text@ == text_at(json.value(), outer@, inner@),
{
    match get_nested(json, outer, inner) {
        Some(Json::Text(text)) => text.clone(),
        _ => "unknown".to_owned(),
    }
}

fn to_low_bits(n: i64) -> (bits: i32)
    ensures
        bits == low_bits(n),
{
    let wide: i128 = n as i128 + 0x1_0000_0000_0000_0000;
    assert(wide % 0x1_0000_0000 == n as int % 0x1_0000_0000) by {
        vstd::arithmetic::div_mod::lemma_mod_multiples_vanish(
            0x1_0000_0000,
            n as int,
            0x1_0000_0000,
        );
    }
    to_signed32((wide % 0x1_0000_0000) as u32)
}

/// What a status document says of a backend.
pub fn snapshot_from(json: &Json) -> (snapshot: StatusSnapshot)
    ensures
        snapshot@ == snapshot_value(json.value()),
{
    StatusSnapshot {
        online: get_number(json, "players", "online"),
        max: get_number(json, "players", "max"),
        version: get_text(json, "version", "name"),
        protocol: to_low_bits(get_number(json, "version", "protocol")),
        latency: Duration { secs: 0, nanos: 0 },
    }
}

/// What the body of a status response says, given what its text spells as JSON.
pub open spec fn status_of(body: Seq<u8>) -> Result<SnapshotValue, StatusError> {
    match string_at(body, MAX_STATUS_RESPONSE as nat).0 {
        Err(error) => Err(StatusError::Field(error)),
        Ok(text) => match parsed(text) {
            Some(value) => Ok(snapshot_value(value)),
            None => Err(StatusError::NotJson),
        },
    }
}

/// Reads the body of a status response.
pub fn parse_status(body: &[u8]) -> (r: Result<StatusSnapshot, StatusError>)
    ensures
        match status_of(body@) {
            Ok(value) => r is Ok && r->Ok_0@ == value,
            Err(error) => r is Err && r->Err_0 == error,
        },
{
    let mut reader = Reader::new(body);
    let text = match reader.string(MAX_STATUS_RESPONSE) {
        Ok(text) => text,
        Err(error) => return Err(StatusError::Field(error)),
    };
    match parse_json(text.as_str()) {
        Some(json) => Ok(snapshot_from(&json)),
        None => Err(StatusError::NotJson),
    }
}

/// How far a status response has come: nothing while more bytes have to be read.
/// What has grown too large is not looked at any more.
pub open spec fn response_of(buf: Seq<u8>) -> Option<Result<SnapshotValue, StatusError>> {
    if buf.len() > MAX_STATUS_RESPONSE {
        Some(Err(StatusError::TooLarge))
    } else {
        match packet_at(buf, MAX_STATUS_RESPONSE as nat) {
            Ok(packet) => Some(status_of(packet.body)),
            Err(Error::Incomplete) => None,
            Err(error) => Some(Err(StatusError::Packet(error))),
        }
    }
}

/// Looks at the bytes of a status response so far; nothing comes back while more
/// have to be read.
pub fn read_response(buf: &[u8]) -> (r: Option<Result<StatusSnapshot, StatusError>>)
    ensures
        match response_of(buf@) {
            None => r is None,
            Some(Ok(value)) => r is Some && r->Some_0 is Ok && r->Some_0->Ok_0@ == value,
            Some(Err(error)) => r is Some && r->Some_0 is Err && r->Some_0->Err_0 == error,
        },
{
    if buf.len() > MAX_STATUS_RESPONSE {
        return Some(Err(StatusError::TooLarge));
    }
    match decode_frame_limited(buf, MAX_STATUS_RESPONSE) {
        Ok(frame) => Some(parse_status(frame.body)),
        Err(error) => if error.is_incomplete() {
            None
        } else {
            Some(Err(StatusError::Packet(error)))
        },
    }
}

/// A document without any of the fields is tolerated.
pub proof fn sparse_documents_are_tolerated()
    ensures
        snapshot_value(JsonValue::Object(Seq::empty())) == (SnapshotValue {
            online: 0,
            max: 0,
            version: "unknown"@,
            protocol: 0,
            latency: Duration { secs: 0, nanos: 0 },
        }),
{
}

/// A server that reads the probe sees a handshake for the status state and then
/// a status request.
pub proof fn probe_is_a_status_ping(host: Seq<char>, port: u16)
    requires
        host.len() <= crate::protocol::handshake::MAX_ADDRESS_CHARS,
    ensures
        ({
            let max = crate::protocol::frame::MAX_PACKET_SIZE as nat;
            let first = packet_at(probe_bytes(host, port), max);
            &&& first is Ok
            &&& crate::protocol::handshake::handshake_of(first->Ok_0) == Ok::<
                HandshakeFields,
                Error,
            >(probe_handshake(host, port))
            &&& packet_at(probe_bytes(host, port).skip(first->Ok_0.total_len as int), max) is Ok
            &&& packet_at(
                probe_bytes(host, port).skip(first->Ok_0.total_len as int),
                max,
            )->Ok_0.id == STATUS_REQUEST_ID
        }),
{
    let fields = probe_handshake(host, port);
    let request = packet_bytes(STATUS_REQUEST_ID, Seq::<u8>::empty());
    let max = crate::protocol::frame::MAX_PACKET_SIZE as nat;
    let all = probe_bytes(host, port);
    let len = handshake_bytes(fields).len() as int;
    crate::protocol::handshake::handshake_round_trip(fields, request);
    assert(all.take(len) =~= handshake_bytes(fields));
    let first = packet_at(all, max)->Ok_0;
    assert(all.take(first.total_len as int).len() == handshake_bytes(fields).len()) by {
        assert(all.take(first.total_len as int) == handshake_bytes(fields));
    }
    crate::protocol::frame::decided_packet_is_stable(all, Seq::empty(), max);
    lemma_packet_len_within(all, max);
    assert(first.total_len == len);
    assert(all.skip(len) =~= request);
    crate::protocol::varint::varint_round_trip(STATUS_REQUEST_ID, Seq::empty());
    crate::protocol::frame::packet_round_trip(STATUS_REQUEST_ID, Seq::empty(), Seq::empty(), max);
    assert(request + Seq::<u8>::empty() =~= request);
}

proof fn lemma_packet_len_within(buf: Seq<u8>, max: nat)
    ensures
        packet_at(buf, max) is Ok ==> packet_at(buf, max)->Ok_0.total_len <= buf.len(),
{
}

/// Players, limit, version and protocol of a status document are what its
/// `players` and `version` say, whatever else the document holds.
pub proof fn status_documents_are_read_by_their_fields(
    document: JsonValue,
    players: JsonValue,
    version: JsonValue,
    online: i64,
    max: i64,
    name: Seq<char>,
    protocol: i64,
)
    requires
        document.member("players"@) == Some(players),
        document.member("version"@) == Some(version),
    ensures
        players.member("online"@) == Some(JsonValue::Number(NumberValue::Whole(online as int)))
            ==> snapshot_value(document).online == online,
        players.member("max"@) == Some(JsonValue::Number(NumberValue::Whole(max as int)))
            ==> snapshot_value(document).max == max,
        version.member("name"@) == Some(JsonValue::Text(name)) ==> snapshot_value(document).version
            == name,
        version.member("protocol"@) == Some(
            JsonValue::Number(NumberValue::Whole(protocol as int)),
        ) && i32::MIN <= protocol <= i32::MAX ==> snapshot_value(document).protocol == protocol,
        version.member("protocol"@) == Some(
            JsonValue::Number(NumberValue::Whole(protocol as int)),
        ) ==> (snapshot_value(document).protocol - protocol) % 0x1_0000_0000 == 0,
        players.member("online"@) is None ==> snapshot_value(document).online == 0,
        players.member("max"@) is None ==> snapshot_value(document).max == 0,
        version.member("name"@) is None ==> snapshot_value(document).version == "unknown"@,
        version.member("protocol"@) is None ==> snapshot_value(document).protocol == 0,
{
}

/// A response is waited for while its packet is not all there, unless it has
/// grown beyond 256 KiB; then it is what its text says as JSON.
pub proof fn responses_are_read_when_complete(
    text: Seq<char>,
    rest: Seq<u8>,
    id: i32,
    buf: Seq<u8>,
    value: JsonValue,
)
    requires
        encode_utf8(text).len() + 16 + rest.len() <= 262_144,
    ensures
        parsed(text) == Some(value) ==> response_of(packet_bytes(id, string_bytes(text)) + rest)
            == Some(Ok::<SnapshotValue, StatusError>(snapshot_value(value))),
        parsed(text) is None ==> response_of(packet_bytes(id, string_bytes(text)) + rest) == Some(
            Err::<SnapshotValue, StatusError>(StatusError::NotJson),
        ),
        buf.len() > 262_144 ==> response_of(buf) == Some(
            Err::<SnapshotValue, StatusError>(StatusError::TooLarge),
        ),
        buf.len() <= 262_144 && packet_at(buf, 262_144) is Err ==> response_of(buf) == (if packet_at(
            buf,
            262_144,
        )->Err_0 is Incomplete {
            None
        } else {
            Some(
                Err::<SnapshotValue, StatusError>(StatusError::Packet(packet_at(buf, 262_144)->Err_0)),
            )
        }),
{
    let body = string_bytes(text);
    lemma_utf8_len(text);
    varint_round_trip(encode_utf8(text).len() as i32, Seq::empty());
    varint_round_trip(id, Seq::empty());
    string_round_trip(text, 262_144, Seq::empty());
    assert(body + Seq::<u8>::empty() =~= body);
    varint_round_trip((varint_bytes(id) + body).len() as i32, Seq::empty());
    packet_round_trip(id, body, rest, 262_144);
}

/// The probe is no real client: it says so by its protocol number, names the
/// host and port that it asks, and asks for the status.
pub proof fn the_probe_is_no_player(host: Seq<char>, port: u16)
    ensures
        probe_handshake(host, port).protocol_version == -1,
        probe_handshake(host, port).server_address == host,
        probe_handshake(host, port).server_port == port,
        probe_handshake(host, port).next_state == NextState::Status,
{
}

} // verus!
