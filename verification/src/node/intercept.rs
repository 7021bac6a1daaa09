//! The decisions about one intercepted connection.
//!
//! Every connection to an intercepted port is someone else's server. The
//! gateway's whole job there is to be invisible, with one exception: a status
//! ping gets the node owner's MOTD line. Anything that is not recognisably a
//! status ping is piped through unchanged, and when in doubt, it passes: every
//! problem degrades to "no ad on this connection", never to a broken one.

use vstd::prelude::*;
use vstd::slice::{slice_subrange, slice_to_vec};
use vstd::utf8::encode_utf8;

use crate::bytes::push_all;
use crate::json::{parsed, printed, readable, JsonValue, READ_DEPTH};
use crate::node::config::{Config, Motd, Offline};
use crate::node::motd::{
    kick_message, offline_status, offline_value, rewrite_status, rewritten, text_component,
};
use crate::protocol::chat::translated;
use crate::protocol::error::Error;
use crate::protocol::frame::{
    decode_frame, decode_frame_limited, packet_at, packet_bytes, Packet, MAX_PACKET_SIZE,
};
use crate::protocol::handshake::{
    handshake_bytes, handshake_of, handshake_round_trip, Handshake, HandshakeFields, NextState,
    MAX_ADDRESS_CHARS,
};
use crate::protocol::login::{disconnect_bytes, encode_login_disconnect};
use crate::protocol::status::{
    encode_status_response, status_json, status_response_bytes, status_response_round_trip,
    PING_ID, STATUS_RESPONSE_ID,
};
use crate::protocol::varint::{
    lemma_continued_bound, read_varint, varint_at, varint_bytes, varint_round_trip,
};
use crate::protocol::wire::{lemma_utf8_len, string_at};
use crate::text::opt_text;

verus! {

/// First byte of a pre-1.7 server list ping, which has no VarInt framing.
pub const LEGACY_PING: u8 = 0xFE;

/// The protocol's own ceiling for a packet. A modpack's status response lists
/// every mod and can be large; refusing it would cost the customer their MOTD.
pub const MAX_STATUS_RESPONSE: usize = 2 * 1024 * 1024 - 1;

/// A handshake can never be longer than this: protocol VarInt, a 255-character
/// address, a port and the next-state VarInt, plus framing. A longer declared
/// length means the client is not speaking Minecraft.
pub const MAX_HANDSHAKE_LEN: i32 = 1100;

/// What kind of connection this is.
#[derive(Debug, Clone, Copy, PartialEq, Eq, Structural)]
pub enum Sniff {
    /// A status handshake followed by the complete status request.
    Status,
    /// A login or transfer handshake: a player joining.
    Join,
    /// Anything else: forward it untouched.
    PassThrough,
    /// The client closed or errored before anything could be decided.
    ClientGone,
}

/// What the packet behind a status handshake decides. The server answers only
/// once it has the status request, so it has to be read here too: a real client
/// sends it as a separate write.
pub open spec fn request_kind(rest: Seq<u8>) -> Option<Sniff> {
    match packet_at(rest, MAX_PACKET_SIZE as nat) {
        Ok(_) => Some(Sniff::Status),
        Err(Error::Incomplete) => None,
        Err(_) => Some(Sniff::PassThrough),
    }
}

/// What the first packet decides.
pub open spec fn first_packet_kind(buf: Seq<u8>) -> Option<Sniff> {
    match packet_at(buf, MAX_PACKET_SIZE as nat) {
        Ok(packet) => match handshake_of(packet) {
            Ok(fields) => if fields.next_state == NextState::Status {
                request_kind(buf.skip(packet.total_len as int))
            } else {
                Some(Sniff::Join)
            },
            Err(_) => Some(Sniff::PassThrough),
        },
        Err(Error::Incomplete) => None,
        Err(_) => Some(Sniff::PassThrough),
    }
}

/// What kind of connection begins with these bytes; nothing while more are
/// needed. The length and the packet id are judged as soon as they are there,
/// which lets a short request in another protocol through at once instead of
/// waiting for a "packet" that will never be completed.
pub open spec fn kind_of(buf: Seq<u8>) -> Option<Sniff> {
    if buf.len() == 0 {
        None
    } else if buf[0] == LEGACY_PING {
        Some(Sniff::PassThrough)
    } else {
        match varint_at(buf) {
            Err(Error::Incomplete) => None,
            Err(_) => Some(Sniff::PassThrough),
            Ok((length, used)) => if length <= 0 || length > MAX_HANDSHAKE_LEN {
                Some(Sniff::PassThrough)
            } else if used == buf.len() {
                None
            } else if buf[used as int] != 0 {
                Some(Sniff::PassThrough)
            } else {
                first_packet_kind(buf)
            },
        }
    }
}

/// Decides from the bytes so far. `None` means "need more".
#[verifier::rlimit(40)]
pub fn classify(buf: &[u8]) -> (kind: Option<Sniff>)
    ensures
        kind == kind_of(buf@),
{
    if buf.len() == 0 {
        return None;
    }
    if buf[0] == LEGACY_PING {
        return Some(Sniff::PassThrough);
    }
    proof {
        assert(buf@.skip(0) =~= buf@);
        lemma_continued_bound(buf@);
    }
    let mut pos: usize = 0;
    match read_varint(buf, &mut pos) {
        Ok(length) => if length <= 0 || length > MAX_HANDSHAKE_LEN {
            return Some(Sniff::PassThrough);
        },
        Err(Error::Incomplete) => return None,
        Err(_) => return Some(Sniff::PassThrough),
    }
    if pos == buf.len() {
        return None;
    }
    if buf[pos] != 0 {
        return Some(Sniff::PassThrough);
    }
    let frame = match decode_frame(buf) {
        Ok(frame) => frame,
        Err(Error::Incomplete) => return None,
        Err(_) => return Some(Sniff::PassThrough),
    };
    match Handshake::decode(&frame) {
        Ok(handshake) => if handshake.next_state != NextState::Status {
            return Some(Sniff::Join);
        },
        Err(_) => return Some(Sniff::PassThrough),
    }
    let rest = slice_subrange(buf, frame.total_len, buf.len());
    assert(rest@ =~= buf@.skip(frame.total_len as int));
    match decode_frame(rest) {
        Ok(_) => Some(Sniff::Status),
        Err(Error::Incomplete) => None,
        Err(_) => Some(Sniff::PassThrough),
    }
}

/// Something that happened while a connection was being looked at.
#[derive(Debug, PartialEq, Eq)]
pub enum SniffEvent {
    /// The client sent these bytes.
    Received(Vec<u8>),
    /// The client closed the connection, or it failed.
    Closed,
    /// The server spoke first, which it would never do before a Minecraft
    /// client has spoken.
    ServerSpoke,
    /// The time to decide is over. A client that sends a partial packet and then
    /// waits is not a Minecraft client either.
    Deadline,
}

/// Takes in one event; `None` means "need more". What the client sent is kept in
/// `buf`, to be forwarded byte for byte.
pub fn sniff(buf: &mut Vec<u8>, event: SniffEvent) -> (kind: Option<Sniff>)
    ensures
        match event {
            SniffEvent::Received(bytes) => final(buf)@ == old(buf)@ + bytes@ && kind == kind_of(
                old(buf)@ + bytes@,
            ),
            SniffEvent::Closed => final(buf)@ == old(buf)@ && kind == Some(Sniff::ClientGone),
            SniffEvent::ServerSpoke => final(buf)@ == old(buf)@ && kind == Some(
                Sniff::PassThrough,
            ),
            SniffEvent::Deadline => final(buf)@ == old(buf)@ && kind == Some(Sniff::PassThrough),
        },
{
    match event {
        SniffEvent::Received(bytes) => {
            push_all(buf, bytes.as_slice());
            classify(buf.as_slice())
        },
        SniffEvent::Closed => Some(Sniff::ClientGone),
        SniffEvent::ServerSpoke => Some(Sniff::PassThrough),
        SniffEvent::Deadline => Some(Sniff::PassThrough),
    }
}

// -------------------------------------------------------------------- relay --

/// The JSON text of a status response packet.
pub open spec fn response_text(packet: Packet) -> Option<Seq<char>> {
    if packet.id == STATUS_RESPONSE_ID {
        match string_at(packet.body, MAX_STATUS_RESPONSE as nat).0 {
            Ok(text) => Some(text),
            Err(_) => None,
        }
    } else {
        None
    }
}

/// The document that takes the place of a server's status response, if its text
/// spells one that can be rewritten.
pub open spec fn new_document(text: Seq<char>, motd: Motd) -> Option<JsonValue> {
    match parsed(text) {
        Some(document) => rewritten(document, opt_text(motd.line1), opt_text(motd.line2)),
        None => None,
    }
}

/// The text that takes the place of the text of a server's status response.
pub open spec fn replacement(text: Seq<char>, motd: Motd) -> Option<Seq<char>> {
    match new_document(text, motd) {
        Some(value) => Some(printed(value)),
        None => None,
    }
}

/// What is sent to the client once the server's first packet is there, and
/// whether it was changed: the new response, or else the server's own, and then
/// whatever the server sent behind it.
pub open spec fn relayed(buf: Seq<u8>, packet: Packet, new: Option<Seq<char>>) -> (Seq<u8>, bool) {
    match new {
        Some(json) => (status_response_bytes(json) + buf.skip(packet.total_len as int), true),
        None => (buf, false),
    }
}

/// What to do with what the server has sent so far.
#[derive(Debug, PartialEq, Eq)]
pub enum Relay {
    /// More bytes have to be read. If none come, what is there is forwarded.
    More,
    /// Send these bytes to the client and pipe from then on.
    Send { bytes: Vec<u8>, rewritten: bool },
}

/// What to do with what the server has sent so far. Every problem forwards the
/// original bytes.
pub open spec fn relay_of(buf: Seq<u8>, motd: Motd) -> Option<(Seq<u8>, bool)> {
    match packet_at(buf, MAX_STATUS_RESPONSE as nat) {
        Ok(packet) => match response_text(packet) {
            Some(text) => Some(relayed(buf, packet, replacement(text, motd))),
            None => Some(relayed(buf, packet, None)),
        },
        Err(Error::Incomplete) => None,
        Err(_) => Some((buf, false)),
    }
}

/// The bytes for the client, given the document that takes the place of the
/// server's response in the first `len` bytes.
pub fn relay_bytes(buf: &[u8], len: usize, new: Option<String>) -> (relay: Relay)
    requires
        len <= buf@.len(),
    ensures
        relay is Send,
        match new {
            Some(json) => relay->bytes@ == status_response_bytes(json@) + buf@.skip(len as int)
                && relay->rewritten,
            None => relay->bytes@ == buf@ && !relay->rewritten,
        },
{
    match new {
        Some(json) => {
            let mut bytes = encode_status_response(json.as_str());
            let rest = slice_subrange(buf, len, buf.len());
            assert(rest@ =~= buf@.skip(len as int));
            push_all(&mut bytes, rest);
            Relay::Send { bytes, rewritten: true }
        },
        None => Relay::Send { bytes: slice_to_vec(buf), rewritten: false },
    }
}

/// The document that takes the place of the one in the server's first packet.
pub open spec fn document_in(buf: Seq<u8>, motd: Motd) -> Option<JsonValue> {
    match packet_at(buf, MAX_STATUS_RESPONSE as nat) {
        Ok(packet) => match response_text(packet) {
            Some(text) => new_document(text, motd),
            None => None,
        },
        Err(_) => None,
    }
}

/// Looks at the server's status response and replaces the MOTD lines in it. A
/// client that reads the new text finds the new document.
#[verifier::rlimit(40)]
pub fn relay_status(buf: &[u8], motd: &Motd) -> (relay: Relay)
    ensures
        match relay_of(buf@, *motd) {
            None => relay is More,
            Some((bytes, changed)) => relay is Send && relay->bytes@ == bytes && relay->rewritten
                == changed,
        },
        match document_in(buf@, *motd) {
            Some(value) => readable(value, READ_DEPTH as nat) ==> parsed(printed(value)) == Some(
                value,
            ),
            None => true,
        },
{
    match decode_frame_limited(buf, MAX_STATUS_RESPONSE) {
        Ok(frame) => {
            let mut new: Option<String> = None;
            if frame.id == STATUS_RESPONSE_ID {
                let mut reader = frame.reader();
                if let Ok(text) = reader.string(MAX_STATUS_RESPONSE) {
                    new = rewrite_status(text.as_str(), motd);
                }
            }
            relay_bytes(buf, frame.total_len, new)
        },
        Err(Error::Incomplete) => Relay::More,
        Err(_) => Relay::Send { bytes: slice_to_vec(buf), rewritten: false },
    }
}

// ------------------------------------------------------------------ offline --

/// What happens once the server was tried.
#[derive(Debug, Clone, Copy, PartialEq, Eq, Structural)]
pub enum AfterConnect {
    /// Answer in place of the server.
    AnswerOffline,
    /// Close the client, as a closed port would.
    Close,
    /// Find out what kind of connection this is.
    Sniff,
    /// Pipe right away: there is nothing to rewrite.
    Pipe,
}

/// Decides what happens once the server was tried.
pub fn after_connect(connected: bool, config: &Config) -> (next: AfterConnect)
    ensures
        next == if !connected {
            if config.offline.enabled {
                AfterConnect::AnswerOffline
            } else {
                AfterConnect::Close
            }
        } else if config.motd.rewrites() {
            AfterConnect::Sniff
        } else {
            AfterConnect::Pipe
        },
{
    if !connected {
        if config.offline.enabled {
            AfterConnect::AnswerOffline
        } else {
            AfterConnect::Close
        }
    } else if config.motd.rewrites_anything() {
        AfterConnect::Sniff
    } else {
        AfterConnect::Pipe
    }
}

/// What a client hears in place of a server that is not there.
#[derive(Debug, PartialEq, Eq)]
pub enum OfflineAnswer {
    /// This status response, and then the answer to its ping.
    Status(Vec<u8>),
    /// This disconnect, where there is one.
    Kick(Option<Vec<u8>>),
    /// Nothing: the connection is closed.
    Close,
    /// The client has already left.
    Gone,
}

/// What a client hears in place of a server that is not there: the offline MOTD
/// for a status ping, the kick message for a join, and a closed connection for
/// anything that is not Minecraft.
pub fn answer_offline(kind: Sniff, offline: &Offline, motd: &Motd) -> (answer: OfflineAnswer)
    ensures
        match kind {
            Sniff::Status => answer is Status && answer->Status_0@ == status_response_bytes(
                status_json(offline_value(*offline, *motd)),
            ),
            Sniff::Join => answer is Kick && match offline.kick {
                Some(kick) => answer->Kick_0 is Some && answer->Kick_0->Some_0@
                    == disconnect_bytes(printed(text_component(translated(kick@)))),
                None => answer->Kick_0 is None,
            },
            Sniff::PassThrough => answer is Close,
            Sniff::ClientGone => answer is Gone,
        },
{
    match kind {
        Sniff::Status => OfflineAnswer::Status(
            encode_status_response(offline_status(offline, motd).as_str()),
        ),
        Sniff::Join => match &offline.kick {
            Some(kick) => OfflineAnswer::Kick(
                Some(encode_login_disconnect(kick_message(kick.as_str()).as_str())),
            ),
            None => OfflineAnswer::Kick(None),
        },
        Sniff::PassThrough => OfflineAnswer::Close,
        Sniff::ClientGone => OfflineAnswer::Gone,
    }
}

/// What lies behind the first packet; nothing where there is none.
pub open spec fn behind_packet(buf: Seq<u8>) -> Option<Seq<u8>> {
    match packet_at(buf, MAX_PACKET_SIZE as nat) {
        Ok(packet) => Some(buf.skip(packet.total_len as int)),
        Err(_) => None,
    }
}

/// What lies behind the handshake and the status request.
pub open spec fn behind_request(buf: Seq<u8>) -> Option<Seq<u8>> {
    match behind_packet(buf) {
        Some(rest) => behind_packet(rest),
        None => None,
    }
}

fn skip_packet(buf: &[u8]) -> (rest: Option<Vec<u8>>)
    ensures
        match behind_packet(buf@) {
            Some(bytes) => rest is Some && rest->Some_0@ == bytes,
            None => rest is None,
        },
{
    match decode_frame(buf) {
        Ok(frame) => {
            let rest = slice_subrange(buf, frame.total_len, buf.len());
            assert(rest@ =~= buf@.skip(frame.total_len as int));
            Some(slice_to_vec(rest))
        },
        Err(_) => None,
    }
}

/// What lies behind the handshake and the status request; a ping may already be
/// there.
pub fn after_request(sniffed: &[u8]) -> (rest: Option<Vec<u8>>)
    ensures
        match behind_request(sniffed@) {
            Some(bytes) => rest is Some && rest->Some_0@ == bytes,
            None => rest is None,
        },
{
    match skip_packet(sniffed) {
        Some(rest) => skip_packet(rest.as_slice()),
        None => None,
    }
}

/// What to do about the latency ping that follows a status response.
#[derive(Debug, PartialEq, Eq)]
pub enum PingAnswer {
    /// More bytes have to be read.
    More,
    /// Send this back.
    Pong(Vec<u8>),
    /// There is no ping to answer.
    Done,
}

/// Answers the latency ping that follows a status response: the pong is the ping
/// packet sent straight back.
pub fn answer_ping(buf: &[u8]) -> (answer: PingAnswer)
    ensures
        match packet_at(buf@, MAX_PACKET_SIZE as nat) {
            Ok(packet) => if packet.id == PING_ID {
                answer is Pong && answer->Pong_0@ == buf@.take(packet.total_len as int)
            } else {
                answer is Done
            },
            Err(Error::Incomplete) => answer is More,
            Err(_) => answer is Done,
        },
{
    match decode_frame(buf) {
        Ok(frame) => {
            if frame.id != PING_ID {
                return PingAnswer::Done;
            }
            let ping = slice_subrange(buf, 0, frame.total_len);
            assert(ping@ =~= buf@.take(frame.total_len as int));
            PingAnswer::Pong(slice_to_vec(ping))
        },
        Err(Error::Incomplete) => PingAnswer::More,
        Err(_) => PingAnswer::Done,
    }
}

// -------------------------------------------------------------------- laws --

/// Once the kind of a connection is known, later bytes do not change it.
#[verifier::rlimit(40)]
pub proof fn kind_is_stable(buf: Seq<u8>, more: Seq<u8>)
    requires
        kind_of(buf) is Some,
    ensures
        kind_of(buf + more) == kind_of(buf),
{
    let all = buf + more;
    let max = MAX_PACKET_SIZE as nat;
    assert(all[0] == buf[0]);
    if buf[0] != LEGACY_PING {
        crate::protocol::frame::lemma_varint_stable(buf, more);
        lemma_continued_bound(buf);
        if let Ok((length, used)) = varint_at(buf) {
            if used < buf.len() {
                assert(all[used as int] == buf[used as int]);
            }
            if length > 0 && length <= MAX_HANDSHAKE_LEN && used < buf.len() && buf[used as int]
                == 0 {
                crate::protocol::frame::decided_packet_is_stable(buf, more, max);
                if let Ok(packet) = packet_at(buf, max) {
                    if let Ok(fields) = handshake_of(packet) {
                        if fields.next_state == NextState::Status {
                            let rest = buf.skip(packet.total_len as int);
                            assert(all.skip(packet.total_len as int) =~= rest + more);
                            crate::protocol::frame::decided_packet_is_stable(rest, more, max);
                        }
                    }
                }
            }
        }
    }
}

/// The encoded length of a handshake is within what is taken for one.
#[verifier::rlimit(40)]
proof fn lemma_handshake_head(fields: HandshakeFields, rest: Seq<u8>)
    requires
        fields.server_address.len() <= MAX_ADDRESS_CHARS,
    ensures
        ({
            let buf = handshake_bytes(fields) + rest;
            &&& buf.len() > 0
            &&& varint_at(buf) is Ok
            &&& 0 < varint_at(buf)->Ok_0.0 <= MAX_HANDSHAKE_LEN
            &&& varint_at(buf)->Ok_0.1 < buf.len()
            &&& buf[varint_at(buf)->Ok_0.1 as int] == 0
            &&& packet_at(buf, MAX_PACKET_SIZE as nat) is Ok
            &&& packet_at(buf, MAX_PACKET_SIZE as nat)->Ok_0.total_len == handshake_bytes(
                fields,
            ).len()
        }),
{
    let body = crate::protocol::handshake::handshake_body(fields);
    let id = varint_bytes(crate::protocol::handshake::HANDSHAKE_ID);
    let payload = id + body;
    let buf = handshake_bytes(fields) + rest;
    lemma_handshake_payload(fields);
    let length = payload.len() as i32;
    varint_round_trip(length, payload + rest);
    assert(buf =~= varint_bytes(length) + (payload + rest));
    assert(buf[varint_bytes(length).len() as int] == payload[0]);
    crate::protocol::frame::packet_round_trip(
        crate::protocol::handshake::HANDSHAKE_ID,
        body,
        rest,
        MAX_PACKET_SIZE as nat,
    );
}

proof fn lemma_handshake_payload(fields: HandshakeFields)
    requires
        fields.server_address.len() <= MAX_ADDRESS_CHARS,
    ensures
        ({
            let payload = varint_bytes(crate::protocol::handshake::HANDSHAKE_ID)
                + crate::protocol::handshake::handshake_body(fields);
            0 < payload.len() <= MAX_HANDSHAKE_LEN && payload[0] == 0
        }),
{
    crate::protocol::wire::lemma_utf8_len(fields.server_address);
    varint_round_trip(fields.protocol_version, Seq::empty());
    varint_round_trip(fields.next_state.number(), Seq::empty());
    varint_round_trip(
        vstd::utf8::encode_utf8(fields.server_address).len() as i32,
        Seq::empty(),
    );
    crate::bytes::lemma_be_bytes_len(fields.server_port as nat, 2);
    assert(varint_bytes(crate::protocol::handshake::HANDSHAKE_ID) =~= seq![0u8]) by {
        reveal_with_fuel(crate::protocol::varint::groups, 1);
    }
}

/// A player joining is recognised from the handshake alone, whatever follows it,
/// unless the encoded length of the handshake starts like an old ping.
#[verifier::rlimit(40)]
pub proof fn joins_are_recognised_at_once(fields: HandshakeFields, rest: Seq<u8>)
    requires
        fields.server_address.len() <= MAX_ADDRESS_CHARS,
        fields.next_state != NextState::Status,
        (handshake_bytes(fields) + rest)[0] != LEGACY_PING,
    ensures
        kind_of(handshake_bytes(fields) + rest) == Some(Sniff::Join),
{
    lemma_handshake_head(fields, rest);
    handshake_round_trip(fields, rest);
}

/// Behind the handshake of a status ping, the request decides.
#[verifier::rlimit(40)]
proof fn lemma_request_decides(fields: HandshakeFields, rest: Seq<u8>)
    requires
        fields.server_address.len() <= MAX_ADDRESS_CHARS,
        fields.next_state == NextState::Status,
        (handshake_bytes(fields) + rest)[0] != LEGACY_PING,
    ensures
        kind_of(handshake_bytes(fields) + rest) == request_kind(rest),
{
    let alone = handshake_bytes(fields);
    lemma_handshake_head(fields, rest);
    handshake_round_trip(fields, rest);
    assert((alone + rest).skip(alone.len() as int) =~= rest);
}

proof fn lemma_requests(id: i32, rest: Seq<u8>)
    ensures
        request_kind(Seq::empty()) is None,
        request_kind(packet_bytes(id, Seq::empty()) + rest) == Some(Sniff::Status),
{
    let none = Seq::<u8>::empty();
    lemma_continued_bound(none);
    varint_round_trip(id, none);
    crate::protocol::frame::packet_round_trip(id, none, rest, MAX_PACKET_SIZE as nat);
}

/// A status ping is recognised only once the request is there, and then whatever
/// follows.
pub proof fn status_pings_wait_for_the_request(fields: HandshakeFields, id: i32, rest: Seq<u8>)
    requires
        fields.server_address.len() <= MAX_ADDRESS_CHARS,
        fields.next_state == NextState::Status,
        handshake_bytes(fields)[0] != LEGACY_PING,
    ensures
        kind_of(handshake_bytes(fields)) == None::<Sniff>,
        kind_of(handshake_bytes(fields) + (packet_bytes(id, Seq::empty()) + rest)) == Some(
            Sniff::Status,
        ),
{
    let alone = handshake_bytes(fields);
    let none = Seq::<u8>::empty();
    let request = packet_bytes(id, none) + rest;
    assert(alone.len() > 0) by {
        lemma_handshake_head(fields, none);
        assert(alone + none =~= alone);
    }
    assert(alone + none =~= alone);
    assert((alone + request)[0] == alone[0]);
    lemma_request_decides(fields, none);
    lemma_request_decides(fields, request);
    lemma_requests(id, rest);
}

/// Whatever the server sends, a client that is not shown a new MOTD gets exactly
/// what the server sent.
pub proof fn unchanged_responses_are_byte_identical(buf: Seq<u8>, motd: Motd)
    requires
        relay_of(buf, motd) is Some,
        !relay_of(buf, motd)->Some_0.1,
    ensures
        relay_of(buf, motd)->Some_0.0 == buf,
{
}

/// Without lines to put in, no response is changed.
pub proof fn without_lines_nothing_changes(buf: Seq<u8>, motd: Motd)
    requires
        !motd.rewrites(),
        relay_of(buf, motd) is Some,
    ensures
        relay_of(buf, motd)->Some_0 == (buf, false),
{
}

/// A server's status response reaches the client with the owner's lines in it,
/// and what the server sent behind it follows unchanged.
#[verifier::rlimit(40)]
pub proof fn the_ad_is_put_in(
    json: Seq<char>,
    entries: Seq<(Seq<char>, JsonValue)>,
    rest: Seq<u8>,
    motd: Motd,
)
    requires
        parsed(json) == Some(JsonValue::Object(entries)),
        motd.rewrites(),
        encode_utf8(json).len() + 6 <= MAX_STATUS_RESPONSE,
    ensures
        relay_of(status_response_bytes(json) + rest, motd) == Some(
            (
                status_response_bytes(
                    printed(
                        rewritten(
                            JsonValue::Object(entries),
                            opt_text(motd.line1),
                            opt_text(motd.line2),
                        )->Some_0,
                    ),
                ) + rest,
                true,
            ),
        ),
{
    lemma_utf8_len(json);
    status_response_round_trip(json, rest, MAX_STATUS_RESPONSE as nat, MAX_STATUS_RESPONSE as nat);
    let own = status_response_bytes(json);
    assert((own + rest).skip(own.len() as int) =~= rest);
}

/// A text that is not JSON is forwarded as it is.
pub proof fn unparseable_responses_are_forwarded(buf: Seq<u8>, motd: Motd, packet: Packet)
    requires
        packet_at(buf, MAX_STATUS_RESPONSE as nat) == Ok::<Packet, Error>(packet),
        response_text(packet) is Some ==> parsed(response_text(packet)->Some_0) is None,
    ensures
        relay_of(buf, motd) == Some((buf, false)),
{
}

/// Whatever cannot be a handshake is passed through as soon as that shows: an
/// old ping, a length of nothing or of more than a handshake can have, another
/// packet, or bytes that are no handshake. While it can still be one, more bytes
/// are waited for.
#[verifier::rlimit(40)]
pub proof fn other_connections_pass_through(buf: Seq<u8>, length: i32, rest: Seq<u8>)
    ensures
        kind_of(Seq::empty()) is None,
        buf.len() > 0 && buf[0] == 0xFE ==> kind_of(buf) == Some(Sniff::PassThrough),
        ({
            let all = varint_bytes(length) + rest;
            let id = rest[0];
            let packet = packet_at(all, 32_768);
            let plausible = 1 <= length <= 1100 && all[0] != 0xFE;
            &&& all[0] != 0xFE && (length <= 0 || length > 1100) ==> kind_of(all) == Some(
                Sniff::PassThrough,
            )
            &&& plausible && rest.len() == 0 ==> kind_of(all) is None
            &&& plausible && rest.len() > 0 && id != 0 ==> kind_of(all) == Some(Sniff::PassThrough)
            &&& plausible && rest.len() > 0 && id == 0 && rest.len() < length ==> kind_of(all)
                is None
            &&& plausible && rest.len() > 0 && id == 0 && packet is Ok && handshake_of(
                packet->Ok_0,
            ) is Err ==> kind_of(all) == Some(Sniff::PassThrough)
        }),
{
    varint_round_trip(length, rest);
    let all = varint_bytes(length) + rest;
    let used = varint_bytes(length).len() as int;
    if rest.len() > 0 {
        assert(all[used] == rest[0]);
    }
}

/// What the server says is held back only while its first packet is not all
/// there; a packet that is no status response goes on as it is.
pub proof fn only_status_responses_are_changed(buf: Seq<u8>, motd: Motd)
    ensures
        ({
            let packet = packet_at(buf, 2_097_151);
            &&& packet is Err && packet->Err_0 is Incomplete ==> relay_of(buf, motd) is None
            &&& packet is Err && !(packet->Err_0 is Incomplete) ==> relay_of(buf, motd) == Some(
                (buf, false),
            )
            &&& packet is Ok && packet->Ok_0.id != 0 ==> relay_of(buf, motd) == Some((buf, false))
        }),
{
}

/// Behind two packets lies what follows them.
pub proof fn requests_end_with_their_packet(
    first: i32,
    second: i32,
    a: Seq<u8>,
    b: Seq<u8>,
    rest: Seq<u8>,
)
    requires
        a.len() <= 32_000,
        b.len() <= 32_000,
    ensures
        behind_packet(packet_bytes(first, a) + rest) == Some(rest),
        behind_request(packet_bytes(first, a) + (packet_bytes(second, b) + rest)) == Some(rest),
        behind_packet(Seq::empty()) is None,
{
    varint_round_trip(first, Seq::empty());
    varint_round_trip(second, Seq::empty());
    let tail = packet_bytes(second, b) + rest;
    crate::protocol::frame::packet_round_trip(first, a, rest, 32_768);
    crate::protocol::frame::packet_round_trip(first, a, tail, 32_768);
    crate::protocol::frame::packet_round_trip(second, b, rest, 32_768);
    lemma_continued_bound(Seq::<u8>::empty());
}

} // verus!
