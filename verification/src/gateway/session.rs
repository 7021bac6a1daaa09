//! The decisions of one client connection, from `accept()` to close.
//!
//! The state machine is deliberately short: read the handshake, decide, and
//! then either answer a status ping locally or become a byte pipe. Everything
//! the gateway inspects happens in the first few hundred bytes. Each function
//! here looks at what has arrived so far and says what to do next.

use vstd::prelude::*;
use vstd::slice::slice_subrange;
use vstd::utf8::encode_utf8;

use crate::bytes::{
    be_bytes, be_round_trip, be_value, lemma_pow256_values, signed64, signed64_round_trip, unsigned64,
};
use crate::config::model::{InboundProxyProtocol, Messages, Motd};
use crate::forwarding::proxy_protocol::{self, header_at, ParseError, ProxyHeader};
use crate::gateway::limits::Rejection;
use crate::json::printed;
use crate::metrics::counters::{
    count_of, counted_more, has_label, wrapped_sum, Metrics, MetricsValue,
};
use crate::net::{plain_socket, SocketAddr};
use crate::protocol::chat::{
    component, component_to_plain, component_value, pasted_json, plain,
};
use crate::protocol::error::Error;
use crate::protocol::frame::{
    decode_frame, packet_at, packet_bytes, packet_round_trip, partial_packet_is_incomplete, Packet,
    MAX_PACKET_SIZE,
};
use crate::protocol::handshake::{
    handshake_bytes, handshake_of, handshake_round_trip, Handshake, HandshakeFields,
};
use crate::protocol::legacy::{
    detect, encode_response, legacy_packet, legacy_payload, legacy_ping, LegacyPing,
};
use crate::protocol::login::{disconnect_bytes, encode_disconnect, login_start_of, LoginStart};
use crate::protocol::status::{
    encode_pong, pong_bytes, PING_REQUEST_ID, STATUS_REQUEST_ID,
};
use crate::protocol::varint::varint_round_trip;
use crate::protocol::wire::{lemma_utf8_len, string_bytes, string_round_trip};
use crate::routing::registry::{BackendValue, Registry, SelectError, SessionGuard, TargetValue};

verus! {

// ------------------------------------------------------------ PROXY header --

/// Who is connecting, as far as the bytes so far tell.
#[derive(Debug, Clone, Copy, PartialEq, Eq, Structural)]
pub enum Inbound {
    /// This address; so many bytes of the buffer were the header.
    Client { address: SocketAddr, consumed: usize },
    /// More bytes have to be read.
    More,
    /// The header is unusable, or missing where it is required.
    Refused,
}

/// Who is connecting. A header is believed only from a trusted peer: one from
/// anywhere else is ignored, so no client can talk its way into a different
/// source IP.
#[verifier::opaque]
pub open spec fn inbound_client(
    settings: InboundProxyProtocol,
    peer: SocketAddr,
    buf: Seq<u8>,
) -> Inbound {
    if !settings.enabled || !settings.trusted.matches(peer.ip) {
        Inbound::Client { address: peer, consumed: 0 }
    } else {
        match header_at(buf) {
            Ok((ProxyHeader::Proxy { src, .. }, len)) => Inbound::Client {
                address: src,
                consumed: len as usize,
            },
            Ok((ProxyHeader::Local, len)) => Inbound::Client {
                address: peer,
                consumed: len as usize,
            },
            Err(ParseError::Incomplete) => Inbound::More,
            Err(ParseError::NotPresent) => if settings.required {
                Inbound::Refused
            } else {
                Inbound::Client { address: peer, consumed: 0 }
            },
            Err(_) => Inbound::Refused,
        }
    }
}

/// Looks for an inbound PROXY header when the peer is a trusted upstream hop.
///
/// A LOCAL header means the upstream is health-checking the gateway.
pub fn read_inbound_header(
    settings: &InboundProxyProtocol,
    peer: SocketAddr,
    buf: &[u8],
) -> (r: Inbound)
    requires
        settings.trusted.wf(),
    ensures
        r == inbound_client(*settings, peer, buf@),
        r is Client ==> r->consumed <= buf@.len(),
{
    proof {
        reveal(inbound_client);
    }
    if !settings.enabled || !settings.trusted.contains(peer.ip) {
        return Inbound::Client { address: peer, consumed: 0 };
    }
    proof {
        proxy_protocol::header_lies_within_the_bytes(buf@);
    }
    match proxy_protocol::parse(buf) {
        Ok((header, len)) => match header.source() {
            Some(address) => Inbound::Client { address, consumed: len },
            None => Inbound::Client { address: peer, consumed: len },
        },
        Err(ParseError::Incomplete) => Inbound::More,
        Err(ParseError::NotPresent) => if settings.required {
            Inbound::Refused
        } else {
            Inbound::Client { address: peer, consumed: 0 }
        },
        Err(_) => Inbound::Refused,
    }
}

/// Whatever an untrusted peer sends, it is taken for itself, and nothing of what
/// it sent is swallowed.
pub proof fn untrusted_headers_are_ignored(
    settings: InboundProxyProtocol,
    peer: SocketAddr,
    buf: Seq<u8>,
)
    requires
        !settings.trusted.matches(peer.ip),
    ensures
        inbound_client(settings, peer, buf) == (Inbound::Client { address: peer, consumed: 0 }),
{
    reveal(inbound_client);
}

/// What is consumed as a header has arrived.
pub proof fn consumed_headers_have_arrived(
    settings: InboundProxyProtocol,
    peer: SocketAddr,
    buf: Seq<u8>,
)
    ensures
        match inbound_client(settings, peer, buf) {
            Inbound::Client { consumed, .. } => consumed <= buf.len(),
            _ => true,
        },
{
    reveal(inbound_client);
    proxy_protocol::header_lies_within_the_bytes(buf);
}

/// The header that another gateway writes is believed from a trusted peer.
pub proof fn trusted_headers_are_believed(
    settings: InboundProxyProtocol,
    peer: SocketAddr,
    src: SocketAddr,
    dst: SocketAddr,
    rest: Seq<u8>,
)
    requires
        settings.enabled,
        settings.trusted.matches(peer.ip),
        src.ip is V4 == dst.ip is V4,
    ensures
        inbound_client(settings, peer, proxy_protocol::v2_bytes(src, dst) + rest) == (
        Inbound::Client {
            address: plain_socket(src.ip, src.port),
            consumed: proxy_protocol::v2_bytes(src, dst).len() as usize,
        }),
{
    reveal(inbound_client);
    proxy_protocol::v2_round_trip(src, dst, rest);
}

// --------------------------------------------------------------- handshake --

/// How a connection begins, as far as the bytes so far tell.
#[derive(Debug, PartialEq, Eq)]
pub enum HandshakeOutcome {
    /// The handshake, and how many bytes of the buffer it occupies.
    ///
    /// The bytes stay in the buffer: a login has to replay the handshake to the
    /// backend verbatim, so consuming it here would mean forwarding a session
    /// that never introduced itself.
    Modern(Handshake, usize),
    /// A pre-1.7 ping.
    Legacy(LegacyPing),
    /// More bytes have to be read.
    More,
    /// The handshake cannot be parsed: why the peer is dropped, and what the
    /// parser said.
    Dropped { why: &'static str, error: Error },
    /// The peer was refused, with the metrics reason label.
    Refused(&'static str),
}

/// How a connection begins, as a value.
pub ghost enum Beginning {
    Modern(HandshakeFields, nat),
    Legacy(LegacyPing),
    More,
    Dropped(Seq<char>, Error),
    Refused(Seq<char>),
}

/// How a connection begins, given what has arrived so far and how much may
/// arrive before a handshake is understood.
pub open spec fn beginning(buf: Seq<u8>, max_bytes: nat) -> Beginning {
    match legacy_ping(buf) {
        Some(kind) => Beginning::Legacy(kind),
        None => match packet_at(buf, MAX_PACKET_SIZE as nat) {
            Ok(packet) => match handshake_of(packet) {
                Ok(fields) => Beginning::Modern(fields, packet.total_len),
                Err(Error::UnknownNextState(n)) => Beginning::Dropped(
                    "unknown next_state"@,
                    Error::UnknownNextState(n),
                ),
                Err(error) => Beginning::Dropped("malformed handshake"@, error),
            },
            Err(Error::Incomplete) => if buf.len() >= max_bytes {
                Beginning::Refused("handshake_too_large"@)
            } else {
                Beginning::More
            },
            Err(error) => Beginning::Dropped("malformed handshake"@, error),
        },
    }
}

/// Looks for a complete handshake, leaving it in the buffer.
pub fn read_handshake(buf: &[u8], max_bytes: usize) -> (r: HandshakeOutcome)
    ensures
        match beginning(buf@, max_bytes as nat) {
            Beginning::Modern(fields, len) => r is Modern && r->Modern_0@ == fields && r->Modern_1
                == len && len <= buf@.len(),
            Beginning::Legacy(kind) => r == HandshakeOutcome::Legacy(kind),
            Beginning::More => r is More,
            Beginning::Dropped(why, error) => r is Dropped && r->why@ == why && r->error == error,
            Beginning::Refused(why) => r is Refused && r->Refused_0@ == why,
        },
{
    if let Some(kind) = detect(buf) {
        return HandshakeOutcome::Legacy(kind);
    }
    match decode_frame(buf) {
        Ok(frame) => match Handshake::decode(&frame) {
            Ok(handshake) => HandshakeOutcome::Modern(handshake, frame.total_len),
            // A parse failure here is either a port scanner or a client
            // speaking something that is not Minecraft.
            Err(Error::UnknownNextState(n)) => HandshakeOutcome::Dropped {
                why: "unknown next_state",
                error: Error::UnknownNextState(n),
            },
            Err(error) => HandshakeOutcome::Dropped { why: "malformed handshake", error },
        },
        Err(Error::Incomplete) => if buf.len() >= max_bytes {
            HandshakeOutcome::Refused("handshake_too_large")
        } else {
            HandshakeOutcome::More
        },
        Err(error) => HandshakeOutcome::Dropped { why: "malformed handshake", error },
    }
}

/// Once a connection's beginning is understood, later bytes do not change it. A
/// lone first byte of an old ping is the one exception: a second byte may tell
/// the newer form from the older.
pub proof fn beginning_is_stable(buf: Seq<u8>, more: Seq<u8>, max_bytes: nat)
    requires
        beginning(buf, max_bytes) is Modern || beginning(buf, max_bytes) is Dropped || buf.len() > 1
            && beginning(buf, max_bytes) is Legacy,
    ensures
        beginning(buf + more, max_bytes) == beginning(buf, max_bytes),
{
    if buf.len() > 0 {
        assert((buf + more)[0] == buf[0]);
    }
    if buf.len() > 1 {
        assert((buf + more)[1] == buf[1]);
    }
    if legacy_ping(buf) is None {
        crate::protocol::frame::decided_packet_is_stable(buf, more, MAX_PACKET_SIZE as nat);
        lemma_nothing_is_undecided(buf);
    }
}

proof fn lemma_nothing_is_undecided(buf: Seq<u8>)
    ensures
        packet_at(buf, MAX_PACKET_SIZE as nat) is Ok ==> buf.len() > 0,
        buf.len() == 0 ==> packet_at(buf, MAX_PACKET_SIZE as nat) == Err::<Packet, Error>(
            Error::Incomplete,
        ),
{
    crate::protocol::varint::lemma_continued_bound(buf);
}

// ------------------------------------------------------------------- status --

/// How a status ping is served.
#[derive(Debug, Clone, Copy, PartialEq, Eq, Structural)]
pub enum StatusPlan {
    /// By this backend, which sees the whole ping.
    Proxy(usize),
    /// By the gateway; `offline` says that no backend could.
    Answer { offline: bool },
}

/// How a status ping is served. Proxying means the server list follows the
/// backend's own MOTD, at the price of going dark whenever the backend does. A
/// route the gateway does not serve, or one whose backends are all down, still
/// gets an answer.
pub open spec fn status_plan(
    target: Option<TargetValue>,
    backends: Seq<BackendValue>,
    answer_here: bool,
) -> StatusPlan {
    match target {
        None => StatusPlan::Answer { offline: true },
        Some(target) => if !answer_here && target.selected(backends) is Ok {
            StatusPlan::Proxy(target.selected(backends)->Ok_0)
        } else {
            StatusPlan::Answer { offline: !target.any_healthy(backends) }
        },
    }
}

/// The target at a place.
pub open spec fn target_at(registry: &Registry, at: Option<usize>) -> Option<TargetValue> {
    match at {
        Some(at) => if at < registry.target_values().len() {
            Some(registry.target_values()[at as int])
        } else {
            None
        },
        None => None,
    }
}

/// Plans how a status ping is served.
pub fn plan_status(registry: &mut Registry, target: Option<usize>, answer_here: bool) -> (plan:
    StatusPlan)
    requires
        old(registry).wf(),
    ensures
        final(registry).wf(),
        plan == status_plan(
            target_at(old(registry), target),
            old(registry).backend_values(),
            answer_here,
        ),
        final(registry).backend_values() == old(registry).backend_values(),
        final(registry).configuration() == old(registry).configuration(),
        final(registry).rules() == old(registry).rules(),
        final(registry).default_target() == old(registry).default_target(),
        match target {
            Some(at) => if at < old(registry).target_values().len() && !answer_here {
                final(registry).target_values() == old(registry).target_values().update(
                    at as int,
                    old(registry).target_values()[at as int].after_select(
                        old(registry).backend_values(),
                    ),
                )
            } else {
                final(registry).target_values() == old(registry).target_values()
            },
            None => final(registry).target_values() == old(registry).target_values(),
        },
{
    let at: usize = match target {
        Some(at) => at,
        None => return StatusPlan::Answer { offline: true },
    };
    let offline: bool = match registry.is_target_offline(at) {
        Some(offline) => offline,
        None => return StatusPlan::Answer { offline: true },
    };
    if !answer_here {
        match registry.select(at) {
            Ok(backend) => return StatusPlan::Proxy(backend),
            Err(_) => {},
        }
    }
    StatusPlan::Answer { offline }
}

/// What the next packet of a status exchange is.
#[derive(Debug, Clone, Copy, PartialEq, Eq, Structural)]
pub enum Await {
    /// More bytes have to be read.
    More,
    /// The packet that was asked for; so many bytes.
    Packet(usize),
    /// Another packet.
    Other,
    /// No packet at all.
    Malformed,
}

/// Whether a packet with this id is at the front of the buffer.
pub open spec fn awaited(buf: Seq<u8>, id: i32) -> Await {
    match packet_at(buf, MAX_PACKET_SIZE as nat) {
        Ok(packet) => if packet.id == id {
            Await::Packet(packet.total_len as usize)
        } else {
            Await::Other
        },
        Err(Error::Incomplete) => Await::More,
        Err(_) => Await::Malformed,
    }
}

/// Looks for the status request.
pub fn read_status_request(buf: &[u8]) -> (r: Await)
    ensures
        r == awaited(buf@, STATUS_REQUEST_ID),
        r is Packet ==> r->Packet_0 <= buf@.len(),
{
    match decode_frame(buf) {
        Ok(frame) => if frame.id == STATUS_REQUEST_ID {
            Await::Packet(frame.total_len)
        } else {
            Await::Other
        },
        Err(Error::Incomplete) => Await::More,
        Err(_) => Await::Malformed,
    }
}

/// What to do about the ping that may follow a status response.
#[derive(Debug, PartialEq, Eq)]
pub enum PingAnswer {
    /// More bytes have to be read.
    More,
    /// Send this pong; so many bytes of the buffer were the ping.
    Pong { packet: Vec<u8>, consumed: usize },
    /// There is no ping to answer.
    Done,
}

/// The number that a ping carries; zero where it carries none.
pub open spec fn ping_payload(body: Seq<u8>) -> i64 {
    if body.len() >= 8 {
        signed64(be_value(body.take(8)))
    } else {
        0
    }
}

/// Looks for the latency ping. Many clients follow up with one; some just close.
pub fn read_ping(buf: &[u8]) -> (r: PingAnswer)
    ensures
        match packet_at(buf@, MAX_PACKET_SIZE as nat) {
            Ok(packet) => if packet.id == PING_REQUEST_ID {
                r is Pong && r->packet@ == pong_bytes(ping_payload(packet.body)) && r->consumed
                    == packet.total_len && r->consumed <= buf@.len()
            } else {
                r is Done
            },
            Err(Error::Incomplete) => r is More,
            Err(_) => r is Done,
        },
{
    match decode_frame(buf) {
        Ok(frame) => {
            if frame.id != PING_REQUEST_ID {
                return PingAnswer::Done;
            }
            let mut reader = frame.reader();
            let payload: i64 = match reader.i64() {
                Ok(payload) => payload,
                Err(_) => 0,
            };
            PingAnswer::Pong { packet: encode_pong(payload), consumed: frame.total_len }
        },
        Err(Error::Incomplete) => PingAnswer::More,
        Err(_) => PingAnswer::Done,
    }
}

/// The protocol number in the answer to an old ping. Such clients cannot speak to
/// a modern server anyway; what matters is that the entry renders with a MOTD
/// instead of an error.
pub const LEGACY_PROTOCOL: i32 = 127;

/// The answer to a pre-1.7 ping.
pub fn answer_legacy(kind: LegacyPing, motd: &Motd, sessions: i64) -> (packet: Vec<u8>)
    ensures
        packet@ == legacy_packet(
            legacy_payload(
                kind,
                LEGACY_PROTOCOL as int,
                motd@.version_name,
                plain(component_value(motd@.text, pasted_json(motd@.text))),
                sessions as int,
                motd@.max_players as int,
            ),
        ),
{
    let text = component_to_plain(&component(motd.text.as_str()));
    encode_response(
        kind,
        LEGACY_PROTOCOL,
        motd.version_name.as_str(),
        text.as_str(),
        sessions,
        motd.max_players,
    )
}

// -------------------------------------------------------------------- login --

/// The player's name, where login start has already arrived behind the
/// handshake.
pub open spec fn name_behind(buf: Seq<u8>, handshake_len: nat) -> Option<Seq<char>> {
    match packet_at(buf.skip(handshake_len as int), MAX_PACKET_SIZE as nat) {
        Ok(packet) => match login_start_of(packet) {
            Ok((name, _)) => Some(name),
            Err(_) => None,
        },
        Err(_) => None,
    }
}

/// The player's name, if it is already there.
///
/// The login start packet often arrives in the same TCP segment. If it has, the
/// player name is free; if not, waiting for it would only add latency.
pub fn player_name(buf: &[u8], handshake_len: usize) -> (name: Option<String>)
    requires
        handshake_len <= buf@.len(),
    ensures
        match name_behind(buf@, handshake_len as nat) {
            Some(value) => name is Some && name->Some_0@ == value,
            None => name is None,
        },
{
    let rest = slice_subrange(buf, handshake_len, buf.len());
    assert(rest@ =~= buf@.skip(handshake_len as int));
    match decode_frame(rest) {
        Ok(frame) => match LoginStart::decode(&frame) {
            Ok(start) => Some(start.name),
            Err(_) => None,
        },
        Err(_) => None,
    }
}

/// Why a player is not connected.
#[derive(Debug, Clone, Copy, PartialEq, Eq, Structural)]
pub enum LoginRefusal {
    /// No route leads from this host.
    NoRoute,
    /// No backend of the target is healthy.
    NoBackend,
    /// Every backend of the target is full.
    TargetFull,
}

impl LoginRefusal {
    /// Metrics label.
    pub fn reason(self) -> (label: &'static str)
        ensures
            label@ == match self {
                LoginRefusal::NoRoute => "no_route"@,
                LoginRefusal::NoBackend => "no_backend"@,
                LoginRefusal::TargetFull => "target_full"@,
            },
    {
        match self {
            LoginRefusal::NoRoute => "no_route",
            LoginRefusal::NoBackend => "no_backend",
            LoginRefusal::TargetFull => "target_full",
        }
    }

    /// What the player is told.
    pub fn message(self, messages: &Messages) -> (message: &str)
        ensures
            message@ == match self {
                LoginRefusal::NoRoute => messages.no_route@,
                LoginRefusal::NoBackend => messages.backend_offline@,
                LoginRefusal::TargetFull => messages.too_many_connections@,
            },
    {
        match self {
            LoginRefusal::NoRoute => messages.no_route.as_str(),
            LoginRefusal::NoBackend => messages.backend_offline.as_str(),
            LoginRefusal::TargetFull => messages.too_many_connections.as_str(),
        }
    }
}

/// Where a login leads, or why nowhere.
pub open spec fn login_plan(target: Option<TargetValue>, backends: Seq<BackendValue>) -> Result<
    usize,
    LoginRefusal,
> {
    match target {
        None => Err(LoginRefusal::NoRoute),
        Some(target) => match target.selected(backends) {
            Ok(backend) => Ok(backend),
            Err(SelectError::AllFull) => Err(LoginRefusal::TargetFull),
            Err(_) => Err(LoginRefusal::NoBackend),
        },
    }
}

/// Plans where a login leads and takes the slot there. Selection hands out only
/// backends with a free slot, so the slot is always there to be taken.
pub fn plan_login(registry: &mut Registry, target: Option<usize>) -> (r: Result<
    (usize, SessionGuard),
    LoginRefusal,
>)
    requires
        old(registry).wf(),
    ensures
        final(registry).wf(),
        final(registry).configuration() == old(registry).configuration(),
        final(registry).rules() == old(registry).rules(),
        final(registry).default_target() == old(registry).default_target(),
        match login_plan(target_at(old(registry), target), old(registry).backend_values()) {
            Ok(backend) => {
                &&& r is Ok
                &&& r->Ok_0.0 == backend
                &&& backend < old(registry).backend_values().len()
                &&& r->Ok_0.1.holder() == old(registry).backend_values()[backend as int].name
                &&& final(registry).backend_values() == old(registry).backend_values().update(
                    backend as int,
                    old(registry).backend_values()[backend as int].acquired(),
                )
            },
            Err(refusal) => {
                &&& r is Err
                &&& r->Err_0 == refusal
                &&& final(registry).backend_values() == old(registry).backend_values()
            },
        },
        match target_at(old(registry), target) {
            Some(chosen) => final(registry).target_values() == old(registry).target_values().update(
                target->Some_0 as int,
                chosen.after_select(old(registry).backend_values()),
            ),
            None => final(registry).target_values() == old(registry).target_values(),
        },
{
    let at: usize = match target {
        Some(at) => at,
        None => return Err(LoginRefusal::NoRoute),
    };
    if registry.target_at(at).is_none() {
        return Err(LoginRefusal::NoRoute);
    }
    proof {
        registry.lemma_target_wf(at);
        let chosen = registry.target_values()[at as int];
        if chosen.selected(registry.backend_values()) is Ok {
            crate::routing::registry::selection_is_sound(chosen, registry.backend_values());
        }
    }
    match registry.select(at) {
        Ok(backend) => match registry.acquire(backend) {
            Some(guard) => Ok((backend, guard)),
            None => Err(LoginRefusal::TargetFull),
        },
        Err(SelectError::AllFull) => Err(LoginRefusal::TargetFull),
        Err(_) => Err(LoginRefusal::NoBackend),
    }
}

/// The packet that tells a player why it is not connected.
pub open spec fn kick_bytes(message: Seq<char>) -> Seq<u8> {
    disconnect_bytes(printed(component_value(message, pasted_json(message))))
}

/// A login disconnect, so the player sees a reason instead of a timeout.
pub fn kick(message: &str) -> (packet: Vec<u8>)
    ensures
        packet@ == kick_bytes(message@),
{
    encode_disconnect(&component(message))
}

/// What a refused client is told: a rate-limited one gets a reason rather than a
/// silent reset, the others get nothing.
pub fn rejection_message(rejection: Rejection, messages: &Messages) -> (message: Option<&str>)
    ensures
        match rejection {
            Rejection::RateLimited => message is Some && message->Some_0@ == messages.rate_limited@,
            _ => message is None,
        },
{
    match rejection {
        Rejection::RateLimited => Some(messages.rate_limited.as_str()),
        _ => None,
    }
}

// ------------------------------------------------------------------ outcome --

/// How a connection ended, for logs and metrics.
#[derive(Debug, Clone, PartialEq, Eq)]
pub enum Outcome {
    /// Answered a status ping ourselves.
    Status,
    /// Answered a pre-1.7 ping.
    LegacyStatus,
    /// Proxied a session.
    Proxied { backend: String, seconds: u64, bytes: Transferred },
    /// Refused, with the metrics reason label.
    Refused(&'static str),
    /// The peer went away or misbehaved.
    Dropped(&'static str),
}

/// How many bytes a session moved.
#[derive(Debug, Clone, Copy, PartialEq, Eq, Structural)]
pub struct Transferred {
    pub to_backend: u64,
    pub to_client: u64,
}

impl Default for Transferred {
    fn default() -> (t: Self)
        ensures
            t.to_backend == 0,
            t.to_client == 0,
    {
        Transferred { to_backend: 0, to_client: 0 }
    }
}

/// Counts the end of a connection.
pub fn record_outcome(metrics: &mut Metrics, outcome: &Outcome)
    requires
        old(metrics).wf(),
    ensures
        final(metrics).wf(),
        match *outcome {
            Outcome::Proxied { seconds, .. } => final(metrics)@ == (MetricsValue {
                sessions_completed: wrapped_sum(old(metrics)@.sessions_completed, 1),
                session_seconds_total: wrapped_sum(old(metrics)@.session_seconds_total, seconds),
                ..old(metrics)@
            }),
            Outcome::Refused(reason) => {
                &&& final(metrics)@ == (MetricsValue {
                    connections_rejected: final(metrics)@.connections_rejected,
                    ..old(metrics)@
                })
                &&& counted_more(
                    old(metrics)@.connections_rejected,
                    final(metrics)@.connections_rejected,
                    reason@,
                    1,
                )
            },
            _ => final(metrics)@ == old(metrics)@,
        },
{
    match outcome {
        Outcome::Proxied { seconds, .. } => metrics.session_finished(*seconds),
        Outcome::Refused(reason) => metrics.connections_rejected.increment(reason),
        _ => {},
    }
}

/// Counts the bytes of a session.
pub fn record_bytes(metrics: &mut Metrics, bytes: Transferred)
    requires
        old(metrics).wf(),
    ensures
        final(metrics).wf(),
        final(metrics)@ == (MetricsValue { bytes: final(metrics)@.bytes, ..old(metrics)@ }),
        forall|label: Seq<char>|
            count_of(final(metrics)@.bytes, label) == if label == "to_backend"@ {
                wrapped_sum(count_of(old(metrics)@.bytes, label), bytes.to_backend)
            } else if label == "to_client"@ {
                wrapped_sum(count_of(old(metrics)@.bytes, label), bytes.to_client)
            } else {
                count_of(old(metrics)@.bytes, label)
            },
        forall|label: Seq<char>|
            has_label(final(metrics)@.bytes, label) == (has_label(old(metrics)@.bytes, label)
                || label == "to_backend"@ || label == "to_client"@),
{
    proof {
        reveal_strlit("to_backend");
        reveal_strlit("to_client");
        assert("to_backend"@.len() != "to_client"@.len());
    }
    metrics.bytes.add("to_backend", bytes.to_backend);
    metrics.bytes.add("to_client", bytes.to_client);
}

// -------------------------------------------------------------------- laws --

/// Headers of trusted peers decide: a header without identity leaves the peer
/// itself, a missing one is fine unless it is required, an unfinished one is
/// waited for, and a broken one is refused.
pub proof fn trusted_peers_are_held_to_their_headers(
    settings: InboundProxyProtocol,
    peer: SocketAddr,
    buf: Seq<u8>,
)
    requires
        settings.enabled,
        settings.trusted.matches(peer.ip),
    ensures
        match header_at(buf) {
            Ok((ProxyHeader::Proxy { src, .. }, len)) => inbound_client(settings, peer, buf) == (
            Inbound::Client { address: src, consumed: len as usize }),
            Ok((ProxyHeader::Local, len)) => inbound_client(settings, peer, buf) == (
            Inbound::Client { address: peer, consumed: len as usize }),
            Err(error) => {
                &&& error is Incomplete ==> inbound_client(settings, peer, buf) == Inbound::More
                &&& error is NotPresent && settings.required ==> inbound_client(
                    settings,
                    peer,
                    buf,
                ) == Inbound::Refused
                &&& error is NotPresent && !settings.required ==> inbound_client(
                    settings,
                    peer,
                    buf,
                ) == (Inbound::Client { address: peer, consumed: 0 })
                &&& error is Malformed || error is TooLong ==> inbound_client(settings, peer, buf)
                    == Inbound::Refused
            },
        },
{
    reveal(inbound_client);
}

/// Without the setting nobody's header is read.
pub proof fn headers_are_read_where_enabled(
    settings: InboundProxyProtocol,
    peer: SocketAddr,
    buf: Seq<u8>,
)
    requires
        !settings.enabled,
    ensures
        inbound_client(settings, peer, buf) == (Inbound::Client { address: peer, consumed: 0 }),
{
    reveal(inbound_client);
}

/// A connection begins with an old ping or with a handshake; an unfinished one
/// is waited for up to the limit, and everything else is dropped.
pub proof fn connections_begin_with_a_handshake(
    fields: HandshakeFields,
    rest: Seq<u8>,
    buf: Seq<u8>,
    max_bytes: nat,
)
    requires
        fields.server_address.len() <= 255,
    ensures
        handshake_bytes(fields)[0] != 0xFE ==> beginning(handshake_bytes(fields) + rest, max_bytes)
            == Beginning::Modern(fields, handshake_bytes(fields).len()),
        buf.len() > 1 && buf[0] == 0xFE && buf[1] == 0x01 ==> beginning(buf, max_bytes)
            == Beginning::Legacy(LegacyPing::Post14),
        buf.len() > 0 && buf[0] == 0xFE && !(buf.len() > 1 && buf[1] == 0x01) ==> beginning(
            buf,
            max_bytes,
        ) == Beginning::Legacy(LegacyPing::Pre13),
        (buf.len() == 0 || buf[0] != 0xFE) && packet_at(buf, 32_768) is Err ==> ({
            let error = packet_at(buf, 32_768)->Err_0;
            &&& error is Incomplete && buf.len() < max_bytes ==> beginning(buf, max_bytes)
                == Beginning::More
            &&& error is Incomplete && buf.len() >= max_bytes ==> beginning(buf, max_bytes)
                == Beginning::Refused("handshake_too_large"@)
            &&& !(error is Incomplete) ==> beginning(buf, max_bytes) == Beginning::Dropped(
                "malformed handshake"@,
                error,
            )
        }),
        (buf.len() == 0 || buf[0] != 0xFE) && packet_at(buf, 32_768) is Ok && handshake_of(
            packet_at(buf, 32_768)->Ok_0,
        ) is Err ==> ({
            let error = handshake_of(packet_at(buf, 32_768)->Ok_0)->Err_0;
            beginning(buf, max_bytes) == Beginning::Dropped(
                if error is UnknownNextState {
                    "unknown next_state"@
                } else {
                    "malformed handshake"@
                },
                error,
            )
        }),
{
    handshake_round_trip(fields, rest);
    let bytes = handshake_bytes(fields);
    let all = bytes + rest;
    lemma_length_of_packet(all);
    let len = packet_at(all, 32_768)->Ok_0.total_len as int;
    assert(all.take(len).len() == bytes.len());
    assert(bytes.len() > 0) by {
        assert(len > 0);
    }
    assert(all[0] == bytes[0]);
}

proof fn lemma_length_of_packet(buf: Seq<u8>)
    ensures
        packet_at(buf, 32_768) is Ok ==> 0 < packet_at(buf, 32_768)->Ok_0.total_len <= buf.len(),
{
}

/// A host without a route is answered as offline. One with a route is answered
/// here where that is wanted or no backend can take it, and then as offline only
/// where no backend is healthy; else the backend that was selected answers.
pub proof fn pings_are_always_answered(
    target: TargetValue,
    backends: Seq<BackendValue>,
    answer_here: bool,
)
    ensures
        status_plan(None, backends, answer_here) == (StatusPlan::Answer { offline: true }),
        answer_here || target.selected(backends) is Err ==> status_plan(
            Some(target),
            backends,
            answer_here,
        ) == (StatusPlan::Answer {
            offline: forall|i: int|
                0 <= i < target.members.len() ==> !(#[trigger] target.member(backends, i)).healthy,
        }),
        !answer_here && target.selected(backends) is Ok ==> status_plan(
            Some(target),
            backends,
            answer_here,
        ) == StatusPlan::Proxy(target.selected(backends)->Ok_0),
{
}

/// A login goes to the backend that was selected. Without a route there is none,
/// with healthy backends that are all full the target is full, and else no
/// backend is there.
pub proof fn logins_are_refused_for_a_reason(target: TargetValue, backends: Seq<BackendValue>)
    ensures
        login_plan(None, backends) == Err::<usize, LoginRefusal>(LoginRefusal::NoRoute),
        target.selected(backends) is Ok ==> login_plan(Some(target), backends) == Ok::<
            usize,
            LoginRefusal,
        >(target.selected(backends)->Ok_0),
        target.members.len() == 0 || !target.any_healthy(backends) ==> login_plan(
            Some(target),
            backends,
        ) == Err::<usize, LoginRefusal>(LoginRefusal::NoBackend),
        target.any_healthy(backends) && target.selected(backends) is Err ==> login_plan(
            Some(target),
            backends,
        ) == Err::<usize, LoginRefusal>(LoginRefusal::TargetFull),
{
}

/// A ping is answered with the number that it carried.
pub proof fn pings_carry_their_number(payload: i64, rest: Seq<u8>, short: Seq<u8>)
    ensures
        ping_payload(be_bytes(unsigned64(payload), 8) + rest) == payload,
        short.len() < 8 ==> ping_payload(short) == 0,
{
    signed64_round_trip(payload);
    lemma_pow256_values();
    be_round_trip(unsigned64(payload), 8);
    assert((be_bytes(unsigned64(payload), 8) + rest).take(8) =~= be_bytes(unsigned64(payload), 8));
}

/// A packet is awaited by its id: the one that is awaited is taken, another one
/// is not, an unfinished one is waited for.
pub proof fn packets_are_awaited_by_their_id(id: i32, other: i32, body: Seq<u8>, rest: Seq<u8>)
    requires
        body.len() <= 32_000,
    ensures
        awaited(packet_bytes(id, body) + rest, id) == Await::Packet(
            packet_bytes(id, body).len() as usize,
        ),
        other != id ==> awaited(packet_bytes(id, body) + rest, other) == Await::Other,
        awaited(packet_bytes(id, body).drop_last(), other) == Await::More,
{
    varint_round_trip(id, Seq::empty());
    packet_round_trip(id, body, rest, 32_768);
    let len = packet_bytes(id, body).len() as int;
    partial_packet_is_incomplete(id, body, len - 1, 32_768);
    assert(packet_bytes(id, body).take(len - 1) =~= packet_bytes(id, body).drop_last());
}

/// The player's name is the one that login start carries right behind the
/// handshake.
pub proof fn names_stand_behind_the_handshake(
    front: Seq<u8>,
    name: Seq<char>,
    more: Seq<u8>,
    rest: Seq<u8>,
)
    requires
        name.len() <= 16,
        more.len() <= 16,
    ensures
        name_behind(
            front + (packet_bytes(0, string_bytes(name) + more) + rest),
            front.len(),
        ) == Some(name),
        name_behind(front, front.len()) is None,
{
    let body = string_bytes(name) + more;
    let packet = packet_bytes(0, body);
    lemma_utf8_len(name);
    varint_round_trip(0, Seq::empty());
    varint_round_trip(encode_utf8(name).len() as i32, Seq::empty());
    string_round_trip(name, 16, more);
    packet_round_trip(0, body, rest, 32_768);
    assert((front + (packet + rest)).skip(front.len() as int) =~= packet + rest);
    assert(front.skip(front.len() as int) =~= Seq::<u8>::empty());
}

} // verus!
