//! One client connection as a state machine.
//!
//! Reading, writing, waiting and connecting happen outside. Here a connection
//! hears what happened and says what to do next, until it says that it is over.

use vstd::prelude::*;
use vstd::slice::{slice_subrange, slice_to_vec};

use crate::bytes::{push_all, signed64, to_signed64};
use crate::config::model::{
    overlaid, Config, Forwarding, InboundProxyProtocol, Motd, MotdValue, RuleValue,
};
use crate::forwarding::connect::{
    connect_error_kind, effective_forwarding, ConnectError, Origin,
};
use crate::gateway::limits::Rejection;
use crate::gateway::motd::{build, shown_status, MotdContext};
use crate::gateway::session::{
    answer_legacy, awaited, beginning, consumed_headers_have_arrived, inbound_client, kick,
    kick_bytes, login_plan, ping_payload, plan_login, plan_status, read_handshake,
    read_inbound_header, read_ping, read_status_request, record_bytes, rejection_message,
    status_plan, Await, Beginning, HandshakeOutcome, Inbound, LoginRefusal, Outcome, PingAnswer,
    StatusPlan, Transferred, LEGACY_PROTOCOL,
};
use crate::metrics::counters::{
    count_of, counted_more, has_label, wrapped_sum, wrapping_sum, Metrics, MetricsValue,
};
use crate::net::{IpAddr, SocketAddr};
use crate::protocol::chat::{component_value, pasted_json, plain};
use crate::protocol::error::{kind_label, Error};
use crate::protocol::frame::{packet_at, MAX_PACKET_SIZE};
use crate::protocol::handshake::{routing_host, Handshake, HandshakeFields, NextState};
use crate::protocol::legacy::{legacy_packet, legacy_payload, LegacyPing};
use crate::protocol::status::{
    encode_status_response, pong_bytes, status_json, status_response_bytes, PING_REQUEST_ID,
    STATUS_REQUEST_ID,
};
use crate::routing::registry::{
    backend_place, backend_values, lemma_backend_place, route_of, selection_is_sound, total_active,
    total_reported, BackendValue, Registry, SelectError, SessionGuard, TargetValue,
};
use crate::text::glue3;
use crate::time::Duration;

verus! {

/// The backend of a session, and the slot that the session holds there.
#[derive(Debug)]
pub struct Destination {
    pub name: String,
    pub slot: Option<SessionGuard>,
}

/// A destination as a value.
pub ghost struct DestinationValue {
    pub name: Seq<char>,
    /// The backend that a slot is held at.
    pub slot: Option<Seq<char>>,
}

impl View for Destination {
    type V = DestinationValue;

    open spec fn view(&self) -> DestinationValue {
        DestinationValue {
            name: self.name@,
            slot: match self.slot {
                Some(guard) => Some(guard.holder()),
                None => None,
            },
        }
    }
}

/// What a connection waits for.
#[derive(Debug)]
pub enum Stage {
    /// The PROXY header of an upstream hop, if one is due.
    Header,
    /// A place among the connections.
    Place,
    /// The handshake, or a pre-1.7 ping.
    Opening,
    /// The status request; this is the response to it.
    Request(Vec<u8>),
    /// The status response to be written.
    Response,
    /// The latency ping.
    Ping,
    /// The pong to be written.
    Pong,
    /// A connection to the backend.
    Backend(Destination),
    /// What the client sent to be written to the backend.
    Replay(Destination),
    /// The end of the session.
    Session(Destination),
    /// Nothing any more.
    Over,
}

/// What a connection waits for, as a value.
pub ghost enum StageValue {
    Header,
    Place,
    Opening,
    Request(Seq<u8>),
    Response,
    Ping,
    Pong,
    Backend(DestinationValue),
    Replay(DestinationValue),
    Session(DestinationValue),
    Over,
}

impl View for Stage {
    type V = StageValue;

    open spec fn view(&self) -> StageValue {
        match self {
            Stage::Header => StageValue::Header,
            Stage::Place => StageValue::Place,
            Stage::Opening => StageValue::Opening,
            Stage::Request(response) => StageValue::Request(response@),
            Stage::Response => StageValue::Response,
            Stage::Ping => StageValue::Ping,
            Stage::Pong => StageValue::Pong,
            Stage::Backend(destination) => StageValue::Backend(destination@),
            Stage::Replay(destination) => StageValue::Replay(destination@),
            Stage::Session(destination) => StageValue::Session(destination@),
            Stage::Over => StageValue::Over,
        }
    }
}

/// One client connection.
#[derive(Debug)]
pub struct Connection {
    /// Who is on the other end of the socket.
    pub peer: SocketAddr,
    /// The address that the client dialled.
    pub local: SocketAddr,
    /// Who the client is: the peer, or whom a trusted upstream hop names.
    pub client: SocketAddr,
    /// What was read and not yet consumed.
    pub buf: Vec<u8>,
    pub stage: Stage,
}

/// A connection as a value.
pub ghost struct ConnectionValue {
    pub peer: SocketAddr,
    pub local: SocketAddr,
    pub client: SocketAddr,
    pub buf: Seq<u8>,
    pub stage: StageValue,
}

impl View for Connection {
    type V = ConnectionValue;

    open spec fn view(&self) -> ConnectionValue {
        ConnectionValue {
            peer: self.peer,
            local: self.local,
            client: self.client,
            buf: self.buf@,
            stage: self.stage@,
        }
    }
}

/// Something that happened to a connection.
#[derive(Debug)]
pub enum Event {
    /// It was accepted.
    Start,
    /// The client sent these bytes.
    Received(Vec<u8>),
    /// The client closed it, it failed, or the client took too long.
    Closed,
    /// There is a place for it.
    Admitted,
    /// There is no place for it.
    Rejected(Rejection),
    /// What was to be written is written.
    Sent,
    /// What was to be written could not be.
    NotSent,
    /// The backend is connected.
    Connected,
    /// The backend's address cannot be looked up.
    Unresolved(ConnectError),
    /// The backend cannot be connected.
    Unreachable(ConnectError),
    /// The session is over.
    Ended { seconds: u64, bytes: Transferred },
}

/// Which deadline holds for a read.
#[derive(Debug, Clone, Copy, PartialEq, Eq, Structural)]
pub enum Wait {
    Handshake,
    Status,
}

/// What to do next.
#[derive(Debug)]
pub enum Action {
    /// Read from the client.
    Read(Wait),
    /// Ask for a place for this address.
    Admit(IpAddr),
    /// Write to the client.
    Send(Vec<u8>),
    /// Connect to the backend at this place.
    Open { place: usize, forwarding: Forwarding, origin: Origin },
    /// Write to the backend.
    Replay(Vec<u8>),
    /// Copy in both directions until either side closes, or is silent for this
    /// long.
    Pipe(Option<Duration>),
    /// Write these last bytes to the client as far as possible, and close.
    Finish { farewell: Option<Vec<u8>>, outcome: Outcome },
}

/// How a connection ended, as a value.
pub ghost enum OutcomeValue {
    Status,
    LegacyStatus,
    Proxied { backend: Seq<char>, seconds: u64, bytes: Transferred },
    Refused(Seq<char>),
    Dropped(Seq<char>),
}

/// How a connection ended, as a value.
pub open spec fn outcome_value(outcome: Outcome) -> OutcomeValue {
    match outcome {
        Outcome::Status => OutcomeValue::Status,
        Outcome::LegacyStatus => OutcomeValue::LegacyStatus,
        Outcome::Proxied { backend, seconds, bytes } => OutcomeValue::Proxied {
            backend: backend@,
            seconds,
            bytes,
        },
        Outcome::Refused(reason) => OutcomeValue::Refused(reason@),
        Outcome::Dropped(reason) => OutcomeValue::Dropped(reason@),
    }
}

/// What to do next, as a value.
pub ghost enum ActionValue {
    Read(Wait),
    Admit(IpAddr),
    Send(Seq<u8>),
    Open { place: usize, forwarding: Forwarding, origin: Origin },
    Replay(Seq<u8>),
    Pipe(Option<Duration>),
    Finish { farewell: Option<Seq<u8>>, outcome: OutcomeValue },
}

impl View for Action {
    type V = ActionValue;

    open spec fn view(&self) -> ActionValue {
        match *self {
            Action::Read(wait) => ActionValue::Read(wait),
            Action::Admit(ip) => ActionValue::Admit(ip),
            Action::Send(bytes) => ActionValue::Send(bytes@),
            Action::Open { place, forwarding, origin } => ActionValue::Open {
                place,
                forwarding,
                origin,
            },
            Action::Replay(bytes) => ActionValue::Replay(bytes@),
            Action::Pipe(idle) => ActionValue::Pipe(idle),
            Action::Finish { farewell, outcome } => ActionValue::Finish {
                farewell: match farewell {
                    Some(bytes) => Some(bytes@),
                    None => None,
                },
                outcome: outcome_value(outcome),
            },
        }
    }
}

/// What is counted for a step.
#[derive(Debug, Clone, PartialEq, Eq)]
pub enum Count {
    Nothing,
    /// A server list ping, by who answers it.
    StatusRequest(&'static str),
    LoginAttempt,
    /// A connection to this backend.
    BackendConnection(String),
    /// A failure to reach a backend: its name, with the kind of failure folded in.
    BackendFailure(String),
    /// A handshake that cannot be parsed, by what the parser said.
    HandshakeError(&'static str),
    /// What a session moved.
    Bytes(Transferred),
}

/// What is counted for a step, as a value.
pub ghost enum CountValue {
    Nothing,
    StatusRequest(Seq<char>),
    LoginAttempt,
    BackendConnection(Seq<char>),
    BackendFailure(Seq<char>),
    HandshakeError(Seq<char>),
    Bytes(Transferred),
}

impl View for Count {
    type V = CountValue;

    open spec fn view(&self) -> CountValue {
        match *self {
            Count::Nothing => CountValue::Nothing,
            Count::StatusRequest(source) => CountValue::StatusRequest(source@),
            Count::LoginAttempt => CountValue::LoginAttempt,
            Count::BackendConnection(name) => CountValue::BackendConnection(name@),
            Count::BackendFailure(label) => CountValue::BackendFailure(label@),
            Count::HandshakeError(kind) => CountValue::HandshakeError(kind@),
            Count::Bytes(bytes) => CountValue::Bytes(bytes),
        }
    }
}

/// What a connection finds around it.
#[derive(Debug, Clone, Copy)]
pub struct Around<'a> {
    pub config: &'a Config,
    /// The name of the listener that accepted it.
    pub listener: &'a str,
    /// What that listener accepts from upstream hops.
    pub proxy_protocol: &'a InboundProxyProtocol,
    /// The server icon, ready to be sent.
    pub favicon: Option<&'a str>,
    /// Sessions of all backends.
    pub sessions: i64,
    /// Players that the backends report.
    pub reported: i64,
}

/// What a connection finds around it, the player counts being those of the
/// registry; nothing where those are too large to be counted.
pub open spec fn surroundings<'a>(
    config: &'a Config,
    listener: &'a str,
    proxy_protocol: &'a InboundProxyProtocol,
    favicon: Option<&'a str>,
    registry: &Registry,
) -> Option<Around<'a>> {
    let backends = registry.backend_values();
    let sessions = total_active(backends, backends.len());
    let reported = total_reported(backends, backends.len());
    if sessions <= usize::MAX && i64::MIN <= reported <= i64::MAX {
        Some(
            Around {
                config,
                listener,
                proxy_protocol,
                favicon,
                sessions: signed64(sessions),
                reported: reported as i64,
            },
        )
    } else {
        None
    }
}

impl<'a> Around<'a> {
    /// What a connection finds around it, the player counts being those of the
    /// registry.
    pub fn of(
        config: &'a Config,
        listener: &'a str,
        proxy_protocol: &'a InboundProxyProtocol,
        favicon: Option<&'a str>,
        registry: &Registry,
    ) -> (around: Option<Self>)
        ensures
            around == surroundings(config, listener, proxy_protocol, favicon, registry),
    {
        let sessions: usize = match registry.active_sessions() {
            Some(sessions) => sessions,
            None => return None,
        };
        match registry.reported_players() {
            Some(reported) => Some(
                Around {
                    config,
                    listener,
                    proxy_protocol,
                    favicon,
                    sessions: to_signed64(sessions as u64),
                    reported,
                },
            ),
            None => None,
        }
    }
}

// -------------------------------------------------------------------- model --

/// The connection after an event, what to do, and what to count.
pub ghost struct Turn {
    pub connection: ConnectionValue,
    pub action: ActionValue,
    pub count: CountValue,
}

/// A turn, and what the backends and targets are after it.
pub ghost struct Step {
    pub turn: Turn,
    pub backends: Seq<BackendValue>,
    pub targets: Seq<TargetValue>,
}

/// A turn that leaves the backends and targets as they are.
pub open spec fn quiet(turn: Turn, registry: &Registry) -> Step {
    Step { turn, backends: registry.backend_values(), targets: registry.target_values() }
}

/// Whether an event is one that a stage waits for.
pub open spec fn fits(stage: StageValue, event: Event) -> bool {
    match stage {
        StageValue::Header => event is Start || event is Received || event is Closed,
        StageValue::Place => event is Admitted || event is Rejected,
        StageValue::Opening => event is Received || event is Closed,
        StageValue::Request(_) => event is Received || event is Closed,
        StageValue::Response => event is Sent || event is NotSent,
        StageValue::Ping => event is Received || event is Closed,
        StageValue::Pong => event is Sent || event is NotSent,
        StageValue::Backend(_) => event is Connected || event is Unresolved || event is Unreachable,
        StageValue::Replay(_) => event is Sent || event is NotSent,
        StageValue::Session(_) => event is Ended,
        StageValue::Over => false,
    }
}

/// What an event adds to the buffer.
pub open spec fn arrived(event: Event) -> Seq<u8> {
    match event {
        Event::Received(bytes) => bytes@,
        _ => Seq::empty(),
    }
}

/// The connection with other bytes, at another stage.
pub open spec fn at_stage(
    connection: ConnectionValue,
    buf: Seq<u8>,
    stage: StageValue,
) -> ConnectionValue {
    ConnectionValue { buf, stage, ..connection }
}

/// Nothing but more bytes.
pub open spec fn more(connection: ConnectionValue, wait: Wait) -> Turn {
    Turn { connection, action: ActionValue::Read(wait), count: CountValue::Nothing }
}

/// The end of a connection.
pub open spec fn finish(
    connection: ConnectionValue,
    buf: Seq<u8>,
    farewell: Option<Seq<u8>>,
    outcome: OutcomeValue,
) -> Turn {
    Turn {
        connection: at_stage(connection, buf, StageValue::Over),
        action: ActionValue::Finish { farewell, outcome },
        count: CountValue::Nothing,
    }
}

/// The backends after a slot was given back.
pub open spec fn given_back(backends: Seq<BackendValue>, slot: Option<Seq<char>>) -> Seq<
    BackendValue,
> {
    match slot {
        Some(name) => {
            let at = backend_place(backends, name) as int;
            if at < backends.len() {
                backends.update(at, backends[at].released())
            } else {
                backends
            }
        },
        None => backends,
    }
}

/// The end of a connection to a backend: the slot is given back.
pub open spec fn leave(
    connection: ConnectionValue,
    destination: DestinationValue,
    farewell: Option<Seq<u8>>,
    outcome: OutcomeValue,
    count: CountValue,
    registry: &Registry,
) -> Step {
    Step {
        turn: Turn { count, ..finish(connection, connection.buf, farewell, outcome) },
        backends: given_back(registry.backend_values(), destination.slot),
        targets: registry.target_values(),
    }
}

/// Looks for the PROXY header, and then asks for a place.
pub open spec fn header_turn(
    connection: ConnectionValue,
    buf: Seq<u8>,
    around: Around<'_>,
) -> Turn {
    match inbound_client(*around.proxy_protocol, connection.peer, buf) {
        Inbound::Client { address, consumed } => Turn {
            connection: ConnectionValue {
                client: address,
                buf: buf.skip(consumed as int),
                stage: StageValue::Place,
                ..connection
            },
            action: ActionValue::Admit(address.ip),
            count: CountValue::Nothing,
        },
        Inbound::More => more(at_stage(connection, buf, StageValue::Header), Wait::Handshake),
        Inbound::Refused => finish(
            connection,
            buf,
            None,
            OutcomeValue::Refused("proxy_protocol"@),
        ),
    }
}

/// The MOTD of a route.
pub open spec fn routed_motd(config: Config, rule: Option<RuleValue>) -> MotdValue {
    match rule {
        Some(rule) => match rule.motd {
            Some(over) => overlaid(config.motd@, over),
            None => config.motd@,
        },
        None => config.motd@,
    }
}

/// Looks for the status request, and then sends the response.
pub open spec fn request_turn(
    connection: ConnectionValue,
    buf: Seq<u8>,
    response: Seq<u8>,
    count: CountValue,
) -> Turn {
    let turn = match awaited(buf, STATUS_REQUEST_ID) {
        Await::Packet(len) => Turn {
            connection: at_stage(connection, buf.skip(len as int), StageValue::Response),
            action: ActionValue::Send(response),
            count,
        },
        Await::Other => finish(
            connection,
            buf,
            None,
            OutcomeValue::Dropped("unexpected packet in status state"@),
        ),
        Await::More => more(
            at_stage(connection, buf, StageValue::Request(response)),
            Wait::Status,
        ),
        Await::Malformed => finish(
            connection,
            buf,
            None,
            OutcomeValue::Dropped("no status request"@),
        ),
    };
    Turn { count, ..turn }
}

/// Looks for the latency ping, and then sends the pong.
pub open spec fn ping_turn(connection: ConnectionValue, buf: Seq<u8>) -> Turn {
    match packet_at(buf, MAX_PACKET_SIZE as nat) {
        Ok(packet) => if packet.id == PING_REQUEST_ID {
            Turn {
                connection: at_stage(
                    connection,
                    buf.skip(packet.total_len as int),
                    StageValue::Pong,
                ),
                action: ActionValue::Send(pong_bytes(ping_payload(packet.body))),
                count: CountValue::Nothing,
            }
        } else {
            finish(connection, buf, None, OutcomeValue::Status)
        },
        Err(Error::Incomplete) => more(
            at_stage(connection, buf, StageValue::Ping),
            Wait::Status,
        ),
        Err(_) => finish(connection, buf, None, OutcomeValue::Status),
    }
}

/// The target that a handshake leads to, and the rule that decided it.
pub open spec fn routed(fields: HandshakeFields, around: Around<'_>, registry: &Registry) -> Option<
    (usize, Option<RuleValue>),
> {
    route_of(
        registry.rules(),
        registry.default_target(),
        registry.target_values(),
        routing_host(fields.server_address),
        around.listener@,
    )
}

/// The targets after one was asked for a backend.
pub open spec fn asked(registry: &Registry, target: Option<usize>) -> Seq<TargetValue> {
    match target {
        Some(at) => registry.target_values().update(
            at as int,
            registry.target_values()[at as int].after_select(registry.backend_values()),
        ),
        None => registry.target_values(),
    }
}

/// The target at the end of a route.
pub open spec fn target_of(registry: &Registry, route: Option<(usize, Option<RuleValue>)>) -> Option<
    TargetValue,
> {
    match route {
        Some((at, _)) => Some(registry.target_values()[at as int]),
        None => None,
    }
}

/// Where a route leads.
pub open spec fn place_of(route: Option<(usize, Option<RuleValue>)>) -> Option<usize> {
    match route {
        Some((at, _)) => Some(at),
        None => None,
    }
}

/// The rule that decided a route.
pub open spec fn rule_of(route: Option<(usize, Option<RuleValue>)>) -> Option<RuleValue> {
    match route {
        Some((_, rule)) => rule,
        None => None,
    }
}

/// Serves a status ping: by a backend, which sees the whole ping, or here.
pub open spec fn status_step(
    connection: ConnectionValue,
    buf: Seq<u8>,
    fields: HandshakeFields,
    len: nat,
    around: Around<'_>,
    registry: &Registry,
) -> Step {
    let route = routed(fields, around, registry);
    let motd = routed_motd(*around.config, rule_of(route));
    match status_plan(target_of(registry, route), registry.backend_values(), motd.enabled) {
        StatusPlan::Proxy(place) => Step {
            turn: Turn {
                connection: at_stage(
                    connection,
                    buf,
                    StageValue::Backend(
                        DestinationValue {
                            name: registry.backend_values()[place as int].name,
                            slot: None,
                        },
                    ),
                ),
                action: ActionValue::Open {
                    place,
                    forwarding: if registry.backend_values()[place as int].forwarding
                        == Forwarding::Transparent {
                        Forwarding::Plain
                    } else {
                        registry.backend_values()[place as int].forwarding
                    },
                    origin: Origin::Gateway,
                },
                count: CountValue::StatusRequest("backend"@),
            },
            backends: registry.backend_values(),
            targets: asked(registry, place_of(route)),
        },
        StatusPlan::Answer { offline } => {
            let context = MotdContext {
                client_protocol: fields.protocol_version,
                sessions: around.sessions,
                reported: around.reported,
                favicon: around.favicon,
                offline,
            };
            Step {
                turn: request_turn(
                    connection,
                    buf.skip(len as int),
                    status_response_bytes(status_json(shown_status(motd, context))),
                    CountValue::StatusRequest("gateway"@),
                ),
                backends: registry.backend_values(),
                targets: if motd.enabled {
                    registry.target_values()
                } else {
                    asked(registry, place_of(route))
                },
            }
        },
    }
}

/// Why a player is not connected, as a metrics label.
pub open spec fn refusal_label(refusal: LoginRefusal) -> Seq<char> {
    match refusal {
        LoginRefusal::NoRoute => "no_route"@,
        LoginRefusal::NoBackend => "no_backend"@,
        LoginRefusal::TargetFull => "target_full"@,
    }
}

/// What a player who is not connected is told.
pub open spec fn refusal_words(refusal: LoginRefusal, config: Config) -> Seq<char> {
    match refusal {
        LoginRefusal::NoRoute => config.messages.no_route@,
        LoginRefusal::NoBackend => config.messages.backend_offline@,
        LoginRefusal::TargetFull => config.messages.too_many_connections@,
    }
}

/// Takes a slot at a backend for a player, or says why there is none.
pub open spec fn login_step(
    connection: ConnectionValue,
    buf: Seq<u8>,
    fields: HandshakeFields,
    around: Around<'_>,
    registry: &Registry,
) -> Step {
    let route = routed(fields, around, registry);
    let backends = registry.backend_values();
    match login_plan(target_of(registry, route), backends) {
        Ok(place) => Step {
            turn: Turn {
                connection: at_stage(
                    connection,
                    buf,
                    StageValue::Backend(
                        DestinationValue {
                            name: backends[place as int].name,
                            slot: Some(backends[place as int].name),
                        },
                    ),
                ),
                action: ActionValue::Open {
                    place,
                    forwarding: backends[place as int].forwarding,
                    origin: Origin::Client { src: connection.client, dst: connection.local },
                },
                count: CountValue::LoginAttempt,
            },
            backends: backends.update(place as int, backends[place as int].acquired()),
            targets: asked(registry, place_of(route)),
        },
        Err(refusal) => Step {
            turn: Turn {
                count: CountValue::LoginAttempt,
                ..finish(
                    connection,
                    buf,
                    Some(kick_bytes(refusal_words(refusal, *around.config))),
                    OutcomeValue::Refused(refusal_label(refusal)),
                )
            },
            backends,
            targets: asked(registry, place_of(route)),
        },
    }
}

/// The answer to a pre-1.7 ping.
pub open spec fn legacy_answer(kind: LegacyPing, motd: MotdValue, sessions: i64) -> Seq<u8> {
    legacy_packet(
        legacy_payload(
            kind,
            LEGACY_PROTOCOL as int,
            motd.version_name,
            plain(component_value(motd.text, pasted_json(motd.text))),
            sessions as int,
            motd.max_players as int,
        ),
    )
}

/// Looks for the handshake, and then serves what it asks for.
#[verifier::opaque]
pub open spec fn opening_step(
    connection: ConnectionValue,
    buf: Seq<u8>,
    around: Around<'_>,
    registry: &Registry,
) -> Step {
    match beginning(buf, around.config.limits.max_handshake_bytes as nat) {
        Beginning::Modern(fields, len) => if fields.next_state == NextState::Status {
            status_step(connection, buf, fields, len, around, registry)
        } else {
            login_step(connection, buf, fields, around, registry)
        },
        Beginning::Legacy(kind) => quiet(
            Turn {
                count: CountValue::StatusRequest("legacy"@),
                ..finish(
                    connection,
                    buf,
                    Some(legacy_answer(kind, around.config.motd@, around.sessions)),
                    OutcomeValue::LegacyStatus,
                )
            },
            registry,
        ),
        Beginning::More => quiet(
            more(at_stage(connection, buf, StageValue::Opening), Wait::Handshake),
            registry,
        ),
        Beginning::Dropped(why, error) => quiet(
            Turn {
                count: CountValue::HandshakeError(kind_label(error)),
                ..finish(connection, buf, None, OutcomeValue::Dropped(why))
            },
            registry,
        ),
        Beginning::Refused(why) => quiet(
            finish(connection, buf, None, OutcomeValue::Refused(why)),
            registry,
        ),
    }
}

/// Why a connection got no place, as a metrics label.
pub open spec fn rejection_label(rejection: Rejection) -> Seq<char> {
    match rejection {
        Rejection::GlobalLimit => "global_limit"@,
        Rejection::PerIpLimit => "per_ip_limit"@,
        Rejection::RateLimited => "rate_limited"@,
    }
}

/// How long a session may be silent; for ever where the time is zero.
pub open spec fn idle_limit(config: Config) -> Option<Duration> {
    if config.timeouts.idle.0@ == 0 {
        None
    } else {
        Some(config.timeouts.idle.0)
    }
}

/// A failure to reach a backend as a metrics label: `name:kind`.
pub open spec fn failure_label(name: Seq<char>, kind: Seq<char>) -> Seq<char> {
    name + ":"@ + kind
}

/// A failure to reach the backend: the player is told, and it is counted.
pub open spec fn failed_step(
    connection: ConnectionValue,
    destination: DestinationValue,
    reason: Seq<char>,
    kind: Seq<char>,
    around: Around<'_>,
    registry: &Registry,
) -> Step {
    leave(
        connection,
        destination,
        Some(kick_bytes(around.config.messages.backend_error@)),
        OutcomeValue::Refused(reason),
        CountValue::BackendFailure(failure_label(destination.name, kind)),
        registry,
    )
}

/// The session begins.
pub open spec fn session_turn(
    connection: ConnectionValue,
    destination: DestinationValue,
    count: CountValue,
    around: Around<'_>,
) -> Turn {
    Turn {
        connection: at_stage(connection, connection.buf, StageValue::Session(destination)),
        action: ActionValue::Pipe(idle_limit(*around.config)),
        count,
    }
}

/// The step that an event leads to.
#[verifier::opaque]
pub open spec fn next_step(
    before: ConnectionValue,
    event: Event,
    around: Around<'_>,
    registry: &Registry,
) -> Step {
    let buf = before.buf + arrived(event);
    let connection = ConnectionValue { buf, ..before };
    match connection.stage {
        StageValue::Header => quiet(
            if event is Closed {
                finish(connection, buf, None, OutcomeValue::Refused("proxy_protocol"@))
            } else {
                header_turn(connection, buf, around)
            },
            registry,
        ),
        StageValue::Place => match event {
            Event::Rejected(rejection) => quiet(
                finish(
                    connection,
                    buf,
                    if rejection == Rejection::RateLimited {
                        Some(kick_bytes(around.config.messages.rate_limited@))
                    } else {
                        None
                    },
                    OutcomeValue::Refused(rejection_label(rejection)),
                ),
                registry,
            ),
            _ => opening_step(connection, buf, around, registry),
        },
        StageValue::Opening => if event is Closed {
            quiet(
                finish(
                    connection,
                    buf,
                    None,
                    OutcomeValue::Dropped("closed before handshake"@),
                ),
                registry,
            )
        } else {
            opening_step(connection, buf, around, registry)
        },
        StageValue::Request(response) => quiet(
            if event is Closed {
                finish(connection, buf, None, OutcomeValue::Dropped("no status request"@))
            } else {
                request_turn(connection, buf, response, CountValue::Nothing)
            },
            registry,
        ),
        StageValue::Response => quiet(
            if event is Sent {
                ping_turn(connection, buf)
            } else {
                finish(connection, buf, None, OutcomeValue::Dropped("status write failed"@))
            },
            registry,
        ),
        StageValue::Ping => quiet(
            if event is Closed {
                finish(connection, buf, None, OutcomeValue::Status)
            } else {
                ping_turn(connection, buf)
            },
            registry,
        ),
        StageValue::Pong => quiet(
            if event is Sent {
                finish(connection, buf, None, OutcomeValue::Status)
            } else {
                finish(connection, buf, None, OutcomeValue::Dropped("pong write failed"@))
            },
            registry,
        ),
        StageValue::Backend(destination) => if event is Connected {
            quiet(
                if buf.len() == 0 {
                    session_turn(
                        connection,
                        destination,
                        CountValue::BackendConnection(destination.name),
                        around,
                    )
                } else {
                    Turn {
                        connection: at_stage(connection, buf, StageValue::Replay(destination)),
                        action: ActionValue::Replay(buf),
                        count: CountValue::BackendConnection(destination.name),
                    }
                },
                registry,
            )
        } else if event is Unresolved {
            failed_step(
                connection,
                destination,
                "backend_unresolved"@,
                connect_error_kind(event->Unresolved_0),
                around,
                registry,
            )
        } else {
            failed_step(
                connection,
                destination,
                "backend_error"@,
                connect_error_kind(event->Unreachable_0),
                around,
                registry,
            )
        },
        StageValue::Replay(destination) => if event is Sent {
            quiet(session_turn(connection, destination, CountValue::Nothing, around), registry)
        } else {
            failed_step(connection, destination, "backend_error"@, "io"@, around, registry)
        },
        StageValue::Session(destination) => match event {
            Event::Ended { seconds, bytes } => leave(
                connection,
                destination,
                None,
                OutcomeValue::Proxied { backend: destination.name, seconds, bytes },
                CountValue::Bytes(bytes),
                registry,
            ),
            _ => quiet(finish(connection, buf, None, OutcomeValue::Status), registry),
        },
        StageValue::Over => quiet(finish(connection, buf, None, OutcomeValue::Status), registry),
    }
}

// --------------------------------------------------------------- transitions --

fn without(buf: Vec<u8>, len: usize) -> (rest: Vec<u8>)
    requires
        len <= buf@.len(),
    ensures
        rest@ == buf@.skip(len as int),
{
    let rest = slice_to_vec(slice_subrange(buf.as_slice(), len, buf.len()));
    assert(rest@ =~= buf@.skip(len as int));
    rest
}

fn over(connection: Connection, farewell: Option<Vec<u8>>, outcome: Outcome) -> (r: (
    Connection,
    Action,
    Count,
))
    ensures
        r.0@ == at_stage(connection@, connection.buf@, StageValue::Over),
        r.1@ == (ActionValue::Finish {
            farewell: match farewell {
                Some(bytes) => Some(bytes@),
                None => None,
            },
            outcome: outcome_value(outcome),
        }),
        r.2@ == CountValue::Nothing,
{
    (
        Connection { stage: Stage::Over, ..connection },
        Action::Finish { farewell, outcome },
        Count::Nothing,
    )
}

fn look_for_header(connection: Connection, around: &Around<'_>) -> (r: (Connection, Action, Count))
    requires
        around.proxy_protocol.trusted.wf(),
    ensures
        (Turn { connection: r.0@, action: r.1@, count: r.2@ }) == header_turn(
            connection@,
            connection.buf@,
            *around,
        ),
{
    match read_inbound_header(around.proxy_protocol, connection.peer, connection.buf.as_slice()) {
        Inbound::Client { address, consumed } => {
            let Connection { peer, local, buf, .. } = connection;
            let rest = without(buf, consumed);
            (
                Connection { peer, local, client: address, buf: rest, stage: Stage::Place },
                Action::Admit(address.ip),
                Count::Nothing,
            )
        },
        Inbound::More => (
            Connection { stage: Stage::Header, ..connection },
            Action::Read(Wait::Handshake),
            Count::Nothing,
        ),
        Inbound::Refused => over(connection, None, Outcome::Refused("proxy_protocol")),
    }
}

fn look_for_request(connection: Connection, response: Vec<u8>) -> (r: (Connection, Action))
    ensures
        (Turn { connection: r.0@, action: r.1@, count: CountValue::Nothing }) == request_turn(
            connection@,
            connection.buf@,
            response@,
            CountValue::Nothing,
        ),
{
    match read_status_request(connection.buf.as_slice()) {
        Await::Packet(len) => {
            let Connection { peer, local, client, buf, .. } = connection;
            let rest = without(buf, len);
            (
                Connection { peer, local, client, buf: rest, stage: Stage::Response },
                Action::Send(response),
            )
        },
        Await::Other => {
            let (connection, action, _) = over(
                connection,
                None,
                Outcome::Dropped("unexpected packet in status state"),
            );
            (connection, action)
        },
        Await::More => (
            Connection { stage: Stage::Request(response), ..connection },
            Action::Read(Wait::Status),
        ),
        Await::Malformed => {
            let (connection, action, _) = over(
                connection,
                None,
                Outcome::Dropped("no status request"),
            );
            (connection, action)
        },
    }
}

fn look_for_ping(connection: Connection) -> (r: (Connection, Action, Count))
    ensures
        (Turn { connection: r.0@, action: r.1@, count: r.2@ }) == ping_turn(
            connection@,
            connection.buf@,
        ),
{
    match read_ping(connection.buf.as_slice()) {
        PingAnswer::Pong { packet, consumed } => {
            let Connection { peer, local, client, buf, .. } = connection;
            let rest = without(buf, consumed);
            (
                Connection { peer, local, client, buf: rest, stage: Stage::Pong },
                Action::Send(packet),
                Count::Nothing,
            )
        },
        PingAnswer::More => (
            Connection { stage: Stage::Ping, ..connection },
            Action::Read(Wait::Status),
            Count::Nothing,
        ),
        PingAnswer::Done => over(connection, None, Outcome::Status),
    }
}

/// What a registry keeps whatever a connection does.
pub open spec fn same_rules(a: &Registry, b: &Registry) -> bool {
    &&& a.configuration() == b.configuration()
    &&& a.rules() == b.rules()
    &&& a.default_target() == b.default_target()
}

/// The name and the forwarding of the backend at a place.
fn look_up(registry: &Registry, place: usize) -> (r: (String, Forwarding))
    requires
        place < registry.backend_values().len(),
    ensures
        r.0@ == registry.backend_values()[place as int].name,
        r.1 == registry.backend_values()[place as int].forwarding,
{
    let backends = registry.backends();
    assert(backend_values(backends@).len() == backends@.len());
    assert(backend_values(backends@)[place as int] == backends@[place as int]@);
    let backend = &backends[place];
    proof {
        backend.lemma_public_fields();
    }
    (backend.name.clone(), backend.forwarding)
}

fn give_back(registry: &mut Registry, slot: Option<SessionGuard>)
    requires
        old(registry).wf(),
    ensures
        final(registry).wf(),
        same_rules(final(registry), old(registry)),
        final(registry).target_values() == old(registry).target_values(),
        final(registry).backend_values() == given_back(
            old(registry).backend_values(),
            match slot {
                Some(guard) => Some(guard.holder()),
                None => None,
            },
        ),
{
    if let Some(guard) = slot {
        registry.release(guard);
    }
}

fn serve_login(
    connection: Connection,
    target: Option<usize>,
    around: &Around<'_>,
    registry: &mut Registry,
    Ghost(fields): Ghost<HandshakeFields>,
) -> (r: (Connection, Action, Count))
    requires
        old(registry).wf(),
        target == place_of(routed(fields, *around, old(registry))),
        target is Some ==> target->Some_0 < old(registry).target_values().len(),
    ensures
        final(registry).wf(),
        same_rules(final(registry), old(registry)),
        (Step {
            turn: Turn { connection: r.0@, action: r.1@, count: r.2@ },
            backends: final(registry).backend_values(),
            targets: final(registry).target_values(),
        }) == login_step(connection@, connection.buf@, fields, *around, old(registry)),
{
    match plan_login(registry, target) {
        Ok((place, slot)) => {
            let (name, forwarding) = look_up(registry, place);
            let origin = Origin::Client { src: connection.client, dst: connection.local };
            (
                Connection {
                    stage: Stage::Backend(Destination { name, slot: Some(slot) }),
                    ..connection
                },
                Action::Open { place, forwarding: effective_forwarding(forwarding, true), origin },
                Count::LoginAttempt,
            )
        },
        Err(refusal) => {
            let farewell = kick(refusal.message(&around.config.messages));
            let (connection, action, _) = over(
                connection,
                Some(farewell),
                Outcome::Refused(refusal.reason()),
            );
            (connection, action, Count::LoginAttempt)
        },
    }
}

#[verifier::rlimit(40)]
fn serve_status(
    connection: Connection,
    handshake: &Handshake,
    len: usize,
    target: Option<usize>,
    motd: &Motd,
    around: &Around<'_>,
    registry: &mut Registry,
) -> (r: (Connection, Action, Count))
    requires
        old(registry).wf(),
        len <= connection.buf@.len(),
        target == place_of(routed(handshake@, *around, old(registry))),
        target is Some ==> target->Some_0 < old(registry).target_values().len(),
        motd@ == routed_motd(
            *around.config,
            rule_of(routed(handshake@, *around, old(registry))),
        ),
    ensures
        final(registry).wf(),
        same_rules(final(registry), old(registry)),
        (Step {
            turn: Turn { connection: r.0@, action: r.1@, count: r.2@ },
            backends: final(registry).backend_values(),
            targets: final(registry).target_values(),
        }) == status_step(
            connection@,
            connection.buf@,
            handshake@,
            len as nat,
            *around,
            old(registry),
        ),
{
    proof {
        if let Some(at) = target {
            registry.lemma_target_wf(at);
            let chosen = registry.target_values()[at as int];
            if chosen.selected(registry.backend_values()) is Ok {
                selection_is_sound(chosen, registry.backend_values());
            }
        }
    }
    match plan_status(registry, target, motd.enabled) {
        StatusPlan::Proxy(place) => {
            let (name, forwarding) = look_up(registry, place);
            (
                Connection {
                    stage: Stage::Backend(Destination { name, slot: None }),
                    ..connection
                },
                Action::Open {
                    place,
                    forwarding: effective_forwarding(forwarding, false),
                    origin: Origin::Gateway,
                },
                Count::StatusRequest("backend"),
            )
        },
        StatusPlan::Answer { offline } => {
            let context = MotdContext {
                client_protocol: handshake.protocol_version,
                sessions: around.sessions,
                reported: around.reported,
                favicon: around.favicon,
                offline,
            };
            let response = encode_status_response(build(motd, context).to_json().as_str());
            let Connection { peer, local, client, buf, stage } = connection;
            let rest = without(buf, len);
            let (connection, action) = look_for_request(
                Connection { peer, local, client, buf: rest, stage },
                response,
            );
            (connection, action, Count::StatusRequest("gateway"))
        },
    }
}

#[verifier::rlimit(40)]
fn look_for_handshake(connection: Connection, around: &Around<'_>, registry: &mut Registry) -> (r: (
    Connection,
    Action,
    Count,
))
    requires
        old(registry).wf(),
    ensures
        final(registry).wf(),
        same_rules(final(registry), old(registry)),
        (Step {
            turn: Turn { connection: r.0@, action: r.1@, count: r.2@ },
            backends: final(registry).backend_values(),
            targets: final(registry).target_values(),
        }) == opening_step(connection@, connection.buf@, *around, old(registry)),
{
    proof {
        reveal(opening_step);
    }
    match read_handshake(connection.buf.as_slice(), around.config.limits.max_handshake_bytes) {
        HandshakeOutcome::Modern(handshake, len) => {
            let host = handshake.hostname();
            let mut target: Option<usize> = None;
            let mut motd = around.config.motd.overlay(None);
            if let Some(route) = registry.route(host.as_str(), around.listener) {
                target = Some(route.target);
                if let Some(rule) = route.rule {
                    motd = around.config.motd.overlay(rule.motd.as_ref());
                }
            }
            if handshake.next_state.is_join() {
                serve_login(connection, target, around, registry, Ghost(handshake@))
            } else {
                serve_status(connection, &handshake, len, target, &motd, around, registry)
            }
        },
        HandshakeOutcome::Legacy(kind) => {
            let answer = answer_legacy(kind, &around.config.motd, around.sessions);
            let (connection, action, _) = over(connection, Some(answer), Outcome::LegacyStatus);
            (connection, action, Count::StatusRequest("legacy"))
        },
        HandshakeOutcome::More => (
            Connection { stage: Stage::Opening, ..connection },
            Action::Read(Wait::Handshake),
            Count::Nothing,
        ),
        HandshakeOutcome::Dropped { why, error } => {
            let (connection, action, _) = over(connection, None, Outcome::Dropped(why));
            (connection, action, Count::HandshakeError(error.kind().0))
        },
        HandshakeOutcome::Refused(why) => over(connection, None, Outcome::Refused(why)),
    }
}

fn give_up(
    connection: Connection,
    destination: Destination,
    reason: &'static str,
    kind: &'static str,
    around: &Around<'_>,
    registry: &mut Registry,
) -> (r: (Connection, Action, Count))
    requires
        old(registry).wf(),
    ensures
        final(registry).wf(),
        same_rules(final(registry), old(registry)),
        (Step {
            turn: Turn { connection: r.0@, action: r.1@, count: r.2@ },
            backends: final(registry).backend_values(),
            targets: final(registry).target_values(),
        }) == failed_step(connection@, destination@, reason@, kind@, *around, old(registry)),
{
    let Destination { name, slot } = destination;
    give_back(registry, slot);
    let farewell = kick(around.config.messages.backend_error.as_str());
    let (connection, action, _) = over(connection, Some(farewell), Outcome::Refused(reason));
    (connection, action, Count::BackendFailure(glue3(name.as_str(), ":", kind)))
}

fn begin_session(connection: Connection, destination: Destination, around: &Around<'_>) -> (r: (
    Connection,
    Action,
))
    ensures
        (Turn { connection: r.0@, action: r.1@, count: CountValue::Nothing }) == session_turn(
            connection@,
            destination@,
            CountValue::Nothing,
            *around,
        ),
{
    let idle = around.config.timeouts.idle;
    let limit: Option<Duration> = if idle.is_zero() {
        None
    } else {
        Some(idle.get())
    };
    (
        Connection { stage: Stage::Session(destination), ..connection },
        Action::Pipe(limit),
    )
}

fn copy_bytes(bytes: &Vec<u8>) -> (copy: Vec<u8>)
    ensures
        copy@ == bytes@,
{
    slice_to_vec(bytes.as_slice())
}

impl Connection {
    /// A connection that was just accepted.
    pub fn new(peer: SocketAddr, local: SocketAddr) -> (connection: Self)
        ensures
            connection@ == (ConnectionValue {
                peer,
                local,
                client: peer,
                buf: Seq::empty(),
                stage: StageValue::Header,
            }),
    {
        let connection = Connection {
            peer,
            local,
            client: peer,
            buf: Vec::new(),
            stage: Stage::Header,
        };
        assert(connection.buf@ =~= Seq::<u8>::empty());
        connection
    }

    /// Whether an event is one that the connection waits for.
    pub fn expects(&self, event: &Event) -> (yes: bool)
        ensures
            yes == fits(self.stage@, *event),
    {
        match self.stage {
            Stage::Header => matches!(event, Event::Start | Event::Received(_) | Event::Closed),
            Stage::Place => matches!(event, Event::Admitted | Event::Rejected(_)),
            Stage::Opening => matches!(event, Event::Received(_) | Event::Closed),
            Stage::Request(_) => matches!(event, Event::Received(_) | Event::Closed),
            Stage::Response => matches!(event, Event::Sent | Event::NotSent),
            Stage::Ping => matches!(event, Event::Received(_) | Event::Closed),
            Stage::Pong => matches!(event, Event::Sent | Event::NotSent),
            Stage::Backend(_) => matches!(
                event,
                Event::Connected | Event::Unresolved(_) | Event::Unreachable(_)
            ),
            Stage::Replay(_) => matches!(event, Event::Sent | Event::NotSent),
            Stage::Session(_) => matches!(event, Event::Ended { .. }),
            Stage::Over => false,
        }
    }

    /// Gives back the slot of a connection that is cut off before its end.
    pub fn abandon(self, registry: &mut Registry)
        requires
            old(registry).wf(),
        ensures
            final(registry).wf(),
            same_rules(final(registry), old(registry)),
            final(registry).target_values() == old(registry).target_values(),
            final(registry).backend_values() == given_back(
                old(registry).backend_values(),
                held(self.stage@),
            ),
    {
        match self.stage {
            Stage::Backend(destination) => give_back(registry, destination.slot),
            Stage::Replay(destination) => give_back(registry, destination.slot),
            Stage::Session(destination) => give_back(registry, destination.slot),
            _ => {},
        }
    }

    /// Takes in one event, and says what to do next and what to count.
    #[verifier::rlimit(40)]
    pub fn step(self, event: Event, around: &Around<'_>, registry: &mut Registry) -> (r: (
        Connection,
        Action,
        Count,
    ))
        requires
            old(registry).wf(),
            around.proxy_protocol.trusted.wf(),
            fits(self.stage@, event),
        ensures
            final(registry).wf(),
            same_rules(final(registry), old(registry)),
            (Step {
                turn: Turn { connection: r.0@, action: r.1@, count: r.2@ },
                backends: final(registry).backend_values(),
                targets: final(registry).target_values(),
            }) == next_step(self@, event, *around, old(registry)),
    {
        proof {
            reveal(next_step);
        }
        let Connection { peer, local, client, buf: before, stage } = self;
        let mut buf = before;
        if let Event::Received(bytes) = &event {
            push_all(&mut buf, bytes.as_slice());
        }
        assert(buf@ =~= self.buf@ + arrived(event));
        match stage {
            Stage::Header => {
                let connection = Connection { peer, local, client, buf, stage: Stage::Header };
                match event {
                    Event::Closed => over(connection, None, Outcome::Refused("proxy_protocol")),
                    _ => look_for_header(connection, around),
                }
            },
            Stage::Place => {
                let connection = Connection { peer, local, client, buf, stage: Stage::Place };
                match event {
                    Event::Rejected(rejection) => {
                        // A rate-limited client gets a reason rather than a
                        // silent reset.
                        let farewell: Option<Vec<u8>> = match rejection_message(
                            rejection,
                            &around.config.messages,
                        ) {
                            Some(message) => Some(kick(message)),
                            None => None,
                        };
                        over(connection, farewell, Outcome::Refused(rejection.as_str()))
                    },
                    _ => look_for_handshake(connection, around, registry),
                }
            },
            Stage::Opening => {
                let connection = Connection { peer, local, client, buf, stage: Stage::Opening };
                match event {
                    Event::Closed => over(
                        connection,
                        None,
                        Outcome::Dropped("closed before handshake"),
                    ),
                    _ => look_for_handshake(connection, around, registry),
                }
            },
            Stage::Request(response) => {
                let connection = Connection { peer, local, client, buf, stage: Stage::Opening };
                match event {
                    Event::Closed => over(connection, None, Outcome::Dropped("no status request")),
                    _ => {
                        let (connection, action) = look_for_request(connection, response);
                        (connection, action, Count::Nothing)
                    },
                }
            },
            Stage::Response => {
                let connection = Connection { peer, local, client, buf, stage: Stage::Response };
                match event {
                    Event::Sent => look_for_ping(connection),
                    _ => over(connection, None, Outcome::Dropped("status write failed")),
                }
            },
            Stage::Ping => {
                let connection = Connection { peer, local, client, buf, stage: Stage::Ping };
                match event {
                    Event::Closed => over(connection, None, Outcome::Status),
                    _ => look_for_ping(connection),
                }
            },
            Stage::Pong => {
                let connection = Connection { peer, local, client, buf, stage: Stage::Pong };
                match event {
                    Event::Sent => over(connection, None, Outcome::Status),
                    _ => over(connection, None, Outcome::Dropped("pong write failed")),
                }
            },
            Stage::Backend(destination) => {
                let connection = Connection { peer, local, client, buf, stage: Stage::Over };
                match event {
                    Event::Connected => {
                        let name = destination.name.clone();
                        if connection.buf.len() == 0 {
                            let (connection, action) = begin_session(
                                connection,
                                destination,
                                around,
                            );
                            return (connection, action, Count::BackendConnection(name));
                        }
                        // Everything read so far is replayed byte for byte, so
                        // the backend sees exactly what the client sent,
                        // including any modloader marker in the address.
                        let replay = copy_bytes(&connection.buf);
                        (
                            Connection { stage: Stage::Replay(destination), ..connection },
                            Action::Replay(replay),
                            Count::BackendConnection(name),
                        )
                    },
                    Event::Unresolved(error) => give_up(
                        connection,
                        destination,
                        "backend_unresolved",
                        error.kind(),
                        around,
                        registry,
                    ),
                    Event::Unreachable(error) => give_up(
                        connection,
                        destination,
                        "backend_error",
                        error.kind(),
                        around,
                        registry,
                    ),
                    _ => over(connection, None, Outcome::Status),
                }
            },
            Stage::Replay(destination) => {
                let connection = Connection { peer, local, client, buf, stage: Stage::Over };
                match event {
                    Event::Sent => {
                        let (connection, action) = begin_session(connection, destination, around);
                        (connection, action, Count::Nothing)
                    },
                    _ => give_up(
                        connection,
                        destination,
                        "backend_error",
                        "io",
                        around,
                        registry,
                    ),
                }
            },
            Stage::Session(destination) => {
                let connection = Connection { peer, local, client, buf, stage: Stage::Over };
                let Destination { name, slot } = destination;
                match event {
                    Event::Ended { seconds, bytes } => {
                        give_back(registry, slot);
                        let (connection, action, _) = over(
                            connection,
                            None,
                            Outcome::Proxied { backend: name, seconds, bytes },
                        );
                        (connection, action, Count::Bytes(bytes))
                    },
                    _ => over(connection, None, Outcome::Status),
                }
            },
            Stage::Over => {
                let connection = Connection { peer, local, client, buf, stage: Stage::Over };
                over(connection, None, Outcome::Status)
            },
        }
    }
}

/// Counts what a step calls for.
pub fn record_count(metrics: &mut Metrics, count: &Count)
    requires
        old(metrics).wf(),
    ensures
        final(metrics).wf(),
        match count@ {
            CountValue::Nothing => final(metrics)@ == old(metrics)@,
            CountValue::StatusRequest(source) => {
                &&& final(metrics)@ == (MetricsValue {
                    status_requests: final(metrics)@.status_requests,
                    ..old(metrics)@
                })
                &&& counted_more(
                    old(metrics)@.status_requests,
                    final(metrics)@.status_requests,
                    source,
                    1,
                )
            },
            CountValue::LoginAttempt => final(metrics)@ == (MetricsValue {
                login_attempts: wrapped_sum(old(metrics)@.login_attempts, 1),
                ..old(metrics)@
            }),
            CountValue::BackendConnection(name) => {
                &&& final(metrics)@ == (MetricsValue {
                    backend_connections: final(metrics)@.backend_connections,
                    ..old(metrics)@
                })
                &&& counted_more(
                    old(metrics)@.backend_connections,
                    final(metrics)@.backend_connections,
                    name,
                    1,
                )
            },
            CountValue::BackendFailure(label) => {
                &&& final(metrics)@ == (MetricsValue {
                    backend_failures: final(metrics)@.backend_failures,
                    ..old(metrics)@
                })
                &&& counted_more(
                    old(metrics)@.backend_failures,
                    final(metrics)@.backend_failures,
                    label,
                    1,
                )
            },
            CountValue::HandshakeError(kind) => {
                &&& final(metrics)@ == (MetricsValue {
                    handshake_errors: final(metrics)@.handshake_errors,
                    ..old(metrics)@
                })
                &&& counted_more(
                    old(metrics)@.handshake_errors,
                    final(metrics)@.handshake_errors,
                    kind,
                    1,
                )
            },
            CountValue::Bytes(bytes) => {
                &&& final(metrics)@ == (MetricsValue {
                    bytes: final(metrics)@.bytes,
                    ..old(metrics)@
                })
                &&& forall|label: Seq<char>|
                    count_of(final(metrics)@.bytes, label) == if label == "to_backend"@ {
                        wrapped_sum(count_of(old(metrics)@.bytes, label), bytes.to_backend)
                    } else if label == "to_client"@ {
                        wrapped_sum(count_of(old(metrics)@.bytes, label), bytes.to_client)
                    } else {
                        count_of(old(metrics)@.bytes, label)
                    }
                &&& forall|label: Seq<char>|
                    has_label(final(metrics)@.bytes, label) == (has_label(
                        old(metrics)@.bytes,
                        label,
                    ) || label == "to_backend"@ || label == "to_client"@)
            },
        },
{
    match count {
        Count::Nothing => {},
        Count::StatusRequest(source) => metrics.status_requests.increment(source),
        Count::LoginAttempt => {
            metrics.login_attempts = wrapping_sum(metrics.login_attempts, 1);
        },
        Count::BackendConnection(name) => metrics.backend_connections.increment(name.as_str()),
        Count::BackendFailure(label) => metrics.backend_failures.increment(label.as_str()),
        Count::HandshakeError(kind) => metrics.handshake_errors.increment(kind),
        Count::Bytes(bytes) => record_bytes(metrics, *bytes),
    }
}

// -------------------------------------------------------------------- laws --

/// A connection is over exactly when it is to be closed.
#[verifier::rlimit(40)]
pub proof fn the_end_is_the_end(
    connection: ConnectionValue,
    event: Event,
    around: Around<'_>,
    registry: &Registry,
)
    requires
        fits(connection.stage, event),
    ensures
        ({
            let turn = next_step(connection, event, around, registry).turn;
            turn.action is Finish == turn.connection.stage is Over
        }),
{
    reveal(next_step);
    reveal(opening_step);
}

/// Nothing is parsed, and no backend is connected, before there is a place for
/// the connection.
pub proof fn admission_comes_first(
    connection: ConnectionValue,
    event: Event,
    around: Around<'_>,
    registry: &Registry,
)
    requires
        fits(connection.stage, event),
        connection.stage is Header || connection.stage is Place,
        !(event is Admitted),
    ensures
        ({
            let step = next_step(connection, event, around, registry);
            &&& step.turn.connection.stage is Header || step.turn.connection.stage is Place
                || step.turn.connection.stage is Over
            &&& step.turn.action is Read || step.turn.action is Admit || step.turn.action is Finish
            &&& step.backends == registry.backend_values()
            &&& step.targets == registry.target_values()
        }),
{
    reveal(next_step);
}

/// The backend that a connection holds a slot at.
pub open spec fn held(stage: StageValue) -> Option<Seq<char>> {
    match stage {
        StageValue::Backend(destination) => destination.slot,
        StageValue::Replay(destination) => destination.slot,
        StageValue::Session(destination) => destination.slot,
        _ => None,
    }
}

#[verifier::rlimit(40)]
proof fn lemma_opening_slots(
    connection: ConnectionValue,
    buf: Seq<u8>,
    around: Around<'_>,
    registry: &Registry,
)
    ensures
        ({
            let step = opening_step(connection, buf, around, registry);
            let backends = registry.backend_values();
            match held(step.turn.connection.stage) {
                None => step.backends == backends,
                Some(name) => {
                    &&& step.turn.action is Open
                    &&& name == backends[step.turn.action->place as int].name
                    &&& step.backends == backends.update(
                        step.turn.action->place as int,
                        backends[step.turn.action->place as int].acquired(),
                    )
                },
            }
        }),
{
    reveal(opening_step);
}

/// A slot is taken when a connection begins to hold it and given back when the
/// connection no longer does; no other step changes a backend.
#[verifier::rlimit(40)]
pub proof fn slots_are_held_while_they_count(
    connection: ConnectionValue,
    event: Event,
    around: Around<'_>,
    registry: &Registry,
)
    requires
        fits(connection.stage, event),
    ensures
        ({
            let step = next_step(connection, event, around, registry);
            let backends = registry.backend_values();
            match (held(connection.stage), held(step.turn.connection.stage)) {
                (None, None) => step.backends == backends,
                (None, Some(name)) => {
                    &&& step.turn.action is Open
                    &&& name == backends[step.turn.action->place as int].name
                    &&& step.backends == backends.update(
                        step.turn.action->place as int,
                        backends[step.turn.action->place as int].acquired(),
                    )
                },
                (Some(name), Some(same)) => name == same && step.backends == backends,
                (Some(name), None) => step.turn.action is Finish && step.backends == given_back(
                    backends,
                    Some(name),
                ),
            }
        }),
{
    reveal(next_step);
    let buf = connection.buf + arrived(event);
    lemma_opening_slots(ConnectionValue { buf, ..connection }, buf, around, registry);
}

/// Only a player who joins is named to a backend, and then as the client that
/// the connection was admitted for.
#[verifier::rlimit(40)]
pub proof fn only_players_are_named(
    connection: ConnectionValue,
    event: Event,
    around: Around<'_>,
    registry: &Registry,
)
    requires
        fits(connection.stage, event),
        next_step(connection, event, around, registry).turn.action is Open,
    ensures
        ({
            let step = next_step(connection, event, around, registry);
            match step.turn.action->origin {
                Origin::Client { src, dst } => {
                    &&& src == connection.client
                    &&& dst == connection.local
                    &&& held(step.turn.connection.stage) is Some
                },
                Origin::Gateway => {
                    &&& held(step.turn.connection.stage) is None
                    &&& step.turn.action->forwarding != Forwarding::Transparent
                },
            }
        }),
{
    reveal(next_step);
    reveal(opening_step);
}

/// Whether a connection still has everything that the client sent behind the
/// header of an upstream hop, and whether it takes the client for whom that
/// header, or else the socket, names.
pub open spec fn faithful(
    connection: ConnectionValue,
    received: Seq<u8>,
    settings: InboundProxyProtocol,
) -> bool {
    match connection.stage {
        StageValue::Header => connection.buf == received && connection.client == connection.peer,
        StageValue::Place | StageValue::Opening | StageValue::Backend(_) | StageValue::Replay(
            _,
        ) => exists|n: int, consumed: usize|
            {
                &&& 0 <= n <= received.len()
                &&& consumed <= received.len()
                &&& #[trigger] inbound_client(settings, connection.peer, received.take(n)) == (
                Inbound::Client { address: connection.client, consumed })
                &&& connection.buf == #[trigger] received.skip(consumed as int)
            },
        _ => true,
    }
}

/// Whether a connection is between the header of an upstream hop and its session.
spec fn undecided(stage: StageValue) -> bool {
    stage is Place || stage is Opening || stage is Backend || stage is Replay
}

#[verifier::rlimit(40)]
proof fn lemma_opening(
    connection: ConnectionValue,
    buf: Seq<u8>,
    around: Around<'_>,
    registry: &Registry,
)
    ensures
        ({
            let turn = opening_step(connection, buf, around, registry).turn;
            &&& turn.connection.peer == connection.peer
            &&& turn.connection.client == connection.client
            &&& !(turn.connection.stage is Header)
            &&& undecided(turn.connection.stage) ==> turn.connection.buf == buf
            &&& !(turn.action is Replay)
        }),
{
    reveal(opening_step);
}

#[verifier::rlimit(40)]
proof fn lemma_nothing_is_lost(
    connection: ConnectionValue,
    event: Event,
    around: Around<'_>,
    registry: &Registry,
)
    requires
        fits(connection.stage, event),
        !(connection.stage is Header),
    ensures
        ({
            let turn = next_step(connection, event, around, registry).turn;
            &&& turn.connection.peer == connection.peer
            &&& turn.connection.client == connection.client
            &&& !(turn.connection.stage is Header)
            &&& undecided(turn.connection.stage) ==> undecided(connection.stage)
                && turn.connection.buf == connection.buf + arrived(event)
            &&& turn.action is Replay ==> turn.connection.stage is Replay
                && turn.action->Replay_0 == turn.connection.buf
        }),
{
    reveal(next_step);
    let buf = connection.buf + arrived(event);
    lemma_opening(ConnectionValue { buf, ..connection }, buf, around, registry);
}

/// Until a session begins nothing that the client sent is lost, and what is
/// replayed to the backend is all of it, byte for byte.
#[verifier::rlimit(40)]
pub proof fn the_backend_sees_what_the_client_sent(
    connection: ConnectionValue,
    received: Seq<u8>,
    event: Event,
    around: Around<'_>,
    registry: &Registry,
)
    requires
        fits(connection.stage, event),
        faithful(connection, received, *around.proxy_protocol),
    ensures
        ({
            let turn = next_step(connection, event, around, registry).turn;
            &&& faithful(turn.connection, received + arrived(event), *around.proxy_protocol)
            &&& turn.action is Replay ==> turn.connection.stage is Replay
                && turn.action->Replay_0 == turn.connection.buf
        }),
{
    let all = received + arrived(event);
    let settings = *around.proxy_protocol;
    if connection.stage is Header {
        lemma_header_is_faithful(connection, received, event, around, registry);
    } else {
        let turn = next_step(connection, event, around, registry).turn;
        lemma_nothing_is_lost(connection, event, around, registry);
        if undecided(turn.connection.stage) {
            let (n, consumed) = choose|n: int, consumed: usize|
                {
                    &&& 0 <= n <= received.len()
                    &&& consumed <= received.len()
                    &&& #[trigger] inbound_client(settings, connection.peer, received.take(n)) == (
                    Inbound::Client { address: connection.client, consumed })
                    &&& connection.buf == #[trigger] received.skip(consumed as int)
                };
            assert(all.take(n) =~= received.take(n));
            assert(connection.buf + arrived(event) =~= all.skip(consumed as int));
            assert(inbound_client(settings, turn.connection.peer, all.take(n)) == (
            Inbound::Client { address: turn.connection.client, consumed }));
        }
    }
}

proof fn lemma_header_is_faithful(
    connection: ConnectionValue,
    received: Seq<u8>,
    event: Event,
    around: Around<'_>,
    registry: &Registry,
)
    requires
        fits(connection.stage, event),
        connection.stage is Header,
        faithful(connection, received, *around.proxy_protocol),
    ensures
        ({
            let turn = next_step(connection, event, around, registry).turn;
            &&& faithful(turn.connection, received + arrived(event), *around.proxy_protocol)
            &&& !(turn.action is Replay)
        }),
{
    reveal(next_step);
    let all = received + arrived(event);
    let settings = *around.proxy_protocol;
    consumed_headers_have_arrived(settings, connection.peer, all);
    assert(all.take(all.len() as int) =~= all);
    if !(event is Closed) {
        match inbound_client(settings, connection.peer, all) {
            Inbound::Client { address, consumed } => {
                let after = header_turn(connection, all, around).connection;
                assert(inbound_client(settings, after.peer, all.take(all.len() as int)) == (
                Inbound::Client { address: after.client, consumed }));
                assert(after.buf == all.skip(consumed as int));
            },
            _ => {},
        }
    }
}

// ------------------------------------------------------------ what is owed --

/// A connection without a place is refused under the label of the limit that it
/// ran into, and only one that came too fast is told why.
pub proof fn rejections_have_their_labels(
    connection: ConnectionValue,
    rejection: Rejection,
    around: Around<'_>,
    registry: &Registry,
)
    requires
        connection.stage is Place,
    ensures
        ({
            let action = next_step(
                connection,
                Event::Rejected(rejection),
                around,
                registry,
            ).turn.action;
            match rejection {
                Rejection::GlobalLimit => action == (ActionValue::Finish {
                    farewell: None,
                    outcome: OutcomeValue::Refused("global_limit"@),
                }),
                Rejection::PerIpLimit => action == (ActionValue::Finish {
                    farewell: None,
                    outcome: OutcomeValue::Refused("per_ip_limit"@),
                }),
                Rejection::RateLimited => action == (ActionValue::Finish {
                    farewell: Some(kick_bytes(around.config.messages.rate_limited@)),
                    outcome: OutcomeValue::Refused("rate_limited"@),
                }),
            }
        }),
{
    reveal(next_step);
}

/// Whether a connection looks at its handshake with this event: it was admitted,
/// or more of the handshake arrived.
pub open spec fn looks_at_handshake(stage: StageValue, event: Event) -> bool {
    stage is Place && event is Admitted || stage is Opening && event is Received
}

/// A place is asked for by the address that the header, or else the socket,
/// names; a header that is refused, or never comes, ends the connection.
pub proof fn places_are_asked_for_the_client(
    connection: ConnectionValue,
    event: Event,
    around: Around<'_>,
    registry: &Registry,
)
    requires
        connection.stage is Header,
        event is Start || event is Received || event is Closed,
    ensures
        ({
            let turn = next_step(connection, event, around, registry).turn;
            let buf = connection.buf + arrived(event);
            let inbound = inbound_client(*around.proxy_protocol, connection.peer, buf);
            let refused = ActionValue::Finish {
                farewell: None,
                outcome: OutcomeValue::Refused("proxy_protocol"@),
            };
            &&& event is Closed ==> turn.action == refused
            &&& !(event is Closed) && inbound is Refused ==> turn.action == refused
            &&& !(event is Closed) && inbound is More ==> turn.action == ActionValue::Read(
                Wait::Handshake,
            ) && turn.connection.buf == buf && turn.connection.stage is Header
            &&& !(event is Closed) && inbound is Client ==> turn.action == ActionValue::Admit(
                inbound->address.ip,
            ) && turn.connection.client == inbound->address && turn.connection.buf == buf.skip(
                inbound->consumed as int,
            ) && turn.connection.stage is Place
        }),
{
    reveal(next_step);
}

/// A player who joins is connected to the backend that the route of the host
/// selects, in the way that backend is configured for and in the player's own
/// name, and holds a slot there.
#[verifier::rlimit(40)]
pub proof fn players_go_to_the_selected_backend(
    connection: ConnectionValue,
    event: Event,
    around: Around<'_>,
    registry: &Registry,
    fields: HandshakeFields,
    len: nat,
    place: usize,
    at: usize,
    rule: Option<RuleValue>,
)
    requires
        looks_at_handshake(connection.stage, event),
        beginning(
            connection.buf + arrived(event),
            around.config.limits.max_handshake_bytes as nat,
        ) == Beginning::Modern(fields, len),
        fields.next_state == NextState::Login || fields.next_state == NextState::Transfer,
        route_of(
            registry.rules(),
            registry.default_target(),
            registry.target_values(),
            routing_host(fields.server_address),
            around.listener@,
        ) == Some((at, rule)),
        registry.target_values()[at as int].selected(registry.backend_values()) == Ok::<
            usize,
            SelectError,
        >(place),
    ensures
        ({
            let step = next_step(connection, event, around, registry);
            let backend = registry.backend_values()[place as int];
            &&& step.turn.action == (ActionValue::Open {
                place,
                forwarding: backend.forwarding,
                origin: Origin::Client { src: connection.client, dst: connection.local },
            })
            &&& step.turn.count == CountValue::LoginAttempt
            &&& step.turn.connection.stage == StageValue::Backend(
                DestinationValue { name: backend.name, slot: Some(backend.name) },
            )
            &&& step.backends == registry.backend_values().update(
                place as int,
                backend.acquired(),
            )
        }),
{
    reveal(next_step);
    reveal(opening_step);
}

/// A player who cannot be connected is told why in the configured words: no
/// route, a full target, or no backend.
#[verifier::rlimit(40)]
pub proof fn players_are_told_why_not(
    connection: ConnectionValue,
    event: Event,
    around: Around<'_>,
    registry: &Registry,
    fields: HandshakeFields,
    len: nat,
)
    requires
        looks_at_handshake(connection.stage, event),
        beginning(
            connection.buf + arrived(event),
            around.config.limits.max_handshake_bytes as nat,
        ) == Beginning::Modern(fields, len),
        fields.next_state == NextState::Login || fields.next_state == NextState::Transfer,
    ensures
        ({
            let turn = next_step(connection, event, around, registry).turn;
            let messages = around.config.messages;
            let backends = registry.backend_values();
            let route = route_of(
                registry.rules(),
                registry.default_target(),
                registry.target_values(),
                routing_host(fields.server_address),
                around.listener@,
            );
            let target = registry.target_values()[route->Some_0.0 as int];
            &&& route is None ==> turn.action == (ActionValue::Finish {
                farewell: Some(kick_bytes(messages.no_route@)),
                outcome: OutcomeValue::Refused("no_route"@),
            })
            &&& route is Some && target.selected(backends) is Err && target.any_healthy(backends)
                && target.members.len() > 0 ==> turn.action == (ActionValue::Finish {
                farewell: Some(kick_bytes(messages.too_many_connections@)),
                outcome: OutcomeValue::Refused("target_full"@),
            })
            &&& route is Some && (target.members.len() == 0 || !target.any_healthy(backends))
                ==> turn.action == (ActionValue::Finish {
                farewell: Some(kick_bytes(messages.backend_offline@)),
                outcome: OutcomeValue::Refused("no_backend"@),
            })
            &&& turn.count == CountValue::LoginAttempt
        }),
{
    reveal(next_step);
    reveal(opening_step);
}

/// A ping that the gateway answers itself shows the MOTD of its route, with the
/// player's own protocol number, the counts of the gateway and its icon; the
/// answer follows the status request.
#[verifier::rlimit(40)]
pub proof fn pings_show_the_motd_of_their_route(
    connection: ConnectionValue,
    event: Event,
    around: Around<'_>,
    registry: &Registry,
    fields: HandshakeFields,
    len: nat,
)
    requires
        looks_at_handshake(connection.stage, event),
        beginning(
            connection.buf + arrived(event),
            around.config.limits.max_handshake_bytes as nat,
        ) == Beginning::Modern(fields, len),
        fields.next_state == NextState::Status,
    ensures
        ({
            let turn = next_step(connection, event, around, registry).turn;
            let backends = registry.backend_values();
            let route = route_of(
                registry.rules(),
                registry.default_target(),
                registry.target_values(),
                routing_host(fields.server_address),
                around.listener@,
            );
            let target = registry.target_values()[route->Some_0.0 as int];
            let motd = if route is Some && route->Some_0.1 is Some && route->Some_0.1->Some_0.motd
                is Some {
                overlaid(around.config.motd@, route->Some_0.1->Some_0.motd->Some_0)
            } else {
                around.config.motd@
            };
            let response = status_response_bytes(
                status_json(
                    shown_status(
                        motd,
                        MotdContext {
                            client_protocol: fields.protocol_version,
                            sessions: around.sessions,
                            reported: around.reported,
                            favicon: around.favicon,
                            offline: route is None || !target.any_healthy(backends),
                        },
                    ),
                ),
            );
            let rest = (connection.buf + arrived(event)).skip(len as int);
            let here = route is None || motd.enabled || target.selected(backends) is Err;
            &&& here ==> turn.count == CountValue::StatusRequest("gateway"@)
            &&& here && awaited(rest, 0) is Packet ==> turn.action == ActionValue::Send(response)
                && turn.connection.stage is Response && turn.connection.buf == rest.skip(
                awaited(rest, 0)->Packet_0 as int,
            )
            &&& here && awaited(rest, 0) is More ==> turn.action == ActionValue::Read(Wait::Status)
                && turn.connection.stage == StageValue::Request(response) && turn.connection.buf
                == rest
            &&& here && awaited(rest, 0) is Other ==> turn.action == (ActionValue::Finish {
                farewell: None,
                outcome: OutcomeValue::Dropped("unexpected packet in status state"@),
            })
            &&& here && awaited(rest, 0) is Malformed ==> turn.action == (ActionValue::Finish {
                farewell: None,
                outcome: OutcomeValue::Dropped("no status request"@),
            })
            &&& !here ==> ({
                let place = target.selected(backends)->Ok_0;
                let backend = backends[place as int];
                &&& turn.count == CountValue::StatusRequest("backend"@)
                &&& turn.action is Open && turn.action->place == place && turn.action->origin
                    == Origin::Gateway
                &&& turn.action->forwarding == (if backend.forwarding == Forwarding::Transparent {
                    Forwarding::Plain
                } else {
                    backend.forwarding
                })
                &&& turn.connection.stage == StageValue::Backend(
                    DestinationValue { name: backend.name, slot: None },
                )
                &&& turn.connection.buf == connection.buf + arrived(event)
            })
        }),
{
    reveal(next_step);
    reveal(opening_step);
}

/// An old ping is answered at once with the gateway's own MOTD in plain text,
/// the sessions and the limit, and as a server of no version that a client has.
pub proof fn old_pings_are_answered_at_once(
    connection: ConnectionValue,
    event: Event,
    around: Around<'_>,
    registry: &Registry,
    kind: LegacyPing,
)
    requires
        looks_at_handshake(connection.stage, event),
        beginning(
            connection.buf + arrived(event),
            around.config.limits.max_handshake_bytes as nat,
        ) == Beginning::Legacy(kind),
    ensures
        ({
            let turn = next_step(connection, event, around, registry).turn;
            let motd = around.config.motd@;
            let text = plain(component_value(motd.text, pasted_json(motd.text)));
            &&& turn.action == (ActionValue::Finish {
                farewell: Some(
                    legacy_packet(
                        legacy_payload(
                            kind,
                            127,
                            motd.version_name,
                            text,
                            around.sessions as int,
                            motd.max_players as int,
                        ),
                    ),
                ),
                outcome: OutcomeValue::LegacyStatus,
            })
            &&& turn.count == CountValue::StatusRequest("legacy"@)
        }),
{
    reveal(next_step);
    reveal(opening_step);
}

/// A handshake that is not all there is waited for, one that is too large is
/// refused, and one that cannot be read is dropped and counted by its error.
pub proof fn bad_handshakes_are_dropped(
    connection: ConnectionValue,
    event: Event,
    around: Around<'_>,
    registry: &Registry,
)
    requires
        looks_at_handshake(connection.stage, event) || connection.stage is Opening && event
            is Closed,
    ensures
        ({
            let turn = next_step(connection, event, around, registry).turn;
            let buf = connection.buf + arrived(event);
            let begun = beginning(buf, around.config.limits.max_handshake_bytes as nat);
            &&& event is Closed ==> turn.action == (ActionValue::Finish {
                farewell: None,
                outcome: OutcomeValue::Dropped("closed before handshake"@),
            })
            &&& !(event is Closed) && begun is More ==> turn.action == ActionValue::Read(
                Wait::Handshake,
            ) && turn.connection.buf == buf && turn.connection.stage is Opening
            &&& !(event is Closed) && begun is Refused ==> turn.action == (ActionValue::Finish {
                farewell: None,
                outcome: OutcomeValue::Refused(begun->Refused_0),
            })
            &&& !(event is Closed) && begun is Dropped ==> turn.action == (ActionValue::Finish {
                farewell: None,
                outcome: OutcomeValue::Dropped(begun->Dropped_0),
            }) && turn.count == CountValue::HandshakeError(kind_label(begun->Dropped_1))
        }),
{
    reveal(next_step);
    reveal(opening_step);
}

/// A status request is answered with the response that was prepared for it; a
/// ping behind it is answered with its own number, and the exchange is over with
/// the pong, or where the client is content without.
#[verifier::rlimit(40)]
pub proof fn status_exchanges_run_their_course(
    connection: ConnectionValue,
    event: Event,
    around: Around<'_>,
    registry: &Registry,
)
    requires
        fits(connection.stage, event),
    ensures
        ({
            let turn = next_step(connection, event, around, registry).turn;
            let buf = connection.buf + arrived(event);
            let packet = packet_at(buf, 32_768);
            let done = ActionValue::Finish { farewell: None, outcome: OutcomeValue::Status };
            let pings = connection.stage is Response && event is Sent || connection.stage is Ping
                && event is Received;
            &&& connection.stage is Request && event is Received && awaited(buf, 0) is Packet
                ==> turn.action == ActionValue::Send(connection.stage->Request_0)
                && turn.connection.stage is Response && turn.connection.buf == buf.skip(
                awaited(buf, 0)->Packet_0 as int,
            )
            &&& connection.stage is Request && event is Received && awaited(buf, 0) is More
                ==> turn.action == ActionValue::Read(Wait::Status) && turn.connection.stage
                == connection.stage && turn.connection.buf == buf
            &&& connection.stage is Request && event is Closed ==> turn.action == (
            ActionValue::Finish {
                farewell: None,
                outcome: OutcomeValue::Dropped("no status request"@),
            })
            &&& connection.stage is Response && event is NotSent ==> turn.action == (
            ActionValue::Finish {
                farewell: None,
                outcome: OutcomeValue::Dropped("status write failed"@),
            })
            &&& pings && packet is Ok && packet->Ok_0.id == 1 ==> turn.action == ActionValue::Send(
                pong_bytes(ping_payload(packet->Ok_0.body)),
            ) && turn.connection.stage is Pong && turn.connection.buf == buf.skip(
                packet->Ok_0.total_len as int,
            )
            &&& pings && packet is Ok && packet->Ok_0.id != 1 ==> turn.action == done
            &&& pings && packet is Err && packet->Err_0 is Incomplete ==> turn.action
                == ActionValue::Read(Wait::Status) && turn.connection.stage is Ping
                && turn.connection.buf == buf
            &&& pings && packet is Err && !(packet->Err_0 is Incomplete) ==> turn.action == done
            &&& connection.stage is Ping && event is Closed ==> turn.action == done
            &&& connection.stage is Pong && event is Sent ==> turn.action == done
            &&& connection.stage is Pong && event is NotSent ==> turn.action == (
            ActionValue::Finish {
                farewell: None,
                outcome: OutcomeValue::Dropped("pong write failed"@),
            })
        }),
{
    reveal(next_step);
}

/// Once the backend is there, everything that was read is replayed and the
/// session begins; it ends with the time and the bytes that it took. A backend
/// that cannot be reached is counted under its name and the kind of failure, and
/// the player is told.
#[verifier::rlimit(40)]
pub proof fn sessions_run_their_course(
    connection: ConnectionValue,
    event: Event,
    around: Around<'_>,
    registry: &Registry,
    destination: DestinationValue,
)
    requires
        fits(connection.stage, event),
        connection.stage == StageValue::Backend(destination) || connection.stage
            == StageValue::Replay(destination) || connection.stage == StageValue::Session(
            destination,
        ),
    ensures
        ({
            let turn = next_step(connection, event, around, registry).turn;
            let begins = StageValue::Session(destination);
            let idle = around.config.timeouts.idle.0;
            let pipe = ActionValue::Pipe(
                if idle@ > 0 {
                    Some(idle)
                } else {
                    None
                },
            );
            let told = Some(kick_bytes(around.config.messages.backend_error@));
            &&& event is Connected ==> turn.count == CountValue::BackendConnection(
                destination.name,
            )
            &&& event is Connected && connection.buf.len() > 0 ==> turn.action
                == ActionValue::Replay(connection.buf) && turn.connection.stage
                == StageValue::Replay(destination)
            &&& event is Connected && connection.buf.len() == 0 ==> turn.action == pipe
                && turn.connection.stage == begins
            &&& event is Sent ==> turn.action == pipe && turn.connection.stage == begins
            &&& event is Unresolved ==> turn.action == (ActionValue::Finish {
                farewell: told,
                outcome: OutcomeValue::Refused("backend_unresolved"@),
            }) && turn.count == CountValue::BackendFailure(
                destination.name + ":"@ + connect_error_kind(event->Unresolved_0),
            )
            &&& event is Unreachable ==> turn.action == (ActionValue::Finish {
                farewell: told,
                outcome: OutcomeValue::Refused("backend_error"@),
            }) && turn.count == CountValue::BackendFailure(
                destination.name + ":"@ + connect_error_kind(event->Unreachable_0),
            )
            &&& event is NotSent ==> turn.action == (ActionValue::Finish {
                farewell: told,
                outcome: OutcomeValue::Refused("backend_error"@),
            }) && turn.count == CountValue::BackendFailure(destination.name + ":"@ + "io"@)
            &&& event is Ended ==> turn.action == (ActionValue::Finish {
                farewell: None,
                outcome: OutcomeValue::Proxied {
                    backend: destination.name,
                    seconds: event->seconds,
                    bytes: event->Ended_bytes,
                },
            }) && turn.count == CountValue::Bytes(event->Ended_bytes)
        }),
{
    reveal(next_step);
    assert(connection.buf + Seq::<u8>::empty() =~= connection.buf);
}

/// The slot of a session is given back to the first backend of its name, and to
/// no other.
pub proof fn slots_go_back_to_their_backend(
    backends: Seq<BackendValue>,
    name: Seq<char>,
    at: int,
    other: int,
)
    requires
        0 <= at < backends.len(),
        backends[at].name == name,
        forall|i: int| 0 <= i < at ==> (#[trigger] backends[i]).name != name,
    ensures
        given_back(backends, Some(name))[at] == backends[at].released(),
        0 <= other < backends.len() && other != at ==> given_back(backends, Some(name))[other]
            == backends[other],
        given_back(backends, Some(name)).len() == backends.len(),
        given_back(backends, None) == backends,
{
    lemma_backend_place(backends, name);
}

/// The counts that a connection finds around it are those of the registry.
pub proof fn counts_come_from_the_registry<'a>(
    config: &'a Config,
    listener: &'a str,
    proxy_protocol: &'a InboundProxyProtocol,
    favicon: Option<&'a str>,
    registry: &Registry,
)
    ensures
        ({
            let backends = registry.backend_values();
            let sessions = total_active(backends, backends.len());
            let reported = total_reported(backends, backends.len());
            let around = surroundings(config, listener, proxy_protocol, favicon, registry);
            &&& sessions <= usize::MAX && sessions <= i64::MAX && i64::MIN <= reported <= i64::MAX
                ==> around is Some && around->Some_0.sessions == sessions && around->Some_0.reported
                == reported
            &&& around is Some ==> around->Some_0.config == config && around->Some_0.listener
                == listener && around->Some_0.proxy_protocol == proxy_protocol
                && around->Some_0.favicon == favicon && around->Some_0.reported == reported
            &&& reported < i64::MIN || reported > i64::MAX ==> around is None
        }),
{
}

/// A login asks its target for a backend, and so does a ping that a backend may
/// answer; no other target is touched, and no other connection asks any.
#[verifier::rlimit(40)]
pub proof fn only_the_target_of_the_route_is_asked(
    connection: ConnectionValue,
    event: Event,
    around: Around<'_>,
    registry: &Registry,
    fields: HandshakeFields,
    len: nat,
    other: int,
)
    requires
        looks_at_handshake(connection.stage, event),
        beginning(
            connection.buf + arrived(event),
            around.config.limits.max_handshake_bytes as nat,
        ) == Beginning::Modern(fields, len),
        0 <= other < registry.target_values().len(),
    ensures
        ({
            let after = next_step(connection, event, around, registry).targets;
            let targets = registry.target_values();
            let backends = registry.backend_values();
            let route = route_of(
                registry.rules(),
                registry.default_target(),
                targets,
                routing_host(fields.server_address),
                around.listener@,
            );
            let login = fields.next_state != NextState::Status;
            &&& after.len() == targets.len()
            &&& route is None ==> after[other] == targets[other]
            &&& route is Some && route->Some_0.0 != other ==> after[other] == targets[other]
            &&& route is Some && route->Some_0.0 == other && login ==> after[other]
                == targets[other].after_select(backends)
        }),
{
    reveal(next_step);
    reveal(opening_step);
}

} // verus!
