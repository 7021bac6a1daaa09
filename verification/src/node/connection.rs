//! One intercepted connection as a state machine.
//!
//! The server is connected first, before a byte from the client is read: a
//! stopped server stays a closed port, and a protocol where the server speaks
//! first is never kept waiting. Reading, writing and waiting happen outside.
//! Here a connection hears what happened and says what to do next, until it says
//! that it is over.

use vstd::prelude::*;
use vstd::slice::slice_to_vec;

use crate::bytes::push_all;
use crate::json::printed;
use crate::node::config::Config;
use crate::node::intercept::{
    after_connect, after_request, answer_offline, answer_ping, behind_request,
    joins_are_recognised_at_once, kind_of, relay_of, relay_status, sniff,
    unchanged_responses_are_byte_identical, AfterConnect, OfflineAnswer, PingAnswer, Relay, Sniff,
    SniffEvent, LEGACY_PING,
};
use crate::node::motd::{offline_value, text_component};
use crate::protocol::chat::translated;
use crate::protocol::error::Error;
use crate::protocol::frame::{packet_at, MAX_PACKET_SIZE};
use crate::protocol::handshake::{
    handshake_bytes, HandshakeFields, NextState, MAX_ADDRESS_CHARS,
};
use crate::protocol::login::disconnect_bytes;
use crate::protocol::status::{status_json, status_response_bytes, PING_ID};

verus! {

/// What a connection waits for.
#[derive(Debug, Clone, Copy, PartialEq, Eq, Structural)]
pub enum Stage {
    /// The server.
    Connecting,
    /// The client to show what kind of connection this is. `online` says whether
    /// the server is connected.
    Watching { online: bool },
    /// What the client sent to be written to the server.
    Forwarding { status: bool },
    /// The server's status response.
    Response,
    /// The status response to be written to the client.
    Relaying { rewritten: bool },
    /// The end of the connection between client and server.
    Piping { status: bool, rewritten: bool },
    /// The answer in place of the server to be written.
    Answering,
    /// The latency ping behind that answer.
    Ping,
    /// Nothing any more.
    Over,
}

/// One intercepted connection.
#[derive(Debug)]
pub struct Connection {
    pub stage: Stage,
    /// What the client sent.
    pub client: Vec<u8>,
    /// What the server sent.
    pub server: Vec<u8>,
}

/// A connection as a value.
pub ghost struct ConnectionValue {
    pub stage: Stage,
    pub client: Seq<u8>,
    pub server: Seq<u8>,
}

impl View for Connection {
    type V = ConnectionValue;

    open spec fn view(&self) -> ConnectionValue {
        ConnectionValue { stage: self.stage, client: self.client@, server: self.server@ }
    }
}

/// Something that happened to a connection.
#[derive(Debug)]
pub enum Event {
    /// The server is connected.
    Connected,
    /// The server cannot be connected; this is why.
    Unreachable(String),
    /// Something on the client's side, or the time is over.
    Client(SniffEvent),
    /// What was to be written is written.
    Sent,
    /// What was to be written could not be.
    NotSent,
    /// The server sent these bytes.
    Response(Vec<u8>),
    /// The server closed the connection, or took too long.
    ServerSilent,
    /// The connection to the server failed.
    ServerFailed,
    /// Client and server are done; the bytes to the server and to the client,
    /// where they are known.
    Ended(Option<(u64, u64)>),
}

/// How an intercepted connection went, for the log.
#[derive(Debug, PartialEq, Eq)]
pub enum Outcome {
    /// The server could not be reached; the client was closed, as a closed port
    /// would have been.
    Unreachable(String),
    /// The client left before saying anything useful.
    ClientGone,
    /// The server was unreachable and the gateway answered for it.
    Offline(&'static str),
    /// Piped through; `rewritten` tells whether the MOTD was changed.
    Piped { kind: &'static str, rewritten: bool, bytes: Option<(u64, u64)> },
}

/// How an intercepted connection went, as a value.
pub ghost enum OutcomeValue {
    Unreachable(Seq<char>),
    ClientGone,
    Offline(Seq<char>),
    Piped { kind: Seq<char>, rewritten: bool, bytes: Option<(u64, u64)> },
}

impl View for Outcome {
    type V = OutcomeValue;

    open spec fn view(&self) -> OutcomeValue {
        match *self {
            Outcome::Unreachable(reason) => OutcomeValue::Unreachable(reason@),
            Outcome::ClientGone => OutcomeValue::ClientGone,
            Outcome::Offline(answer) => OutcomeValue::Offline(answer@),
            Outcome::Piped { kind, rewritten, bytes } => OutcomeValue::Piped {
                kind: kind@,
                rewritten,
                bytes,
            },
        }
    }
}

/// What to do next.
#[derive(Debug)]
pub enum Action {
    /// Read from the client until it is clear what kind of connection this is;
    /// with a server connected, see also whether the server speaks first.
    Watch,
    /// Write to the server.
    ToServer(Vec<u8>),
    /// Read the status response from the server.
    ReadServer,
    /// Write to the client.
    ToClient(Vec<u8>),
    /// Read the latency ping from the client.
    ReadPing,
    /// Copy in both directions until both sides are done.
    Pipe,
    /// Write these last bytes to the client as far as possible, and close.
    Finish { farewell: Option<Vec<u8>>, outcome: Outcome },
}

/// What to do next, as a value.
pub ghost enum ActionValue {
    Watch,
    ToServer(Seq<u8>),
    ReadServer,
    ToClient(Seq<u8>),
    ReadPing,
    Pipe,
    Finish { farewell: Option<Seq<u8>>, outcome: OutcomeValue },
}

impl View for Action {
    type V = ActionValue;

    open spec fn view(&self) -> ActionValue {
        match *self {
            Action::Watch => ActionValue::Watch,
            Action::ToServer(bytes) => ActionValue::ToServer(bytes@),
            Action::ReadServer => ActionValue::ReadServer,
            Action::ToClient(bytes) => ActionValue::ToClient(bytes@),
            Action::ReadPing => ActionValue::ReadPing,
            Action::Pipe => ActionValue::Pipe,
            Action::Finish { farewell, outcome } => ActionValue::Finish {
                farewell: match farewell {
                    Some(bytes) => Some(bytes@),
                    None => None,
                },
                outcome: outcome@,
            },
        }
    }
}

/// What is counted for a step.
#[derive(Debug, Clone, Copy, PartialEq, Eq, Structural)]
pub struct Counts {
    /// A server that did not answer.
    pub unreachable: bool,
    /// A status ping that was recognised.
    pub status_request: bool,
    /// An answer in place of a server.
    pub offline_answer: bool,
    /// A status response that got the owner's lines.
    pub rewrite: bool,
}

/// Nothing is counted.
pub open spec fn no_counts() -> Counts {
    Counts { unreachable: false, status_request: false, offline_answer: false, rewrite: false }
}

// -------------------------------------------------------------------- model --

/// A step: the connection afterwards, what to do, and what to count.
pub ghost struct Step {
    pub connection: ConnectionValue,
    pub action: ActionValue,
    pub counts: Counts,
}

/// Whether an event is one that a stage waits for.
pub open spec fn fits(stage: Stage, event: Event) -> bool {
    match stage {
        Stage::Connecting => event is Connected || event is Unreachable,
        Stage::Watching { .. } => event is Client,
        Stage::Forwarding { .. } => event is Sent || event is NotSent,
        Stage::Response => event is Response || event is ServerSilent || event is ServerFailed,
        Stage::Relaying { .. } => event is Sent || event is NotSent,
        Stage::Piping { .. } => event is Ended,
        Stage::Answering => event is Sent || event is NotSent,
        Stage::Ping => event is Client,
        Stage::Over => false,
    }
}

/// What an event adds to what the client sent.
pub open spec fn from_client(event: Event) -> Seq<u8> {
    match event {
        Event::Client(SniffEvent::Received(bytes)) => bytes@,
        _ => Seq::empty(),
    }
}

/// What an event adds to what the server sent.
pub open spec fn from_server(event: Event) -> Seq<u8> {
    match event {
        Event::Response(bytes) => bytes@,
        _ => Seq::empty(),
    }
}

/// The connection goes on to another stage.
pub open spec fn go_on(connection: ConnectionValue, stage: Stage, action: ActionValue) -> Step {
    Step {
        connection: ConnectionValue { stage, ..connection },
        action,
        counts: no_counts(),
    }
}

/// The end of a connection.
pub open spec fn finish(
    connection: ConnectionValue,
    farewell: Option<Seq<u8>>,
    outcome: OutcomeValue,
) -> Step {
    go_on(connection, Stage::Over, ActionValue::Finish { farewell, outcome })
}

/// The name of a kind of connection, for the log.
pub open spec fn kind_name(status: bool) -> Seq<char> {
    if status {
        "status"@
    } else {
        "passthrough"@
    }
}

/// Client and server are left to themselves.
pub open spec fn pipe(connection: ConnectionValue, status: bool, rewritten: bool) -> Step {
    go_on(connection, Stage::Piping { status, rewritten }, ActionValue::Pipe)
}

/// The kind of connection that an event shows.
pub open spec fn shown_kind(client: Seq<u8>, event: SniffEvent) -> Option<Sniff> {
    match event {
        SniffEvent::Received(_) => kind_of(client),
        SniffEvent::Closed => Some(Sniff::ClientGone),
        SniffEvent::ServerSpoke => Some(Sniff::PassThrough),
        SniffEvent::Deadline => Some(Sniff::PassThrough),
    }
}

/// What was read goes to the server first, byte for byte.
pub open spec fn forward(connection: ConnectionValue, status: bool) -> Step {
    if connection.client.len() > 0 {
        go_on(
            connection,
            Stage::Forwarding { status },
            ActionValue::ToServer(connection.client),
        )
    } else {
        forwarded(connection, status)
    }
}

/// The server has what the client sent.
pub open spec fn forwarded(connection: ConnectionValue, status: bool) -> Step {
    if status {
        go_on(connection, Stage::Response, ActionValue::ReadServer)
    } else {
        pipe(connection, false, false)
    }
}

/// The kind of connection is clear, and the server is connected.
pub open spec fn online_step(connection: ConnectionValue, kind: Sniff) -> Step {
    match kind {
        Sniff::ClientGone => finish(connection, None, OutcomeValue::ClientGone),
        Sniff::Status => Step {
            counts: Counts { status_request: true, ..no_counts() },
            ..forward(connection, true)
        },
        _ => forward(connection, false),
    }
}

/// The kind of connection is clear, and there is no server.
pub open spec fn offline_step(connection: ConnectionValue, kind: Sniff, config: Config) -> Step {
    match kind {
        Sniff::Status => Step {
            counts: Counts { status_request: true, offline_answer: true, ..no_counts() },
            ..go_on(
                connection,
                Stage::Answering,
                ActionValue::ToClient(
                    status_response_bytes(status_json(offline_value(config.offline, config.motd))),
                ),
            )
        },
        Sniff::Join => Step {
            counts: Counts { offline_answer: true, ..no_counts() },
            ..finish(
                connection,
                match config.offline.kick {
                    Some(kick) => Some(
                        disconnect_bytes(printed(text_component(translated(kick@)))),
                    ),
                    None => None,
                },
                OutcomeValue::Offline("kick"@),
            )
        },
        Sniff::PassThrough => finish(
            connection,
            None,
            OutcomeValue::Unreachable("server offline"@),
        ),
        Sniff::ClientGone => finish(connection, None, OutcomeValue::ClientGone),
    }
}

/// The server's response is looked at, and relayed once it is there.
pub open spec fn response_step(connection: ConnectionValue, config: Config) -> Step {
    match relay_of(connection.server, config.motd) {
        None => go_on(connection, Stage::Response, ActionValue::ReadServer),
        Some((bytes, rewritten)) => Step {
            counts: Counts { rewrite: rewritten, ..no_counts() },
            ..go_on(connection, Stage::Relaying { rewritten }, ActionValue::ToClient(bytes))
        },
    }
}

/// The ping that follows the answer is looked for, and answered.
pub open spec fn ping_step(connection: ConnectionValue) -> Step {
    match behind_request(connection.client) {
        None => finish(connection, None, OutcomeValue::Offline("status"@)),
        Some(rest) => match packet_at(rest, MAX_PACKET_SIZE as nat) {
            Ok(packet) => finish(
                connection,
                if packet.id == PING_ID {
                    Some(rest.take(packet.total_len as int))
                } else {
                    None
                },
                OutcomeValue::Offline("status"@),
            ),
            Err(Error::Incomplete) => go_on(connection, Stage::Ping, ActionValue::ReadPing),
            Err(_) => finish(connection, None, OutcomeValue::Offline("status"@)),
        },
    }
}

/// The step that an event leads to.
pub open spec fn next_step(before: ConnectionValue, event: Event, config: Config) -> Step {
    let connection = ConnectionValue {
        stage: before.stage,
        client: before.client + from_client(event),
        server: before.server + from_server(event),
    };
    match before.stage {
        Stage::Connecting => match event {
            Event::Unreachable(reason) => Step {
                counts: Counts { unreachable: true, ..no_counts() },
                ..if config.offline.enabled {
                    go_on(connection, Stage::Watching { online: false }, ActionValue::Watch)
                } else {
                    finish(connection, None, OutcomeValue::Unreachable(reason@))
                }
            },
            _ => if config.motd.rewrites() {
                go_on(connection, Stage::Watching { online: true }, ActionValue::Watch)
            } else {
                pipe(connection, false, false)
            },
        },
        Stage::Watching { online } => match shown_kind(connection.client, event->Client_0) {
            None => go_on(connection, before.stage, ActionValue::Watch),
            Some(kind) => if online {
                online_step(connection, kind)
            } else {
                offline_step(connection, kind, config)
            },
        },
        Stage::Forwarding { status } => if event is Sent {
            forwarded(connection, status)
        } else {
            finish(connection, None, OutcomeValue::Unreachable("write failed"@))
        },
        Stage::Response => match event {
            Event::Response(_) => response_step(connection, config),
            Event::ServerSilent => go_on(
                connection,
                Stage::Relaying { rewritten: false },
                ActionValue::ToClient(connection.server),
            ),
            _ => finish(
                connection,
                None,
                OutcomeValue::Piped { kind: "status"@, rewritten: false, bytes: None },
            ),
        },
        Stage::Relaying { rewritten } => if event is Sent {
            pipe(connection, true, rewritten)
        } else {
            finish(
                connection,
                None,
                OutcomeValue::Piped { kind: "status"@, rewritten: false, bytes: None },
            )
        },
        Stage::Piping { status, rewritten } => finish(
            connection,
            None,
            OutcomeValue::Piped { kind: kind_name(status), rewritten, bytes: event->Ended_0 },
        ),
        Stage::Answering => if event is Sent {
            ping_step(connection)
        } else {
            finish(connection, None, OutcomeValue::ClientGone)
        },
        Stage::Ping => match event {
            Event::Client(SniffEvent::Received(_)) => ping_step(connection),
            _ => finish(connection, None, OutcomeValue::Offline("status"@)),
        },
        Stage::Over => finish(connection, None, OutcomeValue::ClientGone),
    }
}

// --------------------------------------------------------------- transitions --

impl Counts {
    /// Nothing is counted.
    pub fn none() -> (counts: Self)
        ensures
            counts == no_counts(),
    {
        Counts { unreachable: false, status_request: false, offline_answer: false, rewrite: false }
    }
}

fn moved(connection: Connection, stage: Stage, action: Action) -> (r: (Connection, Action, Counts))
    ensures
        (Step { connection: r.0@, action: r.1@, counts: r.2 }) == go_on(
            connection@,
            stage,
            action@,
        ),
{
    (Connection { stage, ..connection }, action, Counts::none())
}

fn over(connection: Connection, farewell: Option<Vec<u8>>, outcome: Outcome) -> (r: (
    Connection,
    Action,
    Counts,
))
    ensures
        (Step { connection: r.0@, action: r.1@, counts: r.2 }) == finish(
            connection@,
            match farewell {
                Some(bytes) => Some(bytes@),
                None => None,
            },
            outcome@,
        ),
{
    moved(connection, Stage::Over, Action::Finish { farewell, outcome })
}

fn go_forwarded(connection: Connection, status: bool) -> (r: (Connection, Action, Counts))
    ensures
        (Step { connection: r.0@, action: r.1@, counts: r.2 }) == forwarded(connection@, status),
{
    if status {
        moved(connection, Stage::Response, Action::ReadServer)
    } else {
        moved(connection, Stage::Piping { status: false, rewritten: false }, Action::Pipe)
    }
}

fn go_online(connection: Connection, kind: Sniff) -> (r: (Connection, Action, Counts))
    ensures
        (Step { connection: r.0@, action: r.1@, counts: r.2 }) == online_step(connection@, kind),
{
    let status: bool = match kind {
        Sniff::ClientGone => return over(connection, None, Outcome::ClientGone),
        Sniff::Status => true,
        _ => false,
    };
    let (connection, action, _) = if connection.client.len() > 0 {
        let bytes = slice_to_vec(connection.client.as_slice());
        moved(connection, Stage::Forwarding { status }, Action::ToServer(bytes))
    } else {
        go_forwarded(connection, status)
    };
    (connection, action, Counts { status_request: status, ..Counts::none() })
}

fn go_offline(connection: Connection, kind: Sniff, config: &Config) -> (r: (
    Connection,
    Action,
    Counts,
))
    ensures
        (Step { connection: r.0@, action: r.1@, counts: r.2 }) == offline_step(
            connection@,
            kind,
            *config,
        ),
{
    match answer_offline(kind, &config.offline, &config.motd) {
        OfflineAnswer::Status(packet) => {
            let (connection, action, _) = moved(
                connection,
                Stage::Answering,
                Action::ToClient(packet),
            );
            (
                connection,
                action,
                Counts { status_request: true, offline_answer: true, ..Counts::none() },
            )
        },
        OfflineAnswer::Kick(packet) => {
            let (connection, action, _) = over(connection, packet, Outcome::Offline("kick"));
            (connection, action, Counts { offline_answer: true, ..Counts::none() })
        },
        OfflineAnswer::Close => over(
            connection,
            None,
            Outcome::Unreachable("server offline".to_owned()),
        ),
        OfflineAnswer::Gone => over(connection, None, Outcome::ClientGone),
    }
}

fn look_at_response(connection: Connection, config: &Config) -> (r: (Connection, Action, Counts))
    ensures
        (Step { connection: r.0@, action: r.1@, counts: r.2 }) == response_step(
            connection@,
            *config,
        ),
{
    match relay_status(connection.server.as_slice(), &config.motd) {
        Relay::More => moved(connection, Stage::Response, Action::ReadServer),
        Relay::Send { bytes, rewritten } => {
            let (connection, action, _) = moved(
                connection,
                Stage::Relaying { rewritten },
                Action::ToClient(bytes),
            );
            (connection, action, Counts { rewrite: rewritten, ..Counts::none() })
        },
    }
}

fn look_for_ping(connection: Connection) -> (r: (Connection, Action, Counts))
    ensures
        (Step { connection: r.0@, action: r.1@, counts: r.2 }) == ping_step(connection@),
{
    let rest = match after_request(connection.client.as_slice()) {
        Some(rest) => rest,
        None => return over(connection, None, Outcome::Offline("status")),
    };
    match answer_ping(rest.as_slice()) {
        PingAnswer::More => moved(connection, Stage::Ping, Action::ReadPing),
        PingAnswer::Pong(packet) => over(connection, Some(packet), Outcome::Offline("status")),
        PingAnswer::Done => over(connection, None, Outcome::Offline("status")),
    }
}

impl Connection {
    /// A connection that was just accepted; its server is to be connected.
    pub fn new() -> (connection: Self)
        ensures
            connection@ == (ConnectionValue {
                stage: Stage::Connecting,
                client: Seq::empty(),
                server: Seq::empty(),
            }),
    {
        let connection = Connection {
            stage: Stage::Connecting,
            client: Vec::new(),
            server: Vec::new(),
        };
        assert(connection.client@ =~= Seq::<u8>::empty());
        assert(connection.server@ =~= Seq::<u8>::empty());
        connection
    }

    /// Whether an event is one that the connection waits for.
    pub fn expects(&self, event: &Event) -> (yes: bool)
        ensures
            yes == fits(self.stage, *event),
    {
        match self.stage {
            Stage::Connecting => matches!(event, Event::Connected | Event::Unreachable(_)),
            Stage::Watching { .. } => matches!(event, Event::Client(_)),
            Stage::Forwarding { .. } => matches!(event, Event::Sent | Event::NotSent),
            Stage::Response => matches!(
                event,
                Event::Response(_) | Event::ServerSilent | Event::ServerFailed
            ),
            Stage::Relaying { .. } => matches!(event, Event::Sent | Event::NotSent),
            Stage::Piping { .. } => matches!(event, Event::Ended(_)),
            Stage::Answering => matches!(event, Event::Sent | Event::NotSent),
            Stage::Ping => matches!(event, Event::Client(_)),
            Stage::Over => false,
        }
    }

    /// Takes in one event, and says what to do next and what to count.
    #[verifier::rlimit(40)]
    pub fn step(self, event: Event, config: &Config) -> (r: (Connection, Action, Counts))
        requires
            fits(self.stage, event),
        ensures
            (Step { connection: r.0@, action: r.1@, counts: r.2 }) == next_step(
                self@,
                event,
                *config,
            ),
    {
        let stage = self.stage;
        let mut connection = self;
        assert(self.client@ + Seq::<u8>::empty() =~= self.client@);
        assert(self.server@ + Seq::<u8>::empty() =~= self.server@);
        match stage {
            Stage::Connecting => match event {
                Event::Unreachable(reason) => {
                    let (connection, action, _) = match after_connect(false, config) {
                        AfterConnect::AnswerOffline => moved(
                            connection,
                            Stage::Watching { online: false },
                            Action::Watch,
                        ),
                        _ => over(connection, None, Outcome::Unreachable(reason)),
                    };
                    (connection, action, Counts { unreachable: true, ..Counts::none() })
                },
                _ => match after_connect(true, config) {
                    AfterConnect::Sniff => moved(
                        connection,
                        Stage::Watching { online: true },
                        Action::Watch,
                    ),
                    _ => moved(
                        connection,
                        Stage::Piping { status: false, rewritten: false },
                        Action::Pipe,
                    ),
                },
            },
            Stage::Watching { online } => match event {
                Event::Client(seen) => match sniff(&mut connection.client, seen) {
                    None => moved(connection, stage, Action::Watch),
                    Some(kind) => if online {
                        go_online(connection, kind)
                    } else {
                        go_offline(connection, kind, config)
                    },
                },
                _ => over(connection, None, Outcome::ClientGone),
            },
            Stage::Forwarding { status } => match event {
                Event::Sent => go_forwarded(connection, status),
                _ => over(connection, None, Outcome::Unreachable("write failed".to_owned())),
            },
            Stage::Response => match event {
                Event::Response(bytes) => {
                    push_all(&mut connection.server, bytes.as_slice());
                    look_at_response(connection, config)
                },
                Event::ServerSilent => {
                    let bytes = slice_to_vec(connection.server.as_slice());
                    moved(connection, Stage::Relaying { rewritten: false }, Action::ToClient(bytes))
                },
                _ => over(
                    connection,
                    None,
                    Outcome::Piped { kind: "status", rewritten: false, bytes: None },
                ),
            },
            Stage::Relaying { rewritten } => match event {
                Event::Sent => moved(
                    connection,
                    Stage::Piping { status: true, rewritten },
                    Action::Pipe,
                ),
                _ => over(
                    connection,
                    None,
                    Outcome::Piped { kind: "status", rewritten: false, bytes: None },
                ),
            },
            Stage::Piping { status, rewritten } => {
                let bytes: Option<(u64, u64)> = match event {
                    Event::Ended(bytes) => bytes,
                    _ => None,
                };
                let kind = if status {
                    "status"
                } else {
                    "passthrough"
                };
                over(connection, None, Outcome::Piped { kind, rewritten, bytes })
            },
            Stage::Answering => match event {
                Event::Sent => look_for_ping(connection),
                _ => over(connection, None, Outcome::ClientGone),
            },
            Stage::Ping => match event {
                Event::Client(SniffEvent::Received(bytes)) => {
                    push_all(&mut connection.client, bytes.as_slice());
                    look_for_ping(connection)
                },
                _ => over(connection, None, Outcome::Offline("status")),
            },
            Stage::Over => over(connection, None, Outcome::ClientGone),
        }
    }
}

// -------------------------------------------------------------------- laws --

/// A connection is over exactly when it is to be closed.
pub proof fn the_end_is_the_end(connection: ConnectionValue, event: Event, config: Config)
    requires
        fits(connection.stage, event),
    ensures
        ({
            let step = next_step(connection, event, config);
            step.action is Finish == step.connection.stage is Over
        }),
{
}

/// What a connection remembers is all that each side sent.
pub proof fn nothing_is_lost(connection: ConnectionValue, event: Event, config: Config)
    requires
        fits(connection.stage, event),
    ensures
        ({
            let step = next_step(connection, event, config);
            &&& step.connection.client == connection.client + from_client(event)
            &&& step.connection.server == connection.server + from_server(event)
        }),
{
}

/// The server gets what the client sent, all of it and nothing else.
pub proof fn the_server_sees_what_the_client_sent(
    connection: ConnectionValue,
    event: Event,
    config: Config,
)
    requires
        fits(connection.stage, event),
        next_step(connection, event, config).action is ToServer,
    ensures
        next_step(connection, event, config).action->ToServer_0 == connection.client + from_client(
            event,
        ),
{
}

/// Before client and server are left to themselves, whatever the client sent has
/// gone to the server: either it was written, or there was nothing to write.
pub proof fn nothing_is_held_back(connection: ConnectionValue, event: Event, config: Config)
    requires
        fits(connection.stage, event),
        next_step(connection, event, config).action is Pipe,
        connection.stage is Connecting ==> connection.client.len() == 0,
    ensures
        connection.stage is Forwarding || connection.stage is Relaying || (connection.client
            + from_client(event)).len() == 0,
{
}

/// While a server is there, the gateway itself speaks only to a client that
/// sent a status ping, and then says what the server said, up to the MOTD.
#[verifier::rlimit(40)]
pub proof fn only_status_responses_are_touched(
    connection: ConnectionValue,
    event: Event,
    config: Config,
)
    requires
        fits(connection.stage, event),
        !(connection.stage is Watching) || connection.stage->online,
        !(connection.stage is Answering) && !(connection.stage is Ping),
    ensures
        ({
            let step = next_step(connection, event, config);
            let server = connection.server + from_server(event);
            &&& step.action is ToClient ==> {
                &&& connection.stage is Response
                &&& step.action->ToClient_0 == server || relay_of(server, config.motd) == Some(
                    (step.action->ToClient_0, true),
                )
            }
            &&& step.action is Finish ==> step.action->farewell is None
            &&& step.connection.stage is Response ==> connection.stage is Response
                || connection.stage == (Stage::Forwarding { status: true }) || shown_kind(
                connection.client + from_client(event),
                event->Client_0,
            ) == Some(Sniff::Status)
        }),
{
    let server = connection.server + from_server(event);
    if connection.stage is Response {
        if let Some((bytes, changed)) = relay_of(server, config.motd) {
            if !changed {
                unchanged_responses_are_byte_identical(server, config.motd);
            }
        }
        assert(event is ServerSilent ==> server =~= connection.server);
    }
}

/// A player who joins is passed on at once, and nothing is said to them.
pub proof fn joins_pass_through(
    fields: HandshakeFields,
    rest: Seq<u8>,
    event: Event,
    config: Config,
)
    requires
        fields.server_address.len() <= MAX_ADDRESS_CHARS,
        fields.next_state != NextState::Status,
        event is Client,
        event->Client_0 is Received,
        from_client(event) == handshake_bytes(fields) + rest,
        from_client(event)[0] != LEGACY_PING,
    ensures
        ({
            let connection = ConnectionValue {
                stage: Stage::Watching { online: true },
                client: Seq::empty(),
                server: Seq::empty(),
            };
            let step = next_step(connection, event, config);
            &&& step.action == ActionValue::ToServer(handshake_bytes(fields) + rest)
            &&& step.connection.stage == (Stage::Forwarding { status: false })
        }),
{
    joins_are_recognised_at_once(fields, rest);
    let sent = handshake_bytes(fields) + rest;
    assert(Seq::<u8>::empty() + sent =~= sent);
}

/// Without lines to put in, the connection is passed through before anything is
/// read.
pub proof fn without_lines_nothing_is_read(
    connection: ConnectionValue,
    event: Event,
    config: Config,
)
    requires
        connection.stage is Connecting,
        event is Connected,
        !config.motd.rewrites(),
    ensures
        next_step(connection, event, config).action is Pipe,
{
}

/// Where nothing is answered for a stopped server, its port stays closed: the
/// client is closed before anything is read, and hears nothing.
pub proof fn a_stopped_server_is_a_closed_port(
    connection: ConnectionValue,
    event: Event,
    config: Config,
)
    requires
        connection.stage is Connecting,
        event is Unreachable,
        !config.offline.enabled,
    ensures
        next_step(connection, event, config).action == (ActionValue::Finish {
            farewell: None,
            outcome: OutcomeValue::Unreachable(event->Unreachable_0@),
        }),
{
}

/// A server that is there is watched only where there are lines to put in; one
/// that is not is answered for only where that is wanted, and is counted either
/// way.
pub proof fn connecting_decides_who_answers(
    connection: ConnectionValue,
    event: Event,
    config: Config,
)
    requires
        connection.stage is Connecting,
        event is Connected || event is Unreachable,
    ensures
        ({
            let step = next_step(connection, event, config);
            &&& event is Connected && (config.motd.line1 is Some || config.motd.line2 is Some)
                ==> step.action is Watch && step.connection.stage == (Stage::Watching {
                online: true,
            })
            &&& event is Unreachable && config.offline.enabled ==> step.action is Watch
                && step.connection.stage == (Stage::Watching { online: false })
            &&& step.counts == (Counts {
                unreachable: event is Unreachable,
                status_request: false,
                offline_answer: false,
                rewrite: false,
            })
        }),
{
}

/// A client that left, a server that speaks first and a client that takes too
/// long decide the kind of a connection without a byte; else its bytes do.
pub proof fn events_show_the_kind(client: Seq<u8>, bytes: Vec<u8>)
    ensures
        shown_kind(client, SniffEvent::Closed) == Some(Sniff::ClientGone),
        shown_kind(client, SniffEvent::ServerSpoke) == Some(Sniff::PassThrough),
        shown_kind(client, SniffEvent::Deadline) == Some(Sniff::PassThrough),
        shown_kind(client, SniffEvent::Received(bytes)) == kind_of(client),
{
}

/// With a server, everything the client sent goes to it first; then a status
/// ping has its response looked at, and everything else is piped.
#[verifier::rlimit(40)]
pub proof fn watched_connections_reach_the_server(
    connection: ConnectionValue,
    event: Event,
    config: Config,
)
    requires
        connection.stage == (Stage::Watching { online: true }) && event is Client
            || connection.stage is Forwarding && (event is Sent || event is NotSent),
    ensures
        ({
            let step = next_step(connection, event, config);
            let sent = connection.client + from_client(event);
            let kind = shown_kind(sent, event->Client_0);
            let watching = connection.stage is Watching;
            &&& watching && kind is None ==> step.action is Watch && step.connection.stage
                == connection.stage
            &&& watching && kind == Some(Sniff::ClientGone) ==> step.action == (
            ActionValue::Finish { farewell: None, outcome: OutcomeValue::ClientGone })
            &&& watching && kind is Some && kind != Some(Sniff::ClientGone) && sent.len() > 0
                ==> step.action == ActionValue::ToServer(sent) && step.connection.stage == (
            Stage::Forwarding { status: kind == Some(Sniff::Status) })
            &&& watching && (kind == Some(Sniff::PassThrough) || kind == Some(Sniff::Join))
                && sent.len() == 0 ==> step.action is Pipe && step.connection.stage == (
            Stage::Piping { status: false, rewritten: false })
            &&& watching ==> step.counts.status_request == (kind == Some(Sniff::Status))
            &&& !watching && event is Sent && connection.stage->Forwarding_status ==> step.action
                is ReadServer && step.connection.stage is Response
            &&& !watching && event is Sent && !connection.stage->Forwarding_status ==> step.action
                is Pipe
            &&& !watching && event is NotSent ==> step.action == (ActionValue::Finish {
                farewell: None,
                outcome: OutcomeValue::Unreachable("write failed"@),
            })
        }),
{
}

/// Without a server a status ping is shown the offline status, a player who
/// joins is told why in the configured words, and everything else is closed.
pub proof fn absent_servers_are_answered_for(
    connection: ConnectionValue,
    event: Event,
    config: Config,
)
    requires
        connection.stage == (Stage::Watching { online: false }),
        event is Client,
    ensures
        ({
            let step = next_step(connection, event, config);
            let kind = shown_kind(connection.client + from_client(event), event->Client_0);
            &&& kind is None ==> step.action is Watch && step.connection.stage == connection.stage
            &&& kind == Some(Sniff::Status) ==> step.action == ActionValue::ToClient(
                status_response_bytes(status_json(offline_value(config.offline, config.motd))),
            ) && step.connection.stage is Answering && step.counts == (Counts {
                unreachable: false,
                status_request: true,
                offline_answer: true,
                rewrite: false,
            })
            &&& kind == Some(Sniff::Join) && config.offline.kick is Some ==> step.action == (
            ActionValue::Finish {
                farewell: Some(
                    disconnect_bytes(
                        printed(text_component(translated(config.offline.kick->Some_0@))),
                    ),
                ),
                outcome: OutcomeValue::Offline("kick"@),
            }) && step.counts.offline_answer && !step.counts.status_request
            &&& kind == Some(Sniff::Join) && config.offline.kick is None ==> step.action == (
            ActionValue::Finish { farewell: None, outcome: OutcomeValue::Offline("kick"@) })
            &&& kind == Some(Sniff::PassThrough) ==> step.action == (ActionValue::Finish {
                farewell: None,
                outcome: OutcomeValue::Unreachable("server offline"@),
            }) && !step.counts.offline_answer
            &&& kind == Some(Sniff::ClientGone) ==> step.action == (ActionValue::Finish {
                farewell: None,
                outcome: OutcomeValue::ClientGone,
            }) && !step.counts.offline_answer
        }),
{
}

/// The ping behind an offline status comes straight back; a client that sends
/// something else, or nothing, is done.
pub proof fn offline_pings_come_back(connection: ConnectionValue, event: Event, config: Config)
    requires
        connection.stage is Answering && (event is Sent || event is NotSent) || connection.stage
            is Ping && event is Client,
    ensures
        ({
            let step = next_step(connection, event, config);
            let rest = behind_request(connection.client + from_client(event));
            let packet = packet_at(rest->Some_0, 32_768);
            let looks = connection.stage is Answering && event is Sent || connection.stage is Ping
                && event->Client_0 is Received;
            let done = ActionValue::Finish {
                farewell: None,
                outcome: OutcomeValue::Offline("status"@),
            };
            &&& looks && rest is Some && packet is Ok && packet->Ok_0.id == 1 ==> step.action == (
            ActionValue::Finish {
                farewell: Some(rest->Some_0.take(packet->Ok_0.total_len as int)),
                outcome: OutcomeValue::Offline("status"@),
            })
            &&& looks && rest is Some && packet is Ok && packet->Ok_0.id != 1 ==> step.action
                == done
            &&& looks && rest is Some && packet is Err && packet->Err_0 is Incomplete
                ==> step.action is ReadPing && step.connection.stage is Ping
            &&& looks && rest is Some && packet is Err && !(packet->Err_0 is Incomplete)
                ==> step.action == done
            &&& looks && rest is None ==> step.action == done
            &&& connection.stage is Ping && !looks ==> step.action == done
            &&& event is NotSent ==> step.action == (ActionValue::Finish {
                farewell: None,
                outcome: OutcomeValue::ClientGone,
            })
        }),
{
}

/// A response is relayed as soon as it is there, rewritten where it can be; a
/// server that falls silent has what it said relayed as it is. Then client and
/// server are left to themselves, and the end says what became of them.
#[verifier::rlimit(40)]
pub proof fn responses_are_relayed(connection: ConnectionValue, event: Event, config: Config)
    requires
        fits(connection.stage, event),
        connection.stage is Response || connection.stage is Relaying || connection.stage is Piping,
    ensures
        ({
            let step = next_step(connection, event, config);
            let said = connection.server + from_server(event);
            let relay = relay_of(said, config.motd);
            let broken = ActionValue::Finish {
                farewell: None,
                outcome: OutcomeValue::Piped { kind: "status"@, rewritten: false, bytes: None },
            };
            &&& event is Response && relay is None ==> step.action is ReadServer
                && step.connection.stage is Response
            &&& event is Response && relay is Some ==> step.action == ActionValue::ToClient(
                relay->Some_0.0,
            ) && step.connection.stage == (Stage::Relaying { rewritten: relay->Some_0.1 })
                && step.counts.rewrite == relay->Some_0.1
            &&& event is ServerSilent ==> step.action == ActionValue::ToClient(connection.server)
                && step.connection.stage == (Stage::Relaying { rewritten: false })
                && !step.counts.rewrite
            &&& event is ServerFailed ==> step.action == broken
            &&& event is Sent ==> step.action is Pipe && step.connection.stage == (Stage::Piping {
                status: true,
                rewritten: connection.stage->Relaying_rewritten,
            })
            &&& event is NotSent ==> step.action == broken
            &&& event is Ended ==> step.action == (ActionValue::Finish {
                farewell: None,
                outcome: OutcomeValue::Piped {
                    kind: if connection.stage->Piping_status {
                        "status"@
                    } else {
                        "passthrough"@
                    },
                    rewritten: connection.stage->Piping_rewritten,
                    bytes: event->Ended_0,
                },
            })
        }),
{
    assert(connection.server + Seq::<u8>::empty() =~= connection.server);
}

} // verus!
