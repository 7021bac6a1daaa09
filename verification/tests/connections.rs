//! Whole connections, driven event by event.

use std::sync::Arc;

use mc_gateway::config::intercept::PortRange;
use mc_gateway::config::model::{
    BackendKind, Config, Forwarding, InboundProxyProtocol, Rule, Server,
};
use mc_gateway::config::net::{IpNet, IpNets};
use mc_gateway::forwarding::connect::{ConnectError, Origin};
use mc_gateway::forwarding::proxy_protocol::encode_v2;
use mc_gateway::gateway::connection::{
    record_count, Action, Around, Connection, Count, Event, Wait,
};
use mc_gateway::gateway::limits::Rejection;
use mc_gateway::gateway::session::{kick, Outcome, Transferred};
use mc_gateway::json::Json;
use mc_gateway::metrics::counters::Metrics;
use mc_gateway::net::{parse_ip, parse_socket, SocketAddr};
use mc_gateway::node;
use mc_gateway::node::intercept::SniffEvent;
use mc_gateway::protocol::frame::{decode_frame, encode_packet};
use mc_gateway::protocol::handshake::HANDSHAKE_ID;
use mc_gateway::protocol::status::{encode_pong, encode_status_response, PING_REQUEST_ID};
use mc_gateway::protocol::wire::Writer;
use mc_gateway::routing::registry::Registry;

fn addr(s: &str) -> SocketAddr {
    parse_socket(s).unwrap()
}

fn handshake(address: &str, next_state: i32) -> Vec<u8> {
    let mut w = Writer::new();
    w.varint(767).string(address).u16(25565).varint(next_state);
    encode_packet(HANDSHAKE_ID, w.as_slice())
}

struct Edge {
    config: Arc<Config>,
    registry: Registry,
    inbound: InboundProxyProtocol,
    metrics: Metrics,
    connection: Option<Connection>,
}

impl Edge {
    fn new(forwarding: Forwarding, answer_here: bool) -> Self {
        let mut config = Config::default();
        config.servers = vec![(
            "lobby".into(),
            Server {
                address: "10.0.0.1:25565".into(),
                group: None,
                kind: BackendKind::Unknown,
                forwarding,
                weight: 1,
                max_connections: 1,
                health: None,
            },
        )];
        config.routing.rules = vec![Rule {
            host: "play.example.net".into(),
            target: "lobby".into(),
            listeners: None,
            motd: None,
        }];
        config.motd.enabled = answer_here;
        let config = Arc::new(config);
        Edge {
            registry: Registry::build(Arc::clone(&config)),
            config,
            inbound: InboundProxyProtocol::default(),
            metrics: Metrics::new(),
            connection: Some(Connection::new(addr("203.0.113.7:5"), addr("198.51.100.1:25565"))),
        }
    }

    fn step(&mut self, event: Event) -> Action {
        let connection = self.connection.take().unwrap();
        assert!(connection.expects(&event), "{connection:?} {event:?}");
        let around = Around {
            config: &self.config,
            listener: "public",
            proxy_protocol: &self.inbound,
            favicon: None,
            sessions: 0,
            reported: 0,
        };
        let (connection, action, count) =
            connection.step(event, &around, &mut self.registry);
        record_count(&mut self.metrics, &count);
        self.connection = Some(connection);
        action
    }

    fn admitted(&mut self) {
        assert!(matches!(self.step(Event::Start), Action::Admit(_)));
        assert!(matches!(self.step(Event::Admitted), Action::Read(Wait::Handshake)));
    }
}

#[test]
fn a_player_is_replayed_to_the_backend_byte_for_byte() {
    let mut edge = Edge::new(Forwarding::ProxyProtocolV2, true);
    edge.admitted();
    let sent = handshake("play.example.net\0FML3\0", 2);
    let (head, rest) = sent.split_at(5);
    assert!(matches!(edge.step(Event::Received(head.to_vec())), Action::Read(Wait::Handshake)));
    match edge.step(Event::Received(rest.to_vec())) {
        Action::Open { place: 0, forwarding: Forwarding::ProxyProtocolV2, origin } => {
            assert_eq!(
                origin,
                Origin::Client { src: addr("203.0.113.7:5"), dst: addr("198.51.100.1:25565") }
            );
        }
        other => panic!("{other:?}"),
    }
    assert_eq!(edge.registry.active_sessions(), Some(1));
    match edge.step(Event::Connected) {
        Action::Replay(bytes) => assert_eq!(bytes, sent),
        other => panic!("{other:?}"),
    }
    match edge.step(Event::Sent) {
        Action::Pipe(Some(idle)) => assert_eq!(idle.secs, 600),
        other => panic!("{other:?}"),
    }
    let bytes = Transferred { to_backend: 10, to_client: 20 };
    match edge.step(Event::Ended { seconds: 3, bytes }) {
        Action::Finish { farewell: None, outcome } => assert_eq!(
            outcome,
            Outcome::Proxied { backend: "lobby".into(), seconds: 3, bytes }
        ),
        other => panic!("{other:?}"),
    }
    assert_eq!(edge.registry.active_sessions(), Some(0), "the slot is given back");
    assert_eq!(edge.metrics.login_attempts, 1);
    assert_eq!(edge.metrics.backend_connections.get("lobby"), 1);
    assert_eq!(edge.metrics.bytes.get("to_client"), 20);
}

#[test]
fn an_unreachable_backend_is_told_to_the_player() {
    let address = || "10.0.0.1:25565".to_owned();
    let timeout = mc_gateway::time::Duration::from_secs(3);
    for (event, reason, kind) in [
        (
            Event::Unresolved(ConnectError::NoAddress { address: address() }),
            "backend_unresolved",
            "no_address",
        ),
        (
            Event::Unresolved(ConnectError::Resolve { address: address(), reason: "x".into() }),
            "backend_unresolved",
            "resolve",
        ),
        (
            Event::Unreachable(ConnectError::Timeout { address: address(), timeout }),
            "backend_error",
            "timeout",
        ),
        (
            Event::Unreachable(ConnectError::Io { address: address(), reason: "x".into() }),
            "backend_error",
            "io",
        ),
    ] {
        let mut edge = Edge::new(Forwarding::Plain, true);
        edge.admitted();
        edge.step(Event::Received(handshake("play.example.net", 2)));
        match edge.step(event) {
            Action::Finish { farewell: Some(packet), outcome } => {
                assert_eq!(packet, kick("&cCould not reach the server, please try again"));
                assert_eq!(outcome, Outcome::Refused(reason));
            }
            other => panic!("{other:?}"),
        }
        assert_eq!(edge.registry.active_sessions(), Some(0));
        assert_eq!(
            edge.metrics.backend_failures.snapshot(),
            [(format!("lobby:{kind}"), 1)]
        );
    }
}

#[test]
fn a_player_without_a_route_is_kicked() {
    let mut edge = Edge::new(Forwarding::Plain, true);
    edge.admitted();
    match edge.step(Event::Received(handshake("elsewhere.net", 2))) {
        Action::Finish { farewell: Some(packet), outcome } => {
            assert_eq!(packet, kick("&cUnknown server address"));
            assert_eq!(outcome, Outcome::Refused("no_route"));
        }
        other => panic!("{other:?}"),
    }
}

#[test]
fn a_status_ping_is_answered_here_and_then_its_ping() {
    let mut edge = Edge::new(Forwarding::Transparent, true);
    edge.admitted();
    assert!(matches!(
        edge.step(Event::Received(handshake("play.example.net", 1))),
        Action::Read(Wait::Status)
    ));
    match edge.step(Event::Received(encode_packet(0, &[]))) {
        Action::Send(packet) => {
            let text = decode_frame(&packet).unwrap().reader().string(9999).unwrap();
            let status = Json::parse(&text).unwrap();
            assert_eq!(
                status.get("version").unwrap().get("protocol").unwrap().as_i64(),
                Some(767)
            );
        }
        other => panic!("{other:?}"),
    }
    assert!(matches!(edge.step(Event::Sent), Action::Read(Wait::Status)));
    let mut w = Writer::new();
    w.i64(99);
    match edge.step(Event::Received(encode_packet(PING_REQUEST_ID, w.as_slice()))) {
        Action::Send(packet) => assert_eq!(packet, encode_pong(99)),
        other => panic!("{other:?}"),
    }
    assert!(matches!(
        edge.step(Event::Sent),
        Action::Finish { farewell: None, outcome: Outcome::Status }
    ));
    assert_eq!(edge.metrics.status_requests.get("gateway"), 1);
}

#[test]
fn a_proxied_status_ping_is_opened_as_the_gateway() {
    let mut edge = Edge::new(Forwarding::Transparent, false);
    edge.admitted();
    let sent = handshake("play.example.net", 1);
    match edge.step(Event::Received(sent.clone())) {
        Action::Open { forwarding: Forwarding::Plain, origin: Origin::Gateway, .. } => {}
        other => panic!("{other:?}"),
    }
    assert_eq!(edge.registry.active_sessions(), Some(0), "no slot is taken");
    match edge.step(Event::Connected) {
        Action::Replay(bytes) => assert_eq!(bytes, sent),
        other => panic!("{other:?}"),
    }
    assert!(matches!(
        edge.step(Event::NotSent),
        Action::Finish { outcome: Outcome::Refused("backend_error"), .. }
    ));
    assert_eq!(edge.metrics.status_requests.get("backend"), 1);
    assert_eq!(edge.metrics.backend_failures.get("lobby:io"), 1);
}

#[test]
fn a_header_moves_the_client_and_is_not_replayed() {
    let mut edge = Edge::new(Forwarding::Plain, true);
    let net: Vec<char> = "203.0.113.0".chars().collect();
    edge.inbound = InboundProxyProtocol {
        enabled: true,
        trusted: IpNets(vec![IpNet { addr: parse_ip(&net).unwrap(), prefix: 24 }]),
        required: true,
    };
    assert!(matches!(edge.step(Event::Start), Action::Read(Wait::Handshake)));
    let mut sent = encode_v2(addr("192.0.2.9:77"), addr("198.51.100.1:25565"));
    sent.extend_from_slice(&handshake("play.example.net", 2));
    match edge.step(Event::Received(sent)) {
        Action::Admit(ip) => assert_eq!(ip, addr("192.0.2.9:77").ip),
        other => panic!("{other:?}"),
    }
    match edge.step(Event::Admitted) {
        Action::Open { origin: Origin::Client { src, .. }, .. } => {
            assert_eq!(src, addr("192.0.2.9:77"));
        }
        other => panic!("{other:?}"),
    }
    match edge.step(Event::Connected) {
        Action::Replay(bytes) => assert_eq!(bytes, handshake("play.example.net", 2)),
        other => panic!("{other:?}"),
    }
}

#[test]
fn a_rejected_connection_is_never_parsed() {
    let mut edge = Edge::new(Forwarding::Plain, true);
    edge.step(Event::Start);
    match edge.step(Event::Rejected(Rejection::RateLimited)) {
        Action::Finish { farewell: Some(packet), outcome } => {
            assert_eq!(packet, kick("&cToo many connection attempts, slow down"));
            assert_eq!(outcome, Outcome::Refused("rate_limited"));
        }
        other => panic!("{other:?}"),
    }
    let over = edge.connection.take().unwrap();
    assert!(!over.expects(&Event::Closed), "nothing follows the end");
}

#[test]
fn a_handshake_that_cannot_be_parsed_is_counted_by_its_kind() {
    for (bytes, why, kind) in [
        (handshake("x", 9), "unknown next_state", "unknown_next_state"),
        (encode_packet(7, &[]), "malformed handshake", "unexpected_packet"),
        (vec![0], "malformed handshake", "not_minecraft"),
    ] {
        let mut edge = Edge::new(Forwarding::Plain, true);
        edge.admitted();
        match edge.step(Event::Received(bytes)) {
            Action::Finish { farewell: None, outcome } => {
                assert_eq!(outcome, Outcome::Dropped(why));
            }
            other => panic!("{other:?}"),
        }
        assert_eq!(edge.metrics.handshake_errors.snapshot(), [(kind.to_owned(), 1)]);
    }
}

#[test]
fn an_abandoned_session_gives_its_slot_back() {
    let mut edge = Edge::new(Forwarding::Plain, true);
    edge.admitted();
    edge.step(Event::Received(handshake("play.example.net", 2)));
    assert_eq!(edge.registry.active_sessions(), Some(1));
    edge.connection.take().unwrap().abandon(&mut edge.registry);
    assert_eq!(edge.registry.active_sessions(), Some(0));
}

#[test]
fn counts_go_where_they_belong() {
    let mut metrics = Metrics::new();
    record_count(&mut metrics, &Count::Nothing);
    record_count(&mut metrics, &Count::StatusRequest("legacy"));
    record_count(&mut metrics, &Count::Bytes(Transferred { to_backend: 1, to_client: 2 }));
    assert_eq!(metrics.status_requests.snapshot(), [("legacy".to_owned(), 1)]);
    assert_eq!(
        metrics.bytes.snapshot(),
        [("to_backend".to_owned(), 1), ("to_client".to_owned(), 2)]
    );
}

// ------------------------------------------------------------------- a node --

struct Intercepted {
    config: node::config::Config,
    connection: Option<node::connection::Connection>,
    counts: node::connection::Counts,
}

impl Intercepted {
    fn new(line2: Option<&str>) -> Self {
        let ports = PortRange { start: 30000, end: 40000 };
        let mut config = node::config::Config::for_ports(vec![ports]);
        config.motd.line2 = line2.map(str::to_owned);
        Intercepted {
            config,
            connection: Some(node::connection::Connection::new()),
            counts: node::connection::Counts::none(),
        }
    }

    fn step(&mut self, event: node::connection::Event) -> node::connection::Action {
        let connection = self.connection.take().unwrap();
        assert!(connection.expects(&event), "{connection:?} {event:?}");
        let (connection, action, counts) = connection.step(event, &self.config);
        self.connection = Some(connection);
        self.counts = counts;
        action
    }

    fn sent(&mut self, bytes: &[u8]) -> node::connection::Action {
        self.step(node::connection::Event::Client(SniffEvent::Received(bytes.to_vec())))
    }
}

const AD: &str = "&7Hosted by &bexample.net";

#[test]
fn a_status_ping_gets_the_ad_on_its_way_back() {
    let mut seen = Intercepted::new(Some(AD));
    assert!(matches!(
        seen.step(node::connection::Event::Connected),
        node::connection::Action::Watch
    ));
    assert!(matches!(seen.sent(&handshake("x", 1)), node::connection::Action::Watch));
    let mut sent = handshake("x", 1);
    sent.extend_from_slice(&encode_packet(0, &[]));
    match seen.sent(&encode_packet(0, &[])) {
        node::connection::Action::ToServer(bytes) => assert_eq!(bytes, sent),
        other => panic!("{other:?}"),
    }
    assert!(seen.counts.status_request);
    assert!(matches!(
        seen.step(node::connection::Event::Sent),
        node::connection::Action::ReadServer
    ));
    let response = encode_status_response(r#"{"description":"Steve's SMP\nwhitelist on"}"#);
    let (head, rest) = response.split_at(4);
    assert!(matches!(
        seen.step(node::connection::Event::Response(head.to_vec())),
        node::connection::Action::ReadServer
    ));
    match seen.step(node::connection::Event::Response(rest.to_vec())) {
        node::connection::Action::ToClient(bytes) => {
            let text = decode_frame(&bytes).unwrap().reader().string(9999).unwrap();
            assert_eq!(
                text,
                "{\"description\":{\"text\":\"Steve's SMP\\n\u{a7}7Hosted by \u{a7}bexample.net\"}}"
            );
        }
        other => panic!("{other:?}"),
    }
    assert!(seen.counts.rewrite);
    assert!(matches!(
        seen.step(node::connection::Event::Sent),
        node::connection::Action::Pipe
    ));
    match seen.step(node::connection::Event::Ended(Some((1, 2)))) {
        node::connection::Action::Finish { farewell: None, outcome } => assert_eq!(
            outcome,
            node::connection::Outcome::Piped {
                kind: "status",
                rewritten: true,
                bytes: Some((1, 2))
            }
        ),
        other => panic!("{other:?}"),
    }
}

#[test]
fn a_pre_1_7_ping_passes_through() {
    let mut seen = Intercepted::new(Some(AD));
    seen.step(node::connection::Event::Connected);
    match seen.sent(&[0xFE, 0x01]) {
        node::connection::Action::ToServer(bytes) => assert_eq!(bytes, [0xFE, 0x01]),
        other => panic!("{other:?}"),
    }
    assert!(matches!(
        seen.step(node::connection::Event::Sent),
        node::connection::Action::Pipe
    ));
}

#[test]
fn a_server_that_speaks_first_is_not_kept_waiting() {
    let mut seen = Intercepted::new(Some(AD));
    seen.step(node::connection::Event::Connected);
    let event = node::connection::Event::Client(SniffEvent::ServerSpoke);
    assert!(matches!(seen.step(event), node::connection::Action::Pipe));
}

#[test]
fn a_stopped_server_looks_like_a_closed_port() {
    let mut seen = Intercepted::new(Some(AD));
    seen.config.offline.enabled = false;
    match seen.step(node::connection::Event::Unreachable("refused".into())) {
        node::connection::Action::Finish { farewell: None, outcome } => assert_eq!(
            outcome,
            node::connection::Outcome::Unreachable("refused".into())
        ),
        other => panic!("{other:?}"),
    }
    assert!(seen.counts.unreachable);
}

#[test]
fn a_stopped_server_is_answered_for() {
    let mut seen = Intercepted::new(None);
    assert!(matches!(
        seen.step(node::connection::Event::Unreachable("refused".into())),
        node::connection::Action::Watch
    ));
    let mut sent = handshake("x", 1);
    sent.extend_from_slice(&encode_packet(0, &[]));
    assert!(matches!(seen.sent(&sent), node::connection::Action::ToClient(_)));
    assert!(seen.counts.offline_answer);
    assert!(matches!(
        seen.step(node::connection::Event::Sent),
        node::connection::Action::ReadPing
    ));
    let ping = encode_packet(1, &[0, 0, 0, 0, 0, 0, 0, 7]);
    match seen.sent(&ping) {
        node::connection::Action::Finish { farewell: Some(pong), outcome } => {
            assert_eq!(pong, ping);
            assert_eq!(outcome, node::connection::Outcome::Offline("status"));
        }
        other => panic!("{other:?}"),
    }
    let mut join = Intercepted::new(None);
    join.step(node::connection::Event::Unreachable("refused".into()));
    assert!(matches!(
        join.sent(&handshake("x", 2)),
        node::connection::Action::Finish {
            farewell: Some(_),
            outcome: node::connection::Outcome::Offline("kick")
        }
    ));
}

#[test]
fn without_lines_nothing_is_looked_at() {
    let mut seen = Intercepted::new(None);
    assert!(matches!(
        seen.step(node::connection::Event::Connected),
        node::connection::Action::Pipe
    ));
}
